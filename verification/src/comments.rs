//! Doc-comment clean-up: removing comment delimiters, dropping ordering
//! directive lines, and filtering hidden set-up lines out of fenced code
//! blocks.

use vstd::prelude::*;
use crate::text::{
    contains_seq, join_with, lines_seq, match_at, replace_seq, starts_with_seq, str_contains,
    str_eq, str_lines, str_replace, str_starts_with, str_trim, trim_seq, join_strings,
};

verus! {

/// The directive marker that tags a function group with an explicit
/// display position; lines holding it are stripped from rendered prose.
pub open spec fn index_marker() -> Seq<char> {
    "# rhai-autodocs:index:"@
}

/// The comment-delimiter tokens removed from raw doc text, in order.
pub open spec fn strip_delimiters(s: Seq<char>) -> Seq<char> {
    let e = Seq::<char>::empty();
    replace_seq(
        replace_seq(
            replace_seq(replace_seq(replace_seq(s, "/// "@, e), "///"@, e), "/**"@, e),
            "**/"@,
            e,
        ),
        "**/"@,
        e,
    )
}

/// Remove doc-comment delimiters (`/// `, `///`, `/**`, `**/`) everywhere
/// in the text.
pub fn fmt_doc_comments(dc: String) -> (r: String)
    ensures
        r@ == strip_delimiters(dc@),
{
    proof {
        reveal_strlit("");
        assert(""@ =~= Seq::<char>::empty());
    }
    let a = str_replace(dc.as_str(), "/// ", "");
    let b = str_replace(a.as_str(), "///", "");
    let c = str_replace(b.as_str(), "/**", "");
    let d = str_replace(c.as_str(), "**/", "");
    str_replace(d.as_str(), "**/", "")
}

/// The lines of one comment fragment that do not hold the ordering-directive
/// marker, concatenated without separators.
pub open spec fn concat_kept(ls: Seq<Seq<char>>) -> Seq<char>
    decreases ls.len(),
{
    if ls.len() == 0 {
        Seq::empty()
    } else {
        (if contains_seq(ls[0], index_marker()) {
            Seq::empty()
        } else {
            ls[0]
        }) + concat_kept(ls.skip(1))
    }
}

/// A comment fragment with its directive-marker lines dropped.
pub open spec fn strip_directive_lines(s: Seq<char>) -> Seq<char> {
    concat_kept(lines_seq(s))
}

/// Drop every line holding the ordering-directive marker from each comment
/// fragment, then join the fragments with newlines.
pub fn remove_extra_tokens(dc: Vec<String>) -> (r: String)
    ensures
        r@ == join_with(dc.deep_view().map_values(|s: Seq<char>| strip_directive_lines(s)), "\n"@),
{
    let mut parts: Vec<String> = Vec::new();
    let n: usize = dc.len();
    let mut i: usize = 0;
    while i < n
        invariant
            n == dc.len(),
            i <= n,
            parts.deep_view() =~= dc.deep_view().take(i as int).map_values(
                |s: Seq<char>| strip_directive_lines(s),
            ),
        decreases n - i,
    {
        let lines = str_lines(dc[i].as_str());
        let ghost lv = lines.deep_view();
        let mut kept = String::new();
        let m: usize = lines.len();
        let mut j: usize = 0;
        proof {
            assert(lv.skip(0) =~= lv);
            assert(Seq::<char>::empty() + concat_kept(lv) =~= concat_kept(lv));
        }
        while j < m
            invariant
                m == lines.len(),
                j <= m,
                lv == lines.deep_view(),
                kept@ + concat_kept(lv.skip(j as int)) == concat_kept(lv),
            decreases m - j,
        {
            let ghost pre = kept@;
            proof {
                assert(lv.skip(j as int)[0] == lv[j as int]);
                assert(lv.skip(j as int).skip(1) =~= lv.skip(j + 1));
            }
            if !str_contains(lines[j].as_str(), "# rhai-autodocs:index:") {
                kept.append(lines[j].as_str());
                proof {
                    assert(pre + (lv[j as int] + concat_kept(lv.skip(j + 1))) =~= (pre
                        + lv[j as int]) + concat_kept(lv.skip(j + 1)));
                }
            } else {
                proof {
                    assert(pre + (Seq::<char>::empty() + concat_kept(lv.skip(j + 1))) =~= pre
                        + concat_kept(lv.skip(j + 1)));
                }
            }
            j += 1;
        }
        proof {
            assert(lv.skip(m as int) =~= Seq::<Seq<char>>::empty());
            assert(concat_kept(lv.skip(m as int)) =~= Seq::<char>::empty());
            assert(kept@ + Seq::<char>::empty() =~= kept@);
            assert(kept@ == strip_directive_lines(dc[i as int]@));
        }
        let ghost pp = parts.deep_view();
        let ghost kv = kept@;
        parts.push(kept);
        proof {
            let f = |s: Seq<char>| strip_directive_lines(s);
            assert(parts.deep_view() =~= pp.push(kv));
            let next = dc.deep_view().take(i + 1).map_values(f);
            assert forall|k: int| 0 <= k < next.len() implies next[k] == pp.push(kv)[k] by {
                assert(next[k] == f(dc.deep_view().take(i + 1)[k]));
                assert(dc.deep_view().take(i + 1)[k] == dc.deep_view()[k]);
                if k < i {
                    assert(pp[k] == f(dc.deep_view().take(i as int)[k]));
                }
            }
            assert(parts.deep_view() =~= next);
        }
        i += 1;
    }
    proof {
        assert(dc.deep_view().take(n as int) =~= dc.deep_view());
    }
    join_strings(&parts, "\n")
}

/// A code-fence toggle line: the line is exactly three backticks once
/// trimmed.
pub open spec fn fence_line(l: Seq<char>) -> bool {
    trim_seq(l) == "```"@
}

/// A hidden set-up line: inside a fenced block, starts with `#` but not
/// with `#{`.
pub open spec fn hidden_line(l: Seq<char>, in_block: bool) -> bool {
    in_block && starts_with_seq(l, "#"@) && !starts_with_seq(l, "#{"@)
}

/// The lines kept by the code-block filter, starting in state `in_block`:
/// fence lines are kept and toggle the state; hidden set-up lines inside a
/// block are dropped; every other line is kept.
pub open spec fn kept_lines(ls: Seq<Seq<char>>, in_block: bool) -> Seq<Seq<char>>
    decreases ls.len(),
{
    if ls.len() == 0 {
        Seq::empty()
    } else if fence_line(ls[0]) {
        seq![ls[0]] + kept_lines(ls.skip(1), !in_block)
    } else if hidden_line(ls[0], in_block) {
        kept_lines(ls.skip(1), in_block)
    } else {
        seq![ls[0]] + kept_lines(ls.skip(1), in_block)
    }
}

/// The code-block filter over whole text: split into lines, keep the lines
/// `kept_lines` keeps starting outside any block, and rejoin with newlines.
pub open spec fn remove_test_code_seq(s: Seq<char>) -> Seq<char> {
    join_with(kept_lines(lines_seq(s), false), "\n"@)
}

/// Drop doc-test hidden set-up lines (`#`-prefixed, not `#{`-prefixed)
/// inside fenced code blocks; keep everything else.
pub fn remove_test_code(doc_comments: &str) -> (r: String)
    ensures
        r@ == remove_test_code_seq(doc_comments@),
{
    let lines = str_lines(doc_comments);
    let ghost lv = lines.deep_view();
    let mut kept: Vec<String> = Vec::new();
    let mut in_block = false;
    let n: usize = lines.len();
    let mut i: usize = 0;
    proof {
        assert(lv.skip(0) =~= lv);
        assert(kept.deep_view() + kept_lines(lv, false) =~= kept_lines(lv, false));
    }
    while i < n
        invariant
            n == lines.len(),
            i <= n,
            lv == lines.deep_view(),
            kept_lines(lv, false) == kept.deep_view() + kept_lines(lv.skip(i as int), in_block),
        decreases n - i,
    {
        let ghost pre = kept.deep_view();
        proof {
            assert(lv.skip(i as int)[0] == lv[i as int]);
            assert(lv.skip(i as int).skip(1) =~= lv.skip(i + 1));
        }
        let trimmed = str_trim(lines[i].as_str());
        if str_eq(trimmed.as_str(), "```") {
            in_block = !in_block;
            let line = lines[i].clone();
            kept.push(line);
            proof {
                assert(kept.deep_view() =~= pre.push(lv[i as int]));
                assert(pre + (seq![lv[i as int]] + kept_lines(lv.skip(i + 1), in_block)) =~= pre.push(
                    lv[i as int],
                ) + kept_lines(lv.skip(i + 1), in_block));
            }
        } else if in_block && str_starts_with(lines[i].as_str(), "#") && !str_starts_with(
            lines[i].as_str(),
            "#{",
        ) {
            proof {
                assert(hidden_line(lv[i as int], in_block));
            }
        } else {
            let line = lines[i].clone();
            kept.push(line);
            proof {
                assert(kept.deep_view() =~= pre.push(lv[i as int]));
                assert(pre + (seq![lv[i as int]] + kept_lines(lv.skip(i + 1), in_block)) =~= pre.push(
                    lv[i as int],
                ) + kept_lines(lv.skip(i + 1), in_block));
            }
        }
        i += 1;
    }
    proof {
        assert(lv.skip(n as int) =~= Seq::<Seq<char>>::empty());
        assert(kept.deep_view() + kept_lines(lv.skip(n as int), in_block) =~= kept.deep_view());
    }
    join_strings(&kept, "\n")
}

/// Replacing a pattern that never occurs changes nothing.
pub proof fn lemma_replace_absent(s: Seq<char>, pat: Seq<char>, to: Seq<char>)
    requires
        !contains_seq(s, pat),
    ensures
        replace_seq(s, pat, to) == s,
    decreases s.len(),
{
    if pat.len() == 0 || s.len() == 0 {
    } else if starts_with_seq(s, pat) {
        assert(match_at(s, pat, 0));
        assert(false);
    } else {
        assert forall|i: int| !match_at(s.skip(1), pat, i) by {
            if match_at(s.skip(1), pat, i) {
                assert(s.subrange(i + 1, i + 1 + pat.len() as int) =~= s.skip(1).subrange(
                    i,
                    i + pat.len() as int,
                ));
                assert(match_at(s, pat, i + 1));
            }
        }
        lemma_replace_absent(s.skip(1), pat, to);
        assert(seq![s[0]] + s.skip(1) =~= s);
    }
}

/// Delimiter stripping is the identity on prose that holds no comment
/// delimiter token, so formatting already-clean prose returns it unchanged
/// up to the code-block hidden-line filter.
pub proof fn lemma_strip_delimiters_clean(s: Seq<char>)
    requires
        !contains_seq(s, "///"@),
        !contains_seq(s, "/**"@),
        !contains_seq(s, "**/"@),
    ensures
        strip_delimiters(s) == s,
        remove_test_code_seq(strip_delimiters(s)) == remove_test_code_seq(s),
{
    reveal_strlit("///");
    reveal_strlit("/// ");
    assert forall|i: int| !match_at(s, "/// "@, i) by {
        if match_at(s, "/// "@, i) {
            assert(s.subrange(i, i + 3) =~= s.subrange(i, i + 4).take(3));
            assert(s.subrange(i, i + 4) == "/// "@);
            assert("/// "@.take(3) =~= "///"@);
            assert(match_at(s, "///"@, i));
        }
    }
    let e = Seq::<char>::empty();
    lemma_replace_absent(s, "/// "@, e);
    lemma_replace_absent(s, "///"@, e);
    lemma_replace_absent(s, "/**"@, e);
    lemma_replace_absent(s, "**/"@, e);
    lemma_replace_absent(s, "**/"@, e);
}

/// Outside a fenced code block every line is kept: when no line of the text
/// is a fence toggle, the code-block filter keeps all lines, `#`-prefixed
/// ones included.
pub proof fn lemma_no_fence_keeps_all(ls: Seq<Seq<char>>)
    requires
        forall|i: int| 0 <= i < ls.len() ==> !fence_line(ls[i]),
    ensures
        kept_lines(ls, false) == ls,
    decreases ls.len(),
{
    if ls.len() == 0 {
        assert(kept_lines(ls, false) =~= ls);
    } else {
        assert(forall|i: int| 0 <= i < ls.skip(1).len() ==> ls.skip(1)[i] == ls[i + 1]);
        lemma_no_fence_keeps_all(ls.skip(1));
        assert(seq![ls[0]] + ls.skip(1) =~= ls);
    }
}

} // verus!
