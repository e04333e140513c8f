//! Verified character-level string utilities: substring matching, global
//! replacement, line splitting and joining, trimming, lexicographic
//! comparison, and unsigned-integer parsing.

use vstd::prelude::*;

verus! {

/// A match of `pat` occurs in `s` at position `i`.
pub open spec fn match_at(s: Seq<char>, pat: Seq<char>, i: int) -> bool {
    0 <= i && i + pat.len() <= s.len() && s.subrange(i, i + pat.len() as int) == pat
}

/// `pat` occurs somewhere in `s`.
pub open spec fn contains_seq(s: Seq<char>, pat: Seq<char>) -> bool {
    exists|i: int| match_at(s, pat, i)
}

pub open spec fn starts_with_seq(s: Seq<char>, pat: Seq<char>) -> bool {
    match_at(s, pat, 0)
}

pub open spec fn ends_with_seq(s: Seq<char>, pat: Seq<char>) -> bool {
    match_at(s, pat, s.len() - pat.len())
}

/// Every occurrence of a non-empty `pat` in `s` replaced by `to`, scanning
/// left to right without overlap; the identity when `pat` is empty.
pub open spec fn replace_seq(s: Seq<char>, pat: Seq<char>, to: Seq<char>) -> Seq<char>
    decreases s.len(),
{
    if pat.len() == 0 || s.len() == 0 {
        s
    } else if starts_with_seq(s, pat) {
        to + replace_seq(s.skip(pat.len() as int), pat, to)
    } else {
        seq![s[0]] + replace_seq(s.skip(1), pat, to)
    }
}

/// Equality test on string slices, settled character by character.
pub fn str_eq(a: &str, b: &str) -> (r: bool)
    ensures
        r == (a@ == b@),
{
    let an: usize = a.unicode_len();
    let bn: usize = b.unicode_len();
    if an != bn {
        return false;
    }
    for i in 0..an
        invariant
            an == a@.len(),
            an == b@.len(),
            forall|j: int| 0 <= j < i ==> a@[j] == b@[j],
    {
        if a.get_char(i) != b.get_char(i) {
            return false;
        }
    }
    proof {
        assert(a@ =~= b@);
    }
    true
}

/// Whether `pat` matches inside `s` at position `i`.
pub fn str_match_at(s: &str, pat: &str, i: usize) -> (r: bool)
    ensures
        r == match_at(s@, pat@, i as int),
{
    let sn: usize = s.unicode_len();
    let pn: usize = pat.unicode_len();
    if i > sn || pn > sn - i {
        return false;
    }
    for j in 0..pn
        invariant
            sn == s@.len(),
            pn == pat@.len(),
            i + pn <= sn,
            forall|k: int| 0 <= k < j ==> s@[i + k] == pat@[k],
    {
        if s.get_char(i + j) != pat.get_char(j) {
            proof {
                assert(s@.subrange(i as int, i + pn as int)[j as int] == s@[i + j]);
            }
            return false;
        }
    }
    proof {
        assert(s@.subrange(i as int, i + pn as int) =~= pat@);
    }
    true
}

/// Position of the first match of `pat` in `s` at or after `from`.
pub fn find_from(s: &str, pat: &str, from: usize) -> (r: Option<usize>)
    ensures
        match r {
            Some(i) => from <= i && match_at(s@, pat@, i as int) && forall|j: int|
                from <= j < i ==> !match_at(s@, pat@, j),
            None => forall|j: int| from <= j ==> !match_at(s@, pat@, j),
        },
{
    let sn: usize = s.unicode_len();
    let mut i: usize = from;
    while i < sn
        invariant
            sn == s@.len(),
            from <= i,
            forall|j: int| from <= j < i ==> !match_at(s@, pat@, j),
        decreases sn - i,
    {
        if str_match_at(s, pat, i) {
            return Some(i);
        }
        i += 1;
    }
    if from <= sn && str_match_at(s, pat, sn) {
        return Some(sn);
    }
    proof {
        assert(forall|j: int| j > sn ==> !match_at(s@, pat@, j));
    }
    None
}

/// Position of the last match of `pat` in `s`.
pub fn find_last(s: &str, pat: &str) -> (r: Option<usize>)
    ensures
        match r {
            Some(i) => match_at(s@, pat@, i as int) && forall|j: int|
                i < j ==> !match_at(s@, pat@, j),
            None => !contains_seq(s@, pat@),
        },
{
    let sn: usize = s.unicode_len();
    if str_match_at(s, pat, sn) {
        return Some(sn);
    }
    let mut i: usize = sn;
    while i > 0
        invariant
            sn == s@.len(),
            i <= sn,
            forall|j: int| i <= j ==> !match_at(s@, pat@, j),
        decreases i,
    {
        i -= 1;
        if str_match_at(s, pat, i) {
            return Some(i);
        }
    }
    None
}

/// `pat` occurs somewhere in `s`.
pub fn str_contains(s: &str, pat: &str) -> (r: bool)
    ensures
        r == contains_seq(s@, pat@),
{
    find_from(s, pat, 0).is_some()
}

/// `s` starts with `pat`.
pub fn str_starts_with(s: &str, pat: &str) -> (r: bool)
    ensures
        r == starts_with_seq(s@, pat@),
{
    str_match_at(s, pat, 0)
}

/// `s` ends with `pat`.
pub fn str_ends_with(s: &str, pat: &str) -> (r: bool)
    ensures
        r == ends_with_seq(s@, pat@),
{
    let sn: usize = s.unicode_len();
    let pn: usize = pat.unicode_len();
    if pn > sn {
        return false;
    }
    str_match_at(s, pat, sn - pn)
}

/// An owned copy of `s[from..to]` (in character positions).
pub fn substring(s: &str, from: usize, to: usize) -> (r: String)
    requires
        from <= to <= s@.len(),
    ensures
        r@ == s@.subrange(from as int, to as int),
{
    s.substring_char(from, to).to_owned()
}

/// Every occurrence of `pat` in `s` replaced by `to`.
pub fn str_replace(s: &str, pat: &str, to: &str) -> (r: String)
    ensures
        r@ == replace_seq(s@, pat@, to@),
{
    let sn: usize = s.unicode_len();
    let pn: usize = pat.unicode_len();
    if pn == 0 {
        return s.to_owned();
    }
    let mut out = String::new();
    let mut i: usize = 0;
    proof {
        assert(s@.skip(0) =~= s@);
        assert(Seq::<char>::empty() + replace_seq(s@, pat@, to@) =~= replace_seq(s@, pat@, to@));
    }
    while i < sn
        invariant
            sn == s@.len(),
            pn == pat@.len(),
            pn > 0,
            i <= sn,
            out@ + replace_seq(s@.skip(i as int), pat@, to@) == replace_seq(s@, pat@, to@),
        decreases sn - i,
    {
        let ghost pre = out@;
        let ghost rest = s@.skip(i as int);
        if str_match_at(s, pat, i) {
            out.append(to);
            proof {
                assert(rest.subrange(0, pn as int) =~= s@.subrange(i as int, i + pn as int));
                assert(starts_with_seq(rest, pat@));
                assert(rest.skip(pn as int) =~= s@.skip(i + pn as int));
                assert(replace_seq(rest, pat@, to@) == to@ + replace_seq(
                    s@.skip(i + pn as int),
                    pat@,
                    to@,
                ));
                assert(pre + (to@ + replace_seq(s@.skip(i + pn as int), pat@, to@))
                    =~= (pre + to@) + replace_seq(s@.skip(i + pn as int), pat@, to@));
            }
            i += pn;
        } else {
            let c = s.substring_char(i, i + 1);
            out.append(c);
            proof {
                if starts_with_seq(rest, pat@) {
                    assert(s@.subrange(i as int, i + pn as int) =~= rest.subrange(0, pn as int));
                    assert(false);
                }
                assert(rest.skip(1) =~= s@.skip(i + 1));
                assert(seq![rest[0]] =~= s@.subrange(i as int, i + 1));
                assert(replace_seq(rest, pat@, to@) == s@.subrange(i as int, i + 1)
                    + replace_seq(s@.skip(i + 1), pat@, to@));
                assert(pre + (s@.subrange(i as int, i + 1) + replace_seq(s@.skip(i + 1), pat@, to@))
                    =~= (pre + s@.subrange(i as int, i + 1)) + replace_seq(s@.skip(i + 1), pat@, to@));
            }
            i += 1;
        }
    }
    proof {
        assert(s@.skip(sn as int) =~= Seq::<char>::empty());
        assert(out@ + Seq::<char>::empty() =~= out@);
    }
    out
}

/// Index of the first newline character in `s`, or `s.len()` if there is none.
pub open spec fn first_nl(s: Seq<char>) -> int
    decreases s.len(),
{
    if s.len() == 0 {
        0
    } else if s[0] == '\n' {
        0
    } else {
        1 + first_nl(s.skip(1))
    }
}

pub proof fn lemma_first_nl(s: Seq<char>)
    ensures
        0 <= first_nl(s) <= s.len(),
        forall|j: int| 0 <= j < first_nl(s) ==> s[j] != '\n',
        first_nl(s) < s.len() ==> s[first_nl(s)] == '\n',
    decreases s.len(),
{
    if s.len() == 0 {
    } else if s[0] == '\n' {
    } else {
        lemma_first_nl(s.skip(1));
        assert forall|j: int| 0 <= j < first_nl(s) implies s[j] != '\n' by {
            if j > 0 {
                assert(s.skip(1)[j - 1] == s[j]);
            }
        }
        if first_nl(s) < s.len() {
            assert(s.skip(1)[first_nl(s.skip(1))] == s[first_nl(s)]);
        }
    }
}

/// A line with one trailing carriage return removed, as line splitting does.
pub open spec fn strip_cr(l: Seq<char>) -> Seq<char> {
    if l.len() > 0 && l[l.len() - 1] == '\r' {
        l.drop_last()
    } else {
        l
    }
}

/// The lines of `s`: split at `\n`, one trailing `\r` removed from each
/// newline-terminated line, no empty final line for a trailing newline, and
/// no lines at all when `s` is empty. A final line with no newline after it
/// is kept whole, carriage return included.
pub open spec fn lines_seq(s: Seq<char>) -> Seq<Seq<char>>
    decreases s.len(),
{
    if s.len() == 0 {
        Seq::empty()
    } else {
        let i = first_nl(s);
        if 0 <= i && i < s.len() {
            seq![strip_cr(s.take(i))] + lines_seq(s.skip(i + 1))
        } else {
            seq![s]
        }
    }
}

/// The lines of `s`, as owned strings.
pub fn str_lines(s: &str) -> (r: Vec<String>)
    ensures
        r.deep_view() == lines_seq(s@),
{
    let mut out: Vec<String> = Vec::new();
    let n: usize = s.unicode_len();
    let mut i: usize = 0;
    proof {
        reveal_strlit("\n");
        assert(s@.skip(0) =~= s@);
        assert(out.deep_view() + lines_seq(s@) =~= lines_seq(s@));
    }
    while i < n
        invariant
            n == s@.len(),
            i <= n,
            "\n"@ == seq!['\n'],
            lines_seq(s@) == out.deep_view() + lines_seq(s@.skip(i as int)),
        decreases n - i,
    {
        let ghost rest = s@.skip(i as int);
        let ghost old_out = out.deep_view();
        proof {
            lemma_first_nl(rest);
        }
        let j_opt = find_from(s, "\n", i);
        match j_opt {
            Some(j) => {
                proof {
                    assert(s@.subrange(j as int, j + 1) =~= seq![s@[j as int]]);
                    assert(s@.subrange(j as int, j + 1) == "\n"@);
                    assert(s@[j as int] == seq![s@[j as int]][0]);
                    assert(s@[j as int] == '\n');
                    assert forall|k: int| 0 <= k < j - i implies rest[k] != '\n' by {
                        assert(s@.subrange(i + k, i + k + 1) =~= seq![s@[i + k]]);
                        assert(!match_at(s@, "\n"@, i + k));
                    }
                    if first_nl(rest) < j - i {
                        assert(rest[first_nl(rest)] != '\n');
                        assert(false);
                    }
                    if first_nl(rest) > j - i {
                        assert(rest[j - i] == s@[j as int]);
                        assert(false);
                    }
                    assert(first_nl(rest) == j - i);
                }
                let line: String = if j > i && s.get_char(j - 1) == '\r' {
                    substring(s, i, j - 1)
                } else {
                    substring(s, i, j)
                };
                proof {
                    assert(rest.take(j - i) =~= s@.subrange(i as int, j as int));
                    if j > i && s@[j - 1] == '\r' {
                        assert(strip_cr(rest.take(j - i)) =~= s@.subrange(i as int, j - 1));
                    } else {
                        assert(strip_cr(rest.take(j - i)) =~= s@.subrange(i as int, j as int));
                    }
                    assert(strip_cr(rest.take(j - i)) == line@);
                }
                out.push(line);
                proof {
                    assert(out.deep_view() =~= old_out.push(line@));
                    assert(rest.skip(j - i + 1) =~= s@.skip(j + 1));
                    assert(lines_seq(rest) == seq![line@] + lines_seq(s@.skip(j + 1)));
                    assert(old_out + (seq![line@] + lines_seq(s@.skip(j + 1))) =~= old_out.push(
                        line@,
                    ) + lines_seq(s@.skip(j + 1)));
                }
                i = j + 1;
            },
            None => {
                proof {
                    assert forall|k: int| 0 <= k < rest.len() implies rest[k] != '\n' by {
                        assert(s@.subrange(i + k, i + k + 1) =~= seq![s@[i + k]]);
                        assert(!match_at(s@, "\n"@, i + k));
                    }
                    if first_nl(rest) < rest.len() {
                        assert(rest[first_nl(rest)] == '\n');
                        assert(false);
                    }
                }
                let line: String = substring(s, i, n);
                proof {
                    assert(rest =~= s@.subrange(i as int, n as int));
                    assert(rest == line@);
                }
                out.push(line);
                proof {
                    assert(out.deep_view() =~= old_out.push(line@));
                    assert(lines_seq(rest) == seq![line@]);
                    assert(s@.skip(n as int) =~= Seq::<char>::empty());
                    assert(old_out + seq![line@] =~= old_out.push(line@) + lines_seq(
                        s@.skip(n as int),
                    ));
                }
                i = n;
            },
        }
    }
    proof {
        assert(s@.skip(n as int) =~= Seq::<char>::empty());
        assert(out.deep_view() + lines_seq(Seq::<char>::empty()) =~= out.deep_view());
    }
    out
}

/// The parts joined with `sep` between consecutive parts.
pub open spec fn join_with(parts: Seq<Seq<char>>, sep: Seq<char>) -> Seq<char>
    decreases parts.len(),
{
    if parts.len() == 0 {
        Seq::empty()
    } else if parts.len() == 1 {
        parts[0]
    } else {
        parts[0] + sep + join_with(parts.skip(1), sep)
    }
}

pub proof fn lemma_join_push(parts: Seq<Seq<char>>, sep: Seq<char>, last: Seq<char>)
    ensures
        parts.len() == 0 ==> join_with(parts.push(last), sep) == last,
        parts.len() > 0 ==> join_with(parts.push(last), sep) == join_with(parts, sep) + sep + last,
    decreases parts.len(),
{
    if parts.len() == 0 {
        assert(parts.push(last)[0] == last);
    } else if parts.len() == 1 {
        assert(parts.push(last).skip(1) =~= seq![last]);
        assert(parts.push(last)[0] == parts[0]);
        assert(seq![last][0] == last);
        assert(join_with(seq![last], sep) == last);
        assert(join_with(parts.push(last), sep) == parts[0] + sep + last);
    } else {
        lemma_join_push(parts.skip(1), sep, last);
        assert(parts.push(last).skip(1) =~= parts.skip(1).push(last));
        assert(join_with(parts.push(last), sep) == parts[0] + sep + join_with(
            parts.skip(1).push(last),
            sep,
        ));
        assert((parts[0] + sep + (join_with(parts.skip(1), sep) + sep + last)) =~= ((parts[0] + sep
            + join_with(parts.skip(1), sep)) + sep + last));
    }
}

/// The parts joined with `sep`.
pub fn join_strings(parts: &Vec<String>, sep: &str) -> (r: String)
    ensures
        r@ == join_with(parts.deep_view(), sep@),
{
    let mut out = String::new();
    let n: usize = parts.len();
    let mut i: usize = 0;
    while i < n
        invariant
            n == parts.len(),
            i <= n,
            out@ == join_with(parts.deep_view().take(i as int), sep@),
        decreases n - i,
    {
        if i > 0 {
            out.append(sep);
        }
        out.append(parts[i].as_str());
        proof {
            let dv = parts.deep_view();
            assert(dv.take(i + 1) =~= dv.take(i as int).push(dv[i as int]));
            lemma_join_push(dv.take(i as int), sep@, dv[i as int]);
            assert(dv[i as int] == parts[i as int]@);
        }
        i += 1;
    }
    proof {
        assert(parts.deep_view().take(n as int) =~= parts.deep_view());
    }
    out
}

/// The Unicode white-space characters, as trimming understands them.
pub open spec fn is_ws(c: char) -> bool {
    (9 <= (c as u32) && (c as u32) <= 13) || c == ' ' || c == '\u{85}' || c == '\u{A0}' || c
        == '\u{1680}' || (0x2000 <= (c as u32) && (c as u32) <= 0x200A) || c == '\u{2028}' || c
        == '\u{2029}' || c == '\u{202F}' || c == '\u{205F}' || c == '\u{3000}'
}

pub fn is_ws_char(c: char) -> (r: bool)
    ensures
        r == is_ws(c),
{
    let u = c as u32;
    (9 <= u && u <= 13) || c == ' ' || c == '\u{85}' || c == '\u{A0}' || c == '\u{1680}' || (0x2000
        <= u && u <= 0x200A) || c == '\u{2028}' || c == '\u{2029}' || c == '\u{202F}' || c
        == '\u{205F}' || c == '\u{3000}'
}

pub open spec fn trim_start_seq(s: Seq<char>) -> Seq<char>
    decreases s.len(),
{
    if s.len() > 0 && is_ws(s[0]) {
        trim_start_seq(s.skip(1))
    } else {
        s
    }
}

pub open spec fn trim_end_seq(s: Seq<char>) -> Seq<char>
    decreases s.len(),
{
    if s.len() > 0 && is_ws(s[s.len() - 1]) {
        trim_end_seq(s.drop_last())
    } else {
        s
    }
}

/// `s` with white space removed from both ends.
pub open spec fn trim_seq(s: Seq<char>) -> Seq<char> {
    trim_end_seq(trim_start_seq(s))
}

/// An owned copy of `s` with white space trimmed from both ends.
pub fn str_trim(s: &str) -> (r: String)
    ensures
        r@ == trim_seq(s@),
{
    let n: usize = s.unicode_len();
    let mut a: usize = 0;
    proof {
        assert(s@.skip(0) =~= s@);
    }
    while a < n && is_ws_char(s.get_char(a))
        invariant
            n == s@.len(),
            a <= n,
            trim_start_seq(s@) == trim_start_seq(s@.skip(a as int)),
        decreases n - a,
    {
        proof {
            assert(s@.skip(a as int)[0] == s@[a as int]);
            assert(s@.skip(a as int).skip(1) =~= s@.skip(a + 1));
        }
        a += 1;
    }
    let ghost t = s@.skip(a as int);
    proof {
        if a < n {
            assert(t[0] == s@[a as int]);
        }
        assert(trim_start_seq(s@) == t);
        assert(t =~= s@.subrange(a as int, n as int));
    }
    let mut b: usize = n;
    while b > a && is_ws_char(s.get_char(b - 1))
        invariant
            n == s@.len(),
            a <= b <= n,
            trim_end_seq(t) == trim_end_seq(s@.subrange(a as int, b as int)),
        decreases b,
    {
        proof {
            let cur = s@.subrange(a as int, b as int);
            assert(cur[cur.len() - 1] == s@[b - 1]);
            assert(cur.drop_last() =~= s@.subrange(a as int, b - 1));
        }
        b -= 1;
    }
    proof {
        let cur = s@.subrange(a as int, b as int);
        if b > a {
            assert(cur[cur.len() - 1] == s@[b - 1]);
        }
        assert(trim_end_seq(cur) == cur);
    }
    substring(s, a, b)
}

/// Lexicographic order on character sequences by code point, the order in
/// which strings compare.
pub open spec fn lex_leq(a: Seq<char>, b: Seq<char>) -> bool
    decreases a.len(),
{
    if a.len() == 0 {
        true
    } else if b.len() == 0 {
        false
    } else if (a[0] as u32) < (b[0] as u32) {
        true
    } else if (a[0] as u32) == (b[0] as u32) {
        lex_leq(a.skip(1), b.skip(1))
    } else {
        false
    }
}

/// The lexicographic order is total.
pub proof fn lemma_lex_total(a: Seq<char>, b: Seq<char>)
    ensures
        lex_leq(a, b) || lex_leq(b, a),
    decreases a.len(),
{
    if a.len() == 0 {
    } else if b.len() == 0 {
    } else if (a[0] as u32) == (b[0] as u32) {
        lemma_lex_total(a.skip(1), b.skip(1));
    }
}

/// The lexicographic order is transitive.
pub proof fn lemma_lex_trans(a: Seq<char>, b: Seq<char>, c: Seq<char>)
    requires
        lex_leq(a, b),
        lex_leq(b, c),
    ensures
        lex_leq(a, c),
    decreases a.len(),
{
    if a.len() == 0 {
    } else if (a[0] as u32) == (b[0] as u32) && (b[0] as u32) == (c[0] as u32) {
        lemma_lex_trans(a.skip(1), b.skip(1), c.skip(1));
    }
}

/// String comparison: `a` is at or before `b` in lexicographic order.
pub fn str_leq(a: &str, b: &str) -> (r: bool)
    ensures
        r == lex_leq(a@, b@),
{
    let an: usize = a.unicode_len();
    let bn: usize = b.unicode_len();
    let mut i: usize = 0;
    proof {
        assert(a@.skip(0) =~= a@);
        assert(b@.skip(0) =~= b@);
    }
    while i < an && i < bn
        invariant
            an == a@.len(),
            bn == b@.len(),
            i <= an,
            i <= bn,
            lex_leq(a@, b@) == lex_leq(a@.skip(i as int), b@.skip(i as int)),
        decreases an - i,
    {
        let ca = a.get_char(i);
        let cb = b.get_char(i);
        proof {
            assert(a@.skip(i as int)[0] == a@[i as int]);
            assert(b@.skip(i as int)[0] == b@[i as int]);
        }
        if (ca as u32) < (cb as u32) {
            return true;
        }
        if (ca as u32) > (cb as u32) {
            return false;
        }
        proof {
            assert((ca as u32) == (cb as u32));
            assert(a@.skip(i as int).skip(1) =~= a@.skip(i + 1));
            assert(b@.skip(i as int).skip(1) =~= b@.skip(i + 1));
        }
        i += 1;
    }
    proof {
        if an <= bn {
            assert(a@.skip(i as int).len() == 0);
        } else {
            assert(b@.skip(i as int).len() == 0);
            assert(a@.skip(i as int).len() > 0);
        }
    }
    an <= bn
}

pub open spec fn is_digit(c: char) -> bool {
    48 <= (c as u32) && (c as u32) <= 57
}

pub open spec fn digit_val(c: char) -> int {
    (c as u32) - 48
}

pub open spec fn all_digits(s: Seq<char>) -> bool {
    forall|i: int| 0 <= i < s.len() ==> is_digit(s[i])
}

/// The number a digit string denotes.
pub open spec fn digits_val(s: Seq<char>) -> int
    decreases s.len(),
{
    if s.len() == 0 {
        0
    } else {
        digits_val(s.drop_last()) * 10 + digit_val(s.last())
    }
}

/// The digits of an unsigned decimal numeral: the whole string, or what
/// follows one leading plus sign.
pub open spec fn uint_body(s: Seq<char>) -> Seq<char> {
    if s.len() > 0 && s[0] == '+' {
        s.skip(1)
    } else {
        s
    }
}

/// `s` parses as a `usize`: a non-empty all-digit body whose value fits.
pub open spec fn parses_as_uint(s: Seq<char>) -> bool {
    uint_body(s).len() > 0 && all_digits(uint_body(s)) && digits_val(uint_body(s)) <= usize::MAX
        as int
}

pub proof fn lemma_digits_val_bounds(s: Seq<char>)
    requires
        all_digits(s),
    ensures
        digits_val(s) >= 0,
        forall|k: int| 0 <= k <= s.len() ==> digits_val(#[trigger] s.take(k)) <= digits_val(s),
    decreases s.len(),
{
    if s.len() == 0 {
        assert forall|k: int| 0 <= k <= s.len() implies digits_val(#[trigger] s.take(k))
            <= digits_val(s) by {
            assert(s.take(k) =~= s);
        }
    } else {
        assert(all_digits(s.drop_last())) by {
            assert(forall|i: int| 0 <= i < s.len() - 1 ==> s.drop_last()[i] == s[i]);
        }
        lemma_digits_val_bounds(s.drop_last());
        assert(is_digit(s.last()));
        assert(digits_val(s) >= 0);
        assert forall|k: int| 0 <= k <= s.len() implies digits_val(#[trigger] s.take(k))
            <= digits_val(s) by {
            if k == s.len() {
                assert(s.take(k) =~= s);
            } else {
                assert(s.take(k) =~= s.drop_last().take(k));
                assert(digits_val(s.drop_last().take(k)) <= digits_val(s.drop_last()));
                assert(digits_val(s.drop_last()) <= digits_val(s.drop_last()) * 10);
            }
        }
    }
}

/// Parse `s` as an unsigned decimal integer: the value when `s` is a
/// well-formed numeral that fits in `usize`, and nothing otherwise.
pub fn parse_usize(s: &str) -> (r: Option<usize>)
    ensures
        match r {
            Some(v) => parses_as_uint(s@) && v == digits_val(uint_body(s@)),
            None => !parses_as_uint(s@),
        },
{
    let n: usize = s.unicode_len();
    let start: usize = if n > 0 && s.get_char(0) == '+' {
        1
    } else {
        0
    };
    let ghost body = uint_body(s@);
    proof {
        assert(body =~= s@.skip(start as int));
    }
    if start >= n {
        return None;
    }
    let mut acc: usize = 0;
    let mut i: usize = start;
    proof {
        assert(body.take(0) =~= Seq::<char>::empty());
    }
    while i < n
        invariant
            n == s@.len(),
            start <= i <= n,
            body == uint_body(s@),
            body == s@.skip(start as int),
            forall|j: int| 0 <= j < i - start ==> is_digit(body[j]),
            acc as int == digits_val(body.take(i - start)),
        decreases n - i,
    {
        let c = s.get_char(i);
        let cu = c as u32;
        proof {
            assert(body[i - start] == s@[i as int]);
        }
        if cu < 48 || cu > 57 {
            proof {
                assert(!is_digit(body[i - start]));
                assert(!all_digits(body));
            }
            return None;
        }
        let d: usize = (cu - 48) as usize;
        let ghost taken = body.take(i - start + 1);
        proof {
            assert(taken.drop_last() =~= body.take(i - start));
            assert(taken.last() == body[i - start]);
            assert(digits_val(taken) == (acc as int) * 10 + (d as int));
        }
        if acc > usize::MAX / 10 || (acc == usize::MAX / 10 && d > usize::MAX % 10) {
            proof {
                let m = usize::MAX as int;
                vstd::arithmetic::div_mod::lemma_fundamental_div_mod(m, 10);
                vstd::arithmetic::div_mod::lemma_mod_division_less_than_divisor(m, 10);
                assert((acc as int) * 10 + (d as int) > m);
                if all_digits(body) {
                    lemma_digits_val_bounds(body);
                    assert(digits_val(body.take(i - start + 1)) <= digits_val(body));
                    assert(digits_val(body) > m);
                }
                assert(!parses_as_uint(s@));
            }
            return None;
        }
        acc = acc * 10 + d;
        i += 1;
    }
    proof {
        assert(body.take(n - start) =~= body);
    }
    Some(acc)
}

} // verus!
