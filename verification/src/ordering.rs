//! Function grouping and ordering: overloads are grouped by raw name, and
//! groups are ordered alphabetically or by an explicit ordering directive
//! carried in doc comments, with the directive set validated.

use vstd::prelude::*;
use vstd::pervasive::unreached;
use crate::comments::index_marker;
use crate::model::{Error, FunctionMetadata};
use crate::text::{
    contains_seq, digits_val, find_last, lemma_lex_total, lemma_lex_trans, lex_leq, match_at,
    parse_usize, parses_as_uint, str_eq, str_leq, substring, uint_body,
};

verus! {

/// The functions of `fs` bearing the raw name `key`, in order.
pub open spec fn with_name(fs: Seq<FunctionMetadata>, key: Seq<char>) -> Seq<FunctionMetadata>
    decreases fs.len(),
{
    if fs.len() == 0 {
        Seq::empty()
    } else {
        with_name(fs.drop_last(), key) + if fs.last().name@ == key {
            seq![fs.last()]
        } else {
            Seq::empty()
        }
    }
}

/// The distinct raw names of `fs`, in first-occurrence order.
pub open spec fn distinct_names(fs: Seq<FunctionMetadata>) -> Seq<Seq<char>>
    decreases fs.len(),
{
    if fs.len() == 0 {
        Seq::empty()
    } else {
        let d = distinct_names(fs.drop_last());
        if d.contains(fs.last().name@) {
            d
        } else {
            d.push(fs.last().name@)
        }
    }
}

pub proof fn lemma_distinct_names_no_dup(fs: Seq<FunctionMetadata>)
    ensures
        forall|a: int, b: int|
            0 <= a < b < distinct_names(fs).len() ==> distinct_names(fs)[a] != distinct_names(
                fs,
            )[b],
        forall|i: int| 0 <= i < fs.len() ==> distinct_names(fs).contains(fs[i].name@),
    decreases fs.len(),
{
    if fs.len() > 0 {
        lemma_distinct_names_no_dup(fs.drop_last());
        let d = distinct_names(fs.drop_last());
        assert(forall|i: int| 0 <= i < fs.len() - 1 ==> fs.drop_last()[i] == fs[i]);
        if !d.contains(fs.last().name@) {
            assert forall|i: int| 0 <= i < fs.len() implies distinct_names(fs).contains(
                fs[i].name@,
            ) by {
                if i < fs.len() - 1 {
                    let j = choose|j: int| 0 <= j < d.len() && d[j] == fs[i].name@;
                    assert(distinct_names(fs)[j] == fs[i].name@);
                } else {
                    assert(distinct_names(fs)[d.len() as int] == fs.last().name@);
                }
            }
        } else {
            assert forall|i: int| 0 <= i < fs.len() implies distinct_names(fs).contains(
                fs[i].name@,
            ) by {
                if i < fs.len() - 1 {
                    let j = choose|j: int| 0 <= j < d.len() && d[j] == fs[i].name@;
                    assert(distinct_names(fs)[j] == fs[i].name@);
                }
            }
        }
    }
}

pub proof fn lemma_with_name_absent(fs: Seq<FunctionMetadata>, key: Seq<char>)
    requires
        forall|i: int| 0 <= i < fs.len() ==> fs[i].name@ != key,
    ensures
        with_name(fs, key) == Seq::<FunctionMetadata>::empty(),
    decreases fs.len(),
{
    if fs.len() > 0 {
        assert(forall|i: int| 0 <= i < fs.len() - 1 ==> fs.drop_last()[i] == fs[i]);
        lemma_with_name_absent(fs.drop_last(), key);
        assert(with_name(fs.drop_last(), key) + Seq::<FunctionMetadata>::empty() =~= Seq::<
            FunctionMetadata,
        >::empty());
    }
}

/// Group a module's functions by their raw name: one group per distinct
/// name, keyed in first-occurrence order, each group holding its overloads
/// in input order.
pub fn group_functions(functions: Vec<FunctionMetadata>) -> (r: Vec<(String, Vec<FunctionMetadata>)>)
    ensures
        r@.len() == distinct_names(functions@).len(),
        forall|k: int|
            0 <= k < r@.len() ==> r@[k].0@ == distinct_names(functions@)[k] && r@[k].1@
                == with_name(functions@, #[trigger] r@[k].0@),
{
    let ghost orig = functions@;
    let mut rest = functions;
    let mut groups: Vec<(String, Vec<FunctionMetadata>)> = Vec::new();
    let mut i: usize = 0;
    let n: usize = rest.len();
    proof {
        assert(orig.take(0) =~= Seq::<FunctionMetadata>::empty());
    }
    while i < n
        invariant
            n == orig.len(),
            i <= n,
            rest@ == orig.skip(i as int),
            groups@.len() == distinct_names(orig.take(i as int)).len(),
            forall|k: int|
                0 <= k < groups@.len() ==> groups@[k].0@ == distinct_names(orig.take(i as int))[k]
                    && groups@[k].1@ == with_name(orig.take(i as int), #[trigger] groups@[k].0@),
        decreases n - i,
    {
        let ghost pref = orig.take(i as int);
        let f = rest.remove(0);
        proof {
            assert(orig.skip(i as int)[0] == orig[i as int]);
            assert(orig.skip(i as int).remove(0) =~= orig.skip(i + 1));
            assert(orig.take(i + 1).drop_last() =~= pref);
            assert(orig.take(i + 1).last() == orig[i as int]);
            lemma_distinct_names_no_dup(pref);
        }
        let ghost prefx = orig.take(i + 1);
        // find this name's group, if it exists
        let m: usize = groups.len();
        let mut gi: usize = 0;
        let mut found = false;
        while gi < m && !found
            invariant
                m == groups.len(),
                gi <= m,
                !found ==> forall|k: int| 0 <= k < gi ==> groups@[k].0@ != f.name@,
                found ==> gi < m && groups@[gi as int].0@ == f.name@,
            decreases m - gi + if found {
                0int
            } else {
                1int
            },
        {
            if str_eq(groups[gi].0.as_str(), f.name.as_str()) {
                found = true;
            } else {
                gi += 1;
            }
        }
        let ghost d = distinct_names(pref);
        if found {
            proof {
                assert(d.contains(f.name@)) by {
                    assert(d[gi as int] == f.name@);
                }
                assert(distinct_names(prefx) == d);
            }
            let mut g = groups.remove(gi);
            g.1.push(f);
            groups.insert(gi, g);
            proof {
                assert forall|k: int| 0 <= k < groups@.len() implies groups@[k].0@
                    == distinct_names(prefx)[k] && groups@[k].1@ == with_name(
                    prefx,
                    #[trigger] groups@[k].0@,
                ) by {
                    if k == gi {
                        assert(with_name(prefx, f.name@) == with_name(pref, f.name@) + seq![
                            orig[i as int],
                        ]);
                    } else {
                        // keys are distinct, so other groups keep their contents
                        assert(groups@[k].0@ != f.name@);
                        assert(with_name(prefx, groups@[k].0@) == with_name(pref, groups@[k].0@)
                            + Seq::<FunctionMetadata>::empty());
                        assert(with_name(pref, groups@[k].0@) + Seq::<FunctionMetadata>::empty()
                            =~= with_name(pref, groups@[k].0@));
                    }
                }
            }
        } else {
            proof {
                assert(!d.contains(f.name@)) by {
                    if d.contains(f.name@) {
                        let j = choose|j: int| 0 <= j < d.len() && d[j] == f.name@;
                        assert(groups@[j].0@ == f.name@);
                    }
                }
                assert(distinct_names(prefx) == d.push(f.name@));
                assert forall|q: int| 0 <= q < pref.len() implies pref[q].name@ != f.name@ by {
                    lemma_distinct_names_no_dup(pref);
                }
                lemma_with_name_absent(pref, f.name@);
            }
            let key = f.name.clone();
            let mut members: Vec<FunctionMetadata> = Vec::new();
            members.push(f);
            groups.push((key, members));
            proof {
                assert forall|k: int| 0 <= k < groups@.len() implies groups@[k].0@
                    == distinct_names(prefx)[k] && groups@[k].1@ == with_name(
                    prefx,
                    #[trigger] groups@[k].0@,
                ) by {
                    if k < groups@.len() - 1 {
                        assert(groups@[k].0@ != f.name@) by {
                            assert(d[k] == groups@[k].0@);
                        }
                        assert(with_name(prefx, groups@[k].0@) == with_name(pref, groups@[k].0@)
                            + Seq::<FunctionMetadata>::empty());
                        assert(with_name(pref, groups@[k].0@) + Seq::<FunctionMetadata>::empty()
                            =~= with_name(pref, groups@[k].0@));
                    } else {
                        assert(with_name(prefx, f.name@) == with_name(pref, f.name@) + seq![
                            orig[i as int],
                        ]);
                        assert(Seq::<FunctionMetadata>::empty() + seq![orig[i as int]] =~= seq![
                            orig[i as int],
                        ]);
                    }
                }
            }
        }
        i += 1;
    }
    proof {
        assert(orig.take(n as int) =~= orig);
    }
    groups
}

/// Select the order in which function groups are displayed.
#[derive(Debug)]
pub enum FunctionOrder {
    /// Display function groups in alphabetical order of their raw names.
    Alphabetical,
    /// Display function groups by explicit position, read from a
    /// doc-comment line ending in the ordering-directive marker followed by
    /// a positive one-based index.
    ByIndex,
}

impl core::default::Default for FunctionOrder {
    fn default() -> (r: Self)
        ensures
            r is Alphabetical,
    {
        FunctionOrder::Alphabetical
    }
}

/// `g` inserted into `s` after every group whose key is at or before `g`'s
/// key, as a stable insertion sort does.
pub open spec fn insert_sorted(
    g: (String, Vec<FunctionMetadata>),
    s: Seq<(String, Vec<FunctionMetadata>)>,
) -> Seq<(String, Vec<FunctionMetadata>)>
    decreases s.len(),
{
    if s.len() == 0 {
        seq![g]
    } else if lex_leq(s[0].0@, g.0@) {
        seq![s[0]] + insert_sorted(g, s.skip(1))
    } else {
        seq![g] + s
    }
}

/// The groups sorted by key, stably, in ascending lexicographic order.
pub open spec fn sort_groups(s: Seq<(String, Vec<FunctionMetadata>)>) -> Seq<
    (String, Vec<FunctionMetadata>),
>
    decreases s.len(),
{
    if s.len() == 0 {
        Seq::empty()
    } else {
        insert_sorted(s.last(), sort_groups(s.drop_last()))
    }
}

/// Every element of `out` is an element of `gs`.
pub open spec fn members_of(
    out: Seq<(String, Vec<FunctionMetadata>)>,
    gs: Seq<(String, Vec<FunctionMetadata>)>,
) -> bool {
    forall|s: int|
        #![trigger out[s]]
        0 <= s < out.len() ==> exists|q: int| 0 <= q < gs.len() && out[s] == #[trigger] gs[q]
}

/// The groups stand in ascending key order.
pub open spec fn sorted_groups(s: Seq<(String, Vec<FunctionMetadata>)>) -> bool {
    forall|i: int, j: int| 0 <= i < j < s.len() ==> lex_leq(s[i].0@, s[j].0@)
}

proof fn lemma_insert_sorted_props(
    g: (String, Vec<FunctionMetadata>),
    s: Seq<(String, Vec<FunctionMetadata>)>,
)
    requires
        sorted_groups(s),
    ensures
        sorted_groups(insert_sorted(g, s)),
        insert_sorted(g, s).to_multiset() =~= s.to_multiset().insert(g),
        insert_sorted(g, s).len() == s.len() + 1,
    decreases s.len(),
{
    broadcast use vstd::seq_lib::group_to_multiset_ensures;

    if s.len() == 0 {
        assert(seq![g] =~= Seq::<(String, Vec<FunctionMetadata>)>::empty().push(g));
        assert(seq![g].to_multiset() =~= s.to_multiset().insert(g));
    } else if lex_leq(s[0].0@, g.0@) {
        assert(forall|i: int| 0 <= i < s.len() - 1 ==> s.skip(1)[i] == s[i + 1]);
        lemma_insert_sorted_props(g, s.skip(1));
        let t = insert_sorted(g, s.skip(1));
        let r = seq![s[0]] + t;
        assert forall|i: int, j: int| 0 <= i < j < r.len() implies lex_leq(r[i].0@, r[j].0@) by {
            if i == 0 {
                assert(r[j] == t[j - 1]);
                assert(t.to_multiset().contains(t[j - 1]));
                assert(s.skip(1).to_multiset().insert(g).contains(t[j - 1]));
                if t[j - 1] == g {
                    assert(lex_leq(s[0].0@, g.0@));
                } else {
                    assert(s.skip(1).to_multiset().contains(t[j - 1]));
                    assert(s.skip(1).contains(t[j - 1]));
                    let w = choose|w: int| 0 <= w < s.skip(1).len() && s.skip(1)[w] == t[j - 1];
                    assert(lex_leq(s[0].0@, s[w + 1].0@));
                }
            } else {
                assert(r[i] == t[i - 1] && r[j] == t[j - 1]);
            }
        }
        assert(s =~= seq![s[0]] + s.skip(1));
        vstd::seq_lib::lemma_multiset_commutative(seq![s[0]], s.skip(1));
        vstd::seq_lib::lemma_multiset_commutative(seq![s[0]], t);
        assert(r.to_multiset() =~= s.to_multiset().insert(g));
    } else {
        lemma_lex_total(s[0].0@, g.0@);
        let r = seq![g] + s;
        assert forall|i: int, j: int| 0 <= i < j < r.len() implies lex_leq(r[i].0@, r[j].0@) by {
            if i == 0 {
                assert(r[j] == s[j - 1]);
                if j == 1 {
                } else {
                    lemma_lex_trans(g.0@, s[0].0@, s[j - 1].0@);
                }
            } else {
                assert(r[i] == s[i - 1] && r[j] == s[j - 1]);
            }
        }
        vstd::seq_lib::lemma_multiset_commutative(seq![g], s);
        assert(seq![g] =~= Seq::<(String, Vec<FunctionMetadata>)>::empty().push(g));
        assert(r.to_multiset() =~= s.to_multiset().insert(g));
    }
}

/// Alphabetical ordering sorts: the sorted groups are a permutation of the
/// input groups, in ascending key order.
pub proof fn lemma_sort_groups_props(s: Seq<(String, Vec<FunctionMetadata>)>)
    ensures
        sorted_groups(sort_groups(s)),
        sort_groups(s).to_multiset() =~= s.to_multiset(),
        sort_groups(s).len() == s.len(),
    decreases s.len(),
{
    broadcast use vstd::seq_lib::group_to_multiset_ensures;

    if s.len() == 0 {
    } else {
        lemma_sort_groups_props(s.drop_last());
        lemma_insert_sorted_props(s.last(), sort_groups(s.drop_last()));
        assert(s =~= s.drop_last().push(s.last()));
        assert(s.drop_last().push(s.last()).to_multiset() =~= s.drop_last().to_multiset().insert(
            s.last(),
        ));
    }
}

proof fn lemma_insert_sorted_at(
    g: (String, Vec<FunctionMetadata>),
    s: Seq<(String, Vec<FunctionMetadata>)>,
    p: int,
)
    requires
        0 <= p <= s.len(),
        forall|q: int| 0 <= q < p ==> lex_leq(s[q].0@, g.0@),
        p < s.len() ==> !lex_leq(s[p].0@, g.0@),
    ensures
        insert_sorted(g, s) == s.take(p) + seq![g] + s.skip(p),
    decreases s.len(),
{
    if s.len() == 0 {
        assert(s.take(0) + seq![g] + s.skip(0) =~= seq![g]);
    } else if p == 0 {
        assert(s.take(0) + seq![g] + s.skip(0) =~= seq![g] + s);
    } else {
        assert(forall|i: int| 0 <= i < s.len() - 1 ==> s.skip(1)[i] == s[i + 1]);
        lemma_insert_sorted_at(g, s.skip(1), p - 1);
        assert(insert_sorted(g, s) == seq![s[0]] + (s.skip(1).take(p - 1) + seq![g] + s.skip(
            1,
        ).skip(p - 1)));
        assert(s.skip(1).take(p - 1) =~= s.take(p).skip(1));
        assert(s.skip(1).skip(p - 1) =~= s.skip(p));
        assert(seq![s[0]] + (s.take(p).skip(1) + seq![g] + s.skip(p)) =~= s.take(p) + seq![g]
            + s.skip(p));
    }
}

/// Count of the filled slots.
pub open spec fn count_some(s: Seq<Option<(String, Vec<FunctionMetadata>)>>) -> int
    decreases s.len(),
{
    if s.len() == 0 {
        0
    } else {
        count_some(s.drop_last()) + if s.last() is Some {
            1int
        } else {
            0int
        }
    }
}

proof fn lemma_count_some_update(
    s: Seq<Option<(String, Vec<FunctionMetadata>)>>,
    j: int,
    g: (String, Vec<FunctionMetadata>),
)
    requires
        0 <= j < s.len(),
        s[j] is None,
    ensures
        count_some(s.update(j, Some(g))) == count_some(s) + 1,
    decreases s.len(),
{
    let u = s.update(j, Some(g));
    if j == s.len() - 1 {
        assert(u.drop_last() =~= s.drop_last());
        assert(u.last() == Some(g));
    } else {
        assert(u.drop_last() =~= s.drop_last().update(j, Some(g)));
        lemma_count_some_update(s.drop_last(), j, g);
        assert(u.last() == s.last());
    }
}

proof fn lemma_count_some_full(s: Seq<Option<(String, Vec<FunctionMetadata>)>>)
    ensures
        count_some(s) <= s.len(),
        count_some(s) == s.len() ==> forall|i: int| 0 <= i < s.len() ==> s[i] is Some,
    decreases s.len(),
{
    if s.len() > 0 {
        lemma_count_some_full(s.drop_last());
        assert(forall|i: int| 0 <= i < s.len() - 1 ==> s[i] == s.drop_last()[i]);
    }
}

proof fn lemma_count_some_none(s: Seq<Option<(String, Vec<FunctionMetadata>)>>)
    requires
        forall|i: int| 0 <= i < s.len() ==> s[i] is None,
    ensures
        count_some(s) == 0,
    decreases s.len(),
{
    if s.len() > 0 {
        assert(forall|i: int| 0 <= i < s.len() - 1 ==> s[i] == s.drop_last()[i]);
        lemma_count_some_none(s.drop_last());
    }
}

/// Index of the last match of `pat` in `s`, or `-1` if there is none.
pub open spec fn last_match_idx(s: Seq<char>, pat: Seq<char>) -> int
    decreases s.len(),
{
    if s.len() < pat.len() || pat.len() == 0 {
        -1
    } else if match_at(s, pat, s.len() - pat.len()) {
        s.len() - pat.len()
    } else {
        last_match_idx(s.drop_last(), pat)
    }
}

proof fn lemma_last_match_idx(s: Seq<char>, pat: Seq<char>)
    requires
        pat.len() > 0,
    ensures
        -1 <= last_match_idx(s, pat),
        last_match_idx(s, pat) == -1 ==> forall|i: int| !match_at(s, pat, i),
        last_match_idx(s, pat) >= 0 ==> match_at(s, pat, last_match_idx(s, pat)) && forall|i: int|
            i > last_match_idx(s, pat) ==> !match_at(s, pat, i),
    decreases s.len(),
{
    if s.len() < pat.len() {
        assert(forall|i: int| i >= 0 ==> !match_at(s, pat, i));
    } else if match_at(s, pat, s.len() - pat.len()) {
        assert(forall|i: int| i > s.len() - pat.len() ==> !match_at(s, pat, i));
    } else {
        lemma_last_match_idx(s.drop_last(), pat);
        assert forall|i: int| 0 <= i && i + pat.len() <= s.len() - 1 implies (match_at(s, pat, i)
            == match_at(s.drop_last(), pat, i)) by {
            assert(s.drop_last().subrange(i, i + pat.len() as int) =~= s.subrange(
                i,
                i + pat.len() as int,
            ));
        }
        if last_match_idx(s.drop_last(), pat) >= 0 {
            let m = last_match_idx(s.drop_last(), pat);
            assert(match_at(s, pat, m));
            assert forall|i: int| i > m implies !match_at(s, pat, i) by {
                if match_at(s, pat, i) {
                    assert(i + pat.len() <= s.len());
                    assert(i != s.len() - pat.len());
                    assert(s.drop_last().subrange(i, i + pat.len() as int) =~= s.subrange(
                        i,
                        i + pat.len() as int,
                    ));
                    assert(match_at(s.drop_last(), pat, i));
                    assert(!match_at(s.drop_last(), pat, i));
                    assert(false);
                }
            }
        } else {
            assert forall|i: int| !match_at(s, pat, i) by {
                if match_at(s, pat, i) {
                    assert(i != s.len() - pat.len());
                    assert(s.drop_last().subrange(i, i + pat.len() as int) =~= s.subrange(
                        i,
                        i + pat.len() as int,
                    ));
                    assert(match_at(s.drop_last(), pat, i));
                    assert(!match_at(s.drop_last(), pat, i));
                    assert(false);
                }
            }
        }
    }
}

proof fn lemma_last_match_is(s: Seq<char>, pat: Seq<char>, p: int)
    requires
        pat.len() > 0,
        match_at(s, pat, p),
        forall|j: int| j > p ==> !match_at(s, pat, j),
    ensures
        last_match_idx(s, pat) == p,
{
    lemma_last_match_idx(s, pat);
    let li = last_match_idx(s, pat);
    if li == -1 {
        assert(!match_at(s, pat, p));
        assert(false);
    }
    if li < p {
        assert(!match_at(s, pat, p));
        assert(false);
    }
    if li > p {
        assert(match_at(s, pat, li));
        assert(!match_at(s, pat, li));
        assert(false);
    }
}

proof fn lemma_last_match_none(s: Seq<char>, pat: Seq<char>)
    requires
        pat.len() > 0,
        !contains_seq(s, pat),
    ensures
        last_match_idx(s, pat) == -1,
{
    lemma_last_match_idx(s, pat);
    let li = last_match_idx(s, pat);
    if li >= 0 {
        assert(match_at(s, pat, li));
        assert(contains_seq(s, pat));
        assert(false);
    }
}

/// What follows the last ordering-directive marker of the line, when the
/// line holds the marker.
pub open spec fn line_directive(l: Seq<char>) -> Option<Seq<char>> {
    let i = last_match_idx(l, index_marker());
    if i >= 0 {
        Some(l.skip(i + index_marker().len()))
    } else {
        None
    }
}

/// The first directive suffix among the comment fragments, if any.
pub open spec fn first_directive_in(lines: Seq<Seq<char>>) -> Option<Seq<char>>
    decreases lines.len(),
{
    if lines.len() == 0 {
        None
    } else if line_directive(lines[0]) is Some {
        line_directive(lines[0])
    } else {
        first_directive_in(lines.skip(1))
    }
}

/// The ordering-directive suffix of a group: the first directive found in
/// the doc comments of the first overload that carries one.
pub open spec fn group_directive(g: Seq<FunctionMetadata>) -> Option<Seq<char>>
    decreases g.len(),
{
    if g.len() == 0 {
        None
    } else {
        let d = match g[0].doc_comments {
            Some(dc) => first_directive_in(dc.deep_view()),
            None => None,
        };
        if d is Some {
            d
        } else {
            group_directive(g.skip(1))
        }
    }
}

/// The one-based display position a group claims: the parsed value of its
/// directive suffix, when the suffix parses as an unsigned integer.
pub open spec fn parsed_index(g: Seq<FunctionMetadata>) -> Option<int> {
    match group_directive(g) {
        None => None,
        Some(sfx) => if parses_as_uint(sfx) {
            Some(digits_val(uint_body(sfx)))
        } else {
            None
        },
    }
}

/// Group `k` fails by-index validation against the groups before it: it
/// has no parsable directive, claims a position outside `1..=n`, or claims
/// a position an earlier group claimed.
pub open spec fn group_invalid_at(groups: Seq<(String, Vec<FunctionMetadata>)>, k: int) -> bool {
    match parsed_index(groups[k].1@) {
        None => true,
        Some(ix) => !(1 <= ix <= groups.len()) || exists|k2: int|
            0 <= k2 < k && parsed_index(#[trigger] groups[k2].1@) == Some(ix),
    }
}

/// Every group carries a parsable directive with a distinct position in
/// `1..=n`.
pub open spec fn by_index_valid(groups: Seq<(String, Vec<FunctionMetadata>)>) -> bool {
    forall|k: int| 0 <= k < groups.len() ==> !group_invalid_at(groups, k)
}

/// The pre-processing message reported when group `k` is the first to fail
/// by-index validation, naming the offending function in every case.
pub open spec fn invalid_group_message(
    groups: Seq<(String, Vec<FunctionMetadata>)>,
    k: int,
) -> Seq<char> {
    match group_directive(groups[k].1@) {
        None => "missing ord metadata in function "@ + groups[k].0@,
        Some(sfx) => if !parses_as_uint(sfx) {
            "invalid ordering index in function "@ + groups[k].0@
        } else if !(1 <= digits_val(uint_body(sfx)) <= groups.len()) {
            "ordering index out of range in function "@ + groups[k].0@
        } else {
            "duplicate ordering index in function "@ + groups[k].0@
        },
    }
}

/// The ordering directive of a group of overloads, if one of them carries
/// one in its doc comments.
fn group_directive_exec(g: &Vec<FunctionMetadata>) -> (r: Option<String>)
    ensures
        match r {
            Some(s) => group_directive(g@) == Some(s@),
            None => group_directive(g@) is None,
        },
{
    let n: usize = g.len();
    let mut i: usize = 0;
    proof {
        assert(g@.skip(0) =~= g@);
        reveal_strlit("# rhai-autodocs:index:");
    }
    while i < n
        invariant
            n == g@.len(),
            i <= n,
            index_marker().len() > 0,
            group_directive(g@) == group_directive(g@.skip(i as int)),
        decreases n - i,
    {
        let ghost rest = g@.skip(i as int);
        proof {
            assert(rest[0] == g@[i as int]);
            assert(rest.skip(1) =~= g@.skip(i + 1));
        }
        match &g[i].doc_comments {
            None => {},
            Some(dc) => {
                let ghost dv = dc.deep_view();
                let m: usize = dc.len();
                let mut j: usize = 0;
                proof {
                    assert(dv.skip(0) =~= dv);
                }
                while j < m
                    invariant
                        m == dc.len(),
                        dv == dc.deep_view(),
                        j <= m,
                        i < n == g@.len(),
                        index_marker().len() > 0,
                        g@[i as int].doc_comments == Some(*dc),
                        group_directive(g@) == group_directive(g@.skip(i as int)),
                        first_directive_in(dv) == first_directive_in(dv.skip(j as int)),
                    decreases m - j,
                {
                    let line: &String = &dc[j];
                    proof {
                        assert(dv.skip(j as int)[0] == dv[j as int]);
                        assert(dv.skip(j as int).skip(1) =~= dv.skip(j + 1));
                        assert(dv[j as int] == line@);
                        lemma_last_match_idx(line@, index_marker());
                    }
                    match find_last(line.as_str(), "# rhai-autodocs:index:") {
                        Some(p) => {
                            let pl: usize = "# rhai-autodocs:index:".unicode_len();
                            let ln: usize = line.as_str().unicode_len();
                            let sfx = substring(line.as_str(), p + pl, ln);
                            proof {
                                lemma_last_match_is(line@, index_marker(), p as int);
                                assert(line@.skip(p + pl) =~= line@.subrange(
                                    p + pl,
                                    line@.len() as int,
                                ));
                                assert(line_directive(line@) == Some(sfx@));
                                assert(first_directive_in(dv.skip(j as int)) == Some(sfx@));
                                assert(g@.skip(i as int)[0] == g@[i as int]);
                                assert(group_directive(g@.skip(i as int)) == Some(sfx@));
                            }
                            return Some(sfx);
                        },
                        None => {
                            proof {
                                lemma_last_match_none(line@, index_marker());
                                assert(line_directive(dv[j as int]) is None);
                            }
                        },
                    }
                    j += 1;
                }
                proof {
                    assert(dv.skip(m as int) =~= Seq::<Seq<char>>::empty());
                    assert(first_directive_in(dv) is None);
                    assert(g@.skip(i as int)[0] == g@[i as int]);
                }
            },
        }
        i += 1;
    }
    proof {
        assert(g@.skip(n as int) =~= Seq::<FunctionMetadata>::empty());
    }
    None
}

fn name_message(prefix: &str, name: &str) -> (r: String)
    ensures
        r@ == prefix@ + name@,
{
    let mut out = String::new();
    out.append(prefix);
    out.append(name);
    proof {
        assert((Seq::<char>::empty() + prefix@) + name@ =~= prefix@ + name@);
    }
    out
}

impl FunctionOrder {
    /// Order the function groups per this policy. Alphabetical ordering
    /// stably sorts the groups by raw name. By-index ordering places each
    /// group at the position its doc-comment directive claims, and fails
    /// with a pre-processing error when a group has no parsable directive,
    /// claims an out-of-range position, or collides with another group.
    pub fn order_function_groups(
        &self,
        function_groups: Vec<(String, Vec<FunctionMetadata>)>,
    ) -> (r: Result<Vec<(String, Vec<FunctionMetadata>)>, Error>)
        ensures
            self is Alphabetical ==> (r matches Ok(out) && out@ == sort_groups(function_groups@)),
            self is ByIndex ==> match r {
                Ok(out) => by_index_valid(function_groups@) && out@.len()
                    == function_groups@.len() && forall|k: int|
                    0 <= k < function_groups@.len() ==> match parsed_index(
                        #[trigger] function_groups@[k].1@,
                    ) {
                        Some(ix) => 1 <= ix <= function_groups@.len() && out@[ix - 1]
                            == function_groups@[k],
                        None => false,
                    },
                Err(e) => !by_index_valid(function_groups@) && (e matches Error::PreProcessing(m)
                    && exists|k: int|
                    0 <= k < function_groups@.len() && #[trigger] group_invalid_at(
                        function_groups@,
                        k,
                    ) && (forall|k2: int|
                        0 <= k2 < k ==> !group_invalid_at(function_groups@, k2)) && m@
                        == invalid_group_message(function_groups@, k)),
            },
            r matches Ok(out) ==> members_of(out@, function_groups@),
    {
        let ghost gs = function_groups@;
        match *self {
            FunctionOrder::Alphabetical => {
                let mut rest = function_groups;
                let mut out: Vec<(String, Vec<FunctionMetadata>)> = Vec::new();
                let n: usize = rest.len();
                let mut k: usize = 0;
                proof {
                    assert(gs.take(0) =~= Seq::<(String, Vec<FunctionMetadata>)>::empty());
                }
                while k < n
                    invariant
                        n == gs.len(),
                        k <= n,
                        rest@ == gs.skip(k as int),
                        out@ == sort_groups(gs.take(k as int)),
                    decreases n - k,
                {
                    let g = rest.remove(0);
                    proof {
                        assert(gs.skip(k as int)[0] == gs[k as int]);
                        assert(gs.skip(k as int).remove(0) =~= gs.skip(k + 1));
                    }
                    let m: usize = out.len();
                    let mut p: usize = 0;
                    while p < m && str_leq(out[p].0.as_str(), g.0.as_str())
                        invariant
                            m == out.len(),
                            p <= m,
                            forall|q: int| 0 <= q < p ==> lex_leq(out@[q].0@, g.0@),
                        decreases m - p,
                    {
                        p += 1;
                    }
                    let ghost pre = out@;
                    proof {
                        lemma_insert_sorted_at(g, pre, p as int);
                    }
                    out.insert(p, g);
                    proof {
                        assert(out@ =~= pre.take(p as int) + seq![gs[k as int]] + pre.skip(
                            p as int,
                        ));
                        assert(gs.take(k + 1).drop_last() =~= gs.take(k as int));
                        assert(gs.take(k + 1).last() == gs[k as int]);
                        assert(out@ == sort_groups(gs.take(k + 1)));
                    }
                    k += 1;
                }
                proof {
                    assert(gs.take(n as int) =~= gs);
                    lemma_sort_groups_props(gs);
                    broadcast use vstd::seq_lib::group_to_multiset_ensures;

                    assert forall|s: int| #![trigger out@[s]] 0 <= s < out@.len() implies exists|
                        q: int,
                    |
                        0 <= q < gs.len() && out@[s] == #[trigger] gs[q] by {
                        assert(out@.contains(out@[s]));
                        assert(out@.to_multiset().contains(out@[s]));
                        assert(gs.to_multiset().contains(out@[s]));
                        assert(gs.contains(out@[s]));
                        let q = choose|q: int| 0 <= q < gs.len() && gs[q] == out@[s];
                        assert(out@[s] == gs[q]);
                    }
                }
                Ok(out)
            },
            FunctionOrder::ByIndex => {
                let n: usize = function_groups.len();
                let mut ordered: Vec<Option<(String, Vec<FunctionMetadata>)>> = Vec::new();
                let mut t: usize = 0;
                while t < n
                    invariant
                        t <= n,
                        ordered@.len() == t,
                        forall|s: int| 0 <= s < t ==> ordered@[s] is None,
                    decreases n - t,
                {
                    ordered.push(None);
                    t += 1;
                }
                proof {
                    lemma_count_some_none(ordered@);
                }
                let mut rest = function_groups;
                let mut k: usize = 0;
                while k < n
                    invariant
                        self is ByIndex,
                        gs == function_groups@,
                        n == gs.len(),
                        k <= n,
                        rest@ == gs.skip(k as int),
                        ordered@.len() == n,
                        count_some(ordered@) == k,
                        forall|k2: int| 0 <= k2 < k ==> !group_invalid_at(gs, k2),
                        forall|k2: int|
                            0 <= k2 < k ==> match parsed_index(#[trigger] gs[k2].1@) {
                                Some(ix) => 1 <= ix <= n && ordered@[ix - 1] == Some(gs[k2]),
                                None => false,
                            },
                        forall|s: int|
                            0 <= s < n && #[trigger] ordered@[s] is Some ==> exists|k2: int|
                                0 <= k2 < k && parsed_index(#[trigger] gs[k2].1@) == Some(s + 1),
                    decreases n - k,
                {
                    let g = rest.remove(0);
                    proof {
                        assert(gs.skip(k as int)[0] == gs[k as int]);
                        assert(gs.skip(k as int).remove(0) =~= gs.skip(k + 1));
                    }
                    match group_directive_exec(&g.1) {
                        None => {
                            proof {
                                assert(group_invalid_at(gs, k as int));
                            }
                            return Err(
                                Error::PreProcessing(
                                    name_message(
                                        "missing ord metadata in function ",
                                        g.0.as_str(),
                                    ),
                                ),
                            );
                        },
                        Some(sfx) => {
                            match parse_usize(sfx.as_str()) {
                                None => {
                                    proof {
                                        assert(group_invalid_at(gs, k as int));
                                    }
                                    return Err(
                                        Error::PreProcessing(
                                            name_message(
                                                "invalid ordering index in function ",
                                                g.0.as_str(),
                                            ),
                                        ),
                                    );
                                },
                                Some(ix) => {
                                    if ix == 0 || ix > n {
                                        proof {
                                            assert(group_invalid_at(gs, k as int));
                                        }
                                        return Err(
                                            Error::PreProcessing(
                                                name_message(
                                                    "ordering index out of range in function ",
                                                    g.0.as_str(),
                                                ),
                                            ),
                                        );
                                    }
                                    let slot: usize = ix - 1;
                                    if ordered[slot].is_some() {
                                        proof {
                                            assert(group_invalid_at(gs, k as int));
                                        }
                                        return Err(
                                            Error::PreProcessing(
                                                name_message(
                                                    "duplicate ordering index in function ",
                                                    g.0.as_str(),
                                                ),
                                            ),
                                        );
                                    }
                                    let ghost pre = ordered@;
                                    proof {
                                        lemma_count_some_update(pre, slot as int, gs[k as int]);
                                        assert(!group_invalid_at(gs, k as int));
                                    }
                                    ordered[slot] = Some(g);
                                },
                            }
                        },
                    }
                    k += 1;
                }
                proof {
                    lemma_count_some_full(ordered@);
                }
                let ghost fin = ordered@;
                let mut out: Vec<(String, Vec<FunctionMetadata>)> = Vec::new();
                let mut s: usize = 0;
                while s < n
                    invariant
                        n == fin.len(),
                        s <= n,
                        ordered@ == fin.skip(s as int),
                        out@.len() == s,
                        forall|q: int| 0 <= q < n ==> fin[q] is Some,
                        forall|q: int| 0 <= q < s ==> Some(#[trigger] out@[q]) == fin[q],
                    decreases n - s,
                {
                    proof {
                        assert(fin.skip(s as int)[0] == fin[s as int]);
                        assert(fin.skip(s as int).remove(0) =~= fin.skip(s + 1));
                    }
                    match ordered.remove(0) {
                        Some(g) => {
                            out.push(g);
                        },
                        None => {
                            return unreached();
                        },
                    }
                    s += 1;
                }
                proof {
                    assert(by_index_valid(gs));
                    assert forall|k2: int| 0 <= k2 < gs.len() implies match parsed_index(
                        #[trigger] gs[k2].1@,
                    ) {
                        Some(ix) => 1 <= ix <= gs.len() && out@[ix - 1] == gs[k2],
                        None => false,
                    } by {
                        assert(!group_invalid_at(gs, k2));
                        let ix = match parsed_index(gs[k2].1@) {
                            Some(ix) => ix,
                            None => 0,
                        };
                        assert(fin[ix - 1] == Some(gs[k2]));
                        assert(Some(out@[ix - 1]) == fin[ix - 1]);
                    }
                    assert forall|q: int| #![trigger out@[q]] 0 <= q < out@.len() implies exists|
                        k2: int,
                    |
                        0 <= k2 < gs.len() && out@[q] == #[trigger] gs[k2] by {
                        assert(fin[q] is Some);
                        let k2 = choose|k2: int|
                            0 <= k2 < n && parsed_index(#[trigger] gs[k2].1@) == Some(q + 1);
                        assert(fin[q] == Some(gs[k2]));
                        assert(Some(out@[q]) == fin[q]);
                        assert(out@[q] == gs[k2]);
                    }
                }
                Ok(out)
            },
        }
    }
}

} // verus!
