//! Rendering: one pseudo-signature line per overload, one markdown block
//! per function group, and one document per module, recursing through the
//! module tree.

use vstd::prelude::*;
use crate::json::json_height;
use crate::model::{
    decode_module, formatted_fn_doc, formatted_module_doc, Error, FunctionMetadata,
    ModuleDocumentation, ModuleMetadata, ParamInfo,
};
use crate::ordering::{
    by_index_valid, distinct_names, group_functions, group_invalid_at, lemma_distinct_names_no_dup,
    lemma_sort_groups_props, members_of, parsed_index, sort_groups, with_name, FunctionOrder,
};
use crate::text::{replace_seq, starts_with_seq, str_replace, str_starts_with, substring};
use crate::types::{def_type_name, is_operator, is_operator_seq, normalize_type_seq, BuiltinTypes};

verus! {

/// The rendered text of one parameter: its name or `_`, then its normalized
/// type or `?`.
pub open spec fn param_text(p: ParamInfo, names: BuiltinTypes) -> Seq<char> {
    (match p.name {
        Some(n) => n@,
        None => "_"@,
    }) + ": "@ + (match p.ty {
        Some(t) => normalize_type_seq(t@, names),
        None => "?"@,
    })
}

/// The rendered text of parameter `i` of `f`: a declared entry when present,
/// placeholders when the entry is missing.
pub open spec fn param_at(f: FunctionMetadata, names: BuiltinTypes, i: int) -> Seq<char> {
    match f.params {
        Some(ps) => if 0 <= i < ps@.len() {
            param_text(ps@[i], names)
        } else {
            param_text(ParamInfo { name: None, ty: None }, names)
        },
        None => param_text(ParamInfo { name: None, ty: None }, names),
    }
}

/// The first `k` rendered parameters of `f`, joined with `, `.
pub open spec fn params_text(f: FunctionMetadata, names: BuiltinTypes, k: int) -> Seq<char>
    decreases k,
{
    if k <= 0 {
        Seq::empty()
    } else if k == 1 {
        param_at(f, names, 0)
    } else {
        params_text(f, names, k - 1) + ", "@ + param_at(f, names, k - 1)
    }
}

/// The one-line pseudo-signature of one overload.
pub open spec fn definition_text(f: FunctionMetadata, names: BuiltinTypes) -> Seq<char> {
    (if is_operator_seq(f.name@) {
        "op "@
    } else {
        "fn "@
    }) + (if starts_with_seq(f.name@, "get$"@) {
        "get "@ + f.name@.skip("get$"@.len() as int)
    } else if starts_with_seq(f.name@, "set$"@) {
        "set "@ + f.name@.skip("set$"@.len() as int)
    } else {
        f.name@
    }) + "("@ + params_text(f, names, f.num_params as int) + (match f.return_type {
        Some(rt) => ") -> "@ + normalize_type_seq(rt@, names),
        None => ")"@,
    })
}

/// Render the pseudo-signature of one overload, such as
/// `fn add(a: int, b: int) -> int`. Missing parameter entries degrade to
/// `_: ?` placeholders; this operation never fails.
pub fn generate_function_definition(f: &FunctionMetadata, names: &BuiltinTypes) -> (r: String)
    ensures
        r@ == definition_text(*f, *names),
{
    let mut def = String::new();
    if is_operator(f.name.as_str()) {
        def.append("op ");
    } else {
        def.append("fn ");
    }
    if str_starts_with(f.name.as_str(), "get$") {
        def.append("get ");
        let pl: usize = "get$".unicode_len();
        let nl: usize = f.name.as_str().unicode_len();
        def.append(substring(f.name.as_str(), pl, nl).as_str());
    } else if str_starts_with(f.name.as_str(), "set$") {
        def.append("set ");
        let pl: usize = "set$".unicode_len();
        let nl: usize = f.name.as_str().unicode_len();
        def.append(substring(f.name.as_str(), pl, nl).as_str());
    } else {
        def.append(f.name.as_str());
    }
    def.append("(");
    let ghost base = def@;
    let np: usize = f.num_params;
    let mut i: usize = 0;
    while i < np
        invariant
            np == f.num_params,
            i <= np,
            def@ == base + params_text(*f, *names, i as int),
        decreases np - i,
    {
        let ghost pre = def@;
        if i > 0 {
            def.append(", ");
        }
        match &f.params {
            None => {
                def.append("_");
                def.append(": ");
                def.append("?");
            },
            Some(ps) => {
                if i < ps.len() {
                    match &ps[i].name {
                        Some(nm) => def.append(nm.as_str()),
                        None => def.append("_"),
                    }
                    def.append(": ");
                    match &ps[i].ty {
                        Some(t) => {
                            let tn = def_type_name(t.as_str(), names);
                            def.append(tn.as_str());
                        },
                        None => def.append("?"),
                    }
                } else {
                    def.append("_");
                    def.append(": ");
                    def.append("?");
                }
            },
        }
        proof {
            let cur = param_at(*f, *names, i as int);
            if i == 0 {
                assert(def@ =~= base + cur);
            } else {
                assert(def@ =~= base + (params_text(*f, *names, i as int) + ", "@ + cur));
            }
        }
        i += 1;
    }
    match &f.return_type {
        Some(rt) => {
            def.append(") -> ");
            let tn = def_type_name(rt.as_str(), names);
            def.append(tn.as_str());
            proof {
                assert(def@ =~= definition_text(*f, *names));
            }
        },
        None => {
            def.append(")");
            proof {
                assert(def@ =~= definition_text(*f, *names));
            }
        },
    }
    def
}

/// The kind tag shown in a group's heading, read off the first overload's
/// rendered definition.
pub open spec fn kind_text(f: FunctionMetadata, names: BuiltinTypes) -> Seq<char> {
    let d = definition_text(f, names);
    if starts_with_seq(d, "op"@) {
        "op"@
    } else if starts_with_seq(d, "fn get "@) {
        "get"@
    } else if starts_with_seq(d, "fn set "@) {
        "set"@
    } else {
        "fn"@
    }
}

/// The collapsible details block holding a group's prose, when it has any.
pub open spec fn details_text(doc: Option<Seq<char>>) -> Seq<char> {
    match doc {
        Some(d) => "\n<details>\n<summary markdown=\"span\"> details </summary>\n\n"@ + d
            + "\n</details>\n"@,
        None => Seq::empty(),
    }
}

/// The first `k` signature lines of the group, joined with newlines.
pub open spec fn signatures_text(g: Seq<FunctionMetadata>, names: BuiltinTypes, k: int) -> Seq<
    char,
>
    decreases k,
{
    if k <= 0 {
        Seq::empty()
    } else if k == 1 {
        definition_text(g[0], names)
    } else {
        signatures_text(g, names, k - 1) + "\n"@ + definition_text(g[k - 1], names)
    }
}

/// The full markdown block of one function group.
pub open spec fn group_block_text(
    name: Seq<char>,
    g: Seq<FunctionMetadata>,
    names: BuiltinTypes,
) -> Seq<char> {
    "\n<div markdown=\"span\" style='box-shadow: 0 4px 8px 0 rgba(0,0,0,0.2); padding: 15px; border-radius: 5px;'>\n\n<h2 class=\"func-name\"> <code>"@
        + kind_text(g[0], names) + "</code> "@ + name + " </h2>\n\n```rust,ignore\n"@
        + signatures_text(g, names, g.len() as int) + "\n```\n"@ + details_text(
        formatted_fn_doc(g[0].doc_comments),
    ) + "\n</div>\n</br>\n"@
}

/// Render the markdown block of one group of overloads sharing a display
/// name: nothing for an anonymous function, the full block otherwise.
pub fn generate_function_documentation(
    name: &str,
    polymorphisms: &Vec<FunctionMetadata>,
    names: &BuiltinTypes,
) -> (r: Option<String>)
    requires
        polymorphisms@.len() > 0,
    ensures
        match r {
            Some(s) => !starts_with_seq(name@, "anon$"@) && s@ == group_block_text(
                name@,
                polymorphisms@,
                *names,
            ),
            None => starts_with_seq(name@, "anon$"@),
        },
{
    if str_starts_with(name, "anon$") {
        return None;
    }
    let root_definition = generate_function_definition(&polymorphisms[0], names);
    let kind: &str = if str_starts_with(root_definition.as_str(), "op") {
        "op"
    } else if str_starts_with(root_definition.as_str(), "fn get ") {
        "get"
    } else if str_starts_with(root_definition.as_str(), "fn set ") {
        "set"
    } else {
        "fn"
    };
    let mut sigs = String::new();
    let n: usize = polymorphisms.len();
    let mut i: usize = 0;
    while i < n
        invariant
            n == polymorphisms@.len(),
            i <= n,
            sigs@ == signatures_text(polymorphisms@, *names, i as int),
        decreases n - i,
    {
        let ghost pre = sigs@;
        if i > 0 {
            sigs.append("\n");
        }
        let d = generate_function_definition(&polymorphisms[i], names);
        sigs.append(d.as_str());
        proof {
            if i > 0 {
                assert(sigs@ =~= pre + "\n"@ + definition_text(polymorphisms@[i as int], *names));
            }
        }
        i += 1;
    }
    let details: String = match polymorphisms[0].fmt_doc_comments() {
        Some(doc) => {
            let mut d = String::new();
            d.append("\n<details>\n<summary markdown=\"span\"> details </summary>\n\n");
            d.append(doc.as_str());
            d.append("\n</details>\n");
            proof {
                assert(d@ =~= details_text(formatted_fn_doc(polymorphisms@[0].doc_comments)));
            }
            d
        },
        None => {
            let d = String::new();
            proof {
                assert(d@ =~= details_text(formatted_fn_doc(polymorphisms@[0].doc_comments)));
            }
            d
        },
    };
    let mut out = String::new();
    out.append(
        "\n<div markdown=\"span\" style='box-shadow: 0 4px 8px 0 rgba(0,0,0,0.2); padding: 15px; border-radius: 5px;'>\n\n<h2 class=\"func-name\"> <code>",
    );
    out.append(kind);
    out.append("</code> ");
    out.append(name);
    out.append(" </h2>\n\n```rust,ignore\n");
    out.append(sigs.as_str());
    out.append("\n```\n");
    out.append(details.as_str());
    out.append("\n</div>\n</br>\n");
    proof {
        assert(out@ =~= group_block_text(name@, polymorphisms@, *names));
    }
    Some(out)
}

/// A group key rewritten for display: accessor markers removed everywhere.
pub open spec fn display_name(key: Seq<char>) -> Seq<char> {
    replace_seq(replace_seq(key, "get$"@, Seq::empty()), "set$"@, Seq::empty())
}

/// What one ordered group adds to its module's text: nothing when its
/// display name marks an anonymous function, its block otherwise.
pub open spec fn group_contribution(
    g: (String, Vec<FunctionMetadata>),
    names: BuiltinTypes,
) -> Seq<char> {
    let disp = display_name(g.0@);
    if starts_with_seq(disp, "anon$"@) {
        Seq::empty()
    } else {
        group_block_text(disp, g.1@, names)
    }
}

/// The concatenated blocks of the first `k` ordered groups.
pub open spec fn blocks_text(
    og: Seq<(String, Vec<FunctionMetadata>)>,
    names: BuiltinTypes,
    k: int,
) -> Seq<char>
    decreases k,
{
    if k <= 0 {
        Seq::empty()
    } else {
        blocks_text(og, names, k - 1) + group_contribution(og[k - 1], names)
    }
}

proof fn lemma_blocks_prefix(
    a: Seq<(String, Vec<FunctionMetadata>)>,
    b: Seq<(String, Vec<FunctionMetadata>)>,
    names: BuiltinTypes,
    k: int,
)
    requires
        0 <= k <= a.len(),
        k <= b.len(),
        forall|i: int| 0 <= i < k ==> a[i] == b[i],
    ensures
        blocks_text(a, names, k) == blocks_text(b, names, k),
    decreases k,
{
    if k > 0 {
        lemma_blocks_prefix(a, b, names, k - 1);
    }
}

/// Anonymous exclusion: a group whose display name starts with the
/// anonymous-function marker contributes nothing to its module's text,
/// whatever its position, so removing it from the ordered groups leaves
/// the rendered text unchanged.
pub proof fn lemma_anonymous_group_elided(
    og: Seq<(String, Vec<FunctionMetadata>)>,
    names: BuiltinTypes,
    j: int,
)
    requires
        0 <= j < og.len(),
        starts_with_seq(display_name(og[j].0@), "anon$"@),
    ensures
        blocks_text(og.remove(j), names, og.len() - 1) == blocks_text(og, names, og.len() as int),
    decreases og.len(),
{
    let n = og.len() as int;
    if j == n - 1 {
        assert(og.remove(j) =~= og.take(n - 1));
        lemma_blocks_prefix(og.remove(j), og, names, n - 1);
        assert(group_contribution(og[n - 1], names) == Seq::<char>::empty());
        assert(blocks_text(og, names, n - 1) + Seq::<char>::empty() =~= blocks_text(
            og,
            names,
            n - 1,
        ));
    } else {
        let front = og.take(n - 1);
        assert(front[j] == og[j]);
        lemma_anonymous_group_elided(front, names, j);
        lemma_blocks_prefix(front, og, names, n - 1);
        assert(og.remove(j).take(n - 2) =~= front.remove(j));
        lemma_blocks_prefix(og.remove(j), front.remove(j), names, n - 2);
        assert(og.remove(j)[n - 2] == og[n - 1]);
        assert(blocks_text(og.remove(j), names, n - 1) == blocks_text(og.remove(j), names, n - 2)
            + group_contribution(og[n - 1], names));
        assert(blocks_text(og, names, n) == blocks_text(og, names, n - 1) + group_contribution(
            og[n - 1],
            names,
        ));
    }
}

/// The module heading: its qualified name, then its own formatted prose
/// when it has any.
pub open spec fn module_header_text(namespace: Seq<char>, doc: Option<String>) -> Seq<char> {
    "# "@ + namespace + "\n\n"@ + (match formatted_module_doc(doc) {
        Some(d) => d + "\n\n"@,
        None => Seq::empty(),
    })
}

/// `gr` is the grouping of `fs`: one group per distinct raw name in
/// first-occurrence order, holding that name's overloads in input order.
pub open spec fn groups_of(
    fs: Seq<FunctionMetadata>,
    gr: Seq<(String, Vec<FunctionMetadata>)>,
) -> bool {
    gr.len() == distinct_names(fs).len() && forall|k: int|
        0 <= k < gr.len() ==> (#[trigger] gr[k].0)@ == distinct_names(fs)[k] && gr[k].1@
            == with_name(fs, gr[k].0@)
}

/// `og` is `gr` ordered under the policy: its stable sort by key, or its
/// by-index arrangement.
pub open spec fn ordering_ok(
    order: FunctionOrder,
    gr: Seq<(String, Vec<FunctionMetadata>)>,
    og: Seq<(String, Vec<FunctionMetadata>)>,
) -> bool {
    match order {
        FunctionOrder::Alphabetical => og == sort_groups(gr),
        FunctionOrder::ByIndex => by_index_valid(gr) && og.len() == gr.len() && forall|k: int|
            0 <= k < gr.len() ==> match parsed_index(#[trigger] gr[k].1@) {
                Some(ix) => 1 <= ix <= gr.len() && og[ix - 1] == gr[k],
                None => false,
            },
    }
}

/// Validity of the by-index directives depends only on the groups'
/// contents, not on which key strings carry them.
pub proof fn lemma_by_index_valid_congruent(
    g1: Seq<(String, Vec<FunctionMetadata>)>,
    g2: Seq<(String, Vec<FunctionMetadata>)>,
)
    requires
        g1.len() == g2.len(),
        forall|k: int| 0 <= k < g1.len() ==> (#[trigger] g1[k].1)@ == g2[k].1@,
    ensures
        by_index_valid(g1) == by_index_valid(g2),
{
    assert forall|k: int| 0 <= k < g1.len() implies group_invalid_at(g1, k) == group_invalid_at(
        g2,
        k,
    ) by {
        assert(g1[k].1@ == g2[k].1@);
        assert(parsed_index(g1[k].1@) == parsed_index(g2[k].1@));
        match parsed_index(g1[k].1@) {
            None => {},
            Some(ix) => {
                if exists|k2: int| 0 <= k2 < k && parsed_index(#[trigger] g1[k2].1@) == Some(ix) {
                    let k2 = choose|k2: int|
                        0 <= k2 < k && parsed_index(#[trigger] g1[k2].1@) == Some(ix);
                    assert(g1[k2].1@ == g2[k2].1@);
                    assert(parsed_index(g2[k2].1@) == Some(ix));
                }
                if exists|k2: int| 0 <= k2 < k && parsed_index(#[trigger] g2[k2].1@) == Some(ix) {
                    let k2 = choose|k2: int|
                        0 <= k2 < k && parsed_index(#[trigger] g2[k2].1@) == Some(ix);
                    assert(g1[k2].1@ == g2[k2].1@);
                    assert(parsed_index(g1[k2].1@) == Some(ix));
                }
            },
        }
    }
}

/// The structural height of shallow module metadata: one above the tallest
/// raw sub-module value.
pub open spec fn max_heights(subs: Seq<(String, serde_json::Value)>) -> nat
    decreases subs.len(),
{
    if subs.len() == 0 {
        0
    } else {
        let h = json_height(subs.last().1);
        let rest = max_heights(subs.drop_last());
        if h > rest {
            h
        } else {
            rest
        }
    }
}

pub open spec fn meta_height(m: ModuleMetadata) -> nat {
    match m.modules {
        Some(subs) => 1 + max_heights(subs@),
        None => 0,
    }
}

proof fn lemma_max_heights_ge(subs: Seq<(String, serde_json::Value)>, i: int)
    requires
        0 <= i < subs.len(),
    ensures
        max_heights(subs) >= json_height(subs[i].1),
    decreases subs.len(),
{
    if i == subs.len() - 1 {
    } else {
        assert(subs.drop_last()[i] == subs[i]);
        lemma_max_heights_ge(subs.drop_last(), i);
    }
}

proof fn lemma_max_heights_lt(subs: Seq<(String, serde_json::Value)>, h: nat)
    requires
        h >= 1,
        forall|i: int| 0 <= i < subs.len() ==> json_height(#[trigger] subs[i].1) < h,
    ensures
        max_heights(subs) < h,
    decreases subs.len(),
{
    if subs.len() > 0 {
        assert(forall|i: int| 0 <= i < subs.len() - 1 ==> subs.drop_last()[i] == subs[i]);
        lemma_max_heights_lt(subs.drop_last(), h);
        assert(json_height(subs.last().1) < h);
    }
}

proof fn lemma_with_name_present(fs: Seq<FunctionMetadata>, key: Seq<char>)
    requires
        exists|i: int| 0 <= i < fs.len() && (#[trigger] fs[i].name)@ == key,
    ensures
        with_name(fs, key).len() > 0,
    decreases fs.len(),
{
    let i = choose|i: int| 0 <= i < fs.len() && (#[trigger] fs[i].name)@ == key;
    if i == fs.len() - 1 {
    } else {
        assert(fs.drop_last()[i] == fs[i]);
        lemma_with_name_present(fs.drop_last(), key);
    }
}

/// Build the documentation tree of one module and its sub-modules. The
/// module's own text is its header followed by one block per ordered,
/// non-anonymous function group; each raw sub-module value is decoded and
/// rendered in turn, under the namespace `<parent>::<name>`.
///
/// What a successful build pins down for the produced node: its qualified
/// name, its own text (header plus the blocks of its ordered groups), and
/// its sub-modules' count and names.
pub open spec fn module_doc_ok(
    order: FunctionOrder,
    names: BuiltinTypes,
    namespace: Seq<char>,
    metadata: ModuleMetadata,
    md: ModuleDocumentation,
) -> bool {
    &&& md.name@ == namespace
    &&& match metadata.functions {
        None => md.documentation@ == module_header_text(namespace, metadata.doc),
        Some(fs) => exists|
            gr: Seq<(String, Vec<FunctionMetadata>)>,
            og: Seq<(String, Vec<FunctionMetadata>)>,
        |
            groups_of(fs@, gr) && ordering_ok(order, gr, og) && md.documentation@
                == module_header_text(namespace, metadata.doc) + blocks_text(
                og,
                names,
                og.len() as int,
            ),
    }
    &&& match metadata.modules {
        None => md.sub_modules@.len() == 0,
        Some(subs) => md.sub_modules@.len() == subs@.len() && forall|i: int|
            0 <= i < subs@.len() ==> (#[trigger] md.sub_modules@[i].name)@ == namespace + "::"@
                + subs@[i].0@,
    }
}

/// The by-index directives of one grouping decide validity for every
/// grouping of the same functions.
proof fn lemma_no_invalid_grouping(
    fs: Seq<FunctionMetadata>,
    gr: Seq<(String, Vec<FunctionMetadata>)>,
)
    requires
        groups_of(fs, gr),
        by_index_valid(gr),
    ensures
        forall|g2: Seq<(String, Vec<FunctionMetadata>)>|
            #[trigger] groups_of(fs, g2) ==> by_index_valid(g2),
{
    assert forall|g2: Seq<(String, Vec<FunctionMetadata>)>|
        #[trigger] groups_of(fs, g2) implies by_index_valid(g2) by {
        assert(g2.len() == gr.len());
        assert forall|kk: int| 0 <= kk < g2.len() implies (#[trigger] g2[kk].1)@ == gr[kk].1@ by {
            assert(g2[kk].0@ == distinct_names(fs)[kk]);
            assert(gr[kk].0@ == distinct_names(fs)[kk]);
            assert(g2[kk].1@ == with_name(fs, distinct_names(fs)[kk]));
            assert(gr[kk].1@ == with_name(fs, distinct_names(fs)[kk]));
        }
        lemma_by_index_valid_congruent(g2, gr);
    }
}

pub fn generate_module_documentation(
    order: &FunctionOrder,
    names: &BuiltinTypes,
    namespace: &str,
    metadata: ModuleMetadata,
) -> (r: Result<ModuleDocumentation, Error>)
    ensures
        match r {
            Ok(md) => module_doc_ok(*order, *names, namespace@, metadata, md),
            Err(e) => e matches Error::PreProcessing(_) ==> *order is ByIndex,
        },
        metadata.functions is None && metadata.modules is None ==> r is Ok,
        metadata.modules is None && *order is Alphabetical ==> r is Ok,
        *order is ByIndex ==> (metadata.functions matches Some(fs) ==> ((exists|
            gr: Seq<(String, Vec<FunctionMetadata>)>,
        |
            groups_of(fs@, gr) && !by_index_valid(gr)) ==> (r matches Err(e)
            && e matches Error::PreProcessing(_)))),
        metadata.modules is None && *order is ByIndex ==> (metadata.functions matches Some(fs)
            ==> (r is Err <==> exists|gr: Seq<(String, Vec<FunctionMetadata>)>|
        groups_of(fs@, gr) && !by_index_valid(gr))),
    decreases meta_height(metadata),
{
    let ghost m0 = metadata;
    let ghost mut gr_g: Seq<(String, Vec<FunctionMetadata>)> = Seq::empty();
    let ghost mut og_g: Seq<(String, Vec<FunctionMetadata>)> = Seq::empty();
    let header_doc = metadata.fmt_doc_comments();
    let mut documentation = String::new();
    documentation.append("# ");
    documentation.append(namespace);
    documentation.append("\n\n");
    match header_doc {
        Some(doc) => {
            documentation.append(doc.as_str());
            documentation.append("\n\n");
        },
        None => {},
    }
    proof {
        assert(documentation@ =~= module_header_text(namespace@, m0.doc));
    }
    let ghost header = documentation@;
    let ModuleMetadata { doc: _, functions: functions_opt, modules: modules_opt } = metadata;
    match functions_opt {
        None => {},
        Some(functions) => {
            let ghost fsv = functions@;
            let groups = group_functions(functions);
            let ghost gr = groups@;
            proof {
                lemma_distinct_names_no_dup(fsv);
            }
            let ordered = match order.order_function_groups(groups) {
                Ok(o) => o,
                Err(e) => {
                    proof {
                        if *order is ByIndex {
                            assert(groups_of(fsv, gr) && !by_index_valid(gr));
                        }
                    }
                    return Err(e);
                },
            };
            let ghost og = ordered@;
            let n: usize = ordered.len();
            let mut k: usize = 0;
            proof {
                if *order is Alphabetical {
                    lemma_sort_groups_props(gr);
                }
            }
            while k < n
                invariant
                    n == og.len(),
                    k <= n,
                    ordered@ == og,
                    gr.len() == distinct_names(fsv).len(),
                    forall|q: int|
                        0 <= q < gr.len() ==> (#[trigger] gr[q].0)@ == distinct_names(fsv)[q]
                            && gr[q].1@ == with_name(fsv, gr[q].0@),
                    members_of(og, gr),
                    documentation@ == header + blocks_text(og, *names, k as int),
                decreases n - k,
            {
                let ghost pre = documentation@;
                let disp_inner = str_replace(ordered[k].0.as_str(), "get$", "");
                let disp = str_replace(disp_inner.as_str(), "set$", "");
                proof {
                    reveal_strlit("");
                    assert(""@ =~= Seq::<char>::empty());
                    assert(disp@ == display_name(og[k as int].0@));
                    let q = choose|q: int| 0 <= q < gr.len() && og[k as int] == gr[q];
                    assert(gr[q].1@ == with_name(fsv, gr[q].0@));
                    assert(distinct_names(fsv)[q] == gr[q].0@);
                    lemma_distinct_names_names(fsv, q);
                    lemma_with_name_present(fsv, gr[q].0@);
                    assert(og[k as int].1@.len() > 0);
                }
                match generate_function_documentation(disp.as_str(), &ordered[k].1, names) {
                    Some(block) => {
                        documentation.append(block.as_str());
                        proof {
                            assert(documentation@ =~= pre + group_contribution(
                                og[k as int],
                                *names,
                            ));
                        }
                    },
                    None => {
                        proof {
                            assert(pre + group_contribution(og[k as int], *names) =~= pre);
                        }
                    },
                }
                k += 1;
            }
            proof {
                gr_g = gr;
                og_g = og;
                assert(groups_of(fsv, gr_g));
                assert(ordering_ok(*order, gr_g, og_g));
                assert(documentation@ == header + blocks_text(og_g, *names, og_g.len() as int));
            }
        },
    }
    let mut sub_modules: Vec<ModuleDocumentation> = Vec::new();
    match &modules_opt {
        None => {},
        Some(subs) => {
            let ghost sv = subs@;
            let sn: usize = subs.len();
            let mut i: usize = 0;
            while i < sn
                invariant
                    sn == sv.len(),
                    i <= sn,
                    subs@ == sv,
                    m0 == metadata,
                    m0.modules == Some(*subs),
                    sub_modules@.len() == i,
                    m0.functions matches Some(fs) ==> (groups_of(fs@, gr_g) && ordering_ok(
                        *order,
                        gr_g,
                        og_g,
                    )),
                    forall|q: int|
                        0 <= q < i ==> (#[trigger] sub_modules@[q].name)@ == namespace@ + "::"@
                            + sv[q].0@,
                decreases sn - i,
            {
                let mut child_ns = String::new();
                child_ns.append(namespace);
                child_ns.append("::");
                child_ns.append(subs[i].0.as_str());
                proof {
                    assert(child_ns@ =~= namespace@ + "::"@ + sv[i as int].0@);
                }
                let child_meta = match decode_module(&subs[i].1) {
                    Ok(m) => m,
                    Err(msg) => {
                        proof {
                            if *order is ByIndex && m0.functions is Some {
                                lemma_no_invalid_grouping(m0.functions.unwrap()@, gr_g);
                            }
                        }
                        return Err(Error::Metadata(msg));
                    },
                };
                proof {
                    lemma_max_heights_ge(sv, i as int);
                    match &child_meta.modules {
                        Some(cs) => {
                            lemma_max_heights_lt(cs@, json_height(sv[i as int].1));
                        },
                        None => {},
                    }
                    assert(meta_height(child_meta) < meta_height(m0));
                }
                match generate_module_documentation(order, names, child_ns.as_str(), child_meta) {
                    Ok(child_doc) => {
                        sub_modules.push(child_doc);
                    },
                    Err(e) => {
                        proof {
                            if *order is ByIndex && m0.functions is Some {
                                lemma_no_invalid_grouping(m0.functions.unwrap()@, gr_g);
                            }
                        }
                        return Err(e);
                    },
                }
                i += 1;
            }
        },
    }
    proof {
        if *order is ByIndex && m0.functions is Some {
            lemma_no_invalid_grouping(m0.functions.unwrap()@, gr_g);
        }
    }
    Ok(ModuleDocumentation { name: namespace.to_owned(), sub_modules, documentation })
}

/// Each distinct name is the name of some function in the sequence.
proof fn lemma_distinct_names_names(fs: Seq<FunctionMetadata>, q: int)
    requires
        0 <= q < distinct_names(fs).len(),
    ensures
        exists|w: int| 0 <= w < fs.len() && (#[trigger] fs[w].name)@ == distinct_names(fs)[q],
    decreases fs.len(),
{
    if fs.len() > 0 {
        let d = distinct_names(fs.drop_last());
        assert(forall|i: int| 0 <= i < fs.len() - 1 ==> fs.drop_last()[i] == fs[i]);
        if d.contains(fs.last().name@) {
            lemma_distinct_names_names(fs.drop_last(), q);
            let w = choose|w: int|
                0 <= w < fs.drop_last().len() && (#[trigger] fs.drop_last()[w].name)@
                    == distinct_names(fs.drop_last())[q];
            assert(fs[w].name@ == distinct_names(fs)[q]);
        } else {
            if q < d.len() {
                lemma_distinct_names_names(fs.drop_last(), q);
                let w = choose|w: int|
                    0 <= w < fs.drop_last().len() && (#[trigger] fs.drop_last()[w].name)@
                        == distinct_names(fs.drop_last())[q];
                assert(fs[w].name@ == distinct_names(fs)[q]);
            } else {
                assert(fs[fs.len() - 1].name@ == distinct_names(fs)[q]);
            }
        }
    }
}

} // verus!
