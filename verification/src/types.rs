//! Type-name normalization: strips a mutable-borrow prefix, unwraps
//! fallible-result wrappers, drops namespace qualification, and rewrites the
//! engine's built-in type names to short display names.

use vstd::prelude::*;
use crate::text::{
    ends_with_seq, find_from, match_at, replace_seq, starts_with_seq, str_eq, str_ends_with,
    str_replace, str_starts_with, str_trim, substring, trim_seq,
};

verus! {

/// The names the host engine uses for its built-in types, as replacement
/// sources for normalization.
pub struct BuiltinTypes {
    pub int_type: String,
    pub float_type: String,
    pub array_type: String,
    pub blob_type: String,
    pub map_type: String,
    pub instant_type: String,
    pub fn_ptr_type: String,
}

/// A function name that renders as an operator.
pub open spec fn is_operator_seq(s: Seq<char>) -> bool {
    s == "=="@ || s == "!="@ || s == ">"@ || s == ">="@ || s == "<"@ || s == "<="@ || s == "in"@
}

/// Whether `name` is one of the fixed operator tokens.
pub fn is_operator(name: &str) -> (r: bool)
    ensures
        r == is_operator_seq(name@),
{
    str_eq(name, "==") || str_eq(name, "!=") || str_eq(name, ">") || str_eq(name, ">=") || str_eq(
        name,
        "<",
    ) || str_eq(name, "<=") || str_eq(name, "in")
}

/// The result of unwrapping a fallible-result wrapper from `s`: the trimmed
/// inner type when a recognized prefix and suffix pair matches, `s` itself
/// otherwise.
pub open spec fn remove_result_seq(s: Seq<char>) -> Seq<char> {
    if starts_with_seq(s, "Result<"@) {
        let inner = s.skip("Result<"@.len() as int);
        if ends_with_seq(inner, ",Box<EvalAltResult>>"@) {
            trim_seq(inner.take(inner.len() - ",Box<EvalAltResult>>"@.len()))
        } else if ends_with_seq(inner, ",Box<rhai::EvalAltResult>>"@) {
            trim_seq(inner.take(inner.len() - ",Box<rhai::EvalAltResult>>"@.len()))
        } else if ends_with_seq(inner, ", Box<EvalAltResult>>"@) {
            trim_seq(inner.take(inner.len() - ", Box<EvalAltResult>>"@.len()))
        } else if ends_with_seq(inner, ", Box<rhai::EvalAltResult>>"@) {
            trim_seq(inner.take(inner.len() - ", Box<rhai::EvalAltResult>>"@.len()))
        } else {
            s
        }
    } else if starts_with_seq(s, "EngineResult<"@) {
        let inner = s.skip("EngineResult<"@.len() as int);
        if ends_with_seq(inner, ">"@) {
            trim_seq(inner.take(inner.len() - ">"@.len()))
        } else {
            s
        }
    } else if starts_with_seq(s, "RhaiResultOf<"@) {
        let inner = s.skip("RhaiResultOf<"@.len() as int);
        if ends_with_seq(inner, ">"@) {
            trim_seq(inner.take(inner.len() - ">"@.len()))
        } else {
            s
        }
    } else if starts_with_seq(s, "rhai::RhaiResultOf<"@) {
        let inner = s.skip("rhai::RhaiResultOf<"@.len() as int);
        if ends_with_seq(inner, ">"@) {
            trim_seq(inner.take(inner.len() - ">"@.len()))
        } else {
            s
        }
    } else {
        s
    }
}

/// Strip one recognized fallible-result wrapper from a type string.
pub fn remove_result(ty: &str) -> (r: String)
    ensures
        r@ == remove_result_seq(ty@),
{
    let n: usize = ty.unicode_len();
    if str_starts_with(ty, "Result<") {
        let p: usize = "Result<".unicode_len();
        let inner = substring(ty, p, n);
        let m: usize = n - p;
        if str_ends_with(inner.as_str(), ",Box<EvalAltResult>>") {
            let q: usize = ",Box<EvalAltResult>>".unicode_len();
            str_trim(substring(inner.as_str(), 0, m - q).as_str())
        } else if str_ends_with(inner.as_str(), ",Box<rhai::EvalAltResult>>") {
            let q: usize = ",Box<rhai::EvalAltResult>>".unicode_len();
            str_trim(substring(inner.as_str(), 0, m - q).as_str())
        } else if str_ends_with(inner.as_str(), ", Box<EvalAltResult>>") {
            let q: usize = ", Box<EvalAltResult>>".unicode_len();
            str_trim(substring(inner.as_str(), 0, m - q).as_str())
        } else if str_ends_with(inner.as_str(), ", Box<rhai::EvalAltResult>>") {
            let q: usize = ", Box<rhai::EvalAltResult>>".unicode_len();
            str_trim(substring(inner.as_str(), 0, m - q).as_str())
        } else {
            proof {
                assert(ty@.skip(p as int).take(m as int) =~= ty@.skip(p as int));
            }
            ty.to_owned()
        }
    } else if str_starts_with(ty, "EngineResult<") {
        let p: usize = "EngineResult<".unicode_len();
        let inner = substring(ty, p, n);
        let m: usize = n - p;
        if str_ends_with(inner.as_str(), ">") {
            let q: usize = ">".unicode_len();
            str_trim(substring(inner.as_str(), 0, m - q).as_str())
        } else {
            ty.to_owned()
        }
    } else if str_starts_with(ty, "RhaiResultOf<") {
        let p: usize = "RhaiResultOf<".unicode_len();
        let inner = substring(ty, p, n);
        let m: usize = n - p;
        if str_ends_with(inner.as_str(), ">") {
            let q: usize = ">".unicode_len();
            str_trim(substring(inner.as_str(), 0, m - q).as_str())
        } else {
            ty.to_owned()
        }
    } else if str_starts_with(ty, "rhai::RhaiResultOf<") {
        let p: usize = "rhai::RhaiResultOf<".unicode_len();
        let inner = substring(ty, p, n);
        let m: usize = n - p;
        if str_ends_with(inner.as_str(), ">") {
            let q: usize = ">".unicode_len();
            str_trim(substring(inner.as_str(), 0, m - q).as_str())
        } else {
            ty.to_owned()
        }
    } else {
        ty.to_owned()
    }
}

/// Unwrapping inverts wrapping: a type name enclosed in any recognized
/// fallible-result wrapper comes back as the inner name, trimmed. A leading
/// `&mut` inside the wrapper survives the unwrap untouched.
pub proof fn lemma_remove_result_round_trip(t: Seq<char>)
    ensures
        remove_result_seq("Result<"@ + t + ", Box<EvalAltResult>>"@) == trim_seq(t),
        remove_result_seq("EngineResult<"@ + t + ">"@) == trim_seq(t),
        remove_result_seq("RhaiResultOf<"@ + t + ">"@) == trim_seq(t),
        remove_result_seq("rhai::RhaiResultOf<"@ + t + ">"@) == trim_seq(t),
{
    reveal_strlit("Result<");
    reveal_strlit("EngineResult<");
    reveal_strlit("RhaiResultOf<");
    reveal_strlit("rhai::RhaiResultOf<");
    reveal_strlit(",Box<EvalAltResult>>");
    reveal_strlit(",Box<rhai::EvalAltResult>>");
    reveal_strlit(", Box<EvalAltResult>>");
    reveal_strlit(", Box<rhai::EvalAltResult>>");
    reveal_strlit(">");
    let sfx = ", Box<EvalAltResult>>"@;
    {
        let s = "Result<"@ + t + sfx;
        assert(s.subrange(0, 7) =~= "Result<"@);
        let inner = s.skip("Result<"@.len() as int);
        assert(inner =~= t + sfx);
        let n = inner.len() as int;
        if ends_with_seq(inner, ",Box<EvalAltResult>>"@) {
            assert(inner.subrange(n - 20, n) == ",Box<EvalAltResult>>"@);
            assert(inner.subrange(n - 20, n)[0] == inner[n - 20]);
            assert(inner[n - 20] == sfx[1]);
            assert(false);
        }
        if ends_with_seq(inner, ",Box<rhai::EvalAltResult>>"@) {
            assert(inner.subrange(n - 26, n) == ",Box<rhai::EvalAltResult>>"@);
            assert(inner.subrange(n - 26, n)[5] == inner[n - 21]);
            assert(inner[n - 21] == sfx[0]);
            assert(false);
        }
        assert(inner.subrange(n - 21, n) =~= sfx);
        assert(ends_with_seq(inner, sfx));
        assert(inner.take(n - 21) =~= t);
        assert(remove_result_seq(s) == trim_seq(t));
    }
    {
        let s = "EngineResult<"@ + t + ">"@;
        assert(s[0] == 'E');
        if starts_with_seq(s, "Result<"@) {
            assert(s.subrange(0, 7)[0] == s[0]);
            assert(false);
        }
        assert(s.subrange(0, 13) =~= "EngineResult<"@);
        let inner = s.skip("EngineResult<"@.len() as int);
        assert(inner =~= t + ">"@);
        let n = inner.len() as int;
        assert(inner.subrange(n - 1, n) =~= ">"@);
        assert(ends_with_seq(inner, ">"@));
        assert(inner.take(n - 1) =~= t);
        assert(remove_result_seq(s) == trim_seq(t));
    }
    {
        let s = "RhaiResultOf<"@ + t + ">"@;
        assert(s[0] == 'R' && s[1] == 'h');
        if starts_with_seq(s, "Result<"@) {
            assert(s.subrange(0, 7)[1] == s[1]);
            assert(false);
        }
        if starts_with_seq(s, "EngineResult<"@) {
            assert(s.subrange(0, 13)[0] == s[0]);
            assert(false);
        }
        assert(s.subrange(0, 13) =~= "RhaiResultOf<"@);
        let inner = s.skip("RhaiResultOf<"@.len() as int);
        assert(inner =~= t + ">"@);
        let n = inner.len() as int;
        assert(inner.subrange(n - 1, n) =~= ">"@);
        assert(ends_with_seq(inner, ">"@));
        assert(inner.take(n - 1) =~= t);
        assert(remove_result_seq(s) == trim_seq(t));
    }
    {
        let s = "rhai::RhaiResultOf<"@ + t + ">"@;
        assert(s[0] == 'r');
        if starts_with_seq(s, "Result<"@) {
            assert(s.subrange(0, 7)[0] == s[0]);
            assert(false);
        }
        if starts_with_seq(s, "EngineResult<"@) {
            assert(s.subrange(0, 13)[0] == s[0]);
            assert(false);
        }
        if starts_with_seq(s, "RhaiResultOf<"@) {
            assert(s.subrange(0, 13)[0] == s[0]);
            assert(false);
        }
        assert(s.subrange(0, 19) =~= "rhai::RhaiResultOf<"@);
        let inner = s.skip("rhai::RhaiResultOf<"@.len() as int);
        assert(inner =~= t + ">"@);
        let n = inner.len() as int;
        assert(inner.subrange(n - 1, n) =~= ">"@);
        assert(ends_with_seq(inner, ">"@));
        assert(inner.take(n - 1) =~= t);
        assert(remove_result_seq(s) == trim_seq(t));
    }
}

/// A namespace separator `::` starts at position `i` of `s`.
pub open spec fn sep_at(s: Seq<char>, i: int) -> bool {
    0 <= i && i + 2 <= s.len() && s[i] == ':' && s[i + 1] == ':'
}

/// Index of the first namespace separator of `s`, or `s.len()` if none.
pub open spec fn first_sep(s: Seq<char>) -> int
    decreases s.len(),
{
    if s.len() < 2 {
        s.len() as int
    } else if sep_at(s, 0) {
        0
    } else {
        1 + first_sep(s.skip(1))
    }
}

pub proof fn lemma_first_sep(s: Seq<char>)
    ensures
        0 <= first_sep(s) <= s.len(),
        forall|j: int| 0 <= j < first_sep(s) ==> !sep_at(s, j),
        first_sep(s) < s.len() ==> sep_at(s, first_sep(s)),
    decreases s.len(),
{
    if s.len() < 2 {
    } else if sep_at(s, 0) {
    } else {
        lemma_first_sep(s.skip(1));
        assert forall|j: int| 0 <= j < first_sep(s) implies !sep_at(s, j) by {
            if j > 0 && sep_at(s, j) {
                assert(s.skip(1)[j - 1] == s[j]);
                assert(s.skip(1)[j] == s[j + 1]);
                assert(sep_at(s.skip(1), j - 1));
            }
        }
        if first_sep(s) < s.len() {
            assert(s.skip(1)[first_sep(s.skip(1))] == s[first_sep(s)]);
            assert(s.skip(1)[first_sep(s.skip(1)) + 1] == s[first_sep(s) + 1]);
        }
    }
}

/// What follows the last namespace separator, scanning separators from the
/// left as splitting does; the whole string when it has no separator.
pub open spec fn last_segment(s: Seq<char>) -> Seq<char>
    decreases s.len(),
{
    let i = first_sep(s);
    if 0 <= i && i + 2 <= s.len() {
        last_segment(s.skip(i + 2))
    } else {
        s
    }
}

/// The final segment of a `::`-qualified path.
pub fn str_last_segment(s: &str) -> (r: String)
    ensures
        r@ == last_segment(s@),
{
    let n: usize = s.unicode_len();
    let mut start: usize = 0;
    proof {
        assert(s@.skip(0) =~= s@);
        reveal_strlit("::");
    }
    loop
        invariant
            n == s@.len(),
            start <= n,
            "::"@ == seq![':', ':'],
            last_segment(s@) == last_segment(s@.skip(start as int)),
        decreases n - start,
    {
        let ghost rest = s@.skip(start as int);
        proof {
            lemma_first_sep(rest);
        }
        match find_from(s, "::", start) {
            Some(j) => {
                proof {
                    assert(s@.subrange(j as int, j + 2) =~= seq![s@[j as int], s@[j + 1]]);
                    assert(s@[j as int] == ':' && s@[j + 1] == ':');
                    assert(sep_at(rest, j - start));
                    assert forall|k: int| 0 <= k < j - start implies !sep_at(rest, k) by {
                        if sep_at(rest, k) {
                            assert(rest[k] == s@[start + k]);
                            assert(rest[k + 1] == s@[start + k + 1]);
                            assert(s@.subrange(start + k, start + k + 2) =~= seq![
                                s@[start + k],
                                s@[start + k + 1],
                            ]);
                            assert(match_at(s@, "::"@, start + k));
                        }
                    }
                    if first_sep(rest) < j - start {
                        assert(sep_at(rest, first_sep(rest)));
                        assert(false);
                    }
                    if first_sep(rest) > j - start {
                        assert(false);
                    }
                    assert(last_segment(rest) == last_segment(rest.skip(j - start + 2)));
                    assert(rest.skip(j - start + 2) =~= s@.skip(j + 2));
                }
                start = j + 2;
            },
            None => {
                proof {
                    if first_sep(rest) + 2 <= rest.len() {
                        let f = first_sep(rest);
                        assert(sep_at(rest, f));
                        assert(rest[f] == s@[start + f]);
                        assert(rest[f + 1] == s@[start + f + 1]);
                        assert(s@.subrange(start + f, start + f + 2) =~= seq![
                            s@[start + f],
                            s@[start + f + 1],
                        ]);
                        assert(match_at(s@, "::"@, start + f));
                        assert(false);
                    }
                    assert(last_segment(rest) == rest);
                    assert(rest =~= s@.subrange(start as int, n as int));
                }
                return substring(s, start, n);
            },
        }
    }
}

/// The fixed chain of literal replacements that rewrites engine built-in
/// type names, applied after wrapper and namespace stripping.
pub open spec fn builtin_replacements(s: Seq<char>, names: BuiltinTypes) -> Seq<char> {
    let s1 = replace_seq(s, "Iterator<Item="@, "Iterator<"@);
    let s2 = replace_seq(s1, "Dynamic"@, "?"@);
    let s3 = replace_seq(s2, "INT"@, "int"@);
    let s4 = replace_seq(s3, names.int_type@, "int"@);
    let s5 = replace_seq(s4, "FLOAT"@, "float"@);
    let s6 = replace_seq(s5, "&str"@, "String"@);
    let s7 = replace_seq(s6, "ImmutableString"@, "String"@);
    let s8 = replace_seq(s7, names.float_type@, "float"@);
    let s9 = replace_seq(s8, names.array_type@, "Array"@);
    let s10 = replace_seq(s9, names.blob_type@, "Blob"@);
    let s11 = replace_seq(s10, names.map_type@, "Map"@);
    let s12 = replace_seq(s11, names.instant_type@, "Instant"@);
    replace_seq(s12, names.fn_ptr_type@, "FnPtr"@)
}

/// The normalized display form of a raw type string: a leading `&mut`
/// stripped and the rest trimmed, one fallible-result wrapper unwrapped,
/// namespace qualification dropped, and built-in names rewritten.
pub open spec fn normalize_type_seq(s: Seq<char>, names: BuiltinTypes) -> Seq<char> {
    let base = if starts_with_seq(s, "&mut"@) {
        trim_seq(s.skip("&mut"@.len() as int))
    } else {
        trim_seq(s)
    };
    builtin_replacements(last_segment(remove_result_seq(base)), names)
}

/// Rewrite a raw type name into its simplified display form.
pub fn def_type_name(ty: &str, names: &BuiltinTypes) -> (r: String)
    ensures
        r@ == normalize_type_seq(ty@, *names),
{
    let base: String = if str_starts_with(ty, "&mut") {
        let p: usize = "&mut".unicode_len();
        let n: usize = ty.unicode_len();
        str_trim(substring(ty, p, n).as_str())
    } else {
        str_trim(ty)
    };
    let unwrapped = remove_result(base.as_str());
    let seg = str_last_segment(unwrapped.as_str());
    let s1 = str_replace(seg.as_str(), "Iterator<Item=", "Iterator<");
    let s2 = str_replace(s1.as_str(), "Dynamic", "?");
    let s3 = str_replace(s2.as_str(), "INT", "int");
    let s4 = str_replace(s3.as_str(), names.int_type.as_str(), "int");
    let s5 = str_replace(s4.as_str(), "FLOAT", "float");
    let s6 = str_replace(s5.as_str(), "&str", "String");
    let s7 = str_replace(s6.as_str(), "ImmutableString", "String");
    let s8 = str_replace(s7.as_str(), names.float_type.as_str(), "float");
    let s9 = str_replace(s8.as_str(), names.array_type.as_str(), "Array");
    let s10 = str_replace(s9.as_str(), names.blob_type.as_str(), "Blob");
    let s11 = str_replace(s10.as_str(), names.map_type.as_str(), "Map");
    let s12 = str_replace(s11.as_str(), names.instant_type.as_str(), "Instant");
    str_replace(s12.as_str(), names.fn_ptr_type.as_str(), "FnPtr")
}

} // verus!
