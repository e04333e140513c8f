//! The metadata model: the typed shape of a module's exported metadata, the
//! documentation output tree, the error type, and the decoding of opaque
//! JSON values into the model.

use vstd::prelude::*;
use crate::comments::{
    fmt_doc_comments, remove_extra_tokens, remove_test_code, remove_test_code_seq,
    strip_delimiters, strip_directive_lines,
};
use crate::json::{
    json_as_array, json_as_str, json_as_u64, json_height, json_is_null, json_object_entries,
};
use crate::text::{join_with, str_eq};

verus! {

/// A failure of a documentation build: an ordering-policy validation error,
/// or a metadata decode error.
#[derive(Debug)]
pub enum Error {
    PreProcessing(String),
    Metadata(String),
}

/// The rendered text of an error.
pub open spec fn error_message_seq(e: Error) -> Seq<char> {
    match e {
        Error::PreProcessing(m) => "ERROR: pre-processing error: "@ + m@,
        Error::Metadata(m) => "ERROR: failed to parse function or module metadata: "@ + m@,
    }
}

impl Error {
    /// The error rendered as one line of text.
    pub fn message(&self) -> (r: String)
        ensures
            r@ == error_message_seq(*self),
    {
        let mut out = String::new();
        match self {
            Error::PreProcessing(m) => {
                out.append("ERROR: pre-processing error: ");
                out.append(m.as_str());
                proof {
                    assert((Seq::<char>::empty() + "ERROR: pre-processing error: "@) + m@
                        =~= "ERROR: pre-processing error: "@ + m@);
                }
            },
            Error::Metadata(m) => {
                out.append("ERROR: failed to parse function or module metadata: ");
                out.append(m.as_str());
                proof {
                    assert((Seq::<char>::empty()
                        + "ERROR: failed to parse function or module metadata: "@) + m@
                        =~= "ERROR: failed to parse function or module metadata: "@ + m@);
                }
            },
        }
        out
    }
}

/// One declared parameter: its display name and raw type, either of which
/// the metadata may omit.
#[derive(Debug)]
pub struct ParamInfo {
    pub name: Option<String>,
    pub ty: Option<String>,
}

/// Decoded metadata of one registered function overload.
#[derive(Debug)]
pub struct FunctionMetadata {
    pub access: String,
    pub base_hash: u64,
    pub full_hash: u64,
    pub name: String,
    pub namespace: String,
    pub num_params: usize,
    pub params: Option<Vec<ParamInfo>>,
    pub signature: String,
    pub return_type: Option<String>,
    pub doc_comments: Option<Vec<String>>,
}

/// Decoded metadata of one module; sub-module values stay raw and are
/// decoded when the builder recurses into them.
#[derive(Debug)]
pub struct ModuleMetadata {
    pub doc: Option<String>,
    pub functions: Option<Vec<FunctionMetadata>>,
    pub modules: Option<Vec<(String, serde_json::Value)>>,
}

/// One module's generated documentation: its qualified name, its own
/// markdown text, and its sub-modules' documents.
#[derive(Debug)]
pub struct ModuleDocumentation {
    pub name: String,
    pub sub_modules: Vec<ModuleDocumentation>,
    pub documentation: String,
}

/// The formatted doc comment of a module, when it has one.
pub open spec fn formatted_module_doc(doc: Option<String>) -> Option<Seq<char>> {
    match doc {
        Some(d) => Some(remove_test_code_seq(strip_delimiters(d@))),
        None => None,
    }
}

/// The formatted doc comment of a function, when it has one: directive
/// lines dropped, fragments joined, delimiters stripped, hidden code-block
/// lines filtered.
pub open spec fn formatted_fn_doc(dc: Option<Vec<String>>) -> Option<Seq<char>> {
    match dc {
        Some(v) => Some(
            remove_test_code_seq(
                strip_delimiters(
                    join_with(
                        v.deep_view().map_values(|s: Seq<char>| strip_directive_lines(s)),
                        "\n"@,
                    ),
                ),
            ),
        ),
        None => None,
    }
}

impl ModuleMetadata {
    /// Format the module doc comments into readable markdown.
    pub fn fmt_doc_comments(&self) -> (r: Option<String>)
        ensures
            match r {
                Some(s) => self.doc is Some && Some(s@) == formatted_module_doc(self.doc),
                None => self.doc is None,
            },
    {
        match &self.doc {
            None => None,
            Some(d) => {
                let stripped = fmt_doc_comments(d.clone());
                Some(remove_test_code(stripped.as_str()))
            },
        }
    }
}

fn clone_string_vec(v: &Vec<String>) -> (r: Vec<String>)
    ensures
        r.deep_view() == v.deep_view(),
{
    let mut out: Vec<String> = Vec::new();
    let n: usize = v.len();
    let mut i: usize = 0;
    while i < n
        invariant
            n == v.len(),
            i <= n,
            out.deep_view() =~= v.deep_view().take(i as int),
        decreases n - i,
    {
        let c = v[i].clone();
        let ghost pre = out.deep_view();
        let ghost cv = c@;
        out.push(c);
        proof {
            assert(out.deep_view() =~= pre.push(cv));
            assert(pre.push(cv) =~= v.deep_view().take(i + 1));
        }
        i += 1;
    }
    proof {
        assert(v.deep_view().take(n as int) =~= v.deep_view());
    }
    out
}

impl FunctionMetadata {
    /// Format the function doc comments into readable markdown.
    pub fn fmt_doc_comments(&self) -> (r: Option<String>)
        ensures
            match r {
                Some(s) => self.doc_comments is Some && Some(s@) == formatted_fn_doc(
                    self.doc_comments,
                ),
                None => self.doc_comments is None,
            },
    {
        match &self.doc_comments {
            None => None,
            Some(dc) => {
                let owned = clone_string_vec(dc);
                let joined = remove_extra_tokens(owned);
                let stripped = fmt_doc_comments(joined);
                Some(remove_test_code(stripped.as_str()))
            },
        }
    }
}

/// Index of the first entry with the given key, if any.
fn find_key(entries: &Vec<(String, serde_json::Value)>, key: &str) -> (r: Option<usize>)
    ensures
        match r {
            Some(i) => i < entries@.len() && entries@[i as int].0@ == key@,
            None => forall|j: int| 0 <= j < entries@.len() ==> entries@[j].0@ != key@,
        },
{
    let n: usize = entries.len();
    let mut i: usize = 0;
    while i < n
        invariant
            n == entries@.len(),
            i <= n,
            forall|j: int| 0 <= j < i ==> entries@[j].0@ != key@,
        decreases n - i,
    {
        if str_eq(entries[i].0.as_str(), key) {
            return Some(i);
        }
        i += 1;
    }
    None
}

fn missing_field(key: &str) -> String {
    let mut out = String::new();
    out.append("missing or invalid field `");
    out.append(key);
    out.append("`");
    out
}

/// Decode one parameter object: every member must be a string; only the
/// `name` and `type` members are kept.
fn decode_param(v: &serde_json::Value) -> Result<ParamInfo, String> {
    let entries = match json_object_entries(v) {
        Some(e) => e,
        None => {
            return Err(missing_field("params"));
        },
    };
    let mut name: Option<String> = None;
    let mut ty: Option<String> = None;
    let n: usize = entries.len();
    let mut i: usize = 0;
    while i < n
        invariant
            n == entries.len(),
            i <= n,
        decreases n - i,
    {
        let sv = match json_as_str(&entries[i].1) {
            Some(s) => s,
            None => {
                return Err(missing_field("params"));
            },
        };
        if str_eq(entries[i].0.as_str(), "name") {
            name = Some(sv);
        } else if str_eq(entries[i].0.as_str(), "type") {
            ty = Some(sv);
        }
        i += 1;
    }
    Ok(ParamInfo { name, ty })
}

/// Read a required string member.
fn req_str(entries: &Vec<(String, serde_json::Value)>, key: &str) -> Result<String, String> {
    match find_key(entries, key) {
        Some(i) => match json_as_str(&entries[i].1) {
            Some(s) => Ok(s),
            None => Err(missing_field(key)),
        },
        None => Err(missing_field(key)),
    }
}

/// Read a required unsigned integer member.
fn req_u64(entries: &Vec<(String, serde_json::Value)>, key: &str) -> Result<u64, String> {
    match find_key(entries, key) {
        Some(i) => match json_as_u64(&entries[i].1) {
            Some(u) => Ok(u),
            None => Err(missing_field(key)),
        },
        None => Err(missing_field(key)),
    }
}

/// Decode one function's metadata object.
fn decode_function(v: &serde_json::Value) -> Result<FunctionMetadata, String> {
    let entries = match json_object_entries(v) {
        Some(e) => e,
        None => {
            return Err(missing_field("functions"));
        },
    };
    let access = match req_str(&entries, "access") {
        Ok(s) => s,
        Err(e) => {
            return Err(e);
        },
    };
    let base_hash = match req_u64(&entries, "baseHash") {
        Ok(u) => u,
        Err(e) => {
            return Err(e);
        },
    };
    let full_hash = match req_u64(&entries, "fullHash") {
        Ok(u) => u,
        Err(e) => {
            return Err(e);
        },
    };
    let name = match req_str(&entries, "name") {
        Ok(s) => s,
        Err(e) => {
            return Err(e);
        },
    };
    let namespace = match req_str(&entries, "namespace") {
        Ok(s) => s,
        Err(e) => {
            return Err(e);
        },
    };
    let num_params_raw = match req_u64(&entries, "numParams") {
        Ok(u) => u,
        Err(e) => {
            return Err(e);
        },
    };
    if num_params_raw > usize::MAX as u64 {
        return Err(missing_field("numParams"));
    }
    let num_params: usize = num_params_raw as usize;
    let signature = match req_str(&entries, "signature") {
        Ok(s) => s,
        Err(e) => {
            return Err(e);
        },
    };
    let params: Option<Vec<ParamInfo>> = match find_key(&entries, "params") {
        None => None,
        Some(i) => {
            if json_is_null(&entries[i].1) {
                None
            } else {
                let arr = match json_as_array(&entries[i].1) {
                    Some(a) => a,
                    None => {
                        return Err(missing_field("params"));
                    },
                };
                let mut ps: Vec<ParamInfo> = Vec::new();
                let m: usize = arr.len();
                let mut j: usize = 0;
                while j < m
                    invariant
                        m == arr.len(),
                        j <= m,
                    decreases m - j,
                {
                    match decode_param(&arr[j]) {
                        Ok(p) => ps.push(p),
                        Err(e) => {
                            return Err(e);
                        },
                    }
                    j += 1;
                }
                Some(ps)
            }
        },
    };
    let return_type: Option<String> = match find_key(&entries, "returnType") {
        None => None,
        Some(i) => {
            if json_is_null(&entries[i].1) {
                None
            } else {
                match json_as_str(&entries[i].1) {
                    Some(s) => Some(s),
                    None => {
                        return Err(missing_field("returnType"));
                    },
                }
            }
        },
    };
    let doc_comments: Option<Vec<String>> = match find_key(&entries, "docComments") {
        None => None,
        Some(i) => {
            if json_is_null(&entries[i].1) {
                None
            } else {
                let arr = match json_as_array(&entries[i].1) {
                    Some(a) => a,
                    None => {
                        return Err(missing_field("docComments"));
                    },
                };
                let mut ds: Vec<String> = Vec::new();
                let m: usize = arr.len();
                let mut j: usize = 0;
                while j < m
                    invariant
                        m == arr.len(),
                        j <= m,
                    decreases m - j,
                {
                    match json_as_str(&arr[j]) {
                        Some(s) => ds.push(s),
                        None => {
                            return Err(missing_field("docComments"));
                        },
                    }
                    j += 1;
                }
                Some(ds)
            }
        },
    };
    Ok(
        FunctionMetadata {
            access,
            base_hash,
            full_hash,
            name,
            namespace,
            num_params,
            params,
            signature,
            return_type,
            doc_comments,
        },
    )
}

/// Decode one module's metadata object, leaving sub-module values raw.
/// Every kept sub-module value stands strictly below `v`, which grounds the
/// builder's recursion.
pub(crate) fn decode_module(v: &serde_json::Value) -> (r: Result<ModuleMetadata, String>)
    ensures
        r matches Ok(m) ==> json_height(*v) >= 1 && match m.modules {
            Some(subs) => forall|i: int|
                0 <= i < subs@.len() ==> json_height(#[trigger] subs@[i].1) < json_height(*v),
            None => true,
        },
{
    let entries = match json_object_entries(v) {
        Some(e) => e,
        None => {
            return Err(missing_field("module metadata"));
        },
    };
    let doc: Option<String> = match find_key(&entries, "doc") {
        None => None,
        Some(i) => {
            if json_is_null(&entries[i].1) {
                None
            } else {
                match json_as_str(&entries[i].1) {
                    Some(s) => Some(s),
                    None => {
                        return Err(missing_field("doc"));
                    },
                }
            }
        },
    };
    let functions: Option<Vec<FunctionMetadata>> = match find_key(&entries, "functions") {
        None => None,
        Some(i) => {
            if json_is_null(&entries[i].1) {
                None
            } else {
                let arr = match json_as_array(&entries[i].1) {
                    Some(a) => a,
                    None => {
                        return Err(missing_field("functions"));
                    },
                };
                let mut fs: Vec<FunctionMetadata> = Vec::new();
                let m: usize = arr.len();
                let mut j: usize = 0;
                while j < m
                    invariant
                        m == arr.len(),
                        j <= m,
                    decreases m - j,
                {
                    match decode_function(&arr[j]) {
                        Ok(f) => fs.push(f),
                        Err(e) => {
                            return Err(e);
                        },
                    }
                    j += 1;
                }
                Some(fs)
            }
        },
    };
    let modules: Option<Vec<(String, serde_json::Value)>> = match find_key(&entries, "modules") {
        None => None,
        Some(i) => {
            if json_is_null(&entries[i].1) {
                None
            } else {
                match json_object_entries(&entries[i].1) {
                    Some(subs) => Some(subs),
                    None => {
                        return Err(missing_field("modules"));
                    },
                }
            }
        },
    };
    Ok(ModuleMetadata { doc, functions, modules })
}

} // verus!
