//! Markdown documentation generator for a scripting engine's function metadata.
//!
//! The library ingests the JSON metadata that an engine instance exports for
//! its registered functions and modules, groups polymorphic overloads, orders
//! the groups, normalizes raw type names into readable pseudo-signatures, and
//! emits one formatted markdown document per module, recursing through the
//! module tree.

use vstd::prelude::*;

pub mod comments;
pub mod host;
pub mod json;
pub mod model;
pub mod ordering;
pub mod render;
pub mod text;
pub mod types;

pub use comments::{fmt_doc_comments, remove_extra_tokens, remove_test_code};
pub use model::{Error, FunctionMetadata, ModuleDocumentation, ModuleMetadata, ParamInfo};
pub use ordering::FunctionOrder;
pub use render::{generate_function_definition, generate_function_documentation};
pub use types::{is_operator, remove_result, def_type_name, BuiltinTypes};

use crate::host::{engine_metadata_json, host_builtin_types, host_names_ok};
use crate::json::{json_parse, json_parse_err, json_parses};
use crate::model::decode_module;
use crate::render::{generate_module_documentation, module_doc_ok};

verus! {

/// Options to configure documentation generation.
pub struct Options {
    pub order: FunctionOrder,
    pub include_standard_packages: bool,
}

impl core::default::Default for Options {
    fn default() -> (r: Self)
        ensures
            r.order is Alphabetical,
            !r.include_standard_packages,
    {
        Options { order: FunctionOrder::Alphabetical, include_standard_packages: false }
    }
}

/// Create new options used to configure docs generation.
pub fn options() -> (r: Options)
    ensures
        r.order is Alphabetical,
        !r.include_standard_packages,
{
    Options::default()
}

impl Options {
    /// Include the standard package functions and modules documentation in
    /// the generated documentation markdown.
    pub fn include_standard_packages(self, include_standard_packages: bool) -> (r: Self)
        ensures
            r.order == self.order,
            r.include_standard_packages == include_standard_packages,
    {
        Options { order: self.order, include_standard_packages }
    }

    /// Order functions in a specific way. See [`FunctionOrder`] for more
    /// details.
    pub fn order_with(self, order: FunctionOrder) -> (r: Self)
        ensures
            r.order == order,
            r.include_standard_packages == self.include_standard_packages,
    {
        Options { order, include_standard_packages: self.include_standard_packages }
    }

    /// Generate documentation from the metadata an engine instance exports.
    /// What the engine exports, and whether exporting fails, depends on the
    /// instance, so only the successful outcome is pinned: a built tree is
    /// the root `global` document of some decoded metadata under this
    /// configuration, as `generate_from_json` states it.
    pub fn generate(self, engine: &rhai::Engine) -> (r: Result<ModuleDocumentation, Error>)
        ensures
            r matches Ok(md) ==> exists|m: ModuleMetadata, nm: BuiltinTypes|
                host_names_ok(nm) && module_doc_ok(self.order, nm, "global"@, m, md),
            r matches Err(e) ==> (e matches Error::PreProcessing(_) ==> self.order is ByIndex),
    {
        match engine_metadata_json(engine, self.include_standard_packages) {
            Err(e) => Err(Error::Metadata(e)),
            Ok(json) => self.generate_from_json(json.as_str()),
        }
    }

    /// Generate documentation from a module-metadata JSON document, rooted
    /// at the `global` namespace. Text the JSON parser rejects yields a
    /// metadata error carrying the parse error's message; a built tree is
    /// the `global` document of some decoded metadata, with its text and
    /// sub-module names as `module_doc_ok` states them.
    pub fn generate_from_json(self, json: &str) -> (r: Result<ModuleDocumentation, Error>)
        ensures
            !json_parses(json@) ==> (r matches Err(e) && (e matches Error::Metadata(m) && m@
                == json_parse_err(json@))),
            r matches Ok(md) ==> exists|m: ModuleMetadata, nm: BuiltinTypes|
                host_names_ok(nm) && module_doc_ok(self.order, nm, "global"@, m, md),
            r matches Err(e) ==> (e matches Error::PreProcessing(_) ==> self.order is ByIndex),
    {
        let names = host_builtin_types();
        match json_parse(json) {
            Err(e) => Err(Error::Metadata(e)),
            Ok(v) => match decode_module(&v) {
                Err(e) => Err(Error::Metadata(e)),
                Ok(m) => generate_module_documentation(&self.order, &names, "global", m),
            },
        }
    }
}

} // verus!
