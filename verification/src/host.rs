//! The host-engine boundary: the declaration of the engine type, the
//! trusted export of its function metadata, and the names the default host
//! build spells the engine's built-in types with.

use vstd::prelude::*;
use crate::types::BuiltinTypes;

verus! {

#[verifier::external_type_specification]
#[verifier::external_body]
pub struct ExEngine(rhai::Engine);

/// Relies on rhai::Engine::gen_fn_metadata_to_json: exports the metadata of
/// the functions registered in the engine as a JSON document, optionally
/// including the standard packages. The outcome depends on the engine
/// instance, so nothing is stated of it; a failure is carried as the
/// error's rendered message.
#[verifier::external_body]
pub fn engine_metadata_json(engine: &rhai::Engine, include_standard_packages: bool) -> (r: Result<
    String,
    String,
>) {
    match engine.gen_fn_metadata_to_json(include_standard_packages) {
        Ok(s) => Ok(s),
        Err(e) => Err(e.to_string()),
    }
}

/// The table holds the spelled names of the engine's built-in types in the
/// default host build: the integer type is `i64`, the floating-point type
/// is `f64`, arrays and blobs are vectors, object maps are ordered maps
/// keyed by compact strings, and timestamps are the standard instant type.
pub open spec fn host_names_ok(r: BuiltinTypes) -> bool {
    &&& r.int_type@ == "i64"@
    &&& r.float_type@ == "f64"@
    &&& r.array_type@ == "alloc::vec::Vec<rhai::types::dynamic::Dynamic>"@
    &&& r.blob_type@ == "alloc::vec::Vec<u8>"@
    &&& r.map_type@
        == "alloc::collections::btree::map::BTreeMap<smartstring::SmartString<smartstring::LazyCompact>, rhai::types::dynamic::Dynamic>"@
    &&& r.instant_type@ == "std::time::Instant"@
    &&& r.fn_ptr_type@ == "rhai::types::fn_ptr::FnPtr"@
}

/// The default host build's names of the engine's built-in types, feeding
/// the normalizer's replacement chain.
pub fn host_builtin_types() -> (r: BuiltinTypes)
    ensures
        host_names_ok(r),
{
    BuiltinTypes {
        int_type: "i64".to_owned(),
        float_type: "f64".to_owned(),
        array_type: "alloc::vec::Vec<rhai::types::dynamic::Dynamic>".to_owned(),
        blob_type: "alloc::vec::Vec<u8>".to_owned(),
        map_type:
            "alloc::collections::btree::map::BTreeMap<smartstring::SmartString<smartstring::LazyCompact>, rhai::types::dynamic::Dynamic>".to_owned(),
        instant_type: "std::time::Instant".to_owned(),
        fn_ptr_type: "rhai::types::fn_ptr::FnPtr".to_owned(),
    }
}

} // verus!
