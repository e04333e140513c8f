use rhai_autodocs::host::host_builtin_types;
use rhai_autodocs::{def_type_name, is_operator, remove_result, BuiltinTypes};

#[test]
fn test_remove_result() {
    assert_eq!("Cache", remove_result("Result<Cache, Box<EvalAltResult>>"));
    assert_eq!("Cache", remove_result("Result<Cache,Box<EvalAltResult>>"));
    assert_eq!(
        "&mut Cache",
        remove_result("Result<&mut Cache, Box<EvalAltResult>>")
    );
    assert_eq!(
        "Cache",
        remove_result("Result<Cache, Box<rhai::EvalAltResult>>")
    );
    assert_eq!(
        "Cache",
        remove_result("Result<Cache,Box<rhai::EvalAltResult>>")
    );
    assert_eq!("Stuff", remove_result("EngineResult<Stuff>"));
    assert_eq!("Stuff", remove_result("RhaiResultOf<Stuff>"));
    assert_eq!("Stuff", remove_result("rhai::RhaiResultOf<Stuff>"));
}

#[test]
fn test_remove_result_leaves_unrecognized_forms() {
    assert_eq!("Result<Cache>", remove_result("Result<Cache>"));
    assert_eq!("Cache", remove_result("Cache"));
    assert_eq!("EngineResult<Stuff", remove_result("EngineResult<Stuff"));
}

fn names() -> BuiltinTypes {
    host_builtin_types()
}

#[test]
fn test_def_type_name_strips_mut_and_namespaces() {
    assert_eq!("Cache", def_type_name("&mut Cache", &names()));
    assert_eq!("Type", def_type_name("module::path::Type", &names()));
    assert_eq!("Cache", def_type_name(" Cache ", &names()));
}

#[test]
fn test_def_type_name_builtins() {
    assert_eq!("int", def_type_name("INT", &names()));
    assert_eq!("int", def_type_name("i64", &names()));
    assert_eq!("float", def_type_name("f64", &names()));
    assert_eq!("float", def_type_name("FLOAT", &names()));
    assert_eq!("?", def_type_name("Dynamic", &names()));
    assert_eq!("String", def_type_name("&str", &names()));
    assert_eq!("String", def_type_name("ImmutableString", &names()));
    assert_eq!("Iterator<int>", def_type_name("Iterator<Item=INT>", &names()));
}

#[test]
fn test_def_type_name_unwraps_result_before_namespace_strip() {
    assert_eq!("Cache", def_type_name("Result<Cache, Box<EvalAltResult>>", &names()));
    assert_eq!("Stuff", def_type_name("rhai::RhaiResultOf<Stuff>", &names()));
    assert_eq!("Cache", def_type_name("&mut Result<Cache, Box<EvalAltResult>>", &names()));
}

#[test]
fn test_is_operator_tokens() {
    assert!(is_operator("=="));
    assert!(is_operator("!="));
    assert!(is_operator(">"));
    assert!(is_operator(">="));
    assert!(is_operator("<"));
    assert!(is_operator("<="));
    assert!(is_operator("in"));
    assert!(!is_operator("add"));
    assert!(!is_operator("==="));
}
