use rhai_autodocs::host::host_builtin_types;
use rhai_autodocs::{
    generate_function_documentation, Error, FunctionMetadata, FunctionOrder,
};

fn fn_meta(name: &str, doc_comments: Option<Vec<String>>) -> FunctionMetadata {
    FunctionMetadata {
        access: String::from("public"),
        base_hash: 1,
        full_hash: 2,
        name: String::from(name),
        namespace: String::from("global"),
        num_params: 0,
        params: None,
        signature: format!("{name}()"),
        return_type: None,
        doc_comments,
    }
}

fn group(name: &str, doc: Option<&str>) -> (String, Vec<FunctionMetadata>) {
    (
        String::from(name),
        vec![fn_meta(name, doc.map(|d| vec![String::from(d)]))],
    )
}

#[test]
fn test_alphabetical_order() {
    let groups = vec![group("zeta", None), group("alpha", None), group("mid", None)];
    let ordered = FunctionOrder::Alphabetical
        .order_function_groups(groups)
        .expect("alphabetical ordering cannot fail");
    let keys: Vec<&str> = ordered.iter().map(|g| g.0.as_str()).collect();
    assert_eq!(vec!["alpha", "mid", "zeta"], keys);
}

#[test]
fn test_by_index_order() {
    let groups = vec![
        group("second", Some("/// # rhai-autodocs:index:2")),
        group("first", Some("/// # rhai-autodocs:index:1")),
    ];
    let ordered = FunctionOrder::ByIndex
        .order_function_groups(groups)
        .expect("both groups carry directives");
    let keys: Vec<&str> = ordered.iter().map(|g| g.0.as_str()).collect();
    assert_eq!(vec!["first", "second"], keys);
}

#[test]
fn test_by_index_missing_directive_names_function() {
    let groups = vec![
        group("documented", Some("/// # rhai-autodocs:index:1")),
        group("forgotten", Some("/// no directive here")),
    ];
    let err = FunctionOrder::ByIndex
        .order_function_groups(groups)
        .expect_err("the second group has no directive");
    match &err {
        Error::PreProcessing(m) => {
            assert_eq!("missing ord metadata in function forgotten", m)
        }
        Error::Metadata(_) => panic!("expected a pre-processing error"),
    }
    assert_eq!(
        "ERROR: pre-processing error: missing ord metadata in function forgotten",
        err.message()
    );
}

#[test]
fn test_by_index_unparsable_directive_fails() {
    let groups = vec![group("odd", Some("/// # rhai-autodocs:index:one"))];
    let err = FunctionOrder::ByIndex
        .order_function_groups(groups)
        .expect_err("the directive index is not a number");
    assert_eq!(
        "ERROR: pre-processing error: invalid ordering index in function odd",
        err.message()
    );
}

#[test]
fn test_by_index_out_of_range_fails() {
    let groups = vec![group("solo", Some("/// # rhai-autodocs:index:4"))];
    let err = FunctionOrder::ByIndex
        .order_function_groups(groups)
        .expect_err("index four exceeds the single group");
    assert_eq!(
        "ERROR: pre-processing error: ordering index out of range in function solo",
        err.message()
    );
}

#[test]
fn test_by_index_duplicate_fails() {
    let groups = vec![
        group("one", Some("/// # rhai-autodocs:index:1")),
        group("other", Some("/// # rhai-autodocs:index:1")),
    ];
    let err = FunctionOrder::ByIndex
        .order_function_groups(groups)
        .expect_err("two groups claim the same position");
    assert_eq!(
        "ERROR: pre-processing error: duplicate ordering index in function other",
        err.message()
    );
}

#[test]
fn test_by_index_reads_last_marker_on_the_line() {
    let groups = vec![group(
        "tricky",
        Some("/// # rhai-autodocs:index: then # rhai-autodocs:index:1"),
    )];
    let ordered = FunctionOrder::ByIndex
        .order_function_groups(groups)
        .expect("the suffix after the last marker parses");
    assert_eq!("tricky", ordered[0].0);
}

#[test]
fn test_anonymous_function_renders_nothing() {
    let names = host_builtin_types();
    let g = fn_meta("anon$_closure_1", None);
    assert!(generate_function_documentation("anon$_closure_1", &vec![g], &names).is_none());
    let g = fn_meta("visible", None);
    assert!(generate_function_documentation("visible", &vec![g], &names).is_some());
}
