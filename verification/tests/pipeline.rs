use rhai_autodocs::host::host_builtin_types;
use rhai_autodocs::{
    generate_function_definition, options, Error, FunctionMetadata, FunctionOrder,
};

const MY_MODULE_EXPECTED: &str = r#"# global::my_module

My own module.


<div markdown="span" style='box-shadow: 0 4px 8px 0 rgba(0,0,0,0.2); padding: 15px; border-radius: 5px;'>

<h2 class="func-name"> <code>fn</code> hello_world </h2>

```rust,ignore
fn hello_world()
```

<details>
<summary markdown="span"> details </summary>

A function that prints to stdout.
</details>

</div>
</br>

<div markdown="span" style='box-shadow: 0 4px 8px 0 rgba(0,0,0,0.2); padding: 15px; border-radius: 5px;'>

<h2 class="func-name"> <code>fn</code> add </h2>

```rust,ignore
fn add(a: int, b: int) -> int
```

<details>
<summary markdown="span"> details </summary>

A function that adds two integers together.
</details>

</div>
</br>
"#;

const MY_MODULE_JSON: &str = r#"{
  "modules": {
    "my_module": {
      "doc": "/// My own module.",
      "functions": [
        {
          "access": "public",
          "baseHash": 1,
          "fullHash": 2,
          "name": "add",
          "namespace": "global",
          "numParams": 2,
          "params": [{"name": "a", "type": "i64"}, {"name": "b", "type": "i64"}],
          "returnType": "i64",
          "signature": "add(a: i64, b: i64) -> i64",
          "docComments": ["/// A function that adds two integers together.\n///\n/// # rhai-autodocs:index:2"]
        },
        {
          "access": "public",
          "baseHash": 3,
          "fullHash": 4,
          "name": "hello_world",
          "namespace": "global",
          "numParams": 0,
          "signature": "hello_world()",
          "docComments": ["/// A function that prints to stdout.\n///\n/// # rhai-autodocs:index:1"]
        }
      ]
    }
  }
}"#;

#[test]
fn test_generate_from_json_by_index() {
    let docs = options()
        .include_standard_packages(false)
        .order_with(FunctionOrder::ByIndex)
        .generate_from_json(MY_MODULE_JSON)
        .expect("failed to generate documentation");

    assert_eq!(docs.name, "global");
    assert_eq!(docs.documentation, "# global\n\n");

    let my_module = &docs.sub_modules[0];
    assert_eq!(docs.sub_modules.len(), 1);
    assert_eq!(my_module.name, "global::my_module");
    assert_eq!(my_module.documentation, MY_MODULE_EXPECTED);
}

#[test]
fn test_missing_parameter_renders_placeholder() {
    let names = host_builtin_types();
    let f = FunctionMetadata {
        access: String::from("public"),
        base_hash: 1,
        full_hash: 2,
        name: String::from("partial"),
        namespace: String::from("global"),
        num_params: 2,
        params: Some(vec![rhai_autodocs::ParamInfo {
            name: Some(String::from("a")),
            ty: Some(String::from("i64")),
        }]),
        signature: String::from("partial(..)"),
        return_type: None,
        doc_comments: None,
    };
    assert_eq!("fn partial(a: int, _: ?)", generate_function_definition(&f, &names));
}

#[test]
fn test_accessor_prefixes_render_get_set() {
    let names = host_builtin_types();
    let mut f = FunctionMetadata {
        access: String::from("public"),
        base_hash: 1,
        full_hash: 2,
        name: String::from("get$field"),
        namespace: String::from("global"),
        num_params: 0,
        params: None,
        signature: String::from("get$field()"),
        return_type: Some(String::from("i64")),
        doc_comments: None,
    };
    assert_eq!("fn get field() -> int", generate_function_definition(&f, &names));
    f.name = String::from("set$field");
    assert_eq!("fn set field() -> int", generate_function_definition(&f, &names));
    f.name = String::from("==");
    assert_eq!("op ==() -> int", generate_function_definition(&f, &names));
}

#[test]
fn test_anonymous_functions_never_rendered() {
    let json = r#"{
      "functions": [
        {"access": "public", "baseHash": 1, "fullHash": 2, "name": "anon$_closure_1",
         "namespace": "global", "numParams": 0, "signature": "anon$_closure_1()",
         "docComments": ["/// # rhai-autodocs:index:1"]},
        {"access": "public", "baseHash": 3, "fullHash": 4, "name": "shown",
         "namespace": "global", "numParams": 0, "signature": "shown()",
         "docComments": ["/// # rhai-autodocs:index:2"]}
      ]
    }"#;
    for order in [FunctionOrder::Alphabetical, FunctionOrder::ByIndex] {
        let docs = options()
            .order_with(order)
            .generate_from_json(json)
            .expect("both orderings succeed: the anonymous group still claims its slot");
        assert!(!docs.documentation.contains("anon$"));
        assert!(docs.documentation.contains("shown"));
    }
}

#[test]
fn test_decode_failure_reports_metadata_error() {
    let err = options()
        .generate_from_json("[1, 2, 3]")
        .expect_err("the root must be an object");
    assert!(matches!(err, Error::Metadata(_)));
    let err = options()
        .generate_from_json("{ not json")
        .expect_err("the text does not parse");
    assert!(matches!(err, Error::Metadata(_)));
    let err = options()
        .generate_from_json(r#"{"functions": [{"name": "f"}]}"#)
        .expect_err("required function fields are missing");
    assert!(matches!(err, Error::Metadata(_)));
}

#[test]
fn test_error_messages() {
    let pre = Error::PreProcessing(String::from("boom"));
    assert_eq!("ERROR: pre-processing error: boom", pre.message());
    let meta = Error::Metadata(String::from("bad json"));
    assert_eq!(
        "ERROR: failed to parse function or module metadata: bad json",
        meta.message()
    );
}

#[test]
fn test_options_builder() {
    let o = options();
    assert!(matches!(o.order, FunctionOrder::Alphabetical));
    assert!(!o.include_standard_packages);
    let o = o.include_standard_packages(true).order_with(FunctionOrder::ByIndex);
    assert!(matches!(o.order, FunctionOrder::ByIndex));
    assert!(o.include_standard_packages);
}

#[test]
fn test_nested_modules_follow_map_enumeration_order() {
    let json = r#"{
      "modules": {
        "zeta": {},
        "alpha": {"modules": {"inner": {"doc": "/// Deep down."}}}
      }
    }"#;
    let docs = options()
        .generate_from_json(json)
        .expect("an empty module tree always builds");
    assert_eq!(docs.sub_modules.len(), 2);
    assert_eq!(docs.sub_modules[0].name, "global::alpha");
    assert_eq!(docs.sub_modules[1].name, "global::zeta");
    let inner = &docs.sub_modules[0].sub_modules[0];
    assert_eq!(inner.name, "global::alpha::inner");
    assert_eq!(inner.documentation, "# global::alpha::inner\n\nDeep down.\n\n");
    assert_eq!(docs.sub_modules[1].documentation, "# global::zeta\n\n");
}

#[test]
fn test_overloads_share_one_block() {
    let json = r#"{
      "functions": [
        {"access": "public", "baseHash": 1, "fullHash": 2, "name": "poly",
         "namespace": "global", "numParams": 1,
         "params": [{"name": "a", "type": "i64"}],
         "signature": "poly(a: i64)",
         "docComments": ["/// First overload doc."]},
        {"access": "public", "baseHash": 3, "fullHash": 4, "name": "poly",
         "namespace": "global", "numParams": 2,
         "params": [{"name": "a", "type": "i64"}, {"name": "b", "type": "i64"}],
         "signature": "poly(a: i64, b: i64)",
         "docComments": ["/// Second overload doc, dropped."]}
      ]
    }"#;
    let docs = options()
        .generate_from_json(json)
        .expect("alphabetical ordering cannot fail");
    assert!(docs.documentation.contains("fn poly(a: int)\nfn poly(a: int, b: int)"));
    assert!(docs.documentation.contains("First overload doc."));
    assert!(!docs.documentation.contains("Second overload doc"));
}
