use rhai_autodocs::FunctionOrder;

#[test]
fn test_order_by_index() {
    let mut engine = rhai::Engine::new();

    let mut module = rhai::Module::new();
    module.set_doc("/// My own module.");
    rhai::FuncRegistration::new("hello_world")
        .in_global_namespace()
        .with_comments(["/// A function that prints to stdout.\n///\n/// # rhai-autodocs:index:1"])
        .set_into_module(&mut module, || println!("Hello, World!"));
    rhai::FuncRegistration::new("add")
        .in_global_namespace()
        .with_params_info(["a: i64", "b: i64", "i64"])
        .with_comments(
            ["/// A function that adds two integers together.\n///\n/// # rhai-autodocs:index:2"],
        )
        .set_into_module(&mut module, |a: i64, b: i64| a + b);
    engine.register_static_module("my_module", module.into());

    let docs = rhai_autodocs::options()
        .include_standard_packages(false)
        .order_with(FunctionOrder::ByIndex)
        .generate(&engine)
        .expect("failed to generate documentation");

    assert_eq!(docs.name, "global");
    assert_eq!(docs.documentation, "# global\n\n");

    let my_module = &docs.sub_modules[0];

    assert_eq!(my_module.name, "global::my_module");
    assert_eq!(
        my_module.documentation,
        r#"# global::my_module

My own module.


<div markdown="span" style='box-shadow: 0 4px 8px 0 rgba(0,0,0,0.2); padding: 15px; border-radius: 5px;'>

<h2 class="func-name"> <code>fn</code> hello_world </h2>

```rust,ignore
fn hello_world()
```

<details>
<summary markdown="span"> details </summary>

A function that prints to stdout.
</details>

</div>
</br>

<div markdown="span" style='box-shadow: 0 4px 8px 0 rgba(0,0,0,0.2); padding: 15px; border-radius: 5px;'>

<h2 class="func-name"> <code>fn</code> add </h2>

```rust,ignore
fn add(a: int, b: int) -> int
```

<details>
<summary markdown="span"> details </summary>

A function that adds two integers together.
</details>

</div>
</br>
"#
    );
}
