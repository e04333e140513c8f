use rhai_autodocs::{fmt_doc_comments, remove_extra_tokens, remove_test_code};

#[test]
fn test_fmt_doc_comments_strips_delimiters() {
    assert_eq!("hello", fmt_doc_comments(String::from("/// hello")));
    assert_eq!("hello", fmt_doc_comments(String::from("///hello")));
    assert_eq!("hello", fmt_doc_comments(String::from("/**hello**/")));
    assert_eq!(
        "line one\nline two",
        fmt_doc_comments(String::from("/// line one\n/// line two"))
    );
}

#[test]
fn test_fmt_doc_comments_clean_prose_unchanged() {
    let clean = "Some prose.\n\nWith a list:\n- one\n- two";
    assert_eq!(clean, fmt_doc_comments(String::from(clean)));
    assert_eq!(clean, remove_test_code(clean));
}

#[test]
fn test_remove_test_code_filters_hidden_lines() {
    let input = "```\n# setup();\n#{a: 1}\nlet x = 1;\n```\n# outside stays";
    let expected = "```\n#{a: 1}\nlet x = 1;\n```\n# outside stays";
    assert_eq!(expected, remove_test_code(input));
}

#[test]
fn test_remove_test_code_outside_fence_keeps_hash_lines() {
    let input = "# a heading\ntext";
    assert_eq!(input, remove_test_code(input));
}

#[test]
fn test_remove_test_code_fence_toggles() {
    let input = "```\n# dropped\n```\n# kept\n```\n# dropped again\n```";
    let expected = "```\n```\n# kept\n```\n```";
    assert_eq!(expected, remove_test_code(input));
}

#[test]
fn test_carriage_returns_only_stripped_before_newlines() {
    assert_eq!("foo\nbar\r", remove_test_code("foo\r\nbar\r"));
    assert_eq!("foo\nbar", remove_test_code("foo\r\nbar\r\n"));
}

#[test]
fn test_remove_extra_tokens_drops_directive_lines() {
    let fragments = vec![
        String::from("/// A function."),
        String::from("/// # rhai-autodocs:index:1"),
        String::from("/// More prose."),
    ];
    assert_eq!("/// A function.\n\n/// More prose.", remove_extra_tokens(fragments));
}

#[test]
fn test_remove_extra_tokens_filters_within_fragment() {
    let fragments = vec![String::from(
        "/// A function.\n///\n/// # rhai-autodocs:index:1",
    )];
    assert_eq!("/// A function.///", remove_extra_tokens(fragments));
}
