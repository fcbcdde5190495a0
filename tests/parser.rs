use tiny_shell::parse;

#[test]
fn tokenization() {
    assert_eq!(parse("echo"), Some(vec!["echo".to_string()]));
    assert_eq!(
        parse("echo a b"),
        Some(vec!["echo".to_string(), "a".to_string(), "b".to_string()])
    );
    assert_eq!(parse("echo \"a b\""), Some(vec!["echo".to_string(), "a b".to_string()]));
    assert_eq!(
        parse("echo \"a b\" \"c\""),
        Some(vec!["echo".to_string(), "a b".to_string(), "c".to_string()])
    );
    assert_eq!(
        parse("echo \"a \\\" b\" \\\"x\\\""),
        Some(vec!["echo".to_string(), "a \" b".to_string(), "\"x\"".to_string()])
    );
    assert_eq!(parse("echo a\\ b"), Some(vec!["echo".to_string(), "a b".to_string()]));
    assert_eq!(
        parse("NAME=\"<Your name>\" echo Hello $NAME"),
        Some(vec![
            "NAME=<Your name>".to_string(),
            "echo".to_string(),
            "Hello".to_string(),
            "$NAME".to_string()
        ])
    );
}

#[test]
fn unbalanced_quote_is_rejected() {
    assert_eq!(parse("echo \"a b"), None);
}

#[test]
fn empty_line_has_no_words() {
    assert_eq!(parse(""), Some(vec![]));
}
