use arpc::bindings::Bindings;
use arpc::engine::execute;
use arpc::errors::Error;

#[test]
fn displayed_messages_carry_kind_prefixes() {
    let cases = vec![
        (
            Error::IoErr("broken pipe".to_string()),
            "An error occured: io error: broken pipe",
        ),
        (
            Error::MathErr("invalid float literal".to_string()),
            "An error occured: math error: invalid float literal",
        ),
        (
            Error::StackErr("2 stack items required where only 0 exist!".to_string()),
            "An error occured: stack error: 2 stack items required where only 0 exist!",
        ),
        (
            Error::EnvErr("binding 'x' does not exist".to_string()),
            "An error occured: env error: binding 'x' does not exist",
        ),
        (
            Error::ParseErr("unexpected char: '#'".to_string()),
            "An error occured: parse error: unexpected char: '#'",
        ),
    ];
    for (err, text) in cases {
        assert_eq!(err.message(), text);
    }
}

#[test]
fn failing_line_message_reads_as_displayed() {
    let bindings = Bindings::new();
    let fail = execute("+\n", 0, &bindings).unwrap_err();
    assert_eq!(
        fail.error.message(),
        "An error occured: stack error: 2 stack items required where only 0 exist!"
    );
    assert!(fail.effects.is_empty());
}

#[test]
fn empty_bindings_contain_nothing() {
    let bindings = Bindings::new();
    assert!(!bindings.contains(&"x".to_string()));
    assert!(!bindings.contains(&String::new()));
}
