use tinylex::logger::Logger;

fn sample() -> Logger {
    Logger { loglevel: 1, prefix: "ti".to_string() }
}

#[test]
fn format_plain_message() {
    assert_eq!(sample().format("", "hello"), "ti: hello");
}

#[test]
fn format_warn_is_yellow() {
    assert_eq!(
        sample().format("warn", "careful"),
        "ti: \u{1b}[93mwarn\u{1b}[0m: careful"
    );
}

#[test]
fn format_debug_is_blue() {
    assert_eq!(
        sample().format("debug", "chatter"),
        "ti: \u{1b}[96mdebug\u{1b}[0m: chatter"
    );
}

#[test]
fn format_error_classes_are_red() {
    assert_eq!(
        sample().format("syntax error", "boom"),
        "ti: \u{1b}[91msyntax error\u{1b}[0m: boom"
    );
    assert_eq!(
        sample().format("fatal error", "boom"),
        "ti: \u{1b}[91mfatal error\u{1b}[0m: boom"
    );
}

#[test]
fn format_unknown_class_is_uncolored() {
    assert_eq!(
        sample().format("note", "plain"),
        "ti: \u{1b}[0mnote\u{1b}[0m: plain"
    );
}
