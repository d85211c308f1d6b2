use tinylex::diag::{Diagnostic, LexErrorKind};
use tinylex::lexer::Lexer;

#[test]
fn message_of_unterminated_string() {
    let d = Diagnostic {
        kind: LexErrorKind::UnterminatedString,
        pos: 4,
        line: 0,
        lexeme: "abc".to_string(),
    };
    assert_eq!(d.message(), "unterminated string");
    assert_eq!(d.description(), "string literals must be terminated with '\"'");
}

#[test]
fn message_of_unexpected_character() {
    let d = Diagnostic {
        kind: LexErrorKind::UnexpectedCharacter('~'),
        pos: 2,
        line: 0,
        lexeme: String::new(),
    };
    assert_eq!(d.message(), "unexpected character '~'");
    assert_eq!(
        d.description(),
        "expected a valid character, such as a number, operator, or parenthesis"
    );
}

#[test]
fn header_line_carries_position_and_source() {
    let d = Diagnostic {
        kind: LexErrorKind::UnterminatedString,
        pos: 4,
        line: 0,
        lexeme: "abc".to_string(),
    };
    assert_eq!(
        d.header_line("\"abc"),
        "unterminated string at pos '4' of '\"abc' on line 0:\n"
    );
}

#[test]
fn render_places_one_caret_per_lexeme_character() {
    let source = "\"abc";
    let mut lexer = Lexer::new(source.to_string());
    let tokens = lexer.lex();
    assert!(tokens.is_empty());
    let d = lexer.diagnostic().clone().expect("a diagnostic must be recorded");
    let expected = "\u{1b}[96m00 |\u{1b}[0m \"abc\n\u{1b}[91m       ^^^ unterminated string\u{1b}[0m\n\nstring literals must be terminated with '\"'\n";
    assert_eq!(d.render(source), expected);
}

#[test]
fn render_uses_single_caret_for_empty_lexeme() {
    let source = "1 ~ 2";
    let mut lexer = Lexer::new(source.to_string());
    let tokens = lexer.lex();
    assert!(tokens.is_empty());
    let d = lexer.diagnostic().clone().expect("a diagnostic must be recorded");
    let expected = "\u{1b}[96m00 |\u{1b}[0m 1 ~ 2\n\u{1b}[91m       ^ unexpected character '~'\u{1b}[0m\n\nexpected a valid character, such as a number, operator, or parenthesis\n";
    assert_eq!(d.render(source), expected);
}

#[test]
fn render_pads_double_digit_lines_without_zero() {
    let d = Diagnostic {
        kind: LexErrorKind::UnexpectedCharacter('~'),
        pos: 0,
        line: 12,
        lexeme: String::new(),
    };
    let rendered = d.render("~");
    assert!(rendered.starts_with("\u{1b}[96m12 |"));
}
