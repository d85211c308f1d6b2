use tinylex::diag::LexErrorKind;
use tinylex::lexer::Lexer;
use tinylex::token::TokenKind;

#[test]
fn test_lexer_symbols() {
    let mut lexer = Lexer::new(
        "5192 * 17.9 % + - / ** (  ) ! != = . < > <= >= \"this is a string\"".to_string(),
    );
    let tokens = lexer.lex();
    assert_eq!(tokens[0].kind, TokenKind::INTEGER(5192));
    assert_eq!(tokens[1].kind, TokenKind::ASTERISK);
    assert_eq!(
        tokens[2].kind,
        TokenKind::FLOAT { int_part: 17, frac_part: 9, frac_digits: 1 }
    );
    assert_eq!(tokens[3].kind, TokenKind::MOD);
    assert_eq!(tokens[4].kind, TokenKind::PLUS);
    assert_eq!(tokens[5].kind, TokenKind::MINUS);
    assert_eq!(tokens[6].kind, TokenKind::SLASH);
    assert_eq!(tokens[7].kind, TokenKind::EXPONENT);
    assert_eq!(tokens[8].kind, TokenKind::OPENPAREN);
    assert_eq!(tokens[9].kind, TokenKind::CLOSEPAREN);
    assert_eq!(tokens[10].kind, TokenKind::BANG);
    assert_eq!(tokens[11].kind, TokenKind::BANGEQUAL);
    assert_eq!(tokens[12].kind, TokenKind::EQUAL);
    assert_eq!(tokens[13].kind, TokenKind::DOT);
    assert_eq!(tokens[14].kind, TokenKind::LESSTHAN);
    assert_eq!(tokens[15].kind, TokenKind::GREATERTHAN);
    assert_eq!(tokens[16].kind, TokenKind::LESSTHANEQUAL);
    assert_eq!(tokens[17].kind, TokenKind::GREATERTHANEQUAL);
    assert_eq!(
        tokens[18].kind,
        TokenKind::STRING("this is a string".to_string())
    );
}

#[test]
fn test_lexer_skip_whitespace() {
    let mut lexer = Lexer::new(" \n\t".to_string());
    let tokens = lexer.lex();
    assert_eq!(tokens.len(), 0);
}

#[test]
fn test_lexer_skip_unknown() {
    let mut lexer = Lexer::new("unknown".to_string());
    let tokens = lexer.lex();
    assert_eq!(tokens.len(), 2);
    assert_eq!(tokens[0].kind, TokenKind::IDENTIFIER("unknown".to_string()));
    assert_eq!(tokens[1].kind, TokenKind::EOF);
}

#[test]
fn test_lexer_string() {
    let mut lexer = Lexer::new("\"this is the first string\" \"second string hmmmmm\"".to_string());
    let tokens = lexer.lex();
    assert_eq!(
        tokens[0].kind,
        TokenKind::STRING("this is the first string".to_string())
    );
    assert_eq!(
        tokens[1].kind,
        TokenKind::STRING("second string hmmmmm".to_string())
    );
}

#[test]
fn integer_alone() {
    let mut lexer = Lexer::new("123".to_string());
    let tokens = lexer.lex();
    assert_eq!(tokens.len(), 2);
    assert_eq!(tokens[0].kind, TokenKind::INTEGER(123));
    assert_eq!(tokens[0].literal, "123");
    assert_eq!(tokens[1].kind, TokenKind::EOF);
}

#[test]
fn integer_then_trailing_dot() {
    let mut lexer = Lexer::new("123.".to_string());
    let tokens = lexer.lex();
    assert_eq!(tokens.len(), 3);
    assert_eq!(tokens[0].kind, TokenKind::INTEGER(123));
    assert_eq!(tokens[1].kind, TokenKind::DOT);
    assert_eq!(tokens[2].kind, TokenKind::EOF);
}

#[test]
fn float_with_fraction() {
    let mut lexer = Lexer::new("123.45".to_string());
    let tokens = lexer.lex();
    assert_eq!(tokens.len(), 2);
    assert_eq!(
        tokens[0].kind,
        TokenKind::FLOAT { int_part: 123, frac_part: 45, frac_digits: 2 }
    );
    assert_eq!(tokens[0].literal, "123.45");
}

#[test]
fn float_keeps_leading_fraction_zeros() {
    let mut lexer = Lexer::new("17.09".to_string());
    let tokens = lexer.lex();
    assert_eq!(
        tokens[0].kind,
        TokenKind::FLOAT { int_part: 17, frac_part: 9, frac_digits: 2 }
    );
}

#[test]
fn compound_operators_are_greedy() {
    let cases: Vec<(&str, TokenKind)> = vec![
        ("!=", TokenKind::BANGEQUAL),
        ("!", TokenKind::BANG),
        ("<=", TokenKind::LESSTHANEQUAL),
        ("<", TokenKind::LESSTHAN),
        (">=", TokenKind::GREATERTHANEQUAL),
        (">", TokenKind::GREATERTHAN),
        ("**", TokenKind::EXPONENT),
        ("*", TokenKind::ASTERISK),
    ];
    for (src, expected) in cases {
        let mut lexer = Lexer::new(src.to_string());
        let tokens = lexer.lex();
        assert_eq!(tokens.len(), 2, "one token plus end of input for {}", src);
        assert_eq!(tokens[0].kind, expected, "for {}", src);
        assert_eq!(tokens[0].literal, src);
        assert_eq!(tokens[1].kind, TokenKind::EOF);
    }
}

#[test]
fn keyword_is_reclassified() {
    let mut lexer = Lexer::new("for".to_string());
    let tokens = lexer.lex();
    assert_eq!(tokens.len(), 2);
    assert_eq!(tokens[0].kind, TokenKind::FOR);
    assert_eq!(tokens[0].literal, "for");
}

#[test]
fn keyword_prefix_stays_identifier() {
    let mut lexer = Lexer::new("foreach".to_string());
    let tokens = lexer.lex();
    assert_eq!(tokens.len(), 2);
    assert_eq!(tokens[0].kind, TokenKind::IDENTIFIER("foreach".to_string()));
}

#[test]
fn comment_contributes_no_tokens() {
    let mut lexer = Lexer::new("1 // ignored\n2".to_string());
    let tokens = lexer.lex();
    assert_eq!(tokens.len(), 3);
    assert_eq!(tokens[0].kind, TokenKind::INTEGER(1));
    assert_eq!(tokens[0].line, 0);
    assert_eq!(tokens[1].kind, TokenKind::INTEGER(2));
    assert_eq!(tokens[1].line, 1);
    assert_eq!(tokens[1].pos, 13);
    assert_eq!(tokens[2].kind, TokenKind::EOF);
}

#[test]
fn unterminated_string_aborts_with_diagnostic() {
    let mut lexer = Lexer::new("\"abc".to_string());
    let tokens = lexer.lex();
    assert_eq!(tokens.len(), 0);
    let diag = lexer.diagnostic().clone().expect("a diagnostic must be recorded");
    assert_eq!(diag.kind, LexErrorKind::UnterminatedString);
    assert_eq!(diag.pos, 4);
    assert_eq!(diag.line, 0);
    assert_eq!(diag.lexeme, "abc");
}

#[test]
fn empty_input_gives_empty_sequence() {
    let mut lexer = Lexer::new(String::new());
    let tokens = lexer.lex();
    assert_eq!(tokens.len(), 0);
    assert!(lexer.diagnostic().is_none());
}

#[test]
fn final_token_is_end_of_input() {
    let mut lexer = Lexer::new("var answer = 42;".to_string());
    let tokens = lexer.lex();
    assert!(tokens.len() > 1);
    assert_eq!(tokens.last().unwrap().kind, TokenKind::EOF);
    for t in &tokens[..tokens.len() - 1] {
        assert_ne!(t.kind, TokenKind::EOF);
    }
}

#[test]
fn unexpected_character_aborts_with_diagnostic() {
    let mut lexer = Lexer::new("1 ~ 2".to_string());
    let tokens = lexer.lex();
    assert_eq!(tokens.len(), 0);
    let diag = lexer.diagnostic().clone().expect("a diagnostic must be recorded");
    assert_eq!(diag.kind, LexErrorKind::UnexpectedCharacter('~'));
    assert_eq!(diag.pos, 2);
    assert_eq!(diag.lexeme, "");
}

#[test]
fn identifier_does_not_swallow_following_operator() {
    let mut lexer = Lexer::new("a + b".to_string());
    let tokens = lexer.lex();
    assert_eq!(tokens.len(), 4);
    assert_eq!(tokens[0].kind, TokenKind::IDENTIFIER("a".to_string()));
    assert_eq!(tokens[0].pos, 0);
    assert_eq!(tokens[1].kind, TokenKind::PLUS);
    assert_eq!(tokens[1].pos, 2);
    assert_eq!(tokens[2].kind, TokenKind::IDENTIFIER("b".to_string()));
    assert_eq!(tokens[2].pos, 4);
    assert_eq!(tokens[3].kind, TokenKind::EOF);
    assert_eq!(tokens[3].pos, 5);
}

#[test]
fn string_lexeme_keeps_its_quotes() {
    let mut lexer = Lexer::new("\"hi\"".to_string());
    let tokens = lexer.lex();
    assert_eq!(tokens[0].kind, TokenKind::STRING("hi".to_string()));
    assert_eq!(tokens[0].literal, "\"hi\"");
    assert_eq!(tokens[0].pos, 0);
}

#[test]
fn literal_lexemes_relex_to_the_same_value() {
    let mut lexer = Lexer::new("count 17.9 512 \"text\"".to_string());
    let tokens = lexer.lex();
    for t in &tokens {
        match &t.kind {
            TokenKind::INTEGER(_)
            | TokenKind::FLOAT { .. }
            | TokenKind::STRING(_)
            | TokenKind::IDENTIFIER(_) => {
                let mut again = Lexer::new(t.literal.clone());
                let re = again.lex();
                assert_eq!(re.len(), 2, "one token plus end of input for {}", t.literal);
                assert_eq!(re[0].kind, t.kind, "for {}", t.literal);
            }
            _ => {}
        }
    }
}

#[test]
fn digits_operators_whitespace_always_classify() {
    let mut lexer = Lexer::new("12 + 34 * (5 % 6) <= 7.8\n9".to_string());
    let tokens = lexer.lex();
    assert!(lexer.diagnostic().is_none());
    assert_eq!(tokens.len(), 13);
    assert_eq!(tokens[12].kind, TokenKind::EOF);
}

#[test]
fn unicode_identifier_is_accepted() {
    let mut lexer = Lexer::new("caf\u{e9} = 1".to_string());
    let tokens = lexer.lex();
    assert_eq!(tokens.len(), 4);
    assert_eq!(tokens[0].kind, TokenKind::IDENTIFIER("caf\u{e9}".to_string()));
    assert_eq!(tokens[1].kind, TokenKind::EQUAL);
    assert_eq!(tokens[2].kind, TokenKind::INTEGER(1));
}

#[test]
fn digit_runs_fit_checks_integer_range() {
    let small = Lexer::new("117 + 9000.5".to_string());
    assert!(small.digits_fit());
    let huge = Lexer::new("99999999999999999999999999999".to_string());
    assert!(!huge.digits_fit());
}

#[test]
fn nul_acts_as_end_of_input() {
    let mut lexer = Lexer::new("12\u{0}34".to_string());
    let tokens = lexer.lex();
    assert_eq!(tokens.len(), 2);
    assert_eq!(tokens[0].kind, TokenKind::INTEGER(12));
    assert_eq!(tokens[1].kind, TokenKind::EOF);
    assert_eq!(tokens[1].pos, 2);
}
