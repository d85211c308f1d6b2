use tinylex::scanner::{scan, POSSIBLETOKENVALUE, TOKENS};

#[test]
fn test_scan_integers_separated_by_plus() {
    let inp = "1 + 2 + 3";
    let res = scan(inp);
    assert_eq!(res[0].ttype, TOKENS::INTEGER);
    assert_eq!(res[1].ttype, TOKENS::PLUS);
    assert_eq!(res[2].ttype, TOKENS::INTEGER);
    assert_eq!(res[3].ttype, TOKENS::PLUS);
    assert_eq!(res[4].ttype, TOKENS::INTEGER);
}

#[test]
fn test_scan_integers_separated_by_minus() {
    let inp = "1 - 2 - 3";
    let res = scan(inp);
    assert_eq!(res[0].ttype, TOKENS::INTEGER);
    assert_eq!(res[1].ttype, TOKENS::MINUS);
    assert_eq!(res[2].ttype, TOKENS::INTEGER);
    assert_eq!(res[3].ttype, TOKENS::MINUS);
    assert_eq!(res[4].ttype, TOKENS::INTEGER);
}

#[test]
fn test_scan_integers_separated_by_asterik() {
    let inp = "1 * 2 * 3";
    let res = scan(inp);
    assert_eq!(res[0].ttype, TOKENS::INTEGER);
    assert_eq!(res[1].ttype, TOKENS::ASTERISK);
    assert_eq!(res[2].ttype, TOKENS::INTEGER);
    assert_eq!(res[3].ttype, TOKENS::ASTERISK);
    assert_eq!(res[4].ttype, TOKENS::INTEGER);
}

#[test]
fn test_scan_integers_separated_by_slashes() {
    let inp = "1 / 2 / 3";
    let res = scan(inp);
    assert_eq!(res[0].ttype, TOKENS::INTEGER);
    assert_eq!(res[1].ttype, TOKENS::SLASH);
    assert_eq!(res[2].ttype, TOKENS::INTEGER);
    assert_eq!(res[3].ttype, TOKENS::SLASH);
    assert_eq!(res[4].ttype, TOKENS::INTEGER);
}

#[test]
fn test_scan_integers_separated_by_modulo() {
    let inp = "1 % 2 % 3";
    let res = scan(inp);
    assert_eq!(res[0].ttype, TOKENS::INTEGER);
    assert_eq!(res[1].ttype, TOKENS::MODULO);
    assert_eq!(res[2].ttype, TOKENS::INTEGER);
    assert_eq!(res[3].ttype, TOKENS::MODULO);
    assert_eq!(res[4].ttype, TOKENS::INTEGER);
}

#[test]
fn test_unknown_token() {
    let inp = "\u{fc}";
    assert_eq!(scan(inp)[0].ttype, TOKENS::UNKNOWN);
}

#[test]
fn test_unknown_token_between_valid_token() {
    let inp = "1 \u{fc} 2 % 3";
    assert_eq!(scan(inp)[0].ttype, TOKENS::UNKNOWN);
}

#[test]
fn scan_integer_values_and_positions() {
    let res = scan("1 + 2");
    assert_eq!(res.len(), 3);
    assert_eq!(res[0].tvalue, POSSIBLETOKENVALUE::INTEGER(1));
    assert_eq!(res[0].tstart_index, 0);
    assert_eq!(res[0].tparsed_from, "1");
    assert_eq!(res[1].tvalue, POSSIBLETOKENVALUE::NONE);
    assert_eq!(res[2].tvalue, POSSIBLETOKENVALUE::INTEGER(2));
    assert_eq!(res[2].tstart_index, 4);
}

#[test]
fn scan_unknown_discards_earlier_tokens() {
    let res = scan("1 \u{fc} 2 % 3");
    assert_eq!(res.len(), 1);
    assert_eq!(res[0].ttype, TOKENS::UNKNOWN);
    assert_eq!(res[0].tstart_index, 2);
    assert_eq!(res[0].tparsed_from, "\u{fc}");
}

#[test]
fn scan_exit_command() {
    let res = scan(".exit");
    assert_eq!(res.len(), 5);
    for t in &res {
        assert_eq!(t.ttype, TOKENS::EXIT);
    }
}

#[test]
fn scan_debug_command() {
    let res = scan(".debug");
    for t in &res {
        assert_eq!(t.ttype, TOKENS::DEBUGCMD);
    }
}

#[test]
fn scan_unknown_command() {
    let res = scan(".quit");
    for t in &res {
        assert_eq!(t.ttype, TOKENS::UNKNOWNCMD);
    }
}
