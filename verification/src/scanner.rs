//! The one-pass arithmetic scanner: classifies an input line character by
//! character into command, operator and single-digit integer tokens,
//! stopping at the first unknown character.
//!
//! An input that starts with a dot is a REPL command: every character of it
//! is tagged with the command's classification, which depends on the whole
//! line.

use vstd::prelude::*;
use vstd::string::StrSliceExecFns;

use crate::text::{digit_val, is_digit, is_digit_char, push_char, str_eq};

verus! {

/// The token classes this scanner distinguishes.
#[derive(Debug, Clone, Copy, PartialEq, Eq)]
#[allow(non_camel_case_types)]
pub enum TOKENS {
    UNKNOWN,
    EXIT,
    DEBUGCMD,
    UNKNOWNCMD,
    PLUS,
    MINUS,
    SLASH,
    ASTERISK,
    MODULO,
    INTEGER,
}

/// The value a token can carry: nothing, or one integer.
#[derive(Debug, Clone, Copy, PartialEq, Eq)]
#[allow(non_camel_case_types)]
pub enum POSSIBLETOKENVALUE {
    NONE,
    INTEGER(i32),
}

/// One classified character of the input line.
#[derive(Debug, Clone, PartialEq, Eq)]
pub struct Token {
    pub tstart_index: usize,
    pub tparsed_from: String,
    pub tvalue: POSSIBLETOKENVALUE,
    pub ttype: TOKENS,
}

/// The model of a scanned token.
pub struct SpecScanToken {
    pub tstart_index: nat,
    pub tparsed_from: Seq<char>,
    pub tvalue: POSSIBLETOKENVALUE,
    pub ttype: TOKENS,
}

impl DeepView for Token {
    type V = SpecScanToken;

    open spec fn deep_view(&self) -> SpecScanToken {
        SpecScanToken {
            tstart_index: self.tstart_index as nat,
            tparsed_from: self.tparsed_from@,
            tvalue: self.tvalue,
            ttype: self.ttype,
        }
    }
}

/// The classification a command line receives as a whole.
pub open spec fn spec_command_type(s: Seq<char>) -> TOKENS {
    if s == ".exit"@ {
        TOKENS::EXIT
    } else if s == ".debug"@ {
        TOKENS::DEBUGCMD
    } else {
        TOKENS::UNKNOWNCMD
    }
}

/// The classification of one operator character, if it is one.
pub open spec fn spec_operator(c: char) -> Option<TOKENS> {
    if c == '+' {
        Some(TOKENS::PLUS)
    } else if c == '-' {
        Some(TOKENS::MINUS)
    } else if c == '/' {
        Some(TOKENS::SLASH)
    } else if c == '*' {
        Some(TOKENS::ASTERISK)
    } else if c == '%' {
        Some(TOKENS::MODULO)
    } else {
        None
    }
}

/// The token one character of the input produces.
pub open spec fn spec_scan_token(
    i: int,
    c: char,
    tvalue: POSSIBLETOKENVALUE,
    ttype: TOKENS,
) -> SpecScanToken {
    SpecScanToken { tstart_index: i as nat, tparsed_from: seq![c], tvalue, ttype }
}

/// How scanning the rest of the line ends: with the tokens it produces, or
/// stopped by an unknown character, whose lone token replaces everything
/// collected so far.
pub enum SpecScanOutcome {
    Continue(Seq<SpecScanToken>),
    Stopped(SpecScanToken),
}

/// Prepends one token to a scan outcome; a stop discards it.
pub open spec fn scan_cons(t: SpecScanToken, rest: SpecScanOutcome) -> SpecScanOutcome {
    match rest {
        SpecScanOutcome::Continue(ts) => SpecScanOutcome::Continue(seq![t] + ts),
        SpecScanOutcome::Stopped(u) => SpecScanOutcome::Stopped(u),
    }
}

/// Prepends already-produced tokens to a scan outcome; a stop discards
/// them.
pub open spec fn scan_combine(acc: Seq<SpecScanToken>, rest: SpecScanOutcome) -> SpecScanOutcome {
    match rest {
        SpecScanOutcome::Continue(ts) => SpecScanOutcome::Continue(acc + ts),
        SpecScanOutcome::Stopped(u) => SpecScanOutcome::Stopped(u),
    }
}

/// The scanner model from character `i` on: commands tag every character,
/// whitespace is skipped, operators and digits each give one token, and the
/// first unknown character stops the scan.
pub open spec fn spec_scan_from(s: Seq<char>, i: int) -> SpecScanOutcome
    decreases s.len() - i,
{
    if i < 0 || i >= s.len() {
        SpecScanOutcome::Continue(Seq::empty())
    } else {
        let c = s[i];
        if s.len() > 0 && s[0] == '.' {
            scan_cons(
                spec_scan_token(i, c, POSSIBLETOKENVALUE::NONE, spec_command_type(s)),
                spec_scan_from(s, i + 1),
            )
        } else if c == '\n' || c == '\r' || c == '\t' || c == ' ' {
            spec_scan_from(s, i + 1)
        } else {
            match spec_operator(c) {
                Some(op) => scan_cons(
                    spec_scan_token(i, c, POSSIBLETOKENVALUE::NONE, op),
                    spec_scan_from(s, i + 1),
                ),
                None => if is_digit_char(c) {
                    scan_cons(
                        spec_scan_token(
                            i,
                            c,
                            POSSIBLETOKENVALUE::INTEGER(digit_val(c) as i32),
                            TOKENS::INTEGER,
                        ),
                        spec_scan_from(s, i + 1),
                    )
                } else {
                    SpecScanOutcome::Stopped(
                        spec_scan_token(i, c, POSSIBLETOKENVALUE::NONE, TOKENS::UNKNOWN),
                    )
                },
            }
        }
    }
}

/// The model of a whole scan: the produced tokens, or the lone unknown
/// token when one stopped the scan.
pub open spec fn spec_scan(s: Seq<char>) -> Seq<SpecScanToken> {
    match spec_scan_from(s, 0) {
        SpecScanOutcome::Continue(ts) => ts,
        SpecScanOutcome::Stopped(t) => seq![t],
    }
}

/// Collecting tokens commutes with emitting one more.
proof fn lemma_scan_combine_push(acc: Seq<SpecScanToken>, t: SpecScanToken, rest: SpecScanOutcome)
    ensures
        scan_combine(acc, scan_cons(t, rest)) == scan_combine(acc.push(t), rest),
{
    match rest {
        SpecScanOutcome::Continue(ts) => {
            assert(acc + (seq![t] + ts) =~= acc.push(t) + ts);
        },
        SpecScanOutcome::Stopped(_) => {
        },
    }
}

/// Collecting no tokens changes nothing.
proof fn lemma_scan_combine_empty(rest: SpecScanOutcome)
    ensures
        scan_combine(Seq::empty(), rest) == rest,
{
    match rest {
        SpecScanOutcome::Continue(ts) => {
            assert(Seq::<SpecScanToken>::empty() + ts =~= ts);
        },
        SpecScanOutcome::Stopped(_) => {
        },
    }
}

/// One character as an owned string.
fn char_string(c: char) -> (s: String)
    ensures
        s@ == seq![c],
{
    let mut s = String::new();
    push_char(&mut s, c);
    proof {
        assert(s@ =~= seq![c]);
    }
    s
}

/// Scan one input line into command, operator and single-digit integer
/// tokens, stopping at (and reporting) the first unknown character.
pub fn scan(inp: &str) -> (r: Vec<Token>)
    ensures
        r.deep_view() == spec_scan(inp@),
{
    let ghost s = inp@;
    let n = inp.unicode_len();
    let mut r: Vec<Token> = Vec::new();
    let is_command = n > 0 && inp.get_char(0) == '.';
    let command_type = if str_eq(inp, ".exit") {
        TOKENS::EXIT
    } else if str_eq(inp, ".debug") {
        TOKENS::DEBUGCMD
    } else {
        TOKENS::UNKNOWNCMD
    };
    let mut i: usize = 0;
    proof {
        assert(r.deep_view() =~= Seq::<SpecScanToken>::empty());
        lemma_scan_combine_empty(spec_scan_from(s, 0));
    }
    while i < n
        invariant
            n == s.len(),
            i <= n,
            inp@ == s,
            is_command == (n > 0 && s.len() > 0 && s[0] == '.'),
            command_type == spec_command_type(s),
            spec_scan_from(s, 0) == scan_combine(r.deep_view(), spec_scan_from(s, i as int)),
        decreases n - i,
    {
        let c = inp.get_char(i);
        let ghost pre = r.deep_view();
        if is_command {
            let t = Token {
                tstart_index: i,
                tparsed_from: char_string(c),
                tvalue: POSSIBLETOKENVALUE::NONE,
                ttype: command_type,
            };
            r.push(t);
            proof {
                assert(r.deep_view() =~= pre.push(t.deep_view()));
                lemma_scan_combine_push(pre, t.deep_view(), spec_scan_from(s, i as int + 1));
            }
        } else if c == '\n' || c == '\r' || c == '\t' || c == ' ' {
        } else {
            let op = if c == '+' {
                Some(TOKENS::PLUS)
            } else if c == '-' {
                Some(TOKENS::MINUS)
            } else if c == '/' {
                Some(TOKENS::SLASH)
            } else if c == '*' {
                Some(TOKENS::ASTERISK)
            } else if c == '%' {
                Some(TOKENS::MODULO)
            } else {
                None
            };
            match op {
                Some(ttype) => {
                    let t = Token {
                        tstart_index: i,
                        tparsed_from: char_string(c),
                        tvalue: POSSIBLETOKENVALUE::NONE,
                        ttype,
                    };
                    r.push(t);
                    proof {
                        assert(r.deep_view() =~= pre.push(t.deep_view()));
                        lemma_scan_combine_push(
                            pre,
                            t.deep_view(),
                            spec_scan_from(s, i as int + 1),
                        );
                    }
                },
                None => {
                    if is_digit(c) {
                        let u = c as u32;
                        let d = (u - 48) as i32;
                        let t = Token {
                            tstart_index: i,
                            tparsed_from: char_string(c),
                            tvalue: POSSIBLETOKENVALUE::INTEGER(d),
                            ttype: TOKENS::INTEGER,
                        };
                        r.push(t);
                        proof {
                            assert(d == digit_val(c) as i32);
                            assert(r.deep_view() =~= pre.push(t.deep_view()));
                            lemma_scan_combine_push(
                                pre,
                                t.deep_view(),
                                spec_scan_from(s, i as int + 1),
                            );
                        }
                    } else {
                        let t = Token {
                            tstart_index: i,
                            tparsed_from: char_string(c),
                            tvalue: POSSIBLETOKENVALUE::NONE,
                            ttype: TOKENS::UNKNOWN,
                        };
                        let mut stopped: Vec<Token> = Vec::new();
                        stopped.push(t);
                        proof {
                            assert(stopped.deep_view() =~= seq![t.deep_view()]);
                            assert(spec_scan_from(s, i as int) == SpecScanOutcome::Stopped(
                                t.deep_view(),
                            ));
                        }
                        return stopped;
                    }
                },
            }
        }
        i = i + 1;
    }
    proof {
        assert(r.deep_view() + Seq::<SpecScanToken>::empty() =~= r.deep_view());
    }
    r
}

} // verus!
