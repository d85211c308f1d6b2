//! The laws the scanner obeys, stated over the model and proved once for
//! every input: totality on benign character classes, emptiness on
//! whitespace-only input, the end-of-input sentinel, the ordering
//! invariants of the token sequence, and the round trip of literal lexemes.

use vstd::prelude::*;

use crate::lexer::{
    at_end_spec, comment_end, digits_end, digits_val_seq, all_digits, eof_token, float_guard,
    ident_end, ident_kind, is_ident_char, is_ident_start, is_ws, lex_from, lex_spec,
    lexically_special, number_end, number_kind, peek_is, simple_start, simple_token,
    string_scan_end, lemma_comment_end, lemma_digits_end, lemma_ident_end, lemma_string_scan_end,
    SpecLex, SpecLexResult,
};
use crate::text::is_digit_char;
use crate::token::{spec_keyword, SpecToken, SpecTokenKind};

verus! {

/// How many lexical units (tokens before the end-of-input sentinel) the
/// maximal-munch scan finds from `pos` on: whitespace and comments count
/// nothing, every other recognized lexeme counts one, and counting stops at
/// an invalid lexeme.
pub open spec fn lexical_units(s: Seq<char>, pos: int) -> nat
    decreases s.len() - pos,
{
    proof {
        if pos < s.len() {
            lemma_digits_end(s, pos);
            if digits_end(s, pos) + 1 <= s.len() {
                lemma_digits_end(s, digits_end(s, pos) + 1);
            }
            lemma_ident_end(s, pos);
            lemma_string_scan_end(s, pos + 1);
            lemma_comment_end(s, pos + 1);
        }
    }
    if at_end_spec(s, pos) {
        0
    } else {
        let c = s[pos];
        if is_ws(c) {
            lexical_units(s, pos + 1)
        } else if c == '\n' {
            lexical_units(s, pos + 1)
        } else if c == '"' {
            let e = string_scan_end(s, pos + 1);
            if !at_end_spec(s, e) {
                1 + lexical_units(s, e + 1)
            } else {
                0
            }
        } else if c == '/' && peek_is(s, pos + 1, '/') {
            lexical_units(s, comment_end(s, pos))
        } else {
            match simple_token(s, pos) {
                Some((kind, width)) => 1 + lexical_units(s, pos + width),
                None => if is_digit_char(c) {
                    1 + lexical_units(s, number_end(s, pos))
                } else if is_ident_start(c) {
                    1 + lexical_units(s, ident_end(s, pos))
                } else {
                    0
                },
            }
        }
    }
}

/// The lexeme of a float literal: an integer digit run, one dot, and
/// `frac_digits` fraction digits, whose parts carry the stated values.
pub open spec fn float_lexeme_wf(
    lexeme: Seq<char>,
    int_part: nat,
    frac_part: nat,
    frac_digits: nat,
) -> bool {
    let dot = lexeme.len() - frac_digits - 1;
    &&& 1 <= frac_digits
    &&& 1 <= dot
    &&& lexeme[dot] == '.'
    &&& all_digits(lexeme.subrange(0, dot))
    &&& all_digits(lexeme.subrange(dot + 1, lexeme.len() as int))
    &&& int_part == digits_val_seq(lexeme.subrange(0, dot))
    &&& frac_part == digits_val_seq(lexeme.subrange(dot + 1, lexeme.len() as int))
}

/// How the payload of a literal token relates to its lexeme; the shapes
/// here are exactly what re-scanning the lexeme needs.
pub open spec fn literal_token_wf(kind: SpecTokenKind, lexeme: Seq<char>) -> bool {
    match kind {
        SpecTokenKind::INTEGER(v) => lexeme.len() > 0 && all_digits(lexeme) && v == digits_val_seq(
            lexeme,
        ),
        SpecTokenKind::FLOAT { int_part, frac_part, frac_digits } => float_lexeme_wf(
            lexeme,
            int_part,
            frac_part,
            frac_digits,
        ),
        SpecTokenKind::STRING(content) => {
            &&& lexeme == seq!['"'] + content + seq!['"']
            &&& forall|j: int| 0 <= j < content.len() ==> content[j] != '"' && content[j] != '\0'
        },
        SpecTokenKind::IDENTIFIER(name) => {
            &&& lexeme == name
            &&& name.len() > 0
            &&& is_ident_start(name[0])
            &&& forall|j: int| 0 <= j < name.len() ==> is_ident_char(#[trigger] name[j])
            &&& spec_keyword(name) is None
        },
        _ => true,
    }
}

/// Index `p` lies inside token `t`'s lexeme.
pub open spec fn token_covers_index(t: SpecToken, p: int) -> bool {
    t.pos <= p < t.pos + t.literal.len()
}

/// Index `p` lies inside some token's lexeme.
pub open spec fn covered_by(toks: Seq<SpecToken>, p: int) -> bool {
    exists|i: int| 0 <= i < toks.len() && token_covers_index(#[trigger] toks[i], p)
}

/// No newline occurs at the indices `q` through `p`.
pub open spec fn no_newline_between(s: Seq<char>, q: int, p: int) -> bool {
    forall|r: int| q <= r <= p ==> s[r] != '\n'
}

/// Index `p` belongs to a line comment: two slashes open one at or before
/// `p`, with no newline in between.
pub open spec fn comment_content(s: Seq<char>, p: int) -> bool {
    exists|q: int|
        0 <= q <= p && q + 1 < s.len() && #[trigger] s[q] == '/' && s[q + 1] == '/'
            && no_newline_between(s, q, p)
}

/// Index `p` was consumed without producing a token: as insignificant
/// whitespace, as a newline, or as part of a skipped line comment.
pub open spec fn insignificant_at(s: Seq<char>, p: int) -> bool {
    is_ws(s[p]) || s[p] == '\n' || comment_content(s, p)
}

/// What holds of each token the scan from `(pos, line)` emits before it
/// reaches `(end_pos, end_line)`.
pub open spec fn scan_token_wf(
    s: Seq<char>,
    pos: int,
    line: int,
    end_pos: nat,
    end_line: nat,
    t: SpecToken,
) -> bool {
    &&& pos <= t.pos
    &&& t.pos + t.literal.len() <= end_pos
    &&& line <= t.line <= end_line
    &&& 1 <= t.literal.len()
    &&& t.literal == s.subrange(t.pos as int, t.pos as int + t.literal.len() as int)
    &&& !(t.kind is EOF)
    &&& literal_token_wf(t.kind, t.literal)
}

/// The invariants of a successful scan from `(pos, line)`: every token is
/// well formed, their lexemes lie one after another (so start offsets
/// strictly ascend), their line numbers never decrease, the scan stops
/// only at the end of input, and every character it passed over is inside
/// a token's lexeme or was consumed as whitespace or comment.
pub open spec fn scan_tokens_wf(
    s: Seq<char>,
    pos: int,
    line: int,
    toks: Seq<SpecToken>,
    end_pos: nat,
    end_line: nat,
) -> bool {
    &&& pos <= end_pos <= s.len()
    &&& line <= end_line
    &&& at_end_spec(s, end_pos as int)
    &&& forall|i: int|
        0 <= i < toks.len() ==> scan_token_wf(s, pos, line, end_pos, end_line, #[trigger] toks[i])
    &&& forall|i: int, j: int|
        #![trigger toks[i], toks[j]]
        0 <= i < j < toks.len() ==> toks[i].pos + toks[i].literal.len() <= toks[j].pos
            && toks[i].line <= toks[j].line
    &&& forall|p: int| pos <= p < end_pos ==> covered_by(toks, p) || insignificant_at(s, p)
}

/// A successful scan's invariants still hold from an earlier cursor, as
/// long as everything in between was consumed without producing a token.
proof fn lemma_wf_weaken(
    s: Seq<char>,
    pos: int,
    line: int,
    pos2: int,
    line2: int,
    toks: Seq<SpecToken>,
    end_pos: nat,
    end_line: nat,
)
    requires
        scan_tokens_wf(s, pos2, line2, toks, end_pos, end_line),
        pos <= pos2,
        line <= line2,
        forall|p: int| pos <= p < pos2 ==> insignificant_at(s, p),
    ensures
        scan_tokens_wf(s, pos, line, toks, end_pos, end_line),
{
    assert forall|p: int| pos <= p < end_pos implies covered_by(toks, p) || insignificant_at(
        s,
        p,
    ) by {
        if pos2 <= p {
            assert(covered_by(toks, p) || insignificant_at(s, p));
        } else {
            assert(insignificant_at(s, p));
        }
    }
}

/// A covering token still covers after one more is put in front.
proof fn lemma_covered_cons(t: SpecToken, toks: Seq<SpecToken>, p: int)
    requires
        covered_by(toks, p),
    ensures
        covered_by(seq![t] + toks, p),
{
    let i = choose|i: int| 0 <= i < toks.len() && token_covers_index(#[trigger] toks[i], p);
    assert((seq![t] + toks)[i + 1] == toks[i]);
    assert(token_covers_index((seq![t] + toks)[i + 1], p));
}

/// Emitting a well-formed token ahead of a well-formed scan keeps the scan
/// well formed.
proof fn lemma_wf_cons(
    s: Seq<char>,
    pos: int,
    line: int,
    t: SpecToken,
    pos2: int,
    line2: int,
    toks: Seq<SpecToken>,
    end_pos: nat,
    end_line: nat,
)
    requires
        scan_tokens_wf(s, pos2, line2, toks, end_pos, end_line),
        t.pos == pos,
        t.pos + t.literal.len() == pos2,
        line <= t.line <= line2,
        1 <= t.literal.len(),
        t.literal == s.subrange(t.pos as int, t.pos as int + t.literal.len() as int),
        !(t.kind is EOF),
        literal_token_wf(t.kind, t.literal),
    ensures
        scan_tokens_wf(s, pos, line, seq![t] + toks, end_pos, end_line),
{
    let all = seq![t] + toks;
    assert forall|p: int| pos <= p < end_pos implies covered_by(all, p) || insignificant_at(
        s,
        p,
    ) by {
        if p < pos2 {
            assert(all[0] == t);
            assert(token_covers_index(all[0], p));
        } else {
            assert(covered_by(toks, p) || insignificant_at(s, p));
            if covered_by(toks, p) {
                lemma_covered_cons(t, toks, p);
            }
        }
    }
    assert forall|i: int| 0 <= i < all.len() implies scan_token_wf(
        s,
        pos,
        line,
        end_pos,
        end_line,
        #[trigger] all[i],
    ) by {
        if i == 0 {
            assert(all[0] == t);
        } else {
            assert(all[i] == toks[i - 1]);
            assert(scan_token_wf(s, pos2, line2, end_pos, end_line, toks[i - 1]));
        }
    }
    assert forall|i: int, j: int|
        #![trigger all[i], all[j]]
        0 <= i < j < all.len() implies all[i].pos + all[i].literal.len() <= all[j].pos
        && all[i].line <= all[j].line by {
        if i == 0 {
            assert(all[0] == t);
            assert(all[j] == toks[j - 1]);
            assert(scan_token_wf(s, pos2, line2, end_pos, end_line, toks[j - 1]));
        } else {
            assert(all[i] == toks[i - 1]);
            assert(all[j] == toks[j - 1]);
        }
    }
}

/// The widths and kinds a punctuation or compound lexeme can have.
proof fn lemma_simple_token_props(s: Seq<char>, pos: int)
    requires
        0 <= pos < s.len(),
        simple_token(s, pos) is Some,
    ensures
        (match simple_token(s, pos) {
            Some((kind, width)) => {
                &&& 1 <= width <= 2
                &&& pos + width <= s.len()
                &&& !(kind is EOF)
                &&& !(kind is INTEGER)
                &&& !(kind is FLOAT)
                &&& !(kind is STRING)
                &&& !(kind is IDENTIFIER)
            },
            None => true,
        }),
{
}

/// The scan invariants and the unit count, proved by induction over the
/// scanner model: whenever the scan from `(pos, line)` succeeds, its tokens
/// satisfy [`scan_tokens_wf`] and number exactly [`lexical_units`].
pub proof fn lemma_lex_from_wf(s: Seq<char>, pos: int, line: int)
    requires
        0 <= pos <= s.len(),
        0 <= line,
    ensures
        (match lex_from(s, pos, line) {
            SpecLex::Done { toks, end_pos, end_line } => scan_tokens_wf(
                s,
                pos,
                line,
                toks,
                end_pos,
                end_line,
            ) && toks.len() == lexical_units(s, pos),
            SpecLex::Failed(_) => true,
        }),
    decreases s.len() - pos,
{
    if at_end_spec(s, pos) {
    } else {
        let c = s[pos];
        if is_ws(c) {
            lemma_lex_from_wf(s, pos + 1, line);
            assert(insignificant_at(s, pos));
            match lex_from(s, pos + 1, line) {
                SpecLex::Done { toks, end_pos, end_line } => {
                    lemma_wf_weaken(s, pos, line, pos + 1, line, toks, end_pos, end_line);
                },
                SpecLex::Failed(_) => {},
            }
        } else if c == '\n' {
            lemma_lex_from_wf(s, pos + 1, line + 1);
            assert(insignificant_at(s, pos));
            match lex_from(s, pos + 1, line + 1) {
                SpecLex::Done { toks, end_pos, end_line } => {
                    lemma_wf_weaken(s, pos, line, pos + 1, line + 1, toks, end_pos, end_line);
                },
                SpecLex::Failed(_) => {},
            }
        } else if c == '"' {
            lemma_string_scan_end(s, pos + 1);
            let e = string_scan_end(s, pos + 1);
            if !at_end_spec(s, e) {
                lemma_lex_from_wf(s, e + 1, line);
                let t = SpecToken {
                    pos: pos as nat,
                    kind: SpecTokenKind::STRING(s.subrange(pos + 1, e)),
                    literal: s.subrange(pos, e + 1),
                    line: line as nat,
                };
                assert(t.literal == seq!['"'] + s.subrange(pos + 1, e) + seq!['"']) by {
                    assert(s[e] == '"');
                    assert(t.literal =~= seq!['"'] + s.subrange(pos + 1, e) + seq!['"']);
                }
                assert(literal_token_wf(t.kind, t.literal));
                match lex_from(s, e + 1, line) {
                    SpecLex::Done { toks, end_pos, end_line } => {
                        lemma_wf_cons(s, pos, line, t, e + 1, line, toks, end_pos, end_line);
                    },
                    SpecLex::Failed(_) => {},
                }
            }
        } else if c == '/' && peek_is(s, pos + 1, '/') {
            lemma_comment_end(s, pos + 1);
            let ce = comment_end(s, pos);
            lemma_lex_from_wf(s, ce, line);
            assert forall|p: int| pos <= p < ce implies insignificant_at(s, p) by {
                assert(s[pos] == '/');
                assert(s[pos + 1] == '/');
                assert(no_newline_between(s, pos, p)) by {
                    assert(forall|r: int| pos + 1 <= r < ce ==> #[trigger] s[r] != '\n');
                }
                assert(comment_content(s, p));
            }
            match lex_from(s, ce, line) {
                SpecLex::Done { toks, end_pos, end_line } => {
                    lemma_wf_weaken(s, pos, line, ce, line, toks, end_pos, end_line);
                },
                SpecLex::Failed(_) => {},
            }
        } else {
            match simple_token(s, pos) {
                Some((kind, width)) => {
                    lemma_simple_token_props(s, pos);
                    lemma_lex_from_wf(s, pos + width, line);
                    let t = SpecToken {
                        pos: pos as nat,
                        kind,
                        literal: s.subrange(pos, pos + width),
                        line: line as nat,
                    };
                    assert(literal_token_wf(t.kind, t.literal));
                    match lex_from(s, pos + width, line) {
                        SpecLex::Done { toks, end_pos, end_line } => {
                            lemma_wf_cons(
                                s,
                                pos,
                                line,
                                t,
                                pos + width,
                                line,
                                toks,
                                end_pos,
                                end_line,
                            );
                        },
                        SpecLex::Failed(_) => {},
                    }
                },
                None => {
                    if is_digit_char(c) {
                        lemma_digits_end(s, pos);
                        let de = digits_end(s, pos);
                        let ne = number_end(s, pos);
                        if float_guard(s, de) {
                            lemma_digits_end(s, de + 1);
                        }
                        let t = SpecToken {
                            pos: pos as nat,
                            kind: number_kind(s, pos),
                            literal: s.subrange(pos, ne),
                            line: line as nat,
                        };
                        assert(literal_token_wf(t.kind, t.literal)) by {
                            if float_guard(s, de) {
                                let fe = digits_end(s, de + 1);
                                assert(t.literal.subrange(0, de - pos) =~= s.subrange(pos, de));
                                assert(t.literal.subrange(de - pos + 1, t.literal.len() as int)
                                    =~= s.subrange(de + 1, fe));
                                assert(t.literal[de - pos] == s[de]);
                            } else {
                                assert(t.literal =~= s.subrange(pos, de));
                            }
                        }
                        lemma_lex_from_wf(s, ne, line);
                        match lex_from(s, ne, line) {
                            SpecLex::Done { toks, end_pos, end_line } => {
                                lemma_wf_cons(s, pos, line, t, ne, line, toks, end_pos, end_line);
                            },
                            SpecLex::Failed(_) => {},
                        }
                    } else if is_ident_start(c) {
                        lemma_ident_end(s, pos);
                        let ie = ident_end(s, pos);
                        let t = SpecToken {
                            pos: pos as nat,
                            kind: ident_kind(s, pos),
                            literal: s.subrange(pos, ie),
                            line: line as nat,
                        };
                        assert(!(t.kind is EOF) && literal_token_wf(t.kind, t.literal)) by {
                            let name = s.subrange(pos, ie);
                            assert(name[0] == s[pos]);
                            assert(forall|j: int|
                                0 <= j < name.len() ==> is_ident_char(#[trigger] name[j]));
                        }
                        lemma_lex_from_wf(s, ie, line);
                        match lex_from(s, ie, line) {
                            SpecLex::Done { toks, end_pos, end_line } => {
                                lemma_wf_cons(s, pos, line, t, ie, line, toks, end_pos, end_line);
                            },
                            SpecLex::Failed(_) => {},
                        }
                    }
                },
            }
        }
    }
}

/// A digit run bounded by a non-digit (or the input's end) stops exactly
/// there.
proof fn lemma_digits_end_exact(s: Seq<char>, i: int, e: int)
    requires
        0 <= i <= e <= s.len(),
        forall|j: int| i <= j < e ==> is_digit_char(#[trigger] s[j]),
        e == s.len() || !is_digit_char(s[e]),
    ensures
        digits_end(s, i) == e,
    decreases e - i,
{
    if i < e {
        lemma_digits_end_exact(s, i + 1, e);
    }
}

/// An identifier run bounded by a non-identifier character stops exactly
/// there.
proof fn lemma_ident_end_exact(s: Seq<char>, i: int, e: int)
    requires
        0 <= i <= e <= s.len(),
        forall|j: int| i <= j < e ==> s[j] != '\0' && is_ident_char(#[trigger] s[j]),
        e == s.len() || s[e] == '\0' || !is_ident_char(s[e]),
    ensures
        ident_end(s, i) == e,
    decreases e - i,
{
    if i < e {
        lemma_ident_end_exact(s, i + 1, e);
    }
}

/// A string body bounded by a closing quote (or the input's end) stops
/// exactly there.
proof fn lemma_string_scan_exact(s: Seq<char>, i: int, e: int)
    requires
        0 <= i <= e <= s.len(),
        forall|j: int| i <= j < e ==> s[j] != '"' && #[trigger] s[j] != '\0',
        e == s.len() || s[e] == '"' || s[e] == '\0',
    ensures
        string_scan_end(s, i) == e,
    decreases e - i,
{
    if i < e {
        lemma_string_scan_exact(s, i + 1, e);
    }
}

/// An identifier character is never the null sentinel.
proof fn lemma_ident_char_not_nul(c: char)
    requires
        is_ident_char(c),
    ensures
        c != '\0',
{
}

/// Re-scanning the lexeme of a literal token yields one token of the very
/// same kind (and payload), followed by the end-of-input sentinel.
proof fn lemma_relex_literal(kind: SpecTokenKind, lexeme: Seq<char>)
    requires
        literal_token_wf(kind, lexeme),
        kind is INTEGER || kind is FLOAT || kind is STRING || kind is IDENTIFIER,
    ensures
        (match lex_spec(lexeme) {
            SpecLexResult::Tokens(ts) => ts.len() == 2 && ts[0].kind == kind && ts[1].kind is EOF,
            SpecLexResult::Failed(_) => false,
        }),
{
    let w = lexeme;
    let n = w.len() as int;
    match kind {
        SpecTokenKind::INTEGER(v) => {
            lemma_digits_end_exact(w, 0, n);
            assert(simple_token(w, 0) is None);
            assert(!float_guard(w, n));
            assert(w.subrange(0, n) =~= w);
            assert(lex_from(w, n, 0) == (SpecLex::Done {
                toks: Seq::<SpecToken>::empty(),
                end_pos: n as nat,
                end_line: 0nat,
            }));
            assert(seq![
                SpecToken { pos: 0nat, kind, literal: w, line: 0nat },
            ] + Seq::<SpecToken>::empty() =~= seq![
                SpecToken { pos: 0nat, kind, literal: w, line: 0nat },
            ]);
        },
        SpecTokenKind::FLOAT { int_part, frac_part, frac_digits } => {
            let dot = n - frac_digits - 1;
            assert(is_digit_char(w.subrange(0, dot)[0]));
            assert(w[0] == w.subrange(0, dot)[0]);
            assert forall|j: int| 0 <= j < dot implies is_digit_char(#[trigger] w[j]) by {
                assert(w.subrange(0, dot)[j] == w[j]);
                assert(is_digit_char(w.subrange(0, dot)[j]));
            }
            assert forall|j: int| dot + 1 <= j < n implies is_digit_char(#[trigger] w[j]) by {
                assert(w.subrange(dot + 1, n)[j - dot - 1] == w[j]);
                assert(is_digit_char(w.subrange(dot + 1, n)[j - dot - 1]));
            }
            lemma_digits_end_exact(w, 0, dot);
            assert(float_guard(w, dot));
            lemma_digits_end_exact(w, dot + 1, n);
            assert(simple_token(w, 0) is None);
            assert(number_end(w, 0) == n);
            assert(number_kind(w, 0) == kind) by {
                assert(w.subrange(0, dot) == w.subrange(0, digits_end(w, 0)));
                assert(frac_digits == n - (dot + 1));
            }
            assert(w.subrange(0, n) =~= w);
            assert(seq![
                SpecToken { pos: 0nat, kind: number_kind(w, 0), literal: w, line: 0nat },
            ] + Seq::<SpecToken>::empty() =~= seq![
                SpecToken { pos: 0nat, kind: number_kind(w, 0), literal: w, line: 0nat },
            ]);
        },
        SpecTokenKind::STRING(content) => {
            assert(w[0] == '"');
            assert(w[n - 1] == '"');
            assert(forall|j: int| 1 <= j < n - 1 ==> w[j] != '"' && #[trigger] w[j] != '\0') by {
                assert(forall|j: int| 1 <= j < n - 1 ==> #[trigger] w[j] == content[j - 1]);
            }
            lemma_string_scan_exact(w, 1, n - 1);
            assert(!at_end_spec(w, n - 1));
            assert(w.subrange(1, n - 1) =~= content);
            let t = SpecToken {
                pos: 0nat,
                kind: SpecTokenKind::STRING(w.subrange(1, n - 1)),
                literal: w.subrange(0, n),
                line: 0nat,
            };
            assert(lex_from(w, n, 0) == (SpecLex::Done {
                toks: Seq::<SpecToken>::empty(),
                end_pos: n as nat,
                end_line: 0nat,
            }));
            assert(seq![t] + Seq::<SpecToken>::empty() =~= seq![t]);
        },
        SpecTokenKind::IDENTIFIER(name) => {
            assert(is_ident_start(w[0]));
            assert(!lexically_special(w[0])) by {
                if w[0] != '_' {
                } else {
                }
            }
            assert(forall|j: int| 0 <= j < n ==> #[trigger] w[j] != '\0' && is_ident_char(w[j]))
                by {
                assert forall|j: int| 0 <= j < n implies #[trigger] w[j] != '\0' && is_ident_char(
                    w[j],
                ) by {
                    lemma_ident_char_not_nul(w[j]);
                }
            }
            lemma_ident_end_exact(w, 0, n);
            assert(simple_token(w, 0) is None);
            assert(w.subrange(0, n) =~= w);
            assert(ident_kind(w, 0) == kind);
            let t = SpecToken { pos: 0nat, kind: ident_kind(w, 0), literal: w, line: 0nat };
            assert(seq![t] + Seq::<SpecToken>::empty() =~= seq![t]);
        },
        _ => {
        },
    }
}

/// The characters on which classification is total: digits, the recognized
/// punctuation and operator starters, and whitespace.
pub open spec fn benign_char(c: char) -> bool {
    is_digit_char(c) || simple_start(c) || is_ws(c) || c == '\n'
}

/// A scan over benign characters never fails.
proof fn lemma_benign_from(s: Seq<char>, pos: int, line: int)
    requires
        0 <= pos <= s.len(),
        forall|i: int| 0 <= i < s.len() ==> benign_char(#[trigger] s[i]),
    ensures
        lex_from(s, pos, line) is Done,
    decreases s.len() - pos,
{
    if at_end_spec(s, pos) {
    } else {
        let c = s[pos];
        if is_ws(c) || c == '\n' {
            lemma_benign_from(s, pos + 1, line + if c == '\n' { 1int } else { 0int });
        } else if c == '/' && peek_is(s, pos + 1, '/') {
            lemma_comment_end(s, pos + 1);
            lemma_benign_from(s, comment_end(s, pos), line);
        } else {
            match simple_token(s, pos) {
                Some((kind, width)) => {
                    lemma_simple_token_props(s, pos);
                    lemma_benign_from(s, pos + width, line);
                },
                None => {
                    assert(is_digit_char(c));
                    lemma_digits_end(s, pos);
                    if float_guard(s, digits_end(s, pos)) {
                        lemma_digits_end(s, digits_end(s, pos) + 1);
                    }
                    lemma_benign_from(s, number_end(s, pos), line);
                },
            }
        }
    }
}

/// Totality of classification: an input made only of digits, recognized
/// operators and whitespace scans without any diagnostic, and the number of
/// tokens returned is the number of its non-whitespace lexical units (plus
/// the one end-of-input sentinel whenever that number is positive).
pub proof fn lemma_totality(s: Seq<char>)
    requires
        forall|i: int| 0 <= i < s.len() ==> benign_char(#[trigger] s[i]),
    ensures
        lex_spec(s) is Tokens,
        (match lex_spec(s) {
            SpecLexResult::Tokens(toks) => {
                &&& lexical_units(s, 0) == 0 ==> toks.len() == 0
                &&& lexical_units(s, 0) > 0 ==> toks.len() == lexical_units(s, 0) + 1
            },
            SpecLexResult::Failed(_) => false,
        }),
{
    lemma_benign_from(s, 0, 0);
    lemma_lex_from_wf(s, 0, 0);
}

/// A scan over whitespace alone produces no tokens at all.
proof fn lemma_ws_from(s: Seq<char>, pos: int, line: int)
    requires
        0 <= pos <= s.len(),
        forall|i: int| 0 <= i < s.len() ==> is_ws(#[trigger] s[i]) || s[i] == '\n',
    ensures
        (match lex_from(s, pos, line) {
            SpecLex::Done { toks, end_pos, end_line } => toks == Seq::<SpecToken>::empty(),
            SpecLex::Failed(_) => false,
        }),
    decreases s.len() - pos,
{
    if at_end_spec(s, pos) {
    } else {
        let c = s[pos];
        if c == '\n' {
            lemma_ws_from(s, pos + 1, line + 1);
        } else {
            lemma_ws_from(s, pos + 1, line);
        }
    }
}

/// Whitespace-only input (newlines included) yields an empty result: the
/// line counter advances, but nothing observable is produced.
pub proof fn lemma_whitespace_only(s: Seq<char>)
    requires
        forall|i: int| 0 <= i < s.len() ==> is_ws(#[trigger] s[i]) || s[i] == '\n',
    ensures
        lex_spec(s) == SpecLexResult::Tokens(Seq::<SpecToken>::empty()),
{
    lemma_ws_from(s, 0, 0);
}

/// The end-of-input sentinel: whenever a scan returns a non-empty sequence,
/// its final token is the end-of-input token, and no other token has that
/// kind (so nothing follows the sentinel).
pub proof fn lemma_eof_sentinel(s: Seq<char>)
    ensures
        (match lex_spec(s) {
            SpecLexResult::Tokens(toks) => toks.len() > 0 ==> {
                &&& toks.last().kind is EOF
                &&& forall|i: int| 0 <= i < toks.len() - 1 ==> !((#[trigger] toks[i]).kind is EOF)
            },
            SpecLexResult::Failed(_) => true,
        }),
{
    lemma_lex_from_wf(s, 0, 0);
}

/// The ordering invariants of a returned sequence: start offsets strictly
/// ascend, and line numbers never decrease.
pub proof fn lemma_token_order(s: Seq<char>)
    ensures
        (match lex_spec(s) {
            SpecLexResult::Tokens(toks) => forall|i: int, j: int|
                #![trigger toks[i], toks[j]]
                0 <= i < j < toks.len() ==> toks[i].pos < toks[j].pos && toks[i].line
                    <= toks[j].line,
            SpecLexResult::Failed(_) => true,
        }),
{
    lemma_lex_from_wf(s, 0, 0);
    match lex_from(s, 0, 0) {
        SpecLex::Done { toks, end_pos, end_line } => {
            if toks.len() > 0 {
                let all = toks.push(eof_token(end_pos, end_line));
                assert forall|i: int, j: int|
                    #![trigger all[i], all[j]]
                    0 <= i < j < all.len() implies all[i].pos < all[j].pos && all[i].line
                    <= all[j].line by {
                    assert(all[i] == toks[i]);
                    assert(scan_token_wf(s, 0, 0, end_pos, end_line, toks[i]));
                    if j < toks.len() {
                        assert(all[j] == toks[j]);
                    } else {
                        assert(all[j] == eof_token(end_pos, end_line));
                    }
                }
            }
        },
        SpecLex::Failed(_) => {},
    }
}

/// Every character of the input is accounted for: on an error-free scan
/// the cursor stops only at the end of the input (or on its `'\0'`
/// sentinel), and every position it passed lies inside some token's lexeme
/// or was consumed as whitespace, a newline, or part of a skipped line
/// comment.  Together with [`lemma_token_order`], which makes the lexemes
/// disjoint, each such position belongs to exactly one lexeme.
pub proof fn lemma_input_coverage(s: Seq<char>)
    ensures
        (match lex_from(s, 0, 0) {
            SpecLex::Done { toks, end_pos, end_line } => {
                &&& at_end_spec(s, end_pos as int)
                &&& forall|p: int|
                    0 <= p < end_pos ==> covered_by(toks, p) || insignificant_at(s, p)
            },
            SpecLex::Failed(_) => true,
        }),
{
    lemma_lex_from_wf(s, 0, 0);
}

/// What each returned token's lexeme is: a non-empty substring of the
/// source beginning at the token's start offset, whose shape spells the
/// token's payload ([`literal_token_wf`]); the end-of-input sentinel alone
/// has an empty lexeme.
pub proof fn lemma_token_lexemes(s: Seq<char>, i: int)
    requires
        ({
            &&& lex_spec(s) matches SpecLexResult::Tokens(toks)
            &&& 0 <= i < toks.len()
        }),
    ensures
        (match lex_spec(s) {
            SpecLexResult::Tokens(toks) => {
                &&& !(toks[i].kind is EOF) ==> {
                    &&& 1 <= toks[i].literal.len()
                    &&& toks[i].pos + toks[i].literal.len() <= s.len()
                    &&& toks[i].literal == s.subrange(
                        toks[i].pos as int,
                        toks[i].pos as int + toks[i].literal.len() as int,
                    )
                    &&& literal_token_wf(toks[i].kind, toks[i].literal)
                }
                &&& toks[i].kind is EOF ==> toks[i].literal.len() == 0
            },
            SpecLexResult::Failed(_) => true,
        }),
{
    lemma_lex_from_wf(s, 0, 0);
    match lex_from(s, 0, 0) {
        SpecLex::Done { toks, end_pos, end_line } => {
            match lex_spec(s) {
                SpecLexResult::Tokens(all) => {
                    if i < toks.len() {
                        assert(all[i] == toks[i]);
                        assert(scan_token_wf(s, 0, 0, end_pos, end_line, toks[i]));
                    } else {
                        assert(all[i] == eof_token(end_pos, end_line));
                    }
                },
                SpecLexResult::Failed(_) => {},
            }
        },
        SpecLex::Failed(_) => {},
    }
}

/// Round trip of literal text: re-scanning the stored lexeme of any
/// integer, float, string or identifier token yields one token of the very
/// same classified kind and payload (a string token's lexeme is its decoded
/// content re-quoted), followed by the end-of-input sentinel.
pub proof fn lemma_literal_round_trip(s: Seq<char>, i: int)
    requires
        ({
            &&& lex_spec(s) matches SpecLexResult::Tokens(toks)
            &&& 0 <= i < toks.len()
            &&& (toks[i].kind is INTEGER || toks[i].kind is FLOAT || toks[i].kind is STRING
                || toks[i].kind is IDENTIFIER)
        }),
    ensures
        (match lex_spec(s) {
            SpecLexResult::Tokens(toks) => match lex_spec(toks[i].literal) {
                SpecLexResult::Tokens(ts) => ts.len() == 2 && ts[0].kind == toks[i].kind
                    && ts[1].kind is EOF,
                SpecLexResult::Failed(_) => false,
            },
            SpecLexResult::Failed(_) => true,
        }),
{
    lemma_lex_from_wf(s, 0, 0);
    match lex_from(s, 0, 0) {
        SpecLex::Done { toks, end_pos, end_line } => {
            match lex_spec(s) {
                SpecLexResult::Tokens(all) => {
                    assert(all[i] == toks[i]);
                    assert(scan_token_wf(s, 0, 0, end_pos, end_line, toks[i]));
                    lemma_relex_literal(all[i].kind, all[i].literal);
                },
                SpecLexResult::Failed(_) => {},
            }
        },
        SpecLex::Failed(_) => {},
    }
}

} // verus!
