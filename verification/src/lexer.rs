//! The lexical scanner: a single left-to-right pass with one-character
//! lookahead that drains a whole source string into classified tokens.
//!
//! The mathematical model is [`lex_spec`]: a recursive function over the
//! input's character sequence that produces either the token models or the
//! diagnostic of the first invalid lexeme.  The executable [`Lexer`] is
//! verified to return exactly what the model says.
//!
//! Conventions, chosen once and used consistently: a token's `pos` is the
//! character offset in the whole input where its lexeme begins; `line` is
//! 0-based and counts the newlines consumed before that offset; a `'\0'`
//! character acts as the end-of-input sentinel, so scanning stops there.

use vstd::prelude::*;
use vstd::string::StrSliceExecFns;

use crate::diag::{Diagnostic, LexErrorKind, SpecDiagnostic};
use crate::text::{char_is_alphabetic, digit_val, is_digit, is_digit_char, unicode_alpha};
use crate::token::{keyword_lookup, SpecToken, SpecTokenKind, Token, TokenKind};

verus! {

/// Insignificant whitespace: space, tab, carriage return (newline is
/// handled separately because it counts lines).
pub open spec fn is_ws(c: char) -> bool {
    c == ' ' || c == '\t' || c == '\r'
}

/// The characters that open a punctuation or compound-operator lexeme.
pub open spec fn simple_start(c: char) -> bool {
    c == '+' || c == '-' || c == ',' || c == ';' || c == '/' || c == '.' || c == '(' || c == ')'
        || c == '{' || c == '}' || c == '%' || c == '=' || c == '<' || c == '>' || c == '!'
        || c == '*'
}

/// The characters that open (or end) some non-identifier lexeme class.  All
/// of them are ASCII, so none of them has the Unicode `Alphabetic` property;
/// building that exclusion into the identifier classes keeps the model
/// self-contained.
pub open spec fn lexically_special(c: char) -> bool {
    is_ws(c) || c == '\n' || c == '"' || c == '\0' || is_digit_char(c) || simple_start(c)
}

/// An identifier may start with an alphabetic character or an underscore.
pub open spec fn is_ident_start(c: char) -> bool {
    (unicode_alpha(c) && !lexically_special(c)) || c == '_'
}

/// Subsequent identifier characters may also be digits.
pub open spec fn is_ident_char(c: char) -> bool {
    is_ident_start(c) || is_digit_char(c)
}

/// The cursor is at the end of input: past the last character, or on the
/// `'\0'` sentinel.
pub open spec fn at_end_spec(s: Seq<char>, pos: int) -> bool {
    pos >= s.len() || s[pos] == '\0'
}

/// One-character lookahead: the character at `i` exists and equals `c`.
pub open spec fn peek_is(s: Seq<char>, i: int, c: char) -> bool {
    i < s.len() && s[i] == c
}

/// The end of the digit run starting at `i`: the first index at or after
/// `i` that is past the input or holds a non-digit.
pub open spec fn digits_end(s: Seq<char>, i: int) -> int
    decreases s.len() - i,
{
    if i < s.len() && is_digit_char(s[i]) {
        digits_end(s, i + 1)
    } else {
        i
    }
}

/// The end of the identifier-character run starting at `i`.
pub open spec fn ident_end(s: Seq<char>, i: int) -> int
    decreases s.len() - i,
{
    if i < s.len() && s[i] != '\0' && is_ident_char(s[i]) {
        ident_end(s, i + 1)
    } else {
        i
    }
}

/// Where a string body that starts at `i` stops: the index of the closing
/// quote, or of the position that ended the input first.
pub open spec fn string_scan_end(s: Seq<char>, i: int) -> int
    decreases s.len() - i,
{
    if at_end_spec(s, i) || s[i] == '"' {
        i
    } else {
        string_scan_end(s, i + 1)
    }
}

/// Where a line comment that starts at `i` stops: the index of the next
/// newline (not consumed), or of the position that ended the input first.
pub open spec fn comment_end(s: Seq<char>, i: int) -> int
    decreases s.len() - i,
{
    if at_end_spec(s, i) || s[i] == '\n' {
        i
    } else {
        comment_end(s, i + 1)
    }
}

/// The numeric value of a digit sequence, most significant digit first.
pub open spec fn digits_val_seq(t: Seq<char>) -> nat
    decreases t.len(),
{
    if t.len() == 0 {
        0
    } else {
        digits_val_seq(t.drop_last()) * 10 + digit_val(t.last())
    }
}

/// Every character of `t` is a decimal digit.
pub open spec fn all_digits(t: Seq<char>) -> bool {
    forall|j: int| 0 <= j < t.len() ==> is_digit_char(t[j])
}

/// Every run of digits that ends before `k` denotes a value that fits in
/// `usize`.
pub open spec fn runs_fit_upto(s: Seq<char>, k: int) -> bool {
    forall|i: int, j: int|
        0 <= i <= j <= k && j <= s.len() && all_digits(#[trigger] s.subrange(i, j))
            ==> digits_val_seq(s.subrange(i, j)) <= usize::MAX
}

/// Every run of digits in `s` denotes a value that fits in `usize`.  The
/// scanner requires this: a numeric lexeme whose value cannot be
/// represented is a fatal fault of the caller, not a user-facing lexical
/// error.
pub open spec fn digit_runs_fit(s: Seq<char>) -> bool {
    runs_fit_upto(s, s.len() as int)
}

/// Appending digits on the right never shrinks the denoted value.
proof fn lemma_dvs_extend_right(s: Seq<char>, a: int, b: int, c: int)
    requires
        0 <= a <= b <= c <= s.len(),
        forall|j: int| a <= j < c ==> is_digit_char(#[trigger] s[j]),
    ensures
        digits_val_seq(s.subrange(a, b)) <= digits_val_seq(s.subrange(a, c)),
    decreases c - b,
{
    if b < c {
        lemma_dvs_extend_right(s, a, b, c - 1);
        assert(s.subrange(a, c).drop_last() =~= s.subrange(a, c - 1));
        assert(digits_val_seq(s.subrange(a, c)) == digits_val_seq(s.subrange(a, c - 1)) * 10
            + digit_val(s[c - 1]));
    }
}

/// Prepending digits on the left never shrinks the denoted value.
proof fn lemma_dvs_extend_left(s: Seq<char>, a2: int, a: int, b: int)
    requires
        0 <= a2 <= a <= b <= s.len(),
        forall|j: int| a2 <= j < b ==> is_digit_char(#[trigger] s[j]),
    ensures
        digits_val_seq(s.subrange(a, b)) <= digits_val_seq(s.subrange(a2, b)),
    decreases b - a,
{
    if a < b {
        lemma_dvs_extend_left(s, a2, a, b - 1);
        assert(s.subrange(a, b).drop_last() =~= s.subrange(a, b - 1));
        assert(s.subrange(a2, b).drop_last() =~= s.subrange(a2, b - 1));
        assert(digits_val_seq(s.subrange(a, b)) == digits_val_seq(s.subrange(a, b - 1)) * 10
            + digit_val(s[b - 1]));
        assert(digits_val_seq(s.subrange(a2, b)) == digits_val_seq(s.subrange(a2, b - 1)) * 10
            + digit_val(s[b - 1]));
        assert(digits_val_seq(s.subrange(a, b - 1)) * 10 <= digits_val_seq(
            s.subrange(a2, b - 1),
        ) * 10);
    }
}

/// After the integer digit run ends at `de`, the literal continues as a
/// float exactly when a dot follows and a digit follows the dot.
pub open spec fn float_guard(s: Seq<char>, de: int) -> bool {
    de + 1 < s.len() && s[de] == '.' && is_digit_char(s[de + 1])
}

/// Where the numeric literal starting at `pos` ends.
pub open spec fn number_end(s: Seq<char>, pos: int) -> int {
    let de = digits_end(s, pos);
    if float_guard(s, de) {
        digits_end(s, de + 1)
    } else {
        de
    }
}

/// The kind of the numeric literal starting at `pos`: a float when the
/// guard holds, otherwise an integer (a trailing dot is left for the next
/// token).
pub open spec fn number_kind(s: Seq<char>, pos: int) -> SpecTokenKind {
    let de = digits_end(s, pos);
    if float_guard(s, de) {
        let fe = digits_end(s, de + 1);
        SpecTokenKind::FLOAT {
            int_part: digits_val_seq(s.subrange(pos, de)),
            frac_part: digits_val_seq(s.subrange(de + 1, fe)),
            frac_digits: (fe - (de + 1)) as nat,
        }
    } else {
        SpecTokenKind::INTEGER(digits_val_seq(s.subrange(pos, de)))
    }
}

/// The kind of the identifier starting at `pos`: a keyword kind when the
/// collected name matches the keyword table, else a generic identifier.
pub open spec fn ident_kind(s: Seq<char>, pos: int) -> SpecTokenKind {
    let name = s.subrange(pos, ident_end(s, pos));
    match crate::token::spec_keyword(name) {
        Some(k) => k,
        None => SpecTokenKind::IDENTIFIER(name),
    }
}

/// Single-character punctuation and the two-character compounds resolved by
/// one-character lookahead, with the width consumed.  Characters that open
/// other lexeme classes (whitespace, quote, digits, letters) are not here.
pub open spec fn simple_token(s: Seq<char>, pos: int) -> Option<(SpecTokenKind, int)> {
    let c = s[pos];
    if c == '+' {
        Some((SpecTokenKind::PLUS, 1int))
    } else if c == '-' {
        Some((SpecTokenKind::MINUS, 1int))
    } else if c == ',' {
        Some((SpecTokenKind::COMMA, 1int))
    } else if c == ';' {
        Some((SpecTokenKind::SEMICOLON, 1int))
    } else if c == '/' {
        Some((SpecTokenKind::SLASH, 1int))
    } else if c == '.' {
        Some((SpecTokenKind::DOT, 1int))
    } else if c == '(' {
        Some((SpecTokenKind::OPENPAREN, 1int))
    } else if c == ')' {
        Some((SpecTokenKind::CLOSEPAREN, 1int))
    } else if c == '{' {
        Some((SpecTokenKind::RIGHTBRACE, 1int))
    } else if c == '}' {
        Some((SpecTokenKind::LEFTBRACE, 1int))
    } else if c == '%' {
        Some((SpecTokenKind::MOD, 1int))
    } else if c == '=' {
        Some((SpecTokenKind::EQUAL, 1int))
    } else if c == '<' {
        if peek_is(s, pos + 1, '=') {
            Some((SpecTokenKind::LESSTHANEQUAL, 2int))
        } else {
            Some((SpecTokenKind::LESSTHAN, 1int))
        }
    } else if c == '>' {
        if peek_is(s, pos + 1, '=') {
            Some((SpecTokenKind::GREATERTHANEQUAL, 2int))
        } else {
            Some((SpecTokenKind::GREATERTHAN, 1int))
        }
    } else if c == '!' {
        if peek_is(s, pos + 1, '=') {
            Some((SpecTokenKind::BANGEQUAL, 2int))
        } else {
            Some((SpecTokenKind::BANG, 1int))
        }
    } else if c == '*' {
        if peek_is(s, pos + 1, '*') {
            Some((SpecTokenKind::EXPONENT, 2int))
        } else {
            Some((SpecTokenKind::ASTERISK, 1int))
        }
    } else {
        None
    }
}

/// A token model assembled from the scanning state.
pub open spec fn spec_tok(pos: int, line: int, kind: SpecTokenKind, lexeme: Seq<char>) -> SpecToken {
    SpecToken { pos: pos as nat, kind, literal: lexeme, line: line as nat }
}

/// What scanning the rest of the input produces: the remaining token models
/// together with the final cursor position and line, or the diagnostic of
/// the first invalid lexeme.
pub enum SpecLex {
    Done { toks: Seq<SpecToken>, end_pos: nat, end_line: nat },
    Failed(SpecDiagnostic),
}

/// Prepends one token to a scanning outcome; a failure discards it, since
/// the scanner aborts with an empty result.
pub open spec fn lex_cons(t: SpecToken, rest: SpecLex) -> SpecLex {
    match rest {
        SpecLex::Done { toks, end_pos, end_line } => (SpecLex::Done {
            toks: seq![t] + toks,
            end_pos,
            end_line,
        }),
        SpecLex::Failed(d) => SpecLex::Failed(d),
    }
}

/// Prepends already-produced tokens to the outcome of scanning the rest.
pub open spec fn lex_combine(acc: Seq<SpecToken>, rest: SpecLex) -> SpecLex {
    match rest {
        SpecLex::Done { toks, end_pos, end_line } => (SpecLex::Done {
            toks: acc + toks,
            end_pos,
            end_line,
        }),
        SpecLex::Failed(d) => SpecLex::Failed(d),
    }
}

/// Bounds and character classes of a digit run.
pub proof fn lemma_digits_end(s: Seq<char>, i: int)
    requires
        i <= s.len(),
    ensures
        i <= digits_end(s, i) <= s.len(),
        forall|j: int| i <= j < digits_end(s, i) ==> is_digit_char(s[j]),
        digits_end(s, i) < s.len() ==> !is_digit_char(s[digits_end(s, i)]),
    decreases s.len() - i,
{
    if i < s.len() && is_digit_char(s[i]) {
        lemma_digits_end(s, i + 1);
    }
}

/// Bounds and character classes of an identifier run.
pub proof fn lemma_ident_end(s: Seq<char>, i: int)
    requires
        i <= s.len(),
    ensures
        i <= ident_end(s, i) <= s.len(),
        forall|j: int| i <= j < ident_end(s, i) ==> s[j] != '\0' && is_ident_char(s[j]),
        ident_end(s, i) < s.len() ==> (s[ident_end(s, i)] == '\0' || !is_ident_char(
            s[ident_end(s, i)],
        )),
    decreases s.len() - i,
{
    if i < s.len() && s[i] != '\0' && is_ident_char(s[i]) {
        lemma_ident_end(s, i + 1);
    }
}

/// Bounds and character classes of a string body scan.
pub proof fn lemma_string_scan_end(s: Seq<char>, i: int)
    requires
        i <= s.len(),
    ensures
        i <= string_scan_end(s, i) <= s.len(),
        forall|j: int|
            i <= j < string_scan_end(s, i) ==> s[j] != '"' && s[j] != '\0',
        !at_end_spec(s, string_scan_end(s, i)) ==> s[string_scan_end(s, i)] == '"',
    decreases s.len() - i,
{
    if !(at_end_spec(s, i) || s[i] == '"') {
        lemma_string_scan_end(s, i + 1);
    }
}

/// Bounds and character classes of a comment skip.
pub proof fn lemma_comment_end(s: Seq<char>, i: int)
    requires
        i <= s.len(),
    ensures
        i <= comment_end(s, i) <= s.len(),
        forall|j: int| i <= j < comment_end(s, i) ==> s[j] != '\n' && s[j] != '\0',
        !at_end_spec(s, comment_end(s, i)) ==> s[comment_end(s, i)] == '\n',
    decreases s.len() - i,
{
    if !(at_end_spec(s, i) || s[i] == '\n') {
        lemma_comment_end(s, i + 1);
    }
}

/// The recursive scanner model: classify the lexeme at `pos`, emit its
/// token, and continue behind it.  Dispatch order mirrors the executable
/// scanner: whitespace, newline, string, comment, punctuation and compound
/// operators, numeric literal, identifier or keyword, and otherwise the
/// unexpected-character failure.
pub open spec fn lex_from(s: Seq<char>, pos: int, line: int) -> SpecLex
    decreases s.len() - pos,
{
    proof {
        if pos < s.len() {
            lemma_digits_end(s, pos);
            if digits_end(s, pos) + 1 <= s.len() {
                lemma_digits_end(s, digits_end(s, pos) + 1);
            }
            lemma_ident_end(s, pos);
            lemma_string_scan_end(s, pos + 1);
            lemma_comment_end(s, pos + 1);
        }
    }
    if at_end_spec(s, pos) {
        SpecLex::Done { toks: Seq::empty(), end_pos: pos as nat, end_line: line as nat }
    } else {
        let c = s[pos];
        if is_ws(c) {
            lex_from(s, pos + 1, line)
        } else if c == '\n' {
            lex_from(s, pos + 1, line + 1)
        } else if c == '"' {
            let e = string_scan_end(s, pos + 1);
            if !at_end_spec(s, e) {
                lex_cons(
                    spec_tok(
                        pos,
                        line,
                        SpecTokenKind::STRING(s.subrange(pos + 1, e)),
                        s.subrange(pos, e + 1),
                    ),
                    lex_from(s, e + 1, line),
                )
            } else {
                SpecLex::Failed(
                    SpecDiagnostic {
                        kind: LexErrorKind::UnterminatedString,
                        pos: e as nat,
                        line: line as nat,
                        lexeme: s.subrange(pos + 1, e),
                    },
                )
            }
        } else if c == '/' && peek_is(s, pos + 1, '/') {
            lex_from(s, comment_end(s, pos), line)
        } else {
            match simple_token(s, pos) {
                Some((kind, width)) => lex_cons(
                    spec_tok(pos, line, kind, s.subrange(pos, pos + width)),
                    lex_from(s, pos + width, line),
                ),
                None => if is_digit_char(c) {
                    lex_cons(
                        spec_tok(
                            pos,
                            line,
                            number_kind(s, pos),
                            s.subrange(pos, number_end(s, pos)),
                        ),
                        lex_from(s, number_end(s, pos), line),
                    )
                } else if is_ident_start(c) {
                    lex_cons(
                        spec_tok(pos, line, ident_kind(s, pos), s.subrange(pos, ident_end(s, pos))),
                        lex_from(s, ident_end(s, pos), line),
                    )
                } else {
                    SpecLex::Failed(
                        SpecDiagnostic {
                            kind: LexErrorKind::UnexpectedCharacter(c),
                            pos: pos as nat,
                            line: line as nat,
                            lexeme: Seq::empty(),
                        },
                    )
                },
            }
        }
    }
}

/// The end-of-input sentinel token.
pub open spec fn eof_token(pos: nat, line: nat) -> SpecToken {
    SpecToken { pos, kind: SpecTokenKind::EOF, literal: Seq::empty(), line }
}

/// What one whole `lex` call returns: the token sequence, or the diagnostic
/// it recorded when it aborted (with an empty token sequence).
pub enum SpecLexResult {
    Tokens(Seq<SpecToken>),
    Failed(SpecDiagnostic),
}

/// The model of a whole `lex` call on `s`: scan everything, and append one
/// end-of-input token unless no token was produced at all (empty or
/// whitespace-only input yields an empty sequence).
pub open spec fn lex_spec(s: Seq<char>) -> SpecLexResult {
    match lex_from(s, 0, 0) {
        SpecLex::Done { toks, end_pos, end_line } => SpecLexResult::Tokens(
            if toks.len() == 0 {
                toks
            } else {
                toks.push(eof_token(end_pos, end_line))
            },
        ),
        SpecLex::Failed(d) => SpecLexResult::Failed(d),
    }
}

/// Prepending tokens commutes with emitting one more.
proof fn lemma_combine_push(acc: Seq<SpecToken>, t: SpecToken, rest: SpecLex)
    ensures
        lex_combine(acc, lex_cons(t, rest)) == lex_combine(acc.push(t), rest),
{
    match rest {
        SpecLex::Done { toks, end_pos, end_line } => {
            assert(acc + (seq![t] + toks) =~= acc.push(t) + toks);
        },
        SpecLex::Failed(_) => {
        },
    }
}

/// Prepending no tokens changes nothing.
proof fn lemma_combine_empty(rest: SpecLex)
    ensures
        lex_combine(Seq::empty(), rest) == rest,
{
    match rest {
        SpecLex::Done { toks, end_pos, end_line } => {
            assert(Seq::<SpecToken>::empty() + toks =~= toks);
        },
        SpecLex::Failed(_) => {
        },
    }
}

/// An identifier may start with an alphabetic character or an underscore.
fn is_alpha(c: char) -> (b: bool)
    ensures
        b == is_ident_start(c),
        b ==> c != '\0',
{
    char_is_alphabetic(c) || c == '_'
}

/// Subsequent identifier characters may also be digits.
fn is_alphanumeric(c: char) -> (b: bool)
    ensures
        b == is_ident_char(c),
        b ==> c != '\0',
{
    is_alpha(c) || is_digit(c)
}

/// The scanner: the source text, its characters, and the diagnostic left
/// behind by an aborted scan.  One `Lexer` serves one source string; its
/// view is the character sequence of that string.
pub struct Lexer {
    input: String,
    chars: Vec<char>,
    diagnostic: Option<Diagnostic>,
}

impl View for Lexer {
    type V = Seq<char>;

    closed spec fn view(&self) -> Seq<char> {
        self.input@
    }
}

impl Lexer {
    /// The cached character vector mirrors the source string.
    pub closed spec fn wf(&self) -> bool {
        self.chars@ == self.input@
    }

    /// The diagnostic recorded by the last aborted scan, if any.
    pub closed spec fn diag(&self) -> Option<SpecDiagnostic> {
        self.diagnostic.deep_view()
    }

    /// Instantiate a new `Lexer` over one source string.
    pub fn new(input: String) -> (lx: Lexer)
        ensures
            lx.wf(),
            lx@ == input@,
            lx.diag() is None,
    {
        let n = input.as_str().unicode_len();
        let mut chars: Vec<char> = Vec::new();
        let mut i: usize = 0;
        while i < n
            invariant
                i <= n,
                n == input@.len(),
                chars@ == input@.subrange(0, i as int),
            decreases n - i,
        {
            let c = input.as_str().get_char(i);
            chars.push(c);
            proof {
                assert(chars@ =~= input@.subrange(0, i + 1 as int));
            }
            i = i + 1;
        }
        proof {
            assert(chars@ =~= input@);
        }
        Lexer { input, chars, diagnostic: None }
    }

    /// The source string this scanner was built over.
    pub fn source(&self) -> (src: &String)
        ensures
            src@ == self@,
    {
        &self.input
    }

    /// The diagnostic recorded by the last aborted scan, if any.
    pub fn diagnostic(&self) -> (d: &Option<Diagnostic>)
        ensures
            d.deep_view() == self.diag(),
    {
        &self.diagnostic
    }

    /// The cursor is past the last character or on the `'\0'` sentinel.
    fn at_end(&self, pos: usize) -> (b: bool)
        requires
            self.wf(),
        ensures
            b == at_end_spec(self@, pos as int),
    {
        pos >= self.chars.len() || self.chars[pos] == '\0'
    }

    /// Look at the character after `pos` without consuming it.
    fn peek_equals(&self, pos: usize, c: char) -> (b: bool)
        requires
            self.wf(),
            pos < self@.len(),
        ensures
            b == peek_is(self@, pos as int + 1, c),
    {
        let n = self.chars.len();
        pos + 1 < n && self.chars[pos + 1] == c
    }

    /// The first index at or after `from` that ends a digit run.
    fn digit_run_end(&self, from: usize) -> (e: usize)
        requires
            self.wf(),
            from <= self@.len(),
        ensures
            e as int == digits_end(self@, from as int),
            from <= e <= self@.len(),
    {
        let n = self.chars.len();
        let mut end = from;
        while end < n && is_digit(self.chars[end])
            invariant
                self.wf(),
                from <= end <= n,
                n == self@.len(),
                digits_end(self@, from as int) == digits_end(self@, end as int),
            decreases n - end,
        {
            end = end + 1;
        }
        proof {
            lemma_digits_end(self@, from as int);
        }
        end
    }

    /// The value of the digit run in `[start, end)`.
    fn digits_value(&self, start: usize, end: usize) -> (v: usize)
        requires
            self.wf(),
            start <= end <= self@.len(),
            forall|j: int| start <= j < end ==> is_digit_char(self@[j]),
            digit_runs_fit(self@),
        ensures
            v as nat == digits_val_seq(self@.subrange(start as int, end as int)),
    {
        let ghost s = self@;
        let mut v: usize = 0;
        let mut i = start;
        proof {
            assert(s.subrange(start as int, start as int) =~= Seq::<char>::empty());
        }
        while i < end
            invariant
                self.wf(),
                s == self@,
                start <= i <= end <= s.len(),
                forall|j: int| start <= j < end ==> is_digit_char(s[j]),
                digit_runs_fit(s),
                v as nat == digits_val_seq(s.subrange(start as int, i as int)),
            decreases end - i,
        {
            let c = self.chars[i];
            proof {
                assert(c == s[i as int]);
                assert(is_digit_char(c));
            }
            let u = c as u32;
            let d = (u - 48) as usize;
            proof {
                assert(48 <= u <= 57);
                assert(d as int == c as u32 - 48);
                let sub = s.subrange(start as int, i as int);
                let sub1 = s.subrange(start as int, i as int + 1);
                assert(sub1.drop_last() =~= sub);
                assert(sub1.last() == s[i as int]);
                assert(digits_val_seq(sub1) == digits_val_seq(sub) * 10 + digit_val(s[i as int]));
                assert(all_digits(sub1));
                assert(digits_val_seq(sub1) <= usize::MAX);
                assert(d == digit_val(s[i as int]));
            }
            v = v * 10 + d;
            i = i + 1;
        }
        v
    }

    /// Whether every digit run of the source denotes a value that fits in
    /// `usize` — the one demand [`Lexer::lex`] makes of its input, since an
    /// unrepresentable numeric literal is a fatal fault rather than a
    /// lexical error.  Callers that cannot know their input test this
    /// first.
    pub fn digits_fit(&self) -> (b: bool)
        requires
            self.wf(),
        ensures
            b == digit_runs_fit(self@),
    {
        let ghost s = self@;
        let n = self.chars.len();
        let mut i: usize = 0;
        while i < n
            invariant
                self.wf(),
                s == self@,
                i <= n,
                n == s.len(),
                runs_fit_upto(s, i as int),
                i == 0 || i == n || !is_digit_char(s[i - 1]) || !is_digit_char(s[i as int]),
            decreases n - i,
        {
            let c = self.chars[i];
            if is_digit(c) {
                let rs = i;
                let e = self.digit_run_end(rs);
                proof {
                    lemma_digits_end(s, rs as int);
                }
                let mut v: usize = 0;
                let mut j = rs;
                proof {
                    assert(s.subrange(rs as int, rs as int) =~= Seq::<char>::empty());
                }
                while j < e
                    invariant
                        self.wf(),
                        s == self@,
                        rs <= j <= e <= n,
                        n == s.len(),
                        rs == 0 || !is_digit_char(s[rs - 1]),
                        forall|k: int| rs <= k < e ==> is_digit_char(#[trigger] s[k]),
                        e == n || !is_digit_char(s[e as int]),
                        runs_fit_upto(s, rs as int),
                        v as nat == digits_val_seq(s.subrange(rs as int, j as int)),
                    decreases e - j,
                {
                    let cj = self.chars[j];
                    proof {
                        assert(is_digit_char(cj));
                    }
                    let d = (cj as u32 - 48) as usize;
                    proof {
                        let sub = s.subrange(rs as int, j as int);
                        let sub1 = s.subrange(rs as int, j as int + 1);
                        assert(sub1.drop_last() =~= sub);
                        assert(sub1.last() == s[j as int]);
                        assert(digits_val_seq(sub1) == digits_val_seq(sub) * 10 + digit_val(
                            s[j as int],
                        ));
                        assert(d == digit_val(s[j as int]));
                    }
                    if v > (usize::MAX - d) / 10 {
                        proof {
                            let sub1 = s.subrange(rs as int, j as int + 1);
                            assert(v * 10 + d > usize::MAX) by (nonlinear_arith)
                                requires
                                    v > (usize::MAX - d) / 10,
                                    0 <= d <= 9,
                            ;
                            assert(all_digits(sub1));
                            assert(digits_val_seq(sub1) > usize::MAX);
                            assert(!digit_runs_fit(s));
                        }
                        return false;
                    }
                    proof {
                        assert(v * 10 + d <= usize::MAX) by (nonlinear_arith)
                            requires
                                v <= (usize::MAX - d) / 10,
                                0 <= d <= 9,
                        ;
                    }
                    v = v * 10 + d;
                    j = j + 1;
                }
                proof {
                    assert forall|a: int, b: int|
                        0 <= a <= b <= e as int && b <= s.len() && all_digits(
                            #[trigger] s.subrange(a, b),
                        ) implies digits_val_seq(s.subrange(a, b)) <= usize::MAX by {
                        if b <= rs as int {
                            assert(runs_fit_upto(s, rs as int));
                        } else {
                            if a < rs as int {
                                assert(s.subrange(a, b)[rs - 1 - a] == s[rs - 1]);
                                assert(false);
                            }
                            lemma_dvs_extend_right(s, a, b, e as int);
                            lemma_dvs_extend_left(s, rs as int, a, e as int);
                            assert(digits_val_seq(s.subrange(rs as int, e as int)) <= usize::MAX);
                        }
                    }
                    assert(runs_fit_upto(s, e as int));
                }
                i = e;
            } else {
                i = i + 1;
            }
        }
        proof {
            assert(runs_fit_upto(s, n as int));
        }
        true
    }

    /// Scan the numeric literal that starts at `start`: a run of digits,
    /// continued past a dot only when another digit follows it.  Returns the
    /// kind, the lexeme, and the cursor position behind the literal.
    fn number(&self, start: usize) -> (r: (TokenKind, String, usize))
        requires
            self.wf(),
            start < self@.len(),
            is_digit_char(self@[start as int]),
            digit_runs_fit(self@),
        ensures
            r.2 as int == number_end(self@, start as int),
            start < r.2 <= self@.len(),
            r.0.deep_view() == number_kind(self@, start as int),
            r.1@ == self@.subrange(start as int, r.2 as int),
    {
        let ghost s = self@;
        let n = self.chars.len();
        let de = self.digit_run_end(start);
        proof {
            lemma_digits_end(s, start as int);
        }
        let int_part = self.digits_value(start, de);
        if de < n && self.chars[de] == '.' && de + 1 < n && is_digit(self.chars[de + 1]) {
            let fe = self.digit_run_end(de + 1);
            proof {
                lemma_digits_end(s, de + 1 as int);
            }
            let frac_part = self.digits_value(de + 1, fe);
            let literal = self.input.as_str().substring_char(start, fe).to_owned();
            (
                TokenKind::FLOAT { int_part, frac_part, frac_digits: fe - (de + 1) },
                literal,
                fe,
            )
        } else {
            let literal = self.input.as_str().substring_char(start, de).to_owned();
            (TokenKind::INTEGER(int_part), literal, de)
        }
    }

    /// Scan the string literal whose opening quote sits at `start`.  On
    /// success returns the kind (carrying the decoded content), the quoted
    /// lexeme, and the cursor position behind the closing quote; when the
    /// input ends first, records the unterminated-string diagnostic and
    /// returns nothing.
    fn string(&mut self, start: usize, line: usize) -> (r: Option<(TokenKind, String, usize)>)
        requires
            old(self).wf(),
            start < old(self)@.len(),
            old(self)@[start as int] == '"',
        ensures
            final(self).wf(),
            final(self)@ == old(self)@,
            ({
                let s = old(self)@;
                let e = string_scan_end(s, start as int + 1);
                match r {
                    Some((kind, literal, npos)) => {
                        &&& !at_end_spec(s, e)
                        &&& kind.deep_view() == SpecTokenKind::STRING(s.subrange(start as int + 1, e))
                        &&& literal@ == s.subrange(start as int, e + 1)
                        &&& npos as int == e + 1
                        &&& start < npos <= s.len()
                        &&& final(self).diag() == old(self).diag()
                    },
                    None => {
                        &&& at_end_spec(s, e)
                        &&& final(self).diag() == Some(
                            SpecDiagnostic {
                                kind: LexErrorKind::UnterminatedString,
                                pos: e as nat,
                                line: line as nat,
                                lexeme: s.subrange(start as int + 1, e),
                            },
                        )
                    },
                }
            }),
    {
        let ghost s = self@;
        let n = self.chars.len();
        let mut e = start + 1;
        while e < n && self.chars[e] != '"' && self.chars[e] != '\0'
            invariant
                self.wf(),
                s == self@,
                self.diagnostic == old(self).diagnostic,
                start + 1 <= e <= n,
                n == s.len(),
                string_scan_end(s, start as int + 1) == string_scan_end(s, e as int),
            decreases n - e,
        {
            e = e + 1;
        }
        proof {
            lemma_string_scan_end(s, start as int + 1);
        }
        if e < n && self.chars[e] == '"' {
            let content = self.input.as_str().substring_char(start + 1, e).to_owned();
            let literal = self.input.as_str().substring_char(start, e + 1).to_owned();
            Some((TokenKind::STRING(content), literal, e + 1))
        } else {
            let content = self.input.as_str().substring_char(start + 1, e).to_owned();
            self.diagnostic = Some(
                Diagnostic { kind: LexErrorKind::UnterminatedString, pos: e, line, lexeme: content },
            );
            None
        }
    }

    /// Scan the identifier that starts at `start` and reclassify it through
    /// the keyword table.  Returns the kind, the collected name, and the
    /// cursor position behind it.
    fn identifier(&self, start: usize) -> (r: (TokenKind, String, usize))
        requires
            self.wf(),
            start < self@.len(),
            self@[start as int] != '\0',
            is_ident_start(self@[start as int]),
        ensures
            r.2 as int == ident_end(self@, start as int),
            start < r.2 <= self@.len(),
            r.0.deep_view() == ident_kind(self@, start as int),
            r.1@ == self@.subrange(start as int, r.2 as int),
    {
        let ghost s = self@;
        let n = self.chars.len();
        let mut end = start;
        while end < n && is_alphanumeric(self.chars[end])
            invariant
                self.wf(),
                s == self@,
                start <= end <= n,
                n == s.len(),
                ident_end(s, start as int) == ident_end(s, end as int),
            decreases n - end,
        {
            end = end + 1;
        }
        proof {
            lemma_ident_end(s, start as int);
        }
        let name = self.input.as_str().substring_char(start, end).to_owned();
        let kind = match keyword_lookup(name.as_str()) {
            Some(k) => k,
            None => TokenKind::IDENTIFIER(name.clone()),
        };
        (kind, name, end)
    }

    /// Discard the line comment that starts at `start`, up to (not
    /// including) the next newline or the end of the input.
    fn skip_comment(&self, start: usize) -> (e: usize)
        requires
            self.wf(),
            start <= self@.len(),
        ensures
            e as int == comment_end(self@, start as int),
            start <= e <= self@.len(),
    {
        let n = self.chars.len();
        let mut e = start;
        while e < n && self.chars[e] != '\n' && self.chars[e] != '\0'
            invariant
                self.wf(),
                start <= e <= n,
                n == self@.len(),
                comment_end(self@, start as int) == comment_end(self@, e as int),
            decreases n - e,
        {
            e = e + 1;
        }
        e
    }

    /// Classify the punctuation or compound operator at `pos`, together
    /// with how many characters it consumes.
    fn simple_token_at(&self, pos: usize) -> (r: Option<(TokenKind, usize)>)
        requires
            self.wf(),
            pos < self@.len(),
        ensures
            (match r {
                Some((kind, width)) => {
                    &&& simple_token(self@, pos as int) == Some((kind.deep_view(), width as int))
                    &&& 1 <= width
                    &&& pos + width <= self@.len()
                },
                None => simple_token(self@, pos as int) is None,
            }),
    {
        let c = self.chars[pos];
        if c == '+' {
            Some((TokenKind::PLUS, 1))
        } else if c == '-' {
            Some((TokenKind::MINUS, 1))
        } else if c == ',' {
            Some((TokenKind::COMMA, 1))
        } else if c == ';' {
            Some((TokenKind::SEMICOLON, 1))
        } else if c == '/' {
            Some((TokenKind::SLASH, 1))
        } else if c == '.' {
            Some((TokenKind::DOT, 1))
        } else if c == '(' {
            Some((TokenKind::OPENPAREN, 1))
        } else if c == ')' {
            Some((TokenKind::CLOSEPAREN, 1))
        } else if c == '{' {
            Some((TokenKind::RIGHTBRACE, 1))
        } else if c == '}' {
            Some((TokenKind::LEFTBRACE, 1))
        } else if c == '%' {
            Some((TokenKind::MOD, 1))
        } else if c == '=' {
            Some((TokenKind::EQUAL, 1))
        } else if c == '<' {
            if self.peek_equals(pos, '=') {
                Some((TokenKind::LESSTHANEQUAL, 2))
            } else {
                Some((TokenKind::LESSTHAN, 1))
            }
        } else if c == '>' {
            if self.peek_equals(pos, '=') {
                Some((TokenKind::GREATERTHANEQUAL, 2))
            } else {
                Some((TokenKind::GREATERTHAN, 1))
            }
        } else if c == '!' {
            if self.peek_equals(pos, '=') {
                Some((TokenKind::BANGEQUAL, 2))
            } else {
                Some((TokenKind::BANG, 1))
            }
        } else if c == '*' {
            if self.peek_equals(pos, '*') {
                Some((TokenKind::EXPONENT, 2))
            } else {
                Some((TokenKind::ASTERISK, 1))
            }
        } else {
            None
        }
    }

    /// Eagerly drain the whole input into a token sequence, terminated by
    /// one end-of-input token when any token was produced.  On the first
    /// invalid lexeme the scan aborts: it records the diagnostic, discards
    /// every token collected so far, and returns an empty sequence.
    #[verifier::loop_isolation(false)]
    pub fn lex(&mut self) -> (tokens: Vec<Token>)
        requires
            old(self).wf(),
            digit_runs_fit(old(self)@),
        ensures
            final(self).wf(),
            final(self)@ == old(self)@,
            (match lex_spec(old(self)@) {
                SpecLexResult::Tokens(ts) => tokens.deep_view() == ts && final(self).diag()
                    is None,
                SpecLexResult::Failed(d) => tokens@.len() == 0 && final(self).diag() == Some(d),
            }),
    {
        let ghost s = old(self)@;
        self.diagnostic = None;
        let mut tokens: Vec<Token> = Vec::new();
        if self.chars.len() == 0 {
            proof {
                assert(tokens.deep_view() =~= Seq::<SpecToken>::empty());
            }
            return tokens;
        }
        let mut pos: usize = 0;
        let mut line: usize = 0;
        proof {
            lemma_combine_empty(lex_from(s, 0, 0));
            assert(tokens.deep_view() =~= Seq::<SpecToken>::empty());
        }
        while !self.at_end(pos)
            invariant
                self.wf(),
                self@ == s,
                self.diag() is None,
                digit_runs_fit(s),
                pos <= s.len(),
                line <= pos,
                lex_from(s, 0, 0) == lex_combine(
                    tokens.deep_view(),
                    lex_from(s, pos as int, line as int),
                ),
            decreases s.len() - pos,
        {
            let c = self.chars[pos];
            if c == ' ' || c == '\t' || c == '\r' {
                pos = pos + 1;
            } else if c == '\n' {
                line = line + 1;
                pos = pos + 1;
            } else if c == '"' {
                match self.string(pos, line) {
                    Some((kind, literal, npos)) => {
                        let ghost pre = tokens.deep_view();
                        let t = Token { pos, kind, literal, line };
                        tokens.push(t);
                        proof {
                            assert(tokens.deep_view() =~= pre.push(t.deep_view()));
                            lemma_combine_push(
                                pre,
                                t.deep_view(),
                                lex_from(s, npos as int, line as int),
                            );
                        }
                        pos = npos;
                    },
                    None => {
                        return Vec::new();
                    },
                }
            } else if c == '/' && self.peek_equals(pos, '/') {
                proof {
                    lemma_comment_end(s, pos as int + 1);
                }
                pos = self.skip_comment(pos);
            } else {
                match self.simple_token_at(pos) {
                    Some((kind, width)) => {
                        let literal = self.input.as_str().substring_char(pos, pos + width)
                            .to_owned();
                        let ghost pre = tokens.deep_view();
                        let t = Token { pos, kind, literal, line };
                        tokens.push(t);
                        proof {
                            assert(tokens.deep_view() =~= pre.push(t.deep_view()));
                            lemma_combine_push(
                                pre,
                                t.deep_view(),
                                lex_from(s, pos + width as int, line as int),
                            );
                        }
                        pos = pos + width;
                    },
                    None => {
                        if is_digit(c) {
                            let (kind, literal, npos) = self.number(pos);
                            let ghost pre = tokens.deep_view();
                            let t = Token { pos, kind, literal, line };
                            tokens.push(t);
                            proof {
                                assert(tokens.deep_view() =~= pre.push(t.deep_view()));
                                lemma_combine_push(
                                    pre,
                                    t.deep_view(),
                                    lex_from(s, npos as int, line as int),
                                );
                            }
                            pos = npos;
                        } else if is_alpha(c) {
                            let (kind, literal, npos) = self.identifier(pos);
                            let ghost pre = tokens.deep_view();
                            let t = Token { pos, kind, literal, line };
                            tokens.push(t);
                            proof {
                                assert(tokens.deep_view() =~= pre.push(t.deep_view()));
                                lemma_combine_push(
                                    pre,
                                    t.deep_view(),
                                    lex_from(s, npos as int, line as int),
                                );
                            }
                            pos = npos;
                        } else {
                            self.diagnostic = Some(
                                Diagnostic {
                                    kind: LexErrorKind::UnexpectedCharacter(c),
                                    pos,
                                    line,
                                    lexeme: String::new(),
                                },
                            );
                            return Vec::new();
                        }
                    },
                }
            }
        }
        proof {
            assert(tokens.deep_view() + Seq::<SpecToken>::empty() =~= tokens.deep_view());
        }
        if tokens.len() > 0 {
            let ghost pre = tokens.deep_view();
            let t = Token { pos, kind: TokenKind::EOF, literal: String::new(), line };
            tokens.push(t);
            proof {
                assert(tokens.deep_view() =~= pre.push(t.deep_view()));
                assert(t.deep_view() == eof_token(pos as nat, line as nat));
            }
        }
        tokens
    }
}

} // verus!
