//! The diagnostic a failed scan leaves behind, its model, and the verified
//! formatter that renders the human-readable report: a two-digit line
//! gutter, the offending source line, and a caret marker under the
//! offending lexeme.  Printing is the caller's business; everything here is
//! pure string building.

use vstd::prelude::*;
use vstd::string::{StrSliceExecFns, StringExecFns};

use crate::text::{dec_digits, decimal_string, push_char, repeat_char, repeated};

verus! {

/// The two user-input errors the scanner can detect.
#[derive(Debug, Clone, PartialEq, Eq)]
pub enum LexErrorKind {
    /// An opening quote with no matching closing quote before end of input.
    UnterminatedString,
    /// A character that starts none of the recognized lexeme classes.
    UnexpectedCharacter(char),
}

/// What the scanner records when it aborts: the error, the cursor position
/// (a character offset from the start of the input) and line at the moment
/// of detection, and the offending lexeme collected so far (the partial
/// string content for an unterminated string, empty for an unexpected
/// character).
#[derive(Debug, Clone, PartialEq, Eq)]
pub struct Diagnostic {
    pub kind: LexErrorKind,
    pub pos: usize,
    pub line: usize,
    pub lexeme: String,
}

/// The model of a diagnostic.
pub struct SpecDiagnostic {
    pub kind: LexErrorKind,
    pub pos: nat,
    pub line: nat,
    pub lexeme: Seq<char>,
}

impl DeepView for Diagnostic {
    type V = SpecDiagnostic;

    open spec fn deep_view(&self) -> SpecDiagnostic {
        SpecDiagnostic {
            kind: self.kind,
            pos: self.pos as nat,
            line: self.line as nat,
            lexeme: self.lexeme@,
        }
    }
}

/// The one-line message of an error.
pub open spec fn spec_message(kind: LexErrorKind) -> Seq<char> {
    match kind {
        LexErrorKind::UnterminatedString => "unterminated string"@,
        LexErrorKind::UnexpectedCharacter(c) => "unexpected character '"@ + seq![c] + "'"@,
    }
}

/// The explanatory description of an error.
pub open spec fn spec_description(kind: LexErrorKind) -> Seq<char> {
    match kind {
        LexErrorKind::UnterminatedString => "string literals must be terminated with '\"'"@,
        LexErrorKind::UnexpectedCharacter(_) => (
        "expected a valid character, such as a number, operator, or parenthesis"@),
    }
}

/// The line-number gutter, zero-padded to two digits.
pub open spec fn spec_gutter(line: nat) -> Seq<char> {
    if line < 10 {
        seq!['0'] + dec_digits(line)
    } else {
        dec_digits(line)
    }
}

/// The blanks that push the caret marker under the offending lexeme: the
/// cursor position minus the lexeme length (clamped to the start of the
/// line when that would underflow), plus the five columns the gutter takes.
pub open spec fn spec_caret_pad(pos: nat, lexeme_len: nat) -> Seq<char> {
    repeated(' ', if pos >= lexeme_len {
        (pos - lexeme_len) as nat
    } else {
        0
    }) + "     "@
}

/// The caret marker itself: one caret per lexeme character when the lexeme
/// has more than one, else a single caret.
pub open spec fn spec_carets(lexeme_len: nat) -> Seq<char> {
    if lexeme_len > 1 {
        seq![' '] + repeated('^', lexeme_len)
    } else {
        seq!['^']
    }
}

/// The structured first report line: the message, the cursor position, the
/// whole source text, and the logical line number.
pub open spec fn spec_header(d: SpecDiagnostic, source: Seq<char>) -> Seq<char> {
    spec_message(d.kind) + " at pos '"@ + dec_digits(d.pos) + "' of '"@ + source + "' on line "@
        + dec_digits(d.line) + ":\n"@
}

/// The rendered report block: colored gutter and source line, then the
/// caret marker line with the message, then the description.
pub open spec fn spec_render(d: SpecDiagnostic, source: Seq<char>) -> Seq<char> {
    "\x1b[96m"@ + spec_gutter(d.line) + " |"@ + "\x1b[0m"@ + " "@ + source + "\n"@ + "\x1b[91m"@
        + spec_caret_pad(d.pos, d.lexeme.len()) + spec_carets(d.lexeme.len()) + " "@
        + spec_message(d.kind) + "\x1b[0m"@ + "\n\n"@ + spec_description(d.kind) + "\n"@
}

impl Diagnostic {
    /// The one-line message of this error.
    pub fn message(&self) -> (r: String)
        ensures
            r@ == spec_message(self.deep_view().kind),
    {
        match &self.kind {
            LexErrorKind::UnterminatedString => String::from_str("unterminated string"),
            LexErrorKind::UnexpectedCharacter(c) => {
                let mut r = String::from_str("unexpected character '");
                push_char(&mut r, *c);
                r.append("'");
                proof {
                    assert(r@ =~= spec_message(self.deep_view().kind));
                }
                r
            },
        }
    }

    /// The explanatory description of this error.
    pub fn description(&self) -> (r: String)
        ensures
            r@ == spec_description(self.deep_view().kind),
    {
        match &self.kind {
            LexErrorKind::UnterminatedString => String::from_str(
                "string literals must be terminated with '\"'",
            ),
            LexErrorKind::UnexpectedCharacter(_) => String::from_str(
                "expected a valid character, such as a number, operator, or parenthesis",
            ),
        }
    }

    /// Render the structured first report line against the source text the
    /// scan ran over.
    pub fn header_line(&self, source: &str) -> (r: String)
        ensures
            r@ == spec_header(self.deep_view(), source@),
    {
        let mut r = self.message();
        r.append(" at pos '");
        let pos_str = decimal_string(self.pos);
        r.append(pos_str.as_str());
        r.append("' of '");
        r.append(source);
        r.append("' on line ");
        let line_str = decimal_string(self.line);
        r.append(line_str.as_str());
        r.append(":\n");
        proof {
            assert(r@ =~= spec_header(self.deep_view(), source@));
        }
        r
    }

    /// Render the report block against the source text the scan ran over.
    pub fn render(&self, source: &str) -> (r: String)
        ensures
            r@ == spec_render(self.deep_view(), source@),
    {
        let lexeme_len = self.lexeme.as_str().unicode_len();
        let mut r = String::from_str("\x1b[96m");
        let line_str = decimal_string(self.line);
        if self.line < 10 {
            r.append("0");
        }
        r.append(line_str.as_str());
        r.append(" |");
        r.append("\x1b[0m");
        r.append(" ");
        r.append(source);
        r.append("\n");
        r.append("\x1b[91m");
        let blanks = repeat_char(
            ' ',
            if self.pos >= lexeme_len {
                self.pos - lexeme_len
            } else {
                0
            },
        );
        r.append(blanks.as_str());
        r.append("     ");
        if lexeme_len > 1 {
            r.append(" ");
            let carets = repeat_char('^', lexeme_len);
            r.append(carets.as_str());
        } else {
            r.append("^");
        }
        r.append(" ");
        let msg = self.message();
        r.append(msg.as_str());
        r.append("\x1b[0m");
        r.append("\n\n");
        let desc = self.description();
        r.append(desc.as_str());
        r.append("\n");
        proof {
            assert(spec_gutter(self.deep_view().line) == if self.line < 10 {
                seq!['0'] + dec_digits(self.line as nat)
            } else {
                dec_digits(self.line as nat)
            });
            assert("0"@ =~= seq!['0']) by {
                reveal_strlit("0");
            }
            assert("^"@ =~= seq!['^']) by {
                reveal_strlit("^");
            }
            assert(" "@ =~= seq![' ']) by {
                reveal_strlit(" ");
            }
            assert(r@ =~= spec_render(self.deep_view(), source@));
        }
        r
    }
}

} // verus!
