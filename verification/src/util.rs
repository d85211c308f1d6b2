//! Command-line argument parsing: a pure, verified classification of the
//! argument vector.  Printing the help text and exiting stay with the
//! caller; the parser only reports that help was requested.
//!
//! Arguments are examined character-wise; the flags are ASCII, so byte
//! and character positions agree on every input of interest.

use vstd::prelude::*;
use vstd::string::{StrSliceExecFns, StringExecFns};

use crate::lexer::{all_digits, digits_val_seq};
use crate::logger::{DEBUG, NONE};
use crate::text::{digit_val, is_digit, is_digit_char, str_eq};

verus! {

/// Whether the program runs the interactive prompt or a file pipeline.
#[derive(Debug, PartialEq, Eq)]
pub enum RunMode {
    Repl,
    File,
}

/// The parsed command-line arguments.
#[derive(Debug)]
pub struct Arguments {
    pub loglevel: u8,
    pub mode: RunMode,
    pub in_file_path: Option<String>,
    pub out_file_path: Option<String>,
}

/// The model of parsed arguments.
pub struct SpecArguments {
    pub loglevel: u8,
    pub mode: RunMode,
    pub in_file: Option<Seq<char>>,
    pub out_file: Option<Seq<char>>,
}

impl DeepView for Arguments {
    type V = SpecArguments;

    open spec fn deep_view(&self) -> SpecArguments {
        SpecArguments {
            loglevel: self.loglevel,
            mode: self.mode,
            in_file: self.in_file_path.deep_view(),
            out_file: self.out_file_path.deep_view(),
        }
    }
}

/// The arguments a bare invocation gets: warn-level logging, prompt mode,
/// no files.
pub open spec fn spec_default_arguments() -> SpecArguments {
    SpecArguments { loglevel: 1, mode: RunMode::Repl, in_file: None, out_file: None }
}

impl Default for Arguments {
    /// The arguments a bare invocation gets.
    fn default() -> (a: Arguments)
        ensures
            a.deep_view() == spec_default_arguments(),
    {
        Arguments { loglevel: 1, mode: RunMode::Repl, in_file_path: None, out_file_path: None }
    }
}

/// What `u8` parsing accepts: an optional leading plus sign, then at least
/// one decimal digit, denoting a value of at most 255.
pub open spec fn spec_parse_u8(s: Seq<char>) -> Option<u8> {
    let digits = if s.len() > 0 && s[0] == '+' {
        s.subrange(1, s.len() as int)
    } else {
        s
    };
    if digits.len() > 0 && all_digits(digits) && digits_val_seq(digits) <= 255 {
        Some(digits_val_seq(digits) as u8)
    } else {
        None
    }
}

/// Verified decimal `u8` parsing.
#[verifier::loop_isolation(false)]
fn parse_u8(s: &str) -> (r: Option<u8>)
    ensures
        r == spec_parse_u8(s@),
{
    let ghost digits = if s@.len() > 0 && s@[0] == '+' {
        s@.subrange(1, s@.len() as int)
    } else {
        s@
    };
    let n = s.unicode_len();
    let start: usize = if n > 0 && s.get_char(0) == '+' {
        1
    } else {
        0
    };
    proof {
        assert(digits =~= s@.subrange(start as int, n as int));
    }
    if n == start {
        return None;
    }
    let mut v: u32 = 0;
    let mut i = start;
    proof {
        assert(s@.subrange(start as int, start as int) =~= Seq::<char>::empty());
    }
    while i < n
        invariant
            start <= i <= n,
            n == s@.len(),
            forall|k: int| start <= k < i ==> is_digit_char(#[trigger] s@[k]),
            (v <= 255 && v as nat == digits_val_seq(s@.subrange(start as int, i as int))) || (255
                < v <= 2560 && digits_val_seq(s@.subrange(start as int, i as int)) > 255),
            digits == s@.subrange(start as int, n as int),
        decreases n - i,
    {
        let c = s.get_char(i);
        if !is_digit(c) {
            proof {
                assert(digits[i - start] == s@[i as int]);
                assert(!all_digits(digits));
            }
            return None;
        }
        let u = c as u32;
        let d = u - 48;
        proof {
            let sub = s@.subrange(start as int, i as int);
            let sub1 = s@.subrange(start as int, i as int + 1);
            assert(sub1.drop_last() =~= sub);
            assert(sub1.last() == s@[i as int]);
            assert(digits_val_seq(sub1) == digits_val_seq(sub) * 10 + digit_val(s@[i as int]));
            assert(d == digit_val(s@[i as int]));
        }
        v = if v > 255 {
            256
        } else {
            v * 10 + d
        };
        i = i + 1;
    }
    proof {
        assert(all_digits(digits));
    }
    if v <= 255 {
        Some(v as u8)
    } else {
        None
    }
}

/// The index of the last occurrence of `c` in `s`, or `-1`.
pub open spec fn last_index_of(s: Seq<char>, c: char) -> int
    decreases s.len(),
{
    if s.len() == 0 {
        -1
    } else if s[s.len() - 1] == c {
        s.len() - 1
    } else {
        last_index_of(s.drop_last(), c)
    }
}

/// What characterizes the last occurrence.
proof fn lemma_last_index_of(s: Seq<char>, c: char)
    ensures
        -1 <= last_index_of(s, c) < s.len(),
        last_index_of(s, c) >= 0 ==> s[last_index_of(s, c)] == c,
        forall|k: int| last_index_of(s, c) < k < s.len() ==> s[k] != c,
    decreases s.len(),
{
    if s.len() > 0 && s[s.len() - 1] != c {
        lemma_last_index_of(s.drop_last(), c);
        assert forall|k: int| last_index_of(s, c) < k < s.len() implies s[k] != c by {
            if k < s.len() - 1 {
                assert(s.drop_last()[k] == s[k]);
            }
        }
    }
}

/// The text after the last occurrence of `c` (everything, when `c` does
/// not occur).
pub open spec fn spec_after_last(s: Seq<char>, c: char) -> Seq<char> {
    s.subrange(last_index_of(s, c) + 1, s.len() as int)
}

/// Verified search for the last occurrence of a character.
#[verifier::loop_isolation(false)]
fn find_last(s: &str, c: char) -> (r: Option<usize>)
    ensures
        (match r {
            Some(idx) => last_index_of(s@, c) == idx as int,
            None => last_index_of(s@, c) == -1,
        }),
{
    proof {
        lemma_last_index_of(s@, c);
    }
    let n = s.unicode_len();
    let mut j = n;
    while j > 0
        invariant
            j <= n,
            forall|k: int| j <= k < n ==> s@[k] != c,
        decreases j,
    {
        if s.get_char(j - 1) == c {
            return Some(j - 1);
        }
        j = j - 1;
    }
    None
}

/// How one whole argument vector is interpreted: either a help request
/// (short on an unrecognized option, long on an explicit `--help`/`-h`), or
/// the parsed arguments.
pub enum SpecParse {
    Help { short: bool },
    Done(SpecArguments),
}

/// The interpretation of the arguments from position `k` on, threading the
/// settings collected so far.  A too-short argument or a malformed `-L`
/// value stops parsing and keeps what was collected; a later input file
/// replaces an earlier one.
pub open spec fn spec_parse_from(args: Seq<Seq<char>>, k: int, cur: SpecArguments) -> SpecParse
    decreases args.len() - k,
{
    if k < 0 || k >= args.len() {
        SpecParse::Done(cur)
    } else {
        let a = args[k];
        if a == "--help"@ || a == "-h"@ {
            SpecParse::Help { short: false }
        } else if a.len() < 2 {
            SpecParse::Done(cur)
        } else if a.subrange(0, 2) == "-L"@ {
            let rest = a.subrange(2, a.len() as int);
            if rest == "none"@ {
                spec_parse_from(
                    args,
                    k + 1,
                    SpecArguments {
                        loglevel: 0,
                        mode: cur.mode,
                        in_file: cur.in_file,
                        out_file: cur.out_file,
                    },
                )
            } else if rest == "debug"@ {
                spec_parse_from(
                    args,
                    k + 1,
                    SpecArguments {
                        loglevel: 3,
                        mode: cur.mode,
                        in_file: cur.in_file,
                        out_file: cur.out_file,
                    },
                )
            } else {
                match spec_parse_u8(rest) {
                    Some(v) => spec_parse_from(
                        args,
                        k + 1,
                        SpecArguments {
                            loglevel: v,
                            mode: cur.mode,
                            in_file: cur.in_file,
                            out_file: cur.out_file,
                        },
                    ),
                    None => SpecParse::Done(cur),
                }
            }
        } else if a.subrange(0, 2) == "-o"@ {
            if last_index_of(a, '=') >= 0 {
                spec_parse_from(
                    args,
                    k + 1,
                    SpecArguments {
                        loglevel: cur.loglevel,
                        mode: cur.mode,
                        in_file: cur.in_file,
                        out_file: Some(spec_after_last(a, '=')),
                    },
                )
            } else {
                spec_parse_from(args, k + 1, cur)
            }
        } else if a[0] == '-' {
            SpecParse::Help { short: true }
        } else {
            spec_parse_from(
                args,
                k + 1,
                SpecArguments {
                    loglevel: cur.loglevel,
                    mode: RunMode::File,
                    in_file: Some(a),
                    out_file: cur.out_file,
                },
            )
        }
    }
}

/// The interpretation of a whole argument vector (the first entry is the
/// process name and carries no setting).
pub open spec fn spec_parse_arguments(args: Seq<Seq<char>>) -> SpecParse {
    if args.len() <= 1 {
        SpecParse::Done(spec_default_arguments())
    } else {
        spec_parse_from(args, 1, spec_default_arguments())
    }
}

/// What the caller should do with the command line: print a help text and
/// stop, or run with the parsed arguments.
pub enum CliAction {
    Help { short: bool },
    Run(Arguments),
}

/// Classify the whole command line.  The caller handles a help request;
/// printing the usage text and exiting is its business, not the parser's.
#[verifier::loop_isolation(false)]
pub fn parse_cli(args: &Vec<String>) -> (r: CliAction)
    ensures
        (match r {
            CliAction::Help { short } => spec_parse_arguments(args.deep_view())
                == (SpecParse::Help { short }),
            CliAction::Run(a) => spec_parse_arguments(args.deep_view()) == SpecParse::Done(
                a.deep_view(),
            ),
        }),
{
    let ghost argv = args.deep_view();
    let mut cur = Arguments::default();
    if args.len() <= 1 {
        return CliAction::Run(cur);
    }
    let mut k: usize = 1;
    while k < args.len()
        invariant
            1 <= k <= argv.len(),
            spec_parse_arguments(argv) == spec_parse_from(argv, k as int, cur.deep_view()),
        decreases args.len() - k,
    {
        let arg: &String = &args[k];
        proof {
            assert(argv[k as int] == arg@);
            reveal_strlit("-L");
            reveal_strlit("-o");
            assert(("-L"@).len() == 2 && ("-L"@)[0] == '-' && ("-L"@)[1] == 'L');
            assert(("-o"@).len() == 2 && ("-o"@)[0] == '-' && ("-o"@)[1] == 'o');
        }
        let arg_s = arg.as_str();
        let alen = arg_s.unicode_len();
        if str_eq(arg_s, "--help") || str_eq(arg_s, "-h") {
            return CliAction::Help { short: false };
        } else if alen < 2 {
            return CliAction::Run(cur);
        } else if arg_s.get_char(0) == '-' && arg_s.get_char(1) == 'L' {
            proof {
                assert(arg@.subrange(0, 2) =~= "-L"@);
            }
            let rest = arg_s.substring_char(2, alen);
            if str_eq(rest, "none") {
                cur.loglevel = NONE;
            } else if str_eq(rest, "debug") {
                cur.loglevel = DEBUG;
            } else {
                match parse_u8(rest) {
                    Some(v) => {
                        cur.loglevel = v;
                    },
                    None => {
                        return CliAction::Run(cur);
                    },
                }
            }
        } else if arg_s.get_char(0) == '-' && arg_s.get_char(1) == 'o' {
            proof {
                assert(arg@.subrange(0, 2) != "-L"@);
                assert(arg@.subrange(0, 2) =~= "-o"@);
                lemma_last_index_of(arg@, '=');
            }
            match find_last(arg_s, '=') {
                Some(idx) => {
                    let of = arg_s.substring_char(idx + 1, alen).to_owned();
                    cur.out_file_path = Some(of);
                },
                None => {
                },
            }
        } else if arg_s.get_char(0) == '-' {
            proof {
                assert(arg@.subrange(0, 2)[1] == arg@[1]);
                assert(arg@.subrange(0, 2) != "-L"@);
                assert(arg@.subrange(0, 2) != "-o"@);
            }
            return CliAction::Help { short: true };
        } else {
            proof {
                assert(arg@.subrange(0, 2)[0] == arg@[0]);
                assert(arg@.subrange(0, 2) != "-L"@);
                assert(arg@.subrange(0, 2) != "-o"@);
            }
            cur.mode = RunMode::File;
            cur.in_file_path = Some(arg.clone());
        }
        k = k + 1;
    }
    CliAction::Run(cur)
}

/// Parse the command-line arguments into their settings.  The caller must
/// have ruled out a help request first (the interactive way to do that is
/// [`parse_cli`]).
pub fn parse_arguments(args: &Vec<String>) -> (a: Arguments)
    requires
        spec_parse_arguments(args.deep_view()) is Done,
    ensures
        (match spec_parse_arguments(args.deep_view()) {
            SpecParse::Done(m) => a.deep_view() == m,
            SpecParse::Help { .. } => false,
        }),
{
    match parse_cli(args) {
        CliAction::Run(a) => a,
        CliAction::Help { .. } => {
            proof {
                assert(false);
            }
            Arguments::default()
        },
    }
}

} // verus!
