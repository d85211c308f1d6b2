//! Log levels and the message formatter.  The formatter builds the exact
//! colored line the surrounding program prints; the printing itself is the
//! caller's business.

use vstd::prelude::*;
use vstd::string::{StrSliceExecFns, StringExecFns};

use crate::text::{contains_seq, str_contains, str_eq};

verus! {

pub const NONE: u8 = 0;

pub const WARN: u8 = 1;

pub const PRINT: u8 = 2;

pub const DEBUG: u8 = 3;

/// The ANSI color a message class is rendered in: yellow for warnings, blue
/// for debug chatter, red for anything that calls itself an error, and the
/// reset sequence otherwise.
pub open spec fn spec_color_of(l_type: Seq<char>) -> Seq<char> {
    if l_type == "warn"@ {
        "\x1b[93m"@
    } else if l_type == "debug"@ {
        "\x1b[96m"@
    } else if contains_seq(l_type, "error"@) {
        "\x1b[91m"@
    } else {
        "\x1b[0m"@
    }
}

/// The formatted log line: the prefix, then the colored message class (when
/// one is given), then the text.
pub open spec fn spec_format(prefix: Seq<char>, l_type: Seq<char>, l_txt: Seq<char>) -> Seq<char> {
    if l_type.len() == 0 {
        prefix + ": "@ + l_txt
    } else {
        prefix + ": "@ + spec_color_of(l_type) + l_type + "\x1b[0m"@ + ": "@ + l_txt
    }
}

/// A named logging capability: a verbosity level and the prefix its lines
/// carry.
#[derive(Debug)]
pub struct Logger {
    pub loglevel: u8,
    pub prefix: String,
}

impl Logger {
    /// Render one log line of the given message class and text.
    pub fn format(&self, l_type: &str, l_txt: &str) -> (r: String)
        ensures
            r@ == spec_format(self.prefix@, l_type@, l_txt@),
    {
        let mut out = String::new();
        out.append(self.prefix.as_str());
        out.append(": ");
        if l_type.unicode_len() == 0 {
            out.append(l_txt);
            proof {
                assert(out@ =~= spec_format(self.prefix@, l_type@, l_txt@));
            }
        } else {
            let color: &str = if str_eq(l_type, "warn") {
                "\x1b[93m"
            } else if str_eq(l_type, "debug") {
                "\x1b[96m"
            } else if str_contains(l_type, "error") {
                "\x1b[91m"
            } else {
                "\x1b[0m"
            };
            out.append(color);
            out.append(l_type);
            out.append("\x1b[0m");
            out.append(": ");
            out.append(l_txt);
            proof {
                assert(out@ =~= spec_format(self.prefix@, l_type@, l_txt@));
            }
        }
        out
    }
}

} // verus!
