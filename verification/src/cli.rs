//! The command line of the program.

use vstd::prelude::*;

use crate::text;

verus! {

pub const NAME: &'static str = "MatrixCode";

pub const VERSION: &'static str = "0.1.0";

/// What the program does for its first argument.
#[derive(Debug, Clone, Copy, PartialEq, Eq)]
pub enum Invocation {
    /// Print the version.
    Version,
    /// Print the help.
    Help,
    /// Refuse an argument that is not known, with exit code [`UNKNOWN_ARGUMENT_EXIT`].
    Unknown,
    /// Print the name.
    Banner,
}

/// The exit code after an argument that is not known.
pub const UNKNOWN_ARGUMENT_EXIT: u8 = 2;

pub open spec fn invocation(argument: Option<Seq<char>>) -> Invocation {
    match argument {
        None => Invocation::Banner,
        Some(text) => if text == "--version"@ || text == "-V"@ {
            Invocation::Version
        } else if text == "--help"@ || text == "-h"@ {
            Invocation::Help
        } else {
            Invocation::Unknown
        },
    }
}

impl Invocation {
    /// Chooses by the first argument.
    pub fn from_argument(argument: Option<&str>) -> (r: Invocation)
        ensures
            r == invocation(
                match argument {
                    Some(text) => Some(text@),
                    None => None,
                },
            ),
    {
        match argument {
            None => Invocation::Banner,
            Some(text) => {
                if text::same_text(text, "--version") || text::same_text(text, "-V") {
                    Invocation::Version
                } else if text::same_text(text, "--help") || text::same_text(text, "-h") {
                    Invocation::Help
                } else {
                    Invocation::Unknown
                }
            },
        }
    }
}

/// The name is printed only where there is no argument, the version and the help for their two
/// arguments each, and every other argument is refused.
pub proof fn other_arguments_are_refused(text: Seq<char>)
    ensures
        invocation(None) == Invocation::Banner,
        invocation(Some(text)) == Invocation::Version <==> text == "--version"@ || text == "-V"@,
        invocation(Some(text)) == Invocation::Help <==> text == "--help"@ || text == "-h"@,
        invocation(Some(text)) != Invocation::Banner,
        UNKNOWN_ARGUMENT_EXIT == 2,
{
    reveal_strlit("--version");
    reveal_strlit("-V");
    reveal_strlit("--help");
    reveal_strlit("-h");
    assert("--version"@.len() == 9 && "--help"@.len() == 6);
    assert("-V"@[1] == 'V' && "-h"@[1] == 'h');
}

} // verus!
