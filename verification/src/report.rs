//! The one-line diagnostics that the program writes for the user.

use vstd::prelude::*;
use vstd::string::StringExecFns;

verus! {

/// The name under which the program reports.
pub const PROGRAM: &'static str = "javamanager";

/// What stands between the parts of a diagnostic.
pub const SEPARATOR: &'static str = ": ";

/// The diagnostic for `message`: the program's name, then the message.
pub open spec fn warning(message: Seq<char>) -> Seq<char> {
    PROGRAM@ + SEPARATOR@ + message
}

/// The diagnostic for `message` about `path`: the program's name, the path,
/// then the message.
pub open spec fn warning_at(path: Seq<char>, message: Seq<char>) -> Seq<char> {
    PROGRAM@ + SEPARATOR@ + path + SEPARATOR@ + message
}

/// The line that reports `message`.
pub fn warnx(message: &str) -> (line: String)
    ensures
        line@ == warning(message@),
{
    let mut line = PROGRAM.to_owned();
    line.append(SEPARATOR);
    line.append(message);
    line
}

/// The line that reports `message` about the file or directory at `path`.
pub fn warnx_at(path: &str, message: &str) -> (line: String)
    ensures
        line@ == warning_at(path@, message@),
{
    let mut line = PROGRAM.to_owned();
    line.append(SEPARATOR);
    line.append(path);
    line.append(SEPARATOR);
    line.append(message);
    line
}

} // verus!
