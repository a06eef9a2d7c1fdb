//! Error taxonomy for the collaborators around the core: a failed
//! command, a launch failure, or malformed text reaching a parser.

use vstd::prelude::*;
use vstd::string::StringExecFns;

verus! {

/// Declares `std::io::Error` so that error values can carry the launch
/// failure that produced them; the library only passes such a value
/// through as an opaque payload.
#[verifier::external_type_specification]
#[verifier::external_body]
pub struct ExIoError(std::io::Error);

/// What can go wrong around the core: an external command exited
/// non-zero (`GitCommandError`, carrying the attempted command and its
/// captured error text), the command could not be launched at all
/// (`IoError`), or malformed text reached a parser (`ParseError`).
#[derive(Debug)]
pub enum GitChaiError {
    GitCommandError { command: String, stderr: String, source: Option<std::io::Error> },
    IoError(std::io::Error),
    ParseError(String),
}

/// Relies on `std::io::Error`'s `Display` impl for the message text of a
/// launch failure; nothing is assumed about the text.
#[verifier::external_body]
fn io_error_text(e: &std::io::Error) -> String {
    format!("{}", e)
}

impl GitChaiError {
    /// Renders the error for logs and reports.  The text of a
    /// `GitCommandError` or `ParseError` is pinned exactly; an `IoError`
    /// carries the underlying message after a fixed prefix.
    pub fn to_string(&self) -> (r: String)
        ensures
            match self {
                GitChaiError::GitCommandError { command, stderr, source: _ } => r@
                    == "Git command failed: "@ + command@ + ": "@ + stderr@,
                GitChaiError::IoError(_) => exists|t: Seq<char>| r@ == "IO error: "@ + t,
                GitChaiError::ParseError(s) => r@ == "Parse error: "@ + s@,
            },
    {
        match self {
            GitChaiError::GitCommandError { command, stderr, source: _ } => {
                let mut r = String::from_str("Git command failed: ");
                r.append(command.as_str());
                r.append(": ");
                r.append(stderr.as_str());
                r
            },
            GitChaiError::IoError(e) => {
                let t = io_error_text(e);
                let r = String::from_str("IO error: ").concat(t.as_str());
                proof {
                    assert(r@ == "IO error: "@ + t@);
                }
                r
            },
            GitChaiError::ParseError(s) => String::from_str("Parse error: ").concat(s.as_str()),
        }
    }
}

} // verus!
