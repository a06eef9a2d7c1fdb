//! Status codes and change kinds.
//!
//! A two-character porcelain status code is parsed into a closed `GitStatus`
//! enum; every status reduces to one of the five `ChangeType` kinds.

use vstd::prelude::*;
use vstd::string::StringExecFns;
use vstd::string::StrSliceExecFns;

verus! {

/// One staged/unstaged status of a file, as reported by a two-character
/// porcelain status code.  Codes outside the recognized set are kept
/// verbatim in `Unknown` for diagnostics; they are never a parse error.
#[derive(Debug, Clone)]
pub enum GitStatus {
    AddedStaged,
    ModifiedStaged,
    DeletedStaged,
    AddedUnstaged,
    ModifiedUnstaged,
    DeletedUnstaged,
    Untracked,
    Renamed,
    Copied,
    Unmerged,
    Ignored,
    Unknown(String),
}

/// One of the five change kinds a status reduces to.
#[derive(Debug, Clone, Copy, PartialEq, Eq, Structural)]
pub enum ChangeType {
    Add,
    Modify,
    Delete,
    Rename,
    Copy,
}

/// Holds when `st` is the parse of the status code `code`: the matching
/// variant for a recognized two-character code, `Unknown` carrying the code
/// itself for anything else.
pub open spec fn code_parses_to(code: Seq<char>, st: GitStatus) -> bool {
    if code == "A "@ {
        st == GitStatus::AddedStaged
    } else if code == "M "@ {
        st == GitStatus::ModifiedStaged
    } else if code == "D "@ {
        st == GitStatus::DeletedStaged
    } else if code == " A"@ {
        st == GitStatus::AddedUnstaged
    } else if code == " M"@ {
        st == GitStatus::ModifiedUnstaged
    } else if code == " D"@ {
        st == GitStatus::DeletedUnstaged
    } else if code == "??"@ {
        st == GitStatus::Untracked
    } else if code == "R "@ {
        st == GitStatus::Renamed
    } else if code == "C "@ {
        st == GitStatus::Copied
    } else if code == "U "@ {
        st == GitStatus::Unmerged
    } else if code == "! "@ {
        st == GitStatus::Ignored
    } else {
        st matches GitStatus::Unknown(u) && u@ == code
    }
}

/// The eleven two-character codes the parser recognizes.
pub open spec fn is_recognized_code(code: Seq<char>) -> bool {
    ||| code == "A "@
    ||| code == "M "@
    ||| code == "D "@
    ||| code == " A"@
    ||| code == " M"@
    ||| code == " D"@
    ||| code == "??"@
    ||| code == "R "@
    ||| code == "C "@
    ||| code == "U "@
    ||| code == "! "@
}

/// Law: normalization is total over status codes — a code outside the
/// recognized set still parses, and the status it parses to reduces to
/// the `Modify` kind.
pub proof fn lemma_unknown_code_means_modify(code: Seq<char>, st: GitStatus)
    requires
        code_parses_to(code, st),
        !is_recognized_code(code),
    ensures
        st matches GitStatus::Unknown(u) && u@ == code,
        status_change_kind(st) == ChangeType::Modify,
{
}

/// The two-character code a status prints back as; an `Unknown` prints the
/// code it preserved.
pub open spec fn status_code(st: GitStatus) -> Seq<char> {
    match st {
        GitStatus::AddedStaged => "A "@,
        GitStatus::ModifiedStaged => "M "@,
        GitStatus::DeletedStaged => "D "@,
        GitStatus::AddedUnstaged => " A"@,
        GitStatus::ModifiedUnstaged => " M"@,
        GitStatus::DeletedUnstaged => " D"@,
        GitStatus::Untracked => "??"@,
        GitStatus::Renamed => "R "@,
        GitStatus::Copied => "C "@,
        GitStatus::Unmerged => "U "@,
        GitStatus::Ignored => "! "@,
        GitStatus::Unknown(s) => s@,
    }
}

/// The change kind a status reduces to: adds and untracked entries are
/// `Add`, modifications `Modify`, deletions `Delete`, renames `Rename`,
/// copies `Copy`, and everything else (unmerged, ignored, unknown) falls
/// back to `Modify`.
pub open spec fn status_change_kind(st: GitStatus) -> ChangeType {
    match st {
        GitStatus::AddedStaged => ChangeType::Add,
        GitStatus::AddedUnstaged => ChangeType::Add,
        GitStatus::Untracked => ChangeType::Add,
        GitStatus::ModifiedStaged => ChangeType::Modify,
        GitStatus::ModifiedUnstaged => ChangeType::Modify,
        GitStatus::DeletedStaged => ChangeType::Delete,
        GitStatus::DeletedUnstaged => ChangeType::Delete,
        GitStatus::Renamed => ChangeType::Rename,
        GitStatus::Copied => ChangeType::Copy,
        GitStatus::Unmerged => ChangeType::Modify,
        GitStatus::Ignored => ChangeType::Modify,
        GitStatus::Unknown(_) => ChangeType::Modify,
    }
}

/// The commit-message token for a change kind.
pub open spec fn kind_token(k: ChangeType) -> Seq<char> {
    match k {
        ChangeType::Add => "add"@,
        ChangeType::Modify => "mod"@,
        ChangeType::Delete => "del"@,
        ChangeType::Rename => "rename"@,
        ChangeType::Copy => "copy"@,
    }
}

impl GitStatus {
    /// Parses a status code.  Total: an unrecognized code yields
    /// `Unknown(code)`, so the result is always `Ok`.
    pub fn from_str(s: &str) -> (r: Result<GitStatus, crate::error::GitChaiError>)
        ensures
            r matches Ok(st) && code_parses_to(s@, st),
    {
        proof {
            reveal_strlit("A ");
            reveal_strlit("M ");
            reveal_strlit("D ");
            reveal_strlit(" A");
            reveal_strlit(" M");
            reveal_strlit(" D");
            reveal_strlit("??");
            reveal_strlit("R ");
            reveal_strlit("C ");
            reveal_strlit("U ");
            reveal_strlit("! ");
        }
        if s.unicode_len() == 2 {
            let c0 = s.get_char(0);
            let c1 = s.get_char(1);
            if c0 == 'A' && c1 == ' ' {
                proof { assert(s@ =~= "A "@); }
                Ok(GitStatus::AddedStaged)
            } else if c0 == 'M' && c1 == ' ' {
                proof { assert(s@ =~= "M "@); }
                Ok(GitStatus::ModifiedStaged)
            } else if c0 == 'D' && c1 == ' ' {
                proof { assert(s@ =~= "D "@); }
                Ok(GitStatus::DeletedStaged)
            } else if c0 == ' ' && c1 == 'A' {
                proof { assert(s@ =~= " A"@); }
                Ok(GitStatus::AddedUnstaged)
            } else if c0 == ' ' && c1 == 'M' {
                proof { assert(s@ =~= " M"@); }
                Ok(GitStatus::ModifiedUnstaged)
            } else if c0 == ' ' && c1 == 'D' {
                proof { assert(s@ =~= " D"@); }
                Ok(GitStatus::DeletedUnstaged)
            } else if c0 == '?' && c1 == '?' {
                proof { assert(s@ =~= "??"@); }
                Ok(GitStatus::Untracked)
            } else if c0 == 'R' && c1 == ' ' {
                proof { assert(s@ =~= "R "@); }
                Ok(GitStatus::Renamed)
            } else if c0 == 'C' && c1 == ' ' {
                proof { assert(s@ =~= "C "@); }
                Ok(GitStatus::Copied)
            } else if c0 == 'U' && c1 == ' ' {
                proof { assert(s@ =~= "U "@); }
                Ok(GitStatus::Unmerged)
            } else if c0 == '!' && c1 == ' ' {
                proof { assert(s@ =~= "! "@); }
                Ok(GitStatus::Ignored)
            } else {
                Ok(GitStatus::Unknown(String::from_str(s)))
            }
        } else {
            Ok(GitStatus::Unknown(String::from_str(s)))
        }
    }

    /// The change kind this status reduces to.
    pub fn change_kind(&self) -> (k: ChangeType)
        ensures
            k == status_change_kind(*self),
    {
        match self {
            GitStatus::AddedStaged | GitStatus::AddedUnstaged | GitStatus::Untracked => {
                ChangeType::Add
            },
            GitStatus::ModifiedStaged | GitStatus::ModifiedUnstaged => ChangeType::Modify,
            GitStatus::DeletedStaged | GitStatus::DeletedUnstaged => ChangeType::Delete,
            GitStatus::Renamed => ChangeType::Rename,
            GitStatus::Copied => ChangeType::Copy,
            GitStatus::Unknown(_) | GitStatus::Unmerged | GitStatus::Ignored => ChangeType::Modify,
        }
    }

    /// The code this status prints back as.
    pub fn to_string(&self) -> (r: String)
        ensures
            r@ == status_code(*self),
    {
        match self {
            GitStatus::AddedStaged => String::from_str("A "),
            GitStatus::ModifiedStaged => String::from_str("M "),
            GitStatus::DeletedStaged => String::from_str("D "),
            GitStatus::AddedUnstaged => String::from_str(" A"),
            GitStatus::ModifiedUnstaged => String::from_str(" M"),
            GitStatus::DeletedUnstaged => String::from_str(" D"),
            GitStatus::Untracked => String::from_str("??"),
            GitStatus::Renamed => String::from_str("R "),
            GitStatus::Copied => String::from_str("C "),
            GitStatus::Unmerged => String::from_str("U "),
            GitStatus::Ignored => String::from_str("! "),
            GitStatus::Unknown(s) => s.clone(),
        }
    }
}

impl PartialEq for GitStatus {
    fn eq(&self, other: &GitStatus) -> (r: bool) {
        match (self, other) {
            (GitStatus::AddedStaged, GitStatus::AddedStaged) => true,
            (GitStatus::ModifiedStaged, GitStatus::ModifiedStaged) => true,
            (GitStatus::DeletedStaged, GitStatus::DeletedStaged) => true,
            (GitStatus::AddedUnstaged, GitStatus::AddedUnstaged) => true,
            (GitStatus::ModifiedUnstaged, GitStatus::ModifiedUnstaged) => true,
            (GitStatus::DeletedUnstaged, GitStatus::DeletedUnstaged) => true,
            (GitStatus::Untracked, GitStatus::Untracked) => true,
            (GitStatus::Renamed, GitStatus::Renamed) => true,
            (GitStatus::Copied, GitStatus::Copied) => true,
            (GitStatus::Unmerged, GitStatus::Unmerged) => true,
            (GitStatus::Ignored, GitStatus::Ignored) => true,
            (GitStatus::Unknown(a), GitStatus::Unknown(b)) => <String as PartialEq>::eq(a, b),
            _ => false,
        }
    }
}

impl vstd::std_specs::cmp::PartialEqSpecImpl for GitStatus {
    open spec fn obeys_eq_spec() -> bool {
        true
    }

    open spec fn eq_spec(&self, other: &GitStatus) -> bool {
        match (self, other) {
            (GitStatus::AddedStaged, GitStatus::AddedStaged) => true,
            (GitStatus::ModifiedStaged, GitStatus::ModifiedStaged) => true,
            (GitStatus::DeletedStaged, GitStatus::DeletedStaged) => true,
            (GitStatus::AddedUnstaged, GitStatus::AddedUnstaged) => true,
            (GitStatus::ModifiedUnstaged, GitStatus::ModifiedUnstaged) => true,
            (GitStatus::Untracked, GitStatus::Untracked) => true,
            (GitStatus::DeletedUnstaged, GitStatus::DeletedUnstaged) => true,
            (GitStatus::Renamed, GitStatus::Renamed) => true,
            (GitStatus::Copied, GitStatus::Copied) => true,
            (GitStatus::Unmerged, GitStatus::Unmerged) => true,
            (GitStatus::Ignored, GitStatus::Ignored) => true,
            (GitStatus::Unknown(a), GitStatus::Unknown(b)) => a@ == b@,
            _ => false,
        }
    }
}

impl Eq for GitStatus {

}

impl From<GitStatus> for ChangeType {
    fn from(status: GitStatus) -> (r: ChangeType) {
        match status {
            GitStatus::AddedStaged | GitStatus::AddedUnstaged | GitStatus::Untracked => {
                ChangeType::Add
            },
            GitStatus::ModifiedStaged | GitStatus::ModifiedUnstaged => ChangeType::Modify,
            GitStatus::DeletedStaged | GitStatus::DeletedUnstaged => ChangeType::Delete,
            GitStatus::Renamed => ChangeType::Rename,
            GitStatus::Copied => ChangeType::Copy,
            GitStatus::Unknown(_) | GitStatus::Unmerged | GitStatus::Ignored => ChangeType::Modify,
        }
    }
}

impl vstd::std_specs::convert::FromSpecImpl<GitStatus> for ChangeType {
    open spec fn obeys_from_spec() -> bool {
        true
    }

    open spec fn from_spec(status: GitStatus) -> ChangeType {
        status_change_kind(status)
    }
}

impl ChangeType {
    /// The token used for this kind in commit messages.
    pub fn to_string(&self) -> (r: String)
        ensures
            r@ == kind_token(*self),
    {
        match self {
            ChangeType::Add => String::from_str("add"),
            ChangeType::Modify => String::from_str("mod"),
            ChangeType::Delete => String::from_str("del"),
            ChangeType::Rename => String::from_str("rename"),
            ChangeType::Copy => String::from_str("copy"),
        }
    }
}

} // verus!
