//! The status normalizer: turns raw porcelain status lines into
//! normalized change records.
//!
//! A line is a two-character status code, a separator character, and a
//! path.  Lines shorter than three characters, and lines whose trimmed
//! path is empty, are skipped; unrecognized status codes are kept as
//! `Unknown` and never make a line fail.

use vstd::prelude::*;
use vstd::string::StrSliceExecFns;

use crate::paths::trim_spec;
use crate::paths::trim_str;
use crate::types::ChangeType;
use crate::types::GitStatus;
use crate::types::code_parses_to;
use crate::types::status_change_kind;

verus! {

/// One normalized change: the parsed status, the change kind it reduces
/// to, and the path the line named.
#[derive(Debug, Clone)]
pub struct GitChange {
    pub status: GitStatus,
    pub change_type: ChangeType,
    pub filename: String,
}

/// A status line is kept when it has at least the two code characters
/// and a separator, and its trimmed path is not empty.
pub open spec fn line_kept(l: Seq<char>) -> bool {
    l.len() >= 3 && trim_spec(l.skip(3)).len() > 0
}

/// The lines of `ls` that the normalizer keeps, in order.
pub open spec fn kept_lines(ls: Seq<Seq<char>>) -> Seq<Seq<char>>
    decreases ls.len(),
{
    if ls.len() == 0 {
        Seq::empty()
    } else {
        let rest = kept_lines(ls.drop_last());
        if line_kept(ls.last()) {
            rest.push(ls.last())
        } else {
            rest
        }
    }
}

/// Holds when `c` is the normalization of the kept line `l`: the status
/// is the parse of the first two characters, the kind is that status's
/// reduction, and the filename is the trimmed text after the separator.
pub open spec fn change_matches_line(l: Seq<char>, c: GitChange) -> bool {
    &&& code_parses_to(l.subrange(0, 2), c.status)
    &&& c.change_type == status_change_kind(c.status)
    &&& c.filename@ == trim_spec(l.skip(3))
}

/// Normalizes one status line; skipped lines yield `None`.
pub fn normalize_line(line: &str) -> (r: Option<GitChange>)
    ensures
        line_kept(line@) ==> (r matches Some(c) && change_matches_line(line@, c)),
        !line_kept(line@) ==> r is None,
{
    let n = line.unicode_len();
    if n < 3 {
        return None;
    }
    let code = line.substring_char(0, 2);
    let rest = line.substring_char(3, n);
    let path = trim_str(rest);
    if path.as_str().unicode_len() == 0 {
        return None;
    }
    let status = match GitStatus::from_str(code) {
        Ok(st) => st,
        // unreachable: parsing a status code is total
        Err(_) => {
            return None;
        },
    };
    let kind = status.change_kind();
    Some(GitChange { status, change_type: kind, filename: path })
}

/// Normalizes a whole status listing, keeping the lines' order.
pub fn parse_status_lines(lines: &Vec<String>) -> (r: Vec<GitChange>)
    ensures
        r@.len() == kept_lines(lines.deep_view()).len(),
        forall|j: int|
            0 <= j < r@.len() ==> change_matches_line(kept_lines(lines.deep_view())[j], r@[j]),
{
    let mut out: Vec<GitChange> = Vec::new();
    let mut i: usize = 0;
    while i < lines.len()
        invariant
            i <= lines@.len(),
            out@.len() == kept_lines(lines.deep_view().take(i as int)).len(),
            forall|j: int|
                0 <= j < out@.len() ==> change_matches_line(
                    kept_lines(lines.deep_view().take(i as int))[j],
                    out@[j],
                ),
        decreases lines@.len() - i,
    {
        let r = normalize_line(lines[i].as_str());
        proof {
            assert(lines.deep_view().take(i + 1).drop_last() =~= lines.deep_view().take(i as int));
            assert(lines.deep_view().take(i + 1).last() == lines[i as int]@);
        }
        match r {
            Some(c) => out.push(c),
            None => {},
        }
        i = i + 1;
    }
    proof {
        assert(lines.deep_view().take(lines@.len() as int) =~= lines.deep_view());
    }
    out
}

} // verus!
