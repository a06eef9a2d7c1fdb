//! Text and path helpers for repo-relative, forward-slash separated
//! paths: whitespace trimming, parent directories and base names.

use vstd::prelude::*;
use vstd::string::StringExecFns;
use vstd::string::StrSliceExecFns;

verus! {

/// The whitespace characters trimmed from around a path: the Unicode
/// white-space set.
pub open spec fn is_space_char(c: char) -> bool {
    let u = c as u32;
    ||| u == 0x20
    ||| (0x09 <= u && u <= 0x0D)
    ||| u == 0x85
    ||| u == 0xA0
    ||| u == 0x1680
    ||| (0x2000 <= u && u <= 0x200A)
    ||| u == 0x2028
    ||| u == 0x2029
    ||| u == 0x202F
    ||| u == 0x205F
    ||| u == 0x3000
}

fn is_space(c: char) -> (r: bool)
    ensures
        r == is_space_char(c),
{
    let u = c as u32;
    u == 0x20 || (0x09 <= u && u <= 0x0D) || u == 0x85 || u == 0xA0 || u == 0x1680 || (0x2000 <= u
        && u <= 0x200A) || u == 0x2028 || u == 0x2029 || u == 0x202F || u == 0x205F || u == 0x3000
}

/// `s` with its leading whitespace removed.
pub open spec fn trim_start_spec(s: Seq<char>) -> Seq<char>
    decreases s.len(),
{
    if s.len() > 0 && is_space_char(s[0]) {
        trim_start_spec(s.drop_first())
    } else {
        s
    }
}

/// `s` with its trailing whitespace removed.
pub open spec fn trim_end_spec(s: Seq<char>) -> Seq<char>
    decreases s.len(),
{
    if s.len() > 0 && is_space_char(s.last()) {
        trim_end_spec(s.drop_last())
    } else {
        s
    }
}

/// `s` with whitespace removed from both ends.
pub open spec fn trim_spec(s: Seq<char>) -> Seq<char> {
    trim_end_spec(trim_start_spec(s))
}

proof fn lemma_trim_start(s: Seq<char>, i: int)
    requires
        0 <= i <= s.len(),
        forall|k: int| 0 <= k < i ==> is_space_char(s[k]),
        i == s.len() || !is_space_char(s[i]),
    ensures
        trim_start_spec(s) == s.skip(i),
    decreases i,
{
    if i == 0 {
        assert(s.skip(0) =~= s);
    } else {
        lemma_trim_start(s.drop_first(), i - 1);
        assert(s.drop_first().skip(i - 1) =~= s.skip(i));
    }
}

proof fn lemma_trim_end(s: Seq<char>, j: int)
    requires
        0 <= j <= s.len(),
        forall|k: int| j <= k < s.len() ==> is_space_char(s[k]),
        j == 0 || !is_space_char(s[j - 1]),
    ensures
        trim_end_spec(s) == s.take(j),
    decreases s.len(),
{
    if s.len() > j {
        lemma_trim_end(s.drop_last(), j);
        assert(s.drop_last().take(j) =~= s.take(j));
    } else {
        assert(s.take(j) =~= s);
    }
}

/// Removes whitespace from both ends of `s`.
pub fn trim_str(s: &str) -> (r: String)
    ensures
        r@ == trim_spec(s@),
{
    let n = s.unicode_len();
    let mut start: usize = 0;
    while start < n && is_space(s.get_char(start))
        invariant
            n == s@.len(),
            start <= n,
            forall|k: int| 0 <= k < start ==> is_space_char(s@[k]),
        decreases n - start,
    {
        start = start + 1;
    }
    let mut end: usize = n;
    while end > start && is_space(s.get_char(end - 1))
        invariant
            n == s@.len(),
            start <= end <= n,
            forall|k: int| end <= k < n ==> is_space_char(s@[k]),
        decreases end,
    {
        end = end - 1;
    }
    let sub = s.substring_char(start, end);
    proof {
        lemma_trim_start(s@, start as int);
        lemma_trim_end(s@.skip(start as int), end - start);
        assert(s@.skip(start as int).take(end - start) =~= s@.subrange(
            start as int,
            end as int,
        ));
    }
    String::from_str(sub)
}

/// `p` with every trailing path separator removed.
pub open spec fn strip_trailing_slashes(p: Seq<char>) -> Seq<char>
    decreases p.len(),
{
    if p.len() > 0 && p.last() == '/' {
        strip_trailing_slashes(p.drop_last())
    } else {
        p
    }
}

/// The index of the last separator in `q`, or -1 when `q` has none.
pub open spec fn last_slash_index(q: Seq<char>) -> int
    decreases q.len(),
{
    if q.len() == 0 {
        -1
    } else if q.last() == '/' {
        q.len() - 1
    } else {
        last_slash_index(q.drop_last())
    }
}

/// The parent directory of path `p`: everything before the last
/// separator, with trailing separators dropped on both the path and the
/// prefix; the repository root is normalized to ".".
pub open spec fn parent_of(p: Seq<char>) -> Seq<char> {
    let q = strip_trailing_slashes(p);
    let i = last_slash_index(q);
    if i < 0 {
        "."@
    } else {
        let pre = strip_trailing_slashes(q.subrange(0, i));
        if pre.len() == 0 {
            "."@
        } else {
            pre
        }
    }
}

/// The base name of directory path `p`: its last component, or the
/// word "directory" when the path has no file-name component.
pub open spec fn base_name_of(p: Seq<char>) -> Seq<char> {
    let q = strip_trailing_slashes(p);
    let i = last_slash_index(q);
    let name = q.subrange(i + 1, q.len() as int);
    if name.len() == 0 || name == "."@ || name == ".."@ {
        "directory"@
    } else {
        name
    }
}

proof fn lemma_strip_trailing(s: Seq<char>, e: int)
    requires
        0 <= e <= s.len(),
        forall|k: int| e <= k < s.len() ==> s[k] == '/',
        e == 0 || s[e - 1] != '/',
    ensures
        strip_trailing_slashes(s) == s.take(e),
    decreases s.len(),
{
    if s.len() > e {
        lemma_strip_trailing(s.drop_last(), e);
        assert(s.drop_last().take(e) =~= s.take(e));
    } else {
        assert(s.take(e) =~= s);
    }
}

proof fn lemma_last_slash_at(q: Seq<char>, i: int)
    requires
        0 <= i < q.len(),
        q[i] == '/',
        forall|k: int| i < k < q.len() ==> q[k] != '/',
    ensures
        last_slash_index(q) == i,
    decreases q.len(),
{
    if i < q.len() - 1 {
        lemma_last_slash_at(q.drop_last(), i);
    }
}

proof fn lemma_last_slash_none(q: Seq<char>)
    requires
        forall|k: int| 0 <= k < q.len() ==> q[k] != '/',
    ensures
        last_slash_index(q) == -1,
    decreases q.len(),
{
    if q.len() > 0 {
        lemma_last_slash_none(q.drop_last());
    }
}

proof fn lemma_strip_end_not_slash(s: Seq<char>)
    ensures
        ({
            let t = strip_trailing_slashes(s);
            t.len() == 0 || t.last() != '/'
        }),
    decreases s.len(),
{
    if s.len() > 0 && s.last() == '/' {
        lemma_strip_end_not_slash(s.drop_last());
    }
}

/// A parent directory is never empty and never ends with a separator;
/// in particular it is never itself an untracked-directory path.
pub proof fn lemma_parent_no_trailing_slash(p: Seq<char>)
    ensures
        parent_of(p).len() > 0,
        parent_of(p).last() != '/',
{
    reveal_strlit(".");
    let q = strip_trailing_slashes(p);
    let i = last_slash_index(q);
    if i >= 0 {
        lemma_strip_end_not_slash(q.subrange(0, i));
    }
}

/// True when `s` ends with a path separator.
pub fn ends_with_slash(s: &str) -> (r: bool)
    ensures
        r == (s@.len() > 0 && s@.last() == '/'),
{
    let n = s.unicode_len();
    if n == 0 {
        false
    } else {
        s.get_char(n - 1) == '/'
    }
}

/// The parent directory of `p`, with the repository root as ".".
pub fn parent_dir(p: &str) -> (r: String)
    ensures
        r@ == parent_of(p@),
{
    let n = p.unicode_len();
    let mut e: usize = n;
    while e > 0 && p.get_char(e - 1) == '/'
        invariant
            n == p@.len(),
            e <= n,
            forall|k: int| e <= k < n ==> p@[k] == '/',
        decreases e,
    {
        e = e - 1;
    }
    proof {
        lemma_strip_trailing(p@, e as int);
    }
    let ghost q = p@.take(e as int);
    let mut i: usize = e;
    while i > 0 && p.get_char(i - 1) != '/'
        invariant
            n == p@.len(),
            i <= e <= n,
            forall|k: int| i <= k < e ==> p@[k] != '/',
        decreases i,
    {
        i = i - 1;
    }
    if i == 0 {
        proof {
            lemma_last_slash_none(q);
        }
        String::from_str(".")
    } else {
        proof {
            lemma_last_slash_at(q, i - 1);
            assert(q.subrange(0, i - 1) =~= p@.take(i - 1));
        }
        let mut pe: usize = i - 1;
        while pe > 0 && p.get_char(pe - 1) == '/'
            invariant
                n == p@.len(),
                pe <= i - 1 <= n,
                forall|k: int| pe <= k < i - 1 ==> p@[k] == '/',
        decreases pe,
        {
            pe = pe - 1;
        }
        proof {
            lemma_strip_trailing(p@.take(i - 1), pe as int);
        }
        if pe == 0 {
            proof {
                assert(p@.take(i - 1).take(pe as int) =~= strip_trailing_slashes(q.subrange(
                    0,
                    i - 1,
                )));
            }
            String::from_str(".")
        } else {
            let sub = p.substring_char(0, pe);
            proof {
                assert(p@.take(i - 1).take(pe as int) =~= p@.subrange(0, pe as int));
            }
            String::from_str(sub)
        }
    }
}

/// The base name of directory path `p`, defaulting to "directory" when
/// the path has no file-name component.
pub fn base_name(p: &str) -> (r: String)
    ensures
        r@ == base_name_of(p@),
{
    let n = p.unicode_len();
    let mut e: usize = n;
    while e > 0 && p.get_char(e - 1) == '/'
        invariant
            n == p@.len(),
            e <= n,
            forall|k: int| e <= k < n ==> p@[k] == '/',
        decreases e,
    {
        e = e - 1;
    }
    proof {
        lemma_strip_trailing(p@, e as int);
    }
    let ghost q = p@.take(e as int);
    let mut i: usize = e;
    while i > 0 && p.get_char(i - 1) != '/'
        invariant
            n == p@.len(),
            i <= e <= n,
            forall|k: int| i <= k < e ==> p@[k] != '/',
        decreases i,
    {
        i = i - 1;
    }
    proof {
        if i == 0 {
            lemma_last_slash_none(q);
        } else {
            lemma_last_slash_at(q, i - 1);
        }
        assert(q.subrange(last_slash_index(q) + 1, q.len() as int) =~= p@.subrange(
            i as int,
            e as int,
        ));
        reveal_strlit(".");
        reveal_strlit("..");
    }
    let ghost name = q.subrange(last_slash_index(q) + 1, q.len() as int);
    if e - i == 0 {
        String::from_str("directory")
    } else if e - i == 1 && p.get_char(i) == '.' {
        proof {
            assert(name =~= "."@);
        }
        String::from_str("directory")
    } else if e - i == 2 && p.get_char(i) == '.' && p.get_char(i + 1) == '.' {
        proof {
            assert(name =~= ".."@);
        }
        String::from_str("directory")
    } else {
        let sub = p.substring_char(i, e);
        proof {
            if name == "."@ {
                assert(name.len() == 1 && name[0] == '.');
                assert(false);
            }
            if name == ".."@ {
                assert(name.len() == 2 && name[0] == '.' && name[1] == '.');
                assert(false);
            }
        }
        String::from_str(sub)
    }
}

} // verus!
