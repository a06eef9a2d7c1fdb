//! The grouping engine: partitions normalized change records into commit
//! units.
//!
//! An untracked directory entry becomes a unit of its own.  Every other
//! record is bucketed by its parent directory, and a bucket whose records
//! all share one change kind and whose changed-file count equals the
//! directory's tracked-file count becomes one whole-directory unit;
//! every other bucket falls back to one unit of individually committed
//! files.  The tracked-file counts come from an external directory
//! lister: the caller plans the buckets first, asks the lister for each
//! bucket's directory, and hands the answers back, `None` standing for a
//! failed query (which degrades that bucket to individual files, never
//! aborts the pass).

use vstd::prelude::*;
use vstd::string::StringExecFns;

use crate::paths::ends_with_slash;
use crate::paths::parent_dir;
use crate::paths::parent_of;
use crate::status::GitChange;
use crate::types::ChangeType;
use crate::types::GitStatus;

verus! {

/// A record is an untracked-directory entry when its path ends with a
/// separator and its status is `Untracked`; such an entry is committed
/// as one opaque addition and never decomposed.
pub open spec fn is_untracked_dir(c: GitChange) -> bool {
    c.filename@.len() > 0 && c.filename@.last() == '/' && c.status is Untracked
}

/// The running kind of a directory bucket: still uniform, or mixed.
/// Once mixed, a bucket stays mixed.
#[derive(Debug, Clone, Copy, PartialEq, Eq, Structural)]
pub enum BucketKind {
    Uniform(ChangeType),
    Mixed,
}

/// The kind of a finished commit unit: a whole directory committed with
/// one uniform change kind, or a unit of individually committed files.
#[derive(Debug, Clone, Copy, PartialEq, Eq, Structural)]
pub enum GroupKind {
    Directory(ChangeType),
    Individual,
}

/// The mathematical value of one directory bucket.
#[verifier::ext_equal]
pub struct BucketModel {
    pub dir: Seq<char>,
    pub kind: BucketKind,
    pub files: Seq<Seq<char>>,
}

/// The mathematical value of one commit unit.
#[verifier::ext_equal]
pub struct GroupModel {
    pub path: Seq<char>,
    pub kind: GroupKind,
    pub files: Seq<Seq<char>>,
    pub kinds: Option<Seq<ChangeType>>,
}

/// One directory bucket: a parent directory, the changed files under
/// it in record order, and whether their kinds are still uniform.
#[derive(Debug)]
pub struct DirBucket {
    pub dir: String,
    pub kind: BucketKind,
    pub files: Vec<String>,
}

impl View for DirBucket {
    type V = BucketModel;

    open spec fn view(&self) -> BucketModel {
        BucketModel { dir: self.dir@, kind: self.kind, files: self.files.deep_view() }
    }
}

impl DeepView for DirBucket {
    type V = BucketModel;

    open spec fn deep_view(&self) -> BucketModel {
        self.view()
    }
}

/// One commit unit: `path` is the directory of a whole-directory unit
/// (or the untracked directory itself), and the "." sentinel for
/// individual units; `files` is never empty; `file_change_types` is
/// present exactly for individual units, index-aligned with `files`.
#[derive(Debug)]
pub struct ChangeGroup {
    pub path: String,
    pub change_type: GroupKind,
    pub files: Vec<String>,
    pub file_change_types: Option<Vec<ChangeType>>,
}

impl View for ChangeGroup {
    type V = GroupModel;

    open spec fn view(&self) -> GroupModel {
        GroupModel {
            path: self.path@,
            kind: self.change_type,
            files: self.files.deep_view(),
            kinds: match self.file_change_types {
                Some(v) => Some(v@),
                None => None,
            },
        }
    }
}

impl DeepView for ChangeGroup {
    type V = GroupModel;

    open spec fn deep_view(&self) -> GroupModel {
        self.view()
    }
}

/// The index of the bucket for `dir`, searching from the front, or -1
/// when no bucket has that directory.
pub open spec fn bucket_index_of(bs: Seq<BucketModel>, dir: Seq<char>) -> int
    decreases bs.len(),
{
    if bs.len() == 0 {
        -1
    } else if bs[0].dir == dir {
        0
    } else {
        let r = bucket_index_of(bs.drop_first(), dir);
        if r < 0 {
            -1
        } else {
            r + 1
        }
    }
}

/// Folds one record into the buckets: an untracked-directory entry is
/// left for separate handling; any other record joins (or opens) the
/// bucket of its parent directory, downgrading the bucket's kind to
/// `Mixed` when its kind differs from what the bucket has seen.
pub open spec fn bucket_step(bs: Seq<BucketModel>, c: GitChange) -> Seq<BucketModel> {
    if is_untracked_dir(c) {
        bs
    } else {
        let d = parent_of(c.filename@);
        let i = bucket_index_of(bs, d);
        if i < 0 {
            bs.push(
                BucketModel {
                    dir: d,
                    kind: BucketKind::Uniform(c.change_type),
                    files: seq![c.filename@],
                },
            )
        } else {
            let b = bs[i];
            let k = match b.kind {
                BucketKind::Uniform(k0) => if k0 == c.change_type {
                    BucketKind::Uniform(k0)
                } else {
                    BucketKind::Mixed
                },
                BucketKind::Mixed => BucketKind::Mixed,
            };
            bs.update(i, BucketModel { dir: b.dir, kind: k, files: b.files.push(c.filename@) })
        }
    }
}

/// The directory buckets of a record sequence, in first-seen order.
pub open spec fn buckets_of(cs: Seq<GitChange>) -> Seq<BucketModel>
    decreases cs.len(),
{
    if cs.len() == 0 {
        Seq::empty()
    } else {
        bucket_step(buckets_of(cs.drop_last()), cs.last())
    }
}

/// The paths of the untracked-directory entries of `cs`, in order.
pub open spec fn untracked_dirs_of(cs: Seq<GitChange>) -> Seq<Seq<char>>
    decreases cs.len(),
{
    if cs.len() == 0 {
        Seq::empty()
    } else {
        let rest = untracked_dirs_of(cs.drop_last());
        if is_untracked_dir(cs.last()) {
            rest.push(cs.last().filename@)
        } else {
            rest
        }
    }
}

/// The filenames, in record order, of the records of `cs` whose path is
/// one of `names`.
pub open spec fn member_files(cs: Seq<GitChange>, names: Seq<Seq<char>>) -> Seq<Seq<char>>
    decreases cs.len(),
{
    if cs.len() == 0 {
        Seq::empty()
    } else {
        let rest = member_files(cs.drop_last(), names);
        if names.contains(cs.last().filename@) {
            rest.push(cs.last().filename@)
        } else {
            rest
        }
    }
}

/// The change kinds parallel to `member_files`.
pub open spec fn member_kinds(cs: Seq<GitChange>, names: Seq<Seq<char>>) -> Seq<ChangeType>
    decreases cs.len(),
{
    if cs.len() == 0 {
        Seq::empty()
    } else {
        let rest = member_kinds(cs.drop_last(), names);
        if names.contains(cs.last().filename@) {
            rest.push(cs.last().change_type)
        } else {
            rest
        }
    }
}

/// The individual-files unit for a bucket: the records whose path the
/// bucket collected are re-walked in original record order, each with
/// its own change kind, under the "." sentinel path.
pub open spec fn individual_group(cs: Seq<GitChange>, names: Seq<Seq<char>>) -> GroupModel {
    GroupModel {
        path: "."@,
        kind: GroupKind::Individual,
        files: member_files(cs, names),
        kinds: Some(member_kinds(cs, names)),
    }
}

/// The unit an untracked directory entry becomes: one addition of the
/// directory itself.
pub open spec fn untracked_group(name: Seq<char>) -> GroupModel {
    GroupModel {
        path: name,
        kind: GroupKind::Directory(ChangeType::Add),
        files: seq![name],
        kinds: None,
    }
}

/// The units of the untracked-directory entries of `cs`, in order.
pub open spec fn untracked_groups_of(cs: Seq<GitChange>) -> Seq<GroupModel>
    decreases cs.len(),
{
    if cs.len() == 0 {
        Seq::empty()
    } else {
        let rest = untracked_groups_of(cs.drop_last());
        if is_untracked_dir(cs.last()) {
            rest.push(untracked_group(cs.last().filename@))
        } else {
            rest
        }
    }
}

/// Resolves one bucket against the directory lister's answer: a bucket
/// that is still uniform and whose changed-file count equals the listed
/// tracked-file count becomes one whole-directory unit; a mixed bucket,
/// a partially changed directory, or a failed listing (`None`) falls
/// back to individual files.
pub open spec fn resolve_bucket(
    cs: Seq<GitChange>,
    b: BucketModel,
    listing: Option<usize>,
) -> GroupModel {
    match b.kind {
        BucketKind::Uniform(k) => {
            if (listing matches Some(n) && n == b.files.len()) {
                GroupModel { path: b.dir, kind: GroupKind::Directory(k), files: b.files, kinds: None }
            } else {
                individual_group(cs, b.files)
            }
        },
        BucketKind::Mixed => individual_group(cs, b.files),
    }
}

/// The resolved units of the buckets `bs`, one per bucket, in bucket
/// order, with `ls` the lister's answers index-aligned with `bs`.
pub open spec fn resolved_groups(
    cs: Seq<GitChange>,
    bs: Seq<BucketModel>,
    ls: Seq<Option<usize>>,
) -> Seq<GroupModel>
    decreases bs.len(),
{
    if bs.len() == 0 {
        Seq::empty()
    } else {
        resolved_groups(cs, bs.drop_last(), ls.drop_last()).push(
            resolve_bucket(cs, bs.last(), ls.last()),
        )
    }
}

/// The full grouping of a record sequence: the untracked-directory
/// units first, then one unit per directory bucket.
pub open spec fn groups_of(cs: Seq<GitChange>, ls: Seq<Option<usize>>) -> Seq<GroupModel> {
    untracked_groups_of(cs) + resolved_groups(cs, buckets_of(cs), ls)
}

proof fn lemma_bucket_index_found(bs: Seq<BucketModel>, dir: Seq<char>, j: int)
    requires
        0 <= j < bs.len(),
        bs[j].dir == dir,
        forall|k: int| 0 <= k < j ==> bs[k].dir != dir,
    ensures
        bucket_index_of(bs, dir) == j,
    decreases bs.len(),
{
    if j > 0 {
        lemma_bucket_index_found(bs.drop_first(), dir, j - 1);
    }
}

proof fn lemma_bucket_index_none(bs: Seq<BucketModel>, dir: Seq<char>)
    requires
        forall|k: int| 0 <= k < bs.len() ==> bs[k].dir != dir,
    ensures
        bucket_index_of(bs, dir) == -1,
    decreases bs.len(),
{
    if bs.len() > 0 {
        lemma_bucket_index_none(bs.drop_first(), dir);
    }
}

/// Builds the directory buckets of `changes`, in first-seen order.
/// The caller asks the directory lister about each bucket's directory
/// and hands the answers to `group_changes_by_directory`.
pub fn plan_directory_groups(changes: &Vec<GitChange>) -> (r: Vec<DirBucket>)
    ensures
        r.deep_view() == buckets_of(changes@),
{
    let mut bs: Vec<DirBucket> = Vec::new();
    let mut i: usize = 0;
    while i < changes.len()
        invariant
            i <= changes@.len(),
            bs.deep_view() == buckets_of(changes@.take(i as int)),
        decreases changes@.len() - i,
    {
        let ghost prev = bs.deep_view();
        let c = &changes[i];
        proof {
            assert(changes@.take(i + 1).drop_last() =~= changes@.take(i as int));
            assert(changes@.take(i + 1).last() == changes@[i as int]);
        }
        let untracked = ends_with_slash(c.filename.as_str()) && (match c.status {
            GitStatus::Untracked => true,
            _ => false,
        });
        if !untracked {
            let d = parent_dir(c.filename.as_str());
            let n_b = bs.len();
            let mut j: usize = 0;
            while j < n_b && !<String as PartialEq>::eq(&bs[j].dir, &d)
                invariant
                    n_b == bs@.len(),
                    j <= n_b,
                    forall|k: int| 0 <= k < j ==> bs.deep_view()[k].dir != d@,
                decreases n_b - j,
            {
                j = j + 1;
            }
            if j == n_b {
                proof {
                    lemma_bucket_index_none(bs.deep_view(), d@);
                }
                let mut files: Vec<String> = Vec::new();
                files.push(c.filename.clone());
                bs.push(DirBucket { dir: d, kind: BucketKind::Uniform(c.change_type), files });
                proof {
                    assert(bs.deep_view() =~~= bucket_step(prev, changes@[i as int]));
                }
            } else {
                proof {
                    lemma_bucket_index_found(bs.deep_view(), d@, j as int);
                }
                let old_b = bs.remove(j);
                let new_kind = match old_b.kind {
                    BucketKind::Uniform(k0) => if k0 == c.change_type {
                        BucketKind::Uniform(k0)
                    } else {
                        BucketKind::Mixed
                    },
                    BucketKind::Mixed => BucketKind::Mixed,
                };
                let mut files = old_b.files;
                files.push(c.filename.clone());
                bs.insert(j, DirBucket { dir: old_b.dir, kind: new_kind, files });
                proof {
                    assert(bs.deep_view() =~~= bucket_step(prev, changes@[i as int]));
                }
            }
        }
        i = i + 1;
    }
    proof {
        assert(changes@.take(changes@.len() as int) =~= changes@);
    }
    bs
}

fn vec_contains_string(v: &Vec<String>, x: &String) -> (r: bool)
    ensures
        r == v.deep_view().contains(x@),
{
    let mut j: usize = 0;
    while j < v.len()
        invariant
            j <= v@.len(),
            forall|k: int| 0 <= k < j ==> v.deep_view()[k] != x@,
        decreases v@.len() - j,
    {
        if <String as PartialEq>::eq(&v[j], x) {
            proof {
                assert(v.deep_view()[j as int] == x@);
            }
            return true;
        }
        j = j + 1;
    }
    false
}

fn clone_string_vec(v: &Vec<String>) -> (r: Vec<String>)
    ensures
        r.deep_view() == v.deep_view(),
{
    let mut r: Vec<String> = Vec::new();
    let mut j: usize = 0;
    while j < v.len()
        invariant
            j <= v@.len(),
            r@.len() == j,
            forall|k: int| 0 <= k < j ==> r@[k]@ == v@[k]@,
        decreases v@.len() - j,
    {
        r.push(v[j].clone());
        j = j + 1;
    }
    proof {
        assert(r.deep_view() =~~= v.deep_view());
    }
    r
}

/// Builds the individual-files unit of one bucket by re-walking the
/// records whose path the bucket collected.
fn build_individual_unit(changes: &Vec<GitChange>, names: &Vec<String>) -> (r: ChangeGroup)
    ensures
        r@ == individual_group(changes@, names.deep_view()),
{
    let mut mfiles: Vec<String> = Vec::new();
    let mut mkinds: Vec<ChangeType> = Vec::new();
    let mut ci: usize = 0;
    while ci < changes.len()
        invariant
            ci <= changes@.len(),
            mfiles.deep_view() == member_files(changes@.take(ci as int), names.deep_view()),
            mkinds@ == member_kinds(changes@.take(ci as int), names.deep_view()),
        decreases changes@.len() - ci,
    {
        let c = &changes[ci];
        proof {
            assert(changes@.take(ci + 1).drop_last() =~= changes@.take(ci as int));
            assert(changes@.take(ci + 1).last() == changes@[ci as int]);
        }
        let mem = vec_contains_string(names, &c.filename);
        if mem {
            mfiles.push(c.filename.clone());
            mkinds.push(c.change_type);
            proof {
                assert(mfiles.deep_view() =~~= member_files(
                    changes@.take(ci + 1),
                    names.deep_view(),
                ));
            }
        }
        ci = ci + 1;
    }
    proof {
        assert(changes@.take(changes@.len() as int) =~= changes@);
    }
    ChangeGroup {
        path: String::from_str("."),
        change_type: GroupKind::Individual,
        files: mfiles,
        file_change_types: Some(mkinds),
    }
}

/// Groups the records into commit units, with `listings` the directory
/// lister's answers for the planned buckets, index-aligned with
/// `plan_directory_groups`' result: the tracked-file count of the
/// bucket's directory, or `None` for a failed query.  Untracked
/// directory units come first; each bucket then yields exactly one
/// unit, whole-directory or individual.
pub fn group_changes_by_directory(
    changes: &Vec<GitChange>,
    listings: &Vec<Option<usize>>,
) -> (r: Vec<ChangeGroup>)
    requires
        listings@.len() == buckets_of(changes@).len(),
    ensures
        r.deep_view() == groups_of(changes@, listings@),
{
    let buckets = plan_directory_groups(changes);
    let mut out: Vec<ChangeGroup> = Vec::new();
    let mut i: usize = 0;
    while i < changes.len()
        invariant
            i <= changes@.len(),
            out.deep_view() == untracked_groups_of(changes@.take(i as int)),
        decreases changes@.len() - i,
    {
        let c = &changes[i];
        proof {
            assert(changes@.take(i + 1).drop_last() =~= changes@.take(i as int));
            assert(changes@.take(i + 1).last() == changes@[i as int]);
        }
        let untracked = ends_with_slash(c.filename.as_str()) && (match c.status {
            GitStatus::Untracked => true,
            _ => false,
        });
        if untracked {
            let mut files: Vec<String> = Vec::new();
            files.push(c.filename.clone());
            out.push(
                ChangeGroup {
                    path: c.filename.clone(),
                    change_type: GroupKind::Directory(ChangeType::Add),
                    files,
                    file_change_types: None,
                },
            );
            proof {
                assert(out.deep_view() =~~= untracked_groups_of(changes@.take(i + 1)));
            }
        }
        i = i + 1;
    }
    proof {
        assert(changes@.take(changes@.len() as int) =~= changes@);
    }
    let mut bi: usize = 0;
    while bi < buckets.len()
        invariant
            bi <= buckets@.len(),
            buckets.deep_view() == buckets_of(changes@),
            listings@.len() == buckets_of(changes@).len(),
            out.deep_view() == untracked_groups_of(changes@) + resolved_groups(
                changes@,
                buckets.deep_view().take(bi as int),
                listings@.take(bi as int),
            ),
        decreases buckets@.len() - bi,
    {
        let b = &buckets[bi];
        let listing = listings[bi];
        proof {
            assert(buckets.deep_view().take(bi + 1).drop_last() =~= buckets.deep_view().take(
                bi as int,
            ));
            assert(listings@.take(bi + 1).drop_last() =~= listings@.take(bi as int));
            assert(buckets.deep_view().take(bi + 1).last() == buckets.deep_view()[bi as int]);
            assert(listings@.take(bi + 1).last() == listings@[bi as int]);
        }
        let ghost prev_out = out.deep_view();
        let ghost gm = resolve_bucket(changes@, buckets.deep_view()[bi as int], listings@[bi as int]);
        match b.kind {
            BucketKind::Uniform(k0) => {
                let full = match listing {
                    Some(n) => n == b.files.len(),
                    None => false,
                };
                if full {
                    let unit = ChangeGroup {
                        path: b.dir.clone(),
                        change_type: GroupKind::Directory(k0),
                        files: clone_string_vec(&b.files),
                        file_change_types: None,
                    };
                    proof {
                        assert(unit@ =~~= gm);
                    }
                    out.push(unit);
                } else {
                    let unit = build_individual_unit(changes, &b.files);
                    proof {
                        assert(unit@ =~~= gm);
                    }
                    out.push(unit);
                }
            },
            BucketKind::Mixed => {
                let unit = build_individual_unit(changes, &b.files);
                proof {
                    assert(unit@ =~~= gm);
                }
                out.push(unit);
            },
        }
        proof {
            assert(out.deep_view() =~~= prev_out.push(gm));
            assert(resolved_groups(
                changes@,
                buckets.deep_view().take(bi + 1),
                listings@.take(bi + 1),
            ) == resolved_groups(
                changes@,
                buckets.deep_view().take(bi as int),
                listings@.take(bi as int),
            ).push(gm));
            assert(out.deep_view() =~~= untracked_groups_of(changes@) + resolved_groups(
                changes@,
                buckets.deep_view().take(bi + 1),
                listings@.take(bi + 1),
            ));
        }
        bi = bi + 1;
    }
    proof {
        assert(buckets.deep_view().take(buckets@.len() as int) =~= buckets.deep_view());
        assert(listings@.take(buckets@.len() as int) =~= listings@);
    }
    out
}

} // verus!
