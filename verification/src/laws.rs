//! The general properties of the grouping engine, stated and proved
//! over its mathematical model: determinism of a grouping pass, the
//! file-count invariant, and the whole-directory boundary.

use vstd::prelude::*;

use crate::grouping::BucketKind;
use crate::grouping::BucketModel;
use crate::grouping::GroupKind;
use crate::grouping::GroupModel;
use crate::grouping::bucket_index_of;
use crate::grouping::bucket_step;
use crate::grouping::buckets_of;
use crate::grouping::groups_of;
use crate::grouping::individual_group;
use crate::grouping::is_untracked_dir;
use crate::grouping::member_files;
use crate::grouping::member_kinds;
use crate::grouping::resolve_bucket;
use crate::grouping::resolved_groups;
use crate::grouping::untracked_dirs_of;
use crate::grouping::untracked_group;
use crate::grouping::untracked_groups_of;
use crate::paths::lemma_parent_no_trailing_slash;
use crate::paths::parent_of;
use crate::status::GitChange;
use crate::types::ChangeType;

verus! {

/// A record belongs to the bucket of directory `d` when it is not an
/// untracked-directory entry and its parent directory is `d`.
pub open spec fn in_bucket(c: GitChange, d: Seq<char>) -> bool {
    !is_untracked_dir(c) && parent_of(c.filename@) == d
}

/// The filenames, in record order, of the records of `cs` that belong
/// to the bucket of `d`.
pub open spec fn bucket_files_expected(cs: Seq<GitChange>, d: Seq<char>) -> Seq<Seq<char>>
    decreases cs.len(),
{
    if cs.len() == 0 {
        Seq::empty()
    } else {
        let rest = bucket_files_expected(cs.drop_last(), d);
        if in_bucket(cs.last(), d) {
            rest.push(cs.last().filename@)
        } else {
            rest
        }
    }
}

/// The change kinds parallel to `bucket_files_expected`.
pub open spec fn bucket_kinds_expected(cs: Seq<GitChange>, d: Seq<char>) -> Seq<ChangeType>
    decreases cs.len(),
{
    if cs.len() == 0 {
        Seq::empty()
    } else {
        let rest = bucket_kinds_expected(cs.drop_last(), d);
        if in_bucket(cs.last(), d) {
            rest.push(cs.last().change_type)
        } else {
            rest
        }
    }
}

/// Every kind in `ks` is `k`.
pub open spec fn kinds_uniform(ks: Seq<ChangeType>, k: ChangeType) -> bool {
    forall|m: int| 0 <= m < ks.len() ==> ks[m] == k
}

/// The bucket kind a record sequence earns: uniform in its first kind
/// when every record of the bucket shares it, mixed as soon as two
/// kinds differ.
pub open spec fn kind_matches(bk: BucketKind, ks: Seq<ChangeType>) -> bool {
    match bk {
        BucketKind::Uniform(k) => ks.len() > 0 && k == ks[0] && kinds_uniform(ks, k),
        BucketKind::Mixed => exists|m: int| 0 <= m < ks.len() && #[trigger] ks[m] != ks[0],
    }
}

proof fn lemma_expected_parallel_len(cs: Seq<GitChange>, d: Seq<char>)
    ensures
        bucket_files_expected(cs, d).len() == bucket_kinds_expected(cs, d).len(),
    decreases cs.len(),
{
    if cs.len() > 0 {
        lemma_expected_parallel_len(cs.drop_last(), d);
    }
}

proof fn lemma_bucket_index_of_spec(bs: Seq<BucketModel>, dir: Seq<char>)
    ensures
        ({
            let i = bucket_index_of(bs, dir);
            &&& i >= 0 ==> 0 <= i < bs.len() && bs[i].dir == dir
            &&& i < 0 ==> forall|k: int| 0 <= k < bs.len() ==> bs[k].dir != dir
        }),
    decreases bs.len(),
{
    if bs.len() > 0 && bs[0].dir != dir {
        lemma_bucket_index_of_spec(bs.drop_first(), dir);
        let r = bucket_index_of(bs.drop_first(), dir);
        if r < 0 {
            assert forall|k: int| 0 <= k < bs.len() implies bs[k].dir != dir by {
                if k > 0 {
                    assert(bs.drop_first()[k - 1] == bs[k]);
                }
            }
        } else {
            assert(bs.drop_first()[r] == bs[r + 1]);
        }
    }
}

proof fn lemma_bucket_index_some(bs: Seq<BucketModel>, dir: Seq<char>, p: int)
    requires
        0 <= p < bs.len(),
        bs[p].dir == dir,
    ensures
        bucket_index_of(bs, dir) >= 0,
    decreases bs.len(),
{
    if bs[0].dir != dir {
        assert(bs.drop_first()[p - 1] == bs[p]);
        lemma_bucket_index_some(bs.drop_first(), dir, p - 1);
    }
}

/// The invariant the bucket fold maintains: bucket directories are
/// pairwise distinct; each bucket holds exactly the filenames of its
/// directory's records, in record order, and is never empty; its kind
/// is uniform exactly when its records' kinds all agree; a directory
/// with no bucket has no records; and every record that is not an
/// untracked-directory entry has a bucket.
pub open spec fn buckets_characterized(cs: Seq<GitChange>, bs: Seq<BucketModel>) -> bool {
    &&& forall|p: int, q: int| 0 <= p < q < bs.len() ==> bs[p].dir != bs[q].dir
    &&& forall|p: int|
        0 <= p < bs.len() ==> (#[trigger] bs[p]).files == bucket_files_expected(cs, bs[p].dir)
    &&& forall|p: int| 0 <= p < bs.len() ==> (#[trigger] bs[p]).files.len() > 0
    &&& forall|p: int|
        0 <= p < bs.len() ==> kind_matches((#[trigger] bs[p]).kind, bucket_kinds_expected(cs, bs[p].dir))
    &&& forall|d: Seq<char>|
        bucket_index_of(bs, d) < 0 ==> (#[trigger] bucket_files_expected(cs, d)) == Seq::<
            Seq<char>,
        >::empty()
    &&& forall|m: int|
        0 <= m < cs.len() && !is_untracked_dir(#[trigger] cs[m]) ==> bucket_index_of(
            bs,
            parent_of(cs[m].filename@),
        ) >= 0
}

/// The buckets of a record sequence satisfy the characterization.
pub proof fn lemma_buckets_characterize(cs: Seq<GitChange>)
    ensures
        buckets_characterized(cs, buckets_of(cs)),
    decreases cs.len(),
{
    if cs.len() == 0 {
        assert forall|d: Seq<char>|
            bucket_index_of(buckets_of(cs), d) < 0 implies (#[trigger] bucket_files_expected(
            cs,
            d,
        )) == Seq::<Seq<char>>::empty() by {}
    } else {
        let prev_cs = cs.drop_last();
        let c = cs.last();
        lemma_buckets_characterize(prev_cs);
        let prev = buckets_of(prev_cs);
        let bs = buckets_of(cs);
        assert(bs == bucket_step(prev, c));
        if is_untracked_dir(c) {
            assert(bs == prev);
            assert forall|p: int| 0 <= p < bs.len() implies (#[trigger] bs[p]).files
                == bucket_files_expected(cs, bs[p].dir) by {
                assert(bucket_files_expected(cs, bs[p].dir) == bucket_files_expected(
                    prev_cs,
                    bs[p].dir,
                ));
            }
            assert forall|p: int| 0 <= p < bs.len() implies kind_matches(
                (#[trigger] bs[p]).kind,
                bucket_kinds_expected(cs, bs[p].dir),
            ) by {
                assert(bucket_kinds_expected(cs, bs[p].dir) == bucket_kinds_expected(
                    prev_cs,
                    bs[p].dir,
                ));
            }
            assert forall|d: Seq<char>| bucket_index_of(bs, d) < 0 implies (
            #[trigger] bucket_files_expected(cs, d)) == Seq::<Seq<char>>::empty() by {
                assert(bucket_files_expected(cs, d) == bucket_files_expected(prev_cs, d));
            }
            assert forall|m: int|
                0 <= m < cs.len() && !is_untracked_dir(#[trigger] cs[m]) implies bucket_index_of(
                bs,
                parent_of(cs[m].filename@),
            ) >= 0 by {
                assert(prev_cs[m] == cs[m]);
            }
        } else {
            let d0 = parent_of(c.filename@);
            let i = bucket_index_of(prev, d0);
            lemma_bucket_index_of_spec(prev, d0);
            if i < 0 {
                let newb = BucketModel {
                    dir: d0,
                    kind: BucketKind::Uniform(c.change_type),
                    files: seq![c.filename@],
                };
                assert(bs == prev.push(newb));
                assert(bucket_files_expected(prev_cs, d0) == Seq::<Seq<char>>::empty());
                assert(bucket_files_expected(cs, d0) =~= seq![c.filename@]);
                lemma_expected_parallel_len(prev_cs, d0);
                assert(bucket_kinds_expected(cs, d0) =~= seq![c.change_type]);
                assert forall|p: int| 0 <= p < bs.len() implies (#[trigger] bs[p]).files
                    == bucket_files_expected(cs, bs[p].dir) by {
                    if p < prev.len() {
                        assert(bs[p] == prev[p]);
                        assert(prev[p].dir != d0);
                        assert(bucket_files_expected(cs, bs[p].dir) == bucket_files_expected(
                            prev_cs,
                            bs[p].dir,
                        ));
                    } else {
                        assert(bs[p] == newb);
                    }
                }
                assert forall|p: int| 0 <= p < bs.len() implies kind_matches(
                    (#[trigger] bs[p]).kind,
                    bucket_kinds_expected(cs, bs[p].dir),
                ) by {
                    if p < prev.len() {
                        assert(bs[p] == prev[p]);
                        assert(prev[p].dir != d0);
                        assert(bucket_kinds_expected(cs, bs[p].dir) == bucket_kinds_expected(
                            prev_cs,
                            bs[p].dir,
                        ));
                    } else {
                        assert(bs[p] == newb);
                        assert(bucket_kinds_expected(cs, d0)[0] == c.change_type);
                    }
                }
                assert forall|d: Seq<char>| bucket_index_of(bs, d) < 0 implies (
                #[trigger] bucket_files_expected(cs, d)) == Seq::<Seq<char>>::empty() by {
                    lemma_bucket_index_of_spec(bs, d);
                    assert(forall|k: int| 0 <= k < bs.len() ==> bs[k].dir != d);
                    assert(bs[bs.len() - 1] == newb);
                    assert(d != d0);
                    assert forall|k: int| 0 <= k < prev.len() implies prev[k].dir != d by {
                        assert(bs[k] == prev[k]);
                    }
                    lemma_bucket_index_none_from_all(prev, d);
                    assert(bucket_files_expected(cs, d) == bucket_files_expected(prev_cs, d));
                }
                assert forall|m: int|
                    0 <= m < cs.len() && !is_untracked_dir(#[trigger] cs[m]) implies bucket_index_of(
                    bs,
                    parent_of(cs[m].filename@),
                ) >= 0 by {
                    let dm = parent_of(cs[m].filename@);
                    if m < cs.len() - 1 {
                        assert(prev_cs[m] == cs[m]);
                        lemma_bucket_index_of_spec(prev, dm);
                        let pm = bucket_index_of(prev, dm);
                        assert(pm >= 0);
                        assert(bs[pm] == prev[pm]);
                        lemma_bucket_index_some(bs, dm, pm);
                    } else {
                        assert(bs[bs.len() - 1] == newb);
                        lemma_bucket_index_some(bs, d0, bs.len() - 1);
                    }
                }
            } else {
                let oldb = prev[i];
                assert(oldb.dir == d0);
                let newk = match oldb.kind {
                    BucketKind::Uniform(k0) => if k0 == c.change_type {
                        BucketKind::Uniform(k0)
                    } else {
                        BucketKind::Mixed
                    },
                    BucketKind::Mixed => BucketKind::Mixed,
                };
                let newb = BucketModel {
                    dir: oldb.dir,
                    kind: newk,
                    files: oldb.files.push(c.filename@),
                };
                assert(bs == prev.update(i, newb));
                assert(bucket_files_expected(cs, d0) == bucket_files_expected(prev_cs, d0).push(
                    c.filename@,
                ));
                assert(bucket_kinds_expected(cs, d0) == bucket_kinds_expected(prev_cs, d0).push(
                    c.change_type,
                ));
                assert forall|p: int, q: int| 0 <= p < q < bs.len() implies bs[p].dir
                    != bs[q].dir by {
                    assert(bs[p].dir == prev[p].dir);
                    assert(bs[q].dir == prev[q].dir);
                }
                assert forall|p: int| 0 <= p < bs.len() implies (#[trigger] bs[p]).files
                    == bucket_files_expected(cs, bs[p].dir) by {
                    if p != i {
                        assert(bs[p] == prev[p]);
                        assert(prev[p].dir != d0);
                        assert(bucket_files_expected(cs, bs[p].dir) == bucket_files_expected(
                            prev_cs,
                            bs[p].dir,
                        ));
                    } else {
                        assert(bs[p] == newb);
                    }
                }
                assert forall|p: int| 0 <= p < bs.len() implies kind_matches(
                    (#[trigger] bs[p]).kind,
                    bucket_kinds_expected(cs, bs[p].dir),
                ) by {
                    if p != i {
                        assert(bs[p] == prev[p]);
                        assert(prev[p].dir != d0);
                        assert(bucket_kinds_expected(cs, bs[p].dir) == bucket_kinds_expected(
                            prev_cs,
                            bs[p].dir,
                        ));
                    } else {
                        let ks_old = bucket_kinds_expected(prev_cs, d0);
                        let ks_new = bucket_kinds_expected(cs, d0);
                        assert(ks_new == ks_old.push(c.change_type));
                        assert(bs[p] == newb);
                        match oldb.kind {
                            BucketKind::Uniform(k0) => {
                                assert(ks_old.len() > 0 && ks_old[0] == k0);
                                assert(ks_new[0] == k0);
                                if k0 == c.change_type {
                                    assert(kinds_uniform(ks_new, k0));
                                } else {
                                    assert(ks_new[ks_new.len() - 1] == c.change_type);
                                    assert(ks_new[ks_new.len() - 1] != ks_new[0]);
                                }
                            },
                            BucketKind::Mixed => {
                                let m = choose|m: int|
                                    0 <= m < ks_old.len() && #[trigger] ks_old[m] != ks_old[0];
                                assert(ks_new[m] == ks_old[m]);
                                assert(ks_new[m] != ks_new[0]);
                            },
                        }
                    }
                }
                assert forall|d: Seq<char>| bucket_index_of(bs, d) < 0 implies (
                #[trigger] bucket_files_expected(cs, d)) == Seq::<Seq<char>>::empty() by {
                    lemma_bucket_index_of_spec(bs, d);
                    assert(bs[i] == newb);
                    assert(d != d0);
                    assert forall|k: int| 0 <= k < prev.len() implies prev[k].dir != d by {
                        assert(bs[k].dir == prev[k].dir);
                    }
                    lemma_bucket_index_none_from_all(prev, d);
                    assert(bucket_files_expected(cs, d) == bucket_files_expected(prev_cs, d));
                }
                assert forall|m: int|
                    0 <= m < cs.len() && !is_untracked_dir(#[trigger] cs[m]) implies bucket_index_of(
                    bs,
                    parent_of(cs[m].filename@),
                ) >= 0 by {
                    let dm = parent_of(cs[m].filename@);
                    if m < cs.len() - 1 {
                        assert(prev_cs[m] == cs[m]);
                        lemma_bucket_index_of_spec(prev, dm);
                        let pm = bucket_index_of(prev, dm);
                        assert(pm >= 0);
                        assert(bs[pm].dir == prev[pm].dir);
                        lemma_bucket_index_some(bs, dm, pm);
                    } else {
                        assert(bs[i] == newb);
                        lemma_bucket_index_some(bs, d0, i);
                    }
                }
            }
        }
    }
}

proof fn lemma_bucket_index_none_from_all(bs: Seq<BucketModel>, dir: Seq<char>)
    requires
        forall|k: int| 0 <= k < bs.len() ==> bs[k].dir != dir,
    ensures
        bucket_index_of(bs, dir) < 0,
{
    lemma_bucket_index_of_spec(bs, dir);
    if bucket_index_of(bs, dir) >= 0 {
        assert(false);
    }
}

/// Law: a grouping pass is a function of the records and the lister's
/// answers alone, so grouping the same record set twice (with the same
/// answers) yields structurally equal commit-unit sequences.
pub proof fn lemma_grouping_idempotent(
    cs: Seq<GitChange>,
    ls: Seq<Option<usize>>,
    r1: Seq<GroupModel>,
    r2: Seq<GroupModel>,
)
    requires
        r1 == groups_of(cs, ls),
        r2 == groups_of(cs, ls),
    ensures
        r1 == r2,
{
}

/// The total file count across a sequence of commit units.
pub open spec fn total_unit_files(gs: Seq<GroupModel>) -> nat
    decreases gs.len(),
{
    if gs.len() == 0 {
        0
    } else {
        total_unit_files(gs.drop_last()) + gs.last().files.len()
    }
}

/// The total changed-file count across a sequence of buckets.
pub open spec fn total_bucket_files(bs: Seq<BucketModel>) -> nat
    decreases bs.len(),
{
    if bs.len() == 0 {
        0
    } else {
        total_bucket_files(bs.drop_last()) + bs.last().files.len()
    }
}

/// No untracked-directory entry shares its path with a record that is
/// not one.  A real status listing names each path once, so this always
/// holds of the lines a working tree produces.
pub open spec fn untracked_paths_distinct(cs: Seq<GitChange>) -> bool {
    forall|a: int, b: int|
        0 <= a < cs.len() && 0 <= b < cs.len() && is_untracked_dir(#[trigger] cs[a])
            && !is_untracked_dir(#[trigger] cs[b]) ==> cs[a].filename@ != cs[b].filename@
}

proof fn lemma_total_concat(a: Seq<GroupModel>, b: Seq<GroupModel>)
    ensures
        total_unit_files(a + b) == total_unit_files(a) + total_unit_files(b),
    decreases b.len(),
{
    if b.len() == 0 {
        assert(a + b =~= a);
    } else {
        lemma_total_concat(a, b.drop_last());
        assert((a + b).drop_last() =~= a + b.drop_last());
        assert((a + b).last() == b.last());
    }
}

proof fn lemma_untracked_total(cs: Seq<GitChange>)
    ensures
        total_unit_files(untracked_groups_of(cs)) == untracked_dirs_of(cs).len(),
    decreases cs.len(),
{
    if cs.len() > 0 {
        lemma_untracked_total(cs.drop_last());
        let rest = untracked_groups_of(cs.drop_last());
        if is_untracked_dir(cs.last()) {
            let g = untracked_group(cs.last().filename@);
            assert(untracked_groups_of(cs) == rest.push(g));
            assert(rest.push(g).drop_last() =~= rest);
            assert(rest.push(g).last() == g);
            assert(g.files.len() == 1);
        }
    }
}

proof fn lemma_total_update(bs: Seq<BucketModel>, i: int, b: BucketModel)
    requires
        0 <= i < bs.len(),
    ensures
        total_bucket_files(bs.update(i, b)) == total_bucket_files(bs) - bs[i].files.len()
            + b.files.len(),
    decreases bs.len(),
{
    let u = bs.update(i, b);
    if i == bs.len() - 1 {
        assert(u.drop_last() =~= bs.drop_last());
        assert(u.last() == b);
    } else {
        lemma_total_update(bs.drop_last(), i, b);
        assert(u.drop_last() =~= bs.drop_last().update(i, b));
        assert(u.last() == bs.last());
        assert(bs.drop_last()[i] == bs[i]);
    }
}

proof fn lemma_count_partition(cs: Seq<GitChange>)
    ensures
        total_bucket_files(buckets_of(cs)) + untracked_dirs_of(cs).len() == cs.len(),
    decreases cs.len(),
{
    if cs.len() > 0 {
        lemma_count_partition(cs.drop_last());
        let prev = buckets_of(cs.drop_last());
        let c = cs.last();
        if !is_untracked_dir(c) {
            let d = parent_of(c.filename@);
            let i = bucket_index_of(prev, d);
            lemma_bucket_index_of_spec(prev, d);
            if i < 0 {
                let newb = BucketModel {
                    dir: d,
                    kind: BucketKind::Uniform(c.change_type),
                    files: seq![c.filename@],
                };
                assert(buckets_of(cs) == prev.push(newb));
                assert(prev.push(newb).drop_last() =~= prev);
                assert(prev.push(newb).last() == newb);
            } else {
                let oldb = prev[i];
                let newk = match oldb.kind {
                    BucketKind::Uniform(k0) => if k0 == c.change_type {
                        BucketKind::Uniform(k0)
                    } else {
                        BucketKind::Mixed
                    },
                    BucketKind::Mixed => BucketKind::Mixed,
                };
                let newb = BucketModel {
                    dir: oldb.dir,
                    kind: newk,
                    files: oldb.files.push(c.filename@),
                };
                assert(buckets_of(cs) == prev.update(i, newb));
                lemma_total_update(prev, i, newb);
            }
        }
    }
}

proof fn lemma_resolved_index(cs: Seq<GitChange>, bs: Seq<BucketModel>, ls: Seq<Option<usize>>)
    requires
        ls.len() == bs.len(),
    ensures
        resolved_groups(cs, bs, ls).len() == bs.len(),
        forall|p: int|
            0 <= p < bs.len() ==> resolved_groups(cs, bs, ls)[p] == resolve_bucket(
                cs,
                bs[p],
                ls[p],
            ),
    decreases bs.len(),
{
    if bs.len() > 0 {
        lemma_resolved_index(cs, bs.drop_last(), ls.drop_last());
        assert forall|p: int| 0 <= p < bs.len() implies resolved_groups(cs, bs, ls)[p]
            == resolve_bucket(cs, bs[p], ls[p]) by {
            if p < bs.len() - 1 {
                assert(bs.drop_last()[p] == bs[p]);
                assert(ls.drop_last()[p] == ls[p]);
            }
        }
    }
}

proof fn lemma_resolved_total(cs: Seq<GitChange>, bs: Seq<BucketModel>, ls: Seq<Option<usize>>)
    requires
        ls.len() == bs.len(),
        forall|p: int|
            0 <= p < bs.len() ==> member_files(cs, (#[trigger] bs[p]).files).len()
                == bs[p].files.len(),
    ensures
        total_unit_files(resolved_groups(cs, bs, ls)) == total_bucket_files(bs),
    decreases bs.len(),
{
    if bs.len() > 0 {
        assert forall|p: int| 0 <= p < bs.drop_last().len() implies member_files(
            cs,
            (#[trigger] bs.drop_last()[p]).files,
        ).len() == bs.drop_last()[p].files.len() by {
            assert(bs.drop_last()[p] == bs[p]);
        }
        lemma_resolved_total(cs, bs.drop_last(), ls.drop_last());
        let g = resolve_bucket(cs, bs.last(), ls.last());
        assert(bs[bs.len() - 1] == bs.last());
        assert(g.files.len() == bs.last().files.len());
        let rest = resolved_groups(cs, bs.drop_last(), ls.drop_last());
        assert(resolved_groups(cs, bs, ls) == rest.push(g));
        assert(rest.push(g).drop_last() =~= rest);
        assert(rest.push(g).last() == g);
    }
}

proof fn lemma_expected_contains(cs: Seq<GitChange>, d: Seq<char>, m: int)
    requires
        0 <= m < cs.len(),
        in_bucket(cs[m], d),
    ensures
        bucket_files_expected(cs, d).contains(cs[m].filename@),
    decreases cs.len(),
{
    let e = bucket_files_expected(cs, d);
    if m == cs.len() - 1 {
        assert(e[e.len() - 1] == cs[m].filename@);
    } else {
        assert(cs.drop_last()[m] == cs[m]);
        lemma_expected_contains(cs.drop_last(), d, m);
        let rest = bucket_files_expected(cs.drop_last(), d);
        let w = choose|w: int| 0 <= w < rest.len() && #[trigger] rest[w] == cs[m].filename@;
        if in_bucket(cs.last(), d) {
            assert(e[w] == rest[w]);
        } else {
            assert(e == rest);
        }
        assert(e[w] == cs[m].filename@);
    }
}

proof fn lemma_expected_kind_contains(cs: Seq<GitChange>, d: Seq<char>, m: int)
    requires
        0 <= m < cs.len(),
        in_bucket(cs[m], d),
    ensures
        bucket_kinds_expected(cs, d).contains(cs[m].change_type),
    decreases cs.len(),
{
    let e = bucket_kinds_expected(cs, d);
    if m == cs.len() - 1 {
        assert(e[e.len() - 1] == cs[m].change_type);
    } else {
        assert(cs.drop_last()[m] == cs[m]);
        lemma_expected_kind_contains(cs.drop_last(), d, m);
        let rest = bucket_kinds_expected(cs.drop_last(), d);
        let w = choose|w: int| 0 <= w < rest.len() && #[trigger] rest[w] == cs[m].change_type;
        if in_bucket(cs.last(), d) {
            assert(e[w] == rest[w]);
        } else {
            assert(e == rest);
        }
        assert(e[w] == cs[m].change_type);
    }
}

proof fn lemma_expected_source(cs: Seq<GitChange>, d: Seq<char>, f: Seq<char>)
    requires
        bucket_files_expected(cs, d).contains(f),
    ensures
        exists|p: int| 0 <= p < cs.len() && in_bucket(#[trigger] cs[p], d) && cs[p].filename@ == f,
    decreases cs.len(),
{
    let e = bucket_files_expected(cs, d);
    let rest = bucket_files_expected(cs.drop_last(), d);
    if in_bucket(cs.last(), d) && cs.last().filename@ == f {
        assert(in_bucket(cs[cs.len() - 1], d) && cs[cs.len() - 1].filename@ == f);
    } else {
        let w = choose|w: int| 0 <= w < e.len() && #[trigger] e[w] == f;
        if in_bucket(cs.last(), d) {
            assert(w < rest.len());
            assert(rest[w] == f);
        } else {
            assert(e == rest);
            assert(rest[w] == f);
        }
        assert(rest.contains(f));
        lemma_expected_source(cs.drop_last(), d, f);
        let p = choose|p: int|
            0 <= p < cs.drop_last().len() && in_bucket(#[trigger] cs.drop_last()[p], d)
                && cs.drop_last()[p].filename@ == f;
        assert(cs[p] == cs.drop_last()[p]);
        assert(in_bucket(cs[p], d) && cs[p].filename@ == f);
    }
}

proof fn lemma_names_equiv(cs: Seq<GitChange>, d: Seq<char>)
    requires
        untracked_paths_distinct(cs),
    ensures
        forall|m: int|
            0 <= m < cs.len() ==> (bucket_files_expected(cs, d).contains(
                (#[trigger] cs[m]).filename@,
            ) <==> in_bucket(cs[m], d)),
{
    let names = bucket_files_expected(cs, d);
    assert forall|m: int| 0 <= m < cs.len() implies (names.contains((#[trigger] cs[m]).filename@)
        <==> in_bucket(cs[m], d)) by {
        if in_bucket(cs[m], d) {
            lemma_expected_contains(cs, d, m);
        }
        if names.contains(cs[m].filename@) {
            lemma_expected_source(cs, d, cs[m].filename@);
            let p = choose|p: int|
                0 <= p < cs.len() && in_bucket(#[trigger] cs[p], d) && cs[p].filename@
                    == cs[m].filename@;
            if is_untracked_dir(cs[m]) {
                assert(cs[m].filename@ != cs[p].filename@);
                assert(false);
            } else {
                assert(parent_of(cs[m].filename@) == parent_of(cs[p].filename@));
            }
        }
    }
}

proof fn lemma_member_matches_expected(cs: Seq<GitChange>, d: Seq<char>, names: Seq<Seq<char>>)
    requires
        forall|m: int|
            0 <= m < cs.len() ==> (names.contains((#[trigger] cs[m]).filename@) <==> in_bucket(
                cs[m],
                d,
            )),
    ensures
        member_files(cs, names) == bucket_files_expected(cs, d),
        member_kinds(cs, names) == bucket_kinds_expected(cs, d),
    decreases cs.len(),
{
    if cs.len() > 0 {
        assert forall|m: int| 0 <= m < cs.drop_last().len() implies (names.contains(
            (#[trigger] cs.drop_last()[m]).filename@,
        ) <==> in_bucket(cs.drop_last()[m], d)) by {
            assert(cs.drop_last()[m] == cs[m]);
        }
        lemma_member_matches_expected(cs.drop_last(), d, names);
        assert(cs[cs.len() - 1] == cs.last());
    }
}

/// Law: the total file count across all commit units equals the input
/// record count — no file is dropped or duplicated — an
/// untracked-directory entry counting as the one file it stands for.
/// Holds whenever no untracked-directory entry shares its path with
/// another record, which is true of every real status listing.
pub proof fn lemma_grouping_preserves_count(cs: Seq<GitChange>, ls: Seq<Option<usize>>)
    requires
        ls.len() == buckets_of(cs).len(),
        untracked_paths_distinct(cs),
    ensures
        total_unit_files(groups_of(cs, ls)) == cs.len(),
{
    let bs = buckets_of(cs);
    lemma_buckets_characterize(cs);
    lemma_total_concat(untracked_groups_of(cs), resolved_groups(cs, bs, ls));
    lemma_untracked_total(cs);
    lemma_count_partition(cs);
    assert forall|p: int| 0 <= p < bs.len() implies member_files(
        cs,
        (#[trigger] bs[p]).files,
    ).len() == bs[p].files.len() by {
        lemma_names_equiv(cs, bs[p].dir);
        lemma_member_matches_expected(cs, bs[p].dir, bucket_files_expected(cs, bs[p].dir));
    }
    lemma_resolved_total(cs, bs, ls);
}

proof fn lemma_member_parallel_len(cs: Seq<GitChange>, names: Seq<Seq<char>>)
    ensures
        member_files(cs, names).len() == member_kinds(cs, names).len(),
    decreases cs.len(),
{
    if cs.len() > 0 {
        lemma_member_parallel_len(cs.drop_last(), names);
    }
}

proof fn lemma_member_files_has(cs: Seq<GitChange>, names: Seq<Seq<char>>, m: int)
    requires
        0 <= m < cs.len(),
        names.contains(cs[m].filename@),
    ensures
        member_files(cs, names).len() > 0,
    decreases cs.len(),
{
    if m < cs.len() - 1 {
        assert(cs.drop_last()[m] == cs[m]);
        lemma_member_files_has(cs.drop_last(), names, m);
    }
}

/// Law: every emitted commit unit is well formed, as the data model
/// demands: its file list is never empty; a whole-directory unit
/// carries no per-file kinds; an individual unit carries exactly one
/// kind per file, index-aligned.
pub proof fn lemma_units_well_formed(cs: Seq<GitChange>, ls: Seq<Option<usize>>)
    requires
        ls.len() == buckets_of(cs).len(),
    ensures
        forall|j: int|
            0 <= j < groups_of(cs, ls).len() ==> ({
                let g = #[trigger] groups_of(cs, ls)[j];
                &&& g.files.len() > 0
                &&& (g.kind is Individual <==> g.kinds is Some)
                &&& (g.kinds matches Some(ks) ==> ks.len() == g.files.len())
            }),
{
    let bs = buckets_of(cs);
    lemma_buckets_characterize(cs);
    lemma_untracked_group_paths(cs);
    lemma_resolved_index(cs, bs, ls);
    let ug = untracked_groups_of(cs);
    let u = ug.len();
    let gs = groups_of(cs, ls);
    assert forall|j: int| 0 <= j < gs.len() implies ({
        let g = #[trigger] gs[j];
        &&& g.files.len() > 0
        &&& (g.kind is Individual <==> g.kinds is Some)
        &&& (g.kinds matches Some(ks) ==> ks.len() == g.files.len())
    }) by {
        if j < u {
            assert(gs[j] == ug[j]);
        } else {
            let p = j - u;
            assert(gs[j] == resolve_bucket(cs, bs[p], ls[p]));
            let names = bs[p].files;
            match bs[p].kind {
                BucketKind::Uniform(k) => {
                    if !(ls[p] matches Some(n) && n == names.len()) {
                        lemma_individual_shape(cs, bs[p]);
                    }
                },
                BucketKind::Mixed => {
                    lemma_individual_shape(cs, bs[p]);
                },
            }
        }
    }
}

proof fn lemma_individual_shape(cs: Seq<GitChange>, b: BucketModel)
    requires
        b.files == bucket_files_expected(cs, b.dir),
        b.files.len() > 0,
    ensures
        member_files(cs, b.files).len() > 0,
        member_files(cs, b.files).len() == member_kinds(cs, b.files).len(),
{
    lemma_member_parallel_len(cs, b.files);
    assert(b.files.contains(b.files[0]));
    lemma_expected_source(cs, b.dir, b.files[0]);
    let m = choose|m: int|
        0 <= m < cs.len() && in_bucket(#[trigger] cs[m], b.dir) && cs[m].filename@ == b.files[0];
    lemma_member_files_has(cs, b.files, m);
}

proof fn lemma_untracked_group_paths(cs: Seq<GitChange>)
    ensures
        untracked_groups_of(cs).len() == untracked_dirs_of(cs).len(),
        forall|j: int|
            0 <= j < untracked_groups_of(cs).len() ==> ({
                let g = #[trigger] untracked_groups_of(cs)[j];
                &&& g.path.len() > 0
                &&& g.path.last() == '/'
                &&& g.kind == GroupKind::Directory(ChangeType::Add)
                &&& g.files.len() == 1
                &&& g.kinds is None
            }),
    decreases cs.len(),
{
    if cs.len() > 0 {
        lemma_untracked_group_paths(cs.drop_last());
    }
}

proof fn lemma_kinds_uniform_from_records(cs: Seq<GitChange>, d: Seq<char>, k: ChangeType)
    requires
        forall|m: int|
            0 <= m < cs.len() && in_bucket(#[trigger] cs[m], d) ==> cs[m].change_type == k,
    ensures
        kinds_uniform(bucket_kinds_expected(cs, d), k),
    decreases cs.len(),
{
    if cs.len() > 0 {
        assert forall|m: int|
            0 <= m < cs.drop_last().len() && in_bucket(
                #[trigger] cs.drop_last()[m],
                d,
            ) implies cs.drop_last()[m].change_type == k by {
            assert(cs.drop_last()[m] == cs[m]);
        }
        lemma_kinds_uniform_from_records(cs.drop_last(), d, k);
        assert(cs[cs.len() - 1] == cs.last());
    }
}

/// Law (boundary, first half): when every record of a directory shares
/// one change kind and the lister counts exactly the changed files, the
/// grouping emits for that directory exactly one unit — a
/// whole-directory unit of that kind holding exactly those files — and
/// no other unit is a whole-directory unit for that directory.
pub proof fn lemma_full_uniform_directory(
    cs: Seq<GitChange>,
    ls: Seq<Option<usize>>,
    d: Seq<char>,
    k: ChangeType,
)
    requires
        ls.len() == buckets_of(cs).len(),
        exists|m: int| 0 <= m < cs.len() && in_bucket(#[trigger] cs[m], d),
        forall|m: int|
            0 <= m < cs.len() && in_bucket(#[trigger] cs[m], d) ==> cs[m].change_type == k,
        ({
            let i = bucket_index_of(buckets_of(cs), d);
            ls[i] matches Some(n) && n == bucket_files_expected(cs, d).len()
        }),
    ensures
        ({
            let gs = groups_of(cs, ls);
            let u = untracked_groups_of(cs).len();
            let i = bucket_index_of(buckets_of(cs), d);
            &&& 0 <= i < buckets_of(cs).len()
            &&& gs.len() == u + buckets_of(cs).len()
            &&& gs[u + i] == (GroupModel {
                path: d,
                kind: GroupKind::Directory(k),
                files: bucket_files_expected(cs, d),
                kinds: None,
            })
            &&& forall|j: int|
                0 <= j < gs.len() && j != u + i ==> ((#[trigger] gs[j]).kind is Individual
                    || gs[j].path != d)
        }),
{
    let bs = buckets_of(cs);
    lemma_buckets_characterize(cs);
    let m0 = choose|m: int| 0 <= m < cs.len() && in_bucket(#[trigger] cs[m], d);
    let i = bucket_index_of(bs, d);
    lemma_bucket_index_of_spec(bs, d);
    assert(0 <= i < bs.len() && bs[i].dir == d);
    let ks = bucket_kinds_expected(cs, d);
    lemma_expected_parallel_len(cs, d);
    lemma_kinds_uniform_from_records(cs, d, k);
    assert(bs[i].files == bucket_files_expected(cs, d));
    assert(ks.len() > 0);
    match bs[i].kind {
        BucketKind::Uniform(k1) => {
            assert(k1 == ks[0]);
            assert(ks[0] == k);
        },
        BucketKind::Mixed => {
            let w = choose|w: int| 0 <= w < ks.len() && #[trigger] ks[w] != ks[0];
            assert(ks[w] == k && ks[0] == k);
            assert(false);
        },
    }
    assert(bs[i].kind == BucketKind::Uniform(k));
    lemma_resolved_index(cs, bs, ls);
    let rg = resolved_groups(cs, bs, ls);
    let ug = untracked_groups_of(cs);
    let u = ug.len();
    let gs = groups_of(cs, ls);
    assert(gs[u + i] == rg[i]);
    assert(rg[i] == resolve_bucket(cs, bs[i], ls[i]));
    lemma_untracked_group_paths(cs);
    lemma_parent_no_trailing_slash(cs[m0].filename@);
    assert forall|j: int| 0 <= j < gs.len() && j != u + i implies ((#[trigger] gs[j]).kind
        is Individual || gs[j].path != d) by {
        if j < u {
            assert(gs[j] == ug[j]);
            assert(ug[j].path.last() == '/');
            if ug[j].path == d {
                assert(d.last() == '/');
                assert(false);
            }
        } else {
            let p = j - u;
            assert(gs[j] == rg[p]);
            assert(rg[p] == resolve_bucket(cs, bs[p], ls[p]));
            match bs[p].kind {
                BucketKind::Uniform(kp) => {
                    if (ls[p] matches Some(n) && n == bs[p].files.len()) {
                        assert(rg[p].path == bs[p].dir);
                        assert(bs[p].dir != d);
                    } else {
                        assert(rg[p].kind is Individual);
                    }
                },
                BucketKind::Mixed => {
                    assert(rg[p].kind is Individual);
                },
            }
        }
    }
}

/// Law (boundary, second half): as soon as two records of one
/// directory carry different change kinds, that directory's bucket is
/// emitted as an individual-files unit — its files re-walked with
/// their own kinds — whatever the lister answers.
pub proof fn lemma_mixed_directory_goes_individual(
    cs: Seq<GitChange>,
    ls: Seq<Option<usize>>,
    d: Seq<char>,
    a: int,
    b: int,
)
    requires
        ls.len() == buckets_of(cs).len(),
        0 <= a < cs.len(),
        0 <= b < cs.len(),
        in_bucket(cs[a], d),
        in_bucket(cs[b], d),
        cs[a].change_type != cs[b].change_type,
    ensures
        ({
            let gs = groups_of(cs, ls);
            let u = untracked_groups_of(cs).len();
            let i = bucket_index_of(buckets_of(cs), d);
            &&& 0 <= i < buckets_of(cs).len()
            &&& gs[u + i] == individual_group(cs, bucket_files_expected(cs, d))
        }),
{
    let bs = buckets_of(cs);
    lemma_buckets_characterize(cs);
    let i = bucket_index_of(bs, d);
    lemma_bucket_index_of_spec(bs, d);
    assert(0 <= i < bs.len() && bs[i].dir == d);
    let ks = bucket_kinds_expected(cs, d);
    lemma_expected_kind_contains(cs, d, a);
    lemma_expected_kind_contains(cs, d, b);
    match bs[i].kind {
        BucketKind::Uniform(k1) => {
            let wa = choose|w: int| 0 <= w < ks.len() && #[trigger] ks[w] == cs[a].change_type;
            let wb = choose|w: int| 0 <= w < ks.len() && #[trigger] ks[w] == cs[b].change_type;
            assert(ks[wa] == k1 && ks[wb] == k1);
            assert(false);
        },
        BucketKind::Mixed => {},
    }
    lemma_resolved_index(cs, bs, ls);
    let u = untracked_groups_of(cs).len();
    let gs = groups_of(cs, ls);
    assert(gs[u + i] == resolved_groups(cs, bs, ls)[i]);
    assert(bs[i].files == bucket_files_expected(cs, d));
}

} // verus!
