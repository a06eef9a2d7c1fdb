//! The commit orchestrator: plans the stage/commit steps of a sequence
//! of commit units and drives them in order with per-step failure
//! isolation.
//!
//! The orchestrator never touches a repository itself.  It is a state
//! machine: the caller asks `next_action` what to do, performs the
//! action against its version-control tool, and reports the outcome
//! through `record_outcome`.  A failed stage or commit is counted and
//! the run moves on to the next step — one failure never aborts the
//! remaining commits.  In dry-run mode the machine finishes at once and
//! issues no action; after the last step the caller is asked for one
//! push exactly when push was requested outside dry-run mode.

use vstd::prelude::*;
use vstd::string::StringExecFns;

use crate::grouping::ChangeGroup;
use crate::grouping::GroupKind;
use crate::grouping::GroupModel;
use crate::paths::base_name;
use crate::paths::base_name_of;
use crate::paths::ends_with_slash;
use crate::types::kind_token;

verus! {

/// What one commit step stages: a whole directory, or one file.
#[derive(Debug, Clone)]
pub enum StepTarget {
    Directory(String),
    File(String),
}

/// One planned step: stage the target, then commit with the message.
#[derive(Debug, Clone)]
pub struct CommitStep {
    pub target: StepTarget,
    pub message: String,
}

/// The mathematical value of one commit step.
#[verifier::ext_equal]
pub struct StepModel {
    pub stage_directory: bool,
    pub target: Seq<char>,
    pub message: Seq<char>,
}

impl View for CommitStep {
    type V = StepModel;

    open spec fn view(&self) -> StepModel {
        match self.target {
            StepTarget::Directory(p) => StepModel {
                stage_directory: true,
                target: p@,
                message: self.message@,
            },
            StepTarget::File(p) => StepModel {
                stage_directory: false,
                target: p@,
                message: self.message@,
            },
        }
    }
}

impl DeepView for CommitStep {
    type V = StepModel;

    open spec fn deep_view(&self) -> StepModel {
        self.view()
    }
}

/// A commit message: "{kind token}: {name}".
pub open spec fn message_of(tok: Seq<char>, name: Seq<char>) -> Seq<char> {
    tok + ": "@ + name
}

/// The kind token a file falls back to when its unit records no kind
/// for it: "add" for a path ending in a separator, "mod" otherwise.
pub open spec fn fallback_token(name: Seq<char>) -> Seq<char> {
    if name.len() > 0 && name.last() == '/' {
        "add"@
    } else {
        "mod"@
    }
}

/// The kind token of file `i` of an individual unit: its recorded
/// per-file kind when present and in range, else the fallback.
pub open spec fn file_token(g: GroupModel, i: int) -> Seq<char> {
    match g.kinds {
        Some(ks) => if 0 <= i < ks.len() {
            kind_token(ks[i])
        } else {
            fallback_token(g.files[i])
        },
        None => fallback_token(g.files[i]),
    }
}

/// The steps of one unit: a whole-directory unit stages its directory
/// and commits "{kind}: {base name}"; an individual unit stages each
/// file in order and commits "{kind}: {filename}" for each.
pub open spec fn group_steps(g: GroupModel) -> Seq<StepModel> {
    match g.kind {
        GroupKind::Directory(k) => seq![
            StepModel {
                stage_directory: true,
                target: g.path,
                message: message_of(kind_token(k), base_name_of(g.path)),
            },
        ],
        GroupKind::Individual => Seq::new(
            g.files.len(),
            |i: int|
                StepModel {
                    stage_directory: false,
                    target: g.files[i],
                    message: message_of(file_token(g, i), g.files[i]),
                },
        ),
    }
}

/// The steps of a unit sequence, unit by unit in order.
pub open spec fn steps_of(gs: Seq<GroupModel>) -> Seq<StepModel>
    decreases gs.len(),
{
    if gs.len() == 0 {
        Seq::empty()
    } else {
        steps_of(gs.drop_last()) + group_steps(gs.last())
    }
}

fn fallback_token_str(name: &str) -> (r: String)
    ensures
        r@ == fallback_token(name@),
{
    if ends_with_slash(name) {
        String::from_str("add")
    } else {
        String::from_str("mod")
    }
}

/// Plans the stage/commit steps of the units, in unit order.
pub fn plan_commit_steps(groups: &Vec<ChangeGroup>) -> (r: Vec<CommitStep>)
    ensures
        r.deep_view() == steps_of(groups.deep_view()),
{
    let mut out: Vec<CommitStep> = Vec::new();
    let mut gi: usize = 0;
    while gi < groups.len()
        invariant
            gi <= groups@.len(),
            out.deep_view() == steps_of(groups.deep_view().take(gi as int)),
        decreases groups@.len() - gi,
    {
        let g = &groups[gi];
        let ghost gm = groups.deep_view()[gi as int];
        let ghost prev = out.deep_view();
        proof {
            assert(groups.deep_view().take(gi + 1).drop_last() =~= groups.deep_view().take(
                gi as int,
            ));
            assert(groups.deep_view().take(gi + 1).last() == gm);
        }
        match &g.change_type {
            GroupKind::Directory(k) => {
                let mut msg = k.to_string();
                msg.append(": ");
                let name = base_name(g.path.as_str());
                msg.append(name.as_str());
                out.push(CommitStep { target: StepTarget::Directory(g.path.clone()), message: msg });
                proof {
                    assert(out.deep_view() =~~= prev + group_steps(gm));
                }
            },
            GroupKind::Individual => {
                let nf = g.files.len();
                let mut fi: usize = 0;
                while fi < nf
                    invariant
                        fi <= nf,
                        nf == g.files@.len(),
                        gi < groups@.len(),
                        out.deep_view() == prev + group_steps(gm).take(fi as int),
                        gm == groups.deep_view()[gi as int],
                        gm.kind is Individual,
                        gm == g.deep_view(),
                    decreases nf - fi,
                {
                    let f = &g.files[fi];
                    let tok: String = match &g.file_change_types {
                        Some(ks) => {
                            if fi < ks.len() {
                                ks[fi].to_string()
                            } else {
                                fallback_token_str(f.as_str())
                            }
                        },
                        None => fallback_token_str(f.as_str()),
                    };
                    let mut msg = tok;
                    msg.append(": ");
                    msg.append(f.as_str());
                    let ghost stepm = StepModel {
                        stage_directory: false,
                        target: f@,
                        message: msg@,
                    };
                    let ghost inner_prev = out.deep_view();
                    out.push(CommitStep { target: StepTarget::File(f.clone()), message: msg });
                    proof {
                        assert(gm.files[fi as int] == f@);
                        assert(stepm.message == file_token(gm, fi as int) + ": "@ + f@);
                        assert(group_steps(gm)[fi as int] =~~= stepm);
                        assert(out.deep_view() =~~= inner_prev.push(stepm));
                        assert(prev + group_steps(gm).take(fi + 1) =~~= (prev + group_steps(
                            gm,
                        ).take(fi as int)).push(group_steps(gm)[fi as int]));
                        assert(out.deep_view() =~~= prev + group_steps(gm).take(fi + 1));
                    }
                    fi = fi + 1;
                }
                proof {
                    assert(group_steps(gm).take(nf as int) =~= group_steps(gm));
                }
            },
        }
        proof {
            assert(out.deep_view() =~~= steps_of(groups.deep_view().take(gi + 1)));
        }
        gi = gi + 1;
    }
    proof {
        assert(groups.deep_view().take(groups@.len() as int) =~= groups.deep_view());
    }
    out
}

/// What the orchestrator asks its caller to do next.
#[derive(Debug)]
pub enum GitAction {
    StageDirectory(String),
    StageFile(String),
    Commit(String),
    Push,
    Done,
}

/// Where a run stands: about to stage the current step, about to
/// commit it (its staging succeeded), about to push, or finished.
#[derive(Debug, Clone, Copy, PartialEq, Eq, Structural)]
pub enum RunPhase {
    Staging,
    Committing,
    Pushing,
    Done,
}

/// The outcome report of one run: how many steps were committed, how
/// many failed (at staging or at committing), and whether the final
/// push succeeded (`None`: no push was attempted).
#[derive(Debug, Clone, Copy, PartialEq, Eq)]
pub struct RunReport {
    pub committed: usize,
    pub failed: usize,
    pub pushed: Option<bool>,
    pub dry_run: bool,
}

/// The phase a run enters once step `new_idx` becomes current: still
/// staging while steps remain, then pushing exactly when a push is
/// owed, else done.
pub open spec fn phase_at(steps_len: int, new_idx: int, push_owed: bool) -> RunPhase {
    if new_idx < steps_len {
        RunPhase::Staging
    } else if push_owed {
        RunPhase::Pushing
    } else {
        RunPhase::Done
    }
}

/// The orchestrator of one pass.  The caller alternates `next_action`
/// and `record_outcome` until `next_action` answers `Done`, then reads
/// the report.
#[derive(Debug)]
pub struct CommitRun {
    pub steps: Vec<CommitStep>,
    pub idx: usize,
    pub phase: RunPhase,
    pub committed: usize,
    pub failed: usize,
    pub pushed: Option<bool>,
    pub dry_run: bool,
    pub push_requested: bool,
}

impl CommitRun {
    /// The machine's invariant: the position is inside the plan while
    /// staging or committing; every passed step is counted exactly once
    /// as committed or failed; pushing happens only once, after the
    /// last step, when owed; a dry run is finished from the start.
    pub open spec fn wf(&self) -> bool {
        &&& self.steps@.len() <= usize::MAX
        &&& self.idx <= self.steps@.len()
        &&& (self.phase == RunPhase::Staging || self.phase == RunPhase::Committing) ==> self.idx
            < self.steps@.len()
        &&& self.committed + self.failed == self.idx
        &&& (self.phase == RunPhase::Pushing || self.phase == RunPhase::Done) ==> (self.idx
            == self.steps@.len() || self.dry_run)
        &&& self.phase == RunPhase::Pushing ==> (self.push_requested && !self.dry_run
            && self.pushed is None)
        &&& self.pushed is Some ==> self.phase == RunPhase::Done
        &&& self.dry_run ==> (self.phase == RunPhase::Done && self.idx == 0)
    }

    /// Starts a run over the units: plans their steps and stands ready
    /// at the first one (or finished at once in dry-run mode).
    pub fn new(groups: &Vec<ChangeGroup>, dry_run: bool, push: bool) -> (r: CommitRun)
        ensures
            r.wf(),
            r.steps.deep_view() == steps_of(groups.deep_view()),
            r.idx == 0,
            r.committed == 0,
            r.failed == 0,
            r.pushed is None,
            r.dry_run == dry_run,
            r.push_requested == push,
            r.phase == (if dry_run {
                RunPhase::Done
            } else {
                phase_at(steps_of(groups.deep_view()).len() as int, 0, push)
            }),
    {
        let steps = plan_commit_steps(groups);
        let n_steps = steps.len();
        let phase = if dry_run {
            RunPhase::Done
        } else if n_steps > 0 {
            RunPhase::Staging
        } else if push {
            RunPhase::Pushing
        } else {
            RunPhase::Done
        };
        CommitRun {
            steps,
            idx: 0,
            phase,
            committed: 0,
            failed: 0,
            pushed: None,
            dry_run,
            push_requested: push,
        }
    }

    /// The action the caller should perform now: stage the current
    /// step's target, commit the current step's message, push, or
    /// nothing because the run is finished.
    pub fn next_action(&self) -> (a: GitAction)
        requires
            self.wf(),
        ensures
            match self.phase {
                RunPhase::Staging => ({
                    let s = self.steps.deep_view()[self.idx as int];
                    if s.stage_directory {
                        a matches GitAction::StageDirectory(p) && p@ == s.target
                    } else {
                        a matches GitAction::StageFile(p) && p@ == s.target
                    }
                }),
                RunPhase::Committing => (a matches GitAction::Commit(m) && m@
                    == self.steps.deep_view()[self.idx as int].message),
                RunPhase::Pushing => a is Push,
                RunPhase::Done => a is Done,
            },
    {
        match self.phase {
            RunPhase::Staging => {
                let step = &self.steps[self.idx];
                match &step.target {
                    StepTarget::Directory(p) => GitAction::StageDirectory(p.clone()),
                    StepTarget::File(p) => GitAction::StageFile(p.clone()),
                }
            },
            RunPhase::Committing => GitAction::Commit(self.steps[self.idx].message.clone()),
            RunPhase::Pushing => GitAction::Push,
            RunPhase::Done => GitAction::Done,
        }
    }

    /// Advances the machine on the outcome of the action just
    /// performed.  A failed stage skips the step's commit; a failure of
    /// either kind is counted and the run continues with the next step,
    /// so one step's outcome never affects the others.
    pub fn record_outcome(&mut self, ok: bool)
        requires
            old(self).wf(),
            old(self).phase != RunPhase::Done,
        ensures
            final(self).wf(),
            final(self).steps == old(self).steps,
            final(self).dry_run == old(self).dry_run,
            final(self).push_requested == old(self).push_requested,
            match old(self).phase {
                RunPhase::Staging => if ok {
                    &&& final(self).phase == RunPhase::Committing
                    &&& final(self).idx == old(self).idx
                    &&& final(self).committed == old(self).committed
                    &&& final(self).failed == old(self).failed
                    &&& final(self).pushed == old(self).pushed
                } else {
                    &&& final(self).phase == phase_at(
                        old(self).steps@.len() as int,
                        old(self).idx + 1,
                        old(self).push_requested,
                    )
                    &&& final(self).idx == old(self).idx + 1
                    &&& final(self).committed == old(self).committed
                    &&& final(self).failed == old(self).failed + 1
                    &&& final(self).pushed == old(self).pushed
                },
                RunPhase::Committing => {
                    &&& final(self).phase == phase_at(
                        old(self).steps@.len() as int,
                        old(self).idx + 1,
                        old(self).push_requested,
                    )
                    &&& final(self).idx == old(self).idx + 1
                    &&& final(self).committed == old(self).committed + (if ok {
                        1int
                    } else {
                        0int
                    })
                    &&& final(self).failed == old(self).failed + (if ok {
                        0int
                    } else {
                        1int
                    })
                    &&& final(self).pushed == old(self).pushed
                },
                RunPhase::Pushing => {
                    &&& final(self).phase == RunPhase::Done
                    &&& final(self).idx == old(self).idx
                    &&& final(self).committed == old(self).committed
                    &&& final(self).failed == old(self).failed
                    &&& final(self).pushed == Some(ok)
                },
                RunPhase::Done => false,
            },
    {
        match self.phase {
            RunPhase::Staging => {
                if ok {
                    self.phase = RunPhase::Committing;
                } else {
                    self.failed = self.failed + 1;
                    self.idx = self.idx + 1;
                    self.advance_phase();
                }
            },
            RunPhase::Committing => {
                if ok {
                    self.committed = self.committed + 1;
                } else {
                    self.failed = self.failed + 1;
                }
                self.idx = self.idx + 1;
                self.advance_phase();
            },
            RunPhase::Pushing => {
                self.pushed = Some(ok);
                self.phase = RunPhase::Done;
            },
            RunPhase::Done => {},
        }
    }

    fn advance_phase(&mut self)
        requires
            old(self).idx <= old(self).steps@.len(),
        ensures
            final(self).phase == phase_at(
                old(self).steps@.len() as int,
                old(self).idx as int,
                old(self).push_requested,
            ),
            final(self).idx == old(self).idx,
            final(self).steps == old(self).steps,
            final(self).committed == old(self).committed,
            final(self).failed == old(self).failed,
            final(self).pushed == old(self).pushed,
            final(self).dry_run == old(self).dry_run,
            final(self).push_requested == old(self).push_requested,
    {
        if self.idx < self.steps.len() {
            self.phase = RunPhase::Staging;
        } else if self.push_requested {
            self.phase = RunPhase::Pushing;
        } else {
            self.phase = RunPhase::Done;
        }
    }

    /// The outcome report of the run so far.
    pub fn report(&self) -> (r: RunReport)
        ensures
            r.committed == self.committed,
            r.failed == self.failed,
            r.pushed == self.pushed,
            r.dry_run == self.dry_run,
    {
        RunReport {
            committed: self.committed,
            failed: self.failed,
            pushed: self.pushed,
            dry_run: self.dry_run,
        }
    }
}

} // verus!
