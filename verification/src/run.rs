//! The progress of a run through its steps: one step at a time, and none
//! after a failure. The stages of an install are gone through in this way,
//! and so are the steps of the artifact gate within an audit step.

use crate::outcome::RunEnd;
use crate::schedule::step_depth;
use crate::schedule::step_phase;
use crate::schedule::Stage;
use crate::schedule::StageView;
use crate::schedule::Step;
use crate::schedule::StepView;
use vstd::prelude::*;

verus! {

/// Where a run stands.
#[derive(Clone, Copy, Debug, PartialEq, Eq, Structural)]
pub enum RunState {
    /// The operator has to confirm the summary.
    Confirming,
    /// The next stage is the review of a recipe.
    Reviewing,
    /// The next stage installs the system packages.
    InstallingSystemPackages,
    /// The next step builds a package-base of the tier at this depth.
    Building(i32),
    /// The next step audits the artifacts of a package-base of the tier.
    Auditing(i32),
    /// The next step installs the tier.
    Installing(i32),
    /// Every step was taken.
    Done,
    /// A step failed; the run is over.
    Aborted(RunEnd),
}

/// The place of a run in its steps.
#[derive(Clone, Copy, Debug, PartialEq, Eq, Structural)]
pub struct Run {
    /// The number of steps taken with success.
    pub taken: usize,
    /// How the run failed, if it did.
    pub failure: Option<RunEnd>,
}

/// The place of the step to take now among `total` steps; none when the run
/// is over.
pub open spec fn spec_position(total: nat, run: Run) -> Option<usize> {
    if run.failure is None && run.taken < total {
        Some(run.taken)
    } else {
        None
    }
}

/// The state that a step of the plan is taken in.
pub open spec fn spec_step_state(step: StepView) -> RunState {
    if step_phase(step) == 0 {
        RunState::Building(step_depth(step) as i32)
    } else if step_phase(step) == 1 {
        RunState::Auditing(step_depth(step) as i32)
    } else {
        RunState::Installing(step_depth(step) as i32)
    }
}

/// The state of a run through the stages of an install.
pub open spec fn spec_state(stages: Seq<StageView>, run: Run) -> RunState {
    match run.failure {
        Some(end) => RunState::Aborted(end),
        None => if run.taken >= stages.len() {
            RunState::Done
        } else {
            match stages[run.taken as int] {
                StageView::Confirm => RunState::Confirming,
                StageView::Review { .. } => RunState::Reviewing,
                StageView::InstallSystemPackages => RunState::InstallingSystemPackages,
                StageView::Work(step) => spec_step_state(step),
            }
        },
    }
}

/// Whether the outcome of a step is a success: no end, or a completed one.
pub open spec fn is_success(outcome: Option<RunEnd>) -> bool {
    outcome is None || outcome == Some(RunEnd::Completed)
}

/// The run after the outcome of its current step: a success moves on by one
/// step, a failure ends the run, and a run that is over stays as it is.
pub open spec fn spec_advance(total: nat, run: Run, outcome: Option<RunEnd>) -> Run {
    if run.failure is Some || run.taken >= total {
        run
    } else if is_success(outcome) {
        Run { taken: (run.taken + 1) as usize, failure: None }
    } else {
        Run { taken: run.taken, failure: outcome }
    }
}

/// No run has failed with a completed end.
pub open spec fn is_valid(run: Run) -> bool {
    run.failure != Some(RunEnd::Completed)
}

/// How a run through `total` steps ended; none while steps are left.
pub open spec fn spec_end(total: nat, run: Run) -> Option<RunEnd> {
    match run.failure {
        Some(end) => Some(end),
        None => if run.taken >= total {
            Some(RunEnd::Completed)
        } else {
            None
        },
    }
}

impl Run {
    /// A run that has taken no step.
    pub fn start() -> (r: Run)
        ensures
            r == (Run { taken: 0, failure: None }),
            is_valid(r),
    {
        Run { taken: 0, failure: None }
    }

    /// The place of the step to take now among `total` steps; none when the
    /// run is over.
    pub fn position(&self, total: usize) -> (r: Option<usize>)
        ensures
            r == spec_position(total as nat, *self),
    {
        if self.failure.is_none() && self.taken < total {
            Some(self.taken)
        } else {
            None
        }
    }

    /// Records the outcome of the current step: `None` for a success, or how
    /// it failed.
    pub fn advance(&mut self, total: usize, outcome: Option<RunEnd>)
        ensures
            *final(self) == spec_advance(total as nat, *old(self), outcome),
            is_valid(*old(self)) ==> is_valid(*final(self)),
    {
        if self.failure.is_none() && self.taken < total {
            match outcome {
                None => {
                    self.taken = self.taken + 1;
                },
                Some(RunEnd::Completed) => {
                    self.taken = self.taken + 1;
                },
                Some(end) => {
                    self.failure = Some(end);
                },
            }
        }
    }

    /// How the run ended; `None` while steps are left.
    pub fn end(&self, total: usize) -> (r: Option<RunEnd>)
        ensures
            r == spec_end(total as nat, *self),
    {
        match self.failure {
            Some(end) => Some(end),
            None => if self.taken >= total {
                Some(RunEnd::Completed)
            } else {
                None
            },
        }
    }

    /// Where a run through the stages of an install stands.
    pub fn state(&self, stages: &Vec<Stage>) -> (r: RunState)
        ensures
            r == spec_state(stages.deep_view(), *self),
    {
        match self.failure {
            Some(end) => RunState::Aborted(end),
            None => {
                if self.taken >= stages.len() {
                    RunState::Done
                } else {
                    assert(stages.deep_view()[self.taken as int]
                        == stages[self.taken as int].deep_view());
                    match &stages[self.taken] {
                        Stage::Confirm => RunState::Confirming,
                        Stage::Review { .. } => RunState::Reviewing,
                        Stage::InstallSystemPackages => RunState::InstallingSystemPackages,
                        Stage::Work(Step::Build { depth, .. }) => RunState::Building(*depth),
                        Stage::Work(Step::Audit { depth, .. }) => RunState::Auditing(*depth),
                        Stage::Work(Step::Install { depth, .. }) => RunState::Installing(*depth),
                    }
                }
            },
        }
    }
}

/// After a failure no outcome changes the run, and no step is offered: no
/// later step is taken.
pub proof fn law_aborted_run_stays_aborted(total: nat, run: Run, outcome: Option<RunEnd>)
    requires
        run.failure is Some,
    ensures
        spec_advance(total, run, outcome) == run,
        spec_position(total, run) is None,
        spec_end(total, run) == run.failure,
{
}

/// A step is taken only after every step before it succeeded: a run advances
/// by one step on a success and by none otherwise, so the step at a place is
/// offered only to a run that has taken exactly the steps before it, all with
/// success.
pub proof fn law_run_takes_steps_in_order(total: nat, run: Run, outcome: Option<RunEnd>)
    requires
        total <= usize::MAX,
    ensures
        spec_advance(total, run, outcome).taken == run.taken || (is_success(outcome)
            && run.failure is None && run.taken < total && spec_advance(total, run, outcome).taken
            == run.taken + 1),
        spec_position(total, run) matches Some(place) ==> place == run.taken && run.failure is None,
{
}

/// A run is over exactly when no step is offered, and it is completed only
/// when every step was taken without a failure.
pub proof fn law_run_ends_when_no_step_is_left(total: nat, run: Run)
    requires
        is_valid(run),
    ensures
        spec_end(total, run) is Some <==> spec_position(total, run) is None,
        spec_end(total, run) == Some(RunEnd::Completed) ==> run.taken >= total,
{
}

} // verus!
