//! The order of work for a build plan: tier by tier, all builds of a tier,
//! then all its audits, then one install of what the audits let through.

use crate::gate::spec_tier_whitelist;
use crate::gate::tier_whitelist;
use crate::names::copy_names;
use crate::plan::EntryView;
use crate::plan::Tier;
use crate::plan::TierView;
use vstd::prelude::*;

verus! {

/// One piece of work that the caller carries out. A step that fails ends the
/// run: no later step is taken.
#[derive(Debug)]
pub enum Step {
    /// Build the package-base in a fresh copy of its reviewed recipe.
    Build { depth: i32, pkgbase: String },
    /// Have the build's artifacts audited and moved to the checked archives.
    /// Only files that start with an entry of the tier's whitelist are taken.
    Audit { depth: i32, pkgbase: String, whitelist: Vec<String> },
    /// Install the checked archives of all package-bases of the tier in one
    /// call. Each package is given as its package-base and the target that
    /// stands for it.
    Install { depth: i32, as_dependency: bool, packages: Vec<(String, String)> },
}

/// The mathematical content of a [`Step`].
pub enum StepView {
    Build { depth: int, pkgbase: Seq<char> },
    Audit { depth: int, pkgbase: Seq<char>, whitelist: Seq<Seq<char>> },
    Install { depth: int, as_dependency: bool, packages: Seq<(Seq<char>, Seq<char>)> },
}

impl DeepView for Step {
    type V = StepView;

    open spec fn deep_view(&self) -> StepView {
        match self {
            Step::Build { depth, pkgbase } => StepView::Build {
                depth: *depth as int,
                pkgbase: pkgbase@,
            },
            Step::Audit { depth, pkgbase, whitelist } => StepView::Audit {
                depth: *depth as int,
                pkgbase: pkgbase@,
                whitelist: whitelist.deep_view(),
            },
            Step::Install { depth, as_dependency, packages } => StepView::Install {
                depth: *depth as int,
                as_dependency: *as_dependency,
                packages: packages.deep_view(),
            },
        }
    }
}

/// One action of a build step.
#[derive(Clone, Copy, Debug, PartialEq, Eq, Structural)]
pub enum BuildAction {
    /// Remove the build directory with whatever an earlier build left there.
    DiscardBuildDir,
    /// Create the build directory, empty.
    CreateBuildDir,
    /// Copy the reviewed recipe into the build directory.
    CopyReviewedRecipe,
    /// Remove the version-control metadata from the copy.
    StripVersionControl,
    /// Run the confined build in the build directory.
    RunBuild { offline: bool },
}

/// The actions of a build step, in order.
pub open spec fn spec_build_actions(offline: bool) -> Seq<BuildAction> {
    seq![
        BuildAction::DiscardBuildDir,
        BuildAction::CreateBuildDir,
        BuildAction::CopyReviewedRecipe,
        BuildAction::StripVersionControl,
        BuildAction::RunBuild { offline },
    ]
}

/// What a build step consists of: the stale build directory is discarded, a
/// fresh one is filled with a copy of the reviewed recipe, the copy's
/// version-control metadata is removed, and the confined build is run, offline
/// where the run is.
pub fn build_actions(offline: bool) -> (r: Vec<BuildAction>)
    ensures
        r@ == spec_build_actions(offline),
{
    let mut actions: Vec<BuildAction> = Vec::new();
    actions.push(BuildAction::DiscardBuildDir);
    actions.push(BuildAction::CreateBuildDir);
    actions.push(BuildAction::CopyReviewedRecipe);
    actions.push(BuildAction::StripVersionControl);
    actions.push(BuildAction::RunBuild { offline });
    assert(actions@ =~= spec_build_actions(offline));
    actions
}

/// The depth of the tier that a step belongs to.
pub open spec fn step_depth(step: StepView) -> int {
    match step {
        StepView::Build { depth, .. } => depth,
        StepView::Audit { depth, .. } => depth,
        StepView::Install { depth, .. } => depth,
    }
}

/// The phase of a step within its tier: building 0, auditing 1, installing 2.
pub open spec fn step_phase(step: StepView) -> int {
    match step {
        StepView::Build { .. } => 0,
        StepView::Audit { .. } => 1,
        StepView::Install { .. } => 2,
    }
}

/// A tier's archives are installed as dependencies when the caller asks for
/// it, or when the tier lies below the requested targets.
pub open spec fn spec_as_dependency(asdeps: bool, depth: int) -> bool {
    asdeps || depth > 0
}

/// The package-base and the target of every package of a tier.
pub open spec fn spec_tier_packages(packages: Seq<EntryView>) -> Seq<(Seq<char>, Seq<char>)> {
    Seq::new(packages.len(), |i: int| (packages[i].pkgbase, packages[i].split))
}

/// The resolved targets, as far as the whitelists need them.
pub struct TargetsView {
    /// Each target with its package-base.
    pub bases: Seq<(Seq<char>, Seq<char>)>,
    /// Each target with its version.
    pub versions: Seq<(Seq<char>, Seq<char>)>,
}

/// The steps of one tier. Every audit of the tier uses the tier's whitelist.
pub open spec fn spec_tier_steps(tier: TierView, targets: TargetsView, asdeps: bool) -> Seq<
    StepView,
> {
    Seq::new(
        tier.packages.len(),
        |i: int| StepView::Build { depth: tier.depth, pkgbase: tier.packages[i].pkgbase },
    ) + Seq::new(
        tier.packages.len(),
        |i: int|
            StepView::Audit {
                depth: tier.depth,
                pkgbase: tier.packages[i].pkgbase,
                whitelist: spec_tier_whitelist(targets.bases, targets.versions, tier.packages),
            },
    ) + seq![
        StepView::Install {
            depth: tier.depth,
            as_dependency: spec_as_dependency(asdeps, tier.depth),
            packages: spec_tier_packages(tier.packages),
        },
    ]
}

/// The steps of all tiers, one tier after the other.
pub open spec fn spec_schedule(tiers: Seq<TierView>, targets: TargetsView, asdeps: bool) -> Seq<
    StepView,
>
    decreases tiers.len(),
{
    if tiers.len() == 0 {
        Seq::empty()
    } else {
        spec_schedule(tiers.drop_last(), targets, asdeps) + spec_tier_steps(
            tiers.last(),
            targets,
            asdeps,
        )
    }
}

/// Whether the archives of a tier are installed as dependencies.
pub fn as_dependency(asdeps: bool, depth: i32) -> (r: bool)
    ensures
        r == spec_as_dependency(asdeps, depth as int),
{
    asdeps || depth > 0
}

/// The steps of one tier, appended to `steps`.
#[verifier::loop_isolation(false)]
fn push_tier_steps(
    steps: &mut Vec<Step>,
    tier: &Tier,
    split_to_pkgbase: &Vec<(String, String)>,
    split_to_version: &Vec<(String, String)>,
    asdeps: bool,
)
    ensures
        final(steps).deep_view() == old(steps).deep_view() + spec_tier_steps(
            tier.deep_view(),
            TargetsView {
                bases: split_to_pkgbase.deep_view(),
                versions: split_to_version.deep_view(),
            },
            asdeps,
        ),
{
    let ghost before = steps.deep_view();
    let ghost t = tier.deep_view();
    let ghost targets = TargetsView {
        bases: split_to_pkgbase.deep_view(),
        versions: split_to_version.deep_view(),
    };
    let whitelist = tier_whitelist(split_to_pkgbase, split_to_version, &tier.packages);
    let ghost expected = whitelist.deep_view();
    let ghost builds = Seq::new(
        t.packages.len(),
        |i: int| StepView::Build { depth: t.depth, pkgbase: t.packages[i].pkgbase },
    );
    let ghost audits = Seq::new(
        t.packages.len(),
        |i: int|
            StepView::Audit {
                depth: t.depth,
                pkgbase: t.packages[i].pkgbase,
                whitelist: expected,
            },
    );
    let mut i: usize = 0;
    while i < tier.packages.len()
        invariant
            i <= tier.packages.len(),
            t == tier.deep_view(),
            steps.deep_view() =~= before + builds.take(i as int),
        decreases tier.packages.len() - i,
    {
        let ghost so_far = steps.deep_view();
        assert(t.packages[i as int] == tier.packages[i as int].deep_view());
        steps.push(Step::Build { depth: tier.depth, pkgbase: tier.packages[i].pkgbase.clone() });
        assert(steps.deep_view() =~= so_far.push(builds[i as int]));
        i += 1;
    }
    let mut i: usize = 0;
    let mut packages: Vec<(String, String)> = Vec::new();
    while i < tier.packages.len()
        invariant
            i <= tier.packages.len(),
            t == tier.deep_view(),
            expected == whitelist.deep_view(),
            steps.deep_view() =~= before + builds + audits.take(i as int),
            packages.deep_view() =~= spec_tier_packages(t.packages).take(i as int),
        decreases tier.packages.len() - i,
    {
        let ghost so_far = steps.deep_view();
        let ghost listed = packages.deep_view();
        assert(t.packages[i as int] == tier.packages[i as int].deep_view());
        steps.push(
            Step::Audit {
                depth: tier.depth,
                pkgbase: tier.packages[i].pkgbase.clone(),
                whitelist: copy_names(&whitelist),
            },
        );
        assert(steps.deep_view() =~= so_far.push(audits[i as int]));
        packages.push((tier.packages[i].pkgbase.clone(), tier.packages[i].split.clone()));
        assert(packages.deep_view() =~= listed.push(spec_tier_packages(t.packages)[i as int]));
        i += 1;
    }
    let ghost so_far = steps.deep_view();
    assert(packages.deep_view() =~= spec_tier_packages(t.packages));
    let install = Step::Install {
        depth: tier.depth,
        as_dependency: as_dependency(asdeps, tier.depth),
        packages,
    };
    steps.push(install);
    assert(steps.deep_view() =~= so_far.push(install.deep_view()));
    assert(steps.deep_view() =~= before + spec_tier_steps(t, targets, asdeps));
}

/// Lays the tiers out as steps: for each tier in order, every build, then
/// every audit with the whitelist of the tier's own targets, then the install.
pub fn schedule(
    tiers: &Vec<Tier>,
    split_to_pkgbase: &Vec<(String, String)>,
    split_to_version: &Vec<(String, String)>,
    asdeps: bool,
) -> (r: Vec<Step>)
    ensures
        r.deep_view() == spec_schedule(
            tiers.deep_view(),
            TargetsView {
                bases: split_to_pkgbase.deep_view(),
                versions: split_to_version.deep_view(),
            },
            asdeps,
        ),
{
    let ghost all = tiers.deep_view();
    let ghost targets = TargetsView {
        bases: split_to_pkgbase.deep_view(),
        versions: split_to_version.deep_view(),
    };
    let mut steps: Vec<Step> = Vec::new();
    let mut t: usize = 0;
    assert(steps.deep_view() =~= spec_schedule(all.take(0), targets, asdeps));
    while t < tiers.len()
        invariant
            t <= tiers.len(),
            all == tiers.deep_view(),
            targets == (TargetsView {
                bases: split_to_pkgbase.deep_view(),
                versions: split_to_version.deep_view(),
            }),
            steps.deep_view() == spec_schedule(all.take(t as int), targets, asdeps),
        decreases tiers.len() - t,
    {
        proof {
            assert(all.take(t + 1).drop_last() =~= all.take(t as int));
            assert(all.take(t + 1).last() == tiers[t as int].deep_view());
        }
        push_tier_steps(&mut steps, &tiers[t], split_to_pkgbase, split_to_version, asdeps);
        t += 1;
    }
    assert(all.take(t as int) =~= all);
    steps
}

/// `a` may stand before `b`: it belongs to a deeper tier, or to the same tier
/// and to no later phase.
pub open spec fn may_precede(a: StepView, b: StepView) -> bool {
    step_depth(a) > step_depth(b) || (step_depth(a) == step_depth(b) && step_phase(a)
        <= step_phase(b))
}

/// The depths of the tiers descend strictly.
pub open spec fn depths_descend(tiers: Seq<TierView>) -> bool {
    forall|t1: int, t2: int|
        0 <= t1 < t2 < tiers.len() ==> (#[trigger] tiers[t1]).depth > (#[trigger] tiers[t2]).depth
}

/// Every step belongs to a tier.
pub proof fn lemma_step_has_tier(tiers: Seq<TierView>, targets: TargetsView,
    asdeps: bool, k: int) -> (t: int)
    requires
        0 <= k < spec_schedule(tiers, targets, asdeps).len(),
    ensures
        0 <= t < tiers.len(),
        step_depth(spec_schedule(tiers, targets, asdeps)[k]) == tiers[t].depth,
    decreases tiers.len(),
{
    let head = spec_schedule(tiers.drop_last(), targets, asdeps);
    if k < head.len() {
        lemma_step_has_tier(tiers.drop_last(), targets, asdeps, k)
    } else {
        tiers.len() - 1
    }
}

/// The steps stand in the order of the tiers and, within a tier, of the
/// phases: of two steps the earlier one belongs to a deeper tier, or to the
/// same tier and to no later phase.
pub proof fn law_schedule_follows_depth_and_phase(
    tiers: Seq<TierView>,
    targets: TargetsView,
    asdeps: bool,
    a: int,
    b: int,
)
    requires
        depths_descend(tiers),
        0 <= a < b < spec_schedule(tiers, targets, asdeps).len(),
    ensures
        may_precede(spec_schedule(tiers, targets, asdeps)[a], spec_schedule(tiers, targets, asdeps)[b]),
    decreases tiers.len(),
{
    let n = tiers.len() as int;
    let head_tiers = tiers.drop_last();
    let head = spec_schedule(head_tiers, targets, asdeps);
    let tail = spec_tier_steps(tiers.last(), targets, asdeps);
    assert forall|t1: int, t2: int| 0 <= t1 < t2 < head_tiers.len() implies (
    #[trigger] head_tiers[t1]).depth > (#[trigger] head_tiers[t2]).depth by {
        assert(tiers[t1].depth > tiers[t2].depth);
    }
    if b < head.len() {
        law_schedule_follows_depth_and_phase(head_tiers, targets, asdeps, a, b);
    } else if a < head.len() {
        let t = lemma_step_has_tier(head_tiers, targets, asdeps, a);
        assert(tiers[t].depth > tiers[n - 1].depth);
    }
}

/// A tier is installed after all its builds and audits, and before any step
/// of a shallower tier: an install step follows every build and audit of its
/// own depth and precedes every step of a lesser depth.
pub proof fn law_install_closes_its_tier(tiers: Seq<TierView>, targets: TargetsView,
    asdeps: bool, at: int, other: int)
    requires
        depths_descend(tiers),
        0 <= at < spec_schedule(tiers, targets, asdeps).len(),
        0 <= other < spec_schedule(tiers, targets, asdeps).len(),
        step_phase(spec_schedule(tiers, targets, asdeps)[at]) == 2,
    ensures
        step_depth(spec_schedule(tiers, targets, asdeps)[other]) == step_depth(
            spec_schedule(tiers, targets, asdeps)[at],
        ) && step_phase(spec_schedule(tiers, targets, asdeps)[other]) < 2 ==> other < at,
        step_depth(spec_schedule(tiers, targets, asdeps)[other]) < step_depth(
            spec_schedule(tiers, targets, asdeps)[at],
        ) ==> at < other,
        step_depth(spec_schedule(tiers, targets, asdeps)[other]) > step_depth(
            spec_schedule(tiers, targets, asdeps)[at],
        ) ==> other < at,
{
    if at < other {
        law_schedule_follows_depth_and_phase(tiers, targets, asdeps, at, other);
    } else if other < at {
        law_schedule_follows_depth_and_phase(tiers, targets, asdeps, other, at);
    }
}

/// Within a tier every build comes before every audit.
pub proof fn law_builds_precede_audits(tiers: Seq<TierView>, targets: TargetsView,
    asdeps: bool, build: int, audit: int)
    requires
        depths_descend(tiers),
        0 <= build < spec_schedule(tiers, targets, asdeps).len(),
        0 <= audit < spec_schedule(tiers, targets, asdeps).len(),
        step_phase(spec_schedule(tiers, targets, asdeps)[build]) == 0,
        step_phase(spec_schedule(tiers, targets, asdeps)[audit]) == 1,
        step_depth(spec_schedule(tiers, targets, asdeps)[build]) == step_depth(
            spec_schedule(tiers, targets, asdeps)[audit],
        ),
    ensures
        build < audit,
{
    if audit < build {
        law_schedule_follows_depth_and_phase(tiers, targets, asdeps, audit, build);
    }
}

/// One stage of an install run, from the confirmation to the last install.
/// The stages are gone through in order, and a stage that fails ends the run.
#[derive(Debug)]
pub enum Stage {
    /// Show the summary and wait until the operator confirms it.
    Confirm,
    /// Make sure that the recipe of the package-base has been reviewed.
    Review { pkgbase: String },
    /// Have the system package manager install what it can provide.
    InstallSystemPackages,
    /// A step of the build plan.
    Work(Step),
}

/// The mathematical content of a [`Stage`].
pub enum StageView {
    Confirm,
    Review { pkgbase: Seq<char> },
    InstallSystemPackages,
    Work(StepView),
}

impl DeepView for Stage {
    type V = StageView;

    open spec fn deep_view(&self) -> StageView {
        match self {
            Stage::Confirm => StageView::Confirm,
            Stage::Review { pkgbase } => StageView::Review { pkgbase: pkgbase@ },
            Stage::InstallSystemPackages => StageView::InstallSystemPackages,
            Stage::Work(step) => StageView::Work(step.deep_view()),
        }
    }
}

/// The stages of a run: the confirmation, the review of each recipe, the
/// install of the system packages, and then the steps of the plan.
pub open spec fn spec_stages(review: Seq<Seq<char>>, steps: Seq<StepView>) -> Seq<StageView> {
    seq![StageView::Confirm] + Seq::new(
        review.len(),
        |i: int| StageView::Review { pkgbase: review[i] },
    ) + seq![StageView::InstallSystemPackages] + Seq::new(
        steps.len(),
        |i: int| StageView::Work(steps[i]),
    )
}

/// The place of a stage in the course of a run: confirming 0, reviewing 1,
/// installing system packages 2, working through the plan 3.
pub open spec fn stage_rank(stage: StageView) -> int {
    match stage {
        StageView::Confirm => 0,
        StageView::Review { .. } => 1,
        StageView::InstallSystemPackages => 2,
        StageView::Work(_) => 3,
    }
}

/// Puts the stages of a run in their order: first the confirmation, then the
/// reviews, then the install of the system packages, then the steps.
pub fn stages(review: Vec<String>, steps: Vec<Step>) -> (r: Vec<Stage>)
    ensures
        r.deep_view() == spec_stages(review.deep_view(), steps.deep_view()),
{
    let ghost reviews = review.deep_view();
    let ghost work = steps.deep_view();
    let ghost head = seq![StageView::Confirm] + Seq::new(
        reviews.len(),
        |i: int| StageView::Review { pkgbase: reviews[i] },
    ) + seq![StageView::InstallSystemPackages];
    let mut out: Vec<Stage> = Vec::new();
    out.push(Stage::Confirm);
    assert(out.deep_view() =~= seq![StageView::Confirm]);
    let mut i: usize = 0;
    while i < review.len()
        invariant
            i <= review.len(),
            reviews == review.deep_view(),
            out.deep_view() =~= seq![StageView::Confirm] + Seq::new(
                i as nat,
                |k: int| StageView::Review { pkgbase: reviews[k] },
            ),
        decreases review.len() - i,
    {
        let ghost before = out.deep_view();
        assert(reviews[i as int] == review[i as int]@);
        out.push(Stage::Review { pkgbase: review[i].clone() });
        assert(out.deep_view() =~= before.push(StageView::Review { pkgbase: reviews[i as int] }));
        i += 1;
    }
    let ghost before = out.deep_view();
    out.push(Stage::InstallSystemPackages);
    assert(out.deep_view() =~= before.push(StageView::InstallSystemPackages));
    assert(out.deep_view() =~= head);
    let mut steps = steps;
    let ghost mut moved: int = 0;
    assert(work.skip(0) =~= work);
    while steps.len() > 0
        invariant
            0 <= moved <= work.len(),
            steps.deep_view() =~= work.skip(moved),
            out.deep_view() =~= head + Seq::new(moved as nat, |k: int| StageView::Work(work[k])),
        decreases steps.len(),
    {
        let ghost before = out.deep_view();
        let ghost left = steps.deep_view();
        assert(left[0] == steps[0].deep_view());
        let step = steps.remove(0);
        assert(steps.deep_view() =~= left.skip(1));
        assert(step.deep_view() == work[moved]);
        out.push(Stage::Work(step));
        assert(out.deep_view() =~= before.push(StageView::Work(work[moved])));
        proof {
            moved = moved + 1;
        }
    }
    assert(moved == work.len());
    out
}

/// Nothing is reviewed, installed or built before the summary is confirmed,
/// the system packages are installed after every review, and the plan is
/// worked through last: the first stage is the confirmation and there is no
/// other, and of two stages the earlier one has no later place in the course
/// of the run.
pub proof fn law_stages_follow_the_course(
    review: Seq<Seq<char>>,
    steps: Seq<StepView>,
    a: int,
    b: int,
)
    requires
        0 <= a < b < spec_stages(review, steps).len(),
    ensures
        spec_stages(review, steps)[0] == StageView::Confirm,
        spec_stages(review, steps)[b] != StageView::Confirm,
        stage_rank(spec_stages(review, steps)[a]) <= stage_rank(spec_stages(review, steps)[b]),
{
}

/// The steps of the plan keep their order among the stages: the step at `k`
/// is the stage at `k` behind the confirmation, the reviews and the install
/// of the system packages.
pub proof fn law_stages_keep_the_steps(review: Seq<Seq<char>>, steps: Seq<StepView>, k: int)
    requires
        0 <= k < steps.len(),
    ensures
        spec_stages(review, steps).len() == review.len() + steps.len() + 2,
        spec_stages(review, steps)[review.len() + 2 + k] == StageView::Work(steps[k]),
{
}

} // verus!
