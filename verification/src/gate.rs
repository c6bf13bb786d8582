//! The artifact gate: which files of a build directory are expected, and the
//! steps that take them through the audit into the directory of checked
//! archives.

use crate::ordered::lookup;
use crate::ordered::text_entries;
use crate::ordered::text_pairs;
use crate::plan::has_base;
use crate::plan::EntryView;
use crate::plan::PlanEntry;
use crate::text::same_text;
use crate::text::starts_with;
use indexmap::IndexMap;
use vstd::prelude::*;

verus! {

/// The name that an artifact of the target starts with: target, a hyphen, and
/// the version.
pub open spec fn spec_expected_prefix(target: Seq<char>, version: Seq<char>) -> Seq<char> {
    target + seq!['-'] + version
}

/// The prefixes of all targets, in the order of the targets.
pub open spec fn spec_whitelist(versions: Seq<(Seq<char>, Seq<char>)>) -> Seq<Seq<char>> {
    Seq::new(versions.len(), |i: int| spec_expected_prefix(versions[i].0, versions[i].1))
}

/// Some entry of the whitelist is a prefix of the file name.
pub open spec fn is_expected(name: Seq<char>, whitelist: Seq<Seq<char>>) -> bool {
    exists|w: int| 0 <= w < whitelist.len() && (#[trigger] whitelist[w]).is_prefix_of(name)
}

/// The expected files among `files`, in their order.
pub open spec fn spec_kept(files: Seq<Seq<char>>, whitelist: Seq<Seq<char>>) -> Seq<Seq<char>>
    decreases files.len(),
{
    if files.len() == 0 {
        Seq::empty()
    } else {
        let earlier = spec_kept(files.drop_last(), whitelist);
        if is_expected(files.last(), whitelist) {
            earlier.push(files.last())
        } else {
            earlier
        }
    }
}

/// One step of the artifact gate.
#[derive(Debug)]
pub enum GateStep {
    /// Have the operator audit this file of the build directory.
    Audit(String),
    /// Remove the directory of checked archives and create it anew, empty.
    ResetChecked,
    /// Move this file from the build directory to the checked archives.
    Move(String),
}

/// The mathematical content of a [`GateStep`].
pub enum GateStepView {
    Audit(Seq<char>),
    ResetChecked,
    Move(Seq<char>),
}

impl DeepView for GateStep {
    type V = GateStepView;

    open spec fn deep_view(&self) -> GateStepView {
        match self {
            GateStep::Audit(name) => GateStepView::Audit(name@),
            GateStep::ResetChecked => GateStepView::ResetChecked,
            GateStep::Move(name) => GateStepView::Move(name@),
        }
    }
}

/// The steps for the kept files: every audit, then the reset, then every
/// move. No file is moved before all are audited.
pub open spec fn spec_gate_steps(kept: Seq<Seq<char>>) -> Seq<GateStepView> {
    Seq::new(kept.len(), |i: int| GateStepView::Audit(kept[i])) + seq![GateStepView::ResetChecked]
        + Seq::new(kept.len(), |i: int| GateStepView::Move(kept[i]))
}

/// The file names in the build directory and among the checked archives.
pub struct Dirs {
    pub build: Seq<Seq<char>>,
    pub checked: Seq<Seq<char>>,
}

/// `files` without `name`.
pub open spec fn without(files: Seq<Seq<char>>, name: Seq<char>) -> Seq<Seq<char>>
    decreases files.len(),
{
    if files.len() == 0 {
        Seq::empty()
    } else if files.last() == name {
        without(files.drop_last(), name)
    } else {
        without(files.drop_last(), name).push(files.last())
    }
}

/// What a step does to the two directories.
pub open spec fn after_step(dirs: Dirs, step: GateStepView) -> Dirs {
    match step {
        GateStepView::Audit(_) => dirs,
        GateStepView::ResetChecked => Dirs { build: dirs.build, checked: Seq::empty() },
        GateStepView::Move(name) => Dirs {
            build: without(dirs.build, name),
            checked: dirs.checked.push(name),
        },
    }
}

/// What the first `n` steps do to the two directories.
pub open spec fn after_steps(dirs: Dirs, steps: Seq<GateStepView>, n: int) -> Dirs
    decreases n,
{
    if n <= 0 {
        dirs
    } else {
        after_step(after_steps(dirs, steps, n - 1), steps[n - 1])
    }
}

/// The whitelist entry of one target: `{target}-{version}`.
pub fn expected_prefix(target: &str, version: &str) -> (r: String)
    ensures
        r@ == spec_expected_prefix(target@, version@),
{
    proof {
        reveal_strlit("-");
        assert("-"@ =~= seq!['-']);
    }
    let mut name = target.to_owned();
    name.append("-");
    name.append(version);
    name
}

/// The whitelist for the targets given with their versions: one prefix for
/// each, in their order.
pub fn whitelist_of(versions: &Vec<(String, String)>) -> (r: Vec<String>)
    ensures
        r.deep_view() == spec_whitelist(versions.deep_view()),
{
    let ghost pairs = versions.deep_view();
    let mut whitelist: Vec<String> = Vec::new();
    let mut i: usize = 0;
    while i < versions.len()
        invariant
            i <= versions.len(),
            pairs == versions.deep_view(),
            whitelist.deep_view() =~= spec_whitelist(pairs).take(i as int),
        decreases versions.len() - i,
    {
        let ghost before = whitelist.deep_view();
        assert(pairs[i as int] == (versions[i as int].0@, versions[i as int].1@));
        let prefix = expected_prefix(versions[i].0.as_str(), versions[i].1.as_str());
        whitelist.push(prefix);
        assert(whitelist.deep_view() =~= before.push(spec_whitelist(pairs)[i as int]));
        i += 1;
    }
    assert(spec_whitelist(pairs).take(i as int) =~= spec_whitelist(pairs));
    whitelist
}

/// The whitelist for all targets of a run, one prefix for each target with
/// its version.
pub fn archive_whitelist(split_to_version: &IndexMap<String, String>) -> (r: Vec<String>)
    ensures
        r.deep_view() == spec_whitelist(text_pairs(*split_to_version)),
{
    let versions = text_entries(split_to_version);
    whitelist_of(&versions)
}

/// The package-base of a target, if it has one.
pub fn base_of(split_to_pkgbase: &Vec<(String, String)>, target: &str) -> (r: Option<String>)
    ensures
        r.deep_view() == lookup(split_to_pkgbase.deep_view(), target@),
{
    let ghost pairs = split_to_pkgbase.deep_view();
    let mut i: usize = 0;
    assert(pairs.skip(0) =~= pairs);
    while i < split_to_pkgbase.len()
        invariant
            i <= split_to_pkgbase.len(),
            pairs == split_to_pkgbase.deep_view(),
            lookup(pairs, target@) == lookup(pairs.skip(i as int), target@),
        decreases split_to_pkgbase.len() - i,
    {
        proof {
            assert(pairs.skip(i as int).first() == (
                split_to_pkgbase[i as int].0@,
                split_to_pkgbase[i as int].1@,
            ));
            assert(pairs.skip(i as int).drop_first() =~= pairs.skip(i + 1));
        }
        if same_text(split_to_pkgbase[i].0.as_str(), target) {
            return Some(split_to_pkgbase[i].1.clone());
        }
        i += 1;
    }
    None
}

/// Whether the tier builds the package-base.
pub fn builds_base(packages: &Vec<PlanEntry>, pkgbase: &str) -> (r: bool)
    ensures
        r == has_base(packages.deep_view(), pkgbase@),
{
    let mut i: usize = 0;
    while i < packages.len()
        invariant
            i <= packages.len(),
            forall|k: int| 0 <= k < i ==> (#[trigger] packages.deep_view()[k]).pkgbase != pkgbase@,
        decreases packages.len() - i,
    {
        assert(packages.deep_view()[i as int] == packages[i as int].deep_view());
        if same_text(packages[i].pkgbase.as_str(), pkgbase) {
            assert(packages.deep_view()[i as int].pkgbase == pkgbase@);
            return true;
        }
        i += 1;
    }
    false
}

/// Whether a target belongs to a tier: its package-base is one that the tier
/// builds.
pub open spec fn in_tier(
    bases: Seq<(Seq<char>, Seq<char>)>,
    packages: Seq<EntryView>,
    target: Seq<char>,
) -> bool {
    lookup(bases, target) matches Some(pkgbase) && has_base(packages, pkgbase)
}

/// The targets of a tier with their versions, in the order of the versions.
pub open spec fn spec_tier_versions(
    bases: Seq<(Seq<char>, Seq<char>)>,
    versions: Seq<(Seq<char>, Seq<char>)>,
    packages: Seq<EntryView>,
) -> Seq<(Seq<char>, Seq<char>)>
    decreases versions.len(),
{
    if versions.len() == 0 {
        Seq::empty()
    } else {
        let earlier = spec_tier_versions(bases, versions.drop_last(), packages);
        if in_tier(bases, packages, versions.last().0) {
            earlier.push(versions.last())
        } else {
            earlier
        }
    }
}

/// The whitelist of a tier: the prefixes of the targets that the tier's
/// package-bases build, each with its version.
pub open spec fn spec_tier_whitelist(
    bases: Seq<(Seq<char>, Seq<char>)>,
    versions: Seq<(Seq<char>, Seq<char>)>,
    packages: Seq<EntryView>,
) -> Seq<Seq<char>> {
    spec_whitelist(spec_tier_versions(bases, versions, packages))
}

/// The whitelist for the audits of one tier: a prefix for every target whose
/// package-base the tier builds, and for no other target.
pub fn tier_whitelist(
    split_to_pkgbase: &Vec<(String, String)>,
    split_to_version: &Vec<(String, String)>,
    packages: &Vec<PlanEntry>,
) -> (r: Vec<String>)
    ensures
        r.deep_view() == spec_tier_whitelist(
            split_to_pkgbase.deep_view(),
            split_to_version.deep_view(),
            packages.deep_view(),
        ),
{
    let ghost bases = split_to_pkgbase.deep_view();
    let ghost versions = split_to_version.deep_view();
    let ghost built = packages.deep_view();
    let mut own: Vec<(String, String)> = Vec::new();
    let mut i: usize = 0;
    assert(own.deep_view() =~= Seq::empty());
    while i < split_to_version.len()
        invariant
            i <= split_to_version.len(),
            bases == split_to_pkgbase.deep_view(),
            versions == split_to_version.deep_view(),
            built == packages.deep_view(),
            own.deep_view() == spec_tier_versions(bases, versions.take(i as int), built),
        decreases split_to_version.len() - i,
    {
        proof {
            assert(versions[i as int] == (
                split_to_version[i as int].0@,
                split_to_version[i as int].1@,
            ));
            assert(versions.take(i + 1).drop_last() =~= versions.take(i as int));
        }
        let belongs = match base_of(split_to_pkgbase, split_to_version[i].0.as_str()) {
            Some(pkgbase) => builds_base(packages, pkgbase.as_str()),
            None => false,
        };
        if belongs {
            let ghost before = own.deep_view();
            own.push((split_to_version[i].0.clone(), split_to_version[i].1.clone()));
            assert(own.deep_view() =~= before.push(versions[i as int]));
        }
        i += 1;
    }
    assert(versions.take(i as int) =~= versions);
    whitelist_of(&own)
}

/// A tier's whitelist holds nothing that the whitelist of the whole run does
/// not hold.
pub proof fn law_tier_whitelist_is_part_of_the_whole(
    bases: Seq<(Seq<char>, Seq<char>)>,
    versions: Seq<(Seq<char>, Seq<char>)>,
    packages: Seq<EntryView>,
    k: int,
)
    requires
        0 <= k < spec_tier_whitelist(bases, versions, packages).len(),
    ensures
        spec_whitelist(versions).contains(spec_tier_whitelist(bases, versions, packages)[k]),
        exists|i: int|
            0 <= i < versions.len() && in_tier(bases, packages, (#[trigger] versions[i]).0)
                && spec_tier_whitelist(bases, versions, packages)[k] == spec_expected_prefix(
                versions[i].0,
                versions[i].1,
            ),
    decreases versions.len(),
{
    let own = spec_tier_versions(bases, versions, packages);
    let earlier = spec_tier_versions(bases, versions.drop_last(), packages);
    if k < earlier.len() {
        law_tier_whitelist_is_part_of_the_whole(bases, versions.drop_last(), packages, k);
        let i = choose|i: int|
            0 <= i < versions.drop_last().len() && in_tier(
                bases,
                packages,
                (#[trigger] versions.drop_last()[i]).0,
            ) && spec_tier_whitelist(bases, versions.drop_last(), packages)[k]
                == spec_expected_prefix(versions.drop_last()[i].0, versions.drop_last()[i].1);
        assert(versions[i] == versions.drop_last()[i]);
        assert(spec_whitelist(versions)[i] == spec_tier_whitelist(bases, versions, packages)[k]);
    } else {
        let i = versions.len() - 1;
        assert(own[k] == versions[i]);
        assert(in_tier(bases, packages, versions[i].0));
        assert(spec_whitelist(versions)[i] == spec_tier_whitelist(bases, versions, packages)[k]);
    }
}

/// Every target that a tier builds and that has a version is expected in the
/// tier's audits.
pub proof fn law_tier_whitelist_expects_its_targets(
    bases: Seq<(Seq<char>, Seq<char>)>,
    versions: Seq<(Seq<char>, Seq<char>)>,
    packages: Seq<EntryView>,
    i: int,
)
    requires
        0 <= i < versions.len(),
        in_tier(bases, packages, versions[i].0),
    ensures
        spec_tier_whitelist(bases, versions, packages).contains(
            spec_expected_prefix(versions[i].0, versions[i].1),
        ),
    decreases versions.len(),
{
    let own = spec_tier_versions(bases, versions, packages);
    let earlier = spec_tier_versions(bases, versions.drop_last(), packages);
    if i < versions.len() - 1 {
        assert(versions.drop_last()[i] == versions[i]);
        law_tier_whitelist_expects_its_targets(bases, versions.drop_last(), packages, i);
        let k = choose|k: int|
            0 <= k < spec_whitelist(earlier).len() && spec_whitelist(earlier)[k]
                == spec_expected_prefix(versions[i].0, versions[i].1);
        assert(own[k] == earlier[k]);
        assert(spec_whitelist(own)[k] == spec_expected_prefix(versions[i].0, versions[i].1));
    } else {
        let k = own.len() - 1;
        assert(own[k] == versions[i]);
        assert(spec_whitelist(own)[k] == spec_expected_prefix(versions[i].0, versions[i].1));
    }
}

/// Whether the file name starts with an entry of the whitelist.
pub fn is_whitelisted(name: &str, whitelist: &Vec<String>) -> (r: bool)
    ensures
        r == is_expected(name@, whitelist.deep_view()),
{
    let mut w: usize = 0;
    while w < whitelist.len()
        invariant
            w <= whitelist.len(),
            forall|v: int| 0 <= v < w ==> !(#[trigger] whitelist.deep_view()[v]).is_prefix_of(name@),
        decreases whitelist.len() - w,
    {
        assert(whitelist.deep_view()[w as int] == whitelist[w as int]@);
        if starts_with(name, whitelist[w].as_str()) {
            return true;
        }
        w += 1;
    }
    false
}

/// The files that are let through: those whose name starts with an entry
/// of the whitelist, in the order given.
pub fn filter_artifacts(files: &Vec<String>, whitelist: &Vec<String>) -> (r: Vec<String>)
    ensures
        r.deep_view() == spec_kept(files.deep_view(), whitelist.deep_view()),
{
    let ghost all = files.deep_view();
    let ghost wl = whitelist.deep_view();
    let mut kept: Vec<String> = Vec::new();
    let mut i: usize = 0;
    assert(kept.deep_view() =~= Seq::empty());
    while i < files.len()
        invariant
            i <= files.len(),
            all == files.deep_view(),
            wl == whitelist.deep_view(),
            kept.deep_view() == spec_kept(all.take(i as int), wl),
        decreases files.len() - i,
    {
        proof {
            assert(all[i as int] == files[i as int]@);
            assert(all.take(i + 1).drop_last() =~= all.take(i as int));
        }
        if is_whitelisted(files[i].as_str(), whitelist) {
            let ghost before = kept.deep_view();
            kept.push(files[i].clone());
            assert(kept.deep_view() =~= before.push(files[i as int]@));
        }
        i += 1;
    }
    assert(all.take(i as int) =~= all);
    kept
}

/// The steps for the files of a build directory: each expected
/// file is audited; after the last audit the directory of checked archives is
/// reset; then each expected file is moved there. A file that the whitelist
/// does not expect is in no step.
pub fn check_tars_and_move(dir_items: &Vec<String>, archive_whitelist: &Vec<String>) -> (r: Vec<
    GateStep,
>)
    ensures
        r.deep_view() == spec_gate_steps(
            spec_kept(dir_items.deep_view(), archive_whitelist.deep_view()),
        ),
{
    let kept = filter_artifacts(dir_items, archive_whitelist);
    let ghost names = kept.deep_view();
    let mut steps: Vec<GateStep> = Vec::new();
    let mut i: usize = 0;
    while i < kept.len()
        invariant
            i <= kept.len(),
            names == kept.deep_view(),
            steps.deep_view() =~= Seq::new(i as nat, |k: int| GateStepView::Audit(names[k])),
        decreases kept.len() - i,
    {
        let ghost before = steps.deep_view();
        steps.push(GateStep::Audit(kept[i].clone()));
        assert(steps.deep_view() =~= before.push(GateStepView::Audit(kept[i as int]@)));
        i += 1;
    }
    let ghost audits = steps.deep_view();
    steps.push(GateStep::ResetChecked);
    assert(steps.deep_view() =~= audits.push(GateStepView::ResetChecked));
    let mut i: usize = 0;
    while i < kept.len()
        invariant
            i <= kept.len(),
            names == kept.deep_view(),
            audits == Seq::new(names.len(), |k: int| GateStepView::Audit(names[k])),
            steps.deep_view() =~= audits + seq![GateStepView::ResetChecked] + Seq::new(
                i as nat,
                |k: int| GateStepView::Move(names[k]),
            ),
        decreases kept.len() - i,
    {
        let ghost before = steps.deep_view();
        steps.push(GateStep::Move(kept[i].clone()));
        assert(steps.deep_view() =~= before.push(GateStepView::Move(kept[i as int]@)));
        i += 1;
    }
    steps
}

/// Every kept file is a file of the directory that the whitelist expects.
pub proof fn lemma_kept_is_expected(files: Seq<Seq<char>>, whitelist: Seq<Seq<char>>, k: int)
    requires
        0 <= k < spec_kept(files, whitelist).len(),
    ensures
        is_expected(spec_kept(files, whitelist)[k], whitelist),
        files.contains(spec_kept(files, whitelist)[k]),
    decreases files.len(),
{
    let earlier = spec_kept(files.drop_last(), whitelist);
    if k < earlier.len() {
        lemma_kept_is_expected(files.drop_last(), whitelist, k);
        let i = choose|i: int| 0 <= i < files.drop_last().len() && files.drop_last()[i] == earlier[k];
        assert(files[i] == earlier[k]);
    } else {
        assert(files[files.len() - 1] == files.last());
    }
}

/// Every file of the directory that the whitelist expects is kept.
pub proof fn law_expected_file_is_kept(files: Seq<Seq<char>>, whitelist: Seq<Seq<char>>, i: int)
    requires
        0 <= i < files.len(),
        is_expected(files[i], whitelist),
    ensures
        spec_kept(files, whitelist).contains(files[i]),
    decreases files.len(),
{
    let earlier = spec_kept(files.drop_last(), whitelist);
    let kept = spec_kept(files, whitelist);
    if i < files.len() - 1 {
        law_expected_file_is_kept(files.drop_last(), whitelist, i);
        let k = choose|k: int| 0 <= k < earlier.len() && earlier[k] == files.drop_last()[i];
        assert(kept[k] == files[i]);
    } else {
        assert(kept[kept.len() - 1] == files[i]);
    }
}

/// Filtering what was filtered changes nothing.
pub proof fn law_filter_is_idempotent(files: Seq<Seq<char>>, whitelist: Seq<Seq<char>>)
    ensures
        spec_kept(spec_kept(files, whitelist), whitelist) == spec_kept(files, whitelist),
    decreases files.len(),
{
    if files.len() > 0 {
        let earlier = spec_kept(files.drop_last(), whitelist);
        law_filter_is_idempotent(files.drop_last(), whitelist);
        if is_expected(files.last(), whitelist) {
            assert(earlier.push(files.last()).drop_last() =~= earlier);
        }
    }
}

/// Taking one name out of a list leaves every other name in it.
pub proof fn lemma_without_keeps_others(files: Seq<Seq<char>>, name: Seq<char>, other: Seq<char>)
    requires
        files.contains(other),
        other != name,
    ensures
        without(files, name).contains(other),
    decreases files.len(),
{
    let i = choose|i: int| 0 <= i < files.len() && files[i] == other;
    let rest = without(files.drop_last(), name);
    if i < files.len() - 1 {
        assert(files.drop_last()[i] == other);
        lemma_without_keeps_others(files.drop_last(), name, other);
        let k = choose|k: int| 0 <= k < rest.len() && rest[k] == other;
        assert(without(files, name)[k] == other);
    } else {
        assert(without(files, name)[rest.len() as int] == other);
    }
}

/// Where things stand after the first `n` steps: the audits change nothing,
/// the reset empties the checked archives, and each move takes one kept file
/// over. Every file of the build directory is in one of the two directories
/// throughout.
pub proof fn lemma_gate_progress(
    files: Seq<Seq<char>>,
    whitelist: Seq<Seq<char>>,
    prior: Seq<Seq<char>>,
    n: int,
)
    requires
        0 <= n <= 2 * spec_kept(files, whitelist).len() + 1,
    ensures
        ({
            let kept = spec_kept(files, whitelist);
            let now = after_steps(Dirs { build: files, checked: prior }, spec_gate_steps(kept), n);
            &&& n <= kept.len() ==> now == Dirs { build: files, checked: prior }
            &&& n > kept.len() ==> now.checked == kept.take(n - kept.len() - 1)
            &&& forall|f: Seq<char>|
                files.contains(f) ==> now.build.contains(f) || (n > kept.len()
                    && #[trigger] now.checked.contains(f))
        }),
    decreases n,
{
    let kept = spec_kept(files, whitelist);
    let steps = spec_gate_steps(kept);
    let start = Dirs { build: files, checked: prior };
    if n > 0 {
        lemma_gate_progress(files, whitelist, prior, n - 1);
        let earlier = after_steps(start, steps, n - 1);
        let now = after_steps(start, steps, n);
        if n <= kept.len() {
            assert(steps[n - 1] == GateStepView::Audit(kept[n - 1]));
        } else if n == kept.len() + 1 {
            assert(steps[n - 1] == GateStepView::ResetChecked);
            assert(now.checked =~= kept.take(0));
        } else {
            let m = n - kept.len() - 2;
            assert(steps[n - 1] == GateStepView::Move(kept[m]));
            assert(now.checked =~= kept.take(m + 1));
            assert forall|f: Seq<char>| files.contains(f) implies now.build.contains(f)
                || #[trigger] now.checked.contains(f) by {
                if f == kept[m] {
                    assert(now.checked[m] == f);
                } else if earlier.build.contains(f) {
                    lemma_without_keeps_others(earlier.build, kept[m], f);
                } else {
                    assert(earlier.checked.contains(f));
                    let k = choose|k: int| 0 <= k < earlier.checked.len() && earlier.checked[k] == f;
                    assert(now.checked[k] == f);
                }
            }
        }
    }
}

/// A file that no whitelist entry is a prefix of is never audited, never
/// moved, and is not among the checked archives when all steps are done.
pub proof fn law_unexpected_file_stays_out(
    files: Seq<Seq<char>>,
    whitelist: Seq<Seq<char>>,
    prior: Seq<Seq<char>>,
    name: Seq<char>,
)
    requires
        !is_expected(name, whitelist),
    ensures
        ({
            let steps = spec_gate_steps(spec_kept(files, whitelist));
            let done = after_steps(
                Dirs { build: files, checked: prior },
                steps,
                steps.len() as int,
            );
            &&& forall|k: int|
                0 <= k < steps.len() ==> #[trigger] steps[k] != GateStepView::Audit(name)
                    && steps[k] != GateStepView::Move(name)
            &&& !done.checked.contains(name)
        }),
{
    let kept = spec_kept(files, whitelist);
    let steps = spec_gate_steps(kept);
    assert forall|k: int| 0 <= k < steps.len() implies #[trigger] steps[k] != GateStepView::Audit(
        name,
    ) && steps[k] != GateStepView::Move(name) by {
        if k < kept.len() {
            lemma_kept_is_expected(files, whitelist, k);
        } else if k > kept.len() {
            lemma_kept_is_expected(files, whitelist, k - kept.len() - 1);
        }
    }
    lemma_gate_progress(files, whitelist, prior, steps.len() as int);
    let done = after_steps(Dirs { build: files, checked: prior }, steps, steps.len() as int);
    assert(kept.take(kept.len() as int) =~= kept);
    if done.checked.contains(name) {
        let k = choose|k: int| 0 <= k < kept.len() && kept[k] == name;
        lemma_kept_is_expected(files, whitelist, k);
    }
}

/// The result depends on the build directory and the whitelist alone:
/// whatever the checked archives held before, afterwards they hold exactly
/// the expected files, so a second run on the same files with the same
/// whitelist gives the same. Only the checked archives are emptied: every
/// file of the build directory is afterwards still there or among the checked
/// archives.
pub proof fn law_gate_is_repeatable(
    files: Seq<Seq<char>>,
    whitelist: Seq<Seq<char>>,
    prior: Seq<Seq<char>>,
)
    ensures
        ({
            let steps = spec_gate_steps(spec_kept(files, whitelist));
            let done = after_steps(
                Dirs { build: files, checked: prior },
                steps,
                steps.len() as int,
            );
            &&& done.checked == spec_kept(files, whitelist)
            &&& forall|f: Seq<char>|
                files.contains(f) ==> done.build.contains(f) || #[trigger] done.checked.contains(f)
        }),
{
    let kept = spec_kept(files, whitelist);
    let steps = spec_gate_steps(kept);
    lemma_gate_progress(files, whitelist, prior, steps.len() as int);
    assert(kept.take(kept.len() as int) =~= kept);
}

} // verus!
