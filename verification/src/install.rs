//! The install run, from the resolved targets to the order of work: the
//! targets that the registry does not know, the summary to confirm, the
//! recipes to review, the whitelist of artifacts, and the steps.

use crate::order::is_stable_sort;
use crate::ordered::depth_entries;
use crate::ordered::depth_pairs;
use crate::ordered::has_record;
use crate::ordered::insert_text;
use crate::ordered::lemma_lookup;
use crate::ordered::new_text_map;
use crate::ordered::record_entries;
use crate::ordered::record_keys;
use crate::ordered::record_pairs;
use crate::ordered::set_entries;
use crate::ordered::set_members;
use crate::ordered::text_entries;
use crate::ordered::text_pairs;
use crate::plan::build_plan;
use crate::plan::first_without_depth;
use crate::plan::is_plan;
use crate::plan::spec_candidates;
use crate::plan::PlanError;
use crate::plan::TierView;
use crate::record::PackageRecord;
use crate::schedule::schedule;
use crate::schedule::spec_schedule;
use crate::schedule::spec_stages;
use crate::schedule::stages;
use crate::schedule::Stage;
use crate::schedule::Step;
use crate::schedule::StepView;
use crate::schedule::TargetsView;
use crate::text::is_letter;
use crate::names::distinct;
use crate::names::distinct_names;
use crate::text::same_text;
use indexmap::IndexMap;
use indexmap::IndexSet;
use itertools::Itertools;
use vstd::prelude::*;

verus! {

/// Why an install run cannot start.
#[derive(Debug)]
pub enum InstallError {
    /// Targets that are needed and that the registry does not know, all of
    /// them, in the order in which they were met.
    PackagesNotFound(Vec<String>),
    /// A target that the registry knows has no depth.
    MissingDepth(String),
}

/// What the operator confirms before anything is built.
#[derive(Debug)]
pub struct InstallSummary {
    /// The dependencies that the system package manager installs.
    pub pacman_deps: Vec<String>,
    /// The targets to build, each with its depth, the deepest first.
    pub aur_packages: Vec<(String, i32)>,
}

/// All that an install run does, decided before it starts.
#[derive(Debug)]
pub struct InstallPlan {
    /// The summary that the operator has to confirm, whatever it lists.
    pub summary: InstallSummary,
    /// The dependencies to install with the system package manager.
    pub pacman_deps: Vec<String>,
    /// The stages of the run, in the order in which they are gone through:
    /// the confirmation, the reviews, the system packages, the steps of the
    /// build plan.
    pub stages: Vec<Stage>,
}

/// The keys of the depths that are not among the known names, in order.
pub open spec fn spec_missing(depths: Seq<(Seq<char>, i32)>, known: Seq<Seq<char>>) -> Seq<
    Seq<char>,
>
    decreases depths.len(),
{
    if depths.len() == 0 {
        Seq::empty()
    } else {
        let earlier = spec_missing(depths.drop_last(), known);
        if known.contains(depths.last().0) {
            earlier
        } else {
            earlier.push(depths.last().0)
        }
    }
}

/// Each target with its package-base.
pub open spec fn bases_of(records: Seq<(Seq<char>, Seq<char>, Seq<char>)>) -> Seq<
    (Seq<char>, Seq<char>),
> {
    Seq::new(records.len(), |i: int| (records[i].0, records[i].1))
}

/// Each target with its version.
pub open spec fn versions_of(records: Seq<(Seq<char>, Seq<char>, Seq<char>)>) -> Seq<
    (Seq<char>, Seq<char>),
> {
    Seq::new(records.len(), |i: int| (records[i].0, records[i].2))
}

/// The second parts of the pairs.
pub open spec fn values_of(pairs: Seq<(Seq<char>, Seq<char>)>) -> Seq<Seq<char>> {
    Seq::new(pairs.len(), |i: int| pairs[i].1)
}

/// The sort keys of the summary: the negated depths.
pub open spec fn summary_keys(pairs: Seq<(Seq<char>, i32)>) -> Seq<int> {
    Seq::new(pairs.len(), |i: int| -(pairs[i].1 as int))
}

/// Whether `summary` is the summary of these dependencies and targets: the
/// dependencies as they come, and the targets sorted stably, the deepest
/// first.
pub open spec fn is_summary(
    pacman: Seq<Seq<char>>,
    aur: Seq<(Seq<char>, i32)>,
    summary: InstallSummary,
) -> bool {
    &&& summary.pacman_deps.deep_view() == pacman
    &&& is_stable_sort(aur, summary.aur_packages.deep_view(), summary_keys(aur))
}

/// Whether `steps` are the steps for these depths, package-bases and
/// versions: the steps of the plan, each audit with the whitelist of its own
/// tier.
pub open spec fn are_steps_of_plan(
    depths: Seq<(Seq<char>, i32)>,
    bases: Seq<(Seq<char>, Seq<char>)>,
    versions: Seq<(Seq<char>, Seq<char>)>,
    asdeps: bool,
    steps: Seq<StepView>,
) -> bool {
    exists|tiers: Seq<TierView>|
        is_plan(spec_candidates(depths, bases), tiers) && steps == spec_schedule(
            tiers,
            TargetsView { bases, versions },
            asdeps,
        )
}

/// The sort key of a summary line: the negated depth.
pub fn summary_key(pair: &(String, i32)) -> (r: i64)
    ensures
        r == -(pair.1 as int),
{
    let depth: i64 = pair.1 as i64;
    -depth
}

/// `slice::sort_by_key` with [`summary_key`]: a stable sort in ascending key
/// order.
#[verifier::external_body]
fn sort_summary(pairs: &mut Vec<(String, i32)>)
    ensures
        is_stable_sort(
            old(pairs).deep_view(),
            final(pairs).deep_view(),
            summary_keys(old(pairs).deep_view()),
        ),
{
    pairs.sort_by_key(|pair| summary_key(pair));
}

/// The needed targets that the registry has no record of, in the order of
/// the depths.
pub fn missing_targets(
    split_to_depth: &IndexMap<String, i32>,
    split_to_raur: &IndexMap<String, PackageRecord>,
) -> (r: Vec<String>)
    ensures
        r.deep_view() == spec_missing(
            depth_pairs(*split_to_depth),
            record_keys(record_pairs(*split_to_raur)),
        ),
{
    let needed = depth_entries(split_to_depth);
    let ghost depths = needed.deep_view();
    let ghost known = record_keys(record_pairs(*split_to_raur));
    let mut missing: Vec<String> = Vec::new();
    let mut i: usize = 0;
    assert(missing.deep_view() =~= Seq::empty());
    while i < needed.len()
        invariant
            i <= needed.len(),
            depths == needed.deep_view(),
            known == record_keys(record_pairs(*split_to_raur)),
            missing.deep_view() == spec_missing(depths.take(i as int), known),
        decreases needed.len() - i,
    {
        proof {
            assert(depths[i as int].0 == needed[i as int].0@);
            assert(depths.take(i + 1).drop_last() =~= depths.take(i as int));
        }
        if !has_record(split_to_raur, needed[i].0.as_str()) {
            let ghost before = missing.deep_view();
            missing.push(needed[i].0.clone());
            assert(missing.deep_view() =~= before.push(needed[i as int].0@));
        }
        i += 1;
    }
    assert(depths.take(i as int) =~= depths);
    missing
}

/// The summary that the operator has to confirm before anything proceeds:
/// the dependencies from the system package manager as they come, and the
/// targets to build, the deepest first. There is a summary for every run,
/// also for a single package.
pub fn show_install_summary(
    pacman_deps: &IndexSet<String>,
    aur_packages: &IndexMap<String, i32>,
) -> (r: InstallSummary)
    ensures
        is_summary(set_members(*pacman_deps), depth_pairs(*aur_packages), r),
{
    let pacman = set_entries(pacman_deps);
    let mut aur = depth_entries(aur_packages);
    sort_summary(&mut aur);
    InstallSummary { pacman_deps: pacman, aur_packages: aur }
}

/// Whether the answer confirms the summary: only `o` does.
pub fn confirmed(answer: &str) -> (r: bool)
    ensures
        r == is_letter(answer@, 'o'),
{
    proof {
        reveal_strlit("o");
        assert(is_letter(answer@, 'o') ==> answer@ =~= "o"@);
    }
    same_text(answer, "o")
}

/// How far the answers bring the confirmation: the place of the first answer
/// that confirms, or `None` while the operator has not confirmed and is asked
/// again.
pub open spec fn spec_confirmation(answers: Seq<Seq<char>>) -> Option<int>
    decreases answers.len(),
{
    if answers.len() == 0 {
        None
    } else {
        match spec_confirmation(answers.drop_last()) {
            Some(place) => Some(place),
            None => if is_letter(answers.last(), 'o') {
                Some(answers.len() - 1)
            } else {
                None
            },
        }
    }
}

/// Reads the operator's answers to the summary one by one, and says which of
/// them confirmed it. Every answer but `o` leads to a new prompt; without an
/// `o` the run does not proceed.
pub fn confirmation(answers: &Vec<String>) -> (r: Option<usize>)
    ensures
        match r {
            Some(place) => spec_confirmation(answers.deep_view()) == Some(place as int),
            None => spec_confirmation(answers.deep_view()) is None,
        },
{
    let ghost all = answers.deep_view();
    let mut i: usize = 0;
    while i < answers.len()
        invariant
            i <= answers.len(),
            all == answers.deep_view(),
            spec_confirmation(all.take(i as int)) is None,
        decreases answers.len() - i,
    {
        proof {
            assert(all.take(i + 1).drop_last() =~= all.take(i as int));
            assert(all.take(i + 1).last() == answers[i as int]@);
        }
        if confirmed(answers[i].as_str()) {
            proof {
                lemma_confirmation_stays(all, i + 1, all.len() as int);
                assert(all.take(all.len() as int) =~= all);
            }
            return Some(i);
        }
        i += 1;
    }
    assert(all.take(i as int) =~= all);
    None
}

/// Once an answer has confirmed, later answers change nothing.
pub proof fn lemma_confirmation_stays(answers: Seq<Seq<char>>, n: int, m: int)
    requires
        0 <= n <= m <= answers.len(),
        spec_confirmation(answers.take(n)) is Some,
    ensures
        spec_confirmation(answers.take(m)) == spec_confirmation(answers.take(n)),
    decreases m - n,
{
    if n < m {
        lemma_confirmation_stays(answers, n, m - 1);
        assert(answers.take(m).drop_last() =~= answers.take(m - 1));
    }
}

/// No answer but `o` confirms: the summary is confirmed exactly when some
/// answer is `o`, and the place given is that of the first such answer.
pub proof fn law_only_o_confirms(answers: Seq<Seq<char>>)
    ensures
        spec_confirmation(answers) is None <==> forall|i: int|
            0 <= i < answers.len() ==> !is_letter(#[trigger] answers[i], 'o'),
        spec_confirmation(answers) matches Some(place) ==> 0 <= place < answers.len()
            && is_letter(answers[place], 'o') && forall|i: int|
            0 <= i < place ==> !is_letter(#[trigger] answers[i], 'o'),
    decreases answers.len(),
{
    if answers.len() > 0 {
        let head = answers.drop_last();
        law_only_o_confirms(head);
        assert forall|i: int| 0 <= i < head.len() implies head[i] == answers[i] by {}
        match spec_confirmation(head) {
            Some(place) => {
                assert(is_letter(answers[place], 'o'));
                assert forall|i: int| 0 <= i < place implies !is_letter(
                    #[trigger] answers[i],
                    'o',
                ) by {
                    assert(head[i] == answers[i]);
                }
            },
            None => {
                assert forall|i: int| 0 <= i < head.len() implies !is_letter(
                    #[trigger] answers[i],
                    'o',
                ) by {
                    assert(!is_letter(head[i], 'o'));
                }
                if is_letter(answers.last(), 'o') {
                    assert(is_letter(answers[answers.len() - 1], 'o'));
                }
            },
        }
    }
}

/// The second parts of the pairs, in order.
pub fn values(pairs: &Vec<(String, String)>) -> (r: Vec<String>)
    ensures
        r.deep_view() == values_of(pairs.deep_view()),
{
    let mut out: Vec<String> = Vec::new();
    let mut i: usize = 0;
    while i < pairs.len()
        invariant
            i <= pairs.len(),
            out.deep_view() =~= values_of(pairs.deep_view()).take(i as int),
        decreases pairs.len() - i,
    {
        let ghost before = out.deep_view();
        assert(pairs.deep_view()[i as int].1 == pairs[i as int].1@);
        out.push(pairs[i].1.clone());
        assert(out.deep_view() =~= before.push(pairs[i as int].1@));
        i += 1;
    }
    assert(values_of(pairs.deep_view()).take(i as int) =~= values_of(pairs.deep_view()));
    out
}

/// The package-bases whose recipes are to be reviewed: each once, where it
/// first occurs among the targets.
pub fn review_targets(split_to_pkgbase: &IndexMap<String, String>) -> (r: Vec<String>)
    ensures
        r.deep_view() == distinct(values_of(text_pairs(*split_to_pkgbase))),
{
    let pairs = text_entries(split_to_pkgbase);
    let bases = values(&pairs);
    distinct_names(&bases)
}

/// The steps of the run: every package-base is built once, at the greatest
/// depth of its targets; the deepest tier is built, audited and installed
/// first, and its audits take only the artifacts of the tier's own targets.
/// A target without a depth is an error.
pub fn install_all(
    split_to_depth: &IndexMap<String, i32>,
    split_to_pkgbase: &IndexMap<String, String>,
    split_to_version: &IndexMap<String, String>,
    asdeps: bool,
) -> (r: Result<Vec<Step>, PlanError>)
    ensures
        match first_without_depth(
            depth_pairs(*split_to_depth),
            text_pairs(*split_to_pkgbase),
            text_pairs(*split_to_pkgbase).len() as int,
        ) {
            Some(name) => r matches Err(PlanError::MissingDepth(n)) && n@ == name,
            None => r matches Ok(steps) && are_steps_of_plan(
                depth_pairs(*split_to_depth),
                text_pairs(*split_to_pkgbase),
                text_pairs(*split_to_version),
                asdeps,
                steps.deep_view(),
            ),
        },
{
    match build_plan(split_to_depth, split_to_pkgbase) {
        Err(e) => Err(e),
        Ok(tiers) => {
            let bases = text_entries(split_to_pkgbase);
            let versions = text_entries(split_to_version);
            Ok(schedule(&tiers, &bases, &versions, asdeps))
        },
    }
}

/// Builds the two maps that the steps are made from: each target with its
/// package-base, and each target with its version.
fn base_and_version_maps(split_to_raur: &IndexMap<String, PackageRecord>) -> (r: (
    IndexMap<String, String>,
    IndexMap<String, String>,
))
    ensures
        text_pairs(r.0) == bases_of(record_pairs(*split_to_raur)),
        text_pairs(r.1) == versions_of(record_pairs(*split_to_raur)),
{
    let records = record_entries(split_to_raur);
    let ghost triples = records.deep_view();
    let mut split_to_pkgbase = new_text_map();
    let mut split_to_version = new_text_map();
    let mut i: usize = 0;
    assert(bases_of(triples).take(0) =~= Seq::empty());
    assert(versions_of(triples).take(0) =~= Seq::empty());
    while i < records.len()
        invariant
            i <= records.len(),
            triples == records.deep_view(),
            record_keys(triples).no_duplicates(),
            text_pairs(split_to_pkgbase) == bases_of(triples).take(i as int),
            text_pairs(split_to_version) == versions_of(triples).take(i as int),
        decreases records.len() - i,
    {
        let ghost key = records[i as int].0@;
        proof {
            assert(triples[i as int] == (
                records[i as int].0@,
                records[i as int].1@,
                records[i as int].2@,
            ));
            let bases = bases_of(triples).take(i as int);
            let versions = versions_of(triples).take(i as int);
            lemma_lookup(bases, key);
            lemma_lookup(versions, key);
            assert forall|j: int| 0 <= j < i implies record_keys(triples)[j] != key by {
                assert(record_keys(triples)[i as int] == key);
            }
            assert forall|j: int| 0 <= j < bases.len() implies #[trigger] bases[j].0 != key by {
                assert(bases[j].0 == record_keys(triples)[j]);
            }
            assert forall|j: int| 0 <= j < versions.len() implies #[trigger] versions[j].0
                != key by {
                assert(versions[j].0 == record_keys(triples)[j]);
            }
            assert(bases_of(triples).take(i + 1) =~= bases.push((key, records[i as int].1@)));
            assert(versions_of(triples).take(i + 1) =~= versions.push(
                (key, records[i as int].2@),
            ));
        }
        insert_text(&mut split_to_pkgbase, records[i].0.clone(), records[i].1.clone());
        insert_text(&mut split_to_version, records[i].0.clone(), records[i].2.clone());
        i += 1;
    }
    assert(bases_of(triples).take(i as int) =~= bases_of(triples));
    assert(versions_of(triples).take(i as int) =~= versions_of(triples));
    (split_to_pkgbase, split_to_version)
}

/// Whether `plan` is the install plan for what the resolver found.
pub open spec fn is_install_plan(
    records: Seq<(Seq<char>, Seq<char>, Seq<char>)>,
    pacman: Seq<Seq<char>>,
    depths: Seq<(Seq<char>, i32)>,
    asdeps: bool,
    plan: InstallPlan,
) -> bool {
    &&& is_summary(pacman, depths, plan.summary)
    &&& plan.pacman_deps.deep_view() == pacman
    &&& exists|steps: Seq<StepView>|
        are_steps_of_plan(depths, bases_of(records), versions_of(records), asdeps, steps)
            && plan.stages.deep_view() == spec_stages(
            distinct(values_of(bases_of(records))),
            steps,
        )
}

/// Decides an install run from what the resolver found. Where a needed
/// target has no record, the run does not start and all such targets are
/// named. Otherwise the plan holds the summary to confirm, the dependencies
/// for the system package manager, and the stages of the run in their order:
/// the confirmation, the review of each package-base's recipe, the install of
/// the system packages, and the steps of the build plan.
pub fn install(
    split_to_raur: &IndexMap<String, PackageRecord>,
    pacman_deps: &IndexSet<String>,
    split_to_depth: &IndexMap<String, i32>,
    asdeps: bool,
) -> (r: Result<InstallPlan, InstallError>)
    ensures
        ({
            let records = record_pairs(*split_to_raur);
            let depths = depth_pairs(*split_to_depth);
            let missing = spec_missing(depths, record_keys(records));
            if missing.len() > 0 {
                r matches Err(InstallError::PackagesNotFound(names)) && names.deep_view()
                    == missing
            } else {
                match first_without_depth(depths, bases_of(records), records.len() as int) {
                    Some(name) => r matches Err(InstallError::MissingDepth(n)) && n@ == name,
                    None => r matches Ok(plan) && is_install_plan(
                        records,
                        set_members(*pacman_deps),
                        depths,
                        asdeps,
                        plan,
                    ),
                }
            }
        }),
{
    let (split_to_pkgbase, split_to_version) = base_and_version_maps(split_to_raur);
    let not_found = missing_targets(split_to_depth, split_to_raur);
    if not_found.len() > 0 {
        return Err(InstallError::PackagesNotFound(not_found));
    }
    let summary = show_install_summary(pacman_deps, split_to_depth);
    let review = review_targets(&split_to_pkgbase);
    let pacman = set_entries(pacman_deps);
    assert(bases_of(record_pairs(*split_to_raur)).len() == record_pairs(*split_to_raur).len());
    match install_all(split_to_depth, &split_to_pkgbase, &split_to_version, asdeps) {
        Err(PlanError::MissingDepth(name)) => Err(InstallError::MissingDepth(name)),
        Ok(steps) => {
            let ghost work = steps.deep_view();
            let plan = InstallPlan { summary, pacman_deps: pacman, stages: stages(review, steps) };
            assert(are_steps_of_plan(
                depth_pairs(*split_to_depth),
                bases_of(record_pairs(*split_to_raur)),
                versions_of(record_pairs(*split_to_raur)),
                asdeps,
                work,
            ));
            Ok(plan)
        },
    }
}

/// The files of one package, each tagged with the target that stands for the
/// package.
pub open spec fn spec_tagged(split: Seq<char>, files: Seq<Seq<char>>) -> Seq<
    (Seq<char>, Seq<char>),
> {
    Seq::new(files.len(), |j: int| (split, files[j]))
}

/// The tagged files of the first `n` packages, package after package.
pub open spec fn spec_files_to_install(
    packages: Seq<(Seq<char>, Seq<char>)>,
    checked: Seq<Seq<Seq<char>>>,
    n: int,
) -> Seq<(Seq<char>, Seq<char>)>
    decreases n,
{
    if n <= 0 {
        Seq::empty()
    } else {
        spec_files_to_install(packages, checked, n - 1) + spec_tagged(
            packages[n - 1].1,
            checked[n - 1],
        )
    }
}

/// The batch for one install call: every checked archive of every package of
/// the tier, with the target that stands for its package. `packages` gives
/// each package as package-base and target, as an install step does, and
/// `checked` the files found for each, in the same order. Without one list of
/// files for each package there is no batch.
pub fn files_to_install(packages: &Vec<(String, String)>, checked: &Vec<Vec<String>>) -> (r:
    Option<Vec<(String, String)>>)
    ensures
        match r {
            None => packages.len() != checked.len(),
            Some(batch) => packages.len() == checked.len() && batch.deep_view()
                == spec_files_to_install(
                packages.deep_view(),
                checked.deep_view(),
                packages.len() as int,
            ),
        },
{
    if packages.len() != checked.len() {
        return None;
    }
    let ghost ps = packages.deep_view();
    let ghost cs = checked.deep_view();
    let mut batch: Vec<(String, String)> = Vec::new();
    let mut i: usize = 0;
    assert(batch.deep_view() =~= Seq::empty());
    while i < packages.len()
        invariant
            i <= packages.len(),
            packages.len() == checked.len(),
            ps == packages.deep_view(),
            cs == checked.deep_view(),
            batch.deep_view() == spec_files_to_install(ps, cs, i as int),
        decreases packages.len() - i,
    {
        let ghost before = batch.deep_view();
        let files = &checked[i];
        let ghost tagged = spec_tagged(ps[i as int].1, cs[i as int]);
        assert(ps[i as int].1 == packages[i as int].1@);
        assert(cs[i as int] == files.deep_view());
        let mut j: usize = 0;
        while j < files.len()
            invariant
                j <= files.len(),
                i < packages.len(),
                tagged == spec_tagged(packages[i as int].1@, files.deep_view()),
                batch.deep_view() =~= before + tagged.take(j as int),
            decreases files.len() - j,
        {
            let ghost so_far = batch.deep_view();
            batch.push((packages[i].1.clone(), files[j].clone()));
            assert(batch.deep_view() =~= so_far.push((packages[i as int].1@, files[j as int]@)));
            assert(tagged[j as int] == (packages[i as int].1@, files.deep_view()[j as int]));
            j += 1;
        }
        assert(tagged.take(j as int) =~= tagged);
        i += 1;
    }
    Some(batch)
}

/// The lines with the separator between each two of them.
pub open spec fn spec_join(lines: Seq<Seq<char>>, sep: Seq<char>) -> Seq<char>
    decreases lines.len(),
{
    if lines.len() == 0 {
        Seq::empty()
    } else if lines.len() == 1 {
        lines[0]
    } else {
        spec_join(lines.drop_last(), sep) + sep + lines.last()
    }
}

/// Each name behind two spaces.
pub open spec fn spec_indented(names: Seq<Seq<char>>) -> Seq<Seq<char>> {
    Seq::new(names.len(), |i: int| seq![' ', ' '] + names[i])
}

/// The names of the pairs.
pub open spec fn names_of(pairs: Seq<(Seq<char>, i32)>) -> Seq<Seq<char>> {
    Seq::new(pairs.len(), |i: int| pairs[i].0)
}

/// `Itertools::join` over the lines: all of them in one string, with the
/// separator between each two.
#[verifier::external_body]
fn join_lines(lines: &Vec<String>, sep: &str) -> (r: String)
    ensures
        r@ == spec_join(lines.deep_view(), sep@),
{
    lines.iter().join(sep)
}

/// The names as a block of text for the terminal: one name to a line, each
/// indented by two spaces.
pub fn listing(names: &Vec<String>) -> (r: String)
    ensures
        r@ == spec_join(spec_indented(names.deep_view()), seq!['\n']),
{
    proof {
        reveal_strlit("  ");
        reveal_strlit("\n");
        assert("  "@ =~= seq![' ', ' ']);
        assert("\n"@ =~= seq!['\n']);
    }
    let mut lines: Vec<String> = Vec::new();
    let mut i: usize = 0;
    while i < names.len()
        invariant
            i <= names.len(),
            "  "@ == seq![' ', ' '],
            lines.deep_view() =~= spec_indented(names.deep_view()).take(i as int),
        decreases names.len() - i,
    {
        let ghost before = lines.deep_view();
        assert(names.deep_view()[i as int] == names[i as int]@);
        let mut line = "  ".to_owned();
        line.append(names[i].as_str());
        lines.push(line);
        assert(lines.deep_view() =~= before.push(seq![' ', ' '] + names[i as int]@));
        i += 1;
    }
    assert(spec_indented(names.deep_view()).take(i as int) =~= spec_indented(names.deep_view()));
    join_lines(&lines, "\n")
}

impl InstallSummary {
    /// The dependencies from the system package manager, as text.
    pub fn pacman_listing(&self) -> (r: String)
        ensures
            r@ == spec_join(spec_indented(self.pacman_deps.deep_view()), seq!['\n']),
    {
        listing(&self.pacman_deps)
    }

    /// The targets to build, as text, in the order of the summary.
    pub fn aur_listing(&self) -> (r: String)
        ensures
            r@ == spec_join(
                spec_indented(names_of(self.aur_packages.deep_view())),
                seq!['\n'],
            ),
    {
        let mut names: Vec<String> = Vec::new();
        let mut i: usize = 0;
        while i < self.aur_packages.len()
            invariant
                i <= self.aur_packages.len(),
                names.deep_view() =~= names_of(self.aur_packages.deep_view()).take(i as int),
            decreases self.aur_packages.len() - i,
        {
            let ghost before = names.deep_view();
            assert(self.aur_packages.deep_view()[i as int].0 == self.aur_packages[i as int].0@);
            names.push(self.aur_packages[i].0.clone());
            assert(names.deep_view() =~= before.push(self.aur_packages[i as int].0@));
            i += 1;
        }
        assert(names_of(self.aur_packages.deep_view()).take(i as int) =~= names_of(
            self.aur_packages.deep_view(),
        ));
        listing(&names)
    }
}

} // verus!
