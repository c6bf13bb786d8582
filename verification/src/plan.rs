//! The build plan: which package-bases are built, at what depth, and in what
//! order.
//!
//! Every target names the package-base that builds it. A package-base is
//! built once, at the greatest depth of its targets, and the deepest are built
//! first. The sorting, the removal of repeated package-bases and the grouping
//! into tiers are `itertools`'; their contracts restate its documentation and
//! are not proved. That their composition is the plan described here is.

use crate::ordered::depth_of;
use crate::ordered::depth_pairs;
use crate::ordered::lookup;
use crate::ordered::text_entries;
use crate::ordered::text_pairs;
use crate::order::is_arranged;
use crate::order::is_stable_order;
use crate::order::is_stable_sort;
use indexmap::IndexMap;
use itertools::Itertools;
use vstd::prelude::*;

verus! {

/// One target with the package-base that builds it and its depth.
#[derive(Debug)]
pub struct PlanEntry {
    /// The package-base: the recipe to build.
    pub pkgbase: String,
    /// Distance of the target from the requested roots.
    pub depth: i32,
    /// The target that stands for the package-base.
    pub split: String,
}

/// The mathematical content of a [`PlanEntry`].
pub struct EntryView {
    pub pkgbase: Seq<char>,
    pub depth: int,
    pub split: Seq<char>,
}

impl DeepView for PlanEntry {
    type V = EntryView;

    open spec fn deep_view(&self) -> EntryView {
        EntryView { pkgbase: self.pkgbase@, depth: self.depth as int, split: self.split@ }
    }
}

/// The package-bases of one depth, built, audited and installed together.
#[derive(Debug)]
pub struct Tier {
    /// The depth that all packages of the tier share.
    pub depth: i32,
    /// The package-bases of the tier, in build order.
    pub packages: Vec<PlanEntry>,
}

/// The mathematical content of a [`Tier`].
pub struct TierView {
    pub depth: int,
    pub packages: Seq<EntryView>,
}

impl DeepView for Tier {
    type V = TierView;

    open spec fn deep_view(&self) -> TierView {
        TierView { depth: self.depth as int, packages: self.packages.deep_view() }
    }
}

/// The key that puts the deepest entry first in an ascending sort.
pub open spec fn spec_descending_key(e: EntryView) -> int {
    -e.depth
}

/// The descending keys of the entries, place by place.
pub open spec fn descending_keys(entries: Seq<EntryView>) -> Seq<int> {
    Seq::new(entries.len(), |i: int| spec_descending_key(entries[i]))
}

/// `after` is `before`, stably sorted with the deepest entries first.
pub open spec fn is_sorted_deepest_first(before: Seq<EntryView>, after: Seq<EntryView>) -> bool {
    is_stable_sort(before, after, descending_keys(before))
}

/// Some entry names this package-base.
pub open spec fn has_base(entries: Seq<EntryView>, pkgbase: Seq<char>) -> bool {
    exists|j: int| 0 <= j < entries.len() && #[trigger] entries[j].pkgbase == pkgbase
}

/// The entries without those whose package-base an earlier entry names.
pub open spec fn first_of_each_base(entries: Seq<EntryView>) -> Seq<EntryView>
    decreases entries.len(),
{
    if entries.len() == 0 {
        Seq::empty()
    } else {
        let earlier = entries.drop_last();
        if has_base(earlier, entries.last().pkgbase) {
            first_of_each_base(earlier)
        } else {
            first_of_each_base(earlier).push(entries.last())
        }
    }
}

/// The packages of all tiers, one tier after the other.
pub open spec fn flat(tiers: Seq<TierView>) -> Seq<EntryView>
    decreases tiers.len(),
{
    if tiers.len() == 0 {
        Seq::empty()
    } else {
        flat(tiers.drop_last()) + tiers.last().packages
    }
}

/// Every tier holds a package, and each of its packages has the tier's depth.
pub open spec fn tiers_well_formed(tiers: Seq<TierView>) -> bool {
    &&& forall|t: int| 0 <= t < tiers.len() ==> (#[trigger] tiers[t]).packages.len() > 0
    &&& forall|t: int, i: int|
        0 <= t < tiers.len() && 0 <= i < tiers[t].packages.len() ==> (
        #[trigger] tiers[t].packages[i]).depth == tiers[t].depth
}

/// The tiers cut `entries` into its runs of equal depth: nothing is moved or
/// dropped, no tier is empty, and two tiers in a row differ in depth.
pub open spec fn is_grouping(entries: Seq<EntryView>, tiers: Seq<TierView>) -> bool {
    &&& flat(tiers) == entries
    &&& tiers_well_formed(tiers)
    &&& forall|t: int|
        0 <= t < tiers.len() - 1 ==> (#[trigger] tiers[t]).depth != tiers[t + 1].depth
}

/// The sort key of an entry: the negated depth, so that ascending order puts
/// the deepest first.
pub fn descending_key(e: &PlanEntry) -> (r: i64)
    ensures
        r == spec_descending_key(e.deep_view()),
{
    let depth: i64 = e.depth as i64;
    -depth
}

/// `Itertools::sorted_by_key` with [`descending_key`]: a stable sort, so the
/// result is a rearrangement in ascending key order in which entries of equal
/// key keep their order.
#[verifier::external_body]
fn sort_deepest_first(entries: Vec<PlanEntry>) -> (r: Vec<PlanEntry>)
    ensures
        is_sorted_deepest_first(entries.deep_view(), r.deep_view()),
{
    entries.into_iter().sorted_by_key(|e| descending_key(e)).collect()
}

/// `Itertools::unique_by` with the package-base as key: an entry is dropped
/// when an earlier one had its key, and the rest keep their order.
#[verifier::external_body]
fn unique_by_base(entries: Vec<PlanEntry>) -> (r: Vec<PlanEntry>)
    ensures
        r.deep_view() == first_of_each_base(entries.deep_view()),
{
    entries.into_iter().unique_by(|e| e.pkgbase.clone()).collect()
}

/// `Itertools::group_by` with the depth as key: each run of consecutive
/// entries of one depth becomes a tier.
#[verifier::external_body]
fn group_by_depth(entries: Vec<PlanEntry>) -> (r: Vec<Tier>)
    ensures
        is_grouping(entries.deep_view(), r.deep_view()),
{
    let groups = entries.into_iter().group_by(|e| e.depth);
    groups.into_iter().map(|(depth, run)| Tier { depth, packages: run.collect() }).collect()
}

/// The candidate at `i` is the one that decides for its package-base: none of
/// the same package-base lies deeper, and of those as deep it comes first.
pub open spec fn is_winner(candidates: Seq<EntryView>, i: int) -> bool {
    &&& 0 <= i < candidates.len()
    &&& forall|j: int|
        0 <= j < candidates.len() && (#[trigger] candidates[j]).pkgbase == candidates[i].pkgbase
            ==> candidates[j].depth < candidates[i].depth || (candidates[j].depth
            == candidates[i].depth && i <= j)
}

/// The entry is the winning candidate of its package-base.
pub open spec fn is_winning_entry(candidates: Seq<EntryView>, e: EntryView) -> bool {
    exists|i: int| is_winner(candidates, i) && candidates[i] == e
}

/// `chosen` holds the winning candidate of every package-base and nothing
/// else, no package-base twice, and among entries of one depth the candidates'
/// own order.
pub open spec fn picks_winners(candidates: Seq<EntryView>, chosen: Seq<EntryView>) -> bool {
    &&& forall|k: int| 0 <= k < chosen.len() ==> is_winning_entry(candidates, #[trigger] chosen[k])
    &&& forall|i: int| is_winner(candidates, i) ==> chosen.contains(#[trigger] candidates[i])
    &&& forall|k1: int, k2: int|
        0 <= k1 < k2 < chosen.len() ==> (#[trigger] chosen[k1]).pkgbase != (
        #[trigger] chosen[k2]).pkgbase
    &&& forall|k1: int, k2: int, i1: int, i2: int|
        #![trigger candidates[i1], candidates[i2], chosen[k1], chosen[k2]]
        0 <= k1 < k2 < chosen.len() && chosen[k1].depth == chosen[k2].depth && is_winner(
            candidates,
            i1,
        ) && is_winner(candidates, i2) && candidates[i1] == chosen[k1] && candidates[i2]
            == chosen[k2] ==> i1 < i2
}

/// The tiers are the build plan of the candidates: the winners of all
/// package-bases, cut into tiers of one depth each, the deepest tier first.
pub open spec fn is_plan(candidates: Seq<EntryView>, tiers: Seq<TierView>) -> bool {
    &&& tiers_well_formed(tiers)
    &&& forall|t1: int, t2: int|
        0 <= t1 < t2 < tiers.len() ==> (#[trigger] tiers[t1]).depth > (#[trigger] tiers[t2]).depth
    &&& picks_winners(candidates, flat(tiers))
}

/// Where the packages of tier `t` begin among the packages of all tiers.
pub open spec fn tier_start(tiers: Seq<TierView>, t: int) -> int
    decreases t,
{
    if t <= 0 {
        0
    } else {
        tier_start(tiers, t - 1) + tiers[t - 1].packages.len()
    }
}

/// The start of a tier does not depend on the tiers after it.
pub proof fn lemma_tier_start_prefix(tiers: Seq<TierView>, n: int, t: int)
    requires
        0 <= t <= n <= tiers.len(),
    ensures
        tier_start(tiers.take(n), t) == tier_start(tiers, t),
    decreases t,
{
    if t > 0 {
        lemma_tier_start_prefix(tiers, n, t - 1);
    }
}

/// All packages together are as many as the end of the last tier says.
pub proof fn lemma_flat_len(tiers: Seq<TierView>)
    ensures
        flat(tiers).len() == tier_start(tiers, tiers.len() as int),
    decreases tiers.len(),
{
    if tiers.len() > 0 {
        let n = tiers.len() as int;
        lemma_flat_len(tiers.drop_last());
        assert(tiers.drop_last() =~= tiers.take(n - 1));
        lemma_tier_start_prefix(tiers, n - 1, n - 1);
    }
}

/// The starts of the tiers ascend.
pub proof fn lemma_tier_start_ascends(tiers: Seq<TierView>, t1: int, t2: int)
    requires
        0 <= t1 <= t2 <= tiers.len(),
    ensures
        tier_start(tiers, t1) <= tier_start(tiers, t2),
    decreases t2 - t1,
{
    if t1 < t2 {
        lemma_tier_start_ascends(tiers, t1, t2 - 1);
    }
}

/// Package `i` of tier `t` stands at `tier_start(tiers, t) + i` among the
/// packages of all tiers.
pub proof fn lemma_flat_at(tiers: Seq<TierView>, t: int, i: int)
    requires
        0 <= t < tiers.len(),
        0 <= i < tiers[t].packages.len(),
    ensures
        0 <= tier_start(tiers, t) + i < flat(tiers).len(),
        flat(tiers)[tier_start(tiers, t) + i] == tiers[t].packages[i],
    decreases tiers.len(),
{
    let n = tiers.len() as int;
    let head = tiers.drop_last();
    assert(head =~= tiers.take(n - 1));
    lemma_flat_len(head);
    lemma_tier_start_prefix(tiers, n - 1, n - 1);
    lemma_tier_start_ascends(tiers, 0, t);
    if t == n - 1 {
    } else {
        lemma_flat_at(head, t, i);
        lemma_tier_start_prefix(tiers, n - 1, t);
    }
}

/// The places in `entries` of the entries that `first_of_each_base` keeps.
pub open spec fn first_places(entries: Seq<EntryView>) -> Seq<int>
    decreases entries.len(),
{
    if entries.len() == 0 {
        Seq::empty()
    } else {
        let earlier = entries.drop_last();
        if has_base(earlier, entries.last().pkgbase) {
            first_places(earlier)
        } else {
            first_places(earlier).push(entries.len() - 1)
        }
    }
}

/// No entry before `a` names the package-base of the entry at `a`.
pub open spec fn is_first(entries: Seq<EntryView>, a: int) -> bool {
    &&& 0 <= a < entries.len()
    &&& forall|b: int| 0 <= b < a ==> (#[trigger] entries[b]).pkgbase != entries[a].pkgbase
}

/// What `first_of_each_base` keeps are the entries at the first places, which
/// ascend and are all the places where a package-base occurs first.
pub proof fn lemma_first_places(entries: Seq<EntryView>)
    ensures
        first_places(entries).len() == first_of_each_base(entries).len(),
        forall|k: int|
            0 <= k < first_places(entries).len() ==> is_first(
                entries,
                #[trigger] first_places(entries)[k],
            ) && first_of_each_base(entries)[k] == entries[first_places(entries)[k]],
        forall|k1: int, k2: int|
            0 <= k1 < k2 < first_places(entries).len() ==> #[trigger] first_places(entries)[k1]
                < #[trigger] first_places(entries)[k2],
        forall|a: int|
            #[trigger] is_first(entries, a) ==> exists|k: int|
                0 <= k < first_places(entries).len() && first_places(entries)[k] == a,
    decreases entries.len(),
{
    if entries.len() > 0 {
        let n = entries.len() as int;
        let earlier = entries.drop_last();
        let fp = first_places(entries);
        let fe = first_places(earlier);
        lemma_first_places(earlier);
        let fresh = !has_base(earlier, entries.last().pkgbase);
        assert forall|k: int| 0 <= k < fp.len() implies is_first(entries, #[trigger] fp[k])
            && first_of_each_base(entries)[k] == entries[fp[k]] by {
            if k < fe.len() {
                assert(is_first(earlier, fe[k]));
                assert forall|b: int| 0 <= b < fe[k] implies (#[trigger] entries[b]).pkgbase
                    != entries[fe[k]].pkgbase by {
                    assert(earlier[b].pkgbase != earlier[fe[k]].pkgbase);
                }
            } else {
                assert(fresh);
                assert forall|b: int| 0 <= b < n - 1 implies (#[trigger] entries[b]).pkgbase
                    != entries[n - 1].pkgbase by {
                    assert(earlier[b].pkgbase == entries[b].pkgbase);
                }
            }
        }
        assert forall|k1: int, k2: int| 0 <= k1 < k2 < fp.len() implies #[trigger] fp[k1]
            < #[trigger] fp[k2] by {
            assert(is_first(earlier, fe[k1]));
        }
        assert forall|a: int| #[trigger] is_first(entries, a) implies exists|k: int|
            0 <= k < fp.len() && fp[k] == a by {
            if a < n - 1 {
                assert forall|b: int| 0 <= b < a implies (#[trigger] earlier[b]).pkgbase
                    != earlier[a].pkgbase by {
                    assert(entries[b].pkgbase != entries[a].pkgbase);
                }
                assert(is_first(earlier, a));
                let k = choose|k: int| 0 <= k < fe.len() && fe[k] == a;
                assert(fp[k] == a);
            } else {
                if has_base(earlier, entries.last().pkgbase) {
                    let j = choose|j: int|
                        0 <= j < earlier.len() && #[trigger] earlier[j].pkgbase
                            == entries.last().pkgbase;
                    assert(entries[j].pkgbase == entries[a].pkgbase);
                }
                assert(fp[fp.len() - 1] == a);
            }
        }
    }
}

/// In a stable order, the first entry of a package-base comes from the
/// winning candidate.
pub proof fn lemma_first_is_winner(
    candidates: Seq<EntryView>,
    sorted: Seq<EntryView>,
    origin: Seq<int>,
    place: Seq<int>,
    a: int,
)
    requires
        is_stable_order(descending_keys(candidates), origin, place),
        is_arranged(candidates, sorted, origin),
        is_first(sorted, a),
    ensures
        is_winner(candidates, origin[a]),
        candidates[origin[a]] == sorted[a],
{
    let keys = descending_keys(candidates);
    let i = origin[a];
    assert forall|j: int|
        0 <= j < candidates.len() && (#[trigger] candidates[j]).pkgbase
            == candidates[i].pkgbase implies candidates[j].depth < candidates[i].depth || (
    candidates[j].depth == candidates[i].depth && i <= j) by {
        let b = place[j];
        assert(origin[b] == j);
        assert(sorted[b] == candidates[j]);
        if b < a {
            assert(sorted[b].pkgbase != sorted[a].pkgbase);
        } else if a < b {
            assert(keys[origin[a]] <= keys[origin[b]]);
            if keys[origin[a]] == keys[origin[b]] {
                assert(origin[a] < origin[b]);
            }
        }
    }
}

/// In a stable order, the winning candidate is the first entry of its
/// package-base.
pub proof fn lemma_winner_is_first(
    candidates: Seq<EntryView>,
    sorted: Seq<EntryView>,
    origin: Seq<int>,
    place: Seq<int>,
    i: int,
)
    requires
        is_stable_order(descending_keys(candidates), origin, place),
        is_arranged(candidates, sorted, origin),
        is_winner(candidates, i),
    ensures
        is_first(sorted, place[i]),
        sorted[place[i]] == candidates[i],
{
    let keys = descending_keys(candidates);
    let a = place[i];
    assert(origin[a] == i);
    assert(sorted[a] == candidates[i]);
    assert forall|b: int| 0 <= b < a implies (#[trigger] sorted[b]).pkgbase
        != sorted[a].pkgbase by {
        let j = origin[b];
        assert(sorted[b] == candidates[j]);
        assert(place[j] == b);
        if candidates[j].pkgbase == candidates[i].pkgbase {
            assert(keys[origin[b]] <= keys[origin[a]]);
            if keys[origin[b]] == keys[origin[a]] {
                assert(origin[b] < origin[a]);
            }
        }
    }
}

/// A package-base has one winner.
pub proof fn lemma_winner_unique(candidates: Seq<EntryView>, i1: int, i2: int)
    requires
        is_winner(candidates, i1),
        is_winner(candidates, i2),
        candidates[i1].pkgbase == candidates[i2].pkgbase,
    ensures
        i1 == i2,
{
}

/// Keeping the first entry of each package-base in a stable order of the
/// candidates picks the winners.
pub proof fn lemma_first_of_sorted_picks_winners(
    candidates: Seq<EntryView>,
    sorted: Seq<EntryView>,
    origin: Seq<int>,
    place: Seq<int>,
)
    requires
        is_stable_order(descending_keys(candidates), origin, place),
        is_arranged(candidates, sorted, origin),
    ensures
        picks_winners(candidates, first_of_each_base(sorted)),
        forall|k1: int, k2: int|
            0 <= k1 < k2 < first_of_each_base(sorted).len() ==> (#[trigger] first_of_each_base(
                sorted,
            )[k1]).depth >= (#[trigger] first_of_each_base(sorted)[k2]).depth,
{
    let keys = descending_keys(candidates);
    let chosen = first_of_each_base(sorted);
    let fp = first_places(sorted);
    lemma_first_places(sorted);
    assert forall|k: int| 0 <= k < chosen.len() implies is_winning_entry(
        candidates,
        #[trigger] chosen[k],
    ) by {
        assert(is_first(sorted, fp[k]));
        lemma_first_is_winner(candidates, sorted, origin, place, fp[k]);
        assert(is_winner(candidates, origin[fp[k]]) && candidates[origin[fp[k]]] == chosen[k]);
    }
    assert forall|i: int| is_winner(candidates, i) implies chosen.contains(
        #[trigger] candidates[i],
    ) by {
        lemma_winner_is_first(candidates, sorted, origin, place, i);
        let a = place[i];
        assert(is_first(sorted, a));
        let k = choose|k: int| 0 <= k < fp.len() && fp[k] == a;
        assert(chosen[k] == candidates[i]);
    }
    assert forall|k1: int, k2: int| 0 <= k1 < k2 < chosen.len() implies (
    #[trigger] chosen[k1]).pkgbase != (#[trigger] chosen[k2]).pkgbase by {
        assert(fp[k1] < fp[k2]);
        assert(is_first(sorted, fp[k2]));
        assert(sorted[fp[k1]].pkgbase != sorted[fp[k2]].pkgbase);
    }
    assert forall|k1: int, k2: int, i1: int, i2: int|
        #![trigger candidates[i1], candidates[i2], chosen[k1], chosen[k2]]
        0 <= k1 < k2 < chosen.len() && chosen[k1].depth == chosen[k2].depth && is_winner(
            candidates,
            i1,
        ) && is_winner(candidates, i2) && candidates[i1] == chosen[k1] && candidates[i2]
            == chosen[k2] implies i1 < i2 by {
        assert(is_first(sorted, fp[k1]));
        assert(is_first(sorted, fp[k2]));
        lemma_first_is_winner(candidates, sorted, origin, place, fp[k1]);
        lemma_first_is_winner(candidates, sorted, origin, place, fp[k2]);
        lemma_winner_unique(candidates, origin[fp[k1]], i1);
        lemma_winner_unique(candidates, origin[fp[k2]], i2);
        assert(fp[k1] < fp[k2]);
        assert(keys[origin[fp[k1]]] == keys[origin[fp[k2]]]);
        assert(origin[fp[k1]] < origin[fp[k2]]);
    }
    assert forall|k1: int, k2: int| 0 <= k1 < k2 < chosen.len() implies (
    #[trigger] chosen[k1]).depth >= (#[trigger] chosen[k2]).depth by {
        assert(fp[k1] < fp[k2]);
        assert(is_first(sorted, fp[k1]));
        assert(is_first(sorted, fp[k2]));
        assert(keys[origin[fp[k1]]] <= keys[origin[fp[k2]]]);
    }
}

/// Sorting the candidates deepest first, keeping the first entry of each
/// package-base and cutting the rest into runs of one depth gives the plan.
pub proof fn lemma_sort_unique_group_is_plan(
    candidates: Seq<EntryView>,
    sorted: Seq<EntryView>,
    tiers: Seq<TierView>,
)
    requires
        is_sorted_deepest_first(candidates, sorted),
        is_grouping(first_of_each_base(sorted), tiers),
    ensures
        is_plan(candidates, tiers),
{
    let (origin, place) = choose|origin: Seq<int>, place: Seq<int>|
        is_stable_order(descending_keys(candidates), origin, place) && is_arranged(
            candidates,
            sorted,
            origin,
        );
    lemma_first_of_sorted_picks_winners(candidates, sorted, origin, place);
    assert(flat(tiers) == first_of_each_base(sorted));
    assert forall|t1: int, t2: int| 0 <= t1 < t2 < tiers.len() implies (
    #[trigger] tiers[t1]).depth > (#[trigger] tiers[t2]).depth by {
        lemma_tiers_descend(tiers, t1, t2);
    }
}

/// Where the packages of all tiers together never get deeper and two tiers in
/// a row differ in depth, an earlier tier is deeper than a later one.
pub proof fn lemma_tiers_descend(tiers: Seq<TierView>, t1: int, t2: int)
    requires
        tiers_well_formed(tiers),
        forall|t: int| 0 <= t < tiers.len() - 1 ==> (#[trigger] tiers[t]).depth != tiers[t + 1].depth,
        forall|k1: int, k2: int|
            0 <= k1 < k2 < flat(tiers).len() ==> (#[trigger] flat(tiers)[k1]).depth >= (
            #[trigger] flat(tiers)[k2]).depth,
        0 <= t1 < t2 < tiers.len(),
    ensures
        tiers[t1].depth > tiers[t2].depth,
    decreases t2 - t1,
{
    let last = tiers[t1].packages.len() - 1;
    lemma_flat_at(tiers, t1, last);
    lemma_flat_at(tiers, t1 + 1, 0);
    let k1 = tier_start(tiers, t1) + last;
    let k2 = tier_start(tiers, t1 + 1);
    assert(k2 == k1 + 1);
    assert(flat(tiers)[k1].depth >= flat(tiers)[k2].depth);
    assert(tiers[t1].packages[last].depth == tiers[t1].depth);
    assert(tiers[t1 + 1].packages[0].depth == tiers[t1 + 1].depth);
    assert(tiers[t1].depth != tiers[t1 + 1].depth);
    if t1 + 1 < t2 {
        lemma_tiers_descend(tiers, t1 + 1, t2);
    }
}

/// Orders the candidates into tiers: each package-base once, at the greatest
/// depth of its targets, the deepest tier first.
pub fn plan_tiers(candidates: Vec<PlanEntry>) -> (r: Vec<Tier>)
    ensures
        is_plan(candidates.deep_view(), r.deep_view()),
{
    let ghost given = candidates.deep_view();
    let sorted = sort_deepest_first(candidates);
    let ghost in_order = sorted.deep_view();
    let unique = unique_by_base(sorted);
    let tiers = group_by_depth(unique);
    proof {
        lemma_sort_unique_group_is_plan(given, in_order, tiers.deep_view());
    }
    tiers
}

/// Why no plan could be made.
#[derive(Debug)]
pub enum PlanError {
    /// A target has a package-base but no depth; the target is named.
    MissingDepth(String),
}

/// The first target among the first `n` that has no depth.
pub open spec fn first_without_depth(
    depths: Seq<(Seq<char>, i32)>,
    bases: Seq<(Seq<char>, Seq<char>)>,
    n: int,
) -> Option<Seq<char>>
    decreases n,
{
    if n <= 0 {
        None
    } else {
        match first_without_depth(depths, bases, n - 1) {
            Some(name) => Some(name),
            None => if lookup(depths, bases[n - 1].0) is None {
                Some(bases[n - 1].0)
            } else {
                None
            },
        }
    }
}

/// One candidate for each target, in the order of the targets: its
/// package-base, its depth, and the target itself.
pub open spec fn spec_candidates(
    depths: Seq<(Seq<char>, i32)>,
    bases: Seq<(Seq<char>, Seq<char>)>,
) -> Seq<EntryView> {
    Seq::new(
        bases.len(),
        |i: int|
            EntryView {
                pkgbase: bases[i].1,
                depth: match lookup(depths, bases[i].0) {
                    Some(d) => d as int,
                    None => 0,
                },
                split: bases[i].0,
            },
    )
}

/// Once a target without depth is met, it stays the first such.
pub proof fn lemma_first_without_depth_stays(
    depths: Seq<(Seq<char>, i32)>,
    bases: Seq<(Seq<char>, Seq<char>)>,
    n: int,
    m: int,
)
    requires
        n <= m,
        first_without_depth(depths, bases, n) is Some,
    ensures
        first_without_depth(depths, bases, m) == first_without_depth(depths, bases, n),
    decreases m - n,
{
    if n < m {
        lemma_first_without_depth_stays(depths, bases, n, m - 1);
    }
}

/// Pairs every target with its package-base and its depth.
pub fn candidates(
    split_to_depth: &IndexMap<String, i32>,
    split_to_pkgbase: &IndexMap<String, String>,
) -> (r: Result<Vec<PlanEntry>, PlanError>)
    ensures
        match first_without_depth(
            depth_pairs(*split_to_depth),
            text_pairs(*split_to_pkgbase),
            text_pairs(*split_to_pkgbase).len() as int,
        ) {
            Some(name) => r matches Err(PlanError::MissingDepth(n)) && n@ == name,
            None => r matches Ok(entries) && entries.deep_view() == spec_candidates(
                depth_pairs(*split_to_depth),
                text_pairs(*split_to_pkgbase),
            ),
        },
{
    let pairs = text_entries(split_to_pkgbase);
    let ghost depths = depth_pairs(*split_to_depth);
    let ghost bases = text_pairs(*split_to_pkgbase);
    let mut entries: Vec<PlanEntry> = Vec::new();
    let mut i: usize = 0;
    while i < pairs.len()
        invariant
            i <= pairs.len(),
            depths == depth_pairs(*split_to_depth),
            bases == pairs.deep_view(),
            bases == text_pairs(*split_to_pkgbase),
            first_without_depth(depths, bases, i as int) is None,
            entries.deep_view() =~= spec_candidates(depths, bases).take(i as int),
        decreases pairs.len() - i,
    {
        assert(bases[i as int] == (pairs[i as int].0@, pairs[i as int].1@));
        let split = &pairs[i].0;
        let pkgbase = &pairs[i].1;
        match depth_of(split_to_depth, split.as_str()) {
            None => {
                proof {
                    lemma_first_without_depth_stays(depths, bases, i + 1, bases.len() as int);
                }
                return Err(PlanError::MissingDepth(split.clone()));
            },
            Some(depth) => {
                let ghost before = entries.deep_view();
                let entry = PlanEntry { pkgbase: pkgbase.clone(), depth, split: split.clone() };
                assert(entry.deep_view() == spec_candidates(depths, bases)[i as int]);
                entries.push(entry);
                assert(entries.deep_view() =~= before.push(
                    spec_candidates(depths, bases)[i as int],
                ));
            },
        }
        i += 1;
    }
    assert(spec_candidates(depths, bases).take(i as int) =~= spec_candidates(depths, bases));
    Ok(entries)
}

/// The build plan for the resolved targets: every package-base once, at the
/// greatest depth of its targets, in tiers of one depth, the deepest first.
/// A target without a depth is an error, and the first such is named.
pub fn build_plan(
    split_to_depth: &IndexMap<String, i32>,
    split_to_pkgbase: &IndexMap<String, String>,
) -> (r: Result<Vec<Tier>, PlanError>)
    ensures
        match first_without_depth(
            depth_pairs(*split_to_depth),
            text_pairs(*split_to_pkgbase),
            text_pairs(*split_to_pkgbase).len() as int,
        ) {
            Some(name) => r matches Err(PlanError::MissingDepth(n)) && n@ == name,
            None => r matches Ok(tiers) && is_plan(
                spec_candidates(depth_pairs(*split_to_depth), text_pairs(*split_to_pkgbase)),
                tiers.deep_view(),
            ),
        },
{
    match candidates(split_to_depth, split_to_pkgbase) {
        Err(e) => Err(e),
        Ok(entries) => Ok(plan_tiers(entries)),
    }
}

/// Among the first `n` candidates, one of a given package-base wins.
pub proof fn lemma_best_in_prefix(candidates: Seq<EntryView>, pkgbase: Seq<char>, n: int) -> (w:
    int)
    requires
        0 <= n <= candidates.len(),
        exists|j: int| 0 <= j < n && (#[trigger] candidates[j]).pkgbase == pkgbase,
    ensures
        0 <= w < n,
        candidates[w].pkgbase == pkgbase,
        forall|j: int|
            0 <= j < n && (#[trigger] candidates[j]).pkgbase == pkgbase ==> candidates[j].depth
                < candidates[w].depth || (candidates[j].depth == candidates[w].depth && w <= j),
    decreases n,
{
    if exists|j: int| 0 <= j < n - 1 && (#[trigger] candidates[j]).pkgbase == pkgbase {
        let w0 = lemma_best_in_prefix(candidates, pkgbase, n - 1);
        if candidates[n - 1].pkgbase == pkgbase && candidates[n - 1].depth > candidates[w0].depth {
            n - 1
        } else {
            w0
        }
    } else {
        n - 1
    }
}

/// Every package-base stands in the plan exactly once, at the greatest depth
/// among its targets: for each candidate there is one place in the plan with
/// its package-base, no other place has it, and the depth there is the depth of
/// one of that package-base's candidates and not below the depth of any.
pub proof fn law_each_base_once_at_its_greatest_depth(
    candidates: Seq<EntryView>,
    tiers: Seq<TierView>,
    i: int,
) -> (k: int)
    requires
        is_plan(candidates, tiers),
        0 <= i < candidates.len(),
    ensures
        0 <= k < flat(tiers).len(),
        flat(tiers)[k].pkgbase == candidates[i].pkgbase,
        forall|k2: int|
            0 <= k2 < flat(tiers).len() && (#[trigger] flat(tiers)[k2]).pkgbase
                == candidates[i].pkgbase ==> k2 == k,
        forall|j: int|
            0 <= j < candidates.len() && (#[trigger] candidates[j]).pkgbase
                == candidates[i].pkgbase ==> candidates[j].depth <= flat(tiers)[k].depth,
        exists|j: int|
            0 <= j < candidates.len() && (#[trigger] candidates[j]).pkgbase
                == candidates[i].pkgbase && candidates[j].depth == flat(tiers)[k].depth,
{
    let chosen = flat(tiers);
    assert(candidates[i].pkgbase == candidates[i].pkgbase);
    let w = lemma_best_in_prefix(candidates, candidates[i].pkgbase, candidates.len() as int);
    assert(is_winner(candidates, w));
    assert(chosen.contains(candidates[w]));
    let k = choose|k: int| 0 <= k < chosen.len() && chosen[k] == candidates[w];
    assert forall|k2: int|
        0 <= k2 < chosen.len() && (#[trigger] chosen[k2]).pkgbase
            == candidates[i].pkgbase implies k2 == k by {
        if k2 < k {
            assert(chosen[k2].pkgbase != chosen[k].pkgbase);
        } else if k < k2 {
            assert(chosen[k].pkgbase != chosen[k2].pkgbase);
        }
    }
    assert(candidates[w].pkgbase == candidates[i].pkgbase && candidates[w].depth
        == chosen[k].depth);
    k
}

/// A package of the tier at `t` has the tier's depth, so the depths of the
/// packages descend strictly from tier to tier.
pub proof fn law_tier_depths_descend(candidates: Seq<EntryView>, tiers: Seq<TierView>, t: int)
    requires
        is_plan(candidates, tiers),
        0 <= t < tiers.len() - 1,
    ensures
        tiers[t].depth > tiers[t + 1].depth,
{
}

/// Every package of the tiers taken together stands in some tier.
pub proof fn lemma_flat_origin(tiers: Seq<TierView>, k: int) -> (at: (int, int))
    requires
        0 <= k < flat(tiers).len(),
    ensures
        0 <= at.0 < tiers.len(),
        0 <= at.1 < tiers[at.0].packages.len(),
        k == tier_start(tiers, at.0) + at.1,
        flat(tiers)[k] == tiers[at.0].packages[at.1],
    decreases tiers.len(),
{
    let n = tiers.len() as int;
    let head = tiers.drop_last();
    assert(head =~= tiers.take(n - 1));
    lemma_flat_len(head);
    lemma_tier_start_prefix(tiers, n - 1, n - 1);
    if k < flat(head).len() {
        let at = lemma_flat_origin(head, k);
        lemma_tier_start_prefix(tiers, n - 1, at.0);
        at
    } else {
        (n - 1, k - flat(head).len())
    }
}

/// The packages of a plan never get deeper from one to the next.
pub proof fn lemma_plan_never_deepens(candidates: Seq<EntryView>, tiers: Seq<TierView>, a: int, b: int)
    requires
        is_plan(candidates, tiers),
        0 <= a < b < flat(tiers).len(),
    ensures
        flat(tiers)[a].depth >= flat(tiers)[b].depth,
{
    let at_a = lemma_flat_origin(tiers, a);
    let at_b = lemma_flat_origin(tiers, b);
    assert(tiers[at_a.0].packages[at_a.1].depth == tiers[at_a.0].depth);
    assert(tiers[at_b.0].packages[at_b.1].depth == tiers[at_b.0].depth);
    if at_a.0 > at_b.0 {
        lemma_tier_start_ascends(tiers, at_b.0 + 1, at_a.0);
    } else if at_a.0 < at_b.0 {
        assert(tiers[at_a.0].depth > tiers[at_b.0].depth);
    }
}

/// Two entries of a plan stand in one order only: the one that comes first
/// in one plan of the candidates comes first in every plan of them.
pub proof fn lemma_plans_agree_on_order(
    candidates: Seq<EntryView>,
    one: Seq<TierView>,
    other: Seq<TierView>,
    a: int,
    b: int,
    p: int,
    q: int,
)
    requires
        is_plan(candidates, one),
        is_plan(candidates, other),
        0 <= a < b < flat(one).len(),
        0 <= p < flat(other).len(),
        0 <= q < flat(other).len(),
        flat(other)[p] == flat(one)[a],
        flat(other)[q] == flat(one)[b],
    ensures
        p < q,
{
    let f = flat(one);
    let g = flat(other);
    assert(f[a].pkgbase != f[b].pkgbase);
    if q < p {
        lemma_plan_never_deepens(candidates, one, a, b);
        lemma_plan_never_deepens(candidates, other, q, p);
        assert(is_winning_entry(candidates, f[a]));
        assert(is_winning_entry(candidates, f[b]));
        let ia = choose|i: int| is_winner(candidates, i) && candidates[i] == f[a];
        let ib = choose|i: int| is_winner(candidates, i) && candidates[i] == f[b];
        assert(candidates[ia] == f[a] && candidates[ib] == f[b] && f[a].depth == f[b].depth);
        assert(ia < ib);
        assert(candidates[ib] == g[q] && candidates[ia] == g[p] && g[q].depth == g[p].depth);
        assert(ib < ia);
    }
}

/// Where an entry of one plan stands in another plan of the same candidates.
pub open spec fn place_in(other: Seq<EntryView>, e: EntryView) -> int {
    choose|p: int| 0 <= p < other.len() && other[p] == e
}

/// Every entry of one plan stands in every other plan of the candidates.
pub proof fn lemma_plans_share_entries(
    candidates: Seq<EntryView>,
    one: Seq<TierView>,
    other: Seq<TierView>,
    k: int,
)
    requires
        is_plan(candidates, one),
        is_plan(candidates, other),
        0 <= k < flat(one).len(),
    ensures
        0 <= place_in(flat(other), flat(one)[k]) < flat(other).len(),
        flat(other)[place_in(flat(other), flat(one)[k])] == flat(one)[k],
{
    let f = flat(one);
    let g = flat(other);
    assert(is_winning_entry(candidates, f[k]));
    let i = choose|i: int| is_winner(candidates, i) && candidates[i] == f[k];
    assert(g.contains(candidates[i]));
    let p = choose|p: int| 0 <= p < g.len() && g[p] == candidates[i];
    assert(g[p] == f[k]);
}

/// The entry at `k` of one plan stands at `k` or later in another.
pub proof fn lemma_place_not_before(
    candidates: Seq<EntryView>,
    one: Seq<TierView>,
    other: Seq<TierView>,
    k: int,
)
    requires
        is_plan(candidates, one),
        is_plan(candidates, other),
        0 <= k < flat(one).len(),
    ensures
        k <= place_in(flat(other), flat(one)[k]) < flat(other).len(),
    decreases k,
{
    lemma_plans_share_entries(candidates, one, other, k);
    if k > 0 {
        lemma_place_not_before(candidates, one, other, k - 1);
        lemma_plans_share_entries(candidates, one, other, k - 1);
        lemma_plans_agree_on_order(
            candidates,
            one,
            other,
            k - 1,
            k,
            place_in(flat(other), flat(one)[k - 1]),
            place_in(flat(other), flat(one)[k]),
        );
    }
}

/// Two plans of the same candidates hold the same packages in the same order.
pub proof fn lemma_plans_hold_the_same(
    candidates: Seq<EntryView>,
    one: Seq<TierView>,
    other: Seq<TierView>,
)
    requires
        is_plan(candidates, one),
        is_plan(candidates, other),
    ensures
        flat(one) == flat(other),
{
    let f = flat(one);
    let g = flat(other);
    if f.len() > 0 {
        lemma_place_not_before(candidates, one, other, f.len() - 1);
    }
    if g.len() > 0 {
        lemma_place_not_before(candidates, other, one, g.len() - 1);
    }
    assert(f.len() == g.len());
    assert forall|k: int| 0 <= k < f.len() implies f[k] == g[k] by {
        lemma_place_not_before(candidates, one, other, k);
        lemma_plans_share_entries(candidates, one, other, k);
        let p = place_in(g, f[k]);
        if p > k {
            lemma_place_not_before(candidates, other, one, k);
            lemma_plans_share_entries(candidates, other, one, k);
            let back = place_in(f, g[k]);
            if back > k {
                lemma_plans_agree_on_order(candidates, one, other, k, back, p, k);
            } else {
                assert(f[k] == g[k]);
            }
        }
    }
    assert(f =~= g);
}

/// Tiers of strictly descending depths are determined by their packages
/// taken together: they are the runs of equal depth.
pub proof fn lemma_tiers_from_packages(one: Seq<TierView>, other: Seq<TierView>)
    requires
        tiers_well_formed(one),
        tiers_well_formed(other),
        forall|t1: int, t2: int|
            0 <= t1 < t2 < one.len() ==> (#[trigger] one[t1]).depth > (#[trigger] one[t2]).depth,
        forall|t1: int, t2: int|
            0 <= t1 < t2 < other.len() ==> (#[trigger] other[t1]).depth > (
            #[trigger] other[t2]).depth,
        flat(one) == flat(other),
    ensures
        one == other,
    decreases one.len(),
{
    if one.len() == 0 {
        if other.len() > 0 {
            assert(other[other.len() - 1].packages.len() > 0);
            assert(flat(other) == flat(other.drop_last()) + other.last().packages);
            assert(flat(other).len() > 0);
            assert(flat(one).len() == 0);
        }
        assert(other.len() == 0);
        assert(one =~= other);
    } else {
        let m = one.len() as int;
        assert(one[m - 1].packages.len() > 0);
        assert(flat(one) == flat(one.drop_last()) + one.last().packages);
        assert(flat(one).len() > 0);
        if other.len() == 0 {
            assert(flat(other).len() == 0);
        }
        assert(other.len() > 0);
        let n = other.len() as int;
        assert(other[n - 1].packages.len() > 0);
        let f = flat(one);
        let a = one.last().packages;
        let b = other.last().packages;
        let head_one = one.drop_last();
        let head_other = other.drop_last();
        assert(f == flat(head_one) + a);
        assert(f == flat(head_other) + b);
        assert(a[a.len() - 1] == f[f.len() - 1]);
        assert(b[b.len() - 1] == f[f.len() - 1]);
        assert(one[m - 1].packages[a.len() - 1].depth == one[m - 1].depth);
        assert(other[n - 1].packages[b.len() - 1].depth == other[n - 1].depth);
        assert(one.last().depth == other.last().depth);
        if a.len() < b.len() {
            let k = f.len() - a.len() - 1;
            assert(f[k] == flat(head_one)[k]);
            let at = lemma_flat_origin(head_one, k);
            assert(one[at.0].packages[at.1].depth == one[at.0].depth);
            assert(one[at.0].depth > one[m - 1].depth);
            assert(f[k] == b[k - flat(head_other).len()]);
            assert(other[n - 1].packages[k - flat(head_other).len()].depth == other[n - 1].depth);
        } else if b.len() < a.len() {
            let k = f.len() - b.len() - 1;
            assert(f[k] == flat(head_other)[k]);
            let at = lemma_flat_origin(head_other, k);
            assert(other[at.0].packages[at.1].depth == other[at.0].depth);
            assert(other[at.0].depth > other[n - 1].depth);
            assert(f[k] == a[k - flat(head_one).len()]);
            assert(one[m - 1].packages[k - flat(head_one).len()].depth == one[m - 1].depth);
        }
        assert(a.len() == b.len());
        assert(a =~= b) by {
            assert forall|i: int| 0 <= i < a.len() implies a[i] == b[i] by {
                assert(a[i] == f[flat(head_one).len() + i]);
                assert(b[i] == f[flat(head_other).len() + i]);
            }
        }
        assert(flat(head_one) =~= flat(head_other)) by {
            assert forall|i: int| 0 <= i < flat(head_one).len() implies flat(head_one)[i] == flat(
                head_other,
            )[i] by {
                assert(flat(head_one)[i] == f[i]);
                assert(flat(head_other)[i] == f[i]);
            }
        }
        assert(tiers_well_formed(head_one)) by {
            assert forall|t: int| 0 <= t < head_one.len() implies (
            #[trigger] head_one[t]).packages.len() > 0 by {
                assert(head_one[t] == one[t]);
            }
            assert forall|t: int, i: int|
                0 <= t < head_one.len() && 0 <= i < head_one[t].packages.len() implies (
            #[trigger] head_one[t].packages[i]).depth == head_one[t].depth by {
                assert(one[t].packages[i].depth == one[t].depth);
            }
        }
        assert(tiers_well_formed(head_other)) by {
            assert forall|t: int| 0 <= t < head_other.len() implies (
            #[trigger] head_other[t]).packages.len() > 0 by {
                assert(head_other[t] == other[t]);
            }
            assert forall|t: int, i: int|
                0 <= t < head_other.len() && 0 <= i < head_other[t].packages.len() implies (
            #[trigger] head_other[t].packages[i]).depth == head_other[t].depth by {
                assert(other[t].packages[i].depth == other[t].depth);
            }
        }
        assert forall|t1: int, t2: int| 0 <= t1 < t2 < head_one.len() implies (
        #[trigger] head_one[t1]).depth > (#[trigger] head_one[t2]).depth by {
            assert(one[t1].depth > one[t2].depth);
        }
        assert forall|t1: int, t2: int| 0 <= t1 < t2 < head_other.len() implies (
        #[trigger] head_other[t1]).depth > (#[trigger] head_other[t2]).depth by {
            assert(other[t1].depth > other[t2].depth);
        }
        lemma_tiers_from_packages(head_one, head_other);
        assert(one.last() == other.last());
        assert(one =~= head_one.push(one.last()));
        assert(other =~= head_other.push(other.last()));
    }
}

/// The candidates have one plan: whatever meets the description of the plan
/// is the same tiers, with the same packages in the same order.
pub proof fn law_plan_is_determined(
    candidates: Seq<EntryView>,
    one: Seq<TierView>,
    other: Seq<TierView>,
)
    requires
        is_plan(candidates, one),
        is_plan(candidates, other),
    ensures
        one == other,
{
    lemma_plans_hold_the_same(candidates, one, other);
    lemma_tiers_from_packages(one, other);
}

} // verus!
