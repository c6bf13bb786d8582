//! The dependency resolver, as a state machine. The caller asks the registry
//! for the names that are queued and the system package manager for the kind
//! of each dependency; what is done with the answers is decided here: which
//! names are queued next, which depth a target has, and which dependencies are
//! left to the system package manager.

use crate::names::contains_name;
use crate::names::copy_names;
use crate::names::distinct;
use crate::names::distinct_names;
use crate::names::lemma_distinct_has_no_repetition;
use crate::ordered::lemma_lookup;
use crate::ordered::lookup;
use crate::record::PackageRecord;
use crate::record::RecordView;
use crate::text::same_text;
use vstd::prelude::*;

verus! {

/// How a dependency can be had.
#[derive(Clone, Copy, Debug, PartialEq, Eq, Structural)]
pub enum DepKind {
    /// It is installed already: nothing is to do.
    Installed,
    /// The system package manager can install it.
    Installable,
    /// It has to be built from source.
    Source,
}

/// Why an answer of the registry was not taken in.
#[derive(Clone, Copy, Debug, PartialEq, Eq, Structural)]
pub enum ResolveError {
    /// The record is of a target that was never asked for.
    UnaskedRecord,
    /// The kinds given are not one for each dependency of the record.
    KindsMismatch,
}

/// What the resolver has found so far.
#[derive(Debug)]
pub struct Resolver {
    /// The targets that the registry has not been asked for yet.
    pub queue: Vec<String>,
    /// Every target to build from source that was met, with its depth, in the
    /// order in which the targets were met.
    pub depths: Vec<(String, i32)>,
    /// The records that the registry gave, in the order in which they came.
    pub records: Vec<PackageRecord>,
    /// The dependencies that the system package manager installs.
    pub system: Vec<String>,
}

/// The mathematical content of a [`Resolver`].
pub struct ResolverView {
    pub queue: Seq<Seq<char>>,
    pub depths: Seq<(Seq<char>, i32)>,
    pub records: Seq<RecordView>,
    pub system: Seq<Seq<char>>,
}

impl DeepView for Resolver {
    type V = ResolverView;

    open spec fn deep_view(&self) -> ResolverView {
        ResolverView {
            queue: self.queue.deep_view(),
            depths: self.depths.deep_view(),
            records: self.records.deep_view(),
            system: self.system.deep_view(),
        }
    }
}

/// The depth of a target that a target of depth `parent` depends on: one more,
/// as far as the machine can count.
pub open spec fn spec_next_depth(parent: i32) -> i32 {
    if parent < i32::MAX {
        (parent + 1) as i32
    } else {
        i32::MAX
    }
}

/// The depths with the depth of `name` raised to `depth` where it was less.
pub open spec fn spec_raise(depths: Seq<(Seq<char>, i32)>, name: Seq<char>, depth: i32) -> Seq<
    (Seq<char>, i32),
> {
    Seq::new(
        depths.len(),
        |i: int|
            if depths[i].0 == name && depths[i].1 < depth {
                (name, depth)
            } else {
                depths[i]
            },
    )
}

/// Each name once, at depth 0.
pub open spec fn spec_roots(names: Seq<Seq<char>>) -> Seq<(Seq<char>, i32)> {
    Seq::new(distinct(names).len(), |i: int| (distinct(names)[i], 0i32))
}

/// What a record declares to depend on: for the build, for the target, for
/// the tests.
pub open spec fn spec_declared(record: RecordView) -> Seq<Seq<char>> {
    record.make_depends + record.depends + record.check_depends
}

/// A declared dependency without its version constraint.
pub open spec fn spec_bare_name(dependency: Seq<char>) -> Seq<char> {
    dependency.take(spec_bare_len(dependency))
}

/// The dependencies of a record in the order in which they are visited: the
/// bare names of what it declares.
pub open spec fn spec_dependencies(record: RecordView) -> Seq<Seq<char>> {
    Seq::new(spec_declared(record).len(), |i: int| spec_bare_name(spec_declared(record)[i]))
}

/// The state after one dependency of `parent` was visited. An installed
/// dependency changes nothing. One that the system package manager installs
/// joins its list, once. One to build from source gets the depth after the
/// parent's, or keeps a greater one that it has; met for the first time, it is
/// queued.
pub open spec fn spec_visit(
    state: ResolverView,
    parent: Seq<char>,
    dependency: Seq<char>,
    kind: DepKind,
) -> ResolverView {
    match kind {
        DepKind::Installed => state,
        DepKind::Installable => if state.system.contains(dependency) {
            state
        } else {
            ResolverView { system: state.system.push(dependency), ..state }
        },
        DepKind::Source => match lookup(state.depths, parent) {
            None => state,
            Some(parent_depth) => if lookup(state.depths, dependency) is Some {
                ResolverView {
                    depths: spec_raise(state.depths, dependency, spec_next_depth(parent_depth)),
                    ..state
                }
            } else {
                ResolverView {
                    depths: state.depths.push((dependency, spec_next_depth(parent_depth))),
                    queue: state.queue.push(dependency),
                    ..state
                }
            },
        },
    }
}

/// The state after the first `n` dependencies of `parent` were visited.
pub open spec fn spec_visit_all(
    state: ResolverView,
    parent: Seq<char>,
    dependencies: Seq<Seq<char>>,
    kinds: Seq<DepKind>,
    n: int,
) -> ResolverView
    decreases n,
{
    if n <= 0 {
        state
    } else {
        spec_visit(
            spec_visit_all(state, parent, dependencies, kinds, n - 1),
            parent,
            dependencies[n - 1],
            kinds[n - 1],
        )
    }
}

/// The state after a record was taken in: all its dependencies visited, and
/// the record kept.
pub open spec fn spec_absorb(state: ResolverView, record: RecordView, kinds: Seq<DepKind>) -> ResolverView {
    let visited = spec_visit_all(
        state,
        record.name,
        spec_dependencies(record),
        kinds,
        spec_dependencies(record).len() as int,
    );
    ResolverView { records: visited.records.push(record), ..visited }
}

/// The depth of a target that depends on one of depth `parent`.
pub fn next_depth(parent: i32) -> (r: i32)
    ensures
        r == spec_next_depth(parent),
        parent < i32::MAX ==> r == parent + 1,
{
    if parent < i32::MAX {
        parent + 1
    } else {
        i32::MAX
    }
}

/// The depth stored for a name, if there is one.
pub fn depth_in(depths: &Vec<(String, i32)>, name: &str) -> (r: Option<i32>)
    ensures
        r == lookup(depths.deep_view(), name@),
{
    let ghost pairs = depths.deep_view();
    let mut i: usize = 0;
    assert(pairs.skip(0) =~= pairs);
    while i < depths.len()
        invariant
            i <= depths.len(),
            pairs == depths.deep_view(),
            lookup(pairs, name@) == lookup(pairs.skip(i as int), name@),
        decreases depths.len() - i,
    {
        proof {
            assert(pairs.skip(i as int).first() == (depths[i as int].0@, depths[i as int].1));
            assert(pairs.skip(i as int).drop_first() =~= pairs.skip(i + 1));
        }
        if same_text(depths[i].0.as_str(), name) {
            return Some(depths[i].1);
        }
        i += 1;
    }
    None
}

/// Raises the depth of `name` to `depth` wherever it is less.
pub fn raise(depths: &mut Vec<(String, i32)>, name: &str, depth: i32)
    ensures
        final(depths).deep_view() == spec_raise(old(depths).deep_view(), name@, depth),
{
    let ghost before = depths.deep_view();
    let mut i: usize = 0;
    while i < depths.len()
        invariant
            i <= depths.len(),
            depths.len() == before.len(),
            forall|k: int| 0 <= k < i ==> depths.deep_view()[k] == spec_raise(before, name@, depth)[k],
            forall|k: int| i <= k < depths.len() ==> depths.deep_view()[k] == before[k],
        decreases depths.len() - i,
    {
        let ghost now = depths.deep_view();
        assert(now[i as int] == (depths[i as int].0@, depths[i as int].1));
        assert(now[i as int] == before[i as int]);
        if same_text(depths[i].0.as_str(), name) && depths[i].1 < depth {
            let key = depths[i].0.clone();
            let ghost raw = depths@;
            depths.set(i, (key, depth));
            assert(depths.deep_view()[i as int] == (name@, depth));
            assert forall|k: int| 0 <= k < depths.len() && k != i implies #[trigger] depths.deep_view()[k]
                == now[k] by {
                assert(depths@[k] == raw[k]);
            }
        }
        assert(depths.deep_view()[i as int] == spec_raise(before, name@, depth)[i as int]);
        i += 1;
    }
    assert(depths.deep_view() =~= spec_raise(before, name@, depth));
}

/// The dependencies of a record, in the order in which they are visited.
pub fn dependencies(record: &PackageRecord) -> (r: Vec<String>)
    ensures
        r.deep_view() == spec_dependencies(record.deep_view()),
{
    let mut declared = copy_names(&record.make_depends);
    let mut rest = copy_names(&record.depends);
    let mut last = copy_names(&record.check_depends);
    let ghost a = declared.deep_view();
    let ghost b = rest.deep_view();
    let ghost c = last.deep_view();
    declared.append(&mut rest);
    assert(declared.deep_view() =~= a + b);
    declared.append(&mut last);
    assert(declared.deep_view() =~= spec_declared(record.deep_view()));
    let mut out: Vec<String> = Vec::new();
    let mut i: usize = 0;
    while i < declared.len()
        invariant
            i <= declared.len(),
            declared.deep_view() == spec_declared(record.deep_view()),
            out.deep_view() =~= spec_dependencies(record.deep_view()).take(i as int),
        decreases declared.len() - i,
    {
        let ghost before = out.deep_view();
        assert(declared.deep_view()[i as int] == declared[i as int]@);
        out.push(bare_name(declared[i].as_str()));
        assert(out.deep_view() =~= before.push(spec_bare_name(declared[i as int]@)));
        i += 1;
    }
    assert(spec_dependencies(record.deep_view()).take(i as int) =~= spec_dependencies(
        record.deep_view(),
    ));
    out
}

/// Whether the character opens a version constraint.
pub open spec fn is_constraint_mark(c: char) -> bool {
    c == '<' || c == '>' || c == '='
}

/// How many characters stand before the first version constraint.
pub open spec fn spec_bare_len(dependency: Seq<char>) -> int
    decreases dependency.len(),
{
    if dependency.len() == 0 || is_constraint_mark(dependency.first()) {
        0
    } else {
        1 + spec_bare_len(dependency.drop_first())
    }
}

/// The bare length is the first place of a constraint mark, or the whole
/// length where there is none.
pub proof fn lemma_bare_len(dependency: Seq<char>, n: int)
    requires
        0 <= n <= dependency.len(),
        forall|i: int| 0 <= i < n ==> !is_constraint_mark(#[trigger] dependency[i]),
        n == dependency.len() || is_constraint_mark(dependency[n]),
    ensures
        spec_bare_len(dependency) == n,
    decreases n,
{
    if n > 0 {
        assert(!is_constraint_mark(dependency[0]));
        assert forall|i: int| 0 <= i < n - 1 implies !is_constraint_mark(
            #[trigger] dependency.drop_first()[i],
        ) by {
            assert(dependency.drop_first()[i] == dependency[i + 1]);
        }
        lemma_bare_len(dependency.drop_first(), n - 1);
    }
}

/// Whether the character opens a version constraint.
pub fn opens_constraint(c: char) -> (r: bool)
    ensures
        r == is_constraint_mark(c),
{
    c == '<' || c == '>' || c == '='
}

/// The name of a declared dependency without its version constraint: what
/// stands before the first `<`, `>` or `=`.
pub fn bare_name(dependency: &str) -> (r: String)
    ensures
        r@ == spec_bare_name(dependency@),
{
    let len = dependency.unicode_len();
    let mut n: usize = 0;
    while n < len && !opens_constraint(dependency.get_char(n))
        invariant
            n <= len,
            len == dependency@.len(),
            forall|i: int| 0 <= i < n ==> !is_constraint_mark(#[trigger] dependency@[i]),
        decreases len - n,
    {
        n += 1;
    }
    proof {
        lemma_bare_len(dependency@, n as int);
    }
    dependency.substring_char(0, n).to_owned()
}

/// The record of one target, from the registry's answer to a query for that
/// target alone: the first record of the answer, if it has any.
pub fn raur_info(found: Vec<PackageRecord>) -> (r: Option<PackageRecord>)
    ensures
        match r {
            None => found.len() == 0,
            Some(record) => found.len() > 0 && record == found[0],
        },
{
    let mut found = found;
    if found.len() == 0 {
        None
    } else {
        Some(found.remove(0))
    }
}

impl Resolver {
    /// The resolver for the requested targets: each is queued, at depth 0.
    pub fn new(targets: &Vec<String>) -> (r: Resolver)
        ensures
            r.deep_view().queue == distinct(targets.deep_view()),
            r.deep_view().depths == spec_roots(targets.deep_view()),
            r.deep_view().records.len() == 0,
            r.deep_view().system.len() == 0,
    {
        let queue = distinct_names(targets);
        let mut depths: Vec<(String, i32)> = Vec::new();
        let mut i: usize = 0;
        while i < queue.len()
            invariant
                i <= queue.len(),
                queue.deep_view() == distinct(targets.deep_view()),
                depths.deep_view() =~= spec_roots(targets.deep_view()).take(i as int),
            decreases queue.len() - i,
        {
            let ghost before = depths.deep_view();
            assert(queue.deep_view()[i as int] == queue[i as int]@);
            depths.push((queue[i].clone(), 0));
            assert(depths.deep_view() =~= before.push((queue[i as int]@, 0i32)));
            i += 1;
        }
        assert(spec_roots(targets.deep_view()).take(i as int) =~= spec_roots(targets.deep_view()));
        Resolver { queue, depths, records: Vec::new(), system: Vec::new() }
    }

    /// Whether every queued target has been asked for.
    pub fn is_done(&self) -> (r: bool)
        ensures
            r == (self.deep_view().queue.len() == 0),
    {
        self.queue.len() == 0
    }

    /// Takes the names to ask the registry for next: the last `limit` of the
    /// queue, or all of it where it is shorter.
    pub fn next_batch(&mut self, limit: usize) -> (r: Vec<String>)
        ensures
            ({
                let queue = old(self).deep_view().queue;
                let cut = if queue.len() <= limit {
                    0
                } else {
                    queue.len() - limit
                };
                &&& final(self).deep_view().queue == queue.take(cut)
                &&& r.deep_view() == queue.skip(cut)
                &&& final(self).deep_view().depths == old(self).deep_view().depths
                &&& final(self).deep_view().records == old(self).deep_view().records
                &&& final(self).deep_view().system == old(self).deep_view().system
            }),
    {
        let ghost queue = self.queue.deep_view();
        let cut: usize = if self.queue.len() <= limit {
            0
        } else {
            self.queue.len() - limit
        };
        let batch = self.queue.split_off(cut);
        assert(self.queue.deep_view() =~= queue.take(cut as int));
        assert(batch.deep_view() =~= queue.skip(cut as int));
        batch
    }

    /// Visits one dependency of `parent`.
    pub fn visit(&mut self, parent: &str, dependency: &str, kind: DepKind)
        ensures
            final(self).deep_view() == spec_visit(old(self).deep_view(), parent@, dependency@, kind),
    {
        match kind {
            DepKind::Installed => {},
            DepKind::Installable => {
                if !contains_name(&self.system, dependency) {
                    let ghost before = self.system.deep_view();
                    self.system.push(dependency.to_owned());
                    assert(self.system.deep_view() =~= before.push(dependency@));
                }
            },
            DepKind::Source => {
                match depth_in(&self.depths, parent) {
                    None => {},
                    Some(parent_depth) => {
                        let depth = next_depth(parent_depth);
                        if depth_in(&self.depths, dependency).is_some() {
                            raise(&mut self.depths, dependency, depth);
                        } else {
                            let ghost before = self.depths.deep_view();
                            let ghost queued = self.queue.deep_view();
                            self.depths.push((dependency.to_owned(), depth));
                            assert(self.depths.deep_view() =~= before.push((dependency@, depth)));
                            self.queue.push(dependency.to_owned());
                            assert(self.queue.deep_view() =~= queued.push(dependency@));
                        }
                    },
                }
            },
        }
    }

    /// Takes in a record that the registry gave, with the kind of each of its
    /// dependencies in the order of [`dependencies`]. A record of a target
    /// without a depth, or kinds that do not match the dependencies, are
    /// refused and change nothing.
    pub fn absorb(&mut self, record: PackageRecord, kinds: &Vec<DepKind>) -> (r: Result<
        (),
        ResolveError,
    >)
        ensures
            ({
                let before = old(self).deep_view();
                let rec = record.deep_view();
                if lookup(before.depths, rec.name) is None {
                    r == Err::<(), ResolveError>(ResolveError::UnaskedRecord)
                        && final(self).deep_view() == before
                } else if kinds.len() != spec_dependencies(rec).len() {
                    r == Err::<(), ResolveError>(ResolveError::KindsMismatch)
                        && final(self).deep_view() == before
                } else {
                    r == Ok::<(), ResolveError>(()) && final(self).deep_view() == spec_absorb(
                        before,
                        rec,
                        kinds@,
                    )
                }
            }),
    {
        let ghost before = self.deep_view();
        let ghost rec = record.deep_view();
        if depth_in(&self.depths, record.name.as_str()).is_none() {
            return Err(ResolveError::UnaskedRecord);
        }
        let deps = dependencies(&record);
        if kinds.len() != deps.len() {
            return Err(ResolveError::KindsMismatch);
        }
        let mut i: usize = 0;
        while i < deps.len()
            invariant
                i <= deps.len(),
                kinds.len() == deps.len(),
                rec == record.deep_view(),
                deps.deep_view() == spec_dependencies(rec),
                self.deep_view() == spec_visit_all(
                    before,
                    rec.name,
                    spec_dependencies(rec),
                    kinds@,
                    i as int,
                ),
            decreases deps.len() - i,
        {
            assert(deps.deep_view()[i as int] == deps[i as int]@);
            self.visit(record.name.as_str(), deps[i].as_str(), kinds[i]);
            i += 1;
        }
        let ghost visited = self.records.deep_view();
        self.records.push(record);
        assert(self.records.deep_view() =~= visited.push(rec));
        Ok(())
    }
}

/// The depth found after a raise: the greater of the old depth and the new
/// for the name raised, the old depth for every other name.
pub proof fn lemma_lookup_after_raise(
    depths: Seq<(Seq<char>, i32)>,
    name: Seq<char>,
    depth: i32,
    key: Seq<char>,
)
    ensures
        lookup(spec_raise(depths, name, depth), key) == match lookup(depths, key) {
            None => None,
            Some(old_depth) => if key == name && old_depth < depth {
                Some(depth)
            } else {
                Some(old_depth)
            },
        },
    decreases depths.len(),
{
    if depths.len() > 0 {
        assert(spec_raise(depths, name, depth).drop_first() =~= spec_raise(
            depths.drop_first(),
            name,
            depth,
        ));
        lemma_lookup_after_raise(depths.drop_first(), name, depth, key);
    }
}

/// The depth found after a pair was appended: what was found before, or the
/// new pair's depth for its name where nothing was found.
pub proof fn lemma_lookup_after_push(
    depths: Seq<(Seq<char>, i32)>,
    name: Seq<char>,
    depth: i32,
    key: Seq<char>,
)
    ensures
        lookup(depths.push((name, depth)), key) == match lookup(depths, key) {
            Some(old_depth) => Some(old_depth),
            None => if key == name {
                Some(depth)
            } else {
                None
            },
        },
    decreases depths.len(),
{
    if depths.len() > 0 {
        assert(depths.push((name, depth)).drop_first() =~= depths.drop_first().push((name, depth)));
        lemma_lookup_after_push(depths.drop_first(), name, depth, key);
    } else {
        assert(depths.push((name, depth)).drop_first() =~= depths);
    }
}

/// A visit never takes a depth away and never lowers one.
pub proof fn law_depths_never_sink(
    state: ResolverView,
    parent: Seq<char>,
    dependency: Seq<char>,
    kind: DepKind,
    name: Seq<char>,
)
    requires
        lookup(state.depths, name) is Some,
    ensures
        lookup(spec_visit(state, parent, dependency, kind).depths, name) is Some,
        lookup(spec_visit(state, parent, dependency, kind).depths, name)->0 >= lookup(
            state.depths,
            name,
        )->0,
{
    if kind == DepKind::Source && lookup(state.depths, parent) is Some {
        let depth = spec_next_depth(lookup(state.depths, parent)->0);
        lemma_lookup_after_raise(state.depths, dependency, depth, name);
        lemma_lookup_after_push(state.depths, dependency, depth, name);
    }
}

/// A dependency that is built from source lies deeper than the target that
/// needs it, and where it is reached on several ways the greatest depth
/// stands: after the visit its depth is the greater of the depth it had and
/// the depth after the parent's.
pub proof fn law_source_dependency_lies_deeper(
    state: ResolverView,
    parent: Seq<char>,
    dependency: Seq<char>,
)
    requires
        lookup(state.depths, parent) is Some,
    ensures
        ({
            let after = spec_visit(state, parent, dependency, DepKind::Source);
            let below = spec_next_depth(lookup(state.depths, parent)->0);
            &&& lookup(after.depths, dependency) == Some(
                match lookup(state.depths, dependency) {
                    Some(had) => if had < below {
                        below
                    } else {
                        had
                    },
                    None => below,
                },
            )
            &&& lookup(state.depths, parent)->0 < i32::MAX ==> lookup(after.depths, dependency)->0
                > lookup(state.depths, parent)->0
        }),
{
    let depth = spec_next_depth(lookup(state.depths, parent)->0);
    lemma_lookup_after_raise(state.depths, dependency, depth, dependency);
    lemma_lookup_after_push(state.depths, dependency, depth, dependency);
}

/// Every queued target has a depth, and no target has two.
pub open spec fn is_consistent(state: ResolverView) -> bool {
    &&& forall|q: int| 0 <= q < state.queue.len() ==> lookup(state.depths, #[trigger] state.queue[q]) is Some
    &&& forall|i: int, j: int|
        0 <= i < j < state.depths.len() ==> (#[trigger] state.depths[i]).0 != (
        #[trigger] state.depths[j]).0
    &&& state.system.no_duplicates()
}

/// The resolver starts out consistent: every requested target is queued once
/// and has depth 0.
pub proof fn law_roots_are_consistent(targets: Seq<Seq<char>>)
    ensures
        is_consistent(
            ResolverView {
                queue: distinct(targets),
                depths: spec_roots(targets),
                records: Seq::empty(),
                system: Seq::empty(),
            },
        ),
        forall|q: int|
            0 <= q < distinct(targets).len() ==> lookup(
                spec_roots(targets),
                #[trigger] distinct(targets)[q],
            ) == Some(0i32),
{
    let queue = distinct(targets);
    let depths = spec_roots(targets);
    lemma_distinct_has_no_repetition(targets);
    assert forall|q: int| 0 <= q < queue.len() implies lookup(depths, #[trigger] queue[q]) == Some(
        0i32,
    ) by {
        lemma_lookup(depths, queue[q]);
        assert(depths[q].0 == queue[q]);
        let v = lookup(depths, queue[q])->0;
        let i = choose|i: int| 0 <= i < depths.len() && depths[i] == (queue[q], v);
        assert(depths[i].1 == 0);
    }
    assert forall|i: int, j: int| 0 <= i < j < depths.len() implies (#[trigger] depths[i]).0 != (
    #[trigger] depths[j]).0 by {
        assert(queue[i] != queue[j]);
    }
}

/// A visit keeps the state consistent.
pub proof fn law_visit_keeps_consistency(
    state: ResolverView,
    parent: Seq<char>,
    dependency: Seq<char>,
    kind: DepKind,
)
    requires
        is_consistent(state),
    ensures
        is_consistent(spec_visit(state, parent, dependency, kind)),
{
    let after = spec_visit(state, parent, dependency, kind);
    if kind == DepKind::Source && lookup(state.depths, parent) is Some {
        let depth = spec_next_depth(lookup(state.depths, parent)->0);
        assert forall|q: int| 0 <= q < after.queue.len() implies lookup(
            after.depths,
            #[trigger] after.queue[q],
        ) is Some by {
            lemma_lookup_after_raise(state.depths, dependency, depth, after.queue[q]);
            lemma_lookup_after_push(state.depths, dependency, depth, after.queue[q]);
            if q < state.queue.len() {
                assert(state.queue[q] == after.queue[q]);
            }
        }
        if lookup(state.depths, dependency) is None {
            lemma_lookup(state.depths, dependency);
        }
    }
}

} // verus!
