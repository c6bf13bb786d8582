//! Lists of names: copies, membership, and the removal of repetitions.

use crate::text::same_text;
use vstd::prelude::*;

verus! {

/// The names without repetitions, each where it first occurs.
pub open spec fn distinct(names: Seq<Seq<char>>) -> Seq<Seq<char>>
    decreases names.len(),
{
    if names.len() == 0 {
        Seq::empty()
    } else {
        let earlier = distinct(names.drop_last());
        if names.drop_last().contains(names.last()) {
            earlier
        } else {
            earlier.push(names.last())
        }
    }
}

/// A copy of a list of names.
pub fn copy_names(names: &Vec<String>) -> (r: Vec<String>)
    ensures
        r.deep_view() == names.deep_view(),
{
    let mut out: Vec<String> = Vec::new();
    let mut i: usize = 0;
    while i < names.len()
        invariant
            i <= names.len(),
            out.deep_view() == names.deep_view().take(i as int),
        decreases names.len() - i,
    {
        let ghost before = out.deep_view();
        out.push(names[i].clone());
        assert(out.deep_view() =~= before.push(names[i as int]@));
        assert(names.deep_view().take(i + 1) =~= names.deep_view().take(i as int).push(
            names[i as int]@,
        ));
        i += 1;
    }
    assert(names.deep_view().take(i as int) =~= names.deep_view());
    out
}

/// Whether the list holds the name.
pub fn contains_name(names: &Vec<String>, name: &str) -> (r: bool)
    ensures
        r == names.deep_view().contains(name@),
{
    let mut i: usize = 0;
    while i < names.len()
        invariant
            i <= names.len(),
            forall|k: int| 0 <= k < i ==> names.deep_view()[k] != name@,
        decreases names.len() - i,
    {
        assert(names.deep_view()[i as int] == names[i as int]@);
        if same_text(names[i].as_str(), name) {
            return true;
        }
        i += 1;
    }
    false
}

/// A name is among the distinct names exactly when it is among the names.
pub proof fn lemma_distinct_has_the_same_names(names: Seq<Seq<char>>, name: Seq<char>)
    ensures
        distinct(names).contains(name) <==> names.contains(name),
    decreases names.len(),
{
    if names.len() > 0 {
        let head = names.drop_last();
        lemma_distinct_has_the_same_names(head, name);
        if distinct(names).contains(name) {
            let k = choose|k: int| 0 <= k < distinct(names).len() && distinct(names)[k] == name;
            if k < distinct(head).len() {
                assert(distinct(head)[k] == name);
                let i = choose|i: int| 0 <= i < head.len() && head[i] == name;
                assert(names[i] == name);
            } else {
                assert(names[names.len() - 1] == name);
            }
        }
        if names.contains(name) {
            let i = choose|i: int| 0 <= i < names.len() && names[i] == name;
            if i < head.len() {
                assert(head[i] == name);
                let k = choose|k: int| 0 <= k < distinct(head).len() && distinct(head)[k] == name;
                assert(distinct(names)[k] == name);
            } else if head.contains(name) {
                let k = choose|k: int| 0 <= k < distinct(head).len() && distinct(head)[k] == name;
                assert(distinct(names)[k] == name);
            } else {
                assert(distinct(names)[distinct(head).len() as int] == name);
            }
        }
    }
}

/// The names of a list without repetitions, each where it first occurs.
pub fn distinct_names(names: &Vec<String>) -> (r: Vec<String>)
    ensures
        r.deep_view() == distinct(names.deep_view()),
{
    let ghost all = names.deep_view();
    let mut out: Vec<String> = Vec::new();
    let mut i: usize = 0;
    assert(out.deep_view() =~= Seq::empty());
    while i < names.len()
        invariant
            i <= names.len(),
            all == names.deep_view(),
            out.deep_view() == distinct(all.take(i as int)),
        decreases names.len() - i,
    {
        proof {
            assert(all[i as int] == names[i as int]@);
            assert(all.take(i + 1).drop_last() =~= all.take(i as int));
            lemma_distinct_has_the_same_names(all.take(i as int), all[i as int]);
        }
        if !contains_name(&out, names[i].as_str()) {
            let ghost before = out.deep_view();
            out.push(names[i].clone());
            assert(out.deep_view() =~= before.push(names[i as int]@));
        }
        i += 1;
    }
    assert(all.take(i as int) =~= all);
    out
}

/// Among the distinct names none occurs twice.
pub proof fn lemma_distinct_has_no_repetition(names: Seq<Seq<char>>)
    ensures
        distinct(names).no_duplicates(),
    decreases names.len(),
{
    if names.len() > 0 {
        let head = names.drop_last();
        lemma_distinct_has_no_repetition(head);
        lemma_distinct_has_the_same_names(head, names.last());
        if !head.contains(names.last()) {
            assert forall|i: int, j: int|
                0 <= i < distinct(names).len() && 0 <= j < distinct(names).len() && i
                    != j implies distinct(names)[i] != distinct(names)[j] by {
                if i < distinct(head).len() && j < distinct(head).len() {
                    assert(distinct(head)[i] != distinct(head)[j]);
                } else if i < distinct(head).len() {
                    assert(distinct(head).contains(distinct(head)[i]));
                } else {
                    assert(distinct(head).contains(distinct(head)[j]));
                }
            }
        }
    }
}

} // verus!
