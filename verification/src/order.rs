//! What it means that a sequence was sorted stably by an integer key.

use vstd::prelude::*;

verus! {

/// `origin` rearranges the places `0 .. keys.len()` into ascending key order,
/// places of equal key in ascending order; `place` is its inverse. So
/// `origin[i]` is where the item that ends at `i` came from.
pub open spec fn is_stable_order(keys: Seq<int>, origin: Seq<int>, place: Seq<int>) -> bool {
    &&& origin.len() == keys.len()
    &&& place.len() == keys.len()
    &&& forall|i: int|
        0 <= i < keys.len() ==> 0 <= #[trigger] origin[i] < keys.len() && place[origin[i]] == i
    &&& forall|k: int|
        0 <= k < keys.len() ==> 0 <= #[trigger] place[k] < keys.len() && origin[place[k]] == k
    &&& forall|i: int, j: int|
        0 <= i < j < keys.len() ==> keys[#[trigger] origin[i]] <= keys[#[trigger] origin[j]]
    &&& forall|i: int, j: int|
        0 <= i < j < keys.len() && keys[origin[i]] == keys[origin[j]] ==> #[trigger] origin[i]
            < #[trigger] origin[j]
}

/// `after` holds the items of `before` as `origin` arranges them.
pub open spec fn is_arranged<T>(before: Seq<T>, after: Seq<T>, origin: Seq<int>) -> bool {
    &&& after.len() == before.len()
    &&& origin.len() == before.len()
    &&& forall|i: int| 0 <= i < after.len() ==> after[i] == before[#[trigger] origin[i]]
}

/// `after` is `before` sorted stably by the keys, where `keys[i]` is the key
/// of `before[i]`: ascending, and items of equal key in the order they had.
pub open spec fn is_stable_sort<T>(before: Seq<T>, after: Seq<T>, keys: Seq<int>) -> bool {
    &&& keys.len() == before.len()
    &&& exists|origin: Seq<int>, place: Seq<int>|
        is_stable_order(keys, origin, place) && is_arranged(before, after, origin)
}

} // verus!
