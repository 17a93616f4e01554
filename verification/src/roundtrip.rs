//! A snapshot of the store brings the same store back.

use vstd::prelude::*;
use crate::collections::Collections;
use crate::ids::Id;
use crate::model::StoreView;
use crate::pairs::{keys_distinct, lemma_pairs_any_order, lemma_pairs_reordered, reordered};
use crate::persistence::{restore, restored};
use crate::snapshot::{lemma_sound_is_wf, shows, store_of, SnapshotView};

verus! {

/// A snapshot that shows a store brings the same store back: the same
/// events, maps and routes in the same order, and the same score lists in
/// the same order, in whatever order the snapshot holds its pairs.
pub proof fn law_snapshot_round_trip(s: StoreView, snapshot: SnapshotView)
    requires
        s.wf(),
        shows(snapshot, s),
    ensures
        restored(snapshot) == Some(s),
{
    lemma_sound_is_wf(snapshot);
}

/// Whether two lists hold the same pairs, in whatever order.
pub open spec fn same_pairs<V>(first: Seq<(Id, V)>, second: Seq<(Id, V)>) -> bool {
    &&& forall|i: int| 0 <= i < first.len() ==> second.contains(#[trigger] first[i])
    &&& forall|i: int| 0 <= i < second.len() ==> first.contains(#[trigger] second[i])
}

/// The order of the pairs in a snapshot says nothing: two snapshots with the
/// same events that hold the same lists of maps, the same lists of routes and
/// the same score lists, each under one identifier once, bring the same store
/// back, or are both corrupt.
pub proof fn law_any_order_of_pairs(first: SnapshotView, second: SnapshotView)
    requires
        first.events == second.events,
        same_pairs(first.maps, second.maps),
        same_pairs(first.routes, second.routes),
        same_pairs(first.scores, second.scores),
        keys_distinct(first.maps) && keys_distinct(second.maps),
        keys_distinct(first.routes) && keys_distinct(second.routes),
        keys_distinct(first.scores) && keys_distinct(second.scores),
    ensures
        restored(first) == restored(second),
        store_of(first) == store_of(second),
{
    lemma_pairs_any_order(first.maps, second.maps);
    lemma_pairs_any_order(first.routes, second.routes);
    lemma_pairs_any_order(first.scores, second.scores);
    lemma_sound_is_wf(first);
    lemma_sound_is_wf(second);
}

/// The same for a snapshot whose lists are those of another in another
/// order, each lined up with the other by the places of its pairs: both bring
/// the same store back, or both are corrupt.
pub proof fn law_reordered_snapshot(
    first: SnapshotView,
    second: SnapshotView,
    maps_to: Seq<int>,
    maps_back: Seq<int>,
    routes_to: Seq<int>,
    routes_back: Seq<int>,
    scores_to: Seq<int>,
    scores_back: Seq<int>,
)
    requires
        first.events == second.events,
        reordered(first.maps, second.maps, maps_to, maps_back),
        reordered(first.routes, second.routes, routes_to, routes_back),
        reordered(first.scores, second.scores, scores_to, scores_back),
    ensures
        restored(first) == restored(second),
{
    if keys_distinct(first.maps) && keys_distinct(first.routes) && keys_distinct(first.scores) {
        lemma_pairs_reordered(first.maps, second.maps, maps_to, maps_back);
        lemma_pairs_reordered(first.routes, second.routes, routes_to, routes_back);
        lemma_pairs_reordered(first.scores, second.scores, scores_to, scores_back);
        lemma_sound_is_wf(first);
        lemma_sound_is_wf(second);
    } else {
        lemma_reordered_back(first.maps, second.maps, maps_to, maps_back);
        lemma_reordered_back(first.routes, second.routes, routes_to, routes_back);
        lemma_reordered_back(first.scores, second.scores, scores_to, scores_back);
        if keys_distinct(second.maps) {
            lemma_pairs_reordered(second.maps, first.maps, maps_back, maps_to);
        }
        if keys_distinct(second.routes) {
            lemma_pairs_reordered(second.routes, first.routes, routes_back, routes_to);
        }
        if keys_distinct(second.scores) {
            lemma_pairs_reordered(second.scores, first.scores, scores_back, scores_to);
        }
    }
}

/// A reordering read the other way round is a reordering.
proof fn lemma_reordered_back<V>(
    first: Seq<(Id, V)>,
    second: Seq<(Id, V)>,
    to: Seq<int>,
    back: Seq<int>,
)
    requires
        reordered(first, second, to, back),
    ensures
        reordered(second, first, back, to),
{
}

/// A copy of the store, made by taking a snapshot and bringing it back.
pub fn copy_of(state: &Collections) -> (copy: Collections)
    ensures
        copy@ == state@,
        copy.inv(),
{
    let snapshot = state.snapshot();
    match restore(snapshot) {
        Ok(copy) => copy,
        Err(_) => Collections::new(),
    }
}

} // verus!
