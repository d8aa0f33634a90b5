//! Walks up a chain of Parent references: each node either ends the walk
//! with an outcome or names the next node. A walk that comes back to a node
//! it has visited never ends.

use vstd::prelude::*;
use crate::document::{objects_map, IndirectObject};
use crate::object::ObjectId;

verus! {

/// What a node does in a walk.
pub enum Step<R> {
    /// The walk ends here with this outcome.
    Done(R),
    /// The walk goes on at this node.
    Next(ObjectId),
}

/// The walk from `id` with at most `fuel` steps; `None` when it has not
/// ended within them.
pub open spec fn walk<R>(step: spec_fn(ObjectId) -> Step<R>, id: ObjectId, fuel: nat) -> Option<R>
    decreases fuel,
{
    if fuel == 0 {
        None
    } else {
        match step(id) {
            Step::Done(r) => Some(r),
            Step::Next(p) => walk(step, p, (fuel - 1) as nat),
        }
    }
}

/// The walk from `id` ends after finitely many steps.
pub open spec fn walk_ends<R>(step: spec_fn(ObjectId) -> Step<R>, id: ObjectId) -> bool {
    exists|fuel: nat| #[trigger] walk(step, id, fuel) is Some
}

/// The outcome of the walk from `id`, `None` when it never ends.
pub open spec fn walk_result<R>(step: spec_fn(ObjectId) -> Step<R>, id: ObjectId) -> Option<R> {
    if walk_ends(step, id) {
        walk(step, id, choose|fuel: nat| #[trigger] walk(step, id, fuel) is Some)
    } else {
        None
    }
}

/// Node `m` of a walk recorded as `path` followed by `current`.
pub open spec fn path_node(path: Seq<ObjectId>, current: ObjectId, m: int) -> ObjectId {
    if m < path.len() {
        path[m]
    } else {
        current
    }
}

/// `path` followed by `current` are consecutive nodes of a walk.
pub open spec fn is_walk<R>(step: spec_fn(ObjectId) -> Step<R>, path: Seq<ObjectId>, current: ObjectId) -> bool {
    forall|k: int| 0 <= k < path.len() ==> #[trigger] step(path[k]) == Step::<R>::Next(path_node(path, current, k + 1))
}

/// The walk gives one outcome, whatever fuel lets it end.
pub proof fn lemma_walk_unique<R>(step: spec_fn(ObjectId) -> Step<R>, id: ObjectId, f1: nat, f2: nat)
    requires
        walk(step, id, f1) is Some,
        walk(step, id, f2) is Some,
    ensures
        walk(step, id, f1) == walk(step, id, f2),
    decreases f1,
{
    if let Step::Next(p) = step(id) {
        lemma_walk_unique(step, p, (f1 - 1) as nat, (f2 - 1) as nat);
    }
}

/// Walking `m` steps along a recorded walk.
proof fn lemma_walk_along<R>(step: spec_fn(ObjectId) -> Step<R>, path: Seq<ObjectId>, current: ObjectId, m: int, f: nat)
    requires
        is_walk(step, path, current),
        0 <= m <= path.len(),
    ensures
        walk(step, path_node(path, current, 0), f + m as nat) == walk(step, path_node(path, current, m), f),
    decreases m,
{
    if m > 0 {
        lemma_walk_along(step, path, current, m - 1, f + 1);
        assert(step(path[m - 1]) == Step::<R>::Next(path_node(path, current, m)));
        assert(f + 1 + (m - 1) as nat == f + m as nat);
    }
}

/// A walk around a circle never ends.
proof fn lemma_cycle_never_ends<R>(step: spec_fn(ObjectId) -> Step<R>, cyc: Seq<ObjectId>, f: nat)
    requires
        cyc.len() > 0,
        forall|k: int|
            0 <= k < cyc.len() ==> #[trigger] step(cyc[k]) == Step::<R>::Next(
                if k + 1 < cyc.len() { cyc[k + 1] } else { cyc[0] },
            ),
    ensures
        forall|k: int| 0 <= k < cyc.len() ==> #[trigger] walk(step, cyc[k], f) is None,
    decreases f,
{
    if f > 0 {
        lemma_cycle_never_ends(step, cyc, (f - 1) as nat);
        assert forall|k: int| 0 <= k < cyc.len() implies #[trigger] walk(step, cyc[k], f) is None by {
            assert(step(cyc[k]) == Step::<R>::Next(if k + 1 < cyc.len() { cyc[k + 1] } else { cyc[0] }));
            if k + 1 < cyc.len() {
                assert(walk(step, cyc[k + 1], (f - 1) as nat) is None);
            } else {
                assert(walk(step, cyc[0], (f - 1) as nat) is None);
            }
        }
    }
}

/// A recorded walk that reaches a node it has visited never ends.
pub proof fn lemma_walk_revisits<R>(step: spec_fn(ObjectId) -> Step<R>, path: Seq<ObjectId>, current: ObjectId, j: int)
    requires
        is_walk(step, path, current),
        0 <= j < path.len(),
        path[j] == current,
    ensures
        !walk_ends(step, path_node(path, current, 0)),
        walk_result(step, path_node(path, current, 0)) is None,
{
    let start = path_node(path, current, 0);
    let cyc = path.skip(j);
    assert forall|k: int| 0 <= k < cyc.len() implies #[trigger] step(cyc[k]) == Step::<R>::Next(
        if k + 1 < cyc.len() { cyc[k + 1] } else { cyc[0] },
    ) by {
        assert(step(path[j + k]) == Step::<R>::Next(path_node(path, current, j + k + 1)));
    }
    assert forall|f: nat| !(#[trigger] walk(step, start, f) is Some) by {
        if f >= j {
            lemma_cycle_never_ends(step, cyc, (f - j) as nat);
            lemma_walk_along(step, path, current, j, (f - j) as nat);
            assert(cyc[0] == path[j]);
            assert(walk(step, cyc[0], (f - j) as nat) is None);
            assert((f - j) as nat + j as nat == f);
        } else {
            lemma_walk_along(step, path, current, f as int, 0);
        }
    }
}

/// A recorded walk whose current node ends the walk gives its outcome.
pub proof fn lemma_walk_stops<R>(step: spec_fn(ObjectId) -> Step<R>, path: Seq<ObjectId>, current: ObjectId, r: R)
    requires
        is_walk(step, path, current),
        step(current) == Step::Done(r),
    ensures
        walk_result(step, path_node(path, current, 0)) == Some(r),
{
    let start = path_node(path, current, 0);
    let n = path.len() as int;
    lemma_walk_along(step, path, current, n, 1);
    assert(walk(step, start, (1 + n) as nat) is Some);
    let fuel = choose|fuel: nat| #[trigger] walk(step, start, fuel) is Some;
    lemma_walk_unique(step, start, fuel, (1 + n) as nat);
}

/// A recorded walk goes on to the next node.
pub proof fn lemma_walk_extends<R>(step: spec_fn(ObjectId) -> Step<R>, path: Seq<ObjectId>, current: ObjectId, next: ObjectId)
    requires
        is_walk(step, path, current),
        step(current) == Step::<R>::Next(next),
    ensures
        is_walk(step, path.push(current), next),
        path_node(path.push(current), next, 0) == path_node(path, current, 0),
{
    assert forall|k: int| 0 <= k < path.push(current).len() implies #[trigger] step(path.push(current)[k])
        == Step::<R>::Next(path_node(path.push(current), next, k + 1)) by {
        if k < path.len() {
            assert(step(path[k]) == Step::<R>::Next(path_node(path, current, k + 1)));
        }
    }
}

/// Every id in the map is the id of some entry.
proof fn lemma_objects_map_dom(s: Seq<IndirectObject>, id: ObjectId)
    requires
        objects_map(s).contains_key(id),
    ensures
        s.map_values(|e: IndirectObject| e.id).contains(id),
    decreases s.len(),
{
    let ids = s.map_values(|e: IndirectObject| e.id);
    if s[0].id == id {
        assert(ids[0] == id);
    } else {
        lemma_objects_map_dom(s.drop_first(), id);
        let rest = s.drop_first().map_values(|e: IndirectObject| e.id);
        let k = choose|k: int| 0 <= k < rest.len() && rest[k] == id;
        assert(ids[k + 1] == rest[k]);
    }
}

/// A walk without repeated nodes, all of them objects, visits at most as
/// many nodes as there are objects.
pub proof fn lemma_path_bound(s: Seq<IndirectObject>, path: Seq<ObjectId>)
    requires
        path.no_duplicates(),
        forall|k: int| 0 <= k < path.len() ==> objects_map(s).contains_key(#[trigger] path[k]),
    ensures
        path.len() <= s.len(),
{
    let ids = s.map_values(|e: IndirectObject| e.id);
    assert forall|x: ObjectId| path.to_set().contains(x) implies ids.to_set().contains(x) by {
        let k = choose|k: int| 0 <= k < path.len() && path[k] == x;
        lemma_objects_map_dom(s, path[k]);
    }
    path.unique_seq_to_set();
    ids.lemma_cardinality_of_set();
    vstd::set_lib::lemma_len_subset(path.to_set(), ids.to_set());
}

/// Position of `id` among the visited nodes, if it is there.
pub fn visited_position(visited: &Vec<ObjectId>, id: ObjectId) -> (found: Option<usize>)
    ensures
        match found {
            Some(j) => j < visited@.len() && visited@[j as int] == id,
            None => !visited@.contains(id),
        },
{
    for j in 0..visited.len()
        invariant
            forall|k: int| 0 <= k < j ==> visited@[k] != id,
    {
        if visited[j].0 == id.0 && visited[j].1 == id.1 {
            return Some(j);
        }
    }
    None
}

} // verus!
