//! Prerequisite edges, kept as a set: strictly increasing by dependent, then
//! by prerequisite.
use vstd::prelude::*;

use crate::ids::WorkItemId;
use crate::text::{lemma_text_order, text_less, text_lt};

verus! {

/// The order of `(dependent, prerequisite)` edges: by dependent, then by
/// prerequisite.
pub open spec fn edge_lt(a: (WorkItemId, WorkItemId), b: (WorkItemId, WorkItemId)) -> bool {
    text_lt(a.0@, b.0@) || (a.0@ == b.0@ && text_lt(a.1@, b.1@))
}

/// Edges strictly increase along `deps`, so no edge occurs twice.
pub open spec fn edges_sorted(deps: Seq<(WorkItemId, WorkItemId)>) -> bool {
    forall|i: int, j: int|
        0 <= i < j < deps.len() ==> edge_lt(#[trigger] deps[i], #[trigger] deps[j])
}

/// `k` is where edge `e` goes in `deps`: everything before it is smaller and
/// everything from it on is larger.
pub open spec fn is_edge_slot(
    deps: Seq<(WorkItemId, WorkItemId)>,
    e: (WorkItemId, WorkItemId),
    k: int,
) -> bool {
    &&& 0 <= k <= deps.len()
    &&& forall|i: int| 0 <= i < k ==> edge_lt(#[trigger] deps[i], e)
    &&& forall|i: int| k <= i < deps.len() ==> edge_lt(e, #[trigger] deps[i])
}

/// Where an absent edge `e` goes in `deps`.
pub open spec fn edge_slot(deps: Seq<(WorkItemId, WorkItemId)>, e: (WorkItemId, WorkItemId)) -> int {
    choose|k: int| is_edge_slot(deps, e, k)
}

/// `edge_lt` is a strict total order on edges taken by their views.
pub proof fn lemma_edge_order()
    ensures
        forall|a: (WorkItemId, WorkItemId)| !edge_lt(a, a),
        forall|a: (WorkItemId, WorkItemId), b: (WorkItemId, WorkItemId)|
            #[trigger] edge_lt(a, b) ==> !edge_lt(b, a),
        forall|a: (WorkItemId, WorkItemId), b: (WorkItemId, WorkItemId)|
            !(a.0@ == b.0@ && a.1@ == b.1@) ==> #[trigger] edge_lt(a, b) || #[trigger] edge_lt(
                b,
                a,
            ),
        forall|a: (WorkItemId, WorkItemId), b: (WorkItemId, WorkItemId), c: (WorkItemId, WorkItemId)|
            #[trigger] edge_lt(a, b) && #[trigger] edge_lt(b, c) ==> edge_lt(a, c),
{
    lemma_text_order();
}

/// An edge has exactly one slot.
pub proof fn lemma_edge_slot(deps: Seq<(WorkItemId, WorkItemId)>, e: (WorkItemId, WorkItemId), k: int)
    requires
        is_edge_slot(deps, e, k),
    ensures
        edge_slot(deps, e) == k,
{
    lemma_edge_order();
    let q = edge_slot(deps, e);
    assert(is_edge_slot(deps, e, q));
    if q < k {
        assert(edge_lt(deps[q], e));
        assert(edge_lt(e, deps[q]));
    } else if k < q {
        assert(edge_lt(deps[k], e));
        assert(edge_lt(e, deps[k]));
    }
}

/// Inserting an edge at its slot keeps the edges sorted.
pub proof fn lemma_edge_insert_sorted(
    deps: Seq<(WorkItemId, WorkItemId)>,
    e: (WorkItemId, WorkItemId),
    k: int,
)
    requires
        edges_sorted(deps),
        is_edge_slot(deps, e, k),
    ensures
        edges_sorted(deps.insert(k, e)),
{
    let t = deps.insert(k, e);
    assert forall|i: int, j: int| 0 <= i < j < t.len() implies edge_lt(
        #[trigger] t[i],
        #[trigger] t[j],
    ) by {
        if j < k {
            assert(t[i] == deps[i] && t[j] == deps[j]);
        } else if j == k {
            assert(t[i] == deps[i]);
        } else if i < k {
            assert(t[i] == deps[i] && t[j] == deps[j - 1]);
            lemma_edge_order();
            assert(edge_lt(deps[i], e) && edge_lt(e, deps[j - 1]));
        } else if i == k {
            assert(t[j] == deps[j - 1]);
        } else {
            assert(t[i] == deps[i - 1] && t[j] == deps[j - 1]);
        }
    }
}

/// Whether edge `a` comes before the edge from `w` to `p`.
pub fn edge_before(a: &(WorkItemId, WorkItemId), w: &WorkItemId, p: &WorkItemId) -> (r: bool)
    ensures
        r == edge_lt(*a, (*w, *p)),
{
    text_less(a.0.as_str(), w.as_str()) || (a.0.same_as(w) && text_less(a.1.as_str(), p.as_str()))
}

/// Where the edge from `w` to `p`, which `deps` does not hold, goes in
/// `deps`.
pub fn edge_position(deps: &Vec<(WorkItemId, WorkItemId)>, w: &WorkItemId, p: &WorkItemId) -> (k:
    usize)
    requires
        edges_sorted(deps@),
        forall|i: int| 0 <= i < deps@.len() ==> !((#[trigger] deps@[i]).0@ == w@ && deps@[i].1@ == p@),
    ensures
        is_edge_slot(deps@, (*w, *p), k as int),
        k as int == edge_slot(deps@, (*w, *p)),
{
    let mut k: usize = 0;
    while k < deps.len()
        invariant
            k <= deps@.len(),
            forall|i: int| 0 <= i < k ==> edge_lt(#[trigger] deps@[i], (*w, *p)),
        ensures
            k <= deps@.len(),
            forall|i: int| 0 <= i < k ==> edge_lt(#[trigger] deps@[i], (*w, *p)),
            k < deps@.len() ==> !edge_lt(deps@[k as int], (*w, *p)),
        decreases deps.len() - k,
    {
        if !edge_before(&deps[k], w, p) {
            break;
        }
        k = k + 1;
    }
    proof {
        lemma_edge_order();
        let e = (*w, *p);
        if k < deps@.len() {
            assert(!edge_lt(deps@[k as int], e));
            assert(!(deps@[k as int].0@ == w@ && deps@[k as int].1@ == p@));
            assert(edge_lt(e, deps@[k as int]));
            assert forall|i: int| k <= i < deps@.len() implies edge_lt(e, #[trigger] deps@[i]) by {
                if i > k {
                    assert(edge_lt(deps@[k as int], deps@[i]));
                }
            }
        }
        lemma_edge_slot(deps@, e, k as int);
    }
    k
}

/// Whether the edges of `deps` strictly increase.
pub fn edges_in_order(deps: &Vec<(WorkItemId, WorkItemId)>) -> (r: bool)
    ensures
        r == edges_sorted(deps@),
{
    let mut k: usize = 1;
    if deps.len() == 0 {
        return true;
    }
    while k < deps.len()
        invariant
            1 <= k <= deps@.len(),
            forall|i: int, j: int| 0 <= i < j < k ==> edge_lt(#[trigger] deps@[i], #[trigger] deps@[j]),
        decreases deps.len() - k,
    {
        if !edge_before(&deps[k - 1], &deps[k].0, &deps[k].1) {
            proof {
                assert(deps@[k as int] == (deps@[k as int].0, deps@[k as int].1));
                assert(!edge_lt(deps@[k - 1], deps@[k as int]));
            }
            return false;
        }
        proof {
            lemma_edge_order();
            assert(deps@[k as int] == (deps@[k as int].0, deps@[k as int].1));
            assert forall|i: int, j: int| 0 <= i < j < k + 1 implies edge_lt(
                #[trigger] deps@[i],
                #[trigger] deps@[j],
            ) by {
                if j == k && i < k - 1 {
                    assert(edge_lt(deps@[i], deps@[k - 1]));
                }
            }
        }
        k = k + 1;
    }
    true
}

} // verus!
