//! Reachability in a directed graph: the paths along which dependencies run.
use vstd::prelude::*;

verus! {

/// `p` is a walk of `edge`: each node is followed by one it has an edge to.
pub open spec fn is_path<A>(edge: spec_fn(A, A) -> bool, p: Seq<A>) -> bool {
    &&& p.len() > 0
    &&& forall|i: int| #![trigger p[i]] 0 <= i < p.len() - 1 ==> edge(p[i], p[i + 1])
}

/// There is a walk (possibly of no edge) from `a` to `b`.
pub open spec fn reaches<A>(edge: spec_fn(A, A) -> bool, a: A, b: A) -> bool {
    exists|p: Seq<A>| #[trigger] is_path(edge, p) && p[0] == a && p.last() == b
}

/// The edges of `edge`, turned around.
pub open spec fn reversed<A>(edge: spec_fn(A, A) -> bool) -> spec_fn(A, A) -> bool {
    |x: A, y: A| edge(y, x)
}

pub proof fn lemma_reaches_refl<A>(edge: spec_fn(A, A) -> bool, a: A)
    ensures
        reaches(edge, a, a),
{
    let p = seq![a];
    assert(is_path(edge, p));
}

/// A walk between two different nodes leaves the first along an edge and
/// enters the last along an edge.
pub proof fn lemma_reaches_ends<A>(edge: spec_fn(A, A) -> bool, a: A, b: A) -> (r: (A, A))
    requires
        reaches(edge, a, b),
        a != b,
    ensures
        edge(a, r.0),
        edge(r.1, b),
{
    let p = choose|p: Seq<A>| is_path(edge, p) && p[0] == a && p.last() == b;
    assert(p.len() > 1);
    let n = p.len() - 1;
    assert(p[0] == p[0]);
    assert(p[n - 1] == p[n - 1]);
    (p[1], p[n - 1])
}

pub proof fn lemma_reaches_step<A>(edge: spec_fn(A, A) -> bool, a: A, b: A, c: A)
    requires
        reaches(edge, a, b),
        edge(b, c),
    ensures
        reaches(edge, a, c),
{
    let p = choose|p: Seq<A>| is_path(edge, p) && p[0] == a && p.last() == b;
    let q = p.push(c);
    assert forall|i: int| #![trigger q[i]] 0 <= i < q.len() - 1 implies edge(q[i], q[i + 1]) by {
        if i < p.len() - 1 {
            assert(q[i] == p[i] && q[i + 1] == p[i + 1]);
        }
    }
    assert(is_path(edge, q));
}

pub proof fn lemma_reaches_trans<A>(edge: spec_fn(A, A) -> bool, a: A, b: A, c: A)
    requires
        reaches(edge, a, b),
        reaches(edge, b, c),
    ensures
        reaches(edge, a, c),
{
    let p = choose|p: Seq<A>| is_path(edge, p) && p[0] == a && p.last() == b;
    let q = choose|q: Seq<A>| is_path(edge, q) && q[0] == b && q.last() == c;
    let r = p + q.drop_first();
    assert forall|i: int| #![trigger r[i]] 0 <= i < r.len() - 1 implies edge(r[i], r[i + 1]) by {
        if i < p.len() - 1 {
            assert(r[i] == p[i] && r[i + 1] == p[i + 1]);
        } else if i == p.len() - 1 {
            assert(r[i] == q[0]);
            assert(r[i + 1] == q[1]);
            assert(q[0] == q[i - (p.len() - 1)]);
        } else {
            let j = i - p.len() + 1;
            assert(r[i] == q[j] && r[i + 1] == q[j + 1]);
        }
    }
    if q.len() == 1 {
        assert(r =~= p);
    }
    assert(is_path(edge, r));
}

/// A set of nodes that holds `a` and is closed under `edge` holds every node
/// reachable from `a`.
pub proof fn lemma_closed_holds_reachable<A>(
    edge: spec_fn(A, A) -> bool,
    inside: spec_fn(A) -> bool,
    a: A,
    b: A,
)
    requires
        inside(a),
        forall|x: A, y: A| inside(x) && #[trigger] edge(x, y) ==> inside(y),
        reaches(edge, a, b),
    ensures
        inside(b),
{
    let p = choose|p: Seq<A>| is_path(edge, p) && p[0] == a && p.last() == b;
    lemma_closed_holds_prefix(edge, inside, p, p.len() - 1);
}

proof fn lemma_closed_holds_prefix<A>(
    edge: spec_fn(A, A) -> bool,
    inside: spec_fn(A) -> bool,
    p: Seq<A>,
    i: int,
)
    requires
        is_path(edge, p),
        inside(p[0]),
        0 <= i < p.len(),
        forall|x: A, y: A| inside(x) && #[trigger] edge(x, y) ==> inside(y),
    ensures
        inside(p[i]),
    decreases i,
{
    if i > 0 {
        lemma_closed_holds_prefix(edge, inside, p, i - 1);
        assert(edge(p[i - 1], p[i]));
    }
}

/// A map that carries edges to edges carries walks to walks.
pub proof fn lemma_reaches_map<A, B>(
    e1: spec_fn(A, A) -> bool,
    e2: spec_fn(B, B) -> bool,
    f: spec_fn(A) -> B,
    a: A,
    b: A,
)
    requires
        forall|x: A, y: A| #[trigger] e1(x, y) ==> e2(f(x), f(y)),
        reaches(e1, a, b),
    ensures
        reaches(e2, f(a), f(b)),
{
    let p = choose|p: Seq<A>| is_path(e1, p) && p[0] == a && p.last() == b;
    let q = p.map_values(f);
    assert forall|i: int| #![trigger q[i]] 0 <= i < q.len() - 1 implies e2(q[i], q[i + 1]) by {
        assert(e1(p[i], p[i + 1]));
    }
    assert(is_path(e2, q));
}

/// A walk read backwards is a walk of the reversed edges.
pub proof fn lemma_reaches_reversed<A>(edge: spec_fn(A, A) -> bool, a: A, b: A)
    ensures
        reaches(edge, a, b) == reaches(reversed(edge), b, a),
{
    if reaches(edge, a, b) {
        let p = choose|p: Seq<A>| is_path(edge, p) && p[0] == a && p.last() == b;
        let q = p.reverse();
        assert forall|i: int| #![trigger q[i]] 0 <= i < q.len() - 1 implies reversed(edge)(
            q[i],
            q[i + 1],
        ) by {
            let j = p.len() - 2 - i;
            assert(q[i] == p[j + 1] && q[i + 1] == p[j]);
            assert(edge(p[j], p[j + 1]));
        }
        assert(is_path(reversed(edge), q));
    }
    if reaches(reversed(edge), b, a) {
        let p = choose|p: Seq<A>| is_path(reversed(edge), p) && p[0] == b && p.last() == a;
        let q = p.reverse();
        assert forall|i: int| #![trigger q[i]] 0 <= i < q.len() - 1 implies edge(q[i], q[i + 1]) by {
            let j = p.len() - 2 - i;
            assert(q[i] == p[j + 1] && q[i + 1] == p[j]);
            assert(reversed(edge)(p[j], p[j + 1]));
        }
        assert(is_path(edge, q));
    }
}

/// After one edge `u -> v` is added to a graph in which `v` does not reach
/// `u`, every walk either existed before or runs through the new edge once.
pub proof fn lemma_reaches_with_edge<A>(
    e_old: spec_fn(A, A) -> bool,
    e_new: spec_fn(A, A) -> bool,
    u: A,
    v: A,
    x: A,
    y: A,
)
    requires
        forall|a: A, b: A| #[trigger] e_new(a, b) <==> (e_old(a, b) || (a == u && b == v)),
        !reaches(e_old, v, u),
        reaches(e_new, x, y),
    ensures
        reaches(e_old, x, y) || (reaches(e_old, x, u) && reaches(e_old, v, y)),
{
    let q = choose|q: Seq<A>| is_path(e_new, q) && q[0] == x && q.last() == y;
    lemma_path_with_edge(e_old, e_new, u, v, q);
}

proof fn lemma_path_with_edge<A>(
    e_old: spec_fn(A, A) -> bool,
    e_new: spec_fn(A, A) -> bool,
    u: A,
    v: A,
    q: Seq<A>,
)
    requires
        forall|a: A, b: A| #[trigger] e_new(a, b) <==> (e_old(a, b) || (a == u && b == v)),
        !reaches(e_old, v, u),
        is_path(e_new, q),
    ensures
        reaches(e_old, q[0], q.last()) || (reaches(e_old, q[0], u) && reaches(e_old, v, q.last())),
    decreases q.len(),
{
    if q.len() == 1 {
        lemma_reaches_refl(e_old, q[0]);
    } else {
        let r = q.drop_last();
        assert forall|i: int| #![trigger r[i]] 0 <= i < r.len() - 1 implies e_new(r[i], r[i + 1]) by {
            assert(q[i] == r[i] && q[i + 1] == r[i + 1]);
        }
        lemma_path_with_edge(e_old, e_new, u, v, r);
        let z = r.last();
        let y = q.last();
        assert(z == q[q.len() - 2]);
        assert(e_new(z, y));
        if e_old(z, y) {
            if reaches(e_old, q[0], z) {
                lemma_reaches_step(e_old, q[0], z, y);
            } else {
                lemma_reaches_step(e_old, v, z, y);
            }
        } else {
            assert(z == u && y == v);
            lemma_reaches_refl(e_old, v);
        }
    }
}

/// The edges listed in `edges`, between node numbers.
pub open spec fn listed_edge(edges: Seq<(usize, usize)>) -> spec_fn(int, int) -> bool {
    |u: int, v: int|
        exists|k: int| 0 <= k < edges.len() && #[trigger] edges[k].0 == u && edges[k].1 == v
}

/// How many entries of `s` are set.
pub open spec fn count_set(s: Seq<bool>) -> nat
    decreases s.len(),
{
    if s.len() == 0 {
        0
    } else {
        count_set(s.drop_last()) + if s.last() {
            1nat
        } else {
            0nat
        }
    }
}

pub proof fn lemma_count_set_bound(s: Seq<bool>)
    ensures
        count_set(s) <= s.len(),
    decreases s.len(),
{
    if s.len() > 0 {
        lemma_count_set_bound(s.drop_last());
    }
}

pub proof fn lemma_count_set_update(s: Seq<bool>, i: int)
    requires
        0 <= i < s.len(),
        !s[i],
    ensures
        count_set(s.update(i, true)) == count_set(s) + 1,
    decreases s.len(),
{
    let t = s.update(i, true);
    if i == s.len() - 1 {
        assert(t.drop_last() =~= s.drop_last());
    } else {
        lemma_count_set_update(s.drop_last(), i);
        assert(t.drop_last() =~= s.drop_last().update(i, true));
    }
}

/// Marks the nodes `0..n` that can be reached from `start` along `edges`.
pub fn reach_marks(n: usize, edges: &Vec<(usize, usize)>, start: usize) -> (marks: Vec<bool>)
    requires
        start < n,
        forall|k: int| 0 <= k < edges@.len() ==> (#[trigger] edges@[k]).0 < n && edges@[k].1 < n,
    ensures
        marks@.len() == n,
        forall|v: int|
            0 <= v < n ==> (#[trigger] marks@[v] <==> reaches(listed_edge(edges@), start as int, v)),
{
    let ghost e = listed_edge(edges@);
    let mut marks: Vec<bool> = Vec::new();
    let mut i: usize = 0;
    while i < n
        invariant
            i <= n,
            marks@.len() == i,
            forall|j: int| 0 <= j < i ==> !(#[trigger] marks@[j]),
        decreases n - i,
    {
        marks.push(false);
        i = i + 1;
    }
    proof {
        lemma_count_set_update(marks@, start as int);
        lemma_reaches_refl(e, start as int);
    }
    marks.set(start, true);
    let mut pending: Vec<usize> = Vec::new();
    pending.push(start);
    assert(pending@[0] == start);
    assert(forall|x: int| 0 <= x < n && x != start ==> !marks@[x]);
    while pending.len() > 0
        invariant
            e == listed_edge(edges@),
            start < n,
            forall|k: int| 0 <= k < edges@.len() ==> (#[trigger] edges@[k]).0 < n && edges@[k].1 < n,
            marks@.len() == n,
            marks@[start as int],
            forall|k: int|
                0 <= k < pending@.len() ==> (#[trigger] pending@[k]) < n && marks@[pending@[k] as int],
            forall|v: int| 0 <= v < n && #[trigger] marks@[v] ==> reaches(e, start as int, v),
            forall|x: int, k: int| #![trigger marks@[x], edges@[k]]
                0 <= x < n && marks@[x] && !pending@.contains(x as usize) && 0 <= k < edges@.len()
                    && edges@[k].0 == x ==> marks@[edges@[k].1 as int],
        decreases 2 * (n - count_set(marks@)) + pending@.len(),
    {
        proof {
            lemma_count_set_bound(marks@);
        }
        let ghost measure = 2 * (n - count_set(marks@)) + pending@.len();
        let ghost before = pending@;
        let u = pending.pop().unwrap();
        let ghost rest = pending@;
        assert(before == rest.push(u));
        let mut k: usize = 0;
        while k < edges.len()
            invariant
                e == listed_edge(edges@),
                start < n,
                u < n,
                marks@[u as int],
                forall|k: int|
                    0 <= k < edges@.len() ==> (#[trigger] edges@[k]).0 < n && edges@[k].1 < n,
                marks@.len() == n,
                marks@[start as int],
                k <= edges@.len(),
                pending@.len() >= rest.len(),
                pending@.subrange(0, rest.len() as int) == rest,
                forall|j: int|
                    0 <= j < pending@.len() ==> (#[trigger] pending@[j]) < n && marks@[pending@[j] as int],
                forall|v: int| 0 <= v < n && #[trigger] marks@[v] ==> reaches(e, start as int, v),
                forall|x: int, j: int| #![trigger marks@[x], edges@[j]]
                    0 <= x < n && x != u && marks@[x] && !pending@.contains(x as usize) && 0 <= j
                        < edges@.len() && edges@[j].0 == x ==> marks@[edges@[j].1 as int],
                forall|j: int| 0 <= j < k && #[trigger] edges@[j].0 == u ==> marks@[edges@[j].1 as int],
                count_set(marks@) <= n,
                2 * (n - count_set(marks@)) + pending@.len() < measure,
            decreases edges.len() - k,
        {
            let (a, b) = edges[k];
            if a == u && !marks[b] {
                proof {
                    assert(e(u as int, b as int));
                    lemma_reaches_step(e, start as int, u as int, b as int);
                    lemma_count_set_update(marks@, b as int);
                    lemma_count_set_bound(marks@.update(b as int, true));
                }
                let ghost old_pending = pending@;
                let ghost old_marks = marks@;
                marks.set(b, true);
                pending.push(b);
                proof {
                    assert(pending@.subrange(0, rest.len() as int) =~= old_pending.subrange(
                        0,
                        rest.len() as int,
                    ));
                    assert forall|x: int, j: int| #![trigger marks@[x], edges@[j]]
                        0 <= x < n && x != u && marks@[x] && !pending@.contains(x as usize) && 0
                            <= j < edges@.len() && edges@[j].0 == x implies marks@[edges@[j].1 as int] by {
                        assert(pending@[pending@.len() - 1] == b);
                        assert(x != b);
                        assert(old_marks[x]);
                        if old_pending.contains(x as usize) {
                            let w = choose|w: int| 0 <= w < old_pending.len() && old_pending[w] == x as usize;
                            assert(pending@[w] == x as usize);
                        }
                    }
                }
            }
            k = k + 1;
        }
        proof {
            assert forall|x: int, j: int| #![trigger marks@[x], edges@[j]]
                0 <= x < n && marks@[x] && !pending@.contains(x as usize) && 0 <= j < edges@.len()
                    && edges@[j].0 == x implies marks@[edges@[j].1 as int] by {
                if x != u {
                    if rest.contains(x as usize) {
                        let w = choose|w: int| 0 <= w < rest.len() && rest[w] == x as usize;
                        assert(pending@[w] == x as usize);
                    }
                }
            }
        }
    }
    proof {
        let inside = |v: int| 0 <= v < n && marks@[v];
        assert forall|x: int, y: int| inside(x) && #[trigger] e(x, y) implies inside(y) by {
            let j = choose|j: int| 0 <= j < edges@.len() && #[trigger] edges@[j].0 == x && edges@[j].1 == y;
        }
        assert forall|v: int| 0 <= v < n && reaches(e, start as int, v) implies #[trigger] marks@[v] by {
            lemma_closed_holds_reachable(e, inside, start as int, v);
        }
    }
    marks
}

} // verus!
