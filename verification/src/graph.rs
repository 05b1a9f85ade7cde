//! Mathematical model of a directed graph given by its node count and its
//! edge list, with reachability, cycles and topological orders.
//!
//! An edge `(u, v)` means that `u` must run before `v`.

use vstd::prelude::*;

verus! {

/// `(u, v)` occurs among the edges.
pub open spec fn has_edge(e: Seq<(nat, nat)>, u: nat, v: nat) -> bool {
    exists|k: int| 0 <= k < e.len() && #[trigger] e[k] == (u, v)
}

/// Every edge joins two of the first `n` nodes.
pub open spec fn edges_in_range(e: Seq<(nat, nat)>, n: nat) -> bool {
    forall|k: int| 0 <= k < e.len() ==> (#[trigger] e[k]).0 < n && e[k].1 < n
}

/// `p` is a walk along edges (a single node is a walk of length zero).
pub open spec fn is_path(e: Seq<(nat, nat)>, p: Seq<nat>) -> bool {
    &&& p.len() >= 1
    &&& forall|k: int| #![trigger p[k]] 0 <= k < p.len() - 1 ==> has_edge(e, p[k], p[k + 1])
}

/// `v` can be reached from `u` by following zero or more edges.
pub open spec fn reaches(e: Seq<(nat, nat)>, u: nat, v: nat) -> bool {
    exists|p: Seq<nat>| #[trigger] is_path(e, p) && p[0] == u && p.last() == v
}

/// `v` can be reached from `u` by following one or more edges.
pub open spec fn reaches_plus(e: Seq<(nat, nat)>, u: nat, v: nat) -> bool {
    exists|p: Seq<nat>| #[trigger] is_path(e, p) && p.len() >= 2 && p[0] == u && p.last() == v
}

/// No node can reach itself by following one or more edges.
pub open spec fn is_acyclic(e: Seq<(nat, nat)>) -> bool {
    forall|u: nat| !#[trigger] reaches_plus(e, u, u)
}

/// `ord` lists each of the nodes `0..n` once, every edge pointing forward.
pub open spec fn is_topo_order(n: nat, e: Seq<(nat, nat)>, ord: Seq<nat>) -> bool {
    &&& ord.len() == n
    &&& ord.no_duplicates()
    &&& forall|i: int| 0 <= i < n ==> #[trigger] ord[i] < n
    &&& forall|i: int, j: int|
        0 <= i < n && 0 <= j < n && #[trigger] has_edge(e, ord[i], ord[j]) ==> i < j
}

/// The nodes that `a` points to, one entry per edge, in edge order.
pub open spec fn successors(e: Seq<(nat, nat)>, a: nat) -> Seq<nat>
    decreases e.len(),
{
    if e.len() == 0 {
        Seq::empty()
    } else if e.last().0 == a {
        successors(e.drop_last(), a).push(e.last().1)
    } else {
        successors(e.drop_last(), a)
    }
}

/// The nodes that point to `a`, one entry per edge, in edge order.
pub open spec fn predecessors(e: Seq<(nat, nat)>, a: nat) -> Seq<nat>
    decreases e.len(),
{
    if e.len() == 0 {
        Seq::empty()
    } else if e.last().1 == a {
        predecessors(e.drop_last(), a).push(e.last().0)
    } else {
        predecessors(e.drop_last(), a)
    }
}

/// A single node is a path from itself to itself.
pub proof fn lemma_reaches_refl(e: Seq<(nat, nat)>, u: nat)
    ensures
        reaches(e, u, u),
{
    let p = seq![u];
    assert(is_path(e, p));
}

/// Extending a path by an edge at its end.
pub proof fn lemma_reaches_step(e: Seq<(nat, nat)>, u: nat, v: nat, w: nat)
    requires
        reaches(e, u, v),
        has_edge(e, v, w),
    ensures
        reaches_plus(e, u, w),
        reaches(e, u, w),
{
    let p = choose|p: Seq<nat>| #[trigger] is_path(e, p) && p[0] == u && p.last() == v;
    let q = p.push(w);
    assert forall|k: int| #![trigger q[k]] 0 <= k < q.len() - 1 implies has_edge(e, q[k], q[k + 1]) by {
        if k < p.len() - 1 {
            assert(q[k] == p[k] && q[k + 1] == p[k + 1]);
        } else {
            assert(q[k] == v && q[k + 1] == w);
        }
    }
    assert(is_path(e, q));
}

/// Paths compose.
pub proof fn lemma_reaches_trans(e: Seq<(nat, nat)>, u: nat, v: nat, w: nat)
    requires
        reaches(e, u, v),
        reaches(e, v, w),
    ensures
        reaches(e, u, w),
{
    let p = choose|p: Seq<nat>| #[trigger] is_path(e, p) && p[0] == u && p.last() == v;
    let q = choose|q: Seq<nat>| #[trigger] is_path(e, q) && q[0] == v && q.last() == w;
    let r = p + q.drop_first();
    assert forall|k: int| #![trigger r[k]] 0 <= k < r.len() - 1 implies has_edge(e, r[k], r[k + 1]) by {
        if k < p.len() - 1 {
            assert(r[k] == p[k] && r[k + 1] == p[k + 1]);
        } else {
            let j = k - (p.len() - 1);
            assert(r[k] == q[j]);
            assert(r[k + 1] == q[j + 1]);
        }
    }
    assert(is_path(e, r));
    if q.len() == 1 {
        assert(r =~= p);
    } else {
        assert(r.last() == q.last());
    }
}

/// A path of one or more edges followed by a path is a path of one or more edges.
pub proof fn lemma_plus_then_reaches(e: Seq<(nat, nat)>, u: nat, v: nat, w: nat)
    requires
        reaches_plus(e, u, v),
        reaches(e, v, w),
    ensures
        reaches_plus(e, u, w),
{
    let p = choose|p: Seq<nat>| #[trigger] is_path(e, p) && p.len() >= 2 && p[0] == u && p.last() == v;
    let q = choose|q: Seq<nat>| #[trigger] is_path(e, q) && q[0] == v && q.last() == w;
    let r = p + q.drop_first();
    assert forall|k: int| #![trigger r[k]] 0 <= k < r.len() - 1 implies has_edge(e, r[k], r[k + 1]) by {
        if k < p.len() - 1 {
            assert(r[k] == p[k] && r[k + 1] == p[k + 1]);
        } else {
            let j = k - (p.len() - 1);
            assert(r[k] == q[j]);
            assert(r[k + 1] == q[j + 1]);
        }
    }
    assert(is_path(e, r));
    if q.len() == 1 {
        assert(r =~= p);
    } else {
        assert(r.last() == q.last());
    }
}

/// The first step of a path of one or more edges.
pub proof fn lemma_plus_first_step(e: Seq<(nat, nat)>, u: nat, v: nat) -> (w: nat)
    requires
        reaches_plus(e, u, v),
    ensures
        has_edge(e, u, w),
        reaches(e, w, v),
{
    let p = choose|p: Seq<nat>| #[trigger] is_path(e, p) && p.len() >= 2 && p[0] == u && p.last() == v;
    let q = p.drop_first();
    assert(p[0] == u);
    assert(has_edge(e, p[0], p[1]));
    assert forall|k: int| #![trigger q[k]] 0 <= k < q.len() - 1 implies has_edge(e, q[k], q[k + 1]) by {
        assert(q[k] == p[k + 1] && q[k + 1] == p[k + 2]);
    }
    assert(is_path(e, q));
    p[1]
}

/// Membership in the successor list is the same as an edge.
pub proof fn lemma_successors_contains(e: Seq<(nat, nat)>, a: nat, b: nat)
    ensures
        successors(e, a).contains(b) <==> has_edge(e, a, b),
    decreases e.len(),
{
    if e.len() > 0 {
        let d = e.drop_last();
        lemma_successors_contains(d, a, b);
        if has_edge(d, a, b) {
            let k = choose|k: int| 0 <= k < d.len() && #[trigger] d[k] == (a, b);
            assert(e[k] == d[k]);
        }
        if has_edge(e, a, b) {
            let k = choose|k: int| 0 <= k < e.len() && #[trigger] e[k] == (a, b);
            if k < d.len() {
                assert(d[k] == e[k]);
            }
        }
        if e.last().0 == a {
            let s = successors(d, a);
            assert(successors(e, a) =~= s.push(e.last().1));
            if e.last().1 == b {
                assert(s.push(b)[s.len() as int] == b);
                assert(e[e.len() - 1] == (a, b));
            }
            if s.push(e.last().1).contains(b) && !s.contains(b) {
                let i = choose|i: int| 0 <= i < s.len() + 1 && s.push(e.last().1)[i] == b;
                assert(i == s.len());
                assert(e[e.len() - 1] == (a, b));
            }
            if s.contains(b) {
                let i = choose|i: int| 0 <= i < s.len() && s[i] == b;
                assert(s.push(e.last().1)[i] == b);
            }
        }
    }
}

/// Membership in the predecessor list is the same as an edge.
pub proof fn lemma_predecessors_contains(e: Seq<(nat, nat)>, a: nat, b: nat)
    ensures
        predecessors(e, a).contains(b) <==> has_edge(e, b, a),
    decreases e.len(),
{
    if e.len() > 0 {
        let d = e.drop_last();
        lemma_predecessors_contains(d, a, b);
        if has_edge(d, b, a) {
            let k = choose|k: int| 0 <= k < d.len() && #[trigger] d[k] == (b, a);
            assert(e[k] == d[k]);
        }
        if has_edge(e, b, a) {
            let k = choose|k: int| 0 <= k < e.len() && #[trigger] e[k] == (b, a);
            if k < d.len() {
                assert(d[k] == e[k]);
            }
        }
        if e.last().1 == a {
            let s = predecessors(d, a);
            assert(predecessors(e, a) =~= s.push(e.last().0));
            if e.last().0 == b {
                assert(s.push(b)[s.len() as int] == b);
                assert(e[e.len() - 1] == (b, a));
            }
            if s.push(e.last().0).contains(b) && !s.contains(b) {
                let i = choose|i: int| 0 <= i < s.len() + 1 && s.push(e.last().0)[i] == b;
                assert(i == s.len());
                assert(e[e.len() - 1] == (b, a));
            }
            if s.contains(b) {
                let i = choose|i: int| 0 <= i < s.len() && s[i] == b;
                assert(s.push(e.last().0)[i] == b);
            }
        }
    }
}

/// The number of `false` entries.
pub open spec fn count_false(s: Seq<bool>) -> nat
    decreases s.len(),
{
    if s.len() == 0 {
        0
    } else {
        count_false(s.drop_last()) + if s.last() {
            0nat
        } else {
            1nat
        }
    }
}

/// Setting a `false` entry to `true` lowers the count by one.
pub proof fn lemma_count_false_update(s: Seq<bool>, i: int)
    requires
        0 <= i < s.len(),
        !s[i],
    ensures
        count_false(s.update(i, true)) + 1 == count_false(s),
    decreases s.len(),
{
    let t = s.update(i, true);
    if i == s.len() - 1 {
        assert(t.drop_last() =~= s.drop_last());
    } else {
        lemma_count_false_update(s.drop_last(), i);
        assert(t.drop_last() =~= s.drop_last().update(i, true));
    }
}

/// `q` followed backwards is a walk: every entry points to the one before it.
pub open spec fn is_back_path(e: Seq<(nat, nat)>, q: Seq<nat>) -> bool {
    &&& q.len() >= 1
    &&& forall|k: int| #![trigger q[k]] 0 <= k < q.len() - 1 ==> has_edge(e, q[k + 1], q[k])
}

/// The naturals below `n`.
pub open spec fn nat_below(n: nat) -> Set<nat> {
    Set::new(|v: nat| v < n)
}

pub proof fn lemma_nat_below(n: nat)
    ensures
        nat_below(n).finite(),
        nat_below(n).len() == n,
    decreases n,
{
    if n == 0 {
        assert(nat_below(n) =~= Set::empty());
    } else {
        lemma_nat_below((n - 1) as nat);
        assert(nat_below((n - 1) as nat).insert((n - 1) as nat) =~= nat_below(n));
    }
}

/// A topological order lists every node.
pub proof fn lemma_topo_covers(n: nat, e: Seq<(nat, nat)>, ord: Seq<nat>, v: nat)
    requires
        is_topo_order(n, e, ord),
        v < n,
    ensures
        ord.contains(v),
{
    ord.unique_seq_to_set();
    lemma_nat_below(n);
    let s = ord.to_set();
    assert(s.subset_of(nat_below(n))) by {
        assert forall|x: nat| s.contains(x) implies nat_below(n).contains(x) by {
            let i = choose|i: int| 0 <= i < ord.len() && ord[i] == x;
            assert(ord[i] < n);
        }
    }
    vstd::set_lib::lemma_len_subset(s, nat_below(n));
    vstd::set_lib::lemma_subset_equality(s, nat_below(n));
    assert(nat_below(n).contains(v));
    assert(s.contains(v));
}

/// Along a walk of one or more edges, a topological order places the end
/// strictly after the start.
pub proof fn lemma_topo_path_forward(n: nat, e: Seq<(nat, nat)>, ord: Seq<nat>, p: Seq<nat>, i0: int, k: int)
    requires
        is_topo_order(n, e, ord),
        edges_in_range(e, n),
        is_path(e, p),
        0 < k < p.len(),
        0 <= i0 < n,
        ord[i0] == p[0],
    ensures
        exists|j: int| i0 < j < n && #[trigger] ord[j] == p[k],
    decreases k,
{
    let a = p[k - 1];
    assert(has_edge(e, a, p[k]));
    let t = choose|t: int| 0 <= t < e.len() && #[trigger] e[t] == (a, p[k]);
    assert(e[t].0 < n && e[t].1 < n);
    lemma_topo_covers(n, e, ord, p[k]);
    let j = choose|j: int| 0 <= j < ord.len() && ord[j] == p[k];
    if k == 1 {
        assert(has_edge(e, ord[i0], ord[j]));
    } else {
        lemma_topo_path_forward(n, e, ord, p, i0, k - 1);
        let j1 = choose|j1: int| i0 < j1 < n && #[trigger] ord[j1] == p[k - 1];
        assert(has_edge(e, ord[j1], ord[j]));
    }
}

/// Along a walk whose edges all point to higher nodes, the end is above the
/// start.
proof fn lemma_forward_path(e: Seq<(nat, nat)>, p: Seq<nat>, k: int)
    requires
        forall|t: int| 0 <= t < e.len() ==> (#[trigger] e[t]).0 < e[t].1,
        is_path(e, p),
        0 < k < p.len(),
    ensures
        p[0] < p[k],
    decreases k,
{
    assert(has_edge(e, p[k - 1], p[k]));
    let t = choose|t: int| 0 <= t < e.len() && #[trigger] e[t] == (p[k - 1], p[k]);
    if k > 1 {
        lemma_forward_path(e, p, k - 1);
    }
}

/// A graph whose edges all point to higher nodes has no cycle.
pub proof fn lemma_forward_edges_acyclic(e: Seq<(nat, nat)>)
    requires
        forall|t: int| 0 <= t < e.len() ==> (#[trigger] e[t]).0 < e[t].1,
    ensures
        is_acyclic(e),
{
    assert forall|u: nat| !#[trigger] reaches_plus(e, u, u) by {
        if reaches_plus(e, u, u) {
            let p = choose|p: Seq<nat>| #[trigger] is_path(e, p) && p.len() >= 2 && p[0] == u && p.last() == u;
            lemma_forward_path(e, p, p.len() - 1);
        }
    }
}

/// Every edge of `e1` is an edge of `e2`.
pub open spec fn edges_within(e1: Seq<(nat, nat)>, e2: Seq<(nat, nat)>) -> bool {
    forall|u: nat, v: nat| #[trigger] has_edge(e1, u, v) ==> has_edge(e2, u, v)
}

/// Removing edges from a graph without cycles leaves no cycle.
pub proof fn lemma_sub_acyclic(e1: Seq<(nat, nat)>, e2: Seq<(nat, nat)>)
    requires
        edges_within(e1, e2),
        is_acyclic(e2),
    ensures
        is_acyclic(e1),
{
    assert forall|u: nat| !#[trigger] reaches_plus(e1, u, u) by {
        if reaches_plus(e1, u, u) {
            let p = choose|p: Seq<nat>| #[trigger] is_path(e1, p) && p.len() >= 2 && p[0] == u && p.last() == u;
            assert(is_path(e2, p)) by {
                assert forall|k: int| 0 <= k < p.len() - 1 implies has_edge(e2, #[trigger] p[k], p[k + 1]) by {
                    assert(has_edge(e1, p[k], p[k + 1]));
                }
            }
            assert(reaches_plus(e2, u, u));
        }
    }
}

/// `lay` gives each of the nodes `0..n` a layer: every edge climbs at least one
/// layer, and a node above layer 0 has a predecessor exactly one layer below.
pub open spec fn is_layering(n: nat, e: Seq<(nat, nat)>, lay: Seq<nat>) -> bool {
    &&& lay.len() == n
    &&& forall|u: nat, v: nat|
        u < n && v < n && #[trigger] has_edge(e, u, v) ==> lay[u as int] < lay[v as int]
    &&& forall|v: nat|
        v < n && #[trigger] lay[v as int] > 0 ==> exists|u: nat|
            u < n && has_edge(e, u, v) && lay[u as int] + 1 == lay[v as int]
}

/// The layering of a graph is unique: each node's layer is the length of the
/// longest path that ends at it.
pub proof fn lemma_layering_unique(n: nat, e: Seq<(nat, nat)>, l1: Seq<nat>, l2: Seq<nat>)
    requires
        is_layering(n, e, l1),
        is_layering(n, e, l2),
    ensures
        l1 == l2,
{
    assert forall|v: nat| v < n implies l1[v as int] == l2[v as int] by {
        let k = if l1[v as int] <= l2[v as int] {
            l1[v as int]
        } else {
            l2[v as int]
        };
        lemma_layering_agree_upto(n, e, l1, l2, k);
    }
    assert(l1 =~= l2);
}

proof fn lemma_layering_agree_upto(n: nat, e: Seq<(nat, nat)>, l1: Seq<nat>, l2: Seq<nat>, k: nat)
    requires
        is_layering(n, e, l1),
        is_layering(n, e, l2),
    ensures
        forall|v: nat| v < n && (l1[v as int] <= k || l2[v as int] <= k) ==> #[trigger] l1[v as int] == l2[v as int],
    decreases k,
{
    if k > 0 {
        lemma_layering_agree_upto(n, e, l1, l2, (k - 1) as nat);
    }
    assert forall|v: nat| v < n && (l1[v as int] <= k || l2[v as int] <= k) implies #[trigger] l1[v as int]
        == l2[v as int] by {
        lemma_layering_one_side(n, e, l1, l2, k, v);
        lemma_layering_one_side(n, e, l2, l1, k, v);
    }
}

proof fn lemma_layering_one_side(n: nat, e: Seq<(nat, nat)>, l1: Seq<nat>, l2: Seq<nat>, k: nat, v: nat)
    requires
        is_layering(n, e, l1),
        is_layering(n, e, l2),
        v < n,
        k > 0 ==> forall|w: nat|
            w < n && (l1[w as int] <= k - 1 || l2[w as int] <= k - 1) ==> #[trigger] l1[w as int] == l2[w as int],
    ensures
        l1[v as int] == k ==> l2[v as int] == k,
{
    if l1[v as int] == k {
        if k == 0 {
            if l2[v as int] > 0 {
                let u = choose|u: nat| u < n && has_edge(e, u, v) && l2[u as int] + 1 == l2[v as int];
                assert(l1[u as int] < l1[v as int]);
            }
        } else {
            let u = choose|u: nat| u < n && has_edge(e, u, v) && l1[u as int] + 1 == l1[v as int];
            assert(l1[u as int] == l2[u as int]);
            assert(l2[u as int] < l2[v as int]);
            if l2[v as int] > k {
                let w = choose|w: nat| w < n && has_edge(e, w, v) && l2[w as int] + 1 == l2[v as int];
                assert(l1[w as int] < l1[v as int]);
                assert(l1[w as int] == l2[w as int]);
            }
        }
    }
}

/// The identifiers-to-be of the first `upto` nodes whose layer is `k`, in node order.
pub open spec fn nodes_at_layer(lay: Seq<nat>, k: nat, upto: nat) -> Seq<nat>
    decreases upto,
{
    if upto == 0 {
        Seq::empty()
    } else if lay[upto - 1] == k {
        nodes_at_layer(lay, k, (upto - 1) as nat).push((upto - 1) as nat)
    } else {
        nodes_at_layer(lay, k, (upto - 1) as nat)
    }
}

/// The nodes below `upto` on layer `k` are exactly those whose layer is `k`.
pub proof fn lemma_nodes_at_layer_members(lay: Seq<nat>, k: nat, upto: nat)
    ensures
        forall|v: nat| #[trigger] nodes_at_layer(lay, k, upto).contains(v) <==> v < upto && lay[v as int] == k,
    decreases upto,
{
    if upto > 0 {
        lemma_nodes_at_layer_members(lay, k, (upto - 1) as nat);
        let prev = nodes_at_layer(lay, k, (upto - 1) as nat);
        assert forall|v: nat| #[trigger] nodes_at_layer(lay, k, upto).contains(v) <==> v < upto && lay[v as int] == k by {
            if lay[upto - 1] == k {
                let q = prev.push((upto - 1) as nat);
                assert(nodes_at_layer(lay, k, upto) == q);
                if q.contains(v) && v != upto - 1 {
                    let i = choose|i: int| 0 <= i < q.len() && #[trigger] q[i] == v;
                    assert(i < prev.len());
                    assert(prev[i] == v);
                    assert(prev.contains(v));
                }
                if v < upto && lay[v as int] == k && v != upto - 1 {
                    assert(prev.contains(v));
                    let i = choose|i: int| 0 <= i < prev.len() && #[trigger] prev[i] == v;
                    assert(q[i] == v);
                }
                if v == upto - 1 {
                    assert(q[prev.len() as int] == v);
                }
            }
        }
    }
}

/// Every layer up to that of a node holds some node.
pub proof fn lemma_layer_below(n: nat, e: Seq<(nat, nat)>, lay: Seq<nat>, v: nat, j: nat)
    requires
        is_layering(n, e, lay),
        v < n,
        j <= lay[v as int],
    ensures
        exists|u: nat| u < n && #[trigger] lay[u as int] == j,
    decreases lay[v as int] - j,
{
    if j == lay[v as int] {
        assert(lay[v as int] == j);
    } else {
        assert(lay[v as int] > 0);
        let u = choose|u: nat| u < n && has_edge(e, u, v) && lay[u as int] + 1 == lay[v as int];
        lemma_layer_below(n, e, lay, u, j);
    }
}

/// How many of the nodes below `upto` lie on the layers below `m`.
pub open spec fn layered_count(lay: Seq<nat>, m: nat, upto: nat) -> nat
    decreases m,
{
    if m == 0 {
        0
    } else {
        layered_count(lay, (m - 1) as nat, upto) + nodes_at_layer(lay, (m - 1) as nat, upto).len()
    }
}

/// One more node counts once, on its own layer.
proof fn lemma_layered_count_step(lay: Seq<nat>, m: nat, upto: nat)
    requires
        upto > 0,
    ensures
        layered_count(lay, m, upto) == layered_count(lay, m, (upto - 1) as nat) + (if lay[upto - 1] < m {
            1nat
        } else {
            0nat
        }),
    decreases m,
{
    if m > 0 {
        lemma_layered_count_step(lay, (m - 1) as nat, upto);
    }
}

/// When every node below `upto` lies below layer `m`, the layers below `m`
/// hold `upto` nodes in all: no node is on two of them.
pub proof fn lemma_layered_count_all(lay: Seq<nat>, m: nat, upto: nat)
    requires
        forall|v: nat| v < upto ==> #[trigger] lay[v as int] < m,
    ensures
        layered_count(lay, m, upto) == upto,
    decreases upto,
{
    if upto > 0 {
        lemma_layered_count_all(lay, m, (upto - 1) as nat);
        lemma_layered_count_step(lay, m, upto);
        assert(lay[(upto - 1) as nat as int] < m);
    } else {
        lemma_layered_count_zero(lay, m);
    }
}

proof fn lemma_layered_count_zero(lay: Seq<nat>, m: nat)
    ensures
        layered_count(lay, m, 0) == 0,
    decreases m,
{
    if m > 0 {
        lemma_layered_count_zero(lay, (m - 1) as nat);
    }
}

/// An edge of `e` is an edge of `e` with one more edge added.
proof fn lemma_edge_kept(e: Seq<(nat, nat)>, f: nat, t: nat, a: nat, b: nat)
    requires
        has_edge(e, a, b),
    ensures
        has_edge(e.push((f, t)), a, b),
{
    let k = choose|k: int| 0 <= k < e.len() && #[trigger] e[k] == (a, b);
    assert(e.push((f, t))[k] == (a, b));
}

/// An edge of `e` with `(f, t)` added is an edge of `e` or is `(f, t)`.
proof fn lemma_edge_grown(e: Seq<(nat, nat)>, f: nat, t: nat, a: nat, b: nat)
    requires
        has_edge(e.push((f, t)), a, b),
    ensures
        has_edge(e, a, b) || (a == f && b == t),
{
    let g = e.push((f, t));
    let k = choose|k: int| 0 <= k < g.len() && #[trigger] g[k] == (a, b);
    if k < e.len() {
        assert(e[k] == (a, b));
    }
}

/// A walk along `e` with `(f, t)` added either keeps to `e` or reaches `f`
/// along `e` from its start before it first takes the added edge.
proof fn lemma_grown_prefix(e: Seq<(nat, nat)>, f: nat, t: nat, p: Seq<nat>)
    requires
        is_path(e.push((f, t)), p),
    ensures
        is_path(e, p) || reaches(e, p[0], f),
    decreases p.len(),
{
    if p.len() > 1 {
        let q = p.drop_last();
        assert forall|k: int| #![trigger q[k]] 0 <= k < q.len() - 1 implies has_edge(e.push((f, t)), q[k], q[k + 1]) by {
            assert(q[k] == p[k] && q[k + 1] == p[k + 1]);
        }
        lemma_grown_prefix(e, f, t, q);
        let a = p[p.len() - 2];
        let b = p.last();
        assert(has_edge(e.push((f, t)), a, b));
        lemma_edge_grown(e, f, t, a, b);
        if is_path(e, q) {
            if has_edge(e, a, b) {
                assert forall|k: int| #![trigger p[k]] 0 <= k < p.len() - 1 implies has_edge(e, p[k], p[k + 1]) by {
                    if k < p.len() - 2 {
                        assert(q[k] == p[k] && q[k + 1] == p[k + 1]);
                    }
                }
            } else {
                assert(q.last() == f);
                assert(is_path(e, q) && q[0] == p[0] && q.last() == f);
            }
        }
    }
}

/// A walk along `e` with `(f, t)` added either keeps to `e` or, after it
/// last takes the added edge, goes from `t` to its end along `e`.
proof fn lemma_grown_suffix(e: Seq<(nat, nat)>, f: nat, t: nat, p: Seq<nat>)
    requires
        is_path(e.push((f, t)), p),
    ensures
        is_path(e, p) || reaches(e, t, p.last()),
    decreases p.len(),
{
    if p.len() > 1 {
        let q = p.drop_first();
        assert forall|k: int| #![trigger q[k]] 0 <= k < q.len() - 1 implies has_edge(e.push((f, t)), q[k], q[k + 1]) by {
            assert(q[k] == p[k + 1] && q[k + 1] == p[k + 2]);
        }
        lemma_grown_suffix(e, f, t, q);
        assert(q.last() == p.last());
        let a = p[0];
        let b = p[1];
        assert(has_edge(e.push((f, t)), a, b));
        lemma_edge_grown(e, f, t, a, b);
        if is_path(e, q) {
            if has_edge(e, a, b) {
                assert forall|k: int| #![trigger p[k]] 0 <= k < p.len() - 1 implies has_edge(e, p[k], p[k + 1]) by {
                    if k > 0 {
                        assert(q[k - 1] == p[k] && q[k] == p[k + 1]);
                    }
                }
            } else {
                assert(q[0] == t);
            }
        }
    }
}

/// Adding the edge `(f, t)` to an acyclic graph keeps it acyclic exactly
/// when `f` cannot already be reached from `t` (so never when `f == t`).
pub proof fn lemma_edge_closes_cycle(e: Seq<(nat, nat)>, f: nat, t: nat)
    requires
        is_acyclic(e),
    ensures
        is_acyclic(e.push((f, t))) <==> !reaches(e, t, f),
{
    let g = e.push((f, t));
    if reaches(e, t, f) {
        let p = choose|p: Seq<nat>| #[trigger] is_path(e, p) && p[0] == t && p.last() == f;
        let q = p.push(t);
        assert forall|k: int| #![trigger q[k]] 0 <= k < q.len() - 1 implies has_edge(g, q[k], q[k + 1]) by {
            if k < p.len() - 1 {
                assert(q[k] == p[k] && q[k + 1] == p[k + 1]);
                lemma_edge_kept(e, f, t, p[k], p[k + 1]);
            } else {
                assert(q[k] == f && q[k + 1] == t);
                assert(g[e.len() as int] == (f, t));
            }
        }
        assert(is_path(g, q) && q.len() >= 2 && q[0] == t && q.last() == t);
        assert(reaches_plus(g, t, t));
    }
    if !is_acyclic(g) {
        let u = choose|u: nat| #[trigger] reaches_plus(g, u, u);
        let p = choose|p: Seq<nat>| #[trigger] is_path(g, p) && p.len() >= 2 && p[0] == u && p.last() == u;
        lemma_grown_prefix(e, f, t, p);
        lemma_grown_suffix(e, f, t, p);
        if is_path(e, p) {
            assert(reaches_plus(e, u, u));
        } else {
            lemma_reaches_trans(e, t, u, f);
        }
    }
}

} // verus!
