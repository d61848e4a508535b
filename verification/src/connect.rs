//! Connectivity of consumers: which consumers a sequence of group joins may
//! have put together. Two consumers are connected when a path leads from one
//! to the other, each step staying within a starting group or following a
//! link (in either direction).
use vstd::prelude::*;

verus! {

/// A link between consumers.
pub type Link = spec_fn(int, int) -> bool;

/// One step of a path: within a starting group, or along a link.
pub open spec fn step_ok(g0: Seq<int>, link: Link, a: int, b: int) -> bool {
    (0 <= a < g0.len() && 0 <= b < g0.len() && g0[a] == g0[b]) || link(a, b) || link(b, a)
}

/// `p` is a path: every consecutive pair is a step.
pub open spec fn is_path(g0: Seq<int>, link: Link, p: Seq<int>) -> bool {
    &&& p.len() > 0
    &&& forall|k: int| 0 <= k < p.len() - 1 ==> step_ok(g0, link, #[trigger] p[k], p[k + 1])
}

/// A path leads from `i` to `j`.
pub open spec fn connected(g0: Seq<int>, link: Link, i: int, j: int) -> bool {
    exists|p: Seq<int>| #[trigger] is_path(g0, link, p) && p[0] == i && p[p.len() - 1] == j
}

/// Every group of `g` holds only consumers connected from `g0` by `link`.
pub open spec fn grouped_by(g0: Seq<int>, link: Link, g: Seq<int>) -> bool {
    &&& g.len() == g0.len()
    &&& forall|i: int, j: int|
        0 <= i < g.len() && 0 <= j < g.len() && #[trigger] g[i] == #[trigger] g[j] ==> connected(
            g0,
            link,
            i,
            j,
        )
}

/// Either of two links.
pub open spec fn either(a: Link, b: Link) -> Link {
    |x: int, y: int| a(x, y) || b(x, y)
}

/// One allowed step connects its two ends.
pub proof fn lemma_connected_step(g0: Seq<int>, link: Link, i: int, j: int)
    requires
        step_ok(g0, link, i, j),
    ensures
        connected(g0, link, i, j),
{
    let p = seq![i, j];
    assert(is_path(g0, link, p));
}

/// Every node is connected to itself.
pub proof fn lemma_connected_refl(g0: Seq<int>, link: Link, i: int)
    ensures
        connected(g0, link, i, i),
{
    let p = seq![i];
    assert(is_path(g0, link, p));
}

/// Connection runs both ways.
pub proof fn lemma_connected_sym(g0: Seq<int>, link: Link, i: int, j: int)
    requires
        connected(g0, link, i, j),
    ensures
        connected(g0, link, j, i),
{
    let p = choose|p: Seq<int>| #[trigger] is_path(g0, link, p) && p[0] == i && p[p.len() - 1] == j;
    let r = p.reverse();
    assert forall|k: int| 0 <= k < r.len() - 1 implies step_ok(g0, link, #[trigger] r[k], r[k + 1]) by {
        let m = p.len() - 2 - k;
        assert(step_ok(g0, link, p[m], p[m + 1]));
        assert(r[k] == p[m + 1]);
        assert(r[k + 1] == p[m]);
    }
    assert(is_path(g0, link, r));
}

/// Connection is transitive.
pub proof fn lemma_connected_concat(g0: Seq<int>, link: Link, i: int, j: int, k: int)
    requires
        connected(g0, link, i, j),
        connected(g0, link, j, k),
    ensures
        connected(g0, link, i, k),
{
    let p = choose|p: Seq<int>| #[trigger] is_path(g0, link, p) && p[0] == i && p[p.len() - 1] == j;
    let q = choose|q: Seq<int>| #[trigger] is_path(g0, link, q) && q[0] == j && q[q.len() - 1] == k;
    let r = p + q.subrange(1, q.len() as int);
    assert forall|m: int| 0 <= m < r.len() - 1 implies step_ok(g0, link, #[trigger] r[m], r[m + 1]) by {
        if m < p.len() - 1 {
            assert(step_ok(g0, link, p[m], p[m + 1]));
        } else if m == p.len() - 1 {
            assert(r[m] == j);
            assert(r[m + 1] == q[1]);
            assert(step_ok(g0, link, q[0], q[1]));
        } else {
            let n = m - p.len() + 1;
            assert(r[m] == q[n]);
            assert(r[m + 1] == q[n + 1]);
            assert(step_ok(g0, link, q[n], q[n + 1]));
        }
    }
    assert(is_path(g0, link, r));
    if q.len() == 1 {
        assert(r[r.len() - 1] == p[p.len() - 1]);
    } else {
        assert(r[r.len() - 1] == q[q.len() - 1]);
    }
}

/// A path along some links is a path along any links that include them.
pub proof fn lemma_connected_wider(g0: Seq<int>, narrow: Link, wide: Link, i: int, j: int)
    requires
        connected(g0, narrow, i, j),
        forall|x: int, y: int| #[trigger] narrow(x, y) ==> wide(x, y),
    ensures
        connected(g0, wide, i, j),
{
    let p = choose|p: Seq<int>| #[trigger] is_path(g0, narrow, p) && p[0] == i && p[p.len() - 1] == j;
    assert forall|k: int| 0 <= k < p.len() - 1 implies step_ok(g0, wide, #[trigger] p[k], p[k + 1]) by {
        assert(step_ok(g0, narrow, p[k], p[k + 1]));
    }
    assert(is_path(g0, wide, p));
}

/// Joining the groups of two connected consumers keeps every group
/// connected: the group of `b` moves into the group of `a`.
pub proof fn lemma_join_grouped(g0: Seq<int>, link: Link, cur: Seq<int>, after: Seq<int>, a: int, b: int)
    requires
        grouped_by(g0, link, cur),
        0 <= a < cur.len(),
        0 <= b < cur.len(),
        connected(g0, link, a, b),
        after.len() == cur.len(),
        forall|j: int|
            0 <= j < cur.len() ==> #[trigger] after[j] == if cur[j] == cur[b] {
                cur[a]
            } else {
                cur[j]
            },
    ensures
        grouped_by(g0, link, after),
{
    assert forall|i: int, j: int|
        0 <= i < after.len() && 0 <= j < after.len() && #[trigger] after[i] == #[trigger] after[j]
            implies connected(g0, link, i, j) by {
        let moved_i = cur[i] == cur[b];
        let moved_j = cur[j] == cur[b];
        if moved_i && moved_j {
            assert(cur[i] == cur[j]);
        } else if moved_i {
            assert(cur[j] == cur[a]);
            assert(connected(g0, link, i, b)) by {
                assert(cur[i] == cur[b]);
            }
            lemma_connected_sym(g0, link, a, b);
            lemma_connected_concat(g0, link, i, b, a);
            assert(connected(g0, link, a, j)) by {
                assert(cur[a] == cur[j]);
            }
            lemma_connected_concat(g0, link, i, a, j);
        } else if moved_j {
            assert(cur[i] == cur[a]);
            assert(connected(g0, link, j, b)) by {
                assert(cur[j] == cur[b]);
            }
            lemma_connected_sym(g0, link, a, b);
            lemma_connected_concat(g0, link, j, b, a);
            assert(connected(g0, link, a, i)) by {
                assert(cur[a] == cur[i]);
            }
            lemma_connected_concat(g0, link, j, a, i);
            lemma_connected_sym(g0, link, j, i);
        } else {
            assert(cur[i] == cur[j]);
        }
    }
}

proof fn lemma_lift_path(g0: Seq<int>, l1: Link, g1: Seq<int>, l2: Link, p: Seq<int>)
    requires
        grouped_by(g0, l1, g1),
        is_path(g1, l2, p),
    ensures
        connected(g0, either(l1, l2), p[0], p[p.len() - 1]),
    decreases p.len(),
{
    let u = either(l1, l2);
    if p.len() == 1 {
        lemma_connected_refl(g0, u, p[0]);
    } else {
        let rest = p.subrange(1, p.len() as int);
        assert forall|k: int| 0 <= k < rest.len() - 1 implies step_ok(g1, l2, #[trigger] rest[k], rest[k + 1]) by {
            assert(step_ok(g1, l2, p[k + 1], p[k + 2]));
        }
        lemma_lift_path(g0, l1, g1, l2, rest);
        assert(step_ok(g1, l2, p[0], p[1]));
        if 0 <= p[0] < g1.len() && 0 <= p[1] < g1.len() && g1[p[0]] == g1[p[1]] {
            assert(connected(g0, l1, p[0], p[1]));
            assert forall|x: int, y: int| #[trigger] l1(x, y) implies u(x, y) by {}
            lemma_connected_wider(g0, l1, u, p[0], p[1]);
        } else {
            assert(u(p[0], p[1]) || u(p[1], p[0]));
            lemma_connected_step(g0, u, p[0], p[1]);
        }
        lemma_connected_concat(g0, u, p[0], p[1], p[p.len() - 1]);
    }
}

/// Two rounds of joins: groups connected by the first links from `g0`, then
/// by the second links from those groups, are connected from `g0` by
/// either link.
pub proof fn lemma_grouped_compose(g0: Seq<int>, l1: Link, g1: Seq<int>, l2: Link, g2: Seq<int>)
    requires
        grouped_by(g0, l1, g1),
        grouped_by(g1, l2, g2),
    ensures
        grouped_by(g0, either(l1, l2), g2),
{
    assert forall|i: int, j: int|
        0 <= i < g2.len() && 0 <= j < g2.len() && #[trigger] g2[i] == #[trigger] g2[j] implies connected(
        g0,
        either(l1, l2),
        i,
        j,
    ) by {
        assert(connected(g1, l2, i, j));
        let p = choose|p: Seq<int>| #[trigger] is_path(g1, l2, p) && p[0] == i && p[p.len() - 1] == j;
        lemma_lift_path(g0, l1, g1, l2, p);
    }
}

/// Consumers start in groups of their own: nothing is connected but along
/// links.
pub proof fn lemma_grouped_start(g0: Seq<int>, link: Link)
    ensures
        grouped_by(g0, link, g0),
{
    assert forall|i: int, j: int|
        0 <= i < g0.len() && 0 <= j < g0.len() && #[trigger] g0[i] == #[trigger] g0[j] implies connected(
        g0,
        link,
        i,
        j,
    ) by {
        lemma_connected_step(g0, link, i, j);
    }
}

/// Wider links keep every group connected.
pub proof fn lemma_grouped_wider(g0: Seq<int>, narrow: Link, wide: Link, g: Seq<int>)
    requires
        grouped_by(g0, narrow, g),
        forall|x: int, y: int| #[trigger] narrow(x, y) ==> wide(x, y),
    ensures
        grouped_by(g0, wide, g),
{
    assert forall|i: int, j: int|
        0 <= i < g.len() && 0 <= j < g.len() && #[trigger] g[i] == #[trigger] g[j] implies connected(
        g0,
        wide,
        i,
        j,
    ) by {
        lemma_connected_wider(g0, narrow, wide, i, j);
    }
}

/// When every step stays within a group of `g`, connected consumers share a
/// group.
pub proof fn lemma_connected_same_group(g0: Seq<int>, link: Link, g: Seq<int>, i: int, j: int)
    requires
        forall|a: int, b: int|
            #[trigger] step_ok(g0, link, a, b) ==> 0 <= a < g.len() && 0 <= b < g.len() && g[a]
                == g[b],
        connected(g0, link, i, j),
        0 <= i < g.len(),
    ensures
        0 <= j < g.len(),
        g[i] == g[j],
{
    let p = choose|p: Seq<int>| #[trigger] is_path(g0, link, p) && p[0] == i && p[p.len() - 1] == j;
    assert forall|k: int| 0 <= k < p.len() implies 0 <= #[trigger] p[k] < g.len() && g[p[k]] == g[i] by {
        lemma_path_prefix_same_group(g0, link, g, p, k);
    }
}

proof fn lemma_path_prefix_same_group(g0: Seq<int>, link: Link, g: Seq<int>, p: Seq<int>, k: int)
    requires
        forall|a: int, b: int|
            #[trigger] step_ok(g0, link, a, b) ==> 0 <= a < g.len() && 0 <= b < g.len() && g[a]
                == g[b],
        is_path(g0, link, p),
        0 <= p[0] < g.len(),
        0 <= k < p.len(),
    ensures
        0 <= p[k] < g.len(),
        g[p[k]] == g[p[0]],
    decreases k,
{
    if k > 0 {
        lemma_path_prefix_same_group(g0, link, g, p, k - 1);
        assert(step_ok(g0, link, p[k - 1], p[k]));
    }
}

} // verus!
