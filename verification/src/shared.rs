//! Sharing of mutable cloth resources between characters. Consumers that
//! share a root, a pose instance or an overlapping mutable span form one
//! group; a group is scaled only when every member asks for the same scale
//! and none is rejected, otherwise all of its members stay at baseline.
use crate::config::UNIT_SCALE_BITS;
use vstd::prelude::*;
use crate::connect::{
    connected, either, grouped_by, lemma_connected_concat, lemma_connected_same_group,
    lemma_connected_step, lemma_grouped_compose, lemma_grouped_start, lemma_grouped_wider,
    lemma_join_grouped, step_ok, Link,
};

verus! {

/// Link `i` stays inside the consumers, leads to a node of the same group at
/// a higher level, and its group's representative is a root.
pub open spec fn node_ok(parent: Seq<usize>, repr: Seq<int>, level: Seq<int>, bound: int, i: int) -> bool {
    let n = parent.len();
    let p = parent[i] as int;
    &&& 0 <= p < n
    &&& 0 <= repr[i] < n
    &&& parent[repr[i]] == repr[i]
    &&& 0 <= level[i] < bound
    &&& p == i ==> repr[i] == i
    &&& p != i ==> repr[p] == repr[i] && level[p] > level[i]
}

/// Consumers joined into groups, with the representative of each group
/// found by following parent links.
pub struct Groups {
    parent: Vec<usize>,
    repr: Ghost<Seq<int>>,
    level: Ghost<Seq<int>>,
    bound: Ghost<int>,
}

impl View for Groups {
    type V = Seq<int>;

    /// The representative of each consumer's group.
    closed spec fn view(&self) -> Seq<int> {
        self.repr@
    }
}

impl Groups {
    /// Every node's parent chain is consistent with its group.
    pub closed spec fn wf(&self) -> bool {
        let n = self.parent@.len();
        &&& self.repr@.len() == n
        &&& self.level@.len() == n
        &&& forall|i: int|
            0 <= i < n ==> #[trigger] node_ok(self.parent@, self.repr@, self.level@, self.bound@, i)
    }

    /// `count` consumers, each alone in its group.
    pub fn new(count: usize) -> (g: Groups)
        ensures
            g.wf(),
            g@.len() == count,
            forall|i: int| 0 <= i < count ==> g@[i] == i,
    {
        let mut parent: Vec<usize> = Vec::new();
        let mut i: usize = 0;
        while i < count
            invariant
                i <= count,
                parent@.len() == i,
                forall|j: int| 0 <= j < i ==> parent@[j] == j,
            decreases count - i,
        {
            parent.push(i);
            i = i + 1;
        }
        Groups {
            parent,
            repr: Ghost(Seq::new(count as nat, |j: int| j)),
            level: Ghost(Seq::new(count as nat, |j: int| 0)),
            bound: Ghost(1),
        }
    }

    /// The number of consumers.
    pub fn len(&self) -> (n: usize)
        requires
            self.wf(),
        ensures
            n == self@.len(),
    {
        self.parent.len()
    }

    /// The representative of `index`'s group. Links on the way are halved;
    /// no group changes.
    pub fn root(&mut self, index: usize) -> (r: usize)
        requires
            old(self).wf(),
            index < old(self)@.len(),
        ensures
            final(self).wf(),
            final(self)@ == old(self)@,
            r == old(self)@[index as int],
    {
        let ghost target = self.repr@[index as int];
        let mut index = index;
        while self.parent[index] != index
            invariant
                self.wf(),
                self.repr@ == old(self).repr@,
                self.level@ == old(self).level@,
                self.bound@ == old(self).bound@,
                index < self.parent@.len(),
                self.parent@.len() == old(self).parent@.len(),
                self.repr@[index as int] == target,
            decreases self.bound@ - self.level@[index as int],
        {
            proof {
                assert(node_ok(self.parent@, self.repr@, self.level@, self.bound@, index as int));
            }
            let p = self.parent[index];
            proof {
                assert(node_ok(self.parent@, self.repr@, self.level@, self.bound@, p as int));
            }
            let gp = self.parent[p];
            proof {
                assert(self.level@[gp as int] > self.level@[index as int]);
                assert(node_ok(self.parent@, self.repr@, self.level@, self.bound@, gp as int));
            }
            let ghost before = self.parent@;
            proof {
                assert(node_ok(before, self.repr@, self.level@, self.bound@, index as int));
                assert(node_ok(before, self.repr@, self.level@, self.bound@, p as int));
                assert(self.parent@[self.repr@[index as int]] == self.repr@[index as int]);
            }
            self.parent.set(index, gp);
            proof {
                assert forall|i: int| 0 <= i < self.parent@.len() implies #[trigger] node_ok(
                    self.parent@,
                    self.repr@,
                    self.level@,
                    self.bound@,
                    i,
                ) by {
                    assert(node_ok(before, self.repr@, self.level@, self.bound@, i));
                    let r = self.repr@[i];
                    assert(before[r] == r);
                    if r == index as int {
                        assert(before[index as int] == index);
                    }
                }
            }
            index = gp;
        }
        proof {
            assert(node_ok(self.parent@, self.repr@, self.level@, self.bound@, index as int));
        }
        index
    }

    /// Joins the groups of `a` and `b`: every member of `b`'s group now
    /// belongs to `a`'s group; no other group changes.
    pub fn join(&mut self, a: usize, b: usize)
        requires
            old(self).wf(),
            a < old(self)@.len(),
            b < old(self)@.len(),
        ensures
            final(self).wf(),
            final(self)@.len() == old(self)@.len(),
            forall|j: int|
                0 <= j < old(self)@.len() ==> #[trigger] final(self)@[j] == if old(self)@[j]
                    == old(self)@[b as int] {
                    old(self)@[a as int]
                } else {
                    old(self)@[j]
                },
    {
        let ra = self.root(a);
        let rb = self.root(b);
        if ra == rb {
            return;
        }
        let ghost old_repr = self.repr@;
        let ghost old_parent = self.parent@;
        let ghost old_bound = self.bound@;
        proof {
            assert(node_ok(self.parent@, self.repr@, self.level@, self.bound@, a as int));
            assert(node_ok(self.parent@, self.repr@, self.level@, self.bound@, b as int));
            assert(node_ok(self.parent@, self.repr@, self.level@, self.bound@, ra as int));
            assert(node_ok(self.parent@, self.repr@, self.level@, self.bound@, rb as int));
        }
        let ghost old_level = self.level@;
        let ghost new_level = old_level.update(
            ra as int,
            if old_level[ra as int] > old_level[rb as int] {
                old_level[ra as int]
            } else {
                old_level[rb as int] + 1
            },
        );
        let ghost new_repr = Seq::new(
            old_repr.len(),
            |j: int|
                if old_repr[j] == rb as int {
                    ra as int
                } else {
                    old_repr[j]
                },
        );
        self.parent.set(rb, ra);
        proof {
            self.repr@ = new_repr;
            self.level@ = new_level;
            self.bound@ = self.bound@ + 1;
            assert forall|i: int| 0 <= i < self.parent@.len() implies #[trigger] node_ok(
                self.parent@,
                self.repr@,
                self.level@,
                self.bound@,
                i,
            ) by {
                assert(node_ok(old_parent, old_repr, old_level, old_bound, i));
                let q = old_parent[i] as int;
                if q != i {
                    assert(node_ok(old_parent, old_repr, old_level, old_bound, q));
                }
                let r = old_repr[i];
                assert(node_ok(old_parent, old_repr, old_level, old_bound, r));
            }
        }
    }

    /// Every representative is one of the consumers.
    pub proof fn lemma_groups_in_range(&self)
        requires
            self.wf(),
        ensures
            forall|j: int| 0 <= j < self@.len() ==> 0 <= #[trigger] self@[j] < self@.len(),
    {
        assert forall|j: int| 0 <= j < self@.len() implies 0 <= #[trigger] self@[j] < self@.len() by {
            assert(node_ok(self.parent@, self.repr@, self.level@, self.bound@, j));
        }
    }

    /// Whether `a` and `b` are in one group.
    pub fn same(&mut self, a: usize, b: usize) -> (s: bool)
        requires
            old(self).wf(),
            a < old(self)@.len(),
            b < old(self)@.len(),
        ensures
            final(self).wf(),
            final(self)@ == old(self)@,
            s == (old(self)@[a as int] == old(self)@[b as int]),
    {
        let ra = self.root(a);
        let rb = self.root(b);
        ra == rb
    }
}

/// After `a` and `b` are joined they share a group, and consumers that
/// shared a group before still do.
pub proof fn joined_consumers_share_a_group(before: Seq<int>, after: Seq<int>, a: int, b: int, i: int, j: int)
    requires
        0 <= a < before.len(),
        0 <= b < before.len(),
        0 <= i < before.len(),
        0 <= j < before.len(),
        after.len() == before.len(),
        forall|k: int|
            0 <= k < before.len() ==> #[trigger] after[k] == if before[k] == before[b] {
                before[a]
            } else {
                before[k]
            },
    ensures
        after[a] == after[b],
        before[i] == before[j] ==> after[i] == after[j],
{
    assert(after[a] == after[b]);
    assert(after[i] == after[i]);
    assert(after[j] == after[j]);
}

/// Spans ordered by begin, then by end.
pub open spec fn span_le(a: (usize, usize), b: (usize, usize)) -> bool {
    a.0 < b.0 || (a.0 == b.0 && a.1 <= b.1)
}

/// Spans in ascending order.
pub open spec fn spans_sorted(s: Seq<(usize, usize)>) -> bool {
    forall|i: int, j: int| 0 <= i < j < s.len() ==> span_le(#[trigger] s[i], #[trigger] s[j])
}

/// `a` and `b` hold the same spans.
pub open spec fn same_spans(a: Seq<(usize, usize)>, b: Seq<(usize, usize)>) -> bool {
    forall|x: (usize, usize)| a.contains(x) <==> b.contains(x)
}

/// The byte at `x` lies in span `s`.
pub open spec fn span_holds(s: (usize, usize), x: int) -> bool {
    s.0 <= x < s.1
}

/// Span `s` lies within span `r`, ends included.
pub open spec fn span_within(s: (usize, usize), r: (usize, usize)) -> bool {
    r.0 <= s.0 && s.1 <= r.1
}

/// `merged` is the union of `input` as ordered, separated spans: each span
/// is well formed and ends before the next begins; each input span lies
/// within one of them; each byte they hold is held by an input span; and
/// each of their bounds is a bound of an input span.
pub open spec fn merged_spans(input: Set<(usize, usize)>, merged: Seq<(usize, usize)>) -> bool {
    &&& forall|j: int| 0 <= j < merged.len() ==> (#[trigger] merged[j]).0 <= merged[j].1
    &&& forall|j: int| 0 <= j < merged.len() - 1 ==> (#[trigger] merged[j]).1 < merged[j + 1].0
    &&& forall|s: (usize, usize)|
        #[trigger] input.contains(s) ==> exists|j: int|
            0 <= j < merged.len() && span_within(s, #[trigger] merged[j])
    &&& forall|j: int, x: int|
        0 <= j < merged.len() && #[trigger] span_holds(merged[j], x) ==> spans_hold(input, x)
    &&& forall|j: int|
        0 <= j < merged.len() ==> spans_begin_at(input, (#[trigger] merged[j]).0) && spans_end_at(
            input,
            merged[j].1,
        )
}

/// Some span of the list `spans` holds byte `x`.
pub open spec fn seq_holds(spans: Seq<(usize, usize)>, x: int) -> bool {
    exists|m: int| 0 <= m < spans.len() && span_holds(#[trigger] spans[m], x)
}

/// Some span of `spans` holds byte `x`.
pub open spec fn spans_hold(spans: Set<(usize, usize)>, x: int) -> bool {
    exists|s: (usize, usize)| #[trigger] spans.contains(s) && span_holds(s, x)
}

/// Some span of `spans` begins at `b`.
pub open spec fn spans_begin_at(spans: Set<(usize, usize)>, b: usize) -> bool {
    exists|s: (usize, usize)| #[trigger] spans.contains(s) && s.0 == b
}

/// Some span of `spans` ends at `e`.
pub open spec fn spans_end_at(spans: Set<(usize, usize)>, e: usize) -> bool {
    exists|s: (usize, usize)| #[trigger] spans.contains(s) && s.1 == e
}

fn span_le_exec(a: (usize, usize), b: (usize, usize)) -> (r: bool)
    ensures
        r == span_le(a, b),
{
    a.0 < b.0 || (a.0 == b.0 && a.1 <= b.1)
}

/// Sorts spans by begin, then end.
pub fn sort_spans(spans: Vec<(usize, usize)>) -> (sorted: Vec<(usize, usize)>)
    ensures
        spans_sorted(sorted@),
        same_spans(sorted@, spans@),
        sorted@.len() == spans@.len(),
{
    let mut sorted: Vec<(usize, usize)> = Vec::new();
    let mut i: usize = 0;
    while i < spans.len()
        invariant
            i <= spans@.len(),
            sorted@.len() == i,
            spans_sorted(sorted@),
            forall|x: (usize, usize)| sorted@.contains(x) <==> spans@.subrange(0, i as int).contains(x),
        decreases spans@.len() - i,
    {
        let x = spans[i];
        let mut pos: usize = 0;
        while pos < sorted.len() && span_le_exec(sorted[pos], x)
            invariant
                pos <= sorted@.len(),
                forall|k: int| 0 <= k < pos ==> span_le(#[trigger] sorted@[k], x),
            decreases sorted@.len() - pos,
        {
            pos = pos + 1;
        }
        let ghost before = sorted@;
        sorted.insert(pos, x);
        proof {
            assert(sorted@ == before.insert(pos as int, x));
            assert forall|a: int, b: int| 0 <= a < b < sorted@.len() implies span_le(
                #[trigger] sorted@[a],
                #[trigger] sorted@[b],
            ) by {
                if pos < before.len() {
                    assert(!span_le(before[pos as int], x));
                }
                if a < pos && b > pos {
                    assert(span_le(before[a], x));
                }
                if a == pos && b > pos {
                    assert(span_le(x, before[b - 1])) by {
                        assert(span_le(before[pos as int], before[b - 1]) || pos == b - 1);
                    }
                }
            }
            assert(spans@.subrange(0, i + 1) == spans@.subrange(0, i as int).push(x));
            assert forall|y: (usize, usize)| sorted@.contains(y) <==> spans@.subrange(
                0,
                i + 1,
            ).contains(y) by {
                if sorted@.contains(y) {
                    let k = choose|k: int| 0 <= k < sorted@.len() && sorted@[k] == y;
                    if k < pos {
                        assert(before[k] == y);
                        assert(before.contains(y));
                    } else if k > pos {
                        assert(before[k - 1] == y);
                        assert(before.contains(y));
                    }
                    assert(spans@.subrange(0, i as int).push(x)[i as int] == x);
                }
                let next = spans@.subrange(0, i + 1);
                if next.contains(y) {
                    let k = choose|k: int| 0 <= k < next.len() && next[k] == y;
                    if k < i {
                        assert(spans@.subrange(0, i as int)[k] == y);
                        assert(before.contains(y));
                        let m = choose|m: int| 0 <= m < before.len() && before[m] == y;
                        if m < pos {
                            assert(sorted@[m] == y);
                        } else {
                            assert(sorted@[m + 1] == y);
                        }
                    } else {
                        assert(sorted@[pos as int] == y);
                    }
                }
            }
        }
        i = i + 1;
    }
    proof {
        assert(spans@.subrange(0, spans@.len() as int) == spans@);
    }
    sorted
}

/// Input span `k` lies within some merged span.
spec fn covered(sorted: Seq<(usize, usize)>, merged: Seq<(usize, usize)>, k: int) -> bool {
    exists|j: int| 0 <= j < merged.len() && span_within(sorted[k], #[trigger] merged[j])
}

/// Byte `x` lies in one of the first `i` input spans.
spec fn held(sorted: Seq<(usize, usize)>, i: int, x: int) -> bool {
    exists|k: int| 0 <= k < i && span_holds(#[trigger] sorted[k], x)
}

/// `b` begins one of the first `i` input spans.
spec fn begins(sorted: Seq<(usize, usize)>, i: int, b: usize) -> bool {
    exists|k: int| 0 <= k < i && (#[trigger] sorted[k]).0 == b
}

/// `e` ends one of the first `i` input spans.
spec fn ends(sorted: Seq<(usize, usize)>, i: int, e: usize) -> bool {
    exists|k: int| 0 <= k < i && (#[trigger] sorted[k]).1 == e
}

/// The merge of the first `i` sorted spans is `merged`.
#[verifier::opaque]
spec fn merge_inv(sorted: Seq<(usize, usize)>, i: int, merged: Seq<(usize, usize)>) -> bool {
    &&& 0 <= i <= sorted.len()
    &&& i > 0 ==> merged.len() > 0
    &&& forall|j: int| 0 <= j < merged.len() ==> (#[trigger] merged[j]).0 <= merged[j].1
    &&& forall|j: int| 0 <= j < merged.len() - 1 ==> (#[trigger] merged[j]).1 < merged[j + 1].0
    &&& forall|k: int| 0 <= k < i ==> #[trigger] covered(sorted, merged, k)
    &&& forall|j: int, x: int|
        0 <= j < merged.len() && #[trigger] span_holds(merged[j], x) ==> held(sorted, i, x)
    &&& forall|j: int|
        0 <= j < merged.len() ==> begins(sorted, i, (#[trigger] merged[j]).0) && ends(
            sorted,
            i,
            merged[j].1,
        )
}

proof fn lemma_merge_extend(
    sorted: Seq<(usize, usize)>,
    i: int,
    before: Seq<(usize, usize)>,
    after: Seq<(usize, usize)>,
)
    requires
        spans_sorted(sorted),
        0 <= i < sorted.len(),
        merge_inv(sorted, i, before),
        before.len() > 0,
        sorted[i].0 <= before[before.len() - 1].1,
        after == before.update(
            before.len() - 1,
            (
                before[before.len() - 1].0,
                if sorted[i].1 > before[before.len() - 1].1 {
                    sorted[i].1
                } else {
                    before[before.len() - 1].1
                },
            ),
        ),
    ensures
        merge_inv(sorted, i + 1, after),
{
    reveal(merge_inv);
    let l = before.len() - 1;
    assert(begins(sorted, i, before[l].0));
    let kb = choose|k: int| 0 <= k < i && (#[trigger] sorted[k]).0 == before[l].0;
    assert(span_le(sorted[kb], sorted[i]));
    assert forall|k: int| 0 <= k < i + 1 implies #[trigger] covered(sorted, after, k) by {
        if k < i {
            assert(covered(sorted, before, k));
            let j = choose|j: int| 0 <= j < before.len() && span_within(sorted[k], #[trigger] before[j]);
            assert(span_within(sorted[k], after[j]));
        } else {
            assert(span_within(sorted[k], after[l]));
        }
    }
    assert forall|j: int, x: int|
        0 <= j < after.len() && #[trigger] span_holds(after[j], x) implies held(sorted, i + 1, x) by {
        if j == l && x >= before[l].1 {
            assert(span_holds(sorted[i], x));
        } else {
            assert(span_holds(before[j], x));
            assert(held(sorted, i, x));
            let k = choose|k: int| 0 <= k < i && span_holds(#[trigger] sorted[k], x);
            assert(span_holds(sorted[k], x));
        }
    }
    assert forall|j: int| 0 <= j < after.len() implies begins(sorted, i + 1, (#[trigger] after[j]).0)
        && ends(sorted, i + 1, after[j].1) by {
        assert(begins(sorted, i, before[j].0));
        assert(ends(sorted, i, before[j].1));
        let k0 = choose|k: int| 0 <= k < i && (#[trigger] sorted[k]).0 == before[j].0;
        assert(sorted[k0].0 == after[j].0);
        if j == l && sorted[i].1 > before[l].1 {
            assert(sorted[i].1 == after[j].1);
        } else {
            let k1 = choose|k: int| 0 <= k < i && (#[trigger] sorted[k]).1 == before[j].1;
            assert(sorted[k1].1 == after[j].1);
        }
    }
}

proof fn lemma_merge_push(
    sorted: Seq<(usize, usize)>,
    i: int,
    before: Seq<(usize, usize)>,
    after: Seq<(usize, usize)>,
)
    requires
        forall|k: int| 0 <= k < sorted.len() ==> (#[trigger] sorted[k]).0 <= sorted[k].1,
        0 <= i < sorted.len(),
        merge_inv(sorted, i, before),
        before.len() > 0 ==> sorted[i].0 > before[before.len() - 1].1,
        after == before.push(sorted[i]),
    ensures
        merge_inv(sorted, i + 1, after),
{
    reveal(merge_inv);
    let n = before.len() as int;
    assert forall|k: int| 0 <= k < i + 1 implies #[trigger] covered(sorted, after, k) by {
        if k < i {
            assert(covered(sorted, before, k));
            let j = choose|j: int| 0 <= j < before.len() && span_within(sorted[k], #[trigger] before[j]);
            assert(span_within(sorted[k], after[j]));
        } else {
            assert(span_within(sorted[k], after[n]));
        }
    }
    assert forall|j: int, x: int|
        0 <= j < after.len() && #[trigger] span_holds(after[j], x) implies held(sorted, i + 1, x) by {
        if j == n {
            assert(span_holds(sorted[i], x));
        } else {
            assert(span_holds(before[j], x));
            assert(held(sorted, i, x));
            let k = choose|k: int| 0 <= k < i && span_holds(#[trigger] sorted[k], x);
            assert(span_holds(sorted[k], x));
        }
    }
    assert forall|j: int| 0 <= j < after.len() implies begins(sorted, i + 1, (#[trigger] after[j]).0)
        && ends(sorted, i + 1, after[j].1) by {
        if j == n {
            assert(sorted[i].0 == after[j].0);
            assert(sorted[i].1 == after[j].1);
        } else {
            assert(begins(sorted, i, before[j].0));
            assert(ends(sorted, i, before[j].1));
            let k0 = choose|k: int| 0 <= k < i && (#[trigger] sorted[k]).0 == before[j].0;
            assert(sorted[k0].0 == after[j].0);
            let k1 = choose|k: int| 0 <= k < i && (#[trigger] sorted[k]).1 == before[j].1;
            assert(sorted[k1].1 == after[j].1);
        }
    }
}

proof fn lemma_merge_done(sorted: Seq<(usize, usize)>, merged: Seq<(usize, usize)>)
    requires
        merge_inv(sorted, sorted.len() as int, merged),
    ensures
        merged_spans(sorted.to_set(), merged),
{
    reveal(merge_inv);
    let input = sorted.to_set();
    assert forall|s: (usize, usize)| #[trigger] input.contains(s) implies exists|j: int|
        0 <= j < merged.len() && span_within(s, #[trigger] merged[j]) by {
        assert(sorted.contains(s));
        let k = choose|k: int| 0 <= k < sorted.len() && sorted[k] == s;
        assert(covered(sorted, merged, k));
    }
    assert forall|j: int, x: int|
        0 <= j < merged.len() && #[trigger] span_holds(merged[j], x) implies spans_hold(input, x) by {
        assert(held(sorted, sorted.len() as int, x));
        let k = choose|k: int| 0 <= k < sorted.len() && span_holds(#[trigger] sorted[k], x);
        assert(sorted.contains(sorted[k]));
        assert(input.contains(sorted[k]));
    }
    assert forall|j: int| 0 <= j < merged.len() implies spans_begin_at(
        input,
        (#[trigger] merged[j]).0,
    ) && spans_end_at(input, merged[j].1) by {
        assert(begins(sorted, sorted.len() as int, merged[j].0));
        let k0 = choose|k: int| 0 <= k < sorted.len() && (#[trigger] sorted[k]).0 == merged[j].0;
        assert(sorted.contains(sorted[k0]));
        assert(input.contains(sorted[k0]));
        assert(ends(sorted, sorted.len() as int, merged[j].1));
        let k1 = choose|k: int| 0 <= k < sorted.len() && (#[trigger] sorted[k]).1 == merged[j].1;
        assert(sorted.contains(sorted[k1]));
        assert(input.contains(sorted[k1]));
    }
}

/// Merges sorted spans: a span that begins at or before the end of the
/// previous merged span extends it.
pub fn merge_sorted_spans(sorted: &Vec<(usize, usize)>) -> (merged: Vec<(usize, usize)>)
    requires
        spans_sorted(sorted@),
        forall|k: int| 0 <= k < sorted@.len() ==> (#[trigger] sorted@[k]).0 <= sorted@[k].1,
    ensures
        merged_spans(sorted@.to_set(), merged@),
{
    let mut merged: Vec<(usize, usize)> = Vec::new();
    let mut i: usize = 0;
    assert(merge_inv(sorted@, 0, merged@)) by {
        reveal(merge_inv);
    }
    while i < sorted.len()
        invariant
            i <= sorted@.len(),
            spans_sorted(sorted@),
            forall|k: int| 0 <= k < sorted@.len() ==> (#[trigger] sorted@[k]).0 <= sorted@[k].1,
            merge_inv(sorted@, i as int, merged@),
        decreases sorted@.len() - i,
    {
        let (begin, end) = sorted[i];
        let n = merged.len();
        let ghost before = merged@;
        if n > 0 && begin <= merged[n - 1].1 {
            let last = merged[n - 1];
            let grown = if end > last.1 {
                end
            } else {
                last.1
            };
            merged.set(n - 1, (last.0, grown));
            proof {
                lemma_merge_extend(sorted@, i as int, before, merged@);
            }
        } else {
            merged.push((begin, end));
            proof {
                lemma_merge_push(sorted@, i as int, before, merged@);
            }
        }
        i = i + 1;
    }
    proof {
        lemma_merge_done(sorted@, merged@);
    }
    merged
}

/// A mutable array of a resource: `count` elements of `stride` bytes.
#[derive(Clone, Copy, Debug, PartialEq, Eq, Structural)]
pub struct ArraySpan {
    pub begin: usize,
    pub count: usize,
    pub stride: usize,
}

/// The spans of the non-empty arrays, in order.
pub open spec fn array_spans(arrays: Seq<ArraySpan>) -> Seq<(usize, usize)>
    decreases arrays.len(),
{
    if arrays.len() == 0 {
        Seq::empty()
    } else {
        let a = arrays.last();
        let prev = array_spans(arrays.drop_last());
        if a.count == 0 {
            prev
        } else {
            prev.push((a.begin, (a.begin + a.count * a.stride) as usize))
        }
    }
}

/// The spans after the first `k` fields: a field that no span holds yet
/// gets a span of its own four bytes.
pub open spec fn field_spans(spans: Seq<(usize, usize)>, fields: Seq<usize>, k: nat) -> Seq<
    (usize, usize),
>
    decreases k,
{
    if k == 0 || k > fields.len() {
        spans
    } else {
        let prev = field_spans(spans, fields, (k - 1) as nat);
        let f = fields[k - 1];
        if seq_holds(prev, f as int) {
            prev
        } else {
            prev.push((f, (f + 4) as usize))
        }
    }
}

/// The spans a resource's arrays and inline fields cover.
pub open spec fn resource_input(arrays: Seq<ArraySpan>, fields: Seq<usize>) -> Seq<(usize, usize)> {
    field_spans(array_spans(arrays), fields, fields.len())
}

/// Every array ends within the address space.
pub open spec fn arrays_fit(arrays: Seq<ArraySpan>) -> bool {
    forall|i: int|
        0 <= i < arrays.len() ==> (#[trigger] arrays[i]).begin + arrays[i].count * arrays[i].stride
            <= usize::MAX
}

/// Every span begins at or before its end.
pub open spec fn spans_ordered(spans: Seq<(usize, usize)>) -> bool {
    forall|k: int| 0 <= k < spans.len() ==> (#[trigger] spans[k]).0 <= spans[k].1
}

proof fn lemma_array_spans_ordered(arrays: Seq<ArraySpan>)
    requires
        arrays_fit(arrays),
    ensures
        spans_ordered(array_spans(arrays)),
    decreases arrays.len(),
{
    if arrays.len() > 0 {
        let a = arrays.last();
        assert(arrays_fit(arrays.drop_last())) by {
            assert forall|i: int| 0 <= i < arrays.drop_last().len() implies (#[trigger] arrays.drop_last()[i]).begin
                + arrays.drop_last()[i].count * arrays.drop_last()[i].stride <= usize::MAX by {
                assert(arrays.drop_last()[i] == arrays[i]);
            }
        }
        lemma_array_spans_ordered(arrays.drop_last());
        assert(arrays[arrays.len() - 1] == a);
        assert(a.count * a.stride >= 0) by (nonlinear_arith);
    }
}

fn array_span_list(arrays: &Vec<ArraySpan>) -> (list: Vec<(usize, usize)>)
    requires
        arrays_fit(arrays@),
    ensures
        list@ == array_spans(arrays@),
        spans_ordered(list@),
{
    let mut list: Vec<(usize, usize)> = Vec::new();
    let mut i: usize = 0;
    while i < arrays.len()
        invariant
            i <= arrays@.len(),
            arrays_fit(arrays@),
            list@ == array_spans(arrays@.subrange(0, i as int)),
        decreases arrays@.len() - i,
    {
        let a = arrays[i];
        proof {
            assert(arrays@.subrange(0, i + 1).drop_last() == arrays@.subrange(0, i as int));
            assert(arrays@.subrange(0, i + 1).last() == a);
            assert(a.begin + a.count * a.stride <= usize::MAX);
            assert(a.count * a.stride >= 0) by (nonlinear_arith);
        }
        if a.count != 0 {
            list.push((a.begin, a.begin + a.count * a.stride));
        }
        i = i + 1;
    }
    proof {
        assert(arrays@.subrange(0, arrays@.len() as int) == arrays@);
        lemma_array_spans_ordered(arrays@);
    }
    list
}

fn spans_hold_exec(list: &Vec<(usize, usize)>, f: usize) -> (held: bool)
    ensures
        held == seq_holds(list@, f as int),
{
    let mut held = false;
    let mut j: usize = 0;
    while j < list.len()
        invariant
            j <= list@.len(),
            held == exists|m: int| 0 <= m < j && span_holds(#[trigger] list@[m], f as int),
        decreases list@.len() - j,
    {
        if f >= list[j].0 && f < list[j].1 {
            held = true;
        }
        j = j + 1;
    }
    held
}

fn add_field_spans(list: &mut Vec<(usize, usize)>, fields: &Vec<usize>)
    requires
        spans_ordered(old(list)@),
        forall|i: int| 0 <= i < fields@.len() ==> #[trigger] fields@[i] + 4 <= usize::MAX,
    ensures
        final(list)@ == field_spans(old(list)@, fields@, fields@.len()),
        spans_ordered(final(list)@),
{
    let ghost base = list@;
    let mut k: usize = 0;
    while k < fields.len()
        invariant
            k <= fields@.len(),
            forall|i: int| 0 <= i < fields@.len() ==> #[trigger] fields@[i] + 4 <= usize::MAX,
            list@ == field_spans(base, fields@, k as nat),
            spans_ordered(list@),
        decreases fields@.len() - k,
    {
        let f = fields[k];
        let held = spans_hold_exec(list, f);
        if !held {
            list.push((f, f + 4));
        }
        k = k + 1;
    }
}

proof fn lemma_sorted_spans_ordered(sorted: Seq<(usize, usize)>, input: Seq<(usize, usize)>)
    requires
        same_spans(sorted, input),
        spans_ordered(input),
    ensures
        spans_ordered(sorted),
{
    assert forall|m: int| 0 <= m < sorted.len() implies (#[trigger] sorted[m]).0 <= sorted[m].1 by {
        assert(sorted.contains(sorted[m]));
        assert(input.contains(sorted[m]));
        let n = choose|n: int| 0 <= n < input.len() && input[n] == sorted[m];
    }
}

proof fn lemma_same_spans_set(a: Seq<(usize, usize)>, b: Seq<(usize, usize)>)
    requires
        same_spans(a, b),
    ensures
        a.to_set() == b.to_set(),
{
    assert(a.to_set() =~= b.to_set());
}

/// The merged spans of a resource: each non-empty array, and each inline
/// field that no earlier span holds, merged into ordered separated spans.
pub fn resource_spans(arrays: &Vec<ArraySpan>, fields: &Vec<usize>) -> (spans: Vec<(usize, usize)>)
    requires
        arrays_fit(arrays@),
        forall|i: int| 0 <= i < fields@.len() ==> #[trigger] fields@[i] + 4 <= usize::MAX,
    ensures
        merged_spans(resource_input(arrays@, fields@).to_set(), spans@),
{
    let mut list = array_span_list(arrays);
    add_field_spans(&mut list, fields);
    let ghost input = list@;
    let sorted = sort_spans(list);
    proof {
        lemma_sorted_spans_ordered(sorted@, input);
    }
    let merged = merge_sorted_spans(&sorted);
    proof {
        lemma_same_spans_set(sorted@, input);
    }
    merged
}

/// Owned spans ordered by begin, then end, then owner.
pub open spec fn owned_le(a: (usize, usize, usize), b: (usize, usize, usize)) -> bool {
    a.0 < b.0 || (a.0 == b.0 && (a.1 < b.1 || (a.1 == b.1 && a.2 <= b.2)))
}

/// Owned spans in ascending order.
pub open spec fn owned_sorted(s: Seq<(usize, usize, usize)>) -> bool {
    forall|i: int, j: int| 0 <= i < j < s.len() ==> owned_le(#[trigger] s[i], #[trigger] s[j])
}

fn owned_le_exec(a: (usize, usize, usize), b: (usize, usize, usize)) -> (r: bool)
    ensures
        r == owned_le(a, b),
{
    a.0 < b.0 || (a.0 == b.0 && (a.1 < b.1 || (a.1 == b.1 && a.2 <= b.2)))
}

/// Sorts owned spans by begin, then end, then owner.
pub fn sort_owned_spans(spans: Vec<(usize, usize, usize)>) -> (sorted: Vec<(usize, usize, usize)>)
    ensures
        owned_sorted(sorted@),
        forall|x: (usize, usize, usize)| sorted@.contains(x) <==> spans@.contains(x),
        sorted@.len() == spans@.len(),
{
    let mut sorted: Vec<(usize, usize, usize)> = Vec::new();
    let mut i: usize = 0;
    while i < spans.len()
        invariant
            i <= spans@.len(),
            sorted@.len() == i,
            owned_sorted(sorted@),
            forall|x: (usize, usize, usize)|
                sorted@.contains(x) <==> spans@.subrange(0, i as int).contains(x),
        decreases spans@.len() - i,
    {
        let x = spans[i];
        let mut pos: usize = 0;
        while pos < sorted.len() && owned_le_exec(sorted[pos], x)
            invariant
                pos <= sorted@.len(),
                forall|k: int| 0 <= k < pos ==> owned_le(#[trigger] sorted@[k], x),
            decreases sorted@.len() - pos,
        {
            pos = pos + 1;
        }
        let ghost before = sorted@;
        sorted.insert(pos, x);
        proof {
            assert(sorted@ == before.insert(pos as int, x));
            assert forall|a: int, b: int| 0 <= a < b < sorted@.len() implies owned_le(
                #[trigger] sorted@[a],
                #[trigger] sorted@[b],
            ) by {
                if pos < before.len() {
                    assert(!owned_le(before[pos as int], x));
                }
                if a < pos && b > pos {
                    assert(owned_le(before[a], x));
                }
                if a == pos && b > pos {
                    assert(owned_le(x, before[b - 1])) by {
                        assert(owned_le(before[pos as int], before[b - 1]) || pos == b - 1);
                    }
                }
            }
            assert(spans@.subrange(0, i + 1) == spans@.subrange(0, i as int).push(x));
            assert forall|y: (usize, usize, usize)| sorted@.contains(y) <==> spans@.subrange(
                0,
                i + 1,
            ).contains(y) by {
                if sorted@.contains(y) {
                    let k = choose|k: int| 0 <= k < sorted@.len() && sorted@[k] == y;
                    if k < pos {
                        assert(before[k] == y);
                        assert(before.contains(y));
                    } else if k > pos {
                        assert(before[k - 1] == y);
                        assert(before.contains(y));
                    }
                    assert(spans@.subrange(0, i as int).push(x)[i as int] == x);
                }
                let next = spans@.subrange(0, i + 1);
                if next.contains(y) {
                    let k = choose|k: int| 0 <= k < next.len() && next[k] == y;
                    if k < i {
                        assert(spans@.subrange(0, i as int)[k] == y);
                        assert(before.contains(y));
                        let m = choose|m: int| 0 <= m < before.len() && before[m] == y;
                        if m < pos {
                            assert(sorted@[m] == y);
                        } else {
                            assert(sorted@[m + 1] == y);
                        }
                    } else {
                        assert(sorted@[pos as int] == y);
                    }
                }
            }
        }
        i = i + 1;
    }
    proof {
        assert(spans@.subrange(0, spans@.len() as int) == spans@);
    }
    sorted
}

/// Two spans share a byte.
pub open spec fn spans_overlap(a: (usize, usize, usize), b: (usize, usize, usize)) -> bool {
    a.0 < b.1 && b.0 < a.1
}

/// Every group of `before` lies within one group of `after`.
pub open spec fn groups_merged(before: Seq<int>, after: Seq<int>) -> bool {
    &&& after.len() == before.len()
    &&& forall|i: int, j: int|
        0 <= i < before.len() && 0 <= j < before.len() && #[trigger] before[i] == #[trigger] before[j]
            ==> after[i] == after[j]
}

/// The owners of two spans of `spans` that share a byte are linked.
pub open spec fn overlap_link(spans: Seq<(usize, usize, usize)>) -> Link {
    |a: int, b: int|
        exists|p: (usize, usize, usize), q: (usize, usize, usize)|
            #[trigger] spans.contains(p) && #[trigger] spans.contains(q) && spans_overlap(p, q) && a
                == p.2 && b == q.2
}

/// Joins the owners of overlapping spans: after the call, the owners of any
/// two spans that share a byte are in one group, and a group holds only
/// consumers connected through earlier groups and overlaps.
pub fn join_overlapping(groups: &mut Groups, spans: Vec<(usize, usize, usize)>)
    requires
        old(groups).wf(),
        forall|k: int| 0 <= k < spans@.len() ==> (#[trigger] spans@[k]).2 < old(groups)@.len(),
        forall|k: int| 0 <= k < spans@.len() ==> (#[trigger] spans@[k]).0 <= spans@[k].1,
    ensures
        final(groups).wf(),
        groups_merged(old(groups)@, final(groups)@),
        grouped_by(old(groups)@, overlap_link(spans@), final(groups)@),
        forall|p: (usize, usize, usize), q: (usize, usize, usize)|
            #![trigger spans@.contains(p), spans@.contains(q)]
            spans@.contains(p) && spans@.contains(q) && spans_overlap(p, q) ==> final(groups)@[p.2
                as int] == final(groups)@[q.2 as int],
{
    let ghost given = spans@;
    let sorted = sort_owned_spans(spans);
    proof {
        assert forall|k: int| 0 <= k < sorted@.len() implies (#[trigger] sorted@[k]).2 < groups@.len() by {
            assert(sorted@.contains(sorted@[k]));
            assert(given.contains(sorted@[k]));
            let m = choose|m: int| 0 <= m < given.len() && given[m] == sorted@[k];
        }
    }
    let ghost start = groups@;
    let ghost link = overlap_link(given);
    proof {
        lemma_grouped_start(start, link);
        assert forall|k: int| 0 <= k < sorted@.len() implies (#[trigger] sorted@[k]).0 <= sorted@[k].1 by {
            assert(sorted@.contains(sorted@[k]));
            assert(given.contains(sorted@[k]));
            let m = choose|m: int| 0 <= m < given.len() && given[m] == sorted@[k];
        }
    }
    let mut previous: Option<(usize, usize)> = None;
    let ghost mut cluster: int = 0;
    let ghost mut widest: int = 0;
    let mut i: usize = 0;
    while i < sorted.len()
        invariant
            i <= sorted@.len(),
            owned_sorted(sorted@),
            forall|x: (usize, usize, usize)| sorted@.contains(x) <==> spans@.contains(x),
            given == spans@,
            forall|k: int| 0 <= k < sorted@.len() ==> (#[trigger] sorted@[k]).2 < groups@.len(),
            forall|k: int| 0 <= k < sorted@.len() ==> (#[trigger] sorted@[k]).0 <= sorted@[k].1,
            groups.wf(),
            groups@.len() == start.len(),
            groups_merged(start, groups@),
            link == overlap_link(given),
            grouped_by(start, link, groups@),
            i == 0 <==> previous is None,
            previous matches Some((end, owner)) ==> {
                &&& owner < groups@.len()
                &&& 0 <= cluster <= widest < i
                &&& sorted@[widest].1 == end
                &&& forall|k: int|
                    cluster <= k < i ==> groups@[(#[trigger] sorted@[k]).2 as int]
                        == groups@[owner as int] && sorted@[k].1 <= end
                &&& forall|k: int| 0 <= k < cluster ==> (#[trigger] sorted@[k]).1 <= sorted@[cluster].0
            },
            forall|k: int, l: int|
                0 <= k < l < i && spans_overlap(#[trigger] sorted@[k], #[trigger] sorted@[l])
                    ==> groups@[sorted@[k].2 as int] == groups@[sorted@[l].2 as int],
        decreases sorted@.len() - i,
    {
        let (begin, end, owner) = sorted[i];
        let ghost before = groups@;
        match previous {
            Some((previous_end, previous_owner)) if begin < previous_end => {
                proof {
                    let w = sorted@[widest];
                    assert(owned_le(w, sorted@[i as int]));
                    assert(spans_overlap(w, sorted@[i as int]));
                    assert(sorted@.contains(w));
                    assert(sorted@.contains(sorted@[i as int]));
                    assert(link(w.2 as int, owner as int));
                    assert(step_ok(start, link, owner as int, w.2 as int));
                    lemma_connected_step(start, link, owner as int, w.2 as int);
                    assert(before[w.2 as int] == before[previous_owner as int]);
                    assert(connected(start, link, w.2 as int, previous_owner as int));
                    lemma_connected_concat(start, link, owner as int, w.2 as int, previous_owner as int);
                }
                groups.join(owner, previous_owner);
                proof {
                    lemma_join_grouped(start, link, before, groups@, owner as int, previous_owner as int);
                    if end > previous_end {
                        widest = i as int;
                    }
                }
                previous = Some((if previous_end > end { previous_end } else { end }, previous_owner));
                proof {
                    assert forall|k: int, l: int|
                        0 <= k < l < i + 1 && spans_overlap(#[trigger] sorted@[k], #[trigger] sorted@[l])
                            implies groups@[sorted@[k].2 as int] == groups@[sorted@[l].2 as int] by {
                        if l < i {
                            assert(before[sorted@[k].2 as int] == before[sorted@[l].2 as int]);
                        } else if k >= cluster {
                            assert(before[sorted@[k].2 as int] == before[previous_owner as int]);
                        } else {
                            assert(owned_le(sorted@[cluster], sorted@[l]));
                            assert(sorted@[k].1 <= sorted@[cluster].0);
                        }
                    }
                    assert forall|k: int|
                        cluster <= k < i + 1 implies groups@[(#[trigger] sorted@[k]).2 as int]
                            == groups@[previous_owner as int] && sorted@[k].1 <= (if previous_end > end {
                            previous_end
                        } else {
                            end
                        }) by {
                        if k < i {
                            assert(before[sorted@[k].2 as int] == before[previous_owner as int]);
                        }
                    }
                    assert forall|a: int, b: int|
                        0 <= a < start.len() && 0 <= b < start.len() && #[trigger] start[a]
                            == #[trigger] start[b] implies groups@[a] == groups@[b] by {
                        assert(before[a] == before[b]);
                    }
                }
            },
            _ => {
                proof {
                    assert forall|k: int| 0 <= k < i implies (#[trigger] sorted@[k]).1 <= begin by {
                        if let Some((previous_end, _)) = previous {
                            if k >= cluster {
                            } else {
                                assert(owned_le(sorted@[cluster], sorted@[i as int]));
                            }
                        }
                    }
                    cluster = i as int;
                    widest = i as int;
                }
                previous = Some((end, owner));
            },
        }
        i = i + 1;
    }
    proof {
        assert forall|p: (usize, usize, usize), q: (usize, usize, usize)|
            #![trigger spans@.contains(p), spans@.contains(q)]
            spans@.contains(p) && spans@.contains(q) && spans_overlap(p, q) implies groups@[p.2
                as int] == groups@[q.2 as int] by {
            assert(sorted@.contains(p));
            assert(sorted@.contains(q));
            let k = choose|k: int| 0 <= k < sorted@.len() && sorted@[k] == p;
            let l = choose|l: int| 0 <= l < sorted@.len() && sorted@[l] == q;
            if k < l {
                assert(spans_overlap(sorted@[k], sorted@[l]));
            } else if l < k {
                assert(spans_overlap(sorted@[l], sorted@[k]));
            }
        }
    }
}

/// Consumer `j` uses pose instance `key`.
pub open spec fn uses_pose(poses: Seq<[usize; 3]>, j: int, key: usize) -> bool {
    exists|b: int| 0 <= b < 3 && poses[j][b] == key
}

/// Consumer `i` uses a pose instance that an earlier consumer uses too.
pub open spec fn pose_shared_earlier(poses: Seq<[usize; 3]>, i: int) -> bool {
    exists|a: int, j: int|
        0 <= a < 3 && 0 <= j < i && poses[i][a] != 0 && #[trigger] uses_pose(poses, j, poses[i][a])
}

/// Key `b` of consumer `j` has been visited before key `a` of consumer `i`.
pub open spec fn visited(j: int, b: int, i: int, a: int) -> bool {
    j < i || (j == i && b < a)
}

/// Consumer `i` uses, among its first `a` keys, one that an earlier
/// consumer uses too.
pub open spec fn shared_upto(poses: Seq<[usize; 3]>, i: int, a: int) -> bool {
    exists|a2: int, j: int|
        0 <= a2 < a && 0 <= j < i && poses[i][a2] != 0 && #[trigger] uses_pose(poses, j, poses[i][a2])
}

#[verifier::opaque]
spec fn pose_inv(
    poses: Seq<[usize; 3]>,
    i: int,
    a: int,
    entries: Seq<(usize, usize)>,
    groups: Seq<int>,
    shared_now: bool,
) -> bool {
    &&& forall|m: int|
        0 <= m < entries.len() ==> {
            let (key, owner) = #[trigger] entries[m];
            &&& key != 0
            &&& owner <= i
            &&& owner < poses.len()
            &&& uses_pose(poses, owner as int, key)
            &&& owner == i ==> ((exists|j: int| 0 <= j < i && #[trigger] uses_pose(poses, j, key))
                ==> shared_now)
        }
    &&& forall|m: int, n: int|
        0 <= m < n < entries.len() ==> (#[trigger] entries[m]).0 != (#[trigger] entries[n]).0
    &&& forall|j: int, b: int|
        0 <= j < poses.len() && 0 <= b < 3 && visited(j, b, i, a) && #[trigger] poses[j][b] != 0
            ==> exists|m: int|
            0 <= m < entries.len() && (#[trigger] entries[m]).0 == poses[j][b] && groups[j]
                == groups[entries[m].1 as int]
}

proof fn lemma_pose_start(poses: Seq<[usize; 3]>, groups: Seq<int>)
    ensures
        pose_inv(poses, 0, 0, Seq::empty(), groups, false),
{
    reveal(pose_inv);
}

proof fn lemma_pose_entry(
    poses: Seq<[usize; 3]>,
    i: int,
    a: int,
    entries: Seq<(usize, usize)>,
    groups: Seq<int>,
    shared_now: bool,
    m: int,
)
    requires
        pose_inv(poses, i, a, entries, groups, shared_now),
        0 <= m < entries.len(),
    ensures
        entries[m].1 <= i,
        entries[m].1 < poses.len(),
        entries[m].0 != 0,
        uses_pose(poses, entries[m].1 as int, entries[m].0),
{
    reveal(pose_inv);
}

proof fn lemma_pose_zero(
    poses: Seq<[usize; 3]>,
    i: int,
    a: int,
    entries: Seq<(usize, usize)>,
    groups: Seq<int>,
    shared_now: bool,
)
    requires
        0 <= i < poses.len(),
        0 <= a < 3,
        poses[i][a] == 0,
        pose_inv(poses, i, a, entries, groups, shared_now),
        shared_now == shared_upto(poses, i, a),
    ensures
        pose_inv(poses, i, a + 1, entries, groups, shared_now),
        shared_now == shared_upto(poses, i, a + 1),
{
    reveal(pose_inv);
    if shared_upto(poses, i, a + 1) {
        let (a2, j) = choose|a2: int, j: int|
            0 <= a2 < a + 1 && 0 <= j < i && poses[i][a2] != 0 && #[trigger] uses_pose(
                poses,
                j,
                poses[i][a2],
            );
        assert(a2 < a);
    }
}

proof fn lemma_pose_new(
    poses: Seq<[usize; 3]>,
    i: int,
    a: int,
    old_entries: Seq<(usize, usize)>,
    entries: Seq<(usize, usize)>,
    groups: Seq<int>,
    shared_now: bool,
)
    requires
        0 <= i < poses.len() <= usize::MAX,
        0 <= a < 3,
        poses[i][a] != 0,
        forall|n: int| 0 <= n < old_entries.len() ==> (#[trigger] old_entries[n]).0 != poses[i][a],
        entries == old_entries.push((poses[i][a], i as usize)),
        pose_inv(poses, i, a, old_entries, groups, shared_now),
        shared_now == shared_upto(poses, i, a),
    ensures
        pose_inv(poses, i, a + 1, entries, groups, shared_now),
        shared_now == shared_upto(poses, i, a + 1),
{
    reveal(pose_inv);
    let key = poses[i][a];
    assert(uses_pose(poses, i, key));
    assert forall|j: int| 0 <= j < i implies !#[trigger] uses_pose(poses, j, key) by {
        if uses_pose(poses, j, key) {
            let b = choose|b: int| 0 <= b < 3 && poses[j][b] == key;
            assert(visited(j, b, i, a));
            let m = choose|m: int|
                0 <= m < old_entries.len() && (#[trigger] old_entries[m]).0 == poses[j][b] && groups[j]
                    == groups[old_entries[m].1 as int];
        }
    }
    if shared_upto(poses, i, a + 1) {
        let (a2, j) = choose|a2: int, j: int|
            0 <= a2 < a + 1 && 0 <= j < i && poses[i][a2] != 0 && #[trigger] uses_pose(
                poses,
                j,
                poses[i][a2],
            );
        assert(a2 < a);
    }
    assert forall|j: int, b: int|
        0 <= j < poses.len() && 0 <= b < 3 && visited(j, b, i, a + 1) && #[trigger] poses[j][b]
            != 0 implies exists|m: int|
        0 <= m < entries.len() && (#[trigger] entries[m]).0 == poses[j][b] && groups[j]
            == groups[entries[m].1 as int] by {
        if j == i && b == a {
            assert(entries[old_entries.len() as int].0 == poses[j][b]);
        } else {
            assert(visited(j, b, i, a));
            let m = choose|m: int|
                0 <= m < old_entries.len() && (#[trigger] old_entries[m]).0 == poses[j][b] && groups[j]
                    == groups[old_entries[m].1 as int];
            assert(entries[m] == old_entries[m]);
        }
    }
}

proof fn lemma_pose_found(
    poses: Seq<[usize; 3]>,
    i: int,
    a: int,
    old_entries: Seq<(usize, usize)>,
    entries: Seq<(usize, usize)>,
    before: Seq<int>,
    after: Seq<int>,
    old_shared: bool,
    shared_now: bool,
    f: int,
)
    requires
        0 <= i < poses.len() <= usize::MAX,
        poses.len() == before.len(),
        0 <= a < 3,
        poses[i][a] != 0,
        0 <= f < old_entries.len(),
        old_entries[f].0 == poses[i][a],
        entries == old_entries.update(f, (poses[i][a], i as usize)),
        pose_inv(poses, i, a, old_entries, before, old_shared),
        old_shared == shared_upto(poses, i, a),
        old_entries[f].1 != i ==> shared_now && after.len() == before.len() && forall|j: int|
            0 <= j < before.len() ==> #[trigger] after[j] == if before[j] == before[i] {
                before[old_entries[f].1 as int]
            } else {
                before[j]
            },
        old_entries[f].1 == i ==> shared_now == old_shared && after == before,
    ensures
        pose_inv(poses, i, a + 1, entries, after, shared_now),
        shared_now == shared_upto(poses, i, a + 1),
        groups_merged(before, after),
{
    reveal(pose_inv);
    let key = poses[i][a];
    let previous = old_entries[f].1 as int;
    assert(uses_pose(poses, previous, key));
    if previous != i {
        assert(shared_upto(poses, i, a + 1)) by {
            assert(uses_pose(poses, previous, poses[i][a]));
        }
    } else {
        if shared_upto(poses, i, a + 1) {
            let (a2, j) = choose|a2: int, j: int|
                0 <= a2 < a + 1 && 0 <= j < i && poses[i][a2] != 0 && #[trigger] uses_pose(
                    poses,
                    j,
                    poses[i][a2],
                );
            if a2 == a {
                assert(exists|j: int| 0 <= j < i && #[trigger] uses_pose(poses, j, key));
            } else {
                assert(shared_upto(poses, i, a));
            }
        }
    }
    assert(uses_pose(poses, i, key));
    assert forall|m: int| 0 <= m < entries.len() implies {
        let (key2, owner) = #[trigger] entries[m];
        &&& key2 != 0
        &&& owner <= i
        &&& owner < poses.len()
        &&& uses_pose(poses, owner as int, key2)
        &&& owner == i ==> ((exists|j: int| 0 <= j < i && #[trigger] uses_pose(poses, j, key2))
            ==> shared_now)
    } by {
        let (key2, owner) = old_entries[m];
        if m != f && owner == i && (exists|j: int| 0 <= j < i && #[trigger] uses_pose(poses, j, key2)) {
            assert(old_shared);
        }
    }
    assert forall|m: int, n: int| 0 <= m < n < entries.len() implies (#[trigger] entries[m]).0
        != (#[trigger] entries[n]).0 by {
        assert(old_entries[m].0 != old_entries[n].0);
    }
    assert forall|j: int, b: int|
        0 <= j < poses.len() && 0 <= b < 3 && visited(j, b, i, a + 1) && #[trigger] poses[j][b]
            != 0 implies exists|m: int|
        0 <= m < entries.len() && (#[trigger] entries[m]).0 == poses[j][b] && after[j]
            == after[entries[m].1 as int] by {
        if j == i && b == a {
            assert(entries[f].0 == poses[j][b]);
        } else {
            assert(visited(j, b, i, a));
            let m = choose|m: int|
                0 <= m < old_entries.len() && (#[trigger] old_entries[m]).0 == poses[j][b]
                    && before[j] == before[old_entries[m].1 as int];
            if m == f {
                assert(entries[f].0 == poses[j][b]);
            } else {
                assert(entries[m] == old_entries[m]);
            }
        }
    }
}

proof fn lemma_pose_next(
    poses: Seq<[usize; 3]>,
    i: int,
    entries: Seq<(usize, usize)>,
    groups: Seq<int>,
    shared_now: bool,
)
    requires
        0 <= i < poses.len(),
        pose_inv(poses, i, 3, entries, groups, shared_now),
        shared_now == shared_upto(poses, i, 3),
    ensures
        pose_inv(poses, i + 1, 0, entries, groups, false),
        shared_now == pose_shared_earlier(poses, i),
{
    reveal(pose_inv);
    assert forall|j: int, b: int|
        0 <= j < poses.len() && 0 <= b < 3 && visited(j, b, i + 1, 0) && #[trigger] poses[j][b]
            != 0 implies exists|m: int|
        0 <= m < entries.len() && (#[trigger] entries[m]).0 == poses[j][b] && groups[j]
            == groups[entries[m].1 as int] by {
        assert(visited(j, b, i, 3));
    }
}

proof fn lemma_pose_final(poses: Seq<[usize; 3]>, entries: Seq<(usize, usize)>, groups: Seq<int>)
    requires
        pose_inv(poses, poses.len() as int, 0, entries, groups, false),
    ensures
        forall|i: int, j: int, a: int, b: int|
            #![trigger poses[i][a], poses[j][b]]
            0 <= i < poses.len() && 0 <= j < poses.len() && 0 <= a < 3 && 0 <= b < 3
                && poses[i][a] != 0 && poses[i][a] == poses[j][b] ==> groups[i]
                == groups[j],
{
    reveal(pose_inv);
    assert forall|i: int, j: int, a: int, b: int|
            #![trigger poses[i][a], poses[j][b]]
        0 <= i < poses.len() && 0 <= j < poses.len() && 0 <= a < 3 && 0 <= b < 3
            && poses[i][a] != 0 && poses[i][a] == poses[j][b] implies groups[i]
            == groups[j] by {
        assert(visited(i, a, poses.len() as int, 0));
        assert(visited(j, b, poses.len() as int, 0));
        let m = choose|m: int|
            0 <= m < entries.len() && (#[trigger] entries[m]).0 == poses[i][a] && groups[i]
                == groups[entries[m].1 as int];
        let n = choose|n: int|
            0 <= n < entries.len() && (#[trigger] entries[n]).0 == poses[j][b] && groups[j]
                == groups[entries[n].1 as int];
        if m != n {
            if m < n {
                assert(entries[m].0 != entries[n].0);
            } else {
                assert(entries[n].0 != entries[m].0);
            }
        }
    }
}

/// Two consumers are linked when one uses a nonzero pose, cloth pose or
/// skeleton instance that the other uses too.
pub open spec fn pose_link(poses: Seq<[usize; 3]>) -> Link {
    |a: int, b: int|
        0 <= a < poses.len() && 0 <= b < poses.len() && exists|x: int, y: int|
            0 <= x < 3 && 0 <= y < 3 && poses[a][x] != 0 && #[trigger] poses[a][x] == #[trigger] poses[b][y]
}

/// Joins consumers that share a pose, cloth pose or skeleton instance, and
/// returns which consumers use one that an earlier consumer already uses.
pub fn join_shared_poses(groups: &mut Groups, poses: &Vec<[usize; 3]>) -> (shared: Vec<bool>)
    requires
        old(groups).wf(),
        poses@.len() == old(groups)@.len(),
    ensures
        final(groups).wf(),
        groups_merged(old(groups)@, final(groups)@),
        grouped_by(old(groups)@, pose_link(poses@), final(groups)@),
        shared@.len() == poses@.len(),
        forall|i: int|
            0 <= i < poses@.len() ==> #[trigger] shared@[i] == pose_shared_earlier(poses@, i),
        forall|i: int, j: int, a: int, b: int|
            #![trigger poses@[i][a], poses@[j][b]]
            0 <= i < poses@.len() && 0 <= j < poses@.len() && 0 <= a < 3 && 0 <= b < 3
                && poses@[i][a] != 0 && poses@[i][a] == poses@[j][b]
                ==> final(groups)@[i] == final(groups)@[j],
{
    let ghost start = groups@;
    let mut entries: Vec<(usize, usize)> = Vec::new();
    let mut shared: Vec<bool> = Vec::new();
    let mut i: usize = 0;
    let total = poses.len();
    let ghost link = pose_link(poses@);
    proof {
        lemma_pose_start(poses@, groups@);
        lemma_grouped_start(start, link);
    }
    while i < poses.len()
        invariant
            i <= poses@.len(),
            total == poses@.len(),
            poses@.len() == groups@.len(),
            groups.wf(),
            groups_merged(start, groups@),
            link == pose_link(poses@),
            grouped_by(start, link, groups@),
            shared@.len() == i,
            forall|j: int| 0 <= j < i ==> #[trigger] shared@[j] == pose_shared_earlier(poses@, j),
            pose_inv(poses@, i as int, 0, entries@, groups@, false),
        decreases poses@.len() - i,
    {
        let mut shared_now = false;
        let mut a: usize = 0;
        while a < 3
            invariant
                i < poses@.len(),
                total == poses@.len(),
                a <= 3,
                poses@.len() == groups@.len(),
                groups.wf(),
                groups_merged(start, groups@),
                link == pose_link(poses@),
                grouped_by(start, link, groups@),
                pose_inv(poses@, i as int, a as int, entries@, groups@, shared_now),
                shared_now == shared_upto(poses@, i as int, a as int),
            decreases 3 - a,
        {
            let key = poses[i][a];
            if key != 0 {
                let mut m: usize = 0;
                let mut found: Option<usize> = None;
                while m < entries.len()
                    invariant
                        m <= entries@.len(),
                        found matches Some(f) ==> f < entries@.len() && entries@[f as int].0 == key,
                        found is None ==> forall|n: int| 0 <= n < m ==> (#[trigger] entries@[n]).0 != key,
                    decreases entries@.len() - m,
                {
                    if entries[m].0 == key {
                        found = Some(m);
                    }
                    m = m + 1;
                }
                let ghost before = groups@;
                let ghost old_entries = entries@;
                let ghost old_shared = shared_now;
                match found {
                    Some(f) => {
                        let previous = entries[f].1;
                        proof {
                            lemma_pose_entry(poses@, i as int, a as int, entries@, groups@, shared_now, f as int);
                        }
                        if previous != i {
                            groups.join(previous, i);
                            shared_now = true;
                            proof {
                                let y = choose|y: int| 0 <= y < 3 && poses@[previous as int][y] == key;
                                assert(poses@[i as int][a as int] == poses@[previous as int][y]);
                                assert(link(i as int, previous as int));
                                assert(step_ok(start, link, previous as int, i as int));
                                lemma_connected_step(start, link, previous as int, i as int);
                                lemma_join_grouped(start, link, before, groups@, previous as int, i as int);
                            }
                        }
                        entries.set(f, (key, i));
                        proof {
                            lemma_pose_found(
                                poses@,
                                i as int,
                                a as int,
                                old_entries,
                                entries@,
                                before,
                                groups@,
                                old_shared,
                                shared_now,
                                f as int,
                            );
                        }
                    },
                    None => {
                        entries.push((key, i));
                        proof {
                            lemma_pose_new(
                                poses@,
                                i as int,
                                a as int,
                                old_entries,
                                entries@,
                                groups@,
                                shared_now,
                            );
                        }
                    },
                }
            } else {
                proof {
                    lemma_pose_zero(poses@, i as int, a as int, entries@, groups@, shared_now);
                }
            }
            a = a + 1;
        }
        shared.push(shared_now);
        proof {
            lemma_pose_next(poses@, i as int, entries@, groups@, shared_now);
        }
        i = i + 1;
    }
    proof {
        lemma_pose_final(poses@, entries@, groups@);
    }
    shared
}

/// Consumer `i`'s group holds a rejected consumer, or one that asks for
/// another scale than `i`.
pub open spec fn group_blocked(groups: Seq<int>, rejected: Seq<bool>, scale_bits: Seq<u32>, i: int) -> bool {
    exists|j: int|
        0 <= j < groups.len() && #[trigger] groups[j] == groups[i] && (rejected[j] || scale_bits[j]
            != scale_bits[i])
}

/// Among the first `i` consumers, group `g` holds a rejected one or two
/// with different scales.
pub open spec fn blocked_upto(groups: Seq<int>, rejected: Seq<bool>, scale_bits: Seq<u32>, g: int, i: int) -> bool {
    (exists|j: int| 0 <= j < i && #[trigger] groups[j] == g && rejected[j]) || (exists|
        j1: int,
        j2: int,
    |
        0 <= j1 < i && 0 <= j2 < i && #[trigger] groups[j1] == g && #[trigger] groups[j2] == g
            && scale_bits[j1] != scale_bits[j2])
}

/// Which consumers stay at baseline because their group is blocked: a group
/// is blocked when one of its members is rejected or two ask for different
/// scales.
pub fn blocked_by_group(groups: &mut Groups, rejected: &Vec<bool>, scale_bits: &Vec<u32>) -> (blocked: Vec<bool>)
    requires
        old(groups).wf(),
        rejected@.len() == old(groups)@.len(),
        scale_bits@.len() == old(groups)@.len(),
    ensures
        final(groups).wf(),
        final(groups)@ == old(groups)@,
        blocked@.len() == rejected@.len(),
        forall|i: int|
            0 <= i < blocked@.len() ==> #[trigger] blocked@[i] == group_blocked(
                old(groups)@,
                rejected@,
                scale_bits@,
                i,
            ),
{
    let n = groups.len();
    let ghost g = groups@;
    let mut group_scale: Vec<Option<u32>> = Vec::new();
    let mut group_bad: Vec<bool> = Vec::new();
    let mut k: usize = 0;
    while k < n
        invariant
            k <= n,
            group_scale@.len() == k,
            group_bad@.len() == k,
            forall|x: int| 0 <= x < k ==> (#[trigger] group_scale@[x]) is None,
            forall|x: int| 0 <= x < k ==> !(#[trigger] group_bad@[x]),
        decreases n - k,
    {
        group_scale.push(None);
        group_bad.push(false);
        k = k + 1;
    }
    proof {
        groups.lemma_groups_in_range();
    }
    let mut i: usize = 0;
    while i < n
        invariant
            i <= n,
            n == g.len(),
            groups.wf(),
            groups@ == g,
            rejected@.len() == n,
            scale_bits@.len() == n,
            group_scale@.len() == n,
            group_bad@.len() == n,
            forall|j: int| 0 <= j < n ==> 0 <= #[trigger] g[j] < n,
            forall|r: int|
                0 <= r < n ==> (#[trigger] group_scale@[r] is None <==> !exists|j: int|
                    0 <= j < i && #[trigger] g[j] == r),
            forall|r: int|
                0 <= r < n ==> (#[trigger] group_bad@[r] == blocked_upto(g, rejected@, scale_bits@, r, i as int)),
            forall|r: int, j: int|
                0 <= r < n && 0 <= j < i && group_scale@[r] is Some && #[trigger] g[j] == r
                    && !#[trigger] group_bad@[r] ==> scale_bits@[j] == group_scale@[r]->0,
        decreases n - i,
    {
        let root = groups.root(i);
        let scale = scale_bits[i];
        let ghost old_scale = group_scale@;
        let ghost old_bad = group_bad@;
        let mut bad = group_bad[root];
        if rejected[i] {
            bad = true;
        }
        match group_scale[root] {
            Some(previous) => {
                if previous != scale {
                    bad = true;
                }
            },
            None => {},
        }
        group_bad.set(root, bad);
        group_scale.set(root, Some(scale));
        proof {
            let r0 = root as int;
            assert(g[i as int] == r0);
            assert forall|r: int| 0 <= r < n implies (#[trigger] group_bad@[r] == blocked_upto(
                g,
                rejected@,
                scale_bits@,
                r,
                i + 1,
            )) by {
                if r == r0 {
                    if group_bad@[r] {
                        if old_bad[r] {
                        } else if rejected@[i as int] {
                            assert(g[i as int] == r && rejected@[i as int]);
                        } else {
                            let v = old_scale[r]->0;
                            assert(old_scale[r] is Some);
                            let j = choose|j: int| 0 <= j < i && #[trigger] g[j] == r;
                            assert(scale_bits@[j] == v);
                            assert(g[j] == r && g[i as int] == r && scale_bits@[j] != scale_bits@[i as int]);
                        }
                    } else {
                        if blocked_upto(g, rejected@, scale_bits@, r, i + 1) {
                            if exists|j: int| 0 <= j < i + 1 && #[trigger] g[j] == r && rejected@[j] {
                                let j = choose|j: int| 0 <= j < i + 1 && #[trigger] g[j] == r && rejected@[j];
                                if j < i {
                                    assert(blocked_upto(g, rejected@, scale_bits@, r, i as int));
                                }
                            } else {
                                let (j1, j2) = choose|j1: int, j2: int|
                                    0 <= j1 < i + 1 && 0 <= j2 < i + 1 && #[trigger] g[j1] == r
                                        && #[trigger] g[j2] == r && scale_bits@[j1] != scale_bits@[j2];
                                if j1 < i && j2 < i {
                                    assert(blocked_upto(g, rejected@, scale_bits@, r, i as int));
                                } else if j1 < i {
                                    assert(scale_bits@[j1] == old_scale[r]->0);
                                } else if j2 < i {
                                    assert(scale_bits@[j2] == old_scale[r]->0);
                                }
                            }
                        }
                    }
                } else {
                    if blocked_upto(g, rejected@, scale_bits@, r, i + 1) {
                        if exists|j: int| 0 <= j < i + 1 && #[trigger] g[j] == r && rejected@[j] {
                            let j = choose|j: int| 0 <= j < i + 1 && #[trigger] g[j] == r && rejected@[j];
                            assert(j < i);
                        } else {
                            let (j1, j2) = choose|j1: int, j2: int|
                                0 <= j1 < i + 1 && 0 <= j2 < i + 1 && #[trigger] g[j1] == r
                                    && #[trigger] g[j2] == r && scale_bits@[j1] != scale_bits@[j2];
                            assert(j1 < i && j2 < i);
                        }
                    }
                    if old_bad[r] {
                        assert(blocked_upto(g, rejected@, scale_bits@, r, i as int));
                    }
                }
            }
            assert forall|r: int| 0 <= r < n implies (#[trigger] group_scale@[r] is None <==> !exists|j: int|
                0 <= j < i + 1 && #[trigger] g[j] == r) by {
                if r != r0 && exists|j: int| 0 <= j < i + 1 && #[trigger] g[j] == r {
                    let j = choose|j: int| 0 <= j < i + 1 && #[trigger] g[j] == r;
                    assert(j < i);
                }
            }
            assert forall|r: int, j: int|
                0 <= r < n && 0 <= j < i + 1 && group_scale@[r] is Some && #[trigger] g[j] == r
                    && !#[trigger] group_bad@[r] implies scale_bits@[j] == group_scale@[r]->0 by {
                if r == r0 && j < i {
                    assert(old_scale[r] is Some);
                }
            }
        }
        i = i + 1;
    }
    let mut blocked: Vec<bool> = Vec::new();
    let mut i: usize = 0;
    while i < n
        invariant
            i <= n,
            n == g.len(),
            groups.wf(),
            groups@ == g,
            rejected@.len() == n,
            scale_bits@.len() == n,
            group_bad@.len() == n,
            blocked@.len() == i,
            forall|j: int| 0 <= j < n ==> 0 <= #[trigger] g[j] < n,
            forall|r: int|
                0 <= r < n ==> (#[trigger] group_bad@[r] == blocked_upto(g, rejected@, scale_bits@, r, n as int)),
            forall|j: int|
                0 <= j < i ==> #[trigger] blocked@[j] == group_blocked(g, rejected@, scale_bits@, j),
        decreases n - i,
    {
        let root = groups.root(i);
        blocked.push(group_bad[root]);
        proof {
            let r = root as int;
            if group_blocked(g, rejected@, scale_bits@, i as int) {
                let j = choose|j: int|
                    0 <= j < g.len() && #[trigger] g[j] == g[i as int] && (rejected@[j] || scale_bits@[j]
                        != scale_bits@[i as int]);
                if rejected@[j] {
                    assert(g[j] == r && rejected@[j]);
                } else {
                    assert(g[j] == r && g[i as int] == r);
                }
            }
            if blocked_upto(g, rejected@, scale_bits@, r, n as int) {
                if exists|j: int| 0 <= j < n && #[trigger] g[j] == r && rejected@[j] {
                    let j = choose|j: int| 0 <= j < n && #[trigger] g[j] == r && rejected@[j];
                    assert(g[j] == g[i as int]);
                } else {
                    let (j1, j2) = choose|j1: int, j2: int|
                        0 <= j1 < n && 0 <= j2 < n && #[trigger] g[j1] == r && #[trigger] g[j2] == r
                            && scale_bits@[j1] != scale_bits@[j2];
                    if scale_bits@[j1] != scale_bits@[i as int] {
                        assert(g[j1] == g[i as int]);
                    } else {
                        assert(g[j2] == g[i as int]);
                    }
                }
            }
        }
        i = i + 1;
    }
    blocked
}

/// A shared root: the consumers that own it and the merged spans of its
/// resource, if it has one.
pub struct RootOwners {
    pub root: usize,
    pub owners: Vec<usize>,
    pub spans: Vec<(usize, usize)>,
}

/// The byte span that stands for a root itself.
pub open spec fn root_span(root: usize) -> (usize, usize) {
    (root, if root + 8 > usize::MAX { usize::MAX } else { (root + 8) as usize })
}

/// The spans of root `r`, each owned by its first owner.
pub open spec fn root_owned_spans(r: RootOwners) -> Set<(usize, usize, usize)> {
    Set::new(
        |t: (usize, usize, usize)|
            r.owners@.len() > 0 && t.2 == r.owners@[0] && ((t.0, t.1) == root_span(r.root)
                || r.spans@.contains((t.0, t.1))),
    )
}

/// Every resource span of every root begins at or before its end.
pub open spec fn roots_spans_ordered(roots: Seq<RootOwners>) -> bool {
    forall|r: int, k: int|
        0 <= r < roots.len() && 0 <= k < roots[r].spans@.len() ==> (#[trigger] roots[r].spans@[k]).0
            <= roots[r].spans@[k].1
}

/// A consumer is linked to the first owner of a root it owns.
pub open spec fn root_link(roots: Seq<RootOwners>) -> Link {
    |a: int, b: int|
        exists|r: int, k: int|
            0 <= r < roots.len() && 0 <= k < roots[r].owners@.len() && a == roots[r].owners@[0]
                && b == #[trigger] roots[r].owners@[k]
}

/// Joins the owners of each root into one group and lists every root's
/// spans, each owned by the root's first owner.
pub fn join_root_owners(groups: &mut Groups, roots: &Vec<RootOwners>) -> (spans: Vec<
    (usize, usize, usize),
>)
    requires
        old(groups).wf(),
        forall|r: int, k: int|
            0 <= r < roots@.len() && 0 <= k < roots@[r].owners@.len() ==> #[trigger] roots@[r].owners@[k]
                < old(groups)@.len(),
        roots_spans_ordered(roots@),
    ensures
        final(groups).wf(),
        groups_merged(old(groups)@, final(groups)@),
        grouped_by(old(groups)@, root_link(roots@), final(groups)@),
        forall|k: int| 0 <= k < spans@.len() ==> (#[trigger] spans@[k]).0 <= spans@[k].1,
        forall|r: int, k: int|
            0 <= r < roots@.len() && 0 <= k < roots@[r].owners@.len() ==> final(groups)@[
                #[trigger] roots@[r].owners@[k] as int] == final(groups)@[roots@[r].owners@[0] as int],
        forall|t: (usize, usize, usize)|
            #[trigger] spans@.contains(t) <==> exists|r: int|
                0 <= r < roots@.len() && #[trigger] root_owned_spans(roots@[r]).contains(t),
        forall|k: int| 0 <= k < spans@.len() ==> (#[trigger] spans@[k]).2 < final(groups)@.len(),
{
    let ghost start = groups@;
    let ghost link = root_link(roots@);
    let mut spans: Vec<(usize, usize, usize)> = Vec::new();
    let mut i: usize = 0;
    proof {
        lemma_grouped_start(start, link);
    }
    while i < roots.len()
        invariant
            i <= roots@.len(),
            groups.wf(),
            groups@.len() == start.len(),
            groups_merged(start, groups@),
            link == root_link(roots@),
            grouped_by(start, link, groups@),
            forall|r: int, k: int|
                0 <= r < roots@.len() && 0 <= k < roots@[r].owners@.len() ==> #[trigger] roots@[r].owners@[k]
                    < start.len(),
            forall|r: int, k: int|
                0 <= r < i && 0 <= k < roots@[r].owners@.len() ==> groups@[
                    #[trigger] roots@[r].owners@[k] as int] == groups@[roots@[r].owners@[0] as int],
            forall|t: (usize, usize, usize)|
                #[trigger] spans@.contains(t) <==> exists|r: int|
                    0 <= r < i && #[trigger] root_owned_spans(roots@[r]).contains(t),
            forall|k: int| 0 <= k < spans@.len() ==> (#[trigger] spans@[k]).2 < start.len(),
            forall|k: int| 0 <= k < spans@.len() ==> (#[trigger] spans@[k]).0 <= spans@[k].1,
            roots_spans_ordered(roots@),
        decreases roots@.len() - i,
    {
        let entry = &roots[i];
        if entry.owners.len() == 0 {
            proof {
                assert forall|t: (usize, usize, usize)|
                    #[trigger] spans@.contains(t) <==> exists|r: int|
                        0 <= r < i + 1 && #[trigger] root_owned_spans(roots@[r]).contains(t) by {
                    if exists|r: int| 0 <= r < i + 1 && #[trigger] root_owned_spans(roots@[r]).contains(t) {
                        let r = choose|r: int| 0 <= r < i + 1 && #[trigger] root_owned_spans(roots@[r]).contains(t);
                        assert(r < i);
                    }
                }
            }
            i = i + 1;
            continue;
        }
        let first = entry.owners[0];
        let mut k: usize = 0;
        while k < entry.owners.len()
            invariant
                i < roots@.len(),
                *entry == roots@[i as int],
                entry.owners@.len() > 0,
                first == entry.owners@[0],
                k <= entry.owners@.len(),
                groups.wf(),
                groups@.len() == start.len(),
                groups_merged(start, groups@),
                link == root_link(roots@),
                grouped_by(start, link, groups@),
                forall|r: int, k2: int|
                    0 <= r < roots@.len() && 0 <= k2 < roots@[r].owners@.len() ==> #[trigger] roots@[r].owners@[k2]
                        < start.len(),
                forall|r: int, k2: int|
                    0 <= r < i && 0 <= k2 < roots@[r].owners@.len() ==> groups@[
                        #[trigger] roots@[r].owners@[k2] as int] == groups@[roots@[r].owners@[0] as int],
                forall|k2: int| 0 <= k2 < k ==> groups@[#[trigger] entry.owners@[k2] as int] == groups@[first as int],
            decreases entry.owners@.len() - k,
        {
            let owner = entry.owners[k];
            let ghost before = groups@;
            proof {
                assert(roots@[i as int].owners@[k as int] < start.len());
                assert(roots@[i as int].owners@[0] < start.len());
            }
            groups.join(first, owner);
            proof {
                assert(link(first as int, owner as int)) by {
                    assert(roots@[i as int].owners@[k as int] == owner);
                }
                assert(step_ok(start, link, first as int, owner as int));
                lemma_connected_step(start, link, first as int, owner as int);
                lemma_join_grouped(start, link, before, groups@, first as int, owner as int);
                assert forall|a: int, b: int|
                    0 <= a < start.len() && 0 <= b < start.len() && #[trigger] start[a]
                        == #[trigger] start[b] implies groups@[a] == groups@[b] by {
                    assert(before[a] == before[b]);
                }
                assert forall|r: int, k2: int|
                    0 <= r < i && 0 <= k2 < roots@[r].owners@.len() implies groups@[
                        #[trigger] roots@[r].owners@[k2] as int] == groups@[roots@[r].owners@[0] as int] by {
                    assert(before[roots@[r].owners@[k2] as int] == before[roots@[r].owners@[0] as int]);
                }
                assert forall|k2: int| 0 <= k2 < k + 1 implies groups@[#[trigger] entry.owners@[k2] as int]
                    == groups@[first as int] by {
                    if k2 < k {
                        assert(before[entry.owners@[k2] as int] == before[first as int]);
                    }
                }
            }
            k = k + 1;
        }
        let ghost before_spans = spans@;
        let end = entry.root.saturating_add(8);
        spans.push((entry.root, end, first));
        let mut m: usize = 0;
        while m < entry.spans.len()
            invariant
                i < roots@.len(),
                *entry == roots@[i as int],
                entry.owners@.len() > 0,
                first == entry.owners@[0],
                first < start.len(),
                m <= entry.spans@.len(),
                forall|k: int| 0 <= k < before_spans.len() ==> (#[trigger] before_spans[k]).0 <= before_spans[k].1,
                entry.root <= end,
                roots_spans_ordered(roots@),
                spans@ == before_spans.push((entry.root, end, first)) + entry.spans@.subrange(
                    0,
                    m as int,
                ).map_values(|s: (usize, usize)| (s.0, s.1, first)),
            decreases entry.spans@.len() - m,
        {
            let (b, e) = entry.spans[m];
            spans.push((b, e, first));
            proof {
                assert(entry.spans@.subrange(0, m + 1) == entry.spans@.subrange(0, m as int).push(
                    (b, e),
                ));
                assert(spans@ =~= before_spans.push((entry.root, end, first)) + entry.spans@.subrange(
                    0,
                    m + 1,
                ).map_values(|s: (usize, usize)| (s.0, s.1, first)));
            }
            m = m + 1;
        }
        proof {
            let added = entry.spans@.map_values(|s: (usize, usize)| (s.0, s.1, first));
            assert(entry.spans@.subrange(0, entry.spans@.len() as int) == entry.spans@);
            assert(spans@ == before_spans.push((entry.root, end, first)) + added);
            assert forall|t: (usize, usize, usize)|
                #[trigger] spans@.contains(t) <==> exists|r: int|
                    0 <= r < i + 1 && #[trigger] root_owned_spans(roots@[r]).contains(t) by {
                if spans@.contains(t) {
                    let j = choose|j: int| 0 <= j < spans@.len() && spans@[j] == t;
                    if j < before_spans.len() {
                        assert(before_spans.contains(t));
                    } else if j == before_spans.len() {
                        assert(root_owned_spans(roots@[i as int]).contains(t));
                    } else {
                        let q = j - before_spans.len() - 1;
                        assert(added[q] == t);
                        assert(entry.spans@.contains(entry.spans@[q]));
                        assert(root_owned_spans(roots@[i as int]).contains(t));
                    }
                }
                if exists|r: int| 0 <= r < i + 1 && #[trigger] root_owned_spans(roots@[r]).contains(t) {
                    let r = choose|r: int| 0 <= r < i + 1 && #[trigger] root_owned_spans(roots@[r]).contains(t);
                    if r < i {
                        assert(before_spans.contains(t));
                        let j = choose|j: int| 0 <= j < before_spans.len() && before_spans[j] == t;
                        assert(spans@[j] == t);
                    } else if (t.0, t.1) == root_span(entry.root) {
                        assert(spans@[before_spans.len() as int] == t);
                    } else {
                        let q = choose|q: int| 0 <= q < entry.spans@.len() && entry.spans@[q] == (t.0, t.1);
                        assert(added[q] == t);
                        assert(spans@[before_spans.len() + 1 + q] == t);
                    }
                }
            }
            assert forall|k2: int| 0 <= k2 < spans@.len() implies (#[trigger] spans@[k2]).2 < start.len() by {
                if k2 >= before_spans.len() + 1 {
                    assert(added[k2 - before_spans.len() - 1].2 == first);
                }
            }
            assert forall|k2: int| 0 <= k2 < spans@.len() implies (#[trigger] spans@[k2]).0 <= spans@[k2].1 by {
                if k2 >= before_spans.len() + 1 {
                    let q = k2 - before_spans.len() - 1;
                    assert(added[q] == (entry.spans@[q].0, entry.spans@[q].1, first));
                    assert(roots@[i as int].spans@[q].0 <= roots@[i as int].spans@[q].1);
                }
            }
        }
        i = i + 1;
    }
    spans
}

/// One of the first `i` consumers reaches `root`.
pub open spec fn reached_upto(roots_of: Seq<Vec<usize>>, root: usize, i: int) -> bool {
    exists|x: int| 0 <= x < i && #[trigger] roots_of[x]@.contains(root)
}

/// Some consumer reaches `root`.
pub open spec fn reached(roots_of: Seq<Vec<usize>>, root: usize) -> bool {
    reached_upto(roots_of, root, roots_of.len() as int)
}

/// `root` has an owner list.
pub open spec fn listed(owned: Seq<RootOwners>, root: usize) -> bool {
    exists|a: int| 0 <= a < owned.len() && #[trigger] owned[a].root == root
}

/// The owner lists of distinct roots, each the ascending consumers that
/// reach its root, with every root some consumer reaches listed.
pub open spec fn owners_exact(roots_of: Seq<Vec<usize>>, owned: Seq<RootOwners>) -> bool {
    &&& forall|a: int, b: int|
        0 <= a < b < owned.len() ==> #[trigger] owned[a].root != #[trigger] owned[b].root
    &&& forall|root: usize| #[trigger] reached(roots_of, root) <==> #[trigger] listed(owned, root)
    &&& forall|a: int, x: usize|
        0 <= a < owned.len() ==> (#[trigger] owned[a].owners@.contains(x) <==> x < roots_of.len()
            && #[trigger] roots_of[x as int]@.contains(owned[a].root))
    &&& forall|a: int, p: int, q: int|
        0 <= a < owned.len() && 0 <= p < q < owned[a].owners@.len() ==> #[trigger] owned[a].owners@[p]
            < #[trigger] owned[a].owners@[q]
    &&& forall|a: int| 0 <= a < owned.len() ==> #[trigger] owned[a].owners@.len() > 0
    &&& forall|a: int| 0 <= a < owned.len() ==> #[trigger] owned[a].spans@.len() == 0
}

fn find_root(owned: &Vec<RootOwners>, root: usize) -> (r: Option<usize>)
    ensures
        r matches Some(a) ==> a < owned@.len() && owned@[a as int].root == root,
        r is None ==> forall|a: int| 0 <= a < owned@.len() ==> #[trigger] owned@[a].root != root,
{
    let mut a: usize = 0;
    while a < owned.len()
        invariant
            0 <= a <= owned@.len(),
            forall|b: int| 0 <= b < a ==> #[trigger] owned@[b].root != root,
        decreases owned@.len() - a,
    {
        if owned[a].root == root {
            return Some(a);
        }
        a = a + 1;
    }
    None
}

fn copy_owners(v: &Vec<usize>) -> (r: Vec<usize>)
    ensures
        r@ == v@,
{
    let mut r: Vec<usize> = Vec::new();
    let mut k: usize = 0;
    while k < v.len()
        invariant
            0 <= k <= v@.len(),
            r@ == v@.subrange(0, k as int),
        decreases v@.len() - k,
    {
        r.push(v[k]);
        k = k + 1;
    }
    proof {
        assert(v@.subrange(0, v@.len() as int) =~= v@);
    }
    r
}

/// Consumer `x` reaches `root` before the reading point: `x` comes before
/// consumer `i`, or is `i` and `root` is among its first `j` roots.
pub open spec fn reaches_before(roots_of: Seq<Vec<usize>>, root: usize, x: usize, i: int, j: int) -> bool {
    (x < i && roots_of[x as int]@.contains(root)) || (x == i && roots_of[i]@.subrange(0, j).contains(
        root,
    ))
}

/// Lists, for each root some consumer reaches, the consumers that reach it,
/// ascending and each once. Roots are listed once each, in the order they
/// are first reached; their spans are left for the caller to fill from the
/// root's resource.
pub fn owners_by_root(roots_of: &Vec<Vec<usize>>) -> (owned: Vec<RootOwners>)
    ensures
        owners_exact(roots_of@, owned@),
{
    let mut owned: Vec<RootOwners> = Vec::new();
    let mut i: usize = 0;
    while i < roots_of.len()
        invariant
            0 <= i <= roots_of@.len(),
            forall|a: int, b: int|
                0 <= a < b < owned@.len() ==> #[trigger] owned@[a].root != #[trigger] owned@[b].root,
            forall|root: usize|
                #[trigger] reached_upto(roots_of@, root, i as int) <==> #[trigger] listed(owned@, root),
            forall|a: int, x: usize|
                0 <= a < owned@.len() ==> (#[trigger] owned@[a].owners@.contains(x) <==> x < i
                    && #[trigger] roots_of@[x as int]@.contains(owned@[a].root)),
            forall|a: int, p: int, q: int|
                0 <= a < owned@.len() && 0 <= p < q < owned@[a].owners@.len()
                    ==> #[trigger] owned@[a].owners@[p] < #[trigger] owned@[a].owners@[q],
            forall|a: int, p: int|
                0 <= a < owned@.len() && 0 <= p < owned@[a].owners@.len()
                    ==> #[trigger] owned@[a].owners@[p] < i,
            forall|a: int| 0 <= a < owned@.len() ==> #[trigger] owned@[a].owners@.len() > 0,
            forall|a: int| 0 <= a < owned@.len() ==> #[trigger] owned@[a].spans@.len() == 0,
        decreases roots_of@.len() - i,
    {
        let mine = &roots_of[i];
        let mut j: usize = 0;
        while j < mine.len()
            invariant
                0 <= i < roots_of@.len(),
                *mine == roots_of@[i as int],
                0 <= j <= mine@.len(),
                forall|a: int, b: int|
                    0 <= a < b < owned@.len() ==> #[trigger] owned@[a].root != #[trigger] owned@[b].root,
                forall|root: usize|
                    #![trigger reached_upto(roots_of@, root, i as int)]
                    #![trigger listed(owned@, root)]
                    reached_upto(roots_of@, root, i as int) || mine@.subrange(0, j as int).contains(root)
                        <==> listed(owned@, root),
                forall|a: int, x: usize|
                    0 <= a < owned@.len() ==> (#[trigger] owned@[a].owners@.contains(x)
                        <==> reaches_before(roots_of@, owned@[a].root, x, i as int, j as int)),
                forall|a: int, p: int, q: int|
                    0 <= a < owned@.len() && 0 <= p < q < owned@[a].owners@.len()
                        ==> #[trigger] owned@[a].owners@[p] < #[trigger] owned@[a].owners@[q],
                forall|a: int, p: int|
                    0 <= a < owned@.len() && 0 <= p < owned@[a].owners@.len()
                        ==> #[trigger] owned@[a].owners@[p] <= i,
                forall|a: int| 0 <= a < owned@.len() ==> #[trigger] owned@[a].owners@.len() > 0,
                forall|a: int| 0 <= a < owned@.len() ==> #[trigger] owned@[a].spans@.len() == 0,
            decreases mine@.len() - j,
        {
            let root = mine[j];
            let ghost prior = owned@;
            let ghost seen = mine@.subrange(0, j as int);
            let ghost mut at: int = prior.len() as int;
            proof {
                assert(mine@.subrange(0, j + 1) =~= seen.push(root));
                assert forall|a: int, x: usize| 0 <= a < prior.len() && prior[a].root != root implies (
                reaches_before(roots_of@, prior[a].root, x, i as int, j as int) <==> reaches_before(
                    roots_of@,
                    prior[a].root,
                    x,
                    i as int,
                    j + 1,
                )) by {}
            }
            match find_root(&owned, root) {
                Some(a) => {
                    proof {
                        at = a as int;
                    }
                    let n = owned[a].owners.len();
                    if owned[a].owners[n - 1] != i {
                        let mut list = copy_owners(&owned[a].owners);
                        list.push(i);
                        let entry = RootOwners { root, owners: list, spans: Vec::new() };
                        owned.set(a, entry);
                        proof {
                            let old_list = prior[a as int].owners@;
                            assert(owned@[a as int].owners@ == old_list.push(i));
                            assert(old_list[n - 1] < i);
                            assert forall|x: usize| #[trigger] owned@[a as int].owners@.contains(x)
                                <==> reaches_before(roots_of@, root, x, i as int, j + 1) by {
                                assert(roots_of@[i as int]@.subrange(0, j + 1)[j as int] == root);
                                if x == i {
                                    assert(owned@[a as int].owners@[n as int] == i);
                                } else {
                                    assert(prior[a as int].owners@.contains(x) <==> reaches_before(
                                        roots_of@,
                                        root,
                                        x,
                                        i as int,
                                        j as int,
                                    ));
                                    if old_list.contains(x) {
                                        let p = choose|p: int| 0 <= p < old_list.len() && old_list[p] == x;
                                        assert(owned@[a as int].owners@[p] == x);
                                    }
                                    if owned@[a as int].owners@.contains(x) {
                                        let p = choose|p: int|
                                            0 <= p < owned@[a as int].owners@.len()
                                                && owned@[a as int].owners@[p] == x;
                                        assert(p != n);
                                        assert(old_list[p] == x);
                                    }
                                }
                            }
                            assert forall|p: int, q: int|
                                0 <= p < q < owned@[a as int].owners@.len() implies #[trigger] owned@[
                                a as int].owners@[p] < #[trigger] owned@[a as int].owners@[q] by {
                                if q == n {
                                    assert(old_list[p] <= old_list[n - 1] || p == n - 1);
                                }
                            }
                        }
                    } else {
                        proof {
                            assert(prior[a as int].owners@.contains(i));
                            assert forall|x: usize| #[trigger] owned@[a as int].owners@.contains(x)
                                <==> reaches_before(roots_of@, root, x, i as int, j + 1) by {
                                if x == i {
                                    assert(reaches_before(roots_of@, root, x, i as int, j as int));
                                }
                            }
                        }
                    }
                },
                None => {
                    let mut list: Vec<usize> = Vec::new();
                    list.push(i);
                    owned.push(RootOwners { root, owners: list, spans: Vec::new() });
                    proof {
                        assert(!listed(prior, root));
                        assert forall|x: usize| #[trigger] owned@[prior.len() as int].owners@.contains(x)
                            <==> reaches_before(roots_of@, root, x, i as int, j + 1) by {
                            assert(roots_of@[i as int]@.subrange(0, j + 1)[j as int] == root);
                            assert(owned@[prior.len() as int].owners@ == seq![i]);
                            if x < i && roots_of@[x as int]@.contains(root) {
                                assert(reached_upto(roots_of@, root, i as int));
                                assert(listed(prior, root));
                            }
                            if x == i {
                                assert(owned@[prior.len() as int].owners@[0] == i);
                            }
                        }
                    }
                },
            }
            proof {
                assert(owned@.len() == prior.len() || (owned@.len() == prior.len() + 1
                    && owned@[prior.len() as int].root == root));
                assert(forall|b: int| 0 <= b < prior.len() ==> #[trigger] owned@[b].root == prior[b].root);
                assert(owned@[at].root == root);
                assert(listed(owned@, root));
                assert forall|r: usize|
                    #![trigger reached_upto(roots_of@, r, i as int)]
                    #![trigger listed(owned@, r)]
                    reached_upto(roots_of@, r, i as int) || mine@.subrange(0, j + 1).contains(r)
                        <==> listed(owned@, r) by {
                    let pushed = seen.push(root);
                    if pushed.contains(r) {
                        let k = choose|k: int| 0 <= k < pushed.len() && pushed[k] == r;
                        if k < seen.len() {
                            assert(seen[k] == r);
                        }
                    }
                    if seen.contains(r) {
                        let k = choose|k: int| 0 <= k < seen.len() && seen[k] == r;
                        assert(pushed[k] == r);
                    }
                    if r == root {
                        assert(pushed[seen.len() as int] == root);
                    }
                    assert(mine@.subrange(0, j + 1).contains(r) <==> seen.contains(r) || r == root);
                    if listed(owned@, r) && r != root {
                        let b = choose|b: int| 0 <= b < owned@.len() && #[trigger] owned@[b].root == r;
                        assert(b < prior.len());
                        assert(prior[b].root == r);
                        assert(listed(prior, r));
                    }
                    if listed(prior, r) {
                        let b = choose|b: int| 0 <= b < prior.len() && #[trigger] prior[b].root == r;
                        assert(owned@[b].root == r);
                    }
                }
            }
            j = j + 1;
        }
        proof {
            assert(mine@.subrange(0, mine@.len() as int) =~= mine@);
            assert forall|root: usize|
                #[trigger] reached_upto(roots_of@, root, i + 1) <==> reached_upto(roots_of@, root, i as int)
                    || mine@.contains(root) by {
                if reached_upto(roots_of@, root, i + 1) && !mine@.contains(root) {
                    let x = choose|x: int| 0 <= x < i + 1 && #[trigger] roots_of@[x]@.contains(root);
                    assert(x < i);
                }
                if mine@.contains(root) {
                    assert(roots_of@[i as int]@.contains(root));
                }
            }
        }
        i = i + 1;
    }
    owned
}

/// Consumer `j` is rejected before grouping, or shares a pose instance with
/// an earlier consumer.
pub open spec fn rejected_before_grouping(rejected: Seq<bool>, poses: Seq<[usize; 3]>) -> Seq<bool> {
    Seq::new(rejected.len(), |j: int| rejected[j] || pose_shared_earlier(poses, j))
}

/// The owners of two overlapping spans of the roots are linked.
pub open spec fn root_overlap_link(roots: Seq<RootOwners>) -> Link {
    |a: int, b: int|
        exists|p: (usize, usize, usize), q: (usize, usize, usize)|
            owned_by_roots(roots, p) && owned_by_roots(roots, q) && spans_overlap(p, q) && a == p.2
                && b == q.2
}

/// Span `t` is a span of one of the roots.
pub open spec fn owned_by_roots(roots: Seq<RootOwners>, t: (usize, usize, usize)) -> bool {
    exists|r: int| 0 <= r < roots.len() && #[trigger] root_owned_spans(roots[r]).contains(t)
}

/// What joins consumers: owning one root, sharing a pose instance, or owning
/// overlapping spans.
pub open spec fn sharing_link(roots: Seq<RootOwners>, poses: Seq<[usize; 3]>) -> Link {
    either(either(root_link(roots), pose_link(poses)), root_overlap_link(roots))
}

/// Each consumer alone in its group.
pub open spec fn unit_groups(count: nat) -> Seq<int> {
    Seq::new(count, |i: int| i)
}

/// The sharing decisions of one preparation pass.
pub struct SharedPlan {
    /// The consumers joined into groups.
    pub groups: Groups,
    /// Which consumers use a pose instance an earlier consumer uses.
    pub pose_shared: Vec<bool>,
    /// Which consumers stay at baseline because their group is blocked.
    pub blocked: Vec<bool>,
}

/// Groups the consumers of one preparation pass and decides which stay at
/// baseline. Two consumers share a group exactly when a chain of links
/// connects them: owning one root, sharing a pose instance, or owning
/// overlapping spans. A group is blocked when one of its members was
/// rejected or shares a pose with an earlier consumer, or when two members
/// ask for different scales.
pub fn plan_shared_consumers(
    count: usize,
    roots: &Vec<RootOwners>,
    poses: &Vec<[usize; 3]>,
    rejected: &Vec<bool>,
    scale_bits: &Vec<u32>,
) -> (plan: SharedPlan)
    requires
        forall|r: int, k: int|
            0 <= r < roots@.len() && 0 <= k < roots@[r].owners@.len() ==> #[trigger] roots@[r].owners@[k]
                < count,
        roots_spans_ordered(roots@),
        poses@.len() == count,
        rejected@.len() == count,
        scale_bits@.len() == count,
    ensures
        plan.groups.wf(),
        plan.groups@.len() == count,
        forall|i: int, j: int|
            0 <= i < count && 0 <= j < count ==> (#[trigger] plan.groups@[i] == #[trigger] plan.groups@[j]
                <==> connected(unit_groups(count as nat), sharing_link(roots@, poses@), i, j)),
        plan.pose_shared@.len() == count,
        forall|i: int| 0 <= i < count ==> #[trigger] plan.pose_shared@[i] == pose_shared_earlier(poses@, i),
        plan.blocked@.len() == count,
        forall|i: int|
            0 <= i < count ==> #[trigger] plan.blocked@[i] == group_blocked(
                plan.groups@,
                rejected_before_grouping(rejected@, poses@),
                scale_bits@,
                i,
            ),
{
    let mut groups = Groups::new(count);
    let ghost g0 = groups@;
    let spans = join_root_owners(&mut groups, roots);
    let ghost after_roots = groups@;
    let shared = join_shared_poses(&mut groups, poses);
    let ghost after_poses = groups@;
    let ghost listed = spans@;
    join_overlapping(&mut groups, spans);
    let ghost after_spans = groups@;
    let mut flags: Vec<bool> = Vec::new();
    let mut i: usize = 0;
    while i < count
        invariant
            i <= count,
            rejected@.len() == count,
            shared@.len() == count,
            flags@.len() == i,
            forall|j: int| 0 <= j < i ==> #[trigger] flags@[j] == (rejected@[j] || shared@[j]),
        decreases count - i,
    {
        flags.push(rejected[i] || shared[i]);
        i = i + 1;
    }
    proof {
        assert(flags@ =~= rejected_before_grouping(rejected@, poses@));
    }
    let blocked = blocked_by_group(&mut groups, &flags, scale_bits);
    proof {
        let g = groups@;
        assert(g0 =~= unit_groups(count as nat));
        assert forall|r: int, k: int|
            0 <= r < roots@.len() && 0 <= k < roots@[r].owners@.len() implies g[
                #[trigger] roots@[r].owners@[k] as int] == g[roots@[r].owners@[0] as int] by {
            let a = roots@[r].owners@[k] as int;
            let b = roots@[r].owners@[0] as int;
            assert(after_roots[a] == after_roots[b]);
            assert(after_poses[a] == after_poses[b]);
        }
        assert forall|i: int, j: int, x: int, y: int|
            #![trigger poses@[i][x], poses@[j][y]]
            0 <= i < poses@.len() && 0 <= j < poses@.len() && 0 <= x < 3 && 0 <= y < 3
                && poses@[i][x] != 0 && poses@[i][x] == poses@[j][y] implies g[i] == g[j] by {
            assert(after_poses[i] == after_poses[j]);
        }
        assert forall|t: (usize, usize, usize)| #[trigger] listed.contains(t) <==> owned_by_roots(
            roots@,
            t,
        ) by {}
        lemma_plan_connected(
            count as nat,
            roots@,
            poses@,
            g0,
            after_roots,
            after_poses,
            listed,
            groups@,
        );
    }
    SharedPlan { groups, pose_shared: shared, blocked }
}

proof fn lemma_plan_grouped(
    roots: Seq<RootOwners>,
    poses: Seq<[usize; 3]>,
    g0: Seq<int>,
    after_roots: Seq<int>,
    after_poses: Seq<int>,
    listed: Seq<(usize, usize, usize)>,
    g: Seq<int>,
)
    requires
        grouped_by(g0, root_link(roots), after_roots),
        grouped_by(after_roots, pose_link(poses), after_poses),
        grouped_by(after_poses, overlap_link(listed), g),
        forall|t: (usize, usize, usize)| #[trigger] listed.contains(t) ==> owned_by_roots(roots, t),
    ensures
        grouped_by(g0, sharing_link(roots, poses), g),
{
    let link = sharing_link(roots, poses);
    lemma_grouped_compose(g0, root_link(roots), after_roots, pose_link(poses), after_poses);
    lemma_grouped_compose(
        g0,
        either(root_link(roots), pose_link(poses)),
        after_poses,
        overlap_link(listed),
        g,
    );
    assert forall|x: int, y: int|
        #[trigger] either(either(root_link(roots), pose_link(poses)), overlap_link(listed))(x, y)
            implies link(x, y) by {
        if overlap_link(listed)(x, y) {
            let (p, q) = choose|p: (usize, usize, usize), q: (usize, usize, usize)|
                #[trigger] listed.contains(p) && #[trigger] listed.contains(q) && spans_overlap(p, q)
                    && x == p.2 && y == q.2;
            assert(owned_by_roots(roots, p));
            assert(owned_by_roots(roots, q));
        }
    }
    lemma_grouped_wider(
        g0,
        either(either(root_link(roots), pose_link(poses)), overlap_link(listed)),
        link,
        g,
    );
}

proof fn lemma_plan_steps_same(
    count: nat,
    roots: Seq<RootOwners>,
    poses: Seq<[usize; 3]>,
    listed: Seq<(usize, usize, usize)>,
    g: Seq<int>,
)
    requires
        g.len() == count,
        poses.len() == count,
        forall|r: int, k: int|
            0 <= r < roots.len() && 0 <= k < roots[r].owners@.len() ==> #[trigger] roots[r].owners@[k]
                < count,
        forall|r: int, k: int|
            0 <= r < roots.len() && 0 <= k < roots[r].owners@.len() ==> g[#[trigger] roots[r].owners@[k]
                as int] == g[roots[r].owners@[0] as int],
        forall|i: int, j: int, x: int, y: int|
            #![trigger poses[i][x], poses[j][y]]
            0 <= i < poses.len() && 0 <= j < poses.len() && 0 <= x < 3 && 0 <= y < 3 && poses[i][x] != 0
                && poses[i][x] == poses[j][y] ==> g[i] == g[j],
        forall|t: (usize, usize, usize)| #[trigger] owned_by_roots(roots, t) ==> listed.contains(t),
        forall|k: int| 0 <= k < listed.len() ==> (#[trigger] listed[k]).2 < count,
        forall|p: (usize, usize, usize), q: (usize, usize, usize)|
            #![trigger listed.contains(p), listed.contains(q)]
            listed.contains(p) && listed.contains(q) && spans_overlap(p, q) ==> g[p.2 as int] == g[q.2
                as int],
    ensures
        forall|a: int, b: int| #[trigger]
            step_ok(unit_groups(count), sharing_link(roots, poses), a, b) ==> 0 <= a < g.len() && 0
                <= b < g.len() && g[a] == g[b],
{
    let g0 = unit_groups(count);
    let link = sharing_link(roots, poses);
    assert forall|a: int, b: int| #[trigger] step_ok(g0, link, a, b) implies 0 <= a < g.len() && 0
        <= b < g.len() && g[a] == g[b] by {
        if 0 <= a < g0.len() && 0 <= b < g0.len() && g0[a] == g0[b] {
        } else if root_link(roots)(a, b) {
            lemma_root_link_same(roots, g, a, b);
        } else if root_link(roots)(b, a) {
            lemma_root_link_same(roots, g, b, a);
        } else if pose_link(poses)(a, b) {
            lemma_pose_link_same(poses, g, a, b);
        } else if pose_link(poses)(b, a) {
            lemma_pose_link_same(poses, g, b, a);
        } else if root_overlap_link(roots)(a, b) {
            let (p, q) = choose|p: (usize, usize, usize), q: (usize, usize, usize)|
                owned_by_roots(roots, p) && owned_by_roots(roots, q) && spans_overlap(p, q) && a
                    == p.2 && b == q.2;
            lemma_listed_owner(listed, p, count);
            lemma_listed_owner(listed, q, count);
        } else {
            let (p, q) = choose|p: (usize, usize, usize), q: (usize, usize, usize)|
                owned_by_roots(roots, p) && owned_by_roots(roots, q) && spans_overlap(p, q) && b
                    == p.2 && a == q.2;
            lemma_listed_owner(listed, p, count);
            lemma_listed_owner(listed, q, count);
        }
    }
}

proof fn lemma_listed_owner(listed: Seq<(usize, usize, usize)>, t: (usize, usize, usize), count: nat)
    requires
        listed.contains(t),
        forall|k: int| 0 <= k < listed.len() ==> (#[trigger] listed[k]).2 < count,
    ensures
        t.2 < count,
{
    let k = choose|k: int| 0 <= k < listed.len() && listed[k] == t;
}

proof fn lemma_plan_connected(
    count: nat,
    roots: Seq<RootOwners>,
    poses: Seq<[usize; 3]>,
    g0: Seq<int>,
    after_roots: Seq<int>,
    after_poses: Seq<int>,
    listed: Seq<(usize, usize, usize)>,
    g: Seq<int>,
)
    requires
        g0 == unit_groups(count),
        g.len() == count,
        poses.len() == count,
        grouped_by(g0, root_link(roots), after_roots),
        grouped_by(after_roots, pose_link(poses), after_poses),
        grouped_by(after_poses, overlap_link(listed), g),
        forall|t: (usize, usize, usize)| #[trigger] listed.contains(t) <==> owned_by_roots(roots, t),
        forall|k: int| 0 <= k < listed.len() ==> (#[trigger] listed[k]).2 < count,
        forall|r: int, k: int|
            0 <= r < roots.len() && 0 <= k < roots[r].owners@.len() ==> #[trigger] roots[r].owners@[k]
                < count,
        forall|r: int, k: int|
            0 <= r < roots.len() && 0 <= k < roots[r].owners@.len() ==> g[#[trigger] roots[r].owners@[k]
                as int] == g[roots[r].owners@[0] as int],
        forall|i: int, j: int, x: int, y: int|
            #![trigger poses[i][x], poses[j][y]]
            0 <= i < poses.len() && 0 <= j < poses.len() && 0 <= x < 3 && 0 <= y < 3 && poses[i][x] != 0
                && poses[i][x] == poses[j][y] ==> g[i] == g[j],
        forall|p: (usize, usize, usize), q: (usize, usize, usize)|
            #![trigger listed.contains(p), listed.contains(q)]
            listed.contains(p) && listed.contains(q) && spans_overlap(p, q) ==> g[p.2 as int] == g[q.2
                as int],
    ensures
        forall|i: int, j: int|
            0 <= i < count && 0 <= j < count ==> (#[trigger] g[i] == #[trigger] g[j] <==> connected(
                unit_groups(count),
                sharing_link(roots, poses),
                i,
                j,
            )),
{
    let link = sharing_link(roots, poses);
    lemma_plan_grouped(roots, poses, g0, after_roots, after_poses, listed, g);
    lemma_plan_steps_same(count, roots, poses, listed, g);
    assert forall|i: int, j: int| 0 <= i < count && 0 <= j < count implies (#[trigger] g[i]
        == #[trigger] g[j] <==> connected(unit_groups(count), link, i, j)) by {
        if connected(g0, link, i, j) {
            lemma_connected_same_group(g0, link, g, i, j);
        }
    }
}

proof fn lemma_root_link_same(roots: Seq<RootOwners>, g: Seq<int>, a: int, b: int)
    requires
        root_link(roots)(a, b),
        forall|r: int, k: int|
            0 <= r < roots.len() && 0 <= k < roots[r].owners@.len() ==> #[trigger] roots[r].owners@[k]
                < g.len(),
        forall|r: int, k: int|
            0 <= r < roots.len() && 0 <= k < roots[r].owners@.len() ==> g[#[trigger] roots[r].owners@[k]
                as int] == g[roots[r].owners@[0] as int],
    ensures
        0 <= a < g.len(),
        0 <= b < g.len(),
        g[a] == g[b],
{
    let (r, k) = choose|r: int, k: int|
        0 <= r < roots.len() && 0 <= k < roots[r].owners@.len() && a == roots[r].owners@[0] && b
            == #[trigger] roots[r].owners@[k];
    assert(roots[r].owners@[0] < g.len());
}

proof fn lemma_pose_link_same(poses: Seq<[usize; 3]>, g: Seq<int>, a: int, b: int)
    requires
        pose_link(poses)(a, b),
        g.len() == poses.len(),
        forall|i: int, j: int, x: int, y: int|
            #![trigger poses[i][x], poses[j][y]]
            0 <= i < poses.len() && 0 <= j < poses.len() && 0 <= x < 3 && 0 <= y < 3 && poses[i][x] != 0
                && poses[i][x] == poses[j][y] ==> g[i] == g[j],
    ensures
        0 <= a < g.len(),
        0 <= b < g.len(),
        g[a] == g[b],
{
    let (x, y) = choose|x: int, y: int|
        0 <= x < 3 && 0 <= y < 3 && poses[a][x] != 0 && #[trigger] poses[a][x] == #[trigger] poses[b][y];
}

/// The scale a root is prepared at: unit when its first owner stays at
/// baseline, else the scale its first owner asks for.
pub open spec fn spec_root_scale(root: RootOwners, blocked: Seq<bool>, scale_bits: Seq<u32>) -> u32 {
    let owner = root.owners@[0] as int;
    if blocked[owner] {
        UNIT_SCALE_BITS
    } else {
        scale_bits[owner]
    }
}

/// Every root has an owner, and every owner is a consumer.
pub open spec fn roots_owned(roots: Seq<RootOwners>, count: nat) -> bool {
    forall|r: int|
        0 <= r < roots.len() ==> #[trigger] roots[r].owners@.len() > 0 && forall|k: int|
            0 <= k < roots[r].owners@.len() ==> #[trigger] roots[r].owners@[k] < count
}

/// The scale each root is prepared at.
pub fn root_scales(roots: &Vec<RootOwners>, blocked: &Vec<bool>, scale_bits: &Vec<u32>) -> (scales: Vec<
    u32,
>)
    requires
        blocked@.len() == scale_bits@.len(),
        roots_owned(roots@, blocked@.len()),
    ensures
        scales@.len() == roots@.len(),
        forall|r: int|
            0 <= r < roots@.len() ==> #[trigger] scales@[r] == spec_root_scale(
                roots@[r],
                blocked@,
                scale_bits@,
            ),
{
    let mut scales: Vec<u32> = Vec::new();
    let mut r: usize = 0;
    while r < roots.len()
        invariant
            0 <= r <= roots@.len(),
            blocked@.len() == scale_bits@.len(),
            roots_owned(roots@, blocked@.len()),
            scales@.len() == r,
            forall|q: int|
                0 <= q < r ==> #[trigger] scales@[q] == spec_root_scale(roots@[q], blocked@, scale_bits@),
        decreases roots@.len() - r,
    {
        let root = &roots[r];
        proof {
            assert(roots@[r as int].owners@.len() > 0);
            assert(roots@[r as int].owners@[0] < blocked@.len());
        }
        let owner = root.owners[0];
        let bits = if blocked[owner] {
            UNIT_SCALE_BITS
        } else {
            scale_bits[owner]
        };
        scales.push(bits);
        r = r + 1;
    }
    scales
}

/// The spans of the first `n` roots that are scaled, in root order.
pub open spec fn spec_protected(roots: Seq<RootOwners>, scales: Seq<u32>, n: nat) -> Seq<(usize, usize)>
    decreases n,
{
    if n == 0 {
        Seq::empty()
    } else {
        let before = spec_protected(roots, scales, (n - 1) as nat);
        if scales[n - 1] != UNIT_SCALE_BITS {
            before + roots[n - 1].spans@
        } else {
            before
        }
    }
}

/// The spans that must stay original for other consumers: those of every
/// root prepared at a scale other than unit.
pub fn protected_spans(roots: &Vec<RootOwners>, scales: &Vec<u32>) -> (protected: Vec<(usize, usize)>)
    requires
        scales@.len() == roots@.len(),
    ensures
        protected@ == spec_protected(roots@, scales@, roots@.len()),
{
    let mut protected: Vec<(usize, usize)> = Vec::new();
    let mut r: usize = 0;
    while r < roots.len()
        invariant
            0 <= r <= roots@.len(),
            scales@.len() == roots@.len(),
            protected@ == spec_protected(roots@, scales@, r as nat),
        decreases roots@.len() - r,
    {
        if scales[r] != UNIT_SCALE_BITS {
            let spans = &roots[r].spans;
            let ghost before = protected@;
            let mut k: usize = 0;
            while k < spans.len()
                invariant
                    0 <= k <= spans@.len(),
                    protected@ == before + spans@.subrange(0, k as int),
                decreases spans@.len() - k,
            {
                protected.push(spans[k]);
                proof {
                    assert(spans@.subrange(0, k + 1) =~= spans@.subrange(0, k as int).push(spans@[k as int]));
                }
                k = k + 1;
            }
            proof {
                assert(spans@.subrange(0, spans@.len() as int) =~= spans@);
            }
        }
        r = r + 1;
    }
    protected
}

/// Two members of one group reach the same decision: both stay at baseline
/// or neither does, and when neither does they ask for the same scale.
pub proof fn same_group_same_decision(
    groups: Seq<int>,
    rejected: Seq<bool>,
    scale_bits: Seq<u32>,
    i: int,
    j: int,
)
    requires
        0 <= i < groups.len(),
        0 <= j < groups.len(),
        groups[i] == groups[j],
    ensures
        group_blocked(groups, rejected, scale_bits, i) == group_blocked(groups, rejected, scale_bits, j),
        !group_blocked(groups, rejected, scale_bits, i) ==> scale_bits[i] == scale_bits[j],
{
    if scale_bits[i] != scale_bits[j] {
        assert(groups[j] == groups[i] && scale_bits[j] != scale_bits[i]);
        assert(groups[i] == groups[j] && scale_bits[i] != scale_bits[j]);
    }
    if group_blocked(groups, rejected, scale_bits, i) {
        let k = choose|k: int|
            0 <= k < groups.len() && #[trigger] groups[k] == groups[i] && (rejected[k] || scale_bits[k]
                != scale_bits[i]);
        if !rejected[k] && scale_bits[k] == scale_bits[j] {
            assert(groups[i] == groups[j] && scale_bits[i] != scale_bits[j]);
        }
    }
    if group_blocked(groups, rejected, scale_bits, j) {
        let k = choose|k: int|
            0 <= k < groups.len() && #[trigger] groups[k] == groups[j] && (rejected[k] || scale_bits[k]
                != scale_bits[j]);
        if !rejected[k] && scale_bits[k] == scale_bits[i] {
            assert(groups[j] == groups[i] && scale_bits[j] != scale_bits[i]);
        }
    }
}

/// Whichever owner of a root is asked, the root is prepared at the same
/// scale: in a sharing plan a root's owners share a group, so they stay at
/// baseline together or ask for one scale.
pub proof fn every_owner_gives_the_root_scale(
    groups: Seq<int>,
    rejected: Seq<bool>,
    scale_bits: Seq<u32>,
    blocked: Seq<bool>,
    roots: Seq<RootOwners>,
    poses: Seq<[usize; 3]>,
    r: int,
    k: int,
)
    requires
        groups.len() == scale_bits.len(),
        blocked.len() == groups.len(),
        forall|i: int, j: int|
            0 <= i < groups.len() && 0 <= j < groups.len() ==> (#[trigger] groups[i] == #[trigger] groups[j]
                <==> connected(unit_groups(groups.len()), sharing_link(roots, poses), i, j)),
        forall|i: int|
            0 <= i < groups.len() ==> #[trigger] blocked[i] == group_blocked(groups, rejected, scale_bits, i),
        roots_owned(roots, groups.len()),
        0 <= r < roots.len(),
        0 <= k < roots[r].owners@.len(),
    ensures
        (if blocked[roots[r].owners@[k] as int] {
            UNIT_SCALE_BITS
        } else {
            scale_bits[roots[r].owners@[k] as int]
        }) == spec_root_scale(roots[r], blocked, scale_bits),
{
    let a = roots[r].owners@[0] as int;
    let b = roots[r].owners@[k] as int;
    assert(roots[r].owners@.len() > 0);
    assert(a < groups.len());
    assert(b < groups.len());
    assert(root_link(roots)(a, b));
    assert(sharing_link(roots, poses)(a, b));
    lemma_connected_step(unit_groups(groups.len()), sharing_link(roots, poses), a, b);
    assert(groups[a] == groups[b]);
    same_group_same_decision(groups, rejected, scale_bits, a, b);
}

/// Two members of one group that ask for different scales both stay at
/// baseline.
pub proof fn differing_scales_block_the_group(
    groups: Seq<int>,
    rejected: Seq<bool>,
    scale_bits: Seq<u32>,
    i: int,
    j: int,
)
    requires
        0 <= i < groups.len(),
        0 <= j < groups.len(),
        groups[i] == groups[j],
        scale_bits[i] != scale_bits[j],
    ensures
        group_blocked(groups, rejected, scale_bits, i),
        group_blocked(groups, rejected, scale_bits, j),
{
    assert(groups[j] == groups[i] && scale_bits[j] != scale_bits[i]);
    assert(groups[i] == groups[j] && scale_bits[i] != scale_bits[j]);
}

/// A rejected consumer blocks every member of its group.
pub proof fn rejection_blocks_the_group(
    groups: Seq<int>,
    rejected: Seq<bool>,
    scale_bits: Seq<u32>,
    i: int,
    j: int,
)
    requires
        0 <= i < groups.len(),
        0 <= j < groups.len(),
        groups[i] == groups[j],
        rejected[j],
    ensures
        group_blocked(groups, rejected, scale_bits, i),
{
    assert(groups[j] == groups[i] && rejected[j]);
}

/// Two half-open spans share a byte.
pub open spec fn pair_overlaps(a: (usize, usize), b: (usize, usize)) -> bool {
    a.0 < b.1 && b.0 < a.1
}

/// Some span of `spans` shares a byte with some span of `protected`.
pub open spec fn spec_any_overlap(spans: Seq<(usize, usize)>, protected: Seq<(usize, usize)>) -> bool {
    exists|i: int, j: int|
        0 <= i < spans.len() && 0 <= j < protected.len() && pair_overlaps(
            #[trigger] spans[i],
            #[trigger] protected[j],
        )
}

/// Whether some span of `spans` shares a byte with a protected span.
pub fn any_overlap(spans: &Vec<(usize, usize)>, protected: &Vec<(usize, usize)>) -> (r: bool)
    ensures
        r == spec_any_overlap(spans@, protected@),
{
    let mut i: usize = 0;
    while i < spans.len()
        invariant
            i <= spans@.len(),
            forall|a: int, b: int|
                0 <= a < i && 0 <= b < protected@.len() ==> !pair_overlaps(
                    #[trigger] spans@[a],
                    #[trigger] protected@[b],
                ),
        decreases spans@.len() - i,
    {
        let (begin, end) = spans[i];
        let mut j: usize = 0;
        while j < protected.len()
            invariant
                i < spans@.len(),
                (begin, end) == spans@[i as int],
                j <= protected@.len(),
                forall|a: int, b: int|
                    0 <= a < i && 0 <= b < protected@.len() ==> !pair_overlaps(
                        #[trigger] spans@[a],
                        #[trigger] protected@[b],
                    ),
                forall|b: int| 0 <= b < j ==> !pair_overlaps(spans@[i as int], #[trigger] protected@[b]),
            decreases protected@.len() - j,
        {
            let (other_begin, other_end) = protected[j];
            if begin < other_end && other_begin < end {
                assert(pair_overlaps(spans@[i as int], protected@[j as int]));
                return true;
            }
            j = j + 1;
        }
        i = i + 1;
    }
    false
}

/// Whether an object's original is kept for a consumer that scales it: its
/// own prepared scale is not unit, or one of its spans aliases a span of a
/// resource that is being scaled.
pub fn retained_by_scaled_consumer(
    prepared_scale_bits: Option<u32>,
    spans: &Vec<(usize, usize)>,
    protected: &Vec<(usize, usize)>,
) -> (r: bool)
    ensures
        r == (prepared_scale_bits matches Some(bits) && bits != 0x3F80_0000u32 || (
        protected@.len() > 0 && spec_any_overlap(spans@, protected@))),
{
    match prepared_scale_bits {
        Some(bits) => {
            if bits != 0x3F80_0000u32 {
                return true;
            }
        },
        None => {},
    }
    if protected.len() == 0 {
        return false;
    }
    any_overlap(spans, protected)
}


/// Every span of every root prepared at a scale other than unit (above or
/// below it) is protected, and only spans of such roots are.
pub proof fn scaled_roots_protect_exactly_their_spans(roots: Seq<RootOwners>, scales: Seq<u32>, n: nat)
    requires
        n <= roots.len(),
        n <= scales.len(),
    ensures
        forall|r: int, k: int|
            0 <= r < n && 0 <= k < roots[r].spans@.len() && scales[r] != UNIT_SCALE_BITS
                ==> spec_protected(roots, scales, n).contains(#[trigger] roots[r].spans@[k]),
        forall|x: (usize, usize)|
            #[trigger] spec_protected(roots, scales, n).contains(x) ==> exists|r: int, k: int|
                0 <= r < n && 0 <= k < roots[r].spans@.len() && scales[r] != UNIT_SCALE_BITS
                    && roots[r].spans@[k] == x,
    decreases n,
{
    if n > 0 {
        let m = (n - 1) as nat;
        scaled_roots_protect_exactly_their_spans(roots, scales, m);
        let before = spec_protected(roots, scales, m);
        let after = spec_protected(roots, scales, n);
        let last = roots[n - 1].spans@;
        assert forall|r: int, k: int|
            0 <= r < n && 0 <= k < roots[r].spans@.len() && scales[r] != UNIT_SCALE_BITS implies after.contains(
            #[trigger] roots[r].spans@[k],
        ) by {
            if r < n - 1 {
                let j = choose|j: int| 0 <= j < before.len() && before[j] == roots[r].spans@[k];
                assert(after[j] == before[j]);
            } else {
                assert(after == before + last);
                assert(after[before.len() + k] == last[k]);
            }
        }
        assert forall|x: (usize, usize)| #[trigger] after.contains(x) implies exists|r: int, k: int|
            0 <= r < n && 0 <= k < roots[r].spans@.len() && scales[r] != UNIT_SCALE_BITS
                && roots[r].spans@[k] == x by {
            let j = choose|j: int| 0 <= j < after.len() && after[j] == x;
            if j < before.len() {
                assert(before[j] == x);
                assert(before.contains(x));
            } else {
                assert(scales[n - 1] != UNIT_SCALE_BITS);
                assert(after == before + last);
                assert(last[j - before.len()] == x);
                assert(roots[n - 1].spans@[j - before.len()] == x);
            }
        }
    }
}

} // verus!
