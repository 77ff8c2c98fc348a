//! The bounded top-K contributor store and the per-cell accumulator.
//!
//! Contributions are carried as the bit patterns of non-negative IEEE
//! doubles, whose unsigned integer order matches the numeric order; the
//! store keeps the largest `max` contributions, ejecting the smallest
//! (later observation first on ties) when full.

use vstd::prelude::*;
use vstd::multiset::Multiset;

use crate::order::{cell_le, CellId};

verus! {

/// The default cap on retained contributors.
pub const MAX_CONTRIBUTORS: usize = 25;

/// One contributing cell: its identity, the delta and contribution as
/// IEEE bit patterns, and its visitation counter.
#[derive(Debug, Clone)]
pub struct Contributor {
    pub id: CellId,
    pub delta_bits: u64,
    pub contribution_bits: u64,
    pub tie_break: u64,
}

/// The ejection order: smaller contribution first; on equal
/// contributions, the larger (later) counter leaves first.
pub open spec fn heap_lt(a: Contributor, b: Contributor) -> bool {
    a.contribution_bits < b.contribution_bits || (a.contribution_bits == b.contribution_bits
        && a.tie_break > b.tie_break)
}

/// Non-strict ejection order.
pub open spec fn heap_le(a: Contributor, b: Contributor) -> bool {
    !heap_lt(b, a)
}

fn heap_lt_exec(a: &Contributor, b: &Contributor) -> (r: bool)
    ensures
        r == heap_lt(*a, *b),
{
    a.contribution_bits < b.contribution_bits || (a.contribution_bits == b.contribution_bits
        && a.tie_break > b.tie_break)
}

/// Bounded store of the largest contributions seen.
#[derive(Debug)]
pub struct TopContributors {
    max: usize,
    items: Vec<Contributor>,
}

impl TopContributors {
    /// The retained contributors, in internal order.
    pub closed spec fn items_view(&self) -> Seq<Contributor> {
        self.items@
    }

    /// The configured cap.
    pub closed spec fn spec_max(&self) -> int {
        self.max as int
    }

    /// An empty store with the given cap.
    pub fn new(max: usize) -> (r: TopContributors)
        ensures
            r.items_view() == Seq::<Contributor>::empty(),
            r.spec_max() == max,
    {
        TopContributors { max, items: Vec::new() }
    }

    /// The configured cap.
    pub fn max(&self) -> (r: usize)
        ensures
            r as int == self.spec_max(),
    {
        self.max
    }

    /// How many contributors are retained.
    pub fn len(&self) -> (r: usize)
        ensures
            r == self.items_view().len(),
    {
        self.items.len()
    }

    /// Whether nothing is retained.
    pub fn is_empty(&self) -> (r: bool)
        ensures
            r == (self.items_view().len() == 0),
    {
        self.items.len() == 0
    }

    /// The smallest retained contribution, if any.
    pub fn min_contribution(&self) -> (r: Option<u64>)
        ensures
            r is Some <==> self.items_view().len() > 0,
            r matches Some(m) ==> (exists|i: int|
                0 <= i < self.items_view().len() && (#[trigger] self.items_view()[i]).contribution_bits
                    == m) && forall|i: int|
                0 <= i < self.items_view().len() ==> (#[trigger] self.items_view()[i]).contribution_bits
                    >= m,
    {
        let n = self.items.len();
        if n == 0 {
            return None;
        }
        let mut m = self.items[0].contribution_bits;
        let mut i: usize = 1;
        while i < n
            invariant
                1 <= i <= n,
                n == self.items@.len(),
                exists|j: int|
                    0 <= j < i && (#[trigger] self.items@[j]).contribution_bits == m,
                forall|j: int|
                    0 <= j < i ==> (#[trigger] self.items@[j]).contribution_bits >= m,
            decreases n - i,
        {
            if self.items[i].contribution_bits < m {
                m = self.items[i].contribution_bits;
            }
            i = i + 1;
        }
        Some(m)
    }

    /// Insert a contributor, ejecting the smallest when over the cap.
    pub fn push(&mut self, c: Contributor)
        ensures
            old(self).spec_max() == 0 ==> final(self).items_view() == old(self).items_view(),
            old(self).spec_max() > 0 && old(self).items_view().len() < old(self).spec_max()
                ==> final(self).items_view().to_multiset() == old(
                self,
            ).items_view().to_multiset().insert(c),
            old(self).spec_max() > 0 && old(self).items_view().len() >= old(self).spec_max()
                ==> exists|m: Contributor|
                {
                    &&& #[trigger] old(self).items_view().push(c).to_multiset().contains(m)
                    &&& final(self).items_view().to_multiset() == old(self).items_view().push(
                        c,
                    ).to_multiset().remove(m)
                    &&& forall|i: int|
                        0 <= i < final(self).items_view().len() ==> heap_le(
                            m,
                            #[trigger] final(self).items_view()[i],
                        )
                },
            final(self).spec_max() == old(self).spec_max(),
            final(self).items_view().len() == (if old(self).spec_max() == 0 {
                old(self).items_view().len() as int
            } else if old(self).items_view().len() < old(self).spec_max() {
                old(self).items_view().len() as int + 1
            } else {
                old(self).items_view().len() as int
            }),
            old(self).spec_max() == 0 ==> final(self).items_view().len() == old(
                self,
            ).items_view().len(),
    {
        proof {
            broadcast use vstd::seq_lib::group_to_multiset_ensures;

        }
        if self.max == 0 {
            return ;
        }
        if self.items.len() < self.max {
            self.items.push(c);
            return ;
        }
        // full: find the smallest of the stored items
        let n = self.items.len();
        let mut mi: usize = 0;
        let mut i: usize = 1;
        while i < n
            invariant
                0 <= mi < i <= n,
                n == self.items@.len(),
                forall|j: int| 0 <= j < i ==> heap_le(self.items@[mi as int], #[trigger] self.items@[j]),
            decreases n - i,
        {
            if heap_lt_exec(&self.items[i], &self.items[mi]) {
                mi = i;
            }
            i = i + 1;
        }
        if heap_lt_exec(&c, &self.items[mi]) {
            // the newcomer is the smallest of all: it is the one ejected
            proof {
                let all = old(self).items_view().push(c);
                assert(all[all.len() - 1] == c);
                assert(all.to_multiset().contains(c));
                assert(all.drop_last() =~= old(self).items_view());
                assert(all.to_multiset() =~= old(self).items_view().to_multiset().insert(c));
                assert(self.items@.to_multiset() =~= all.to_multiset().remove(c));
                assert forall|i2: int|
                    0 <= i2 < self.items@.len() implies heap_le(
                    c,
                    #[trigger] self.items@[i2],
                ) by {
                    assert(heap_le(self.items@[mi as int], self.items@[i2]));
                }
            }
            return ;
        }
        // eject the stored minimum and keep the newcomer
        let ghost pre = self.items@;
        let ghost m = self.items@[mi as int];
        let _ejected = self.items.remove(mi);
        self.items.push(c);
        proof {
            assert(pre.remove(mi as int).to_multiset() =~= pre.to_multiset().remove(m));
            assert(self.items@ =~= pre.remove(mi as int).push(c));
            assert(self.items@.to_multiset() =~= pre.to_multiset().remove(m).insert(c));
            let all = pre.push(c);
            assert(all.to_multiset() =~= pre.to_multiset().insert(c));
            assert(all[mi as int] == m);
            assert(all.to_multiset().contains(m));
            assert(self.items@.to_multiset() =~= all.to_multiset().remove(m));
            assert forall|i2: int|
                0 <= i2 < self.items@.len() implies heap_le(m, #[trigger] self.items@[i2]) by {
                if i2 < self.items@.len() - 1 {
                    let q = pre.remove(mi as int);
                    assert(self.items@[i2] == q[i2]);
                    if i2 < mi {
                        assert(q[i2] == pre[i2]);
                        assert(heap_le(m, pre[i2]));
                    } else {
                        assert(q[i2] == pre[i2 + 1]);
                        assert(heap_le(m, pre[i2 + 1]));
                    }
                } else {
                    assert(self.items@[i2] == c);
                }
            }
        }
    }

    /// Hand the retained contributors out.
    pub fn into_vec(self) -> (r: Vec<Contributor>)
        ensures
            r@ == self.items_view(),
    {
        self.items
    }
}

/// Running state of the diff pass: the largest absolute delta (as bits),
/// the count of cells above tolerance, and the top contributors.
#[derive(Debug)]
pub struct DiffAccumulator {
    pub max_abs_bits: u64,
    pub changed: u64,
    pub top: TopContributors,
}

impl DiffAccumulator {
    /// A fresh accumulator with the given contributor cap.
    pub fn new(max: usize) -> (r: DiffAccumulator)
        ensures
            r.max_abs_bits == 0,
            r.changed == 0,
            r.top.items_view() == Seq::<Contributor>::empty(),
            r.top.spec_max() == max,
    {
        DiffAccumulator { max_abs_bits: 0, changed: 0, top: TopContributors::new(max) }
    }

    /// A fresh accumulator with the default cap.
    pub fn with_default_max() -> (r: DiffAccumulator)
        ensures
            r.max_abs_bits == 0,
            r.changed == 0,
            r.top.items_view() == Seq::<Contributor>::empty(),
            r.top.spec_max() == MAX_CONTRIBUTORS as int,
    {
        DiffAccumulator::new(MAX_CONTRIBUTORS)
    }

    /// Record one evaluated cell: its absolute delta (bits), whether it
    /// exceeds the tolerance, and — when it does — its identity.
    pub fn observe(&mut self, id: CellId, delta_bits: u64, abs_bits: u64, exceeds: bool, tie: u64)
        requires
            old(self).changed < u64::MAX,
        ensures
            final(self).max_abs_bits == (if abs_bits > old(self).max_abs_bits {
                abs_bits
            } else {
                old(self).max_abs_bits
            }),
            final(self).changed == old(self).changed + (if exceeds {
                1u64
            } else {
                0u64
            }),
            final(self).top.spec_max() == old(self).top.spec_max(),
            !exceeds ==> final(self).top.items_view() == old(self).top.items_view(),
            exceeds ==> ({
                let c = Contributor { id, delta_bits, contribution_bits: abs_bits, tie_break: tie };
                &&& (old(self).top.spec_max() > 0 && old(self).top.items_view().len() < old(
                    self,
                ).top.spec_max() ==> final(self).top.items_view().to_multiset() == old(
                    self,
                ).top.items_view().to_multiset().insert(c))
                &&& (old(self).top.spec_max() == 0 ==> final(self).top.items_view() == old(
                    self,
                ).top.items_view())
                &&& final(self).top.items_view().len() == (if old(self).top.spec_max() == 0 {
                    old(self).top.items_view().len() as int
                } else if old(self).top.items_view().len() < old(self).top.spec_max() {
                    old(self).top.items_view().len() as int + 1
                } else {
                    old(self).top.items_view().len() as int
                })
                &&& forall|x: Contributor|
                    final(self).top.items_view().to_multiset().count(x) > 0 ==> old(
                        self,
                    ).top.items_view().to_multiset().count(x) > 0 || x == c
            }),
    {
        if abs_bits > self.max_abs_bits {
            self.max_abs_bits = abs_bits;
        }
        if exceeds {
            self.changed = self.changed + 1;
            let ghost pre = self.top.items_view();
            let c = Contributor { id, delta_bits, contribution_bits: abs_bits, tie_break: tie };
            self.top.push(c);
            proof {
                broadcast use vstd::seq_lib::group_to_multiset_ensures;

                let post = self.top.items_view();
                assert forall|x: Contributor| post.to_multiset().count(x) > 0 implies
                    pre.to_multiset().count(x) > 0 || x == c by {
                    if self.top.spec_max() == 0 {
                        assert(post == pre);
                    } else if pre.len() < self.top.spec_max() {
                        assert(post.to_multiset() == pre.to_multiset().insert(c));
                    } else {
                        let m = choose|m: Contributor|
                            {
                                &&& #[trigger] pre.push(c).to_multiset().contains(m)
                                &&& post.to_multiset() == pre.push(c).to_multiset().remove(m)
                                &&& forall|i: int|
                                    0 <= i < post.len() ==> heap_le(m, #[trigger] post[i])
                            };
                        assert(pre.push(c).to_multiset().count(x) > 0);
                        assert(pre.push(c).to_multiset() == pre.to_multiset().insert(c));
                    }
                }
            }
        }
    }
}

/// The contributor view used for sort reasoning.
pub open spec fn contrib_order_le(a: Contributor, b: Contributor) -> bool {
    a.contribution_bits > b.contribution_bits || (a.contribution_bits == b.contribution_bits
        && cell_le(a.id, b.id))
}

/// Sort contributors by contribution descending, then cell ascending.
#[verifier::rlimit(60)]
pub fn sort_contributors(items: Vec<Contributor>) -> (r: Vec<Contributor>)
    ensures
        r@.to_multiset() == items@.to_multiset(),
        r@.len() == items@.len(),
        forall|i: int, j: int|
            0 <= i < j < r@.len() ==> contrib_order_le(#[trigger] r@[i], #[trigger] r@[j]),
{
    proof {
        broadcast use vstd::seq_lib::group_to_multiset_ensures;

    }
    let ghost orig = items@;
    let mut input = items;
    let mut out: Vec<Contributor> = Vec::new();
    proof {
        assert(orig.to_multiset() =~= out@.to_multiset().add(input@.to_multiset()));
    }
    while input.len() > 0
        invariant
            orig.to_multiset() == out@.to_multiset().add(input@.to_multiset()),
            out@.len() + input@.len() == orig.len(),
            forall|i: int, j: int|
                0 <= i < j < out@.len() ==> contrib_order_le(#[trigger] out@[i], #[trigger] out@[j]),
        decreases input@.len(),
    {
        proof {
            broadcast use vstd::seq_lib::group_to_multiset_ensures;

        }
        let ghost pre_in = input@;
        let x = input.remove(0);
        proof {
            assert(pre_in.remove(0).to_multiset() =~= pre_in.to_multiset().remove(x));
            assert(pre_in.to_multiset().contains(x)) by {
                assert(pre_in[0] == x);
            }
        }
        // find the first element strictly after the newcomer
        let mut p: usize = 0;
        while p < out.len() && !contrib_lt_exec(&x, &out[p])
            invariant
                0 <= p <= out@.len(),
                forall|j: int| 0 <= j < p ==> contrib_order_le(#[trigger] out@[j], x),
            decreases out@.len() - p,
        {
            proof {
                lemma_contrib_connex(x, out@[p as int]);
            }
            p = p + 1;
        }
        let ghost pre = out@;
        out.insert(p, x);
        proof {
            let t = pre.insert(p as int, x);
            assert(out@ =~= t);
            assert(t.remove(p as int) =~= pre);
            assert(t.remove(p as int).to_multiset() =~= t.to_multiset().remove(t[p as int]));
            assert(t[p as int] == x);
            assert(t.to_multiset().count(x) > 0) by {
                assert(t.contains(x));
            }
            assert(t.to_multiset() =~= pre.to_multiset().insert(x));
            assert(out@.to_multiset().add(input@.to_multiset()) =~= orig.to_multiset());
            assert forall|i: int, j: int|
                0 <= i < j < out@.len() implies contrib_order_le(
                #[trigger] out@[i],
                #[trigger] out@[j],
            ) by {
                if i < p && j == p {
                    assert(out@[i] == pre[i]);
                } else if i == p && j > p {
                    assert(out@[j] == pre[j - 1]);
                    if p < pre.len() {
                        lemma_contrib_connex(x, pre[p as int]);
                        if j - 1 > p {
                            lemma_contrib_trans(x, pre[p as int], pre[j - 1]);
                        }
                    }
                } else if i < p && j > p {
                    assert(out@[i] == pre[i] && out@[j] == pre[j - 1]);
                } else if i > p && j > p {
                    assert(out@[i] == pre[i - 1] && out@[j] == pre[j - 1]);
                }
            }
        }
    }
    proof {
        assert(input@.to_multiset() =~= Multiset::<Contributor>::empty());
        assert(out@.to_multiset() =~= orig.to_multiset());
    }
    out
}

fn contrib_lt_exec(a: &Contributor, b: &Contributor) -> (r: bool)
    ensures
        r == (!contrib_order_le(*b, *a)),
{
    proof {
        crate::order::lemma_cell_trichotomy(a.id, b.id);
        crate::order::lemma_cell_trichotomy(b.id, a.id);
    }
    if a.contribution_bits != b.contribution_bits {
        a.contribution_bits > b.contribution_bits
    } else {
        crate::order::cell_lt_exec(&a.id, &b.id)
    }
}

/// Two contributors always relate one way or the other.
proof fn lemma_contrib_connex(a: Contributor, b: Contributor)
    ensures
        contrib_order_le(a, b) || contrib_order_le(b, a),
{
    crate::order::lemma_cell_trichotomy(a.id, b.id);
}

/// The contributor order is transitive.
proof fn lemma_contrib_trans(a: Contributor, b: Contributor, c: Contributor)
    requires
        contrib_order_le(a, b),
        contrib_order_le(b, c),
    ensures
        contrib_order_le(a, c),
{
    if a.contribution_bits == b.contribution_bits && b.contribution_bits == c.contribution_bits {
        crate::order::lemma_cell_le_trans(a.id, b.id, c.id);
    }
}

} // verus!
