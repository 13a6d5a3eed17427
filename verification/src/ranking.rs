//! The order in which flows are reported.

use vstd::prelude::*;

use crate::flow::FlowKey;

verus! {

/// A flow that is to be reported, with what decides its place.
#[derive(Clone, Copy, Debug)]
pub struct Ranked {
    pub key: FlowKey,
    /// Bytes in both directions together.
    pub total: u128,
    /// Whether the flow is still in the live table.
    pub live: bool,
}

impl Ranked {
    /// Larger totals come first; among equal totals, live flows do.
    pub open spec fn may_precede(self, other: Ranked) -> bool {
        self.total > other.total || (self.total == other.total && (self.live || !other.live))
    }

    fn goes_first(&self, other: &Ranked) -> (r: bool)
        ensures
            r == self.may_precede(*other),
    {
        self.total > other.total || (self.total == other.total && (self.live || !other.live))
    }
}

/// Every item may precede all that follow it.
pub open spec fn is_ranked(s: Seq<Ranked>) -> bool {
    forall|i: int, j: int| 0 <= i < j < s.len() ==> (#[trigger] s[i]).may_precede(#[trigger] s[j])
}

/// Merges two ranked lists.
fn merge(a: &Vec<Ranked>, b: &Vec<Ranked>) -> (out: Vec<Ranked>)
    requires
        is_ranked(a@),
        is_ranked(b@),
    ensures
        is_ranked(out@),
        out@.to_multiset() == a@.to_multiset().add(b@.to_multiset()),
{
    broadcast use vstd::seq_lib::group_to_multiset_ensures;

    let mut out: Vec<Ranked> = Vec::new();
    let mut i: usize = 0;
    let mut j: usize = 0;
    assert(a@.take(0) =~= Seq::empty());
    assert(b@.take(0) =~= Seq::empty());
    assert(out@.to_multiset() =~= a@.take(0).to_multiset().add(b@.take(0).to_multiset()));
    while i < a.len() || j < b.len()
        invariant
            i <= a@.len(),
            j <= b@.len(),
            is_ranked(a@),
            is_ranked(b@),
            is_ranked(out@),
            forall|p: int, q: int|
                0 <= p < out@.len() && i <= q < a@.len() ==> (#[trigger] out@[p]).may_precede(
                    #[trigger] a@[q],
                ),
            forall|p: int, q: int|
                0 <= p < out@.len() && j <= q < b@.len() ==> (#[trigger] out@[p]).may_precede(
                    #[trigger] b@[q],
                ),
            out@.to_multiset() == a@.take(i as int).to_multiset().add(
                b@.take(j as int).to_multiset(),
            ),
        decreases a@.len() - i + b@.len() - j,
    {
        broadcast use vstd::seq_lib::group_to_multiset_ensures;

        if j >= b.len() || (i < a.len() && a[i].goes_first(&b[j])) {
            let item = a[i];
            out.push(item);
            proof {
                assert(a@.take(i + 1) =~= a@.take(i as int).push(item));
                assert(out@.to_multiset() =~= a@.take(i + 1).to_multiset().add(
                    b@.take(j as int).to_multiset(),
                ));
                assert forall|q: int| j <= q < b@.len() implies item.may_precede(
                    #[trigger] b@[q],
                ) by {
                    assert(item.may_precede(b@[j as int]));
                    if q > j {
                        assert(b@[j as int].may_precede(b@[q]));
                    }
                }
            }
            i += 1;
        } else {
            let item = b[j];
            out.push(item);
            proof {
                assert(b@.take(j + 1) =~= b@.take(j as int).push(item));
                assert(out@.to_multiset() =~= a@.take(i as int).to_multiset().add(
                    b@.take(j + 1).to_multiset(),
                ));
                assert forall|q: int| i <= q < a@.len() implies item.may_precede(
                    #[trigger] a@[q],
                ) by {
                    assert(item.may_precede(a@[i as int]));
                    if q > i {
                        assert(a@[i as int].may_precede(a@[q]));
                    }
                }
            }
            j += 1;
        }
    }
    assert(a@.take(i as int) =~= a@);
    assert(b@.take(j as int) =~= b@);
    out
}

/// Ranks the items from `lo` up to `hi`.
fn rank_range(items: &Vec<Ranked>, lo: usize, hi: usize) -> (out: Vec<Ranked>)
    requires
        lo <= hi <= items@.len(),
    ensures
        is_ranked(out@),
        out@.to_multiset() == items@.subrange(lo as int, hi as int).to_multiset(),
    decreases hi - lo,
{
    if hi - lo == 0 {
        let out: Vec<Ranked> = Vec::new();
        assert(out@ =~= items@.subrange(lo as int, hi as int));
        out
    } else if hi - lo == 1 {
        let mut out: Vec<Ranked> = Vec::new();
        out.push(items[lo]);
        assert(out@ =~= items@.subrange(lo as int, hi as int));
        out
    } else {
        let mid: usize = lo + (hi - lo) / 2;
        let a = rank_range(items, lo, mid);
        let b = rank_range(items, mid, hi);
        proof {
            let x = items@.subrange(lo as int, mid as int);
            let y = items@.subrange(mid as int, hi as int);
            vstd::seq_lib::lemma_multiset_commutative(x, y);
            assert(x + y =~= items@.subrange(lo as int, hi as int));
        }
        merge(&a, &b)
    }
}

/// Puts the items in the order in which they are reported.
pub fn rank(items: &Vec<Ranked>) -> (out: Vec<Ranked>)
    ensures
        is_ranked(out@),
        out@.to_multiset() == items@.to_multiset(),
{
    let out = rank_range(items, 0, items.len());
    assert(items@.subrange(0, items@.len() as int) =~= items@);
    out
}

/// Ranked items come largest total first, and among those with one total the live
/// ones come first.
pub proof fn law_largest_total_comes_first(s: Seq<Ranked>, i: int, j: int)
    requires
        is_ranked(s),
        0 <= i < j < s.len(),
    ensures
        s[i].total >= s[j].total,
        s[i].total == s[j].total && s[j].live ==> s[i].live,
{
    assert(s[i].may_precede(s[j]));
}

} // verus!
