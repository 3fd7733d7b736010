use vstd::prelude::*;
use crate::multipart::PartResult;

verus! {

/// No two results carry the same part number.
pub open spec fn distinct_part_numbers(s: Seq<PartResult>) -> bool {
    forall|i: int, j: int|
        0 <= i < j < s.len() ==> s[i].part_number != s[j].part_number
}

/// The results are ordered by part number.
pub open spec fn sorted_by_part_number(s: Seq<PartResult>) -> bool {
    forall|i: int, j: int|
        0 <= i < j < s.len() ==> s[i].part_number <= s[j].part_number
}

/// Some result in `s` carries part number `p`.
pub open spec fn contains_number(s: Seq<PartResult>, p: u32) -> bool {
    exists|i: int| 0 <= i < s.len() && s[i].part_number == p
}

/// Bookkeeping for the part-upload phase: parts are dispatched in file
/// order, at most `cap` at a time, and each completion is recorded with
/// the part number the server confirmed. `next` is the lowest part number
/// not dispatched yet; `in_flight` holds the dispatched, unconfirmed part
/// numbers; `done` collects the confirmations in completion order.
pub struct PartTracker {
    pub total: u32,
    pub cap: usize,
    pub next: u32,
    pub in_flight: Vec<u32>,
    pub done: Vec<PartResult>,
}

impl PartTracker {
    /// The tracker's invariant: part numbers 1 up to `next - 1` are
    /// partitioned between `in_flight` and `done`, with no number held
    /// twice, and no more than `cap` parts are in flight.
    pub open spec fn wf(self) -> bool {
        &&& self.total < u32::MAX
        &&& 1 <= self.next <= self.total as int + 1
        &&& self.cap >= 1
        &&& self.in_flight@.len() <= self.cap
        &&& self.in_flight@.no_duplicates()
        &&& forall|i: int|
            0 <= i < self.in_flight@.len() ==> 1 <= #[trigger] self.in_flight@[i] < self.next
        &&& distinct_part_numbers(self.done@)
        &&& forall|i: int|
            0 <= i < self.done@.len() ==> 1 <= (#[trigger] self.done@[i]).part_number < self.next
        &&& forall|i: int|
            0 <= i < self.done@.len() ==> !self.in_flight@.contains(
                (#[trigger] self.done@[i]).part_number,
            )
        &&& forall|p: u32|
            1 <= p < self.next ==> self.in_flight@.contains(p) || contains_number(self.done@, p)
        &&& self.done@.len() + self.in_flight@.len() == self.next - 1
    }

    /// Another part may be dispatched: chunks remain and a worker is free.
    pub open spec fn can_dispatch(self) -> bool {
        self.next <= self.total && self.in_flight@.len() < self.cap
    }

    /// Every part was dispatched and every confirmation recorded.
    pub open spec fn all_recorded(self) -> bool {
        self.next == self.total as int + 1 && self.in_flight@.len() == 0
    }

    pub fn new(total: u32, cap: usize) -> (t: PartTracker)
        requires
            cap >= 1,
            total < u32::MAX,
        ensures
            t.wf(),
            t.total == total,
            t.cap == cap,
            t.next == 1,
            t.in_flight@ == Seq::<u32>::empty(),
            t.done@ == Seq::<PartResult>::empty(),
    {
        let t = PartTracker {
            total,
            cap,
            next: 1,
            in_flight: Vec::new(),
            done: Vec::new(),
        };
        proof {
            assert(t.in_flight@ =~= Seq::<u32>::empty());
            assert(t.done@ =~= Seq::<PartResult>::empty());
        }
        t
    }

    /// Hand out the next part number to dispatch, in file order, or
    /// nothing when all parts are dispatched or `cap` are already in
    /// flight.
    pub fn start_next(&mut self) -> (r: Option<u32>)
        requires
            old(self).wf(),
        ensures
            final(self).wf(),
            final(self).total == old(self).total,
            final(self).cap == old(self).cap,
            final(self).done == old(self).done,
            match r {
                Some(p) => old(self).can_dispatch() && p == old(self).next && final(self).next
                    == old(self).next + 1 && final(self).in_flight@ == old(self).in_flight@.push(p),
                None => !old(self).can_dispatch() && *final(self) == *old(self),
            },
    {
        if self.next <= self.total && self.in_flight.len() < self.cap {
            let p = self.next;
            self.in_flight.push(p);
            self.next = self.next + 1;
            proof {
                let s = old(self).in_flight@;
                let t = self.in_flight@;
                assert(t[s.len() as int] == p);
                assert forall|k: int, l: int| 0 <= k < l < t.len() implies t[k] != t[l] by {
                    if l < s.len() {
                        assert(t[k] == s[k] && t[l] == s[l]);
                    } else {
                        assert(t[k] == s[k] && t[l] == p);
                    }
                }
                assert(t.no_duplicates());
                assert forall|q: u32|
                    1 <= q < self.next implies t.contains(q) || contains_number(
                    self.done@,
                    q,
                ) by {
                    if q == p {
                        assert(t[s.len() as int] == q);
                    } else {
                        if s.contains(q) {
                            let k = choose|k: int| 0 <= k < s.len() && s[k] == q;
                            assert(t[k] == q);
                        }
                    }
                }
                assert forall|i: int|
                    0 <= i < self.done@.len() implies !t.contains(
                    (#[trigger] self.done@[i]).part_number,
                ) by {
                    let pn = self.done@[i].part_number;
                    if t.contains(pn) {
                        let k = choose|k: int| 0 <= k < t.len() && t[k] == pn;
                        if k < s.len() {
                            assert(s[k] == pn);
                        } else {
                            assert(pn == p);
                        }
                    }
                }
            }
            Some(p)
        } else {
            None
        }
    }

    /// Record one server confirmation. The confirmed part number must be
    /// one of the parts in flight; it moves from `in_flight` to `done`,
    /// appended in completion order.
    pub fn record(&mut self, part: PartResult)
        requires
            old(self).wf(),
            old(self).in_flight@.contains(part.part_number),
        ensures
            final(self).wf(),
            final(self).total == old(self).total,
            final(self).cap == old(self).cap,
            final(self).next == old(self).next,
            final(self).done@ == old(self).done@.push(part),
            exists|k: int|
                0 <= k < old(self).in_flight@.len() && old(self).in_flight@[k]
                    == part.part_number && final(self).in_flight@ == old(self).in_flight@.remove(k),
            final(self).in_flight@.len() == old(self).in_flight@.len() - 1,
            forall|q: u32|
                q != part.part_number ==> (final(self).in_flight@.contains(q) <==> old(
                    self,
                ).in_flight@.contains(q)),
            !final(self).in_flight@.contains(part.part_number),
    {
        let n = self.in_flight.len();
        let mut i: usize = 0;
        while i < n && self.in_flight[i] != part.part_number
            invariant
                n == self.in_flight@.len(),
                i <= n,
                forall|k: int| 0 <= k < i ==> self.in_flight@[k] != part.part_number,
                self.in_flight@.contains(part.part_number),
                *self == *old(self),
            decreases n - i,
        {
            i = i + 1;
        }
        proof {
            if i >= n {
                let w = choose|k: int|
                    0 <= k < self.in_flight@.len() && self.in_flight@[k] == part.part_number;
                assert(self.in_flight@[w] != part.part_number);
            }
            assert(i < n);
        }
        let ghost before = self.in_flight@;
        self.in_flight.remove(i);
        self.done.push(part);
        proof {
            before.remove_ensures(i as int);
            let after = self.in_flight@;
            let pn = part.part_number;
            // membership is unchanged for every other number, and the
            // removed number is gone entirely (it occurred only once)
            assert forall|q: u32| q != pn && before.contains(q) implies after.contains(q) by {
                let k = choose|k: int| 0 <= k < before.len() && before[k] == q;
                if k < i {
                    assert(after[k] == q);
                } else {
                    assert(after[k - 1] == q);
                }
            }
            assert forall|q: u32| after.contains(q) implies before.contains(q) by {
                let k = choose|k: int| 0 <= k < after.len() && after[k] == q;
                if k < i {
                    assert(before[k] == q);
                } else {
                    assert(before[k + 1] == q);
                }
            }
            assert forall|k: int| 0 <= k < after.len() implies after[k] != pn by {
                if k < i {
                    assert(after[k] == before[k]);
                } else {
                    assert(after[k] == before[k + 1]);
                }
            }
            assert(!after.contains(pn));
            // no number is held twice after the removal
            assert forall|k: int, l: int| 0 <= k < l < after.len() implies after[k] != after[l] by {
                let bk: int = if k < i { k } else { k + 1 };
                let bl: int = if l < i { l } else { l + 1 };
                assert(after[k] == before[bk]);
                assert(after[l] == before[bl]);
            }
            // the partition of 1..next survives the move
            assert forall|p: u32|
                1 <= p < self.next implies self.in_flight@.contains(p) || contains_number(
                self.done@,
                p,
            ) by {
                if p == pn {
                    assert(self.done@[self.done@.len() - 1].part_number == p);
                } else {
                    if before.contains(p) {
                        assert(after.contains(p));
                    } else {
                        assert(contains_number(old(self).done@, p));
                        let k = choose|k: int|
                            0 <= k < old(self).done@.len() && old(self).done@[k].part_number == p;
                        assert(self.done@[k].part_number == p);
                    }
                }
            }
            // the new entry's number was in flight, so it is fresh in done
            assert forall|k: int|
                0 <= k < old(self).done@.len() implies (#[trigger] old(
                self,
            ).done@[k]).part_number != pn by {}
        }
    }

    /// All parts are dispatched and confirmed.
    pub fn is_complete(&self) -> (r: bool)
        requires
            self.wf(),
        ensures
            r <==> self.all_recorded(),
    {
        self.next == self.total + 1 && self.in_flight.len() == 0
    }

    /// Once every confirmation is in, the recorded part numbers are
    /// exactly 1 through `total`: as many results as chunks, no number
    /// twice, none missing.
    pub proof fn lemma_complete_parts_cover_range(self)
        requires
            self.wf(),
            self.all_recorded(),
        ensures
            self.done@.len() == self.total,
            distinct_part_numbers(self.done@),
            forall|i: int|
                0 <= i < self.done@.len() ==> 1 <= (#[trigger] self.done@[i]).part_number
                    <= self.total,
            forall|p: u32| 1 <= p <= self.total ==> contains_number(self.done@, p),
    {
    }
}

/// Results with pairwise distinct part numbers are pairwise distinct
/// values, so a rearrangement (any sequence with the same multiset)
/// keeps the length, keeps the numbers distinct, and draws every entry
/// from the original.
pub proof fn lemma_rearrangement_keeps_part_numbers(a: Seq<PartResult>, b: Seq<PartResult>)
    requires
        a.to_multiset() == b.to_multiset(),
        distinct_part_numbers(a),
    ensures
        b.len() == a.len(),
        distinct_part_numbers(b),
        forall|i: int| 0 <= i < b.len() ==> a.contains(#[trigger] b[i]),
{
    broadcast use vstd::seq_lib::group_to_multiset_ensures;

    assert forall|i: int, j: int| 0 <= i < j < a.len() implies a[i] != a[j] by {
        assert(a[i].part_number != a[j].part_number);
    }
    assert(a.no_duplicates());
    assert(a.to_multiset().len() == a.len());
    assert(b.to_multiset().len() == b.len());
    a.lemma_multiset_has_no_duplicates();
    b.lemma_multiset_has_no_duplicates_conv();
    assert forall|i: int| 0 <= i < b.len() implies a.contains(#[trigger] b[i]) by {
        assert(b.contains(b[i]));
        assert(b.to_multiset().count(b[i]) > 0);
    }
    assert forall|i: int, j: int|
        0 <= i < j < b.len() implies b[i].part_number != b[j].part_number by {
        assert(b[i] != b[j]);
        assert(a.contains(b[i]));
        assert(a.contains(b[j]));
        let k = choose|k: int| 0 <= k < a.len() && a[k] == b[i];
        let l = choose|l: int| 0 <= l < a.len() && a[l] == b[j];
        assert(k != l);
    }
}

proof fn lemma_sorted_lower_bound(s: Seq<PartResult>, i: int)
    requires
        sorted_by_part_number(s),
        distinct_part_numbers(s),
        forall|k: int| 0 <= k < s.len() ==> 1 <= (#[trigger] s[k]).part_number,
        0 <= i < s.len(),
    ensures
        s[i].part_number >= i + 1,
    decreases i,
{
    if i > 0 {
        lemma_sorted_lower_bound(s, i - 1);
        assert(s[i - 1].part_number < s[i].part_number);
    }
}

proof fn lemma_sorted_upper_bound(s: Seq<PartResult>, i: int, n: int)
    requires
        sorted_by_part_number(s),
        distinct_part_numbers(s),
        forall|k: int| 0 <= k < s.len() ==> (#[trigger] s[k]).part_number <= n,
        0 <= i < s.len(),
    ensures
        s[i].part_number <= n - (s.len() - 1 - i),
    decreases s.len() - i,
{
    if i < s.len() - 1 {
        lemma_sorted_upper_bound(s, i + 1, n);
        assert(s[i].part_number < s[i + 1].part_number);
    }
}

/// A sorted sequence of `n` results whose part numbers are distinct and
/// drawn from 1 through `n` numbers its entries exactly 1, 2, ..., n.
pub proof fn lemma_sorted_distinct_is_contiguous(s: Seq<PartResult>, n: int)
    requires
        s.len() == n,
        sorted_by_part_number(s),
        distinct_part_numbers(s),
        forall|k: int| 0 <= k < n ==> 1 <= (#[trigger] s[k]).part_number <= n,
    ensures
        forall|i: int| 0 <= i < n ==> (#[trigger] s[i]).part_number == i + 1,
{
    assert forall|i: int| 0 <= i < n implies (#[trigger] s[i]).part_number == i + 1 by {
        lemma_sorted_lower_bound(s, i);
        lemma_sorted_upper_bound(s, i, n);
    }
}

/// The collected confirmations of a finished transfer, re-sorted by part
/// number, form the contiguous sequence 1 through N, one entry per chunk,
/// with no duplicate and no gap — however the completions interleaved.
pub proof fn lemma_completed_parts_contiguous(t: PartTracker, s: Seq<PartResult>)
    requires
        t.wf(),
        t.all_recorded(),
        sorted_by_part_number(s),
        s.to_multiset() == t.done@.to_multiset(),
    ensures
        s.len() == t.total,
        forall|i: int| 0 <= i < s.len() ==> (#[trigger] s[i]).part_number == i + 1,
{
    t.lemma_complete_parts_cover_range();
    lemma_rearrangement_keeps_part_numbers(t.done@, s);
    assert forall|k: int| 0 <= k < s.len() implies 1 <= (#[trigger] s[k]).part_number
        <= t.total by {
        assert(t.done@.contains(s[k]));
        let j = choose|j: int| 0 <= j < t.done@.len() && t.done@[j] == s[k];
        assert(1 <= t.done@[j].part_number <= t.total);
    }
    lemma_sorted_distinct_is_contiguous(s, t.total as int);
}

} // verus!
