//! Slices of memory and sets of addresses.

use vstd::prelude::*;

verus! {

/// A slice of memory: the addresses from `start` up to, but not with, `end`.
#[derive(Clone, Copy, Debug, PartialEq, Eq, Structural)]
pub struct Slice {
    /// The first address.
    pub start: usize,
    /// The address behind the last one.
    pub end: usize,
}

impl Slice {
    /// The slice does not end before it starts.
    pub open spec fn wf(self) -> bool {
        self.start <= self.end
    }

    /// Whether the slice holds an address.
    pub open spec fn has(self, i: int) -> bool {
        self.start <= i < self.end
    }

    /// The number of addresses.
    pub open spec fn size(self) -> nat {
        (self.end - self.start) as nat
    }

    /// The number of addresses.
    pub fn len(&self) -> (r: usize)
        requires
            self.wf(),
        ensures
            r == self.size(),
    {
        self.end - self.start
    }
}

/// Some range holds the address.
pub open spec fn covers(ranges: Seq<Slice>, i: int) -> bool {
    exists|k: int| 0 <= k < ranges.len() && (#[trigger] ranges[k]).has(i)
}

/// The ranges are not empty, in order, and do not touch.
pub open spec fn canonical(ranges: Seq<Slice>) -> bool {
    &&& forall|k: int| 0 <= k < ranges.len() ==> (#[trigger] ranges[k]).start < ranges[k].end
    &&& forall|k: int, l: int|
        0 <= k < l < ranges.len() ==> (#[trigger] ranges[k]).end < (#[trigger] ranges[l]).start
}

/// The number of addresses in the first `n` ranges.
pub open spec fn offset(ranges: Seq<Slice>, n: nat) -> nat
    decreases n,
{
    if n == 0 {
        0
    } else {
        offset(ranges, (n - 1) as nat) + ranges[n - 1].size()
    }
}

/// The first ranges hold no more addresses than there are below their end, and no more than all
/// ranges hold.
pub proof fn lemma_offset(ranges: Seq<Slice>, n: nat)
    requires
        canonical(ranges),
        n <= ranges.len(),
    ensures
        n > 0 ==> offset(ranges, n) <= ranges[n - 1].end,
        offset(ranges, n) <= offset(ranges, ranges.len()),
    decreases ranges.len() - n,
{
    lemma_offset_end(ranges, n);
    if n < ranges.len() {
        lemma_offset(ranges, n + 1);
    }
}

proof fn lemma_offset_end(ranges: Seq<Slice>, n: nat)
    requires
        canonical(ranges),
        n <= ranges.len(),
    ensures
        n > 0 ==> offset(ranges, n) <= ranges[n - 1].end,
    decreases n,
{
    if n > 1 {
        lemma_offset_end(ranges, (n - 1) as nat);
        assert(ranges[n - 2].end < ranges[n - 1].start);
    }
    if n == 1 {
        reveal_with_fuel(offset, 2);
    }
}

/// A set of addresses, held as ranges.
#[derive(Debug)]
pub struct RangeSet {
    /// The ranges, in order.
    pub ranges: Vec<Slice>,
}

impl RangeSet {
    /// The ranges are in their one canonical form.
    pub open spec fn wf(&self) -> bool {
        canonical(self.ranges@)
    }

    /// The addresses of the set.
    pub open spec fn addresses(&self) -> Set<int> {
        Set::new(|i: int| covers(self.ranges@, i))
    }

    /// The number of addresses.
    pub open spec fn size(&self) -> nat {
        offset(self.ranges@, self.ranges@.len())
    }

    /// Creates an empty set.
    pub fn new() -> (r: RangeSet)
        ensures
            r.wf(),
            r.ranges@ == Seq::<Slice>::empty(),
    {
        RangeSet { ranges: Vec::new() }
    }

    /// Creates the set of the addresses of a slice.
    pub fn from_slice(slice: Slice) -> (r: RangeSet)
        ensures
            r.wf(),
            forall|i: int| r.addresses().contains(i) == slice.has(i),
            r.ranges@ == (if slice.start < slice.end {
                seq![slice]
            } else {
                seq![]
            }),
    {
        let mut ranges: Vec<Slice> = Vec::new();
        if slice.start < slice.end {
            ranges.push(slice);
            assert(ranges@ =~= seq![slice]);
            assert(ranges@[0] == slice);
        }
        RangeSet { ranges }
    }

    /// Whether the set is empty.
    pub fn is_empty(&self) -> (r: bool)
        ensures
            r == (self.ranges@.len() == 0),
    {
        self.ranges.len() == 0
    }

    /// The number of addresses.
    pub fn len(&self) -> (r: usize)
        requires
            self.wf(),
        ensures
            r == self.size(),
    {
        let mut n: usize = 0;
        for k in 0..self.ranges.len()
            invariant
                self.wf(),
                n == offset(self.ranges@, k as nat),
        {
            proof {
                lemma_offset(self.ranges@, (k + 1) as nat);
                assert(self.ranges@[k as int].start < self.ranges@[k as int].end);
            }
            n = n + self.ranges[k].len();
        }
        n
    }

    /// Copies the set.
    pub fn copy(&self) -> (r: RangeSet)
        ensures
            r.ranges@ == self.ranges@,
    {
        let ranges = self.ranges.clone();
        assert(ranges@ =~= self.ranges@);
        RangeSet { ranges }
    }

    /// Whether two sets are the same.
    pub fn equals(&self, other: &RangeSet) -> (r: bool)
        ensures
            r == (self.ranges@ == other.ranges@),
    {
        if self.ranges.len() != other.ranges.len() {
            return false;
        }
        for k in 0..self.ranges.len()
            invariant
                self.ranges.len() == other.ranges.len(),
                self.ranges@.take(k as int) == other.ranges@.take(k as int),
        {
            if self.ranges[k] != other.ranges[k] {
                assert(self.ranges@[k as int] != other.ranges@[k as int]);
                return false;
            }
            assert(self.ranges@.take(k + 1) =~= self.ranges@.take(k as int).push(
                self.ranges@[k as int],
            ));
            assert(other.ranges@.take(k + 1) =~= other.ranges@.take(k as int).push(
                other.ranges@[k as int],
            ));
        }
        assert(self.ranges@.take(self.ranges.len() as int) =~= self.ranges@);
        assert(other.ranges@.take(self.ranges.len() as int) =~= other.ranges@);
        true
    }

    /// The addresses of either set.
    pub fn union(&self, other: &RangeSet) -> (r: RangeSet)
        requires
            self.wf(),
            other.wf(),
        ensures
            r.wf(),
            r.addresses() == self.addresses().union(other.addresses()),
    {
        let (a, b) = (&self.ranges, &other.ranges);
        let mut out: Vec<Slice> = Vec::new();
        let mut i: usize = 0;
        let mut j: usize = 0;
        while i < a.len() || j < b.len()
            invariant
                canonical(a@),
                canonical(b@),
                canonical(out@),
                i <= a.len(),
                j <= b.len(),
                out.len() > 0 && i < a.len() ==> out@.last().start <= a@[i as int].start,
                out.len() > 0 && j < b.len() ==> out@.last().start <= b@[j as int].start,
                forall|x: int|
                    covers(out@, x) == (covers(a@.take(i as int), x) || covers(
                        b@.take(j as int),
                        x,
                    )),
            decreases a.len() - i + b.len() - j,
        {
            let ghost (before, i0, j0) = (out@, i as int, j as int);
            let from_a = j >= b.len() || (i < a.len() && a[i].start <= b[j].start);
            let next = if from_a {
                a[i]
            } else {
                b[j]
            };
            if from_a {
                assert(i + 1 < a.len() ==> a@[i as int].end < a@[i + 1].start);
                i = i + 1;
            } else {
                assert(j + 1 < b.len() ==> b@[j as int].end < b@[j + 1].start);
                j = j + 1;
            }
            assert(next.start < next.end);
            if out.len() > 0 && next.start <= out[out.len() - 1].end {
                let last = out[out.len() - 1];
                let end: usize = if last.end < next.end {
                    next.end
                } else {
                    last.end
                };
                let at: usize = out.len() - 1;
                out.set(at, Slice { start: last.start, end });
                proof {
                    lemma_replace_last(before, out@, next);
                }
            } else {
                out.push(next);
                proof {
                    lemma_push_range(before, next);
                }
            }
            proof {
                if from_a {
                    lemma_take_covers(a@, i0);
                    assert(a@.take(i as int) == a@.take(i0 + 1));
                } else {
                    lemma_take_covers(b@, j0);
                    assert(b@.take(j as int) == b@.take(j0 + 1));
                }
                assert forall|x: int|
                    covers(out@, x) == (covers(a@.take(i as int), x) || covers(
                        b@.take(j as int),
                        x,
                    )) by {
                    assert(covers(before, x) == (covers(a@.take(i0), x) || covers(
                        b@.take(j0),
                        x,
                    )));
                    assert(covers(out@, x) == (covers(before, x) || next.has(x)));
                }
            }
        }
        assert(a@.take(a.len() as int) =~= a@);
        assert(b@.take(b.len() as int) =~= b@);
        let r = RangeSet { ranges: out };
        assert(r.addresses() =~= self.addresses().union(other.addresses()));
        r
    }
}

/// One range more covers its addresses more.
proof fn lemma_push_range(ranges: Seq<Slice>, next: Slice)
    ensures
        forall|x: int| covers(ranges.push(next), x) == (covers(ranges, x) || next.has(x)),
{
    let all = ranges.push(next);
    assert forall|x: int| covers(all, x) == (covers(ranges, x) || next.has(x)) by {
        if covers(ranges, x) {
            let k = choose|k: int| 0 <= k < ranges.len() && (#[trigger] ranges[k]).has(x);
            assert(all[k].has(x));
        }
        if next.has(x) {
            assert(all[ranges.len() as int].has(x));
        }
        if covers(all, x) {
            let k = choose|k: int| 0 <= k < all.len() && (#[trigger] all[k]).has(x);
            if k < ranges.len() {
                assert(ranges[k].has(x));
            }
        }
    }
}

proof fn lemma_take_covers(ranges: Seq<Slice>, k: int)
    requires
        0 <= k < ranges.len(),
    ensures
        forall|x: int|
            covers(ranges.take(k + 1), x) == (covers(ranges.take(k), x) || ranges[k].has(x)),
{
    lemma_push_range(ranges.take(k), ranges[k]);
    assert(ranges.take(k).push(ranges[k]) =~= ranges.take(k + 1));
}

/// The last range grown by one that starts in it or right behind it covers the addresses of both.
proof fn lemma_replace_last(before: Seq<Slice>, after: Seq<Slice>, next: Slice)
    requires
        before.len() > 0,
        before.last().start < before.last().end,
        before.last().start <= next.start <= before.last().end,
        next.start < next.end,
        after == before.update(
            before.len() - 1,
            Slice {
                start: before.last().start,
                end: if before.last().end < next.end {
                    next.end
                } else {
                    before.last().end
                },
            },
        ),
    ensures
        forall|x: int| covers(after, x) == (covers(before, x) || next.has(x)),
{
    let n = before.len() - 1;
    assert forall|x: int| covers(after, x) == (covers(before, x) || next.has(x)) by {
        if covers(before, x) {
            let k = choose|k: int| 0 <= k < before.len() && (#[trigger] before[k]).has(x);
            assert(after[k].has(x));
        }
        if next.has(x) {
            assert(after[n].has(x));
        }
        if covers(after, x) {
            let k = choose|k: int| 0 <= k < after.len() && (#[trigger] after[k]).has(x);
            if k < n {
                assert(before[k].has(x));
            } else {
                assert(before[n].has(x) || next.has(x));
            }
        }
    }
}

/// Sets with the same addresses have the same ranges.
pub proof fn lemma_one_form(a: Seq<Slice>, b: Seq<Slice>)
    requires
        canonical(a),
        canonical(b),
        forall|x: int| covers(a, x) == covers(b, x),
    ensures
        a == b,
    decreases a.len(),
{
    if a.len() == 0 {
        if b.len() > 0 {
            assert(b[0].has(b[0].start as int));
            assert(covers(b, b[0].start as int));
        }
        assert(a =~= b);
    } else if b.len() == 0 {
        assert(a[0].has(a[0].start as int));
        assert(covers(a, a[0].start as int));
    } else {
        lemma_last_range(a, b);
        lemma_last_range(b, a);
        let (p, q) = (a.drop_last(), b.drop_last());
        assert(a =~= p.push(a.last()));
        assert(b =~= q.push(b.last()));
        lemma_push_range(p, a.last());
        lemma_push_range(q, b.last());
        assert forall|x: int| covers(p, x) == covers(q, x) by {
            if covers(p, x) {
                let k = choose|k: int| 0 <= k < p.len() && (#[trigger] p[k]).has(x);
                assert(a[k].end < a.last().start);
            }
            if covers(q, x) {
                let k = choose|k: int| 0 <= k < q.len() && (#[trigger] q[k]).has(x);
                assert(b[k].end < b.last().start);
            }
            assert(covers(a, x) == covers(b, x));
        }
        lemma_one_form(p, q);
    }
}

/// The last range of a set is the last range of a set with the same addresses.
proof fn lemma_last_range(a: Seq<Slice>, b: Seq<Slice>)
    requires
        a.len() > 0,
        b.len() > 0,
        canonical(a),
        canonical(b),
        forall|x: int| covers(a, x) == covers(b, x),
    ensures
        a.last() == b.last(),
{
    let (x, y) = (a.last(), b.last());
    lemma_end(a, b);
    lemma_end(b, a);
    if x.start < y.start {
        let at = y.start - 1;
        assert(x.has(at));
        assert(covers(a, at));
        let k = choose|k: int| 0 <= k < b.len() && (#[trigger] b[k]).has(at);
        assert(k < b.len() - 1);
        assert(b[k].end < b[b.len() - 1].start);
    }
    if y.start < x.start {
        let at = x.start - 1;
        assert(y.has(at));
        assert(covers(b, at));
        let k = choose|k: int| 0 <= k < a.len() && (#[trigger] a[k]).has(at);
        assert(k < a.len() - 1);
        assert(a[k].end < a[a.len() - 1].start);
    }
}

proof fn lemma_end(a: Seq<Slice>, b: Seq<Slice>)
    requires
        a.len() > 0,
        b.len() > 0,
        canonical(a),
        canonical(b),
        forall|x: int| covers(a, x) == covers(b, x),
    ensures
        a.last().end <= b.last().end,
{
    let at = a.last().end - 1;
    assert(a.last().has(at));
    assert(covers(a, at));
    let k = choose|k: int| 0 <= k < b.len() && (#[trigger] b[k]).has(at);
    if k < b.len() - 1 {
        assert(b[k].end < b[b.len() - 1].start);
    }
}

} // verus!
