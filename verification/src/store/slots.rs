//! Stores of values that are allocated first and set once.

use vstd::prelude::*;

use crate::store::ranges::{canonical, lemma_offset, offset, RangeSet, Slice};

verus! {

/// Error of a store.
#[derive(Clone, Copy, Debug, PartialEq, Eq, Structural)]
pub enum StoreError {
    /// The slice reaches beyond the memory that was allocated.
    OutOfBounds {
        /// The slice.
        slice: Slice,
        /// The amount of memory that was allocated.
        len: usize,
    },
    /// The number of values is not that of the addresses.
    LengthMismatch {
        /// The number of addresses.
        expected: usize,
        /// The number of values.
        actual: usize,
    },
    /// A value of the slice is not set.
    Uninit {
        /// The slice.
        slice: Slice,
    },
    /// A value of the slice is set.
    AlreadySet {
        /// The slice.
        slice: Slice,
    },
    /// A share has an invalid MAC.
    InvalidShare {
        /// The index of the share.
        index: usize,
    },
}

/// The values of some addresses: none where an address is not set.
pub type Memory<T> = Seq<Option<T>>;

/// Every address of the slice is set.
pub open spec fn all_set<T>(memory: Memory<T>, slice: Slice) -> bool {
    &&& slice.end <= memory.len()
    &&& forall|i: int| slice.has(i) ==> (#[trigger] memory[i]) is Some
}

/// The values of a slice.
pub open spec fn values_at<T>(memory: Memory<T>, slice: Slice) -> Seq<T> {
    Seq::new(slice.size(), |i: int| memory[slice.start + i]->0)
}

/// Why the values of a slice cannot be read.
pub open spec fn read_error<T>(memory: Memory<T>, slice: Slice) -> Option<StoreError> {
    if slice.end > memory.len() {
        Some(StoreError::OutOfBounds { slice, len: memory.len() as usize })
    } else if !all_set(memory, slice) {
        Some(StoreError::Uninit { slice })
    } else {
        None
    }
}

/// Why `n` values cannot be written to a slice.
pub open spec fn write_error<T>(memory: Memory<T>, slice: Slice, n: nat) -> Option<StoreError> {
    if slice.end > memory.len() {
        Some(StoreError::OutOfBounds { slice, len: memory.len() as usize })
    } else if slice.size() != n {
        Some(StoreError::LengthMismatch { expected: slice.size() as usize, actual: n as usize })
    } else if exists|i: int| slice.has(i) && (#[trigger] memory[i]) is Some {
        Some(StoreError::AlreadySet { slice })
    } else {
        None
    }
}

/// The memory with the values written to the slice.
pub open spec fn written<T>(memory: Memory<T>, slice: Slice, values: Seq<T>) -> Memory<T> {
    Seq::new(
        memory.len(),
        |i: int|
            if slice.has(i) {
                Some(values[i - slice.start])
            } else {
                memory[i]
            },
    )
}

/// Writes the values to the slice if they can be written.
pub open spec fn stored<T>(memory: Memory<T>, slice: Slice, values: Seq<T>) -> (
    Memory<T>,
    Option<StoreError>,
) {
    match write_error(memory, slice, values.len()) {
        Some(err) => (memory, Some(err)),
        None => (written(memory, slice, values), None),
    }
}

/// The memory in which the values of the slice are flipped where a bit is set.
pub open spec fn flipped(memory: Memory<bool>, slice: Slice, bits: Seq<bool>) -> Memory<bool> {
    Seq::new(
        memory.len(),
        |i: int|
            if slice.has(i) {
                Some(memory[i]->0 != bits[i - slice.start])
            } else {
                memory[i]
            },
    )
}

/// Why the values of a slice cannot be flipped by `n` bits.
pub open spec fn flip_error(memory: Memory<bool>, slice: Slice, n: nat) -> Option<StoreError> {
    if slice.end > memory.len() {
        Some(StoreError::OutOfBounds { slice, len: memory.len() as usize })
    } else if slice.size() != n {
        Some(StoreError::LengthMismatch { expected: slice.size() as usize, actual: n as usize })
    } else if !all_set(memory, slice) {
        Some(StoreError::Uninit { slice })
    } else {
        None
    }
}

/// Flips the values of the slice if they can be flipped.
pub open spec fn flip(memory: Memory<bool>, slice: Slice, bits: Seq<bool>) -> (
    Memory<bool>,
    Option<StoreError>,
) {
    match flip_error(memory, slice, bits.len()) {
        Some(err) => (memory, Some(err)),
        None => (flipped(memory, slice, bits), None),
    }
}

/// The values that belong to the range `k`, of values for all ranges.
pub open spec fn piece<T>(values: Seq<T>, ranges: Seq<Slice>, k: nat) -> Seq<T> {
    values.subrange(offset(ranges, k) as int, offset(ranges, k + 1) as int)
}

/// Writes values to the first `n` ranges, each its own, until one cannot be written.
pub open spec fn write_ranges<T>(
    memory: Memory<T>,
    ranges: Seq<Slice>,
    values: Seq<T>,
    n: nat,
) -> (Memory<T>, Option<StoreError>)
    decreases n,
{
    if n == 0 {
        (memory, None)
    } else {
        let k = (n - 1) as nat;
        match write_ranges(memory, ranges, values, k) {
            (before, Some(err)) => (before, Some(err)),
            (before, None) => stored(before, ranges[k as int], piece(values, ranges, k)),
        }
    }
}

/// Writes all values to each of the first `n` ranges, until one cannot be written.
pub open spec fn write_each<T>(
    memory: Memory<T>,
    ranges: Seq<Slice>,
    values: Seq<T>,
    n: nat,
) -> (Memory<T>, Option<StoreError>)
    decreases n,
{
    if n == 0 {
        (memory, None)
    } else {
        let k = (n - 1) as nat;
        match write_each(memory, ranges, values, k) {
            (before, Some(err)) => (before, Some(err)),
            (before, None) => stored(before, ranges[k as int], values),
        }
    }
}

/// Flips the values of the first `n` ranges, each by its own bits, until one cannot be flipped.
pub open spec fn flip_ranges(
    memory: Memory<bool>,
    ranges: Seq<Slice>,
    bits: Seq<bool>,
    n: nat,
) -> (Memory<bool>, Option<StoreError>)
    decreases n,
{
    if n == 0 {
        (memory, None)
    } else {
        let k = (n - 1) as nat;
        match flip_ranges(memory, ranges, bits, k) {
            (before, Some(err)) => (before, Some(err)),
            (before, None) => flip(before, ranges[k as int], piece(bits, ranges, k)),
        }
    }
}

/// There are values for each range that is written, up to one that cannot be.
pub open spec fn write_reaches<T>(memory: Memory<T>, ranges: Seq<Slice>, values: Seq<T>) -> bool {
    forall|k: nat|
        k < ranges.len() && (#[trigger] write_ranges(memory, ranges, values, k)).1 is None
            ==> offset(ranges, k + 1) <= values.len()
}

/// There are bits for each range that is flipped, up to one that cannot be.
pub open spec fn flip_reaches(memory: Memory<bool>, ranges: Seq<Slice>, bits: Seq<bool>) -> bool {
    forall|k: nat|
        k < ranges.len() && (#[trigger] flip_ranges(memory, ranges, bits, k)).1 is None ==> offset(
            ranges,
            k + 1,
        ) <= bits.len()
}

/// Values or bits for all ranges reach.
pub proof fn lemma_all_reach<T>(
    memory: Memory<T>,
    masked: Memory<bool>,
    ranges: Seq<Slice>,
    values: Seq<T>,
    bits: Seq<bool>,
)
    ensures
        offset(ranges, ranges.len()) <= values.len() ==> write_reaches(memory, ranges, values),
        offset(ranges, ranges.len()) <= bits.len() ==> flip_reaches(masked, ranges, bits),
{
    assert forall|k: nat| k < ranges.len() implies #[trigger] offset(ranges, k + 1) <= offset(
        ranges,
        ranges.len(),
    ) by {
        lemma_offset_grows(ranges, k + 1, ranges.len());
    }
}

proof fn lemma_offset_grows(ranges: Seq<Slice>, n: nat, m: nat)
    requires
        n <= m,
    ensures
        offset(ranges, n) <= offset(ranges, m),
    decreases m,
{
    if n < m {
        lemma_offset_grows(ranges, n, (m - 1) as nat);
    }
}

/// Reads the values of the first `n` ranges, until one cannot be read.
pub open spec fn read_ranges<T>(memory: Memory<T>, ranges: Seq<Slice>, n: nat) -> Result<
    Seq<T>,
    StoreError,
>
    decreases n,
{
    if n == 0 {
        Ok(Seq::empty())
    } else {
        let k = (n - 1) as nat;
        match read_ranges(memory, ranges, k) {
            Err(err) => Err(err),
            Ok(values) => match read_error(memory, ranges[k as int]) {
                Some(err) => Err(err),
                None => Ok(values + values_at(memory, ranges[k as int])),
            },
        }
    }
}

/// What is read is as long as the ranges.
pub proof fn lemma_read_len<T>(memory: Memory<T>, ranges: Seq<Slice>, n: nat)
    ensures
        read_ranges(memory, ranges, n) matches Ok(values) ==> values.len() == offset(ranges, n),
    decreases n,
{
    if n > 0 {
        lemma_read_len(memory, ranges, (n - 1) as nat);
    }
}

/// An operation's error, if there is one.
pub open spec fn outcome(err: Option<StoreError>) -> Result<(), StoreError> {
    match err {
        Some(err) => Err(err),
        None => Ok(()),
    }
}

/// A store of values.
#[derive(Debug)]
pub struct Slots<T> {
    /// The values: none where an address is not set.
    pub slots: Vec<Option<T>>,
}

/// A part of some values.
pub fn part<T: Copy>(values: &[T], start: usize, end: usize) -> (r: Vec<T>)
    requires
        start <= end <= values.len(),
    ensures
        r@ == values@.subrange(start as int, end as int),
{
    let mut out: Vec<T> = Vec::with_capacity(end - start);
    for i in start..end
        invariant
            end <= values.len(),
            out@ =~= values@.subrange(start as int, i as int),
    {
        out.push(values[i]);
    }
    out
}

impl<T: Copy> Slots<T> {
    /// The memory that the store holds.
    pub open spec fn view(&self) -> Memory<T> {
        self.slots@
    }

    /// Creates an empty store.
    pub fn new() -> (r: Slots<T>)
        ensures
            r@ == Memory::<T>::empty(),
    {
        Slots { slots: Vec::new() }
    }

    /// Allocates memory that is not set.
    pub fn allocate(&mut self, len: usize) -> (r: Slice)
        requires
            old(self)@.len() + len <= usize::MAX,
        ensures
            final(self)@ == old(self)@ + Seq::new(len as nat, |i: int| None::<T>),
            r.start == old(self)@.len(),
            r.end == old(self)@.len() + len,
    {
        let start: usize = self.slots.len();
        for i in 0..len
            invariant
                self@ =~= old(self)@ + Seq::new(i as nat, |i: int| None::<T>),
        {
            self.slots.push(None);
        }
        Slice { start, end: start + len }
    }

    /// Allocates memory that is set to some values.
    pub fn allocate_with(&mut self, values: &[T]) -> (r: Slice)
        requires
            old(self)@.len() + values.len() <= usize::MAX,
        ensures
            final(self)@ == old(self)@ + Seq::new(values@.len(), |i: int| Some(values@[i])),
            r.start == old(self)@.len(),
            r.end == old(self)@.len() + values.len(),
    {
        let start: usize = self.slots.len();
        for i in 0..values.len()
            invariant
                self@ =~= old(self)@ + Seq::new(i as nat, |i: int| Some(values@[i])),
        {
            self.slots.push(Some(values[i]));
        }
        Slice { start, end: start + values.len() }
    }

    /// Whether every value of the slice is set.
    pub fn is_set(&self, slice: Slice) -> (r: bool)
        requires
            slice.wf(),
        ensures
            r == all_set(self@, slice),
    {
        if slice.end > self.slots.len() {
            return false;
        }
        for i in slice.start..slice.end
            invariant
                slice.end <= self.slots.len(),
                forall|k: int| slice.start <= k < i ==> (#[trigger] self.slots@[k]) is Some,
        {
            if self.slots[i].is_none() {
                assert(slice.has(i as int));
                assert(self@[i as int] is None);
                return false;
            }
        }
        true
    }

    /// Whether no value of the slice is set.
    fn is_unset(&self, slice: Slice) -> (r: bool)
        requires
            slice.wf(),
            slice.end <= self@.len(),
        ensures
            r == !exists|i: int| slice.has(i) && (#[trigger] self@[i]) is Some,
    {
        for i in slice.start..slice.end
            invariant
                slice.end <= self.slots.len(),
                forall|k: int| slice.start <= k < i ==> (#[trigger] self.slots@[k]) is None,
        {
            if self.slots[i].is_some() {
                assert(slice.has(i as int));
                assert(self@[i as int] is Some);
                return false;
            }
        }
        true
    }

    /// Returns the values of a slice if they are set.
    pub fn try_get(&self, slice: Slice) -> (r: Result<Vec<T>, StoreError>)
        requires
            slice.wf(),
        ensures
            match read_error(self@, slice) {
                Some(err) => r == Err::<Vec<T>, StoreError>(err),
                None => r matches Ok(values) && values@ == values_at(self@, slice),
            },
    {
        if slice.end > self.slots.len() {
            return Err(StoreError::OutOfBounds { slice, len: self.slots.len() });
        }
        if !self.is_set(slice) {
            return Err(StoreError::Uninit { slice });
        }
        let mut values: Vec<T> = Vec::with_capacity(slice.len());
        let ghost want = values_at(self@, slice);
        for i in slice.start..slice.end
            invariant
                all_set(self@, slice),
                want == values_at(self@, slice),
                values@ == want.take(i - slice.start),
        {
            assert(slice.has(i as int));
            assert(self@[i as int] is Some);
            values.push(self.slots[i].unwrap());
            assert(values@ =~= want.take(i + 1 - slice.start));
        }
        assert(want.take(slice.end - slice.start) =~= want);
        Ok(values)
    }

    /// Sets the values of a slice, none of which is set.
    pub fn try_set(&mut self, slice: Slice, values: &[T]) -> (r: Result<(), StoreError>)
        requires
            slice.wf(),
        ensures
            final(self)@ == stored(old(self)@, slice, values@).0,
            r == outcome(stored(old(self)@, slice, values@).1),
    {
        if slice.end > self.slots.len() {
            return Err(StoreError::OutOfBounds { slice, len: self.slots.len() });
        }
        if slice.len() != values.len() {
            return Err(
                StoreError::LengthMismatch { expected: slice.len(), actual: values.len() },
            );
        }
        if !self.is_unset(slice) {
            return Err(StoreError::AlreadySet { slice });
        }
        let ghost before = self@;
        for i in slice.start..slice.end
            invariant
                slice.wf(),
                slice.end <= before.len(),
                slice.size() == values.len(),
                self@ =~= written(
                    before,
                    (Slice { start: slice.start, end: i }),
                    values@,
                ),
        {
            self.slots.set(i, Some(values[i - slice.start]));
        }
        Ok(())
    }

    /// Sets the values of the ranges, each to its own.
    pub fn try_set_ranges(&mut self, ranges: &RangeSet, values: &[T]) -> (r: Result<(), StoreError>)
        requires
            ranges.wf(),
            write_reaches(old(self)@, ranges.ranges@, values@),
        ensures
            final(self)@ == write_ranges(
                old(self)@,
                ranges.ranges@,
                values@,
                ranges.ranges@.len(),
            ).0,
            r == outcome(
                write_ranges(old(self)@, ranges.ranges@, values@, ranges.ranges@.len()).1,
            ),
    {
        let mut at: usize = 0;
        let ghost all = ranges.ranges@;
        for k in 0..ranges.ranges.len()
            invariant
                all == ranges.ranges@,
                canonical(all),
                write_reaches(old(self)@, all, values@),
                at == offset(all, k as nat),
                (self@, None::<StoreError>) == write_ranges(old(self)@, all, values@, k as nat),
        {
            let slice = ranges.ranges[k];
            proof {
                lemma_offset(all, (k + 1) as nat);
                lemma_write_ranges_stops(old(self)@, all, values@, (k + 1) as nat);
                assert(all[k as int].start < all[k as int].end);
            }
            let own = part(values, at, at + slice.len());
            assert(own@ == piece(values@, all, k as nat));
            match self.try_set(slice, own.as_slice()) {
                Ok(()) => {},
                Err(err) => return Err(err),
            }
            at = at + slice.len();
        }
        Ok(())
    }

    /// Copies the store.
    pub fn copy(&self) -> (r: Slots<T>)
        ensures
            r@ == self@,
    {
        let mut slots: Vec<Option<T>> = Vec::with_capacity(self.slots.len());
        for i in 0..self.slots.len()
            invariant
                slots@ =~= self.slots@.take(i as int),
        {
            slots.push(self.slots[i]);
        }
        assert(slots@ =~= self.slots@);
        Slots { slots }
    }

    /// Whether there are values for each range that would be set, up to one that cannot be.
    pub fn reached_by(&self, ranges: &RangeSet, values: &[T]) -> (r: bool)
        requires
            ranges.wf(),
        ensures
            r == write_reaches(self@, ranges.ranges@, values@),
    {
        let mut copy = self.copy();
        let mut at: usize = 0;
        let ghost all = ranges.ranges@;
        for k in 0..ranges.ranges.len()
            invariant
                all == ranges.ranges@,
                canonical(all),
                at == offset(all, k as nat),
                at <= values.len(),
                (copy@, None::<StoreError>) == write_ranges(self@, all, values@, k as nat),
                forall|j: nat| j < k ==> #[trigger] offset(all, j + 1) <= values.len(),
        {
            let slice = ranges.ranges[k];
            proof {
                lemma_offset(all, (k + 1) as nat);
                assert(all[k as int].start < all[k as int].end);
            }
            if slice.len() > values.len() - at {
                assert(write_ranges(self@, all, values@, k as nat).1 is None);
                return false;
            }
            let own = part(values, at, at + slice.len());
            assert(own@ == piece(values@, all, k as nat));
            match copy.try_set(slice, own.as_slice()) {
                Ok(()) => {},
                Err(_) => {
                    proof {
                        assert forall|j: nat|
                            j < all.len() && (#[trigger] write_ranges(self@, all, values@, j)).1
                                is None implies offset(all, j + 1) <= values.len() by {
                            if j > k {
                                lemma_write_ranges_fails(
                                    self@,
                                    all,
                                    values@,
                                    (k + 1) as nat,
                                    j,
                                );
                            }
                        }
                    }
                    return true;
                },
            }
            at = at + slice.len();
        }
        true
    }

    /// Sets the values of each of the ranges to all the values.
    pub fn try_set_each(&mut self, ranges: &RangeSet, values: &[T]) -> (r: Result<(), StoreError>)
        requires
            ranges.wf(),
        ensures
            final(self)@ == write_each(
                old(self)@,
                ranges.ranges@,
                values@,
                ranges.ranges@.len(),
            ).0,
            r == outcome(
                write_each(old(self)@, ranges.ranges@, values@, ranges.ranges@.len()).1,
            ),
    {
        let ghost all = ranges.ranges@;
        for k in 0..ranges.ranges.len()
            invariant
                all == ranges.ranges@,
                canonical(all),
                (self@, None::<StoreError>) == write_each(old(self)@, all, values@, k as nat),
        {
            let slice = ranges.ranges[k];
            proof {
                lemma_write_each_stops(old(self)@, all, values@, (k + 1) as nat);
                assert(all[k as int].start < all[k as int].end);
            }
            match self.try_set(slice, values) {
                Ok(()) => {},
                Err(err) => return Err(err),
            }
        }
        Ok(())
    }

    /// Returns the values of the ranges if they are set.
    pub fn try_get_ranges(&self, ranges: &RangeSet) -> (r: Result<Vec<T>, StoreError>)
        requires
            ranges.wf(),
        ensures
            match read_ranges(self@, ranges.ranges@, ranges.ranges@.len()) {
                Ok(want) => r matches Ok(values) && values@ == want,
                Err(err) => r == Err::<Vec<T>, StoreError>(err),
            },
    {
        let ghost all = ranges.ranges@;
        let mut values: Vec<T> = Vec::new();
        for k in 0..ranges.ranges.len()
            invariant
                all == ranges.ranges@,
                canonical(all),
                read_ranges(self@, all, k as nat) == Ok::<Seq<T>, StoreError>(values@),
        {
            proof {
                lemma_read_ranges_stops(self@, all, (k + 1) as nat);
                assert(all[k as int].start < all[k as int].end);
            }
            match self.try_get(ranges.ranges[k]) {
                Ok(own) => {
                    let mut own = own;
                    values.append(&mut own);
                },
                Err(err) => return Err(err),
            }
        }
        Ok(values)
    }
}

/// An error at a range is the error of all ranges.
proof fn lemma_write_ranges_stops<T>(
    memory: Memory<T>,
    ranges: Seq<Slice>,
    values: Seq<T>,
    n: nat,
)
    requires
        n <= ranges.len(),
    ensures
        write_ranges(memory, ranges, values, n).1 is Some ==> write_ranges(
            memory,
            ranges,
            values,
            ranges.len(),
        ) == write_ranges(memory, ranges, values, n),
    decreases ranges.len() - n,
{
    if n < ranges.len() {
        lemma_write_ranges_stops(memory, ranges, values, n + 1);
    }
}

proof fn lemma_write_ranges_fails<T>(
    memory: Memory<T>,
    ranges: Seq<Slice>,
    values: Seq<T>,
    n: nat,
    m: nat,
)
    requires
        n <= m,
        write_ranges(memory, ranges, values, n).1 is Some,
    ensures
        write_ranges(memory, ranges, values, m).1 is Some,
    decreases m,
{
    if n < m {
        lemma_write_ranges_fails(memory, ranges, values, n, (m - 1) as nat);
    }
}

proof fn lemma_flip_ranges_fails(
    memory: Memory<bool>,
    ranges: Seq<Slice>,
    bits: Seq<bool>,
    n: nat,
    m: nat,
)
    requires
        n <= m,
        flip_ranges(memory, ranges, bits, n).1 is Some,
    ensures
        flip_ranges(memory, ranges, bits, m).1 is Some,
    decreases m,
{
    if n < m {
        lemma_flip_ranges_fails(memory, ranges, bits, n, (m - 1) as nat);
    }
}

proof fn lemma_write_each_stops<T>(
    memory: Memory<T>,
    ranges: Seq<Slice>,
    values: Seq<T>,
    n: nat,
)
    requires
        n <= ranges.len(),
    ensures
        write_each(memory, ranges, values, n).1 is Some ==> write_each(
            memory,
            ranges,
            values,
            ranges.len(),
        ) == write_each(memory, ranges, values, n),
    decreases ranges.len() - n,
{
    if n < ranges.len() {
        lemma_write_each_stops(memory, ranges, values, n + 1);
    }
}

proof fn lemma_read_ranges_stops<T>(memory: Memory<T>, ranges: Seq<Slice>, n: nat)
    requires
        n <= ranges.len(),
    ensures
        read_ranges(memory, ranges, n) is Err ==> read_ranges(memory, ranges, ranges.len())
            == read_ranges(memory, ranges, n),
    decreases ranges.len() - n,
{
    if n < ranges.len() {
        lemma_read_ranges_stops(memory, ranges, n + 1);
    }
}

proof fn lemma_flip_ranges_stops(
    memory: Memory<bool>,
    ranges: Seq<Slice>,
    bits: Seq<bool>,
    n: nat,
)
    requires
        n <= ranges.len(),
    ensures
        flip_ranges(memory, ranges, bits, n).1 is Some ==> flip_ranges(
            memory,
            ranges,
            bits,
            ranges.len(),
        ) == flip_ranges(memory, ranges, bits, n),
    decreases ranges.len() - n,
{
    if n < ranges.len() {
        lemma_flip_ranges_stops(memory, ranges, bits, n + 1);
    }
}

/// A store of bits.
pub type BitStore = Slots<bool>;

impl Slots<bool> {
    /// Flips the values of a slice where a bit is set.
    pub fn update_xor(&mut self, slice: Slice, bits: &[bool]) -> (r: Result<(), StoreError>)
        requires
            slice.wf(),
        ensures
            final(self)@ == flip(old(self)@, slice, bits@).0,
            r == outcome(flip(old(self)@, slice, bits@).1),
    {
        if slice.end > self.slots.len() {
            return Err(StoreError::OutOfBounds { slice, len: self.slots.len() });
        }
        if slice.len() != bits.len() {
            return Err(StoreError::LengthMismatch { expected: slice.len(), actual: bits.len() });
        }
        if !self.is_set(slice) {
            return Err(StoreError::Uninit { slice });
        }
        let ghost before = self@;
        for i in slice.start..slice.end
            invariant
                slice.wf(),
                all_set(before, slice),
                slice.size() == bits.len(),
                self@ =~= flipped(before, (Slice { start: slice.start, end: i }), bits@),
        {
            assert(slice.has(i as int));
            assert(before[i as int] is Some);
            let value = self.slots[i].unwrap() != bits[i - slice.start];
            self.slots.set(i, Some(value));
        }
        Ok(())
    }

    /// Whether there are bits for each range that would be flipped, up to one that cannot be.
    pub fn flips_reached_by(&self, ranges: &RangeSet, bits: &[bool]) -> (r: bool)
        requires
            ranges.wf(),
        ensures
            r == flip_reaches(self@, ranges.ranges@, bits@),
    {
        let mut copy = self.copy();
        let mut at: usize = 0;
        let ghost all = ranges.ranges@;
        for k in 0..ranges.ranges.len()
            invariant
                all == ranges.ranges@,
                canonical(all),
                at == offset(all, k as nat),
                at <= bits.len(),
                (copy@, None::<StoreError>) == flip_ranges(self@, all, bits@, k as nat),
                forall|j: nat| j < k ==> #[trigger] offset(all, j + 1) <= bits.len(),
        {
            let slice = ranges.ranges[k];
            proof {
                lemma_offset(all, (k + 1) as nat);
                assert(all[k as int].start < all[k as int].end);
            }
            if slice.len() > bits.len() - at {
                assert(flip_ranges(self@, all, bits@, k as nat).1 is None);
                return false;
            }
            let own = part(bits, at, at + slice.len());
            assert(own@ == piece(bits@, all, k as nat));
            match copy.update_xor(slice, own.as_slice()) {
                Ok(()) => {},
                Err(_) => {
                    proof {
                        assert forall|j: nat|
                            j < all.len() && (#[trigger] flip_ranges(self@, all, bits@, j)).1
                                is None implies offset(all, j + 1) <= bits.len() by {
                            if j > k {
                                lemma_flip_ranges_fails(self@, all, bits@, (k + 1) as nat, j);
                            }
                        }
                    }
                    return true;
                },
            }
            at = at + slice.len();
        }
        true
    }

    /// Flips the values of the ranges, each by its own bits.
    pub fn update_xor_ranges(&mut self, ranges: &RangeSet, bits: &[bool]) -> (r: Result<
        (),
        StoreError,
    >)
        requires
            ranges.wf(),
            flip_reaches(old(self)@, ranges.ranges@, bits@),
        ensures
            final(self)@ == flip_ranges(
                old(self)@,
                ranges.ranges@,
                bits@,
                ranges.ranges@.len(),
            ).0,
            r == outcome(
                flip_ranges(old(self)@, ranges.ranges@, bits@, ranges.ranges@.len()).1,
            ),
    {
        let mut at: usize = 0;
        let ghost all = ranges.ranges@;
        for k in 0..ranges.ranges.len()
            invariant
                all == ranges.ranges@,
                canonical(all),
                flip_reaches(old(self)@, all, bits@),
                at == offset(all, k as nat),
                (self@, None::<StoreError>) == flip_ranges(old(self)@, all, bits@, k as nat),
        {
            let slice = ranges.ranges[k];
            proof {
                lemma_offset(all, (k + 1) as nat);
                lemma_flip_ranges_stops(old(self)@, all, bits@, (k + 1) as nat);
                assert(all[k as int].start < all[k as int].end);
            }
            let own = part(bits, at, at + slice.len());
            assert(own@ == piece(bits@, all, k as nat));
            match self.update_xor(slice, own.as_slice()) {
                Ok(()) => {},
                Err(err) => return Err(err),
            }
            at = at + slice.len();
        }
        Ok(())
    }
}

} // verus!
