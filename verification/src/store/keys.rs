//! Stores of keys and of authenticated bits.

use vstd::prelude::*;

use crate::correlated::{mac_of, macs_of, Delta, Key, Mac};
use crate::store::ranges::{RangeSet, Slice};
use crate::store::slots::{
    all_set, outcome, read_error, read_ranges, values_at, Memory, Slots,
    StoreError,
};

verus! {

/// A store of the keys of a party.
#[derive(Debug)]
pub struct KeyStore {
    /// The global correlation.
    pub delta: Delta,
    /// The keys.
    pub keys: Slots<Key>,
}

impl KeyStore {
    /// Creates an empty store.
    pub fn new(delta: Delta) -> (r: KeyStore)
        ensures
            r.delta == delta,
            r.keys@ == Memory::<Key>::empty(),
    {
        KeyStore { delta, keys: Slots::new() }
    }

    /// Returns the MACs of some bits under the keys of a slice, if these are set.
    pub fn authenticate(&self, slice: Slice, bits: &[bool]) -> (r: Result<Vec<Mac>, StoreError>)
        requires
            slice.wf(),
            bits.len() == slice.size(),
        ensures
            match read_error(self.keys@, slice) {
                Some(err) => r == Err::<Vec<Mac>, StoreError>(err),
                None => r matches Ok(macs) && macs@ == macs_of(
                    values_at(self.keys@, slice),
                    bits@,
                    self.delta,
                ),
            },
    {
        let keys = match self.keys.try_get(slice) {
            Ok(keys) => keys,
            Err(err) => return Err(err),
        };
        let mut macs: Vec<Mac> = Vec::with_capacity(bits.len());
        for i in 0..keys.len()
            invariant
                keys.len() == bits.len(),
                macs@ =~= macs_of(keys@, bits@, self.delta).take(i as int),
        {
            macs.push(keys[i].auth(bits[i], &self.delta));
        }
        assert(macs@ =~= macs_of(keys@, bits@, self.delta));
        Ok(macs)
    }
}

/// The first of the first `n` bits whose MAC is not the one under its key.
pub open spec fn first_invalid(
    keys: Seq<Key>,
    bits: Seq<bool>,
    macs: Seq<Mac>,
    delta: Delta,
    n: nat,
) -> Option<usize>
    decreases n,
{
    if n == 0 {
        None
    } else {
        match first_invalid(keys, bits, macs, delta, (n - 1) as nat) {
            Some(index) => Some(index),
            None => if macs[n - 1] != mac_of(keys[n - 1], bits[n - 1], delta) {
                Some((n - 1) as usize)
            } else {
                None
            },
        }
    }
}

/// There is no invalid MAC exactly if every bit has the MAC under its key; the one that is found is
/// invalid and all before it are valid.
pub proof fn lemma_first_invalid(
    keys: Seq<Key>,
    bits: Seq<bool>,
    macs: Seq<Mac>,
    delta: Delta,
    n: nat,
)
    requires
        n <= usize::MAX,
    ensures
        match first_invalid(keys, bits, macs, delta, n) {
            Some(index) => {
                &&& index < n
                &&& macs[index as int] != mac_of(keys[index as int], bits[index as int], delta)
                &&& forall|i: int|
                    0 <= i < index ==> #[trigger] macs[i] == mac_of(keys[i], bits[i], delta)
            },
            None => forall|i: int|
                0 <= i < n ==> #[trigger] macs[i] == mac_of(keys[i], bits[i], delta),
        },
    decreases n,
{
    if n > 0 {
        lemma_first_invalid(keys, bits, macs, delta, (n - 1) as nat);
    }
}

/// Why shares of the other party are refused.
pub open spec fn share_error(
    keys: Memory<Key>,
    ranges: Seq<Slice>,
    bits: Seq<bool>,
    macs: Seq<Mac>,
    delta: Delta,
) -> Option<StoreError> {
    match read_ranges(keys, ranges, ranges.len()) {
        Err(err) => Some(err),
        Ok(keys) => if keys.len() != bits.len() {
            Some(
                StoreError::LengthMismatch {
                    expected: keys.len() as usize,
                    actual: bits.len() as usize,
                },
            )
        } else if keys.len() != macs.len() {
            Some(
                StoreError::LengthMismatch {
                    expected: keys.len() as usize,
                    actual: macs.len() as usize,
                },
            )
        } else {
            match first_invalid(keys, bits, macs, delta, keys.len()) {
                Some(index) => Some(StoreError::InvalidShare { index }),
                None => None,
            }
        },
    }
}

/// The bits and the MACs that a party shows of its shares.
pub open spec fn share_proof(
    bits: Memory<bool>,
    macs: Memory<Mac>,
    ranges: Seq<Slice>,
) -> Result<(Seq<bool>, Seq<Mac>), StoreError> {
    match read_ranges(bits, ranges, ranges.len()) {
        Err(err) => Err(err),
        Ok(bits) => match read_ranges(macs, ranges, ranges.len()) {
            Err(err) => Err(err),
            Ok(macs) => Ok((bits, macs)),
        },
    }
}

/// A store of authenticated bits: a party's bits with their MACs, and its keys for the bits of the
/// other party.
#[derive(Debug)]
pub struct AuthBitStore {
    /// The global correlation.
    pub delta: Delta,
    /// The bits.
    pub bits: Slots<bool>,
    /// The MACs of the bits.
    pub macs: Slots<Mac>,
    /// The keys.
    pub keys: Slots<Key>,
}

impl AuthBitStore {
    /// Creates an empty store.
    pub fn new(delta: Delta) -> (r: AuthBitStore)
        ensures
            r.delta == delta,
            r.bits@ == Memory::<bool>::empty(),
            r.macs@ == Memory::<Mac>::empty(),
            r.keys@ == Memory::<Key>::empty(),
    {
        AuthBitStore { delta, bits: Slots::new(), macs: Slots::new(), keys: Slots::new() }
    }

    /// Whether the bits, MACs and keys of a slice are all set.
    pub fn is_set(&self, slice: Slice) -> (r: bool)
        requires
            slice.wf(),
        ensures
            r == (all_set(self.bits@, slice) && all_set(self.macs@, slice) && all_set(
                self.keys@,
                slice,
            )),
    {
        self.bits.is_set(slice) && self.macs.is_set(slice) && self.keys.is_set(slice)
    }

    /// Returns the bits of the ranges with their MACs, if they are set.
    pub fn prove_share(&self, ranges: &RangeSet) -> (r: Result<(Vec<bool>, Vec<Mac>), StoreError>)
        requires
            ranges.wf(),
        ensures
            match share_proof(self.bits@, self.macs@, ranges.ranges@) {
                Ok((bits, macs)) => r matches Ok((b, m)) && b@ == bits && m@ == macs,
                Err(err) => r == Err::<(Vec<bool>, Vec<Mac>), StoreError>(err),
            },
    {
        let bits = match self.bits.try_get_ranges(ranges) {
            Ok(bits) => bits,
            Err(err) => return Err(err),
        };
        match self.macs.try_get_ranges(ranges) {
            Ok(macs) => Ok((bits, macs)),
            Err(err) => Err(err),
        }
    }

    /// Checks the bits of the other party for the ranges against their MACs.
    pub fn check_share(&self, ranges: &RangeSet, bits: &[bool], macs: &[Mac]) -> (r: Result<
        (),
        StoreError,
    >)
        requires
            ranges.wf(),
        ensures
            r == outcome(share_error(self.keys@, ranges.ranges@, bits@, macs@, self.delta)),
    {
        let keys = match self.keys.try_get_ranges(ranges) {
            Ok(keys) => keys,
            Err(err) => return Err(err),
        };
        if keys.len() != bits.len() {
            return Err(StoreError::LengthMismatch { expected: keys.len(), actual: bits.len() });
        }
        if keys.len() != macs.len() {
            return Err(StoreError::LengthMismatch { expected: keys.len(), actual: macs.len() });
        }
        for i in 0..keys.len()
            invariant
                keys.len() == bits.len(),
                keys.len() == macs.len(),
                read_ranges(self.keys@, ranges.ranges@, ranges.ranges@.len()) == Ok::<
                    Seq<Key>,
                    StoreError,
                >(keys@),
                first_invalid(keys@, bits@, macs@, self.delta, i as nat) is None,
        {
            proof {
                lemma_first_invalid_stays(
                    keys@,
                    bits@,
                    macs@,
                    self.delta,
                    (i + 1) as nat,
                    keys@.len(),
                );
            }
            if macs[i] != keys[i].auth(bits[i], &self.delta) {
                return Err(StoreError::InvalidShare { index: i });
            }
        }
        Ok(())
    }
}

proof fn lemma_first_invalid_stays(
    keys: Seq<Key>,
    bits: Seq<bool>,
    macs: Seq<Mac>,
    delta: Delta,
    n: nat,
    m: nat,
)
    requires
        n <= m,
    ensures
        first_invalid(keys, bits, macs, delta, n) is Some ==> first_invalid(
            keys,
            bits,
            macs,
            delta,
            m,
        ) == first_invalid(keys, bits, macs, delta, n),
    decreases m,
{
    if n < m {
        lemma_first_invalid_stays(keys, bits, macs, delta, n, (m - 1) as nat);
    }
}

} // verus!
