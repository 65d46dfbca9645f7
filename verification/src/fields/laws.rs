//! The laws of the fields.

use vstd::arithmetic::div_mod::lemma_mod_bound;
use vstd::arithmetic::power::pow;
use vstd::arithmetic::power2::{lemma2_to64, lemma_pow2_adds, pow2};
use vstd::prelude::*;

use crate::fields::fermat::lemma_fermat;
use crate::fields::goldilocks;
use crate::fields::goldilocks::Goldilocks;
use crate::fields::goldilocks_prime::lemma_goldilocks_prime;
use crate::fields::m61;
use crate::fields::m61::M61Field;
use crate::fields::m61_prime::lemma_m61_prime;
use crate::fields::modular::{
    inverse, is_inverse, lemma_canonical, lemma_inside, lemma_inverse, lemma_inverse_unique,
};
use crate::fields::words::{bits_of, le_number, lemma_bits_of, msb0_padded};

verus! {

/// An element of the Goldilocks field has 64 bits.
proof fn lemma_goldilocks_size()
    ensures
        pow2(64) > goldilocks::GOLDILOCKS,
{
    lemma2_to64();
}

/// An element of the Mersenne field has 61 bits.
proof fn lemma_m61_size()
    ensures
        pow2(61) > m61::M61,
{
    lemma2_to64();
    lemma_pow2_adds(32, 29);
}

/// Sums and products can be taken in any order.
pub proof fn lemma_goldilocks_commutes(a: Goldilocks, b: Goldilocks)
    ensures
        a.plus(b) == b.plus(a),
        a.times(b) == b.times(a),
{
    let (x, y) = (a.value as int, b.value as int);
    assert(x * y == y * x) by (nonlinear_arith);
}

/// Sums and products can be grouped in any way.
pub proof fn lemma_goldilocks_associates(a: Goldilocks, b: Goldilocks, c: Goldilocks)
    ensures
        a.plus(b).plus(c) == a.plus(b.plus(c)),
        a.times(b).times(c) == a.times(b.times(c)),
{
    let p = goldilocks::prime();
    let (x, y, z) = (a.value as int, b.value as int, c.value as int);
    lemma_mod_bound(x + y, p);
    lemma_mod_bound(y + z, p);
    lemma_mod_bound(x * y, p);
    lemma_mod_bound(y * z, p);
    lemma_inside(x + y, z, p);
    lemma_inside(x, y + z, p);
    lemma_inside(x * y, z, p);
    lemma_inside(x, y * z, p);
    assert((x * y) * z == x * (y * z)) by (nonlinear_arith);
}

/// Products distribute over sums.
pub proof fn lemma_goldilocks_distributes(a: Goldilocks, b: Goldilocks, c: Goldilocks)
    ensures
        a.times(b.plus(c)) == a.times(b).plus(a.times(c)),
{
    let p = goldilocks::prime();
    let (x, y, z) = (a.value as int, b.value as int, c.value as int);
    lemma_mod_bound(y + z, p);
    lemma_mod_bound(x * y, p);
    lemma_mod_bound(x * z, p);
    lemma_inside(x, y + z, p);
    lemma_inside(x * y, (x * z) % p, p);
    lemma_inside(x * y, x * z, p);
    assert(x * (y + z) == x * y + x * z) by (nonlinear_arith);
}

/// Zero and one are neutral, a difference undoes a sum, and a negative undoes an element.
pub proof fn lemma_goldilocks_neutral(a: Goldilocks, b: Goldilocks)
    requires
        a.wf(),
        b.wf(),
    ensures
        a.plus((Goldilocks { value: 0 })) == a,
        a.times((Goldilocks { value: 1 })) == a,
        a.times((Goldilocks { value: 0 })).value == 0,
        a.minus(b).plus(b) == a,
        a.plus(a.negated()).value == 0,
{
    let p = goldilocks::prime();
    let (x, y) = (a.value as int, b.value as int);
    lemma_canonical(x, p);
    lemma_canonical(0, p);
    assert(x * 1 == x && x * 0 == 0) by (nonlinear_arith);
    lemma_mod_bound(x - y, p);
    lemma_inside(x - y, y, p);
    lemma_mod_bound(-x, p);
    lemma_inside(x, -x, p);
}

/// An element that is not zero has one inverse: an element with which its product is one.
pub proof fn lemma_goldilocks_inverse(a: Goldilocks, b: Goldilocks)
    requires
        a.wf(),
        b.wf(),
        a.value != 0,
    ensures
        a.times(b).value == 1 <==> b.value == inverse(a.value as int, goldilocks::prime()),
{
    let p = goldilocks::prime();
    lemma_goldilocks_prime();
    lemma_canonical(a.value as int, p);
    lemma_inverse(a.value as int, p);
    if a.times(b).value == 1 {
        lemma_mod_bound(a.value * b.value, p);
        assert(is_inverse(a.value as int, b.value as int, p));
        lemma_inverse_unique(
            a.value as int,
            b.value as int,
            inverse(a.value as int, p),
            p,
        );
    }
}

/// An element that is not zero, to the power of the prime less one, is one.
pub proof fn lemma_goldilocks_fermat(a: Goldilocks)
    requires
        a.wf(),
        a.value != 0,
    ensures
        goldilocks::element(pow(a.value as int, (goldilocks::GOLDILOCKS - 1) as nat)).value == 1,
{
    lemma_goldilocks_prime();
    lemma_canonical(a.value as int, goldilocks::prime());
    lemma_fermat(a.value as int, goldilocks::GOLDILOCKS as nat);
}

/// An element is read back from its bytes.
pub proof fn lemma_goldilocks_bytes(a: Goldilocks, bytes: Seq<u8>)
    requires
        a.wf(),
        le_number(bytes) == a.value,
    ensures
        goldilocks::decoded(bytes) == Ok::<Goldilocks, goldilocks::GoldilocksError>(a),
{
}

/// An element is read back from its bits, in either order.
pub proof fn lemma_goldilocks_bits(a: Goldilocks)
    requires
        a.wf(),
    ensures
        goldilocks::from_lsb0_bits(bits_of(a.value as nat, 64)) == a,
        goldilocks::from_msb0_bits(bits_of(a.value as nat, 64).reverse()) == a,
{
    let bits = bits_of(a.value as nat, 64);
    lemma_goldilocks_size();
    lemma_bits_of(a.value as nat, 64);
    lemma_canonical(a.value as int, goldilocks::prime());
    assert(bits.take(64) =~= bits);
    let back = bits.reverse();
    assert(back.take(64) =~= back);
    assert(msb0_padded(back, 64) =~= bits);
}

/// Sums and products can be taken in any order.
pub proof fn lemma_m61_commutes(a: M61Field, b: M61Field)
    ensures
        a.plus(b) == b.plus(a),
        a.times(b) == b.times(a),
{
    let (x, y) = (a.value as int, b.value as int);
    assert(x * y == y * x) by (nonlinear_arith);
}

/// Sums and products can be grouped in any way.
pub proof fn lemma_m61_associates(a: M61Field, b: M61Field, c: M61Field)
    ensures
        a.plus(b).plus(c) == a.plus(b.plus(c)),
        a.times(b).times(c) == a.times(b.times(c)),
{
    let p = m61::prime();
    let (x, y, z) = (a.value as int, b.value as int, c.value as int);
    lemma_mod_bound(x + y, p);
    lemma_mod_bound(y + z, p);
    lemma_mod_bound(x * y, p);
    lemma_mod_bound(y * z, p);
    lemma_inside(x + y, z, p);
    lemma_inside(x, y + z, p);
    lemma_inside(x * y, z, p);
    lemma_inside(x, y * z, p);
    assert((x * y) * z == x * (y * z)) by (nonlinear_arith);
}

/// Products distribute over sums.
pub proof fn lemma_m61_distributes(a: M61Field, b: M61Field, c: M61Field)
    ensures
        a.times(b.plus(c)) == a.times(b).plus(a.times(c)),
{
    let p = m61::prime();
    let (x, y, z) = (a.value as int, b.value as int, c.value as int);
    lemma_mod_bound(y + z, p);
    lemma_mod_bound(x * y, p);
    lemma_mod_bound(x * z, p);
    lemma_inside(x, y + z, p);
    lemma_inside(x * y, (x * z) % p, p);
    lemma_inside(x * y, x * z, p);
    assert(x * (y + z) == x * y + x * z) by (nonlinear_arith);
}

/// Zero and one are neutral, a difference undoes a sum, and a negative undoes an element.
pub proof fn lemma_m61_neutral(a: M61Field, b: M61Field)
    requires
        a.wf(),
        b.wf(),
    ensures
        a.plus((M61Field { value: 0 })) == a,
        a.times((M61Field { value: 1 })) == a,
        a.times((M61Field { value: 0 })).value == 0,
        a.minus(b).plus(b) == a,
        a.plus(a.negated()).value == 0,
{
    let p = m61::prime();
    let (x, y) = (a.value as int, b.value as int);
    lemma_canonical(x, p);
    lemma_canonical(0, p);
    assert(x * 1 == x && x * 0 == 0) by (nonlinear_arith);
    lemma_mod_bound(x - y, p);
    lemma_inside(x - y, y, p);
    lemma_mod_bound(-x, p);
    lemma_inside(x, -x, p);
}

/// An element that is not zero has one inverse: an element with which its product is one.
pub proof fn lemma_m61_inverse(a: M61Field, b: M61Field)
    requires
        a.wf(),
        b.wf(),
        a.value != 0,
    ensures
        a.times(b).value == 1 <==> b.value == inverse(a.value as int, m61::prime()),
{
    let p = m61::prime();
    lemma_m61_prime();
    lemma_canonical(a.value as int, p);
    lemma_inverse(a.value as int, p);
    if a.times(b).value == 1 {
        lemma_mod_bound(a.value * b.value, p);
        assert(is_inverse(a.value as int, b.value as int, p));
        lemma_inverse_unique(
            a.value as int,
            b.value as int,
            inverse(a.value as int, p),
            p,
        );
    }
}

/// An element that is not zero, to the power of the prime less one, is one.
pub proof fn lemma_m61_fermat(a: M61Field)
    requires
        a.wf(),
        a.value != 0,
    ensures
        m61::element(pow(a.value as int, (m61::M61 - 1) as nat)).value == 1,
{
    lemma_m61_prime();
    lemma_canonical(a.value as int, m61::prime());
    lemma_fermat(a.value as int, m61::M61 as nat);
}

/// An element is read back from its bytes.
pub proof fn lemma_m61_bytes(a: M61Field, bytes: Seq<u8>)
    requires
        a.wf(),
        le_number(bytes) == a.value,
    ensures
        m61::decoded(bytes) == Ok::<M61Field, m61::M61Error>(a),
{
}

/// An element is read back from its bits, in either order.
pub proof fn lemma_m61_bits(a: M61Field)
    requires
        a.wf(),
    ensures
        m61::from_lsb0_bits(bits_of(a.value as nat, 61)) == a,
        m61::from_msb0_bits(bits_of(a.value as nat, 61).reverse()) == a,
{
    let bits = bits_of(a.value as nat, 61);
    lemma_m61_size();
    lemma_bits_of(a.value as nat, 61);
    lemma_canonical(a.value as int, m61::prime());
    assert(bits.take(61) =~= bits);
    let back = bits.reverse();
    assert(back.take(61) =~= back);
    assert(msb0_padded(back, 61) =~= bits);
}

} // verus!
