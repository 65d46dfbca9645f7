//! The equations of an AND gate, for all bits of a half at once.
//!
//! The masks `a`, `b`, `r0` and `r1` stand for bits of the control matrix: all ones or zero. The
//! words `h0` to `h5` are the hashes, `x0` to `x5` the halves of the labels A₀, B₀ and of Δ.

use vstd::prelude::*;

verus! {

/// A mask that keeps every bit.
pub const ALL: u64 = 0xffff_ffff_ffff_ffff;

/// The rows of M · H ⊕ R · [A₀; B₀; Δ], written out.
pub proof fn lemma_rows(
    a: u64,
    b: u64,
    r0: u64,
    r1: u64,
    h0: u64,
    h1: u64,
    h2: u64,
    h3: u64,
    h4: u64,
    h5: u64,
    x0: u64,
    x1: u64,
    x2: u64,
    x3: u64,
    x4: u64,
    x5: u64,
)
    by (bit_vector)
    ensures
        (((((((h0 & ALL) ^ (h1 & 0)) ^ (h2 & 0)) ^ (h3 & 0)) ^ (h4 & ALL)) ^ (h5 & 0))
            ^ ((((((x0 & (((((r0 & ALL) ^ (r1 & ALL)) ^ (a & 0)) ^ (b & 0)) ^ 0))
            ^ (x1 & (((((r0 & ALL) ^ (r1 & 0)) ^ (a & 0)) ^ (b & 0)) ^ 0)))
            ^ (x2 & (((((r0 & ALL) ^ (r1 & 0)) ^ (a & 0)) ^ (b & 0)) ^ ALL)))
            ^ (x3 & (((((r0 & 0) ^ (r1 & ALL)) ^ (a & 0)) ^ (b & 0)) ^ 0)))
            ^ (x4 & (((((r0 & 0) ^ (r1 & 0)) ^ (a & 0)) ^ (b & 0)) ^ 0))) ^ (x5 & (((((r0 & 0)
            ^ (r1 & 0)) ^ (a & 0)) ^ (b & 0)) ^ 0)))) == h0 ^ h4 ^ (x0 & (r0 ^ r1)) ^ (x1 & r0)
            ^ (x2 & !r0) ^ (x3 & r1),
        (((((((h0 & 0) ^ (h1 & 0)) ^ (h2 & ALL)) ^ (h3 & 0)) ^ (h4 & ALL)) ^ (h5 & 0))
            ^ ((((((x0 & (((((r0 & ALL) ^ (r1 & 0)) ^ (a & 0)) ^ (b & 0)) ^ 0))
            ^ (x1 & (((((r0 & 0) ^ (r1 & ALL)) ^ (a & 0)) ^ (b & 0)) ^ ALL)))
            ^ (x2 & (((((r0 & 0) ^ (r1 & ALL)) ^ (a & 0)) ^ (b & 0)) ^ 0)))
            ^ (x3 & (((((r0 & ALL) ^ (r1 & ALL)) ^ (a & 0)) ^ (b & 0)) ^ 0)))
            ^ (x4 & (((((r0 & 0) ^ (r1 & 0)) ^ (a & 0)) ^ (b & 0)) ^ 0))) ^ (x5 & (((((r0 & 0)
            ^ (r1 & 0)) ^ (a & 0)) ^ (b & 0)) ^ 0)))) == h2 ^ h4 ^ (x0 & r0) ^ (x1 & !r1)
            ^ (x2 & r1) ^ (x3 & (r0 ^ r1)),
        (((((((h0 & ALL) ^ (h1 & 0)) ^ (h2 & 0)) ^ (h3 & 0)) ^ (h4 & 0)) ^ (h5 & ALL))
            ^ ((((((x0 & (((((r0 & ALL) ^ (r1 & ALL)) ^ (a & 0)) ^ (b & ALL)) ^ 0))
            ^ (x1 & (((((r0 & ALL) ^ (r1 & 0)) ^ (a & ALL)) ^ (b & ALL)) ^ 0)))
            ^ (x2 & (((((r0 & ALL) ^ (r1 & 0)) ^ (a & ALL)) ^ (b & ALL)) ^ ALL)))
            ^ (x3 & (((((r0 & 0) ^ (r1 & ALL)) ^ (a & ALL)) ^ (b & 0)) ^ 0)))
            ^ (x4 & (((((r0 & ALL) ^ (r1 & 0)) ^ (a & ALL)) ^ (b & ALL)) ^ ALL)))
            ^ (x5 & (((((r0 & 0) ^ (r1 & ALL)) ^ (a & ALL)) ^ (b & 0)) ^ 0)))) == h0 ^ h5
            ^ (x0 & (r0 ^ r1 ^ b)) ^ (x1 & (r0 ^ a ^ b)) ^ (x2 & !(r0 ^ a ^ b)) ^ (x3 & (r1
            ^ a)) ^ (x4 & !(r0 ^ a ^ b)) ^ (x5 & (r1 ^ a)),
        (((((((h0 & 0) ^ (h1 & 0)) ^ (h2 & 0)) ^ (h3 & ALL)) ^ (h4 & 0)) ^ (h5 & ALL))
            ^ ((((((x0 & (((((r0 & ALL) ^ (r1 & 0)) ^ (a & ALL)) ^ (b & ALL)) ^ 0))
            ^ (x1 & (((((r0 & 0) ^ (r1 & ALL)) ^ (a & ALL)) ^ (b & 0)) ^ 0)))
            ^ (x2 & (((((r0 & 0) ^ (r1 & ALL)) ^ (a & ALL)) ^ (b & 0)) ^ 0)))
            ^ (x3 & (((((r0 & ALL) ^ (r1 & ALL)) ^ (a & 0)) ^ (b & ALL)) ^ 0)))
            ^ (x4 & (((((r0 & 0) ^ (r1 & ALL)) ^ (a & ALL)) ^ (b & 0)) ^ 0)))
            ^ (x5 & (((((r0 & ALL) ^ (r1 & ALL)) ^ (a & 0)) ^ (b & ALL)) ^ 0)))) == h3 ^ h5
            ^ (x0 & (r0 ^ a ^ b)) ^ (x1 & (r1 ^ a)) ^ (x2 & (r1 ^ a)) ^ (x3 & (r0 ^ r1 ^ b))
            ^ (x4 & (r1 ^ a)) ^ (x5 & (r0 ^ r1 ^ b)),
        (((((((h0 & 0) ^ (h1 & ALL)) ^ (h2 & 0)) ^ (h3 & 0)) ^ (h4 & 0)) ^ (h5 & ALL))
            ^ ((((((x0 & (((((r0 & ALL) ^ (r1 & ALL)) ^ (a & ALL)) ^ (b & 0)) ^ 0))
            ^ (x1 & (((((r0 & ALL) ^ (r1 & 0)) ^ (a & 0)) ^ (b & ALL)) ^ 0)))
            ^ (x2 & (((((r0 & ALL) ^ (r1 & 0)) ^ (a & 0)) ^ (b & ALL)) ^ 0)))
            ^ (x3 & (((((r0 & 0) ^ (r1 & ALL)) ^ (a & ALL)) ^ (b & ALL)) ^ 0)))
            ^ (x4 & (((((r0 & ALL) ^ (r1 & ALL)) ^ (a & ALL)) ^ (b & 0)) ^ 0)))
            ^ (x5 & (((((r0 & ALL) ^ (r1 & 0)) ^ (a & 0)) ^ (b & ALL)) ^ 0)))) == h1 ^ h5
            ^ (x0 & (r0 ^ r1 ^ a)) ^ (x1 & (r0 ^ b)) ^ (x2 & (r0 ^ b)) ^ (x3 & (r1 ^ a ^ b))
            ^ (x4 & (r0 ^ r1 ^ a)) ^ (x5 & (r0 ^ b)),
        (((((((h0 & 0) ^ (h1 & 0)) ^ (h2 & ALL)) ^ (h3 & 0)) ^ (h4 & 0)) ^ (h5 & ALL))
            ^ ((((((x0 & (((((r0 & ALL) ^ (r1 & 0)) ^ (a & 0)) ^ (b & ALL)) ^ 0))
            ^ (x1 & (((((r0 & 0) ^ (r1 & ALL)) ^ (a & ALL)) ^ (b & ALL)) ^ ALL)))
            ^ (x2 & (((((r0 & 0) ^ (r1 & ALL)) ^ (a & ALL)) ^ (b & ALL)) ^ 0)))
            ^ (x3 & (((((r0 & ALL) ^ (r1 & ALL)) ^ (a & ALL)) ^ (b & 0)) ^ 0)))
            ^ (x4 & (((((r0 & ALL) ^ (r1 & 0)) ^ (a & 0)) ^ (b & ALL)) ^ 0)))
            ^ (x5 & (((((r0 & 0) ^ (r1 & ALL)) ^ (a & ALL)) ^ (b & ALL)) ^ ALL)))) == h2 ^ h5
            ^ (x0 & (r0 ^ b)) ^ (x1 & !(r1 ^ a ^ b)) ^ (x2 & (r1 ^ a ^ b)) ^ (x3 & (r0 ^ r1
            ^ a)) ^ (x4 & (r0 ^ b)) ^ (x5 & !(r1 ^ a ^ b)),
        (((((((h0 & 0) ^ (h1 & ALL)) ^ (h2 & 0)) ^ (h3 & 0)) ^ (h4 & ALL)) ^ (h5 & 0))
            ^ ((((((x0 & (((((r0 & ALL) ^ (r1 & ALL)) ^ (a & ALL)) ^ (b & ALL)) ^ 0))
            ^ (x1 & (((((r0 & ALL) ^ (r1 & 0)) ^ (a & ALL)) ^ (b & 0)) ^ 0)))
            ^ (x2 & (((((r0 & ALL) ^ (r1 & 0)) ^ (a & ALL)) ^ (b & 0)) ^ 0)))
            ^ (x3 & (((((r0 & 0) ^ (r1 & ALL)) ^ (a & 0)) ^ (b & ALL)) ^ 0)))
            ^ (x4 & (((((r0 & 0) ^ (r1 & ALL)) ^ (a & 0)) ^ (b & ALL)) ^ 0)))
            ^ (x5 & (((((r0 & ALL) ^ (r1 & ALL)) ^ (a & ALL)) ^ (b & ALL)) ^ 0)))) == h1 ^ h4
            ^ (x0 & (r0 ^ r1 ^ a ^ b)) ^ (x1 & (r0 ^ a)) ^ (x2 & (r0 ^ a)) ^ (x3 & (r1 ^ b))
            ^ (x4 & (r1 ^ b)) ^ (x5 & (r0 ^ r1 ^ a ^ b)),
        (((((((h0 & 0) ^ (h1 & 0)) ^ (h2 & 0)) ^ (h3 & ALL)) ^ (h4 & ALL)) ^ (h5 & 0))
            ^ ((((((x0 & (((((r0 & ALL) ^ (r1 & 0)) ^ (a & ALL)) ^ (b & 0)) ^ 0))
            ^ (x1 & (((((r0 & 0) ^ (r1 & ALL)) ^ (a & 0)) ^ (b & ALL)) ^ 0)))
            ^ (x2 & (((((r0 & 0) ^ (r1 & ALL)) ^ (a & 0)) ^ (b & ALL)) ^ 0)))
            ^ (x3 & (((((r0 & ALL) ^ (r1 & ALL)) ^ (a & ALL)) ^ (b & ALL)) ^ 0)))
            ^ (x4 & (((((r0 & ALL) ^ (r1 & ALL)) ^ (a & ALL)) ^ (b & ALL)) ^ 0)))
            ^ (x5 & (((((r0 & ALL) ^ (r1 & 0)) ^ (a & ALL)) ^ (b & 0)) ^ 0)))) == h3 ^ h4
            ^ (x0 & (r0 ^ a)) ^ (x1 & (r1 ^ b)) ^ (x2 & (r1 ^ b)) ^ (x3 & (r0 ^ r1 ^ a ^ b))
            ^ (x4 & (r0 ^ r1 ^ a ^ b)) ^ (x5 & (r0 ^ a)),
{
}

/// The rows, with Δ added where the AND gate is true, lie in the space: K takes them to zero.
pub proof fn lemma_gate_space(
    a: u64,
    b: u64,
    r0: u64,
    r1: u64,
    h0: u64,
    h1: u64,
    h2: u64,
    h3: u64,
    h4: u64,
    h5: u64,
    x0: u64,
    x1: u64,
    x2: u64,
    x3: u64,
    x4: u64,
    x5: u64,
    q0: u64,
    q1: u64,
    q2: u64,
    q3: u64,
    q4: u64,
    q5: u64,
    q6: u64,
    q7: u64,
)
    by (bit_vector)
    requires
        q0 == (h0 ^ h4 ^ (x0 & (r0 ^ r1)) ^ (x1 & r0) ^ (x2 & !r0) ^ (x3 & r1)) ^ (x4 & (!a & !b)),
        q1 == (h2 ^ h4 ^ (x0 & r0) ^ (x1 & !r1) ^ (x2 & r1) ^ (x3 & (r0 ^ r1))) ^ (x5 & (!a & !b)),
        q2 == (h0 ^ h5 ^ (x0 & (r0 ^ r1 ^ b)) ^ (x1 & (r0 ^ a ^ b)) ^ (x2 & !(r0 ^ a ^ b))
            ^ (x3 & (r1 ^ a)) ^ (x4 & !(r0 ^ a ^ b)) ^ (x5 & (r1 ^ a))) ^ (x4 & (!a & b)),
        q3 == (h3 ^ h5 ^ (x0 & (r0 ^ a ^ b)) ^ (x1 & (r1 ^ a)) ^ (x2 & (r1 ^ a)) ^ (x3 & (r0
            ^ r1 ^ b)) ^ (x4 & (r1 ^ a)) ^ (x5 & (r0 ^ r1 ^ b))) ^ (x5 & (!a & b)),
        q4 == (h1 ^ h5 ^ (x0 & (r0 ^ r1 ^ a)) ^ (x1 & (r0 ^ b)) ^ (x2 & (r0 ^ b)) ^ (x3 & (r1
            ^ a ^ b)) ^ (x4 & (r0 ^ r1 ^ a)) ^ (x5 & (r0 ^ b))) ^ (x4 & (a & !b)),
        q5 == (h2 ^ h5 ^ (x0 & (r0 ^ b)) ^ (x1 & !(r1 ^ a ^ b)) ^ (x2 & (r1 ^ a ^ b))
            ^ (x3 & (r0 ^ r1 ^ a)) ^ (x4 & (r0 ^ b)) ^ (x5 & !(r1 ^ a ^ b))) ^ (x5 & (a & !b)),
        q6 == (h1 ^ h4 ^ (x0 & (r0 ^ r1 ^ a ^ b)) ^ (x1 & (r0 ^ a)) ^ (x2 & (r0 ^ a))
            ^ (x3 & (r1 ^ b)) ^ (x4 & (r1 ^ b)) ^ (x5 & (r0 ^ r1 ^ a ^ b))) ^ (x4 & (a & b)),
        q7 == (h3 ^ h4 ^ (x0 & (r0 ^ a)) ^ (x1 & (r1 ^ b)) ^ (x2 & (r1 ^ b)) ^ (x3 & (r0 ^ r1
            ^ a ^ b)) ^ (x4 & (r0 ^ r1 ^ a ^ b)) ^ (x5 & (r0 ^ a))) ^ (x5 & (a & b)),
    ensures
        q0 ^ q2 ^ q4 ^ q6 == 0,
        q1 ^ q3 ^ q5 ^ q7 == 0,
        q3 ^ q4 ^ q6 ^ q7 == 0,
{
}

/// Rows in the space satisfy the equations of V, with the solution that V⁻¹ gives.
pub proof fn lemma_equations(
    q0: u64,
    q1: u64,
    q2: u64,
    q3: u64,
    q4: u64,
    q5: u64,
    q6: u64,
    q7: u64,
)
    by (bit_vector)
    requires
        q0 ^ q2 ^ q4 ^ q6 == 0,
        q1 ^ q3 ^ q5 ^ q7 == 0,
        q3 ^ q4 ^ q6 ^ q7 == 0,
    ensures
        q2 == q0 ^ (q4 ^ q6),
        q3 == q1 ^ ((q0 ^ q1 ^ q2 ^ q3) ^ (q4 ^ q6)),
        q4 == q0 ^ ((q0 ^ q1 ^ q4 ^ q5) ^ (q4 ^ q6)),
        q5 == q1 ^ (q4 ^ q6),
        q6 == q0 ^ (q0 ^ q1 ^ q4 ^ q5),
        q7 == q1 ^ (q0 ^ q1 ^ q2 ^ q3),
{
}

/// A marginal view, applied to the labels that the evaluator holds, gives the rows of its input
/// combination.
pub proof fn lemma_views(
    a: u64,
    b: u64,
    r0: u64,
    r1: u64,
    h0: u64,
    h1: u64,
    h2: u64,
    h3: u64,
    h4: u64,
    h5: u64,
    x0: u64,
    x1: u64,
    x2: u64,
    x3: u64,
    x4: u64,
    x5: u64,
)
    by (bit_vector)
    ensures
        (h0 ^ h4) ^ ((((x0 & (((((((r0 & ALL) ^ (r1 & 0)) ^ (a & 0)) ^ (b & 0)) & ALL)
            ^ (((((r0 & 0) ^ (r1 & ALL)) ^ (a & 0)) ^ (b & 0)) & ALL)) ^ 0))
            ^ (x1 & (((((((r0 & ALL) ^ (r1 & 0)) ^ (a & 0)) ^ (b & 0)) & ALL) ^ (((((r0 & 0)
            ^ (r1 & ALL)) ^ (a & 0)) ^ (b & 0)) & 0)) ^ 0))) ^ (x2 & (((((((r0 & ALL)
            ^ (r1 & 0)) ^ (a & 0)) ^ (b & 0)) & ALL) ^ (((((r0 & 0) ^ (r1 & ALL)) ^ (a & 0))
            ^ (b & 0)) & 0)) ^ ALL))) ^ (x3 & (((((((r0 & ALL) ^ (r1 & 0)) ^ (a & 0))
            ^ (b & 0)) & 0) ^ (((((r0 & 0) ^ (r1 & ALL)) ^ (a & 0)) ^ (b & 0)) & ALL)) ^ 0)))
            == h0 ^ h4 ^ (x0 & (r0 ^ r1)) ^ (x1 & r0) ^ (x2 & !r0) ^ (x3 & r1),
        (h2 ^ h4) ^ ((((x0 & (((((((r0 & ALL) ^ (r1 & 0)) ^ (a & 0)) ^ (b & 0)) & ALL)
            ^ (((((r0 & 0) ^ (r1 & ALL)) ^ (a & 0)) ^ (b & 0)) & 0)) ^ 0))
            ^ (x1 & (((((((r0 & ALL) ^ (r1 & 0)) ^ (a & 0)) ^ (b & 0)) & 0) ^ (((((r0 & 0)
            ^ (r1 & ALL)) ^ (a & 0)) ^ (b & 0)) & ALL)) ^ ALL))) ^ (x2 & (((((((r0 & ALL)
            ^ (r1 & 0)) ^ (a & 0)) ^ (b & 0)) & 0) ^ (((((r0 & 0) ^ (r1 & ALL)) ^ (a & 0))
            ^ (b & 0)) & ALL)) ^ 0))) ^ (x3 & (((((((r0 & ALL) ^ (r1 & 0)) ^ (a & 0))
            ^ (b & 0)) & ALL) ^ (((((r0 & 0) ^ (r1 & ALL)) ^ (a & 0)) ^ (b & 0)) & ALL))
            ^ 0))) == h2 ^ h4 ^ (x0 & r0) ^ (x1 & !r1) ^ (x2 & r1) ^ (x3 & (r0 ^ r1)),
        (h0 ^ h5) ^ ((((x0 & (((((((r0 & ALL) ^ (r1 & 0)) ^ (a & ALL)) ^ (b & ALL)) & ALL)
            ^ (((((r0 & 0) ^ (r1 & ALL)) ^ (a & ALL)) ^ (b & 0)) & ALL)) ^ 0))
            ^ (x1 & (((((((r0 & ALL) ^ (r1 & 0)) ^ (a & ALL)) ^ (b & ALL)) & ALL)
            ^ (((((r0 & 0) ^ (r1 & ALL)) ^ (a & ALL)) ^ (b & 0)) & 0)) ^ 0))) ^ ((x2
            ^ x4) & (((((((r0 & ALL) ^ (r1 & 0)) ^ (a & ALL)) ^ (b & ALL)) & ALL)
            ^ (((((r0 & 0) ^ (r1 & ALL)) ^ (a & ALL)) ^ (b & 0)) & 0)) ^ ALL))) ^ ((x3
            ^ x5) & (((((((r0 & ALL) ^ (r1 & 0)) ^ (a & ALL)) ^ (b & ALL)) & 0) ^ (((((r0 & 0)
            ^ (r1 & ALL)) ^ (a & ALL)) ^ (b & 0)) & ALL)) ^ 0))) == h0 ^ h5 ^ (x0 & (r0 ^ r1
            ^ b)) ^ (x1 & (r0 ^ a ^ b)) ^ (x2 & !(r0 ^ a ^ b)) ^ (x3 & (r1 ^ a)) ^ (x4 & !(r0
            ^ a ^ b)) ^ (x5 & (r1 ^ a)),
        (h3 ^ h5) ^ ((((x0 & (((((((r0 & ALL) ^ (r1 & 0)) ^ (a & ALL)) ^ (b & ALL)) & ALL)
            ^ (((((r0 & 0) ^ (r1 & ALL)) ^ (a & ALL)) ^ (b & 0)) & 0)) ^ 0))
            ^ (x1 & (((((((r0 & ALL) ^ (r1 & 0)) ^ (a & ALL)) ^ (b & ALL)) & 0) ^ (((((r0 & 0)
            ^ (r1 & ALL)) ^ (a & ALL)) ^ (b & 0)) & ALL)) ^ 0))) ^ ((x2
            ^ x4) & (((((((r0 & ALL) ^ (r1 & 0)) ^ (a & ALL)) ^ (b & ALL)) & 0) ^ (((((r0 & 0)
            ^ (r1 & ALL)) ^ (a & ALL)) ^ (b & 0)) & ALL)) ^ 0))) ^ ((x3
            ^ x5) & (((((((r0 & ALL) ^ (r1 & 0)) ^ (a & ALL)) ^ (b & ALL)) & ALL)
            ^ (((((r0 & 0) ^ (r1 & ALL)) ^ (a & ALL)) ^ (b & 0)) & ALL)) ^ 0))) == h3 ^ h5
            ^ (x0 & (r0 ^ a ^ b)) ^ (x1 & (r1 ^ a)) ^ (x2 & (r1 ^ a)) ^ (x3 & (r0 ^ r1 ^ b))
            ^ (x4 & (r1 ^ a)) ^ (x5 & (r0 ^ r1 ^ b)),
        (h1 ^ h5) ^ (((((x0 ^ x4) & (((((((r0 & ALL) ^ (r1 & 0)) ^ (a & 0)) ^ (b & ALL)) & ALL)
            ^ (((((r0 & 0) ^ (r1 & ALL)) ^ (a & ALL)) ^ (b & ALL)) & ALL)) ^ 0)) ^ ((x1
            ^ x5) & (((((((r0 & ALL) ^ (r1 & 0)) ^ (a & 0)) ^ (b & ALL)) & ALL) ^ (((((r0 & 0)
            ^ (r1 & ALL)) ^ (a & ALL)) ^ (b & ALL)) & 0)) ^ 0))) ^ (x2 & (((((((r0 & ALL)
            ^ (r1 & 0)) ^ (a & 0)) ^ (b & ALL)) & ALL) ^ (((((r0 & 0) ^ (r1 & ALL))
            ^ (a & ALL)) ^ (b & ALL)) & 0)) ^ 0))) ^ (x3 & (((((((r0 & ALL) ^ (r1 & 0))
            ^ (a & 0)) ^ (b & ALL)) & 0) ^ (((((r0 & 0) ^ (r1 & ALL)) ^ (a & ALL))
            ^ (b & ALL)) & ALL)) ^ 0))) == h1 ^ h5 ^ (x0 & (r0 ^ r1 ^ a)) ^ (x1 & (r0 ^ b))
            ^ (x2 & (r0 ^ b)) ^ (x3 & (r1 ^ a ^ b)) ^ (x4 & (r0 ^ r1 ^ a)) ^ (x5 & (r0 ^ b)),
        (h2 ^ h5) ^ (((((x0 ^ x4) & (((((((r0 & ALL) ^ (r1 & 0)) ^ (a & 0)) ^ (b & ALL)) & ALL)
            ^ (((((r0 & 0) ^ (r1 & ALL)) ^ (a & ALL)) ^ (b & ALL)) & 0)) ^ 0)) ^ ((x1
            ^ x5) & (((((((r0 & ALL) ^ (r1 & 0)) ^ (a & 0)) ^ (b & ALL)) & 0) ^ (((((r0 & 0)
            ^ (r1 & ALL)) ^ (a & ALL)) ^ (b & ALL)) & ALL)) ^ ALL))) ^ (x2 & (((((((r0 & ALL)
            ^ (r1 & 0)) ^ (a & 0)) ^ (b & ALL)) & 0) ^ (((((r0 & 0) ^ (r1 & ALL)) ^ (a & ALL))
            ^ (b & ALL)) & ALL)) ^ 0))) ^ (x3 & (((((((r0 & ALL) ^ (r1 & 0)) ^ (a & 0))
            ^ (b & ALL)) & ALL) ^ (((((r0 & 0) ^ (r1 & ALL)) ^ (a & ALL)) ^ (b & ALL)) & ALL))
            ^ 0))) == h2 ^ h5 ^ (x0 & (r0 ^ b)) ^ (x1 & !(r1 ^ a ^ b)) ^ (x2 & (r1 ^ a ^ b))
            ^ (x3 & (r0 ^ r1 ^ a)) ^ (x4 & (r0 ^ b)) ^ (x5 & !(r1 ^ a ^ b)),
        (h1 ^ h4) ^ (((((x0 ^ x4) & (((((((r0 & ALL) ^ (r1 & 0)) ^ (a & ALL)) ^ (b & 0)) & ALL)
            ^ (((((r0 & 0) ^ (r1 & ALL)) ^ (a & 0)) ^ (b & ALL)) & ALL)) ^ 0)) ^ ((x1
            ^ x5) & (((((((r0 & ALL) ^ (r1 & 0)) ^ (a & ALL)) ^ (b & 0)) & ALL) ^ (((((r0 & 0)
            ^ (r1 & ALL)) ^ (a & 0)) ^ (b & ALL)) & 0)) ^ 0))) ^ ((x2 ^ x4) & (((((((r0 & ALL)
            ^ (r1 & 0)) ^ (a & ALL)) ^ (b & 0)) & ALL) ^ (((((r0 & 0) ^ (r1 & ALL)) ^ (a & 0))
            ^ (b & ALL)) & 0)) ^ 0))) ^ ((x3 ^ x5) & (((((((r0 & ALL) ^ (r1 & 0)) ^ (a & ALL))
            ^ (b & 0)) & 0) ^ (((((r0 & 0) ^ (r1 & ALL)) ^ (a & 0)) ^ (b & ALL)) & ALL))
            ^ 0))) == h1 ^ h4 ^ (x0 & (r0 ^ r1 ^ a ^ b)) ^ (x1 & (r0 ^ a)) ^ (x2 & (r0 ^ a))
            ^ (x3 & (r1 ^ b)) ^ (x4 & (r1 ^ b)) ^ (x5 & (r0 ^ r1 ^ a ^ b)),
        (h3 ^ h4) ^ (((((x0 ^ x4) & (((((((r0 & ALL) ^ (r1 & 0)) ^ (a & ALL)) ^ (b & 0)) & ALL)
            ^ (((((r0 & 0) ^ (r1 & ALL)) ^ (a & 0)) ^ (b & ALL)) & 0)) ^ 0)) ^ ((x1
            ^ x5) & (((((((r0 & ALL) ^ (r1 & 0)) ^ (a & ALL)) ^ (b & 0)) & 0) ^ (((((r0 & 0)
            ^ (r1 & ALL)) ^ (a & 0)) ^ (b & ALL)) & ALL)) ^ 0))) ^ ((x2
            ^ x4) & (((((((r0 & ALL) ^ (r1 & 0)) ^ (a & ALL)) ^ (b & 0)) & 0) ^ (((((r0 & 0)
            ^ (r1 & ALL)) ^ (a & 0)) ^ (b & ALL)) & ALL)) ^ 0))) ^ ((x3
            ^ x5) & (((((((r0 & ALL) ^ (r1 & 0)) ^ (a & ALL)) ^ (b & 0)) & ALL) ^ (((((r0 & 0)
            ^ (r1 & ALL)) ^ (a & 0)) ^ (b & ALL)) & ALL)) ^ 0))) == h3 ^ h4 ^ (x0 & (r0 ^ a))
            ^ (x1 & (r1 ^ b)) ^ (x2 & (r1 ^ b)) ^ (x3 & (r0 ^ r1 ^ a ^ b)) ^ (x4 & (r0 ^ r1 ^ a
            ^ b)) ^ (x5 & (r0 ^ a)),
{
}

/// The masks of bits and of their combinations.
pub proof fn lemma_masks(x: u64, y: u64)
    ensures
        x & ALL == x,
        x & 0 == 0,
        x ^ 0 == x,
        0 ^ x == x,
        !ALL == 0,
        !0u64 == ALL,
        ALL ^ ALL == 0,
        (x ^ y) ^ y == x,
        x ^ y == y ^ x,
{
    assert(x & 0xffff_ffff_ffff_ffff == x && x & 0 == 0 && x ^ 0 == x && 0 ^ x == x
        && !0xffff_ffff_ffff_ffffu64 == 0 && !0u64 == 0xffff_ffff_ffff_ffff
        && 0xffff_ffff_ffff_ffffu64 ^ 0xffff_ffff_ffff_ffff == 0 && (x ^ y) ^ y == x && x ^ y == y
        ^ x) by (bit_vector);
}

} // verus!
