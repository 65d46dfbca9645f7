//! # Core Matrices for Three-Halves Garbling
//!
//! This module defines the fixed matrices used in the three-halves garbling
//! scheme. All matrices operate over GF(2) (binary field), so all arithmetic is
//! mod 2.
//!
//! ## Matrix Dimensions and Roles
//!
//! | Matrix | Size  | Role |
//! |--------|-------|------|
//! | K      | 3×8   | Cokernel of gate space G; vectors v ∈ G satisfy Kv = 0 |
//! | V      | 8×5   | Maps [output_label; gate_ciphertexts] to 8 evaluation equations |
//! | M      | 8×6   | Maps 6 hash outputs to 8 evaluation equations |
//! | V⁻¹    | 5×8   | Left-inverse of V; used by garbler to solve for outputs |
//!
//! ## The 8 Rows
//!
//! Each matrix has 8 rows corresponding to:
//! - Rows 0-1: Input combination (0,0) - left and right halves
//! - Rows 2-3: Input combination (0,1) - left and right halves
//! - Rows 4-5: Input combination (1,0) - left and right halves
//! - Rows 6-7: Input combination (1,1) - left and right halves

use vstd::prelude::*;

verus! {

/// Matrix K: Cokernel basis for the space G
///
/// **Property**: A vector v is in the space G if and only if Kv = 0
///
/// **Interpretation**:
/// - Row 0: Sum of all left halves must be 0 (even parity across left halves)
/// - Row 1: Sum of all right halves must be 0 (even parity across right halves)
/// - Row 2: A specific linear relation involving right halves of (0,1), left of
///   (1,0), both of (1,1)
pub const K: [[u8; 8]; 3] = [
    [1, 0, 1, 0, 1, 0, 1, 0],
    [0, 1, 0, 1, 0, 1, 0, 1],
    [0, 0, 0, 1, 1, 0, 1, 1],
];

/// Matrix V: Maps output label and gate ciphertexts to evaluation equations
///
/// **Column interpretation**:
/// - Column 0: C_L (left half of output label)
/// - Column 1: C_R (right half of output label)
/// - Column 2: G₀ (first gate ciphertext, κ/2 bits)
/// - Column 3: G₁ (second gate ciphertext, κ/2 bits)
/// - Column 4: G₂ (third gate ciphertext, κ/2 bits)
pub const V: [[u8; 5]; 8] = [
    [1, 0, 0, 0, 0],
    [0, 1, 0, 0, 0],
    [1, 0, 0, 0, 1],
    [0, 1, 0, 1, 1],
    [1, 0, 1, 0, 1],
    [0, 1, 0, 0, 1],
    [1, 0, 1, 0, 0],
    [0, 1, 0, 1, 0],
];

/// Matrix M: Maps hash outputs to 8 evaluation equations
///
/// **Column interpretation** (in order):
/// - Column 0: H(A₀)
/// - Column 1: H(A₁) = H(A₀ ⊕ Δ)
/// - Column 2: H(B₀)
/// - Column 3: H(B₁) = H(B₀ ⊕ Δ)
/// - Column 4: H(A₀ ⊕ B₀)
/// - Column 5: H(A₀ ⊕ B₁) = H(A₁ ⊕ B₀) due to free-XOR
pub const M: [[u8; 6]; 8] = [
    [1, 0, 0, 0, 1, 0],
    [0, 0, 1, 0, 1, 0],
    [1, 0, 0, 0, 0, 1],
    [0, 0, 0, 1, 0, 1],
    [0, 1, 0, 0, 0, 1],
    [0, 0, 1, 0, 0, 1],
    [0, 1, 0, 0, 1, 0],
    [0, 0, 0, 1, 1, 0],
];

/// Matrix V⁻¹: Left-inverse of V
///
/// **Property**: V⁻¹ · V = I₅ (5×5 identity matrix)
/// This is a LEFT-inverse, not a full inverse (V is 8×5, not square).
///
/// **Row interpretation**:
/// - Row 0: Extracts C_L (output label left half)
/// - Row 1: Extracts C_R (output label right half)
/// - Row 2: Extracts G₀ (first gate ciphertext)
/// - Row 3: Extracts G₁ (second gate ciphertext)
/// - Row 4: Extracts G₂ (third gate ciphertext)
pub const V_INV: [[u8; 8]; 5] = [
    [1, 0, 0, 0, 0, 0, 0, 0],
    [0, 1, 0, 0, 0, 0, 0, 0],
    [1, 1, 0, 0, 1, 1, 0, 0],
    [1, 1, 1, 1, 0, 0, 0, 0],
    [0, 0, 0, 0, 1, 0, 1, 0],
];

/// The sum over GF(2) of the products of the first `n` entries of two vectors.
pub open spec fn dot(a: Seq<u8>, b: Seq<u8>, n: nat) -> bool
    decreases n,
{
    n > 0 && dot(a, b, (n - 1) as nat) != (a[n - 1] == 1 && b[n - 1] == 1)
}

/// A column of V.
pub open spec fn v_column(j: int) -> Seq<u8> {
    Seq::new(8, |k: int| V@[k]@[j])
}

/// A column of M.
pub open spec fn m_column(j: int) -> Seq<u8> {
    Seq::new(8, |k: int| M@[k]@[j])
}

/// K · V = 0: all columns of V lie in the space.
pub proof fn lemma_k_times_v_is_zero(i: int, j: int)
    requires
        0 <= i < 3,
        0 <= j < 5,
    ensures
        !dot(K@[i]@, v_column(j), 8),
{
    reveal_with_fuel(dot, 9);
    assert(i == 0 || i == 1 || i == 2);
    assert(j == 0 || j == 1 || j == 2 || j == 3 || j == 4);
}

/// K · M = 0: all columns of M lie in the space.
pub proof fn lemma_k_times_m_is_zero(i: int, j: int)
    requires
        0 <= i < 3,
        0 <= j < 6,
    ensures
        !dot(K@[i]@, m_column(j), 8),
{
    reveal_with_fuel(dot, 9);
    assert(i == 0 || i == 1 || i == 2);
    assert(j == 0 || j == 1 || j == 2 || j == 3 || j == 4 || j == 5);
}

/// V⁻¹ · V = I₅.
pub proof fn lemma_v_inv_is_left_inverse(i: int, j: int)
    requires
        0 <= i < 5,
        0 <= j < 5,
    ensures
        dot(V_INV@[i]@, v_column(j), 8) == (i == j),
{
    reveal_with_fuel(dot, 9);
    assert(i == 0 || i == 1 || i == 2 || i == 3 || i == 4);
    assert(j == 0 || j == 1 || j == 2 || j == 3 || j == 4);
}

/// V⁻¹ · M, row by row: C_L takes H(A₀) and H(A₀⊕B₀), C_R takes H(B₀) and H(A₀⊕B₀), G₀ the hashes
/// of A, G₁ those of B, and G₂ those of the sums.
pub proof fn lemma_v_inv_times_m(i: int, j: int)
    requires
        0 <= i < 5,
        0 <= j < 6,
    ensures
        dot(V_INV@[i]@, m_column(j), 8) == (if i == 0 {
            j == 0 || j == 4
        } else if i == 1 {
            j == 2 || j == 4
        } else {
            j == 2 * (i - 2) || j == 2 * (i - 2) + 1
        }),
{
    reveal_with_fuel(dot, 9);
    assert(i == 0 || i == 1 || i == 2 || i == 3 || i == 4);
    assert(j == 0 || j == 1 || j == 2 || j == 3 || j == 4 || j == 5);
}

/// The rows of K are independent: a combination of them that is zero is the empty one.
pub proof fn lemma_k_rows_independent(x: bool, y: bool, z: bool)
    requires
        forall|k: int|
            0 <= k < 8 ==> ((x && #[trigger] K@[0]@[k] == 1) != (y && K@[1]@[k] == 1)) == (z
                && K@[2]@[k] == 1),
    ensures
        !x && !y && !z,
{
    assert(K@[0]@[0] == 1);
    assert(K@[0]@[1] == 0);
    assert(K@[0]@[4] == 1);
}

/// The columns of V are independent: a combination of them that is zero is the empty one.
pub proof fn lemma_v_columns_independent(v: Seq<u8>)
    requires
        v.len() == 5,
        forall|j: int| 0 <= j < 5 ==> #[trigger] v[j] <= 1,
        forall|k: int| 0 <= k < 8 ==> !dot(#[trigger] V@[k]@, v, 5),
    ensures
        forall|j: int| 0 <= j < 5 ==> #[trigger] v[j] == 0,
{
    reveal_with_fuel(dot, 6);
    assert(!dot(V@[0]@, v, 5));
    assert(!dot(V@[1]@, v, 5));
    assert(!dot(V@[2]@, v, 5));
    assert(!dot(V@[6]@, v, 5));
    assert(!dot(V@[7]@, v, 5));
    assert(v[0] == 0 && v[1] == 0 && v[2] == 0 && v[3] == 0 && v[4] == 0);
}

/// M has rank 5: a combination of its 6 columns is zero only if it takes all of them or none.
pub proof fn lemma_m_kernel(v: Seq<u8>)
    requires
        v.len() == 6,
        forall|j: int| 0 <= j < 6 ==> #[trigger] v[j] <= 1,
    ensures
        (forall|k: int| 0 <= k < 8 ==> !dot(#[trigger] M@[k]@, v, 6)) <==> (forall|j: int|
            0 <= j < 6 ==> #[trigger] v[j] == v[0]),
{
    reveal_with_fuel(dot, 7);
    if forall|k: int| 0 <= k < 8 ==> !dot(#[trigger] M@[k]@, v, 6) {
        assert(!dot(M@[0]@, v, 6));
        assert(!dot(M@[1]@, v, 6));
        assert(!dot(M@[2]@, v, 6));
        assert(!dot(M@[3]@, v, 6));
        assert(!dot(M@[4]@, v, 6));
        assert(v[1] == v[0] && v[2] == v[0] && v[3] == v[0] && v[4] == v[0] && v[5] == v[0]);
    }
    if forall|j: int| 0 <= j < 6 ==> #[trigger] v[j] == v[0] {
        assert(v[1] == v[0] && v[2] == v[0] && v[3] == v[0] && v[4] == v[0] && v[5] == v[0]);
        assert forall|k: int| 0 <= k < 8 implies !dot(#[trigger] M@[k]@, v, 6) by {
            assert(k == 0 || k == 1 || k == 2 || k == 3 || k == 4 || k == 5 || k == 6 || k == 7);
        }
    }
}

} // verus!
