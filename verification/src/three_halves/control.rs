//! # Control Matrix System for Three-Halves Garbling
//!
//! This module implements the "dicing" technique of the scheme.
//! The control matrix R determines which linear combinations of input label
//! pieces the evaluator uses to compute output label halves.
//!
//! ## Overview
//!
//! The control matrix R is an 8×6 matrix that specifies, for each of the 8
//! evaluation equations (4 input combinations × 2 halves), which pieces of
//! the input labels [A₀; B₀; Δ] to include.
//!
//! R is sampled from a distribution such that:
//! 1. KR = K[0 0 t] always holds, where t is the truth table (correctness)
//! 2. Each marginal view R_ij is uniform and independent of t (security)
//!
//! ## Compression with Basis {S₁, S₂}
//!
//! Instead of 8-bit marginal views, we express them in a 2D basis:
//!
//! R_ij = c₁·S₁ ⊕ c₂·S₂

use vstd::prelude::*;

use crate::three_halves::matrices::{dot, K};

verus! {

/// Basis matrix S₁ for expressing marginal views
///
/// **Interpretation**: A 2×4 matrix where:
/// - Row 0 is coefficients for the left half computation
/// - Row 1 is coefficients for the right half computation
/// - Columns are [A_L, A_R, B_L, B_R] (the four input label halves)
pub const S1: [[u8; 4]; 2] = [[1, 1, 1, 0], [1, 0, 0, 1]];

/// Basis matrix S₂ for expressing marginal views
pub const S2: [[u8; 4]; 2] = [[1, 0, 0, 1], [0, 1, 1, 1]];

/// Matrix R_p: Added for odd-parity gates
///
/// **Purpose**: When garbling an odd-parity gate (like AND), we add R_p to
/// the sampled R. The evaluator knows to add the corresponding (R_p)_ij to
/// their marginal view since parity is public in ODD mode.
///
/// **Column layout**: [A₀_L, A₀_R, B₀_L, B₀_R, Δ_L, Δ_R]
pub const R_P: [[u8; 6]; 8] = [
    [0, 0, 1, 0, 0, 0],
    [0, 1, 0, 0, 0, 0],
    [0, 0, 1, 0, 1, 0],
    [0, 0, 0, 0, 0, 0],
    [0, 0, 0, 0, 0, 0],
    [0, 1, 0, 0, 0, 1],
    [0, 0, 0, 0, 0, 0],
    [0, 0, 0, 0, 0, 0],
];

/// Matrix R_a: Encodes the 'a' bit of truth table position
pub const R_A: [[u8; 6]; 8] = [
    [0, 0, 0, 0, 0, 0],
    [0, 0, 0, 0, 0, 0],
    [0, 1, 1, 1, 1, 1],
    [1, 1, 1, 0, 1, 0],
    [1, 0, 0, 1, 1, 0],
    [0, 1, 1, 1, 0, 1],
    [1, 1, 1, 0, 0, 1],
    [1, 0, 0, 1, 1, 1],
];

/// Matrix R_b: Encodes the 'b' bit of truth table position
pub const R_B: [[u8; 6]; 8] = [
    [0, 0, 0, 0, 0, 0],
    [0, 0, 0, 0, 0, 0],
    [1, 1, 1, 0, 1, 0],
    [1, 0, 0, 1, 0, 1],
    [0, 1, 1, 1, 0, 1],
    [1, 1, 1, 0, 1, 1],
    [1, 0, 0, 1, 1, 1],
    [0, 1, 1, 1, 1, 0],
];

/// First basis matrix for R$ randomization
pub const R_DOLLAR_BASIS_0: [[u8; 6]; 8] = [
    [1, 1, 1, 0, 0, 0],
    [1, 0, 0, 1, 0, 0],
    [1, 1, 1, 0, 1, 0],
    [1, 0, 0, 1, 0, 1],
    [1, 1, 1, 0, 1, 1],
    [1, 0, 0, 1, 1, 0],
    [1, 1, 1, 0, 0, 1],
    [1, 0, 0, 1, 1, 1],
];

/// Second basis matrix for R$ randomization
pub const R_DOLLAR_BASIS_1: [[u8; 6]; 8] = [
    [1, 0, 0, 1, 0, 0],
    [0, 1, 1, 1, 0, 0],
    [1, 0, 0, 1, 0, 1],
    [0, 1, 1, 1, 1, 1],
    [1, 0, 0, 1, 1, 0],
    [0, 1, 1, 1, 0, 1],
    [1, 0, 0, 1, 1, 1],
    [0, 1, 1, 1, 1, 0],
];

/// Compressed representation of R_a in terms of basis {S₁, S₂}
///
/// Each row gives the coefficients [c₁, c₂] such that R_ij = c₁·S₁ ⊕ c₂·S₂
pub const R_BAR_A: [[u8; 2]; 4] = [[0, 0], [1, 1], [0, 1], [1, 0]];

/// Compressed representation of R_b in terms of basis {S₁, S₂}
pub const R_BAR_B: [[u8; 2]; 4] = [[0, 0], [1, 0], [1, 1], [0, 1]];

/// First basis vector for compressed R$ randomization
///
/// **Key insight**: Both basis vectors have the same value in every row!
/// This means sampling random R$ in compressed form just picks a random
/// pair (c₁, c₂) and uses it for ALL four marginal views.
pub const R_BAR_DOLLAR_BASIS_0: [[u8; 2]; 4] = [[1, 0], [1, 0], [1, 0], [1, 0]];

/// Second basis vector for compressed R$ randomization
pub const R_BAR_DOLLAR_BASIS_1: [[u8; 2]; 4] = [[0, 1], [0, 1], [0, 1], [0, 1]];

/// Precomputed lookup table for compressed control matrices R_bar.
///
/// Indexed by: `pi_a << 3 | pi_b << 2 | r0 << 1 | r1`
///
/// Each entry is the compressed R_bar representation where:
/// - `a = !pi_a` (true position bit for input A in AND gate)
/// - `b = !pi_b` (true position bit for input B in AND gate)
/// - `R_bar = r0·R̄$_BASIS_0 ⊕ r1·R̄$_BASIS_1 ⊕ a·R̄_A ⊕ b·R̄_B`
///
/// Note: R_P is NOT included in R_bar because it's not in the span of {S₁, S₂}.
/// The evaluator adds R_P separately since parity is public.
pub const SAMPLE_R_BAR_TABLE: [[[u8; 2]; 4]; 16] = [
    [[0, 0], [0, 1], [1, 0], [1, 1]],
    [[0, 1], [0, 0], [1, 1], [1, 0]],
    [[1, 0], [1, 1], [0, 0], [0, 1]],
    [[1, 1], [1, 0], [0, 1], [0, 0]],
    [[0, 0], [1, 1], [0, 1], [1, 0]],
    [[0, 1], [1, 0], [0, 0], [1, 1]],
    [[1, 0], [0, 1], [1, 1], [0, 0]],
    [[1, 1], [0, 0], [1, 0], [0, 1]],
    [[0, 0], [1, 0], [1, 1], [0, 1]],
    [[0, 1], [1, 1], [1, 0], [0, 0]],
    [[1, 0], [0, 0], [0, 1], [1, 1]],
    [[1, 1], [0, 1], [0, 0], [1, 0]],
    [[0, 0], [0, 0], [0, 0], [0, 0]],
    [[0, 1], [0, 1], [0, 1], [0, 1]],
    [[1, 0], [1, 0], [1, 0], [1, 0]],
    [[1, 1], [1, 1], [1, 1], [1, 1]],
];

/// Precomputed lookup table for all possible marginal view expansions
///
/// R_ij = c₁·S₁ ⊕ c₂·S₂ at index 2·c₁ + c₂.
pub const EXPANDED_MARGINALS: [[[u8; 4]; 2]; 4] = [
    [[0, 0, 0, 0], [0, 0, 0, 0]],
    [[1, 0, 0, 1], [0, 1, 1, 1]],
    [[1, 1, 1, 0], [1, 0, 0, 1]],
    [[0, 1, 1, 1], [1, 1, 1, 0]],
];

/// Precomputed R_P marginals for all 4 input combinations: columns 0-3 of the two rows of (i, j),
/// at index 2·i + j.
pub const R_P_MARGINALS: [[[u8; 4]; 2]; 4] = [
    [[0, 0, 1, 0], [0, 1, 0, 0]],
    [[0, 0, 1, 0], [0, 0, 0, 0]],
    [[0, 0, 0, 0], [0, 1, 0, 0]],
    [[0, 0, 0, 0], [0, 0, 0, 0]],
];

/// A coefficient of the compressed control matrix:
/// r0·R̄$_BASIS_0 ⊕ r1·R̄$_BASIS_1 ⊕ a·R̄_A ⊕ b·R̄_B.
pub open spec fn r_bar(pi_a: bool, pi_b: bool, r0: bool, r1: bool, ij: int, k: int) -> bool {
    (((r0 && R_BAR_DOLLAR_BASIS_0@[ij]@[k] == 1) != (r1 && R_BAR_DOLLAR_BASIS_1@[ij]@[k] == 1))
        != (!pi_a && R_BAR_A@[ij]@[k] == 1)) != (!pi_b && R_BAR_B@[ij]@[k] == 1)
}

/// A bit as a number.
pub open spec fn bit(b: bool) -> u8 {
    if b {
        1
    } else {
        0
    }
}

/// Sample a control matrix R for an AND gate (ODD mode)
///
/// Uses precomputed lookup table for all 16 combinations of inputs.
///
/// # Arguments
/// * `pi_a` - Permute bit for input A
/// * `pi_b` - Permute bit for input B
/// * `rand_bits` - Two random bits [r₀, r₁] for sampling R$
///
/// # Returns
/// * `r_bar` - The 4×2 compressed representation for encryption (u8 values 0 or
///   1)
pub fn sample_r_odd(pi_a: bool, pi_b: bool, rand_bits: [bool; 2]) -> (r: [[u8; 2]; 4])
    ensures
        forall|ij: int, k: int|
            0 <= ij < 4 && 0 <= k < 2 ==> #[trigger] r@[ij]@[k] == bit(
                r_bar(pi_a, pi_b, rand_bits@[0], rand_bits@[1], ij, k),
            ),
{
    let (r0, r1) = (rand_bits[0], rand_bits[1]);
    let index: usize = (if pi_a {
        8usize
    } else {
        0
    }) + (if pi_b {
        4usize
    } else {
        0
    }) + (if r0 {
        2usize
    } else {
        0
    }) + (if r1 {
        1usize
    } else {
        0
    });
    let r: [[u8; 2]; 4] = SAMPLE_R_BAR_TABLE[index];
    assert forall|ij: int, k: int| 0 <= ij < 4 && 0 <= k < 2 implies #[trigger] r@[ij]@[k] == bit(
        r_bar(pi_a, pi_b, r0, r1, ij, k),
    ) by {
        assert(ij == 0 || ij == 1 || ij == 2 || ij == 3);
        assert(k == 0 || k == 1);
    }
    r
}

/// Expand compressed marginal view R̄_ij to full R_ij
///
/// Given coefficients [c₁, c₂], compute R_ij = c₁·S₁ ⊕ c₂·S₂
///
/// # Arguments
/// * `r_bar_ij` - The 2-element compressed representation [c₁, c₂]
///
/// # Returns
/// The 2×4 marginal view matrix
pub fn expand_marginal(r_bar_ij: &[u8; 2]) -> (r: [[u8; 4]; 2])
    requires
        r_bar_ij@[0] <= 1,
        r_bar_ij@[1] <= 1,
    ensures
        forall|half: int, c: int|
            0 <= half < 2 && 0 <= c < 4 ==> #[trigger] r@[half]@[c] == bit(
                (r_bar_ij@[0] == 1 && S1@[half]@[c] == 1) != (r_bar_ij@[1] == 1
                    && S2@[half]@[c] == 1),
            ),
{
    let index: usize = 2 * (r_bar_ij[0] as usize) + r_bar_ij[1] as usize;
    let r: [[u8; 4]; 2] = EXPANDED_MARGINALS[index];
    assert forall|half: int, c: int| 0 <= half < 2 && 0 <= c < 4 implies #[trigger] r@[half]@[c]
        == bit(
        (r_bar_ij@[0] == 1 && S1@[half]@[c] == 1) != (r_bar_ij@[1] == 1 && S2@[half]@[c] == 1),
    ) by {
        assert(half == 0 || half == 1);
        assert(c == 0 || c == 1 || c == 2 || c == 3);
    }
    r
}

/// Extract R_P's marginal view for input position (i,j)
///
/// In ODD mode, the evaluator knows parity is odd and must add R_P's
/// contribution to their marginal view. This function extracts the
/// 2×4 marginal from the constant R_P matrix.
///
/// # Arguments
/// * `i` - First input's color bit (0 or 1)
/// * `j` - Second input's color bit (0 or 1)
///
/// # Returns
/// The 2×4 marginal view from R_P for position (i,j)
pub fn extract_r_p_marginal(i: usize, j: usize) -> (r: [[u8; 4]; 2])
    requires
        i <= 1,
        j <= 1,
    ensures
        forall|half: int, c: int|
            0 <= half < 2 && 0 <= c < 4 ==> #[trigger] r@[half]@[c] == R_P@[4 * i + 2 * j
                + half]@[c],
{
    let index: usize = 2 * i + j;
    let r: [[u8; 4]; 2] = R_P_MARGINALS[index];
    assert forall|half: int, c: int| 0 <= half < 2 && 0 <= c < 4 implies #[trigger] r@[half]@[c]
        == R_P@[4 * i + 2 * j + half]@[c] by {
        assert(half == 0 || half == 1);
        assert(c == 0 || c == 1 || c == 2 || c == 3);
    }
    r
}

/// A column of a control matrix.
pub open spec fn r_column(r: [[u8; 6]; 8], j: int) -> Seq<u8> {
    Seq::new(8, |k: int| r@[k]@[j])
}

/// K · R$ = 0: the randomization keeps the space.
pub proof fn lemma_k_r_dollar_is_zero(i: int, j: int)
    requires
        0 <= i < 3,
        0 <= j < 6,
    ensures
        !dot(K@[i]@, r_column(R_DOLLAR_BASIS_0, j), 8),
        !dot(K@[i]@, r_column(R_DOLLAR_BASIS_1, j), 8),
{
    reveal_with_fuel(dot, 9);
    assert(i == 0 || i == 1 || i == 2);
    assert(j == 0 || j == 1 || j == 2 || j == 3 || j == 4 || j == 5);
}

/// K · R_p has the parity in its first two rows, in the columns of Δ.
pub proof fn lemma_k_r_p(i: int, j: int)
    requires
        0 <= i < 3,
        0 <= j < 6,
    ensures
        dot(K@[i]@, r_column(R_P, j), 8) == ((i == 0 && j == 4) || (i == 1 && j == 5)),
{
    reveal_with_fuel(dot, 9);
    assert(i == 0 || i == 1 || i == 2);
    assert(j == 0 || j == 1 || j == 2 || j == 3 || j == 4 || j == 5);
}

/// K · R_a has a single one, in its last row and the column of Δ_L.
pub proof fn lemma_k_r_a(i: int, j: int)
    requires
        0 <= i < 3,
        0 <= j < 6,
    ensures
        dot(K@[i]@, r_column(R_A, j), 8) == (i == 2 && j == 4),
{
    reveal_with_fuel(dot, 9);
    assert(i == 0 || i == 1 || i == 2);
    assert(j == 0 || j == 1 || j == 2 || j == 3 || j == 4 || j == 5);
}

/// K · R_b has a single one, in its last row and the column of Δ_R.
pub proof fn lemma_k_r_b(i: int, j: int)
    requires
        0 <= i < 3,
        0 <= j < 6,
    ensures
        dot(K@[i]@, r_column(R_B, j), 8) == (i == 2 && j == 5),
{
    reveal_with_fuel(dot, 9);
    assert(i == 0 || i == 1 || i == 2);
    assert(j == 0 || j == 1 || j == 2 || j == 3 || j == 4 || j == 5);
}

} // verus!
