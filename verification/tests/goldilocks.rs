//! The field of the Goldilocks prime, its transform and its polynomials.

use mpz_garble::fields::euclid::inverse_mod;
use mpz_garble::fields::goldilocks::{Goldilocks, GoldilocksError, TWO_POW_32};
use mpz_garble::fields::goldilocks_prime::GOLDILOCKS;
use mpz_garble::fields::lagrange::LagrangePrecompute;
use mpz_garble::fields::ntt::InttContext;
use mpz_garble::rng::SeededRng;

type T = Goldilocks;

const BITS: usize = 64;

/// Draws an element.
fn random(rng: &mut SeededRng) -> T {
    T::random(rng)
}

/// The neutral elements, the inverses and the distributive law on drawn elements.
fn field_basic() {
    let mut rng = SeededRng::seed_from_u64(0);
    for _ in 0..32 {
        let a = random(&mut rng);
        let b = random(&mut rng);
        let c = random(&mut rng);
        assert_eq!(a + T::zero(), a);
        assert_eq!(a * T::one(), a);
        assert_eq!(a * T::zero(), T::zero());
        assert_eq!(a + (-a), T::zero());
        assert_eq!(a - b, a + (-b));
        assert_eq!(a * (b + c), a * b + a * c);
        if a != T::zero() {
            assert_eq!(a * a.inverse().unwrap(), T::one());
        }
    }
    assert_eq!(T::one().inverse().unwrap(), T::one());
    assert_eq!(T::two_pow(3), T::new(8));
    assert_eq!(T::default(), T::zero());
}

/// Repeated multiplication gives the powers.
fn field_compute_product_repeated() {
    let mut rng = SeededRng::seed_from_u64(1);
    let a = random(&mut rng);
    let factor = a * a;
    let mut powers = vec![a];
    for _ in 0..2 {
        let next = powers[powers.len() - 1] * factor;
        powers.push(next);
    }
    assert_eq!(powers[0], a);
    assert_eq!(powers[1], powers[0] * factor);
    assert_eq!(powers[2], powers[0] * factor * factor);
    assert_eq!(powers[2], a.pow(5));
}

/// The bits from the least significant one, and back.
fn field_bit_ops_lsb0() {
    let mut rng = SeededRng::seed_from_u64(2);
    for _ in 0..32 {
        let a = random(&mut rng);
        let bits: Vec<bool> = (0..BITS).map(|i| a.get_bit_lsb0(i)).collect();
        assert_eq!(T::from_lsb0_iter(&bits), a);
        let inner = a.inner();
        assert!((0..BITS).all(|i| bits[i] == (inner >> i & 1 == 1)));
    }
    assert_eq!(T::from_lsb0_iter(&[true, false, true]).inner(), 5);
    assert!(T::one().get_bit_lsb0(0));
    assert!(!T::one().get_bit_lsb0(1));
}

/// The bits from the most significant one, and back.
fn field_bit_ops_msb0() {
    let mut rng = SeededRng::seed_from_u64(3);
    for _ in 0..32 {
        let a = random(&mut rng);
        let bits: Vec<bool> = (0..BITS).map(|i| a.get_bit_msb0(i)).collect();
        assert_eq!(T::from_msb0_iter(&bits), a);
    }
    assert!(T::one().get_bit_msb0(BITS - 1));
    assert!(!T::one().get_bit_msb0(0));
}

#[test]
fn test_goldilocks_basic() {
    field_basic();
    assert_eq!(Goldilocks::new(0), Goldilocks::zero());
    assert_eq!(Goldilocks::new(1), Goldilocks::one());
}

#[test]
fn test_goldilocks_compute_product_repeated() {
    field_compute_product_repeated();
}

#[test]
fn test_goldilocks_bit_ops() {
    field_bit_ops_lsb0();
    field_bit_ops_msb0();
}

#[test]
fn test_goldilocks_serialize() {
    let mut rng = SeededRng::seed_from_u64(0);

    for _ in 0..32 {
        let a: Goldilocks = random(&mut rng);
        let bytes: [u8; 8] = a.to_bytes();
        let b = Goldilocks::try_from(bytes).unwrap();

        assert_eq!(a, b);
    }
}

#[test]
fn test_goldilocks_constants() {
    // 2^64 - 2^32 + 1 = (2^64 - 1) - (2^32 - 1) + 1 - 1 + 1 = 2^64 - 2^32 + 1
    // We verify by checking: p + 2^32 - 1 = 2^64 (which wraps to 0 in u64)
    assert_eq!(GOLDILOCKS.wrapping_add(TWO_POW_32 - 1), 0);
    assert_eq!(GOLDILOCKS, 0xFFFFFFFF00000001);
    assert_eq!(GOLDILOCKS, 18446744069414584321);
}

#[test]
fn test_goldilocks_reduction() {
    // Test that GOLDILOCKS reduces to 0
    assert_eq!(Goldilocks::new(GOLDILOCKS), Goldilocks::zero());

    // Test values near the boundary
    assert_eq!(Goldilocks::new(GOLDILOCKS - 1).inner(), GOLDILOCKS - 1);
    assert_eq!(Goldilocks::new(GOLDILOCKS + 1).inner(), 1);
}

#[test]
fn test_goldilocks_arithmetic() {
    let a = Goldilocks::new(12345);
    let b = Goldilocks::new(67890);

    // Addition
    assert_eq!((a + b).inner(), 12345 + 67890);

    // Subtraction
    assert_eq!((b - a).inner(), 67890 - 12345);

    // Subtraction with wrap
    let diff = a - b;
    assert_eq!((diff + b).inner(), a.inner());

    // Multiplication
    let prod = a * b;
    assert_eq!(prod.inner(), (12345u128 * 67890u128 % GOLDILOCKS as u128) as u64);

    // Negation
    assert_eq!((a + (-a)).inner(), 0);
}

#[test]
fn test_goldilocks_inverse() {
    let mut rng = SeededRng::seed_from_u64(0);

    for _ in 0..100 {
        let a: Goldilocks = random(&mut rng);
        if a.inner() != 0 {
            let inv = a.inverse().unwrap();
            assert_eq!((a * inv).inner(), 1);
        }
    }

    // Zero has no inverse
    assert!(Goldilocks::zero().inverse().is_none());
}

#[test]
fn test_goldilocks_two_pow() {
    assert_eq!(Goldilocks::two_pow(0), Goldilocks::one());
    assert_eq!(Goldilocks::two_pow(1).inner(), 2);
    assert_eq!(Goldilocks::two_pow(32).inner(), TWO_POW_32);

    // 2^64 = 2^32 - 1 mod p
    assert_eq!(Goldilocks::two_pow(64), Goldilocks::new(TWO_POW_32 - 1));
}

#[test]
fn test_goldilocks_pow() {
    let base = Goldilocks::new(3);

    assert_eq!(base.pow(0), Goldilocks::one());
    assert_eq!(base.pow(1), base);
    assert_eq!(base.pow(2), Goldilocks::new(9));
    assert_eq!(base.pow(3), Goldilocks::new(27));

    // Fermat's little theorem: a^(p-1) = 1 mod p for a != 0
    let mut rng = SeededRng::seed_from_u64(0);
    let a: Goldilocks = random(&mut rng);
    if a.inner() != 0 {
        assert_eq!(a.pow(GOLDILOCKS - 1), Goldilocks::one());
    }
}

#[test]
fn test_goldilocks_primitive_root() {
    // Test that we can get roots of unity for various powers of 2
    for k in 0..=10 {
        let omega = Goldilocks::primitive_root_of_unity(k).unwrap();
        let order = 1u64 << k;

        // omega^order should be 1
        assert_eq!(
            omega.pow(order),
            Goldilocks::one(),
            "omega^{} should be 1 for k={}",
            order,
            k
        );

        // omega^(order/2) should be -1 for k > 0
        if k > 0 {
            assert_eq!(
                omega.pow(order / 2),
                -Goldilocks::one(),
                "omega^{} should be -1 for k={}",
                order / 2,
                k
            );
        }
    }

    // Cannot get 2^33 root of unity (only up to 2^32)
    assert!(Goldilocks::primitive_root_of_unity(33).is_none());

    // max_ntt_log_size is 32
    assert_eq!(Goldilocks::max_ntt_log_size(), 32);
}

#[test]
fn test_goldilocks_primitive_root_order_32() {
    // Verify that the 2^32-th root of unity has exact order 2^32
    let omega = Goldilocks::primitive_root_of_unity(32).unwrap();

    // omega^(2^32) should be 1
    let order = 1u64 << 32;
    assert_eq!(omega.pow(order), Goldilocks::one());

    // omega^(2^31) should be -1 (not 1)
    assert_eq!(omega.pow(order / 2), -Goldilocks::one());
}

#[test]
fn test_goldilocks_distributivity() {
    let mut rng = SeededRng::seed_from_u64(0);

    for _ in 0..100 {
        let a: Goldilocks = random(&mut rng);
        let b: Goldilocks = random(&mut rng);
        let c: Goldilocks = random(&mut rng);

        // a * (b + c) = a * b + a * c
        assert_eq!(a * (b + c), a * b + a * c);
    }
}

#[test]
fn test_goldilocks_associativity() {
    let mut rng = SeededRng::seed_from_u64(0);

    for _ in 0..100 {
        let a: Goldilocks = random(&mut rng);
        let b: Goldilocks = random(&mut rng);
        let c: Goldilocks = random(&mut rng);

        // (a + b) + c = a + (b + c)
        assert_eq!((a + b) + c, a + (b + c));

        // (a * b) * c = a * (b * c)
        assert_eq!((a * b) * c, a * (b * c));
    }
}

#[test]
fn test_goldilocks_edge_cases() {
    let zero = Goldilocks::zero();
    let one = Goldilocks::one();
    let max = Goldilocks::new(GOLDILOCKS - 1);

    // Operations with zero
    assert_eq!(zero + zero, zero);
    assert_eq!(zero * one, zero);
    assert_eq!(max + zero, max);

    // Operations with one
    assert_eq!(one * one, one);
    assert_eq!(max * one, max);

    // Max value operations
    assert_eq!(max + one, zero);
    assert_eq!(max + max, Goldilocks::new(GOLDILOCKS - 2));
}

#[test]
fn test_goldilocks_large_multiplication() {
    // Test multiplication of large values
    let a = Goldilocks::new(GOLDILOCKS - 2);
    let b = Goldilocks::new(GOLDILOCKS - 3);

    // (p-2) * (p-3) = p^2 - 5p + 6 ≡ 6 (mod p)
    // Actually: (p-2)(p-3) mod p = (-2)(-3) mod p = 6
    assert_eq!((a * b).inner(), 6);
}

// ========================================================================
// NTT Tests
// ========================================================================

#[test]
fn test_ntt_inverse_identity() {
    // NTT followed by INTT should give back the original
    let original: Vec<Goldilocks> = vec![
        Goldilocks::new(1),
        Goldilocks::new(2),
        Goldilocks::new(3),
        Goldilocks::new(4),
    ];

    let mut a = original.clone();
    Goldilocks::ntt(&mut a);
    Goldilocks::intt(&mut a);

    assert_eq!(a, original);
}

#[test]
fn test_ntt_larger() {
    let mut rng = SeededRng::seed_from_u64(0);

    for log_n in 1..=10 {
        let n = 1 << log_n;
        let original: Vec<Goldilocks> = (0..n).map(|_| random(&mut rng)).collect();

        let mut a = original.clone();
        Goldilocks::ntt(&mut a);
        Goldilocks::intt(&mut a);

        assert_eq!(a, original, "Failed for n = {}", n);
    }
}

#[test]
fn test_ntt_polynomial_eval() {
    // f(x) = 1 + 2x + 3x^2 + 4x^3
    let coeffs = vec![
        Goldilocks::new(1),
        Goldilocks::new(2),
        Goldilocks::new(3),
        Goldilocks::new(4),
    ];

    let mut evals = coeffs.clone();
    Goldilocks::ntt(&mut evals);

    // Verify by direct evaluation at roots of unity
    let omega = Goldilocks::primitive_root_of_unity(2).unwrap(); // 4th root of unity

    for (i, &eval) in evals.iter().enumerate() {
        let x = omega.pow(i as u64);
        let expected = coeffs[0]
            + coeffs[1] * x
            + coeffs[2] * x * x
            + coeffs[3] * x * x * x;
        assert_eq!(eval, expected, "Mismatch at index {}", i);
    }
}

#[test]
fn test_poly_mul_ntt() {
    // (1 + 2x) * (3 + 4x) = 3 + 10x + 8x^2
    let a = vec![Goldilocks::new(1), Goldilocks::new(2)];
    let b = vec![Goldilocks::new(3), Goldilocks::new(4)];

    let result = Goldilocks::poly_mul_ntt(&a, &b);

    assert_eq!(result.len(), 3);
    assert_eq!(result[0].inner(), 3);  // 1*3
    assert_eq!(result[1].inner(), 10); // 1*4 + 2*3
    assert_eq!(result[2].inner(), 8);  // 2*4
}

#[test]
fn test_poly_mul_ntt_larger() {
    let mut rng = SeededRng::seed_from_u64(0);

    // Test polynomial multiplication with random polynomials
    let a: Vec<Goldilocks> = (0..16).map(|_| random(&mut rng)).collect();
    let b: Vec<Goldilocks> = (0..16).map(|_| random(&mut rng)).collect();

    let result = Goldilocks::poly_mul_ntt(&a, &b);

    // Verify by naive multiplication
    let mut expected = vec![Goldilocks::zero(); a.len() + b.len() - 1];
    for (i, &ai) in a.iter().enumerate() {
        for (j, &bj) in b.iter().enumerate() {
            expected[i + j] = expected[i + j] + ai * bj;
        }
    }

    assert_eq!(result, expected);
}

#[test]
fn test_interpolate_simple() {
    // Interpolate a line through (1, 3) and (2, 5) -> y = 2x + 1
    let points = vec![Goldilocks::new(1), Goldilocks::new(2)];
    let values = vec![Goldilocks::new(3), Goldilocks::new(5)];

    let coeffs = Goldilocks::interpolate(&points, &values);

    assert_eq!(coeffs.len(), 2);
    assert_eq!(coeffs[0].inner(), 1); // constant term
    assert_eq!(coeffs[1].inner(), 2); // x coefficient
}

#[test]
fn test_interpolate_quadratic() {
    // Interpolate x^2 through (0, 0), (1, 1), (2, 4)
    let points = vec![
        Goldilocks::new(0),
        Goldilocks::new(1),
        Goldilocks::new(2),
    ];
    let values = vec![
        Goldilocks::new(0),
        Goldilocks::new(1),
        Goldilocks::new(4),
    ];

    let coeffs = Goldilocks::interpolate(&points, &values);

    assert_eq!(coeffs.len(), 3);
    assert_eq!(coeffs[0].inner(), 0); // constant term
    assert_eq!(coeffs[1].inner(), 0); // x coefficient
    assert_eq!(coeffs[2].inner(), 1); // x^2 coefficient
}

#[test]
fn test_interpolate_random() {
    let mut rng = SeededRng::seed_from_u64(0);

    for n in [4, 8, 16, 32] {
        // Generate random distinct points
        let points: Vec<Goldilocks> = (0..n).map(|i| Goldilocks::new(i as u64 + 1)).collect();
        let values: Vec<Goldilocks> = (0..n).map(|_| random(&mut rng)).collect();

        let coeffs = Goldilocks::interpolate(&points, &values);

        // Verify by evaluating at each point
        for (i, &x) in points.iter().enumerate() {
            let mut y = Goldilocks::zero();
            let mut x_pow = Goldilocks::one();
            for &c in &coeffs {
                y = y + c * x_pow;
                x_pow = x_pow * x;
            }
            assert_eq!(y, values[i], "Mismatch at point {} for n={}", i, n);
        }
    }
}

// ========================================================================
// LagrangePrecompute Tests
// ========================================================================

#[test]
fn test_lagrange_precompute_simple() {
    // Same test as test_interpolate_simple
    let points = vec![Goldilocks::new(1), Goldilocks::new(2)];
    let values = vec![Goldilocks::new(3), Goldilocks::new(5)];

    let precompute = LagrangePrecompute::new(&points);
    let coeffs = precompute.interpolate(&values);

    // f(x) = 1 + 2x should give f(1) = 3, f(2) = 5
    assert_eq!(coeffs.len(), 2);
    assert_eq!(coeffs[0].inner(), 1);
    assert_eq!(coeffs[1].inner(), 2);
}

#[test]
fn test_lagrange_precompute_matches_regular() {
    let mut rng = SeededRng::seed_from_u64(0);

    for n in [4, 8, 16, 32, 64, 100] {
        let points: Vec<Goldilocks> = (0..n).map(|i| Goldilocks::new(i as u64 + 1)).collect();
        let values: Vec<Goldilocks> = (0..n).map(|_| random(&mut rng)).collect();

        // Regular interpolation
        let coeffs_regular = Goldilocks::interpolate(&points, &values);

        // Precomputed interpolation
        let precompute = LagrangePrecompute::new(&points);
        let coeffs_precompute = precompute.interpolate(&values);

        assert_eq!(coeffs_regular, coeffs_precompute, "Mismatch for n={}", n);
    }
}

#[test]
fn test_lagrange_precompute_reuse() {
    let mut rng = SeededRng::seed_from_u64(0);

    // Fixed points
    let points: Vec<Goldilocks> = (0..50).map(|i| Goldilocks::new(i as u64 + 1)).collect();
    let precompute = LagrangePrecompute::new(&points);

    // Multiple interpolations with different values
    for _ in 0..10 {
        let values: Vec<Goldilocks> = (0..50).map(|_| random(&mut rng)).collect();

        let coeffs = precompute.interpolate(&values);

        // Verify by evaluating at each point
        for (i, &x) in points.iter().enumerate() {
            let mut y = Goldilocks::zero();
            let mut x_pow = Goldilocks::one();
            for &c in &coeffs {
                y = y + c * x_pow;
                x_pow = x_pow * x;
            }
            assert_eq!(y, values[i]);
        }
    }
}

#[test]
fn test_lagrange_precompute_u64() {
    let points: Vec<u64> = vec![1, 2, 3, 4, 5];
    let values: Vec<u64> = vec![10, 20, 30, 40, 50];

    let precompute = LagrangePrecompute::new_u64(&points);
    let coeffs = precompute.interpolate_u64(&values);

    // Verify
    let coeffs_regular = Goldilocks::interpolate_u64(&points, &values);
    assert_eq!(coeffs, coeffs_regular);
}

#[test]
fn goldilocks_bytes_out_of_range() {
    let bytes = GOLDILOCKS.to_le_bytes();
    assert_eq!(Goldilocks::try_from(bytes), Err(GoldilocksError::OutOfRange(GOLDILOCKS)));
    let largest = (GOLDILOCKS - 1).to_le_bytes();
    assert_eq!(Goldilocks::try_from(largest), Ok(Goldilocks::new(GOLDILOCKS - 1)));
    assert_eq!(Goldilocks::new(0x0102).to_le_bytes(), vec![2, 1, 0, 0, 0, 0, 0, 0]);
    assert_eq!(Goldilocks::new(0x0102).to_be_bytes(), vec![0, 0, 0, 0, 0, 0, 1, 2]);
}

#[test]
fn goldilocks_draws() {
    assert_eq!(Goldilocks::accept(GOLDILOCKS), None);
    assert_eq!(Goldilocks::accept(GOLDILOCKS - 1), Some(Goldilocks::new(GOLDILOCKS - 1)));
    let mut rng = SeededRng::seed_from_u64(9);
    assert_eq!(Goldilocks::random_within(&mut rng, 0), None);
    assert_eq!(rng.position, 0);
    let word = SeededRng::seed_from_u64(9).next_u64();
    assert_eq!(Goldilocks::random_within(&mut rng, 1), Goldilocks::accept(word));
    let mut again = SeededRng::seed_from_u64(9);
    assert_eq!(Some(Goldilocks::random(&mut again)), Goldilocks::accept(word));
    assert_eq!(again, rng);
}

#[test]
fn goldilocks_generator_powers() {
    let generator = Goldilocks::generator();
    assert_eq!(generator.inner(), 7);
    let root = generator.pow((GOLDILOCKS - 1) >> 32);
    assert_eq!(root.pow(1 << 31), -Goldilocks::one());
}

#[test]
fn intt_context_is_intt() {
    let mut rng = SeededRng::seed_from_u64(4);
    for log_n in [0usize, 1, 2, 5, 8] {
        let n = 1usize << log_n;
        let evals: Vec<Goldilocks> = (0..n).map(|_| random(&mut rng)).collect();
        let mut direct = evals.clone();
        Goldilocks::intt(&mut direct);
        let context = InttContext::new(n);
        assert_eq!(context.size(), n);
        let mut one = evals.clone();
        context.intt(&mut one);
        assert_eq!(one, direct);
        let mut fused = evals.clone();
        context.intt_fused(&mut fused);
        assert_eq!(fused, direct);
    }
}

#[test]
fn evaluation_and_interpolation_undo_each_other() {
    let coeffs: Vec<Goldilocks> = (1..=6).map(Goldilocks::new).collect();
    let evals = Goldilocks::poly_eval_ntt(&coeffs);
    assert_eq!(evals.len(), 8);
    assert_eq!(evals[0].inner(), 21);
    let back = Goldilocks::poly_interpolate_ntt(&evals);
    assert_eq!(&back[..6], &coeffs[..]);
    assert_eq!(back[6], Goldilocks::zero());
    assert_eq!(back[7], Goldilocks::zero());
}

#[test]
fn products_of_numbers() {
    assert_eq!(Goldilocks::poly_mul_u64(&[1, 2], &[3, 4]), vec![3, 10, 8]);
    assert_eq!(Goldilocks::poly_eval_u64(&[5, 1], 2), 7);
    assert_eq!(Goldilocks::interpolate_u64(&[1, 2], &[3, 5]), vec![1, 2]);
}

#[test]
fn inverse_by_euclid() {
    assert_eq!(inverse_mod(3, 7), 5);
    assert_eq!(inverse_mod(1, GOLDILOCKS), 1);
    let half = inverse_mod(2, GOLDILOCKS);
    assert_eq!(half, (GOLDILOCKS + 1) / 2);
}

#[test]
fn interpolated_numbers_are_met() {
    let points = [3u64, 9, GOLDILOCKS - 2, 100];
    let values = [u64::MAX, 5, 0, GOLDILOCKS];
    let coeffs = Goldilocks::interpolate_u64(&points, &values);
    for (point, value) in points.iter().zip(values) {
        assert_eq!(Goldilocks::poly_eval_u64(&coeffs, *point), value % GOLDILOCKS);
    }
}

#[test]
fn precomputed_points_can_be_used_again() {
    let points: Vec<Goldilocks> = (1..=5).map(Goldilocks::new).collect();
    let pre = LagrangePrecompute::new(&points);
    for shift in 0..4 {
        let values: Vec<Goldilocks> = (0..5).map(|i| Goldilocks::new(i * i + shift)).collect();
        assert_eq!(pre.interpolate(&values), Goldilocks::interpolate(&points, &values));
    }
}
