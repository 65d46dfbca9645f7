//! The field of the Mersenne prime 2^61 - 1.

use mpz_garble::fields::m61::{M61Error, M61Field};
use mpz_garble::fields::m61_prime::M61;
use mpz_garble::rng::SeededRng;

type T = M61Field;

const BITS: usize = 61;

/// Draws an element.
fn random(rng: &mut SeededRng) -> T {
    T::random(rng)
}

/// The neutral elements, the inverses and the distributive law on drawn elements.
fn field_basic() {
    let mut rng = SeededRng::seed_from_u64(0);
    for _ in 0..32 {
        let a = random(&mut rng);
        let b = random(&mut rng);
        let c = random(&mut rng);
        assert_eq!(a + T::zero(), a);
        assert_eq!(a * T::one(), a);
        assert_eq!(a * T::zero(), T::zero());
        assert_eq!(a + (-a), T::zero());
        assert_eq!(a - b, a + (-b));
        assert_eq!(a * (b + c), a * b + a * c);
        if a != T::zero() {
            assert_eq!(a * a.inverse().unwrap(), T::one());
        }
    }
    assert_eq!(T::one().inverse().unwrap(), T::one());
    assert_eq!(T::two_pow(3), T::new(8));
    assert_eq!(T::default(), T::zero());
}

/// Repeated multiplication gives the powers.
fn field_compute_product_repeated() {
    let mut rng = SeededRng::seed_from_u64(1);
    let a = random(&mut rng);
    let factor = a * a;
    let mut powers = vec![a];
    for _ in 0..2 {
        let next = powers[powers.len() - 1] * factor;
        powers.push(next);
    }
    assert_eq!(powers[0], a);
    assert_eq!(powers[1], powers[0] * factor);
    assert_eq!(powers[2], powers[0] * factor * factor);
    assert_eq!(powers[2], a.pow(5));
}

/// The bits from the least significant one, and back.
fn field_bit_ops_lsb0() {
    let mut rng = SeededRng::seed_from_u64(2);
    for _ in 0..32 {
        let a = random(&mut rng);
        let bits: Vec<bool> = (0..BITS).map(|i| a.get_bit_lsb0(i)).collect();
        assert_eq!(T::from_lsb0_iter(&bits), a);
        let inner = a.inner();
        assert!((0..BITS).all(|i| bits[i] == (inner >> i & 1 == 1)));
    }
    assert_eq!(T::from_lsb0_iter(&[true, false, true]).inner(), 5);
    assert!(T::one().get_bit_lsb0(0));
    assert!(!T::one().get_bit_lsb0(1));
}

/// The bits from the most significant one, and back.
fn field_bit_ops_msb0() {
    let mut rng = SeededRng::seed_from_u64(3);
    for _ in 0..32 {
        let a = random(&mut rng);
        let bits: Vec<bool> = (0..BITS).map(|i| a.get_bit_msb0(i)).collect();
        assert_eq!(T::from_msb0_iter(&bits), a);
    }
    assert!(T::one().get_bit_msb0(BITS - 1));
    assert!(!T::one().get_bit_msb0(0));
}

#[test]
fn test_m61_basic() {
    field_basic();
    assert_eq!(M61Field::new(0), M61Field::zero());
    assert_eq!(M61Field::new(1), M61Field::one());
}

#[test]
fn test_m61_compute_product_repeated() {
    field_compute_product_repeated();
}

#[test]
fn test_m61_bit_ops() {
    field_bit_ops_lsb0();
    field_bit_ops_msb0();
}

#[test]
fn test_m61_serialize() {
    let mut rng = SeededRng::seed_from_u64(0);

    for _ in 0..32 {
        let a: M61Field = random(&mut rng);
        let bytes: [u8; 8] = a.to_bytes();
        let b = M61Field::try_from(bytes).unwrap();

        assert_eq!(a, b);
    }
}

#[test]
fn test_m61_constants() {
    assert_eq!(M61, (1u64 << 61) - 1);
    assert_eq!(M61, 2305843009213693951);
}

#[test]
fn test_m61_reduction() {
    // Test that M61 reduces to 0
    assert_eq!(M61Field::new(M61), M61Field::zero());

    // Test that M61 + 1 reduces to 1
    assert_eq!(M61Field::new(M61 + 1), M61Field::one());

    // Test large values
    let large = M61Field::new(u64::MAX);
    assert!(large.inner() < M61);
}

#[test]
fn test_m61_arithmetic() {
    let a = M61Field::new(12345);
    let b = M61Field::new(67890);

    // Addition
    assert_eq!((a + b).inner(), 12345 + 67890);

    // Subtraction
    assert_eq!((b - a).inner(), 67890 - 12345);

    // Subtraction with wrap
    let diff = a - b;
    assert_eq!((diff + b).inner(), a.inner());

    // Multiplication
    assert_eq!((a * b).inner(), (12345u128 * 67890) as u64 % M61);

    // Negation
    assert_eq!((a + (-a)).inner(), 0);
}

#[test]
fn test_m61_inverse() {
    let mut rng = SeededRng::seed_from_u64(0);

    for _ in 0..100 {
        let a: M61Field = random(&mut rng);
        if a.inner() != 0 {
            let inv = a.inverse().unwrap();
            assert_eq!((a * inv).inner(), 1);
        }
    }

    // Zero has no inverse
    assert!(M61Field::zero().inverse().is_none());
}

#[test]
fn test_m61_two_pow() {
    assert_eq!(M61Field::two_pow(0), M61Field::one());
    assert_eq!(M61Field::two_pow(1).inner(), 2);
    assert_eq!(M61Field::two_pow(10).inner(), 1024);

    // 2^61 = 1 mod M61 (since M61 = 2^61 - 1)
    assert_eq!(M61Field::two_pow(61), M61Field::one());

    // 2^62 = 2 mod M61
    assert_eq!(M61Field::two_pow(62), M61Field::new(2));
}

#[test]
fn test_m61_pow() {
    let base = M61Field::new(3);

    assert_eq!(base.pow(0), M61Field::one());
    assert_eq!(base.pow(1), base);
    assert_eq!(base.pow(2), M61Field::new(9));
    assert_eq!(base.pow(3), M61Field::new(27));

    // Fermat's little theorem: a^(p-1) = 1 mod p for a != 0
    let mut rng = SeededRng::seed_from_u64(0);
    let a: M61Field = random(&mut rng);
    if a.inner() != 0 {
        assert_eq!(a.pow(M61 - 1), M61Field::one());
    }
}

#[test]
fn test_m61_primitive_root() {
    // M61 is NOT NTT-friendly: M61 - 1 = 2 * (2^60 - 1) where 2^60 - 1 is odd
    // So only 2^0 and 2^1 roots of unity exist

    // 2^0 = 1 root of unity is 1
    let omega0 = M61Field::primitive_root_of_unity(0).unwrap();
    assert_eq!(omega0, M61Field::one());

    // 2^1 = 2 root of unity is -1
    let omega1 = M61Field::primitive_root_of_unity(1).unwrap();
    assert_eq!(omega1, -M61Field::one());
    assert_eq!(omega1.pow(2), M61Field::one()); // (-1)^2 = 1

    // No higher roots of unity exist
    assert!(M61Field::primitive_root_of_unity(2).is_none());
    assert!(M61Field::primitive_root_of_unity(10).is_none());
    assert!(M61Field::primitive_root_of_unity(60).is_none());

    // max_ntt_log_size is 1
    assert_eq!(M61Field::max_ntt_log_size(), 1);
}

#[test]
fn test_m61_distributivity() {
    let mut rng = SeededRng::seed_from_u64(0);

    for _ in 0..100 {
        let a: M61Field = random(&mut rng);
        let b: M61Field = random(&mut rng);
        let c: M61Field = random(&mut rng);

        // a * (b + c) = a * b + a * c
        assert_eq!(a * (b + c), a * b + a * c);
    }
}

#[test]
fn test_m61_associativity() {
    let mut rng = SeededRng::seed_from_u64(0);

    for _ in 0..100 {
        let a: M61Field = random(&mut rng);
        let b: M61Field = random(&mut rng);
        let c: M61Field = random(&mut rng);

        // (a + b) + c = a + (b + c)
        assert_eq!((a + b) + c, a + (b + c));

        // (a * b) * c = a * (b * c)
        assert_eq!((a * b) * c, a * (b * c));
    }
}

#[test]
fn test_m61_commutativity() {
    let mut rng = SeededRng::seed_from_u64(0);

    for _ in 0..100 {
        let a: M61Field = random(&mut rng);
        let b: M61Field = random(&mut rng);

        assert_eq!(a + b, b + a);
        assert_eq!(a * b, b * a);
    }
}

#[test]
fn test_m61_edge_cases() {
    let zero = M61Field::zero();
    let one = M61Field::one();
    let max = M61Field::new(M61 - 1);

    // Operations with zero
    assert_eq!(zero + zero, zero);
    assert_eq!(zero * one, zero);
    assert_eq!(max + zero, max);

    // Operations with one
    assert_eq!(one * one, one);
    assert_eq!(max * one, max);

    // Max value operations
    assert_eq!(max + one, zero);
    assert_eq!(max + max, M61Field::new(M61 - 2));
}

#[test]
fn m61_bytes_out_of_range() {
    let bytes = M61.to_le_bytes();
    assert_eq!(M61Field::try_from(bytes), Err(M61Error::OutOfRange(M61)));
    assert_eq!(M61Field::try_from((M61 - 1).to_le_bytes()), Ok(M61Field::new(M61 - 1)));
    assert_eq!(M61Field::new(0x0102).to_be_bytes(), vec![0, 0, 0, 0, 0, 0, 1, 2]);
    assert_eq!(M61Field::new(0x0102).to_le_bytes(), vec![2, 1, 0, 0, 0, 0, 0, 0]);
}

#[test]
fn m61_draws() {
    assert_eq!(M61Field::random_within(&mut SeededRng::seed_from_u64(1), 0), None);
    let word = SeededRng::seed_from_u64(9).next_u64();
    let mut rng = SeededRng::seed_from_u64(9);
    assert_eq!(M61Field::random_within(&mut rng, 1), M61Field::accept(word));
    let mut again = SeededRng::seed_from_u64(9);
    assert_eq!(Some(M61Field::random(&mut again)), M61Field::accept(word));
    assert_eq!(again, rng);
}
