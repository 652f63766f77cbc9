use evm_memory::goldilocks_field::{
    exp_acc, mul_wasm32, reduce160, split, GoldilocksField as F, EPSILON, ORDER,
};

#[test]
fn test_mul_wasm32_0() {
    let a: u64 = 9223372034707292160;
    let b: u64 = 42;
    let a = F::from_canonical_u64(a);
    let b = F::from_canonical_u64(b);
    let c = mul_wasm32(a, b);
    assert_eq!(c.to_canonical_u64(), (a * b).to_canonical_u64());
    assert_eq!(c.to_canonical_u64(), 18446744069414584300 as u64);

    let a: u64 = 9223372034707292160;
    let b: u64 = 9223372034707292161;
    let a = F::from_canonical_u64(a);
    let b = F::from_canonical_u64(b);
    let c = mul_wasm32(a, b);
    assert_eq!(c.to_canonical_u64(), (a * b).to_canonical_u64());
    assert_eq!(c.to_canonical_u64(), 4611686017353646080 as u64);

    let a: u64 = 10455546295413958833;
    let b: u64 = 4511168707820812235;
    let a = F::from_canonical_u64(a);
    let b = F::from_canonical_u64(b);
    let c = mul_wasm32(a, b);
    assert_eq!(c.to_canonical_u64(), (a * b).to_canonical_u64());
    assert_eq!(c.to_canonical_u64(), 8353554915440457809 as u64);
}

#[test]
fn test_mul_wasm32_loop() {
    for _ in 0..10_000 {
        let a = F::rand();
        let b = F::rand();
        let c = mul_wasm32(a, b);
        assert_eq!(
            c.to_canonical_u64(),
            (a * b).to_canonical_u64(),
            "a={}, b={}",
            a.to_canonical_u64(),
            b.to_canonical_u64()
        );
    }
}

#[test]
fn mul_wasm32_takes_any_representative() {
    let a = F::from_noncanonical_u64(u64::MAX);
    let b = F::from_noncanonical_u64(ORDER + 5);
    // u64::MAX is EPSILON - 1 in the field.
    assert_eq!(mul_wasm32(a, b).to_canonical_u64(), (EPSILON - 1) * 5);
    assert_eq!((a * b).to_canonical_u64(), (EPSILON - 1) * 5);
}

#[test]
fn rand_is_canonical() {
    for _ in 0..1000 {
        assert!(F::rand().to_noncanonical_u64() < ORDER);
    }
}

#[test]
fn addition_wraps_at_the_order() {
    let a = F::from_canonical_u64(ORDER - 1);
    let b = F::from_canonical_u64(2);
    assert_eq!((a + b).to_canonical_u64(), 1);
    let c = F::from_noncanonical_u64(u64::MAX);
    assert_eq!((c + c).to_canonical_u64(), 2 * (EPSILON - 1));
    assert_eq!((F::zero() + F::zero()).to_canonical_u64(), 0);
}

#[test]
fn subtraction_wraps_below_zero() {
    let a = F::from_canonical_u64(3);
    let b = F::from_canonical_u64(5);
    assert_eq!((a - b).to_canonical_u64(), ORDER - 2);
    assert_eq!((b - a).to_canonical_u64(), 2);
    let c = F::from_noncanonical_u64(u64::MAX);
    assert_eq!((F::zero() - c).to_canonical_u64(), ORDER - (EPSILON - 1));
}

#[test]
fn negation() {
    assert_eq!((-F::zero()).to_canonical_u64(), 0);
    assert_eq!((-F::one()).to_canonical_u64(), ORDER - 1);
    assert_eq!((-F::from_noncanonical_u64(ORDER)).to_canonical_u64(), 0);
    assert_eq!(F::neg_one().to_canonical_u64(), ORDER - 1);
}

#[test]
fn multiplication() {
    let a = F::from_canonical_u64(1 << 32);
    // 2^64 = EPSILON in the field.
    assert_eq!((a * a).to_canonical_u64(), EPSILON);
    // 2^96 = -1 in the field.
    assert_eq!((a * a * a).to_canonical_u64(), ORDER - 1);
    assert_eq!((F::neg_one() * F::neg_one()).to_canonical_u64(), 1);
    assert_eq!(F::two().square().to_canonical_u64(), 4);
}

#[test]
fn equality_is_by_residue() {
    assert!(F::from_noncanonical_u64(ORDER + 7) == F::from_canonical_u64(7));
    assert!(F::from_noncanonical_u64(ORDER) == F::zero());
    assert!(F::from_canonical_u64(7) != F::from_canonical_u64(8));
    assert!(F::default() == F::zero());
    assert!(F::from_noncanonical_u64(ORDER).is_zero());
    assert_eq!(F::from_noncanonical_u64(ORDER + 7).to_canonical().to_noncanonical_u64(), 7);
}

#[test]
fn conversions() {
    assert_eq!(F::from_noncanonical_i64(-1).to_canonical_u64(), ORDER - 1);
    assert_eq!(F::from_noncanonical_i64(i64::MIN).to_canonical_u64(), ORDER - (1u64 << 63));
    assert_eq!(F::from_noncanonical_i64(12).to_canonical_u64(), 12);
    assert_eq!(F::from_canonical_u32(u32::MAX).to_canonical_u64(), EPSILON);
    assert_eq!(F::from_canonical_usize(9).to_canonical_u64(), 9);
    assert_eq!(F::from_bool(true).to_canonical_u64(), 1);
    assert_eq!(F::from_bool(false).to_canonical_u64(), 0);
    // 2^64 + 3 = EPSILON + 3 in the field.
    assert_eq!(F::from_noncanonical_u96((3, 1)).to_canonical_u64(), EPSILON + 3);
    assert_eq!(F::from_noncanonical_u128((1u128 << 96) + 1).to_canonical_u64(), 0);
    assert_eq!(F::from_noncanonical_u128(u128::MAX).to_canonical_u64(), {
        // 2^128 = 2^32 * 2^96 = -2^32, so 2^128 - 1 = -2^32 - 1.
        ORDER - (1u64 << 32) - 1
    });
    assert_eq!(reduce160(5, 1).to_canonical_u64(), ORDER - (1u64 << 32) + 5);
    assert_eq!(split((7u128 << 64) + 9), (9, 7));
}

#[test]
fn canonical_additions() {
    let a = F::from_noncanonical_u64(u64::MAX);
    assert_eq!(a.add_canonical_u64(ORDER - 1).to_canonical_u64(), EPSILON - 2);
    assert_eq!(F::from_canonical_u64(1).sub_canonical_u64(2).to_canonical_u64(), ORDER - 1);
    let x = F::from_canonical_u64(10);
    assert_eq!(
        x.multiply_accumulate(F::from_canonical_u64(3), F::from_canonical_u64(4)).to_canonical_u64(),
        22
    );
}

#[test]
fn powers_and_inverses() {
    let three = F::from_canonical_u64(3);
    assert_eq!(three.exp_power_of_2(0).to_canonical_u64(), 3);
    assert_eq!(three.exp_power_of_2(3).to_canonical_u64(), 6561);
    assert_eq!(exp_acc::<2>(three, three).to_canonical_u64(), 243);
    assert!(F::zero().try_inverse().is_none());
    assert!(F::from_noncanonical_u64(ORDER).try_inverse().is_none());
    for v in [1u64, 2, 3, 7, 1 << 32, ORDER - 1, 14293326489335486720] {
        let a = F::from_canonical_u64(v);
        let inv = a.try_inverse().unwrap();
        assert_eq!((a * inv).to_canonical_u64(), 1);
        assert_eq!((a / a).to_canonical_u64(), 1);
        assert_eq!(a.inverse().to_canonical_u64(), inv.to_canonical_u64());
    }
    assert_eq!((F::from_canonical_u64(6) / F::two()).to_canonical_u64(), 3);
    // The power-of-two generator has order 2^32.
    let g = F::power_of_two_generator();
    assert_eq!(g.exp_power_of_2(32).to_canonical_u64(), 1);
    assert_ne!(g.exp_power_of_2(31).to_canonical_u64(), 1);
    assert_eq!(
        F::multiplicative_group_generator().to_canonical_u64(),
        14293326489335486720
    );
}

#[test]
fn assigning_operators() {
    let mut a = F::from_canonical_u64(5);
    a += F::from_canonical_u64(6);
    assert_eq!(a.to_canonical_u64(), 11);
    a -= F::from_canonical_u64(12);
    assert_eq!(a.to_canonical_u64(), ORDER - 1);
    a *= a;
    assert_eq!(a.to_canonical_u64(), 1);
    a /= F::two();
    assert_eq!((a + a).to_canonical_u64(), 1);
}

#[test]
fn sums_and_products() {
    let v = [F::from_canonical_u64(ORDER - 1), F::two(), F::from_canonical_u64(5)];
    assert_eq!(F::sum(&v).to_canonical_u64(), 6);
    assert_eq!(F::product(&v).to_canonical_u64(), ORDER - 10);
    assert_eq!(F::sum(&[]).to_canonical_u64(), 0);
    assert_eq!(F::product(&[]).to_canonical_u64(), 1);
}
