use bundler_core::uint::U256;

fn from_limbs(limbs: [u64; 4]) -> U256 {
    U256 { limbs }
}

fn ethers_of(x: U256) -> ethers::types::U256 {
    ethers::types::U256(x.limbs)
}

#[test]
fn test_u256_constants_and_conversions() {
    assert_eq!(U256::zero().limbs, [0, 0, 0, 0]);
    assert_eq!(U256::from_u64(5).limbs, [5, 0, 0, 0]);
    assert_eq!(U256::max_value().limbs, [u64::MAX; 4]);
    assert_eq!(ethers_of(U256::max_value()), ethers::types::U256::MAX);
    assert!(U256::zero().is_zero());
    assert!(!from_limbs([0, 0, 1, 0]).is_zero());
    assert_eq!(U256::from_u64(u64::MAX).to_u64(), Some(u64::MAX));
    assert_eq!(from_limbs([0, 1, 0, 0]).to_u64(), None);
    assert_eq!(U256::default(), U256::zero());
}

#[test]
fn test_u256_order_goes_by_the_highest_limb() {
    let low = from_limbs([u64::MAX, u64::MAX, u64::MAX, 0]);
    let high = from_limbs([0, 0, 0, 1]);
    assert!(low.lt(&high));
    assert!(!high.lt(&low));
    assert!(!high.lt(&high));
    assert!(from_limbs([1, 2, 0, 0]).lt(&from_limbs([0, 3, 0, 0])));
    assert!(from_limbs([1, 3, 0, 0]).lt(&from_limbs([2, 3, 0, 0])));
    assert!(ethers_of(low) < ethers_of(high));
}

#[test]
fn test_u256_checked_arithmetic() {
    let a = U256::from_u64(u64::MAX);
    let b = U256::from_u64(2);
    // (2^64 - 1) + 2 = 2^64 + 1
    assert_eq!(a.checked_add(&b), Some(from_limbs([1, 1, 0, 0])));
    // (2^64 - 1) * 2 = 2^65 - 2
    assert_eq!(a.checked_mul(&b), Some(from_limbs([u64::MAX - 1, 1, 0, 0])));
    assert_eq!(a.checked_sub(&b), Some(U256::from_u64(u64::MAX - 2)));
    assert_eq!(b.checked_sub(&a), None);
    assert_eq!(a.checked_sub(&a), Some(U256::zero()));
    assert_eq!(a.checked_div(&b), Some(U256::from_u64(u64::MAX / 2)));
    assert_eq!(a.checked_rem(&b), Some(U256::from_u64(1)));
    assert_eq!(a.checked_div(&U256::zero()), None);
    assert_eq!(a.checked_rem(&U256::zero()), None);
    assert_eq!(U256::max_value().checked_add(&U256::from_u64(1)), None);
    assert_eq!(U256::max_value().checked_add(&U256::zero()), Some(U256::max_value()));
    assert_eq!(U256::max_value().checked_mul(&b), None);
    let half = from_limbs([0, 0, 0, 1 << 63]);
    assert_eq!(half.checked_mul(&b), None);
    assert_eq!(half.checked_add(&half), None);
    assert_eq!(
        half.checked_sub(&U256::from_u64(1)),
        Some(from_limbs([u64::MAX, u64::MAX, u64::MAX, (1 << 63) - 1]))
    );
}

#[test]
fn test_u256_increase_by_percent() {
    assert_eq!(U256::from_u64(50).increase_by_percent(10), Some(U256::from_u64(55)));
    assert_eq!(U256::from_u64(7).increase_by_percent(15), Some(U256::from_u64(8)));
    assert_eq!(U256::from_u64(199).increase_by_percent(0), Some(U256::from_u64(199)));
    assert_eq!(U256::from_u64(1).increase_by_percent(99), Some(U256::from_u64(1)));
    assert_eq!(U256::from_u64(1).increase_by_percent(100), Some(U256::from_u64(2)));
    assert_eq!(U256::zero().increase_by_percent(u64::MAX), Some(U256::zero()));
    // 2^64 - 1 raised by 100 percent is 2^65 - 2.
    assert_eq!(
        U256::from_u64(u64::MAX).increase_by_percent(100),
        Some(from_limbs([u64::MAX - 1, 1, 0, 0]))
    );
    // The product need not fit where the result does: (2^256 - 1) * 100 / 100.
    assert_eq!(U256::max_value().increase_by_percent(0), Some(U256::max_value()));
    assert_eq!(U256::max_value().increase_by_percent(1), None);
    assert_eq!(U256::max_value().saturating_increase_by_percent(1), U256::max_value());
    assert_eq!(U256::from_u64(50).saturating_increase_by_percent(10), U256::from_u64(55));
    // Against the same formula in the outside arithmetic.
    let n = from_limbs([0x1234_5678_9abc_def0, 0x0fed_cba9_8765_4321, 77, 0]);
    let expected = ethers_of(n) * ethers::types::U256::from(100u64 + 37) / ethers::types::U256::from(100u64);
    assert_eq!(n.increase_by_percent(37).map(ethers_of), Some(expected));
}

#[test]
fn test_u256_saturating_increment() {
    assert_eq!(U256::from_u64(u64::MAX).saturating_increment(), from_limbs([0, 1, 0, 0]));
    assert_eq!(U256::max_value().saturating_increment(), U256::max_value());
    assert_eq!(U256::zero().saturating_increment(), U256::from_u64(1));
}
