use gnosis_era::u256::U256;

#[test]
fn zero_and_from_u64() {
    let z = U256::zero();
    assert_eq!(z, U256 { lo: 0, hi: 0 });
    let v = U256::from_u64(42);
    assert_eq!(v, U256 { lo: 42, hi: 0 });
}

#[test]
fn checked_add_exact() {
    let a = U256::from_u64(100);
    let b = U256::from_u64(23);
    assert_eq!(a.checked_add(b), Some(U256 { lo: 123, hi: 0 }));
}

#[test]
fn checked_add_carries_into_high_limb() {
    let a = U256 { lo: u128::MAX, hi: 0 };
    let b = U256 { lo: 1, hi: 0 };
    assert_eq!(a.checked_add(b), Some(U256 { lo: 0, hi: 1 }));

    let c = U256 { lo: u128::MAX, hi: 7 };
    let d = U256 { lo: 2, hi: 1 };
    assert_eq!(c.checked_add(d), Some(U256 { lo: 1, hi: 9 }));
}

#[test]
fn checked_add_refuses_overflow() {
    let top = U256 { lo: u128::MAX, hi: u128::MAX };
    assert_eq!(top.checked_add(U256::from_u64(1)), None);
    let half = U256 { lo: 0, hi: 1 << 127 };
    assert_eq!(half.checked_add(half), None);
    // one below the limit still fits
    let almost = U256 { lo: u128::MAX - 1, hi: u128::MAX };
    assert_eq!(
        almost.checked_add(U256::from_u64(1)),
        Some(U256 { lo: u128::MAX, hi: u128::MAX })
    );
}
