use royalty_ledger::amount::TokenAmount;

#[test]
fn checked_add_is_exact() {
    let a = TokenAmount::from_u128(40);
    let b = TokenAmount::from_u128(2);
    assert_eq!(a.checked_add(b), Some(TokenAmount::from_u128(42)));
    assert_eq!(TokenAmount::zero().checked_add(a), Some(a));
}

#[test]
fn checked_add_carries_into_the_high_limb() {
    let a = TokenAmount::from_u128(u128::MAX);
    let one = TokenAmount::from_u128(1);
    let sum = a.checked_add(one).unwrap();
    assert_eq!(sum, TokenAmount { lo: 0, hi: 1 });
    let sum2 = sum.checked_add(a).unwrap();
    assert_eq!(sum2, TokenAmount { lo: u128::MAX, hi: 1 });
}

#[test]
fn checked_add_reports_overflow() {
    let top = TokenAmount { lo: u128::MAX, hi: u128::MAX };
    let one = TokenAmount::from_u128(1);
    assert_eq!(top.checked_add(one), None);
    assert_eq!(one.checked_add(top), None);
    let half = TokenAmount { lo: 0, hi: u128::MAX };
    assert_eq!(half.checked_add(half), None);
    // The largest value still fits when added to zero.
    assert_eq!(top.checked_add(TokenAmount::zero()), Some(top));
}

#[test]
fn lt_compares_mathematical_values() {
    let small = TokenAmount::from_u128(u128::MAX);
    let big = TokenAmount { lo: 0, hi: 1 };
    assert!(small.lt(&big));
    assert!(!big.lt(&small));
    assert!(!big.lt(&big));
    assert!(TokenAmount::zero().lt(&small));
    assert!(TokenAmount::from_u128(7).lt(&TokenAmount::from_u128(8)));
    assert!(!TokenAmount::from_u128(8).lt(&TokenAmount::from_u128(8)));
}
