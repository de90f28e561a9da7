use pool_filters::primitives::{u256_10_pow_18, u256_10_pow_6, TEN_POW_18, TEN_POW_6, U256};

fn small(n: u64) -> U256 {
    U256 { w0: n, w1: 0, w2: 0, w3: 0 }
}

#[test]
fn comparison_goes_by_the_most_significant_word() {
    let high = U256 { w0: 0, w1: 1, w2: 0, w3: 0 };
    let low = small(u64::MAX);
    assert!(high.ge(low));
    assert!(!low.ge(high));
    let top = U256 { w0: 0, w1: 0, w2: 0, w3: 1 };
    let below = U256 { w0: u64::MAX, w1: u64::MAX, w2: u64::MAX, w3: 0 };
    assert!(top.ge(below));
    assert!(!below.ge(top));
}

#[test]
fn comparison_is_inclusive() {
    let a = U256 { w0: 3, w1: 2, w2: 1, w3: 0 };
    assert!(a.ge(a));
    assert!(a.ge(U256 { w0: 2, w1: 2, w2: 1, w3: 0 }));
    assert!(!a.ge(U256 { w0: 4, w1: 2, w2: 1, w3: 0 }));
}

#[test]
fn widening_splits_the_words() {
    assert_eq!(U256::from_u128(5), small(5));
    assert_eq!(
        U256::from_u128((7u128 << 64) + 9),
        U256 { w0: 9, w1: 7, w2: 0, w3: 0 }
    );
    assert_eq!(
        U256::from_u128(u128::MAX),
        U256 { w0: u64::MAX, w1: u64::MAX, w2: 0, w3: 0 }
    );
}

#[test]
fn zero_is_told_from_every_other_number() {
    assert!(small(0).is_zero());
    assert!(!small(1).is_zero());
    assert!(!U256 { w0: 0, w1: 0, w2: 0, w3: 1 }.is_zero());
}

#[test]
fn division_rounds_down() {
    assert_eq!(small(17).checked_div(small(5)), Some(small(3)));
    assert_eq!(small(4).checked_div(small(5)), Some(small(0)));
    let two_pow_64 = U256 { w0: 0, w1: 1, w2: 0, w3: 0 };
    assert_eq!(two_pow_64.checked_div(small(2)), Some(small(1 << 63)));
    let two_pow_192 = U256 { w0: 0, w1: 0, w2: 0, w3: 1 };
    assert_eq!(
        two_pow_192.checked_div(two_pow_64),
        Some(U256 { w0: 0, w1: 0, w2: 1, w3: 0 })
    );
}

#[test]
fn division_by_zero_gives_nothing() {
    assert_eq!(small(17).checked_div(small(0)), None);
    assert_eq!(small(0).checked_div(small(0)), None);
}

#[test]
fn narrowing_gives_nothing_above_64_bits() {
    assert_eq!(small(0).to_u64(), Some(0));
    assert_eq!(small(u64::MAX).to_u64(), Some(u64::MAX));
    assert_eq!(U256 { w0: 0, w1: 1, w2: 0, w3: 0 }.to_u64(), None);
    assert_eq!(U256 { w0: 5, w1: 0, w2: 1, w3: 0 }.to_u64(), None);
    assert_eq!(U256 { w0: 5, w1: 0, w2: 0, w3: 1 }.to_u64(), None);
}

#[test]
fn ten_to_the_eighteenth() {
    assert_eq!(TEN_POW_18, 1_000_000_000_000_000_000);
    assert_eq!(u256_10_pow_18(), small(1_000_000_000_000_000_000));
}

#[test]
fn ten_to_the_sixth() {
    assert_eq!(TEN_POW_6, 1_000_000);
    assert_eq!(u256_10_pow_6(), small(1_000_000));
}

#[test]
fn remainder_is_what_division_leaves() {
    assert_eq!(small(17).checked_rem(small(5)), Some(small(2)));
    assert_eq!(small(4).checked_rem(small(5)), Some(small(4)));
    assert_eq!(small(15).checked_rem(small(5)), Some(small(0)));
    let two_pow_192_plus_3 = U256 { w0: 3, w1: 0, w2: 0, w3: 1 };
    let two_pow_64 = U256 { w0: 0, w1: 1, w2: 0, w3: 0 };
    assert_eq!(two_pow_192_plus_3.checked_rem(two_pow_64), Some(small(3)));
}

#[test]
fn remainder_by_zero_gives_nothing() {
    assert_eq!(small(17).checked_rem(small(0)), None);
}

#[test]
fn comparison_word_by_word() {
    let a = U256 { w0: 9, w1: 1, w2: 5, w3: 2 };
    assert!(a.ge(U256 { w0: 10, w1: 2, w2: 4, w3: 2 }));
    assert!(!a.ge(U256 { w0: 0, w1: 0, w2: 6, w3: 2 }));
    assert!(a.ge(U256 { w0: 10, w1: 0, w2: 5, w3: 2 }));
    assert!(!a.ge(U256 { w0: 0, w1: 2, w2: 5, w3: 2 }));
    assert!(!a.ge(U256 { w0: 10, w1: 1, w2: 5, w3: 2 }));
    assert!(a.ge(U256 { w0: u64::MAX, w1: u64::MAX, w2: u64::MAX, w3: 1 }));
}
