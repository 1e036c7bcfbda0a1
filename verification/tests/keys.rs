use squares::{check_admissibility, key, u64, Inadmissible, Key};

const GOOD: u64 = 0x16d7358fe8d9a17b;

#[test]
fn key_properties_100m() {
    let idx_key = Key::checked(0x16d7358fe8d9a17b).unwrap();

    for i in 0..100_000_000 {
        // produce a random index
        let index = u64(idx_key, i);

        // make a key with the index
        let k = key(index);
        if let Err(e) = check_admissibility(k.inner()) {
            panic!("Key at index {} is invalid: {:?}", index, e);
        }
    }
}

#[test]
fn checked_accepts_admissible_values() {
    for value in [GOOD, 0xec13a6976ecf14ad, 0x72f9c8a323a5e4f1, 0xaf9ed4c87b8e4fa5] {
        assert_eq!(check_admissibility(value), Ok(()));
        let k = Key::checked(value).unwrap();
        assert_eq!(k.inner(), value);
        assert_eq!(Key::unchecked(value).inner(), value);
    }
}

#[test]
fn checked_reports_zero_nibble() {
    assert_eq!(
        Key::checked(0x16d7358fe8d9017b).unwrap_err(),
        Inadmissible::ContainsZeroNibble { position: 3, nibble: 0 }
    );
    assert_eq!(
        Key::checked(0x06d7358fe8d9a17b).unwrap_err(),
        Inadmissible::ContainsZeroNibble { position: 15, nibble: 0 }
    );
    assert_eq!(
        Key::checked(0).unwrap_err(),
        Inadmissible::ContainsZeroNibble { position: 0, nibble: 0 }
    );
}

#[test]
fn checked_reports_duplicate_in_lower_eight() {
    assert_eq!(
        Key::checked(0x16d7358fe8d9ab7b).unwrap_err(),
        Inadmissible::DuplicateNibbleInLower8 { position: 2, nibble: 0xb }
    );
    assert_eq!(
        Key::checked(0x16d7358fb8d9a17b).unwrap_err(),
        Inadmissible::DuplicateNibbleInLower8 { position: 7, nibble: 0xb }
    );
    assert_eq!(
        Key::checked(u64::MAX).unwrap_err(),
        Inadmissible::DuplicateNibbleInLower8 { position: 1, nibble: 0xf }
    );
}

#[test]
fn checked_reports_even_first_nibble() {
    assert_eq!(
        Key::checked(0x16d7358fe8d9a172).unwrap_err(),
        Inadmissible::FirstNibbleEven { nibble: 2 }
    );
}

#[test]
fn checked_reports_ninth_equal_to_eighth() {
    assert_eq!(
        Key::checked(0x16d7358ee8d9a17b).unwrap_err(),
        Inadmissible::NinthNibbleEqualsEighth { nibble: 0xe }
    );
}

#[test]
fn checked_reports_ninth_repeated() {
    assert_eq!(
        Key::checked(0x16df358fe8d9a17b).unwrap_err(),
        Inadmissible::NinthNibbleRepeated { position: 12, nibble: 0xf }
    );
    assert_eq!(
        Key::checked(0x16d735ffe8d9a17b).unwrap_err(),
        Inadmissible::NinthNibbleRepeated { position: 9, nibble: 0xf }
    );
    assert_eq!(
        Key::checked(0xf6d7358fe8d9a17b).unwrap_err(),
        Inadmissible::NinthNibbleRepeated { position: 15, nibble: 0xf }
    );
}

#[test]
fn range_check_runs_before_uniqueness() {
    // nibble 3 is zero and nibble 2 repeats nibble 0
    assert_eq!(
        check_admissibility(0x16d7358fe8d90b7b),
        Err(Inadmissible::ContainsZeroNibble { position: 3, nibble: 0 })
    );
}

#[test]
fn earlier_rules_win_over_later_ones() {
    // duplicate at 5 and even front
    assert_eq!(
        check_admissibility(0x16d7358fe8a9a172),
        Err(Inadmissible::DuplicateNibbleInLower8 { position: 5, nibble: 0xa })
    );
    // even front and ninth equal to eighth
    assert_eq!(
        check_admissibility(0x16d7358ee8d9a172),
        Err(Inadmissible::FirstNibbleEven { nibble: 2 })
    );
    // ninth equal to eighth and repeated above
    assert_eq!(
        check_admissibility(0x16de358ee8d9a17b),
        Err(Inadmissible::NinthNibbleEqualsEighth { nibble: 0xe })
    );
}

#[test]
fn messages_name_the_broken_rule() {
    assert_eq!(
        Inadmissible::ContainsZeroNibble { position: 3, nibble: 0 }.message(),
        "Nibble is out of valid range (1 to 15)"
    );
    assert_eq!(
        Inadmissible::DuplicateNibbleInLower8 { position: 2, nibble: 0xb }.message(),
        "Duplicate nibble found in lower 8 nibbles"
    );
    assert_eq!(Inadmissible::FirstNibbleEven { nibble: 2 }.message(), "First nibble must be odd");
    assert_eq!(
        Inadmissible::NinthNibbleEqualsEighth { nibble: 0xe }.message(),
        "9th nibble is equal to the 8th nibble"
    );
    assert_eq!(
        Inadmissible::NinthNibbleRepeated { position: 12, nibble: 0xf }.message(),
        "9th nibble is repeated in upper nibbles"
    );
}

#[test]
fn derived_keys_known_values() {
    assert_eq!(key(0).inner(), 0x1dfd8627d5f26481);
    assert_eq!(key(1).inner(), 0x53f888e736b1fac5);
    assert_eq!(key(20).inner(), 0x262b68e97aeb8431);
    assert_eq!(key(u64::MAX).inner(), 0x441e33d58db72fa1);
    assert_eq!(key(0x1234567890abcdef).inner(), 0x2838d25c4ead8371);
    assert_eq!(key(0x41bd8bbd96da7a49).inner(), 0x73a42b28fc492a61);
}

#[test]
fn with_index_is_the_derivation() {
    for index in [0u64, 1, 20, 0xdead_beef, u64::MAX] {
        assert_eq!(Key::with_index(index).inner(), key(index).inner());
    }
}

#[test]
fn derived_keys_are_admissible() {
    for index in (0..20_000u64).chain(u64::MAX - 20_000..=u64::MAX) {
        let k = key(index);
        assert_eq!(check_admissibility(k.inner()), Ok(()));
        assert!(Key::checked(k.inner()).is_ok());
    }
}

#[test]
fn derived_keys_rarely_share_their_lower_nine_nibbles() {
    let idx_key = Key::checked(GOOD).unwrap();
    let mut lower: Vec<u64> = (0..100_000u64)
        .map(|i| key(u64(idx_key, i)).inner() & 0xf_ffff_ffff)
        .collect();
    lower.sort();
    lower.dedup();
    assert_eq!(lower.len(), 99_983);

    let mut small: Vec<u64> = (0..2_000u64).map(|i| key(i).inner() & 0xf_ffff_ffff).collect();
    small.sort();
    small.dedup();
    assert_eq!(small.len(), 2_000);
}
