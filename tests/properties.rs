use romantic::Roman;

#[test]
fn default_zero_is_empty() {
    let roman = Roman::default();
    assert_eq!(roman.to_string(0).unwrap(), "");
    assert_eq!(roman.from_str::<i32>("").unwrap(), 0);
}

#[test]
fn default_round_trip_up_to_maximum() {
    let roman = Roman::default();
    for n in 0..4000i32 {
        let text = roman.to_string(n).unwrap();
        assert_eq!(roman.from_str::<i32>(&text).unwrap(), n);
    }
}

#[test]
fn custom_round_trip_wide_alphabet() {
    let alphabet: Vec<char> = "abcdefghijklmnopqrst".chars().collect();
    let roman = Roman::new(&alphabet);
    for n in [0i64, 7, 49, 99, 1234, 987_654_321, 3_999_999_999] {
        let text = roman.to_string(n).unwrap();
        assert_eq!(roman.from_str::<i64>(&text).unwrap(), n);
    }
    assert_eq!(roman.to_string(8_000_000_000u64).unwrap(), "tsss");
}

#[test]
fn all_integer_types_encode() {
    let roman = Roman::default();
    assert_eq!(roman.to_string(14u8).unwrap(), "XIV");
    assert_eq!(roman.to_string(14i8).unwrap(), "XIV");
    assert_eq!(roman.to_string(1994u16).unwrap(), "MCMXCIV");
    assert_eq!(roman.to_string(1994i64).unwrap(), "MCMXCIV");
    assert_eq!(roman.to_string(1994u128).unwrap(), "MCMXCIV");
    assert_eq!(roman.to_string(1994isize).unwrap(), "MCMXCIV");
    assert_eq!(roman.to_string(1994usize).unwrap(), "MCMXCIV");
    assert_eq!(roman.from_str::<u64>("MCMXCIV").unwrap(), 1994);
    assert_eq!(roman.from_str::<i128>("MCMXCIV").unwrap(), 1994);
}

#[test]
fn three_symbol_alphabet_digits() {
    let custom = Roman::new(&['A', 'B', 'C']);
    let expected = ["", "A", "AA", "AAA", "AB", "B", "BA", "BAA", "BAAA", "AC", "C"];
    for (n, text) in expected.iter().enumerate() {
        assert_eq!(custom.to_string(n as i32).unwrap(), *text);
        assert_eq!(custom.from_str::<i32>(text).unwrap(), n as i32);
    }
}

#[test]
fn construction_is_repeatable() {
    let first = Roman::new(&['X', 'Y', 'Z']);
    let second = Roman::new(&['X', 'Y', 'Z']);
    for n in -5..200i32 {
        assert_eq!(first.to_string(n), second.to_string(n));
    }
    for text in ["", "X", "XZ", "ZZY", "YX", "Q"] {
        assert_eq!(first.from_str::<i32>(text), second.from_str::<i32>(text));
    }
}

#[test]
fn empty_alphabet_only_zero() {
    let empty = Roman::new(&[]);
    assert_eq!(empty.to_string(0).unwrap(), "");
    assert!(empty.to_string(1).is_err());
    assert_eq!(empty.from_str::<i32>("").unwrap(), 0);
    assert!(empty.from_str::<i32>("I").is_err());
}

#[test]
fn repeated_symbol_keeps_last_magnitude() {
    let custom = Roman::new(&['A', 'B', 'A']);
    assert_eq!(custom.from_str::<i32>("A").unwrap(), 10);
    assert_eq!(custom.to_string(1).unwrap(), "A");
}

#[test]
fn unsigned_round_trip_without_leading_subtraction() {
    let roman = Roman::default();
    for n in [0u8, 1, 3, 5, 8, 10, 38, 50, 88, 100, 250, 255] {
        let text = roman.to_string(n).unwrap();
        assert_eq!(roman.from_str::<u8>(&text).unwrap(), n);
    }
    assert_eq!(roman.to_string(250u8).unwrap(), "CCL");
    assert!(roman.from_str::<u8>(&roman.to_string(4u8).unwrap()).is_err());
    assert_eq!(roman.from_str::<i8>("XCIX").unwrap(), 99);
    assert_eq!(roman.from_str::<i8>("CXXVII").unwrap(), 127);
}
