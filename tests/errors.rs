use romantic::{ConversionError, Roman};

#[test]
fn from_str_error_invalid_character() {
    assert!(Roman::default().from_str::<i32>("A").is_err());
    assert_eq!(
        Roman::default().from_str::<i32>("A"),
        Err(ConversionError::InvalidCharacter('A'))
    );
}

#[test]
fn to_string_error_too_high() {
    assert!(Roman::default().to_string(4000).is_err());
    assert_eq!(
        Roman::default().to_string(4000),
        Err(ConversionError::MissingMagnitude(5000))
    );
}

#[test]
fn to_string_error_negative() {
    assert!(Roman::default().to_string(-100).is_err());
    assert_eq!(
        Roman::default().to_string(-100),
        Err(ConversionError::NegativeNumber)
    );
}

#[test]
fn from_str_error_symbol_too_large_for_type() {
    assert_eq!(
        Roman::default().from_str::<i8>("M"),
        Err(ConversionError::GenericConversion)
    );
    assert_eq!(Roman::default().from_str::<i16>("M"), Ok(1000));
}

#[test]
fn from_str_error_overflow() {
    assert_eq!(
        Roman::default().from_str::<i8>("CC"),
        Err(ConversionError::Overflow)
    );
    assert_eq!(Roman::default().from_str::<u8>("CC"), Ok(200));
}

#[test]
fn from_str_unsigned_leading_subtraction_underflows() {
    assert_eq!(
        Roman::default().from_str::<u32>("IV"),
        Err(ConversionError::Overflow)
    );
    assert_eq!(Roman::default().from_str::<u32>("VI"), Ok(6));
    assert_eq!(Roman::default().from_str::<i32>("IV"), Ok(4));
}

#[test]
fn from_str_first_error_wins() {
    assert_eq!(
        Roman::default().from_str::<i8>("CCA"),
        Err(ConversionError::Overflow)
    );
    assert_eq!(
        Roman::default().from_str::<i8>("AM"),
        Err(ConversionError::InvalidCharacter('A'))
    );
}

#[test]
fn to_string_missing_ten_symbol() {
    let custom = Roman::new(&['A', 'B']);
    assert_eq!(custom.to_string(9), Err(ConversionError::MissingMagnitude(10)));
    assert_eq!(custom.to_string(8).unwrap(), "BAAA");
}

#[test]
fn to_string_lowest_missing_magnitude_reported_first() {
    let custom = Roman::new(&['A']);
    assert_eq!(custom.to_string(1).unwrap(), "A");
    assert_eq!(custom.to_string(40), Err(ConversionError::MissingMagnitude(50)));
    assert_eq!(custom.to_string(44), Err(ConversionError::MissingMagnitude(5)));
}
