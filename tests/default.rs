use romantic::Roman;

#[test]
fn default_to_string_empty() {
    assert_eq!(Roman::default().to_string(0).unwrap(), "");
}

#[test]
fn default_to_string_all_characters() {
    assert_eq!(Roman::default().to_string(3888).unwrap(), "MMMDCCCLXXXVIII");
}

#[test]
fn default_to_string_maximum() {
    assert_eq!(Roman::default().to_string(3999).unwrap(), "MMMCMXCIX");
}

#[test]
fn default_to_string_one() {
    assert_eq!(Roman::default().to_string(1).unwrap(), "I");
}

#[test]
fn default_to_string_two() {
    assert_eq!(Roman::default().to_string(2).unwrap(), "II");
}

#[test]
fn default_to_string_three() {
    assert_eq!(Roman::default().to_string(3).unwrap(), "III");
}

#[test]
fn default_to_string_four() {
    assert_eq!(Roman::default().to_string(4).unwrap(), "IV");
}

#[test]
fn default_to_string_five() {
    assert_eq!(Roman::default().to_string(5).unwrap(), "V");
}

#[test]
fn default_to_string_six() {
    assert_eq!(Roman::default().to_string(6).unwrap(), "VI");
}

#[test]
fn default_to_string_seven() {
    assert_eq!(Roman::default().to_string(7).unwrap(), "VII");
}

#[test]
fn default_to_string_eight() {
    assert_eq!(Roman::default().to_string(8).unwrap(), "VIII");
}

#[test]
fn default_to_string_nine() {
    assert_eq!(Roman::default().to_string(9).unwrap(), "IX");
}

#[test]
fn default_to_string_ten() {
    assert_eq!(Roman::default().to_string(10).unwrap(), "X");
}

#[test]
fn default_from_str_empty() {
    assert_eq!(Roman::default().from_str::<i32>("").unwrap(), 0);
}

#[test]
fn default_from_str_complicated() {
    assert_eq!(Roman::default().from_str::<i32>("MMMDCCCLXXXVIII").unwrap(), 3888);
}

#[test]
fn default_from_str_maximum() {
    assert_eq!(Roman::default().from_str::<i32>("MMMCMXCIX").unwrap(), 3999);
}

#[test]
fn default_from_str_one() {
    assert_eq!(Roman::default().from_str::<i32>("I").unwrap(), 1);
}

#[test]
fn default_from_str_two() {
    assert_eq!(Roman::default().from_str::<i32>("II").unwrap(), 2);
}

#[test]
fn default_from_str_three() {
    assert_eq!(Roman::default().from_str::<i32>("III").unwrap(), 3);
}

#[test]
fn default_from_str_four() {
    assert_eq!(Roman::default().from_str::<i32>("IV").unwrap(), 4);
}

#[test]
fn default_from_str_five() {
    assert_eq!(Roman::default().from_str::<i32>("V").unwrap(), 5);
}

#[test]
fn default_from_str_six() {
    assert_eq!(Roman::default().from_str::<i32>("VI").unwrap(), 6);
}

#[test]
fn default_from_str_seven() {
    assert_eq!(Roman::default().from_str::<i32>("VII").unwrap(), 7);
}

#[test]
fn default_from_str_eight() {
    assert_eq!(Roman::default().from_str::<i32>("VIII").unwrap(), 8);
}

#[test]
fn default_from_str_nine() {
    assert_eq!(Roman::default().from_str::<i32>("IX").unwrap(), 9);
}

#[test]
fn default_from_str_ten() {
    assert_eq!(Roman::default().from_str::<i32>("X").unwrap(), 10);
}
