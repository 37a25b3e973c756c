use romantic::Roman;

#[test]
fn custom_to_string_empty() {
    let custom = Roman::new(&['A', 'B', 'C']);
    assert_eq!(custom.to_string(0).unwrap(), "");
}

#[test]
fn custom_to_string_one() {
    let custom = Roman::new(&['A', 'B', 'C']);
    assert_eq!(custom.to_string(1).unwrap(), "A");
}

#[test]
fn custom_to_string_two() {
    let custom = Roman::new(&['A', 'B', 'C']);
    assert_eq!(custom.to_string(2).unwrap(), "AA");
}

#[test]
fn custom_to_string_three() {
    let custom = Roman::new(&['A', 'B', 'C']);
    assert_eq!(custom.to_string(3).unwrap(), "AAA");
}

#[test]
fn custom_to_string_four() {
    let custom = Roman::new(&['A', 'B', 'C']);
    assert_eq!(custom.to_string(4).unwrap(), "AB");
}

#[test]
fn custom_to_string_five() {
    let custom = Roman::new(&['A', 'B', 'C']);
    assert_eq!(custom.to_string(5).unwrap(), "B");
}

#[test]
fn custom_to_string_six() {
    let custom = Roman::new(&['A', 'B', 'C']);
    assert_eq!(custom.to_string(6).unwrap(), "BA");
}

#[test]
fn custom_to_string_seven() {
    let custom = Roman::new(&['A', 'B', 'C']);
    assert_eq!(custom.to_string(7).unwrap(), "BAA");
}

#[test]
fn custom_to_string_eight() {
    let custom = Roman::new(&['A', 'B', 'C']);
    assert_eq!(custom.to_string(8).unwrap(), "BAAA");
}

#[test]
fn custom_to_string_nine() {
    let custom = Roman::new(&['A', 'B', 'C']);
    assert_eq!(custom.to_string(9).unwrap(), "AC");
}

#[test]
fn custom_to_string_ten() {
    let custom = Roman::new(&['A', 'B', 'C']);
    assert_eq!(custom.to_string(10).unwrap(), "C");
}

#[test]
fn custom_from_str_empty() {
    let custom = Roman::new(&['A', 'B', 'C', 'D']);
    assert_eq!(custom.from_str::<i32>("").unwrap(), 0);
}

#[test]
fn custom_from_str_one() {
    let custom = Roman::new(&['A', 'B', 'C', 'D']);
    assert_eq!(custom.from_str::<i32>("A").unwrap(), 1);
}

#[test]
fn custom_from_str_two() {
    let custom = Roman::new(&['A', 'B', 'C', 'D']);
    assert_eq!(custom.from_str::<i32>("AA").unwrap(), 2);
}

#[test]
fn custom_from_str_three() {
    let custom = Roman::new(&['A', 'B', 'C', 'D']);
    assert_eq!(custom.from_str::<i32>("AAA").unwrap(), 3);
}

#[test]
fn custom_from_str_four() {
    let custom = Roman::new(&['A', 'B', 'C', 'D']);
    assert_eq!(custom.from_str::<i32>("AB").unwrap(), 4);
}

#[test]
fn custom_from_str_five() {
    let custom = Roman::new(&['A', 'B', 'C', 'D']);
    assert_eq!(custom.from_str::<i32>("B").unwrap(), 5);
}

#[test]
fn custom_from_str_six() {
    let custom = Roman::new(&['A', 'B', 'C', 'D']);
    assert_eq!(custom.from_str::<i32>("BA").unwrap(), 6);
}

#[test]
fn custom_from_str_seven() {
    let custom = Roman::new(&['A', 'B', 'C', 'D']);
    assert_eq!(custom.from_str::<i32>("BAA").unwrap(), 7);
}

#[test]
fn custom_from_str_eight() {
    let custom = Roman::new(&['A', 'B', 'C', 'D']);
    assert_eq!(custom.from_str::<i32>("BAAA").unwrap(), 8);
}

#[test]
fn custom_from_str_nine() {
    let custom = Roman::new(&['A', 'B', 'C', 'D']);
    assert_eq!(custom.from_str::<i32>("AC").unwrap(), 9);
}

#[test]
fn custom_from_str_ten() {
    let custom = Roman::new(&['A', 'B', 'C', 'D']);
    assert_eq!(custom.from_str::<i32>("C").unwrap(), 10);
}
