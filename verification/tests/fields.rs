use naive_gfx::fields::{fields_from, parse_index, SPACE};

fn texts(fields: &Vec<Vec<u8>>) -> Vec<String> {
    fields.iter().map(|f| String::from_utf8(f.clone()).unwrap()).collect()
}

#[test]
fn fields_are_split_at_single_spaces() {
    let fields = fields_from(b"f 1 2 3", 2);
    assert_eq!(texts(&fields), vec!["1", "2", "3"]);
    assert_eq!(SPACE, b' ');
}

#[test]
fn fields_of_a_text_without_space_is_the_text() {
    assert_eq!(texts(&fields_from(b"v 1.5", 2)), vec!["1.5"]);
    assert_eq!(texts(&fields_from(b"abc", 0)), vec!["abc"]);
}

#[test]
fn fields_of_an_empty_rest_is_one_empty_field() {
    assert_eq!(texts(&fields_from(b"v ", 2)), vec![""]);
    assert_eq!(texts(&fields_from(b"", 0)), vec![""]);
    assert_eq!(texts(&fields_from(b"vn", 2)), vec![""]);
}

#[test]
fn fields_between_two_spaces_are_empty() {
    assert_eq!(texts(&fields_from(b"f 1  2 3", 2)), vec!["1", "", "2", "3"]);
    assert_eq!(texts(&fields_from(b"f  1", 2)), vec!["", "1"]);
    assert_eq!(texts(&fields_from(b"f 1 ", 2)), vec!["1", ""]);
    assert_eq!(texts(&fields_from(b"   ", 0)), vec!["", "", "", ""]);
}

#[test]
fn fields_are_not_split_at_tabs() {
    assert_eq!(texts(&fields_from(b"v 1\t2 3", 2)), vec!["1\t2", "3"]);
}

#[test]
fn index_of_plain_digits() {
    assert_eq!(parse_index(b"0"), Some(0));
    assert_eq!(parse_index(b"7"), Some(7));
    assert_eq!(parse_index(b"12"), Some(12));
    assert_eq!(parse_index(b"4096"), Some(4096));
    assert_eq!(parse_index(b"007"), Some(7));
}

#[test]
fn index_may_carry_a_plus_sign() {
    assert_eq!(parse_index(b"+5"), Some(5));
    assert_eq!(parse_index(b"+0"), Some(0));
    assert_eq!(parse_index(b"++5"), None);
    assert_eq!(parse_index(b"5+"), None);
}

#[test]
fn index_needs_a_digit() {
    assert_eq!(parse_index(b""), None);
    assert_eq!(parse_index(b"+"), None);
}

#[test]
fn index_refuses_anything_but_digits() {
    assert_eq!(parse_index(b"-1"), None);
    assert_eq!(parse_index(b"1.0"), None);
    assert_eq!(parse_index(b"1/2/3"), None);
    assert_eq!(parse_index(b" 1"), None);
    assert_eq!(parse_index(b"1 "), None);
    assert_eq!(parse_index(b"1_000"), None);
    assert_eq!(parse_index(b"0x10"), None);
    assert_eq!(parse_index(b"12a"), None);
    assert_eq!(parse_index(&[0x2f]), None);
    assert_eq!(parse_index(&[0x3a]), None);
}

#[test]
fn index_must_fit_the_machine_word() {
    let max = usize::MAX.to_string();
    assert_eq!(parse_index(max.as_bytes()), Some(usize::MAX));
    let padded = format!("000{}", usize::MAX);
    assert_eq!(parse_index(padded.as_bytes()), Some(usize::MAX));
    // one more than the greatest
    let mut digits: Vec<u8> = max.clone().into_bytes();
    let last = digits.len() - 1;
    assert!(digits[last] < b'9');
    digits[last] += 1;
    assert_eq!(parse_index(&digits), None);
    // ten times the greatest
    let longer = format!("{}0", usize::MAX);
    assert_eq!(parse_index(longer.as_bytes()), None);
    assert_eq!(parse_index(b"99999999999999999999999999999999999999999"), None);
}

#[test]
fn index_agrees_with_the_standard_parser() {
    let samples: [&str; 12] =
        ["1", "+1", "-1", "", "+", "10", "010", "1e3", "\u{0663}", "18446744073709551615", "18446744073709551616", "+-1"];
    for s in samples.iter() {
        assert_eq!(parse_index(s.as_bytes()), s.parse::<usize>().ok(), "{:?}", s);
    }
}
