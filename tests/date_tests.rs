use std::cmp::Ordering;
use taskgraph::date::{
    extract_number, navigation_step, retry_after_failure, Date, NavStep, ParseError, Semester,
};
use taskgraph::otp::{code_text, one_time_code, raw_secret_code};

#[test]
fn parses_period_identifiers() {
    assert_eq!(Date::from_str("Fall 2023"), Ok(Date { semester: Semester::Fall, year: 2023 }));
    assert_eq!(Date::from_str("Winter 2024"), Ok(Date { semester: Semester::Winter, year: 2024 }));
    assert_eq!(Date::from_str("  Summer\t+2025 "), Ok(Date { semester: Semester::Summer, year: 2025 }));
}

#[test]
fn rejects_malformed_period_identifiers() {
    assert_eq!(Date::from_str("Fall"), Err(ParseError::InvalidFormat));
    assert_eq!(Date::from_str("Fall 2023 extra"), Err(ParseError::InvalidFormat));
    assert_eq!(Date::from_str(""), Err(ParseError::InvalidFormat));
    assert_eq!(Date::from_str("Spring 2023"), Err(ParseError::InvalidSemester));
    assert_eq!(Date::from_str("fall 2023"), Err(ParseError::InvalidSemester));
    assert_eq!(Date::from_str("Fall 20x3"), Err(ParseError::InvalidNumber));
    assert_eq!(Date::from_str("Fall -2023"), Err(ParseError::InvalidNumber));
    assert_eq!(Date::from_str("Fall +"), Err(ParseError::InvalidNumber));
    assert_eq!(Date::from_str("Fall 4294967296"), Err(ParseError::InvalidNumber));
    assert_eq!(
        Date::from_str("Fall 4294967295"),
        Ok(Date { semester: Semester::Fall, year: u32::MAX })
    );
}

#[test]
fn periods_order_by_year_then_semester_rank() {
    let fall23 = Date::from_str("Fall 2023").unwrap();
    let winter24 = Date::from_str("Winter 2024").unwrap();
    let winter23 = Date::from_str("Winter 2023").unwrap();
    let summer23 = Date::from_str("Summer 2023").unwrap();
    assert_eq!(fall23.partial_cmp(&winter24), Some(Ordering::Less));
    assert_eq!(winter24.compare(&fall23), Ordering::Greater);
    assert!(fall23 < summer23 && summer23 < winter23);
    assert!(winter23 < winter24);
    assert_eq!(fall23.compare(&fall23), Ordering::Equal);
    assert_eq!(Semester::Fall.partial_cmp(&Semester::Winter), Some(Ordering::Less));
    assert_eq!((Semester::Fall.rank(), Semester::Summer.rank(), Semester::Winter.rank()), (1, 2, 3));
}

#[test]
fn navigation_moves_toward_the_target() {
    let target = Date { semester: Semester::Winter, year: 2024 };
    assert_eq!(navigation_step(&Date { semester: Semester::Fall, year: 2023 }, &target), NavStep::Previous);
    assert_eq!(navigation_step(&target, &target), NavStep::Done);
    assert_eq!(navigation_step(&Date { semester: Semester::Fall, year: 2025 }, &target), NavStep::Next);
}

#[test]
fn interactions_are_tried_three_times() {
    assert!(retry_after_failure(1));
    assert!(retry_after_failure(2));
    assert!(!retry_after_failure(3));
}

#[test]
fn extracts_the_last_number() {
    assert_eq!(extract_number("Term 2 of 2024 (abc)"), Ok(2024));
    assert_eq!(extract_number("12a"), Ok(12));
    assert_eq!(extract_number("seats: 0"), Ok(0));
    assert_eq!(extract_number("no digits"), Err(ParseError::NoNumber));
    assert_eq!(extract_number(""), Err(ParseError::NoNumber));
    assert_eq!(extract_number("9223372036854775807"), Ok(i64::MAX));
    assert_eq!(extract_number("x9223372036854775808"), Err(ParseError::InvalidNumber));
}

#[test]
fn one_time_codes_follow_the_time_step() {
    // The shared secret "12345678901234567890" in base 32.
    let secret = "GEZDGNBVGY3TQOJQGEZDGNBVGY3TQOJQ";
    assert_eq!(one_time_code(secret, 59), Some(287_082));
    assert_eq!(one_time_code(secret, 1_111_111_109), Some(81_804));
    assert_eq!(one_time_code(secret, 1_111_111_109), one_time_code(secret, 1_111_111_100));
    assert_eq!(one_time_code("not base32!", 59), None);
}

#[test]
fn raw_secret_codes_match_the_base32_form() {
    assert_eq!(raw_secret_code("12345678901234567890", 59), 287_082);
    assert_eq!(
        Some(raw_secret_code("12345678901234567890", 1_111_111_109)),
        one_time_code("GEZDGNBVGY3TQOJQGEZDGNBVGY3TQOJQ", 1_111_111_109)
    );
}

#[test]
fn codes_are_typed_as_six_digits() {
    assert_eq!(code_text(81_804), "081804");
    assert_eq!(code_text(287_082), "287082");
    assert_eq!(code_text(0), "000000");
    assert_eq!(code_text(7), "000007");
}

#[test]
fn base32_secrets_use_upper_case_letters_and_two_to_seven() {
    assert!(one_time_code("", 59).is_some());
    assert!(one_time_code("ABCDEFGHIJKLMNOPQRSTUVWXYZ234567", 59).is_some());
    assert_eq!(one_time_code("gezdgnbv", 59), None);
    assert_eq!(one_time_code("GEZDGNB1", 59), None);
    assert_eq!(one_time_code("GEZDGNBV=", 59), None);
}
