use stellar_guesser::text::{join_with, parse_unsigned_upto, split_on, trim_str, usize_to_decimal, IntErrorKind};

#[test]
fn split_and_join() {
    assert_eq!(split_on("a|b||c", '|'), vec!["a", "b", "", "c"]);
    assert_eq!(split_on("", '|'), vec![""]);
    assert_eq!(split_on("|", '|'), vec!["", ""]);
    let parts = vec!["x".to_string(), "y".to_string(), "z".to_string()];
    assert_eq!(join_with(&parts, ", "), "x, y, z");
    assert_eq!(join_with(&[], ", "), "");
    assert_eq!(split_on(&join_with(&parts, "|"), '|'), parts);
}

#[test]
fn trimming_and_numbers() {
    assert_eq!(trim_str("\t a b \n"), "a b");
    assert_eq!(trim_str("\u{3000}x\u{a0}"), "x");
    assert_eq!(usize_to_decimal(0), "0");
    assert_eq!(usize_to_decimal(1234567), "1234567");
    let digits: Vec<char> = "18446744073709551615".chars().collect();
    assert_eq!(parse_unsigned_upto(&digits, u64::MAX), Ok(u64::MAX));
    let digits: Vec<char> = "256".chars().collect();
    assert_eq!(parse_unsigned_upto(&digits, 255), Err(IntErrorKind::PosOverflow));
    let digits: Vec<char> = "1x".chars().collect();
    assert_eq!(parse_unsigned_upto(&digits, 255), Err(IntErrorKind::InvalidDigit));
    assert_eq!(parse_unsigned_upto(&[], 255), Err(IntErrorKind::Empty));
    assert_eq!(IntErrorKind::PosOverflow.message(), "number too large to fit in target type");
}
