use csv_sorter::parser::parse_type;
use csv_sorter::text::{amount_parts, eq_ignoring_case, parse_amount, parse_integer, AmountParts};
use csv_sorter::transaction::TransactionType;

#[test]
fn integers_are_read_with_or_without_sign() {
    assert_eq!(parse_integer(b"0"), Some(0));
    assert_eq!(parse_integer(b"42"), Some(42));
    assert_eq!(parse_integer(b"+42"), Some(42));
    assert_eq!(parse_integer(b"-42"), Some(-42));
    assert_eq!(parse_integer(b"-0"), Some(0));
    assert_eq!(parse_integer(b"007"), Some(7));
}

#[test]
fn integers_reach_both_ends_of_the_range() {
    assert_eq!(parse_integer(b"9223372036854775807"), Some(i64::MAX));
    assert_eq!(parse_integer(b"-9223372036854775808"), Some(i64::MIN));
    assert_eq!(parse_integer(b"9223372036854775808"), None);
    assert_eq!(parse_integer(b"-9223372036854775809"), None);
    assert_eq!(parse_integer(b"99999999999999999999999999999999999999999999"), None);
    assert_eq!(parse_integer(b"0000000000000000000000000000000000000000012"), Some(12));
}

#[test]
fn text_that_writes_no_integer_is_refused() {
    assert_eq!(parse_integer(b""), None);
    assert_eq!(parse_integer(b"+"), None);
    assert_eq!(parse_integer(b"-"), None);
    assert_eq!(parse_integer(b"12a"), None);
    assert_eq!(parse_integer(b" 12"), None);
    assert_eq!(parse_integer(b"1.0"), None);
    assert_eq!(parse_integer(b"--1"), None);
    assert_eq!(parse_integer(b"0x10"), None);
}

#[test]
fn amounts_are_read_in_hundredths() {
    assert_eq!(parse_amount(b"0"), Some(0));
    assert_eq!(parse_amount(b"100"), Some(10000));
    assert_eq!(parse_amount(b"12.34"), Some(1234));
    assert_eq!(parse_amount(b"12.3"), Some(1230));
    assert_eq!(parse_amount(b"12."), Some(1200));
    assert_eq!(parse_amount(b"0.05"), Some(5));
    assert_eq!(parse_amount(b"0012.50"), Some(1250));
}

#[test]
fn amounts_reach_the_end_of_the_range() {
    assert_eq!(parse_amount(b"92233720368547758.07"), Some(i64::MAX));
    assert_eq!(parse_amount(b"92233720368547758.08"), None);
    assert_eq!(parse_amount(b"92233720368547758"), Some(9223372036854775800));
    assert_eq!(parse_amount(b"92233720368547759"), None);
    assert_eq!(parse_amount(b"999999999999999999999999999999"), None);
}

#[test]
fn text_that_writes_no_amount_is_refused() {
    assert_eq!(parse_amount(b""), None);
    assert_eq!(parse_amount(b".5"), None);
    assert_eq!(parse_amount(b"-5"), None);
    assert_eq!(parse_amount(b"+5"), None);
    assert_eq!(parse_amount(b"1.234"), None);
    assert_eq!(parse_amount(b"1.2.3"), None);
    assert_eq!(parse_amount(b"1,5"), None);
    assert_eq!(parse_amount(b"1e3"), None);
    assert_eq!(parse_amount(b"1.a"), None);
    assert_eq!(parse_amount(b"1.2a"), None);
    assert_eq!(parse_amount(b"abc"), None);
    assert_eq!(parse_amount(b"NaN"), None);
}

#[test]
fn names_are_compared_without_case() {
    assert!(eq_ignoring_case(b"User_ID", b"user_id"));
    assert!(eq_ignoring_case(b"", b""));
    assert!(!eq_ignoring_case(b"user_id", b"userid"));
    assert!(!eq_ignoring_case(b"user-id", b"user_id"));
    assert!(!eq_ignoring_case(b"[", b"{"));
    assert!(!eq_ignoring_case(b"@", b"`"));
}

#[test]
fn transaction_types_are_a_closed_set() {
    assert_eq!(parse_type("credit"), Some(TransactionType::Credit));
    assert_eq!(parse_type("CREDIT"), Some(TransactionType::Credit));
    assert_eq!(parse_type("Debit"), Some(TransactionType::Debit));
    assert_eq!(parse_type("refund"), None);
    assert_eq!(parse_type(""), None);
    assert_eq!(parse_type("credit "), None);
}

#[test]
fn amounts_come_apart_for_display() {
    assert_eq!(amount_parts(0), AmountParts { negative: false, units: 0, hundredths: 0 });
    assert_eq!(amount_parts(7), AmountParts { negative: false, units: 0, hundredths: 7 });
    assert_eq!(amount_parts(1234), AmountParts { negative: false, units: 12, hundredths: 34 });
    assert_eq!(amount_parts(-1205), AmountParts { negative: true, units: 12, hundredths: 5 });
    assert_eq!(amount_parts(-99), AmountParts { negative: true, units: 0, hundredths: 99 });
    assert_eq!(
        amount_parts(i128::MIN),
        AmountParts {
            negative: true,
            units: 1701411834604692317316873037158841057,
            hundredths: 28,
        }
    );
    assert_eq!(
        amount_parts(i128::MAX),
        AmountParts {
            negative: false,
            units: 1701411834604692317316873037158841057,
            hundredths: 27,
        }
    );
}
