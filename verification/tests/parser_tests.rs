use csv_sorter::parser::{parse_row, Column, FailureReason, Schema};
use csv_sorter::transaction::TransactionType;

fn row(fields: &[&str]) -> Vec<String> {
    fields.iter().map(|f| String::from(*f)).collect()
}

fn usual_schema() -> Schema {
    Schema::from_header(&row(&[
        "user_id",
        "account_id",
        "amount",
        "desc",
        "date",
        "transaction_type",
        "misc",
    ]))
}

#[test]
fn header_settles_the_positions() {
    let schema = usual_schema();
    assert_eq!(schema.user_id, Some(0));
    assert_eq!(schema.account_id, Some(1));
    assert_eq!(schema.amount, Some(2));
    assert_eq!(schema.desc, Some(3));
    assert_eq!(schema.date, Some(4));
    assert_eq!(schema.transaction_type, Some(5));
    assert_eq!(schema.misc, Some(6));
}

#[test]
fn header_may_come_in_any_order_and_case() {
    let schema = Schema::from_header(&row(&[
        "Date",
        "extra",
        "AMOUNT",
        "Transaction_Type",
        "User_Id",
        "desc",
        "account_id",
    ]));
    assert_eq!(schema.date, Some(0));
    assert_eq!(schema.amount, Some(2));
    assert_eq!(schema.transaction_type, Some(3));
    assert_eq!(schema.user_id, Some(4));
    assert_eq!(schema.desc, Some(5));
    assert_eq!(schema.account_id, Some(6));
    assert_eq!(schema.misc, None);
}

#[test]
fn first_of_two_equal_names_wins() {
    let schema = Schema::from_header(&row(&["amount", "user_id", "amount"]));
    assert_eq!(schema.amount, Some(0));
    assert_eq!(schema.user_id, Some(1));
}

#[test]
fn empty_schema_names_nothing() {
    assert_eq!(Schema::empty(), Schema::from_header(&Vec::new()));
    assert_eq!(Schema::empty().user_id, None);
    assert_eq!(Schema::empty().misc, None);
}

#[test]
fn a_full_row_decodes() {
    let schema = usual_schema();
    let txn = parse_row(
        &schema,
        &row(&["12", "-3", "45.60", "coffee", "2024-02-29", "Debit", "note"]),
    ).unwrap();
    assert_eq!(txn.user_id, 12);
    assert_eq!(txn.account_id, -3);
    assert_eq!(txn.amount, 4560);
    assert_eq!(txn.desc, "coffee");
    assert_eq!(txn.date, "2024-02-29");
    assert_eq!(txn.transaction_type, TransactionType::Debit);
    assert_eq!(txn.misc, Some(String::from("note")));
    assert_eq!(txn.signed_amount(), -4560);
}

#[test]
fn misc_may_be_empty_or_absent() {
    let schema = usual_schema();
    let empty = parse_row(&schema, &row(&["1", "2", "3", "", "d", "credit", ""])).unwrap();
    assert_eq!(empty.misc, None);
    assert_eq!(empty.desc, "");
    let short = parse_row(&schema, &row(&["1", "2", "3", "x", "d", "credit"])).unwrap();
    assert_eq!(short.misc, None);
    let no_column = Schema::from_header(&row(&[
        "user_id",
        "account_id",
        "amount",
        "desc",
        "date",
        "transaction_type",
    ]));
    let txn = parse_row(&no_column, &row(&["1", "2", "3", "x", "d", "credit"])).unwrap();
    assert_eq!(txn.misc, None);
}

#[test]
fn the_date_is_taken_as_it_is() {
    let schema = usual_schema();
    let txn = parse_row(&schema, &row(&["1", "2", "3", "x", "not a date", "credit", ""])).unwrap();
    assert_eq!(txn.date, "not a date");
}

#[test]
fn a_missing_column_is_reported() {
    let schema = Schema::from_header(&row(&["user_id", "amount"]));
    let outcome = parse_row(&schema, &row(&["1", "5"]));
    assert_eq!(outcome.unwrap_err(), FailureReason::MissingField(Column::AccountId));
}

#[test]
fn a_short_row_is_reported() {
    let schema = usual_schema();
    let outcome = parse_row(&schema, &row(&["1", "2", "3"]));
    assert_eq!(outcome.unwrap_err(), FailureReason::MissingField(Column::Desc));
    let none = parse_row(&schema, &row(&[]));
    assert_eq!(none.unwrap_err(), FailureReason::MissingField(Column::UserId));
}

#[test]
fn a_field_of_the_wrong_type_is_reported() {
    let schema = usual_schema();
    let user = parse_row(&schema, &row(&["x", "2", "3", "", "d", "credit", ""]));
    assert_eq!(user.unwrap_err(), FailureReason::WrongType(Column::UserId));
    let account = parse_row(&schema, &row(&["1", "2.5", "3", "", "d", "credit", ""]));
    assert_eq!(account.unwrap_err(), FailureReason::WrongType(Column::AccountId));
    let amount = parse_row(&schema, &row(&["1", "2", "-3", "", "d", "credit", ""]));
    assert_eq!(amount.unwrap_err(), FailureReason::WrongType(Column::Amount));
}

#[test]
fn an_unknown_transaction_type_is_reported() {
    let schema = usual_schema();
    let outcome = parse_row(&schema, &row(&["1", "2", "3", "", "d", "refund", ""]));
    assert_eq!(outcome.unwrap_err(), FailureReason::UnknownTransactionType);
}

#[test]
fn the_first_problem_in_column_order_is_reported() {
    let schema = usual_schema();
    let outcome = parse_row(&schema, &row(&["1", "zz", "-3", "", "d", "refund", ""]));
    assert_eq!(outcome.unwrap_err(), FailureReason::WrongType(Column::AccountId));
}
