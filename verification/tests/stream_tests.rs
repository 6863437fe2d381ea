use csv_sorter::engine::ParseFailure;
use csv_sorter::parser::{Column, FailureReason};
use csv_sorter::report::RunResult;
use csv_sorter::stream::{aggregate, read_stream};
use csv_sorter::summary::Summary;

fn check(s: &Summary, user_id: i64, count: u64, total: i128, min: i128, max: i128) {
    assert_eq!(s.user_id(), user_id);
    assert_eq!(s.count(), count);
    assert_eq!(s.total(), total);
    assert_eq!(s.min(), min);
    assert_eq!(s.max(), max);
}

const HEADER: &str = "user_id,account_id,amount,desc,date,transaction_type,misc\n";

fn run(body: &str) -> RunResult {
    let mut text = String::from(HEADER);
    text.push_str(body);
    read_stream(text.as_bytes())
}

#[test]
fn credit_debit_and_a_second_date() {
    let result = run(
        "1,10,100,pay,2024-01-01,CREDIT,\n\
         1,10,30,rent,2024-01-01,DEBIT,\n\
         1,10,10,gift,2024-01-02,CREDIT,\n",
    );
    assert!(result.failures.is_empty());
    assert_eq!(result.users.len(), 1);
    let user = &result.users[0];
    assert_eq!(user.user_id, 1);
    assert_eq!(user.days.len(), 2);
    assert_eq!(user.days[0].date, "2024-01-01");
    check(&user.days[0].summary, 1, 2, 70 * 100, -30 * 100, 100 * 100);
    assert_eq!(user.days[1].date, "2024-01-02");
    check(&user.days[1].summary, 1, 1, 10 * 100, 10 * 100, 10 * 100);
}

#[test]
fn a_refund_is_set_aside() {
    let result = run("1,10,5,back,2024-01-01,refund,\n");
    assert!(result.users.is_empty());
    assert_eq!(
        result.failures,
        vec![ParseFailure { row: 0, reason: FailureReason::UnknownTransactionType }]
    );
}

#[test]
fn a_refund_among_good_rows_adds_nothing() {
    let result = run(
        "1,10,5,a,2024-01-01,credit,\n\
         1,10,5,b,2024-01-01,refund,\n\
         1,10,7,c,2024-01-01,credit,\n",
    );
    assert_eq!(
        result.failures,
        vec![ParseFailure { row: 1, reason: FailureReason::UnknownTransactionType }]
    );
    assert_eq!(result.users.len(), 1);
    assert_eq!(result.users[0].days.len(), 1);
    check(&result.users[0].days[0].summary, 1, 2, 1200, 500, 700);
}

#[test]
fn empty_input_gives_an_empty_result() {
    let result = read_stream(b"");
    assert!(result.users.is_empty());
    assert!(result.failures.is_empty());
}

#[test]
fn header_alone_gives_nothing() {
    let result = run("");
    assert!(result.users.is_empty());
    assert!(result.failures.is_empty());
}

#[test]
fn quoted_fields_are_unwrapped_by_the_reader() {
    let result = run("\"3\",\"4\",\"2.50\",\"a, \"\"b\"\"\nc\",\"2024-05-05\",\"credit\",\"\"\n");
    assert!(result.failures.is_empty());
    assert_eq!(result.users.len(), 1);
    assert_eq!(result.users[0].user_id, 3);
    assert_eq!(result.users[0].days[0].date, "2024-05-05");
    check(&result.users[0].days[0].summary, 3, 1, 250, 250, 250);
}

#[test]
fn columns_are_found_by_name() {
    let data = "Date,AMOUNT,Transaction_Type,USER_ID,Desc,Account_Id\n\
                2024-01-01,1.50,debit,8,x,2\n";
    let result = read_stream(data.as_bytes());
    assert!(result.failures.is_empty());
    assert_eq!(result.users.len(), 1);
    assert_eq!(result.users[0].user_id, 8);
    check(&result.users[0].days[0].summary, 8, 1, -150, -150, -150);
}

#[test]
fn a_record_of_another_length_is_unreadable() {
    let result = run(
        "1,10,5,a,2024-01-01,credit,\n\
         1,10,5\n\
         1,10,5,a,2024-01-01,credit,,extra\n\
         1,10,6,a,2024-01-01,credit,\n",
    );
    assert_eq!(
        result.failures,
        vec![
            ParseFailure { row: 1, reason: FailureReason::Unreadable },
            ParseFailure { row: 2, reason: FailureReason::Unreadable },
        ]
    );
    check(&result.users[0].days[0].summary, 1, 2, 1100, 500, 600);
}

#[test]
fn a_record_that_is_not_text_is_unreadable() {
    let mut data = Vec::from(HEADER.as_bytes());
    data.extend_from_slice(b"1,10,5,\xff\xfe,2024-01-01,credit,\n");
    data.extend_from_slice(b"1,10,6,ok,2024-01-01,credit,\n");
    let result = read_stream(&data);
    assert_eq!(result.failures, vec![ParseFailure { row: 0, reason: FailureReason::Unreadable }]);
    check(&result.users[0].days[0].summary, 1, 1, 600, 600, 600);
}

#[test]
fn a_header_without_a_column_fails_every_row() {
    let data = "user_id,amount,desc,date,transaction_type\n1,5,a,d,credit\n2,6,b,d,debit\n";
    let result = read_stream(data.as_bytes());
    assert!(result.users.is_empty());
    assert_eq!(
        result.failures,
        vec![
            ParseFailure { row: 0, reason: FailureReason::MissingField(Column::AccountId) },
            ParseFailure { row: 1, reason: FailureReason::MissingField(Column::AccountId) },
        ]
    );
}

#[test]
fn output_is_sorted_whatever_the_input_order() {
    let result = run(
        "2,1,1,,2024-02-01,credit,\n\
         1,1,2,,2024-03-01,credit,\n\
         2,1,3,,2024-01-15,debit,\n\
         1,1,4,,2023-12-31,credit,\n\
         2,1,5,,2024-02-01,credit,\n",
    );
    assert!(result.failures.is_empty());
    let shape: Vec<(i64, Vec<(&str, u64, i128)>)> = result
        .users
        .iter()
        .map(|u| {
            let days = u
                .days
                .iter()
                .map(|d| (d.date.as_str(), d.summary.count(), d.summary.total()))
                .collect();
            (u.user_id, days)
        })
        .collect();
    assert_eq!(
        shape,
        vec![
            (1, vec![("2023-12-31", 1, 400), ("2024-03-01", 1, 200)]),
            (2, vec![("2024-01-15", 1, -300), ("2024-02-01", 2, 600)]),
        ]
    );
}

#[test]
fn aggregate_takes_records_that_are_split_already() {
    let header = Some(vec![
        String::from("user_id"),
        String::from("account_id"),
        String::from("amount"),
        String::from("desc"),
        String::from("date"),
        String::from("transaction_type"),
    ]);
    let records = vec![
        Some(vec![
            String::from("4"),
            String::from("1"),
            String::from("0.99"),
            String::from(""),
            String::from("2024-06-01"),
            String::from("credit"),
        ]),
        None,
    ];
    let result = aggregate(&header, &records);
    assert_eq!(result.failures, vec![ParseFailure { row: 1, reason: FailureReason::Unreadable }]);
    check(&result.users[0].days[0].summary, 4, 1, 99, 99, 99);
}

#[test]
fn without_a_header_every_row_lacks_its_first_column() {
    let records = vec![Some(vec![String::from("4")])];
    let result = aggregate(&None, &records);
    assert!(result.users.is_empty());
    assert_eq!(
        result.failures,
        vec![ParseFailure { row: 0, reason: FailureReason::MissingField(Column::UserId) }]
    );
}
