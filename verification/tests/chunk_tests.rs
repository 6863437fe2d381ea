use csv_sorter::engine::{group_records, ParseFailure};
use csv_sorter::grouping::Buckets;
use csv_sorter::parser::{Column, FailureReason, Schema};
use csv_sorter::transaction::{Transaction, TransactionType};

fn txn(user_id: i64, date: &str, kind: TransactionType, amount: i64) -> Transaction {
    Transaction {
        user_id,
        account_id: 0,
        amount,
        transaction_type: kind,
        desc: String::new(),
        date: String::from(date),
        misc: None,
    }
}

fn all_buckets(buckets: &Buckets) -> Vec<(i64, String, u64, i128, i128, i128)> {
    (0..buckets.len())
        .map(|i| {
            let b = buckets.get(i);
            (
                b.user_id,
                b.date.clone(),
                b.summary.count(),
                b.summary.total(),
                b.summary.min(),
                b.summary.max(),
            )
        })
        .collect()
}

fn sample() -> Vec<Transaction> {
    vec![
        txn(2, "2024-01-02", TransactionType::Credit, 500),
        txn(1, "2024-01-01", TransactionType::Credit, 100),
        txn(1, "2024-01-01", TransactionType::Debit, 30),
        txn(3, "2024-01-01", TransactionType::Debit, 1),
        txn(2, "2024-01-02", TransactionType::Debit, 700),
        txn(1, "2024-01-03", TransactionType::Credit, 10),
        txn(1, "2024-01-01", TransactionType::Credit, 5),
    ]
}

#[test]
fn combining_two_parts_gives_the_buckets_of_one_run() {
    let rows = sample();
    let mut whole = Buckets::new();
    for row in rows.iter() {
        whole.add(row);
    }
    for cut in 0..=rows.len() {
        let mut left = Buckets::new();
        for row in rows[..cut].iter() {
            left.add(row);
        }
        let mut right = Buckets::new();
        for row in rows[cut..].iter() {
            right.add(row);
        }
        left.combine(&right);
        assert_eq!(all_buckets(&left), all_buckets(&whole));
    }
    assert_eq!(
        all_buckets(&whole),
        vec![
            (1, String::from("2024-01-01"), 3, 75, -30, 100),
            (1, String::from("2024-01-03"), 1, 10, 10, 10),
            (2, String::from("2024-01-02"), 2, -200, -700, 500),
            (3, String::from("2024-01-01"), 1, -1, -1, -1),
        ]
    );
}

#[test]
fn combining_with_nothing_changes_nothing() {
    let mut some = Buckets::new();
    some.add(&txn(1, "a", TransactionType::Credit, 3));
    let before = all_buckets(&some);
    some.combine(&Buckets::new());
    assert_eq!(all_buckets(&some), before);
    let mut none = Buckets::new();
    none.combine(&some);
    assert_eq!(all_buckets(&none), before);
}

fn record(fields: &[&str]) -> Option<Vec<String>> {
    Some(fields.iter().map(|f| String::from(*f)).collect())
}

fn schema() -> Schema {
    Schema {
        user_id: Some(0),
        account_id: Some(1),
        amount: Some(2),
        desc: Some(3),
        date: Some(4),
        transaction_type: Some(5),
        misc: None,
    }
}

#[test]
fn joining_two_chunks_gives_the_state_of_one_run() {
    let records = vec![
        record(&["1", "9", "1.00", "", "2024-01-01", "credit"]),
        record(&["1", "9", "zero", "", "2024-01-01", "credit"]),
        record(&["2", "9", "0.30", "", "2024-01-01", "debit"]),
        None,
        record(&["1", "9", "0.50", "", "2024-01-01", "debit"]),
        record(&["1", "9", "0.50", "", "2024-01-01", "refund"]),
    ];
    let whole = group_records(schema(), &records);
    let (whole_buckets, whole_failures) = whole.finish();
    assert_eq!(
        whole_failures,
        vec![
            ParseFailure { row: 1, reason: FailureReason::WrongType(Column::Amount) },
            ParseFailure { row: 3, reason: FailureReason::Unreadable },
            ParseFailure { row: 5, reason: FailureReason::UnknownTransactionType },
        ]
    );
    for cut in 0..=records.len() {
        let mut left = group_records(schema(), &records[..cut].to_vec());
        let right = group_records(schema(), &records[cut..].to_vec());
        left.join(&right);
        let (buckets, failures) = left.finish();
        assert_eq!(failures, whole_failures);
        assert_eq!(all_buckets(&buckets), all_buckets(&whole_buckets));
    }
    assert_eq!(
        all_buckets(&whole_buckets),
        vec![
            (1, String::from("2024-01-01"), 2, 50, -50, 100),
            (2, String::from("2024-01-01"), 1, -30, -30, -30),
        ]
    );
}
