use csv_sorter::summary::Summary;
use csv_sorter::transaction::{Transaction, TransactionType};

fn txn(user_id: i64, date: &str, kind: TransactionType, amount: i64) -> Transaction {
    Transaction {
        user_id,
        account_id: 7,
        amount,
        transaction_type: kind,
        desc: String::from("test"),
        date: String::from(date),
        misc: None,
    }
}

fn fold(user_id: i64, amounts: &[(TransactionType, i64)]) -> Summary {
    let mut s = Summary::identity(user_id);
    for (kind, amount) in amounts {
        s = s.extend(&txn(user_id, "2024-01-01", *kind, *amount));
    }
    s
}

fn check(s: &Summary, user_id: i64, count: u64, total: i128, min: i128, max: i128) {
    assert_eq!(s.user_id(), user_id);
    assert_eq!(s.count(), count);
    assert_eq!(s.total(), total);
    assert_eq!(s.min(), min);
    assert_eq!(s.max(), max);
}

#[test]
fn signed_amount_follows_the_type() {
    assert_eq!(txn(1, "d", TransactionType::Credit, 250).signed_amount(), 250);
    assert_eq!(txn(1, "d", TransactionType::Debit, 250).signed_amount(), -250);
    assert_eq!(txn(1, "d", TransactionType::Debit, 0).signed_amount(), 0);
    assert_eq!(txn(1, "d", TransactionType::Credit, i64::MAX).signed_amount(), i64::MAX as i128);
    assert_eq!(txn(1, "d", TransactionType::Debit, i64::MAX).signed_amount(), -(i64::MAX as i128));
}

#[test]
fn identity_is_all_zero() {
    check(&Summary::identity(42), 42, 0, 0, 0, 0);
}

#[test]
fn extend_counts_and_sums() {
    let s = fold(1, &[(TransactionType::Credit, 100), (TransactionType::Debit, 30)]);
    check(&s, 1, 2, 70, -30, 100);
}

#[test]
fn first_amount_replaces_the_placeholder_zero() {
    let s = fold(1, &[(TransactionType::Credit, 10)]);
    check(&s, 1, 1, 10, 10, 10);
    let d = fold(1, &[(TransactionType::Debit, 10)]);
    check(&d, 1, 1, -10, -10, -10);
}

#[test]
fn a_real_zero_amount_is_counted() {
    let s = fold(1, &[(TransactionType::Credit, 0), (TransactionType::Credit, 5)]);
    check(&s, 1, 2, 5, 0, 5);
}

#[test]
fn merge_is_associative() {
    let a = fold(3, &[(TransactionType::Credit, 5), (TransactionType::Debit, 8)]);
    let b = fold(3, &[(TransactionType::Debit, 20)]);
    let c = fold(3, &[(TransactionType::Credit, 1), (TransactionType::Credit, 90)]);
    let left = a.merge(&b.merge(&c));
    let right = a.merge(&b).merge(&c);
    assert_eq!(left, right);
    check(&left, 3, 5, 68, -20, 90);
}

#[test]
fn merge_is_commutative() {
    let a = fold(3, &[(TransactionType::Credit, 5), (TransactionType::Debit, 8)]);
    let b = fold(3, &[(TransactionType::Debit, 20)]);
    assert_eq!(a.merge(&b), b.merge(&a));
    check(&a.merge(&b), 3, 3, -23, -20, 5);
}

#[test]
fn identity_is_neutral_on_both_sides() {
    let a = fold(3, &[(TransactionType::Credit, 5), (TransactionType::Credit, 8)]);
    let e = Summary::identity(3);
    assert_eq!(e.merge(&a), a);
    assert_eq!(a.merge(&e), a);
    assert_eq!(e.merge(&e), e);
    check(&e.merge(&a), 3, 2, 13, 5, 8);
}

#[test]
fn folding_agrees_with_merging_the_parts() {
    let all = [
        (TransactionType::Credit, 100),
        (TransactionType::Debit, 30),
        (TransactionType::Credit, 7),
        (TransactionType::Debit, 250),
        (TransactionType::Credit, 1),
    ];
    let whole = fold(9, &all);
    for cut in 0..=all.len() {
        let joined = fold(9, &all[..cut]).merge(&fold(9, &all[cut..]));
        assert_eq!(joined, whole);
    }
    let three = fold(9, &all[..1]).merge(&fold(9, &all[1..1])).merge(&fold(9, &all[1..4])).merge(
        &fold(9, &all[4..]),
    );
    assert_eq!(three, whole);
    check(&whole, 9, 5, -172, -250, 100);
}

#[test]
fn order_of_arrival_does_not_matter() {
    let one = fold(
        2,
        &[(TransactionType::Credit, 4), (TransactionType::Debit, 9), (TransactionType::Credit, 4)],
    );
    let two = fold(
        2,
        &[(TransactionType::Debit, 9), (TransactionType::Credit, 4), (TransactionType::Credit, 4)],
    );
    let three = fold(
        2,
        &[(TransactionType::Credit, 4), (TransactionType::Credit, 4), (TransactionType::Debit, 9)],
    );
    assert_eq!(one, two);
    assert_eq!(two, three);
    check(&one, 2, 3, -1, -9, 4);
}

#[test]
fn totals_beyond_sixty_four_bits_are_exact() {
    let s = fold(1, &[(TransactionType::Credit, i64::MAX), (TransactionType::Credit, i64::MAX)]);
    check(&s, 1, 2, 2 * (i64::MAX as i128), i64::MAX as i128, i64::MAX as i128);
}
