//! Why the grouping of a run is settled by its transactions alone, and not
//! by the order in which they arrive.

use vstd::prelude::*;
use crate::algebra::{summarize_facts, summarize_order_independent};
use crate::grouping::{amounts_for, amounts_for_bounds, bucket_summary, groups, has_bucket, sorted_by_key, BucketView};
use crate::order::{key_lt, key_lt_irreflexive, key_lt_transitive, Key};
use crate::engine::{accepted, record_outcome, RecordView};
use crate::parser::Schema;
use crate::transaction::TransactionView;

verus! {

/// In a sorted list no key stands at two positions.
proof fn keys_differ(entries: Seq<BucketView>, i: int, j: int)
    requires
        sorted_by_key(entries),
        0 <= i < entries.len(),
        0 <= j < entries.len(),
        entries[i].key() == entries[j].key(),
    ensures
        i == j,
{
    key_lt_irreflexive(entries[i].key());
    if i < j {
        assert(key_lt(entries[i].key(), entries[j].key()));
    } else if j < i {
        assert(key_lt(entries[j].key(), entries[i].key()));
    }
}

/// Two sorted lists that hold the same keys hold them at the same
/// positions.
proof fn same_keys(a: Seq<BucketView>, b: Seq<BucketView>)
    requires
        sorted_by_key(a),
        sorted_by_key(b),
        forall|i: int| 0 <= i < a.len() ==> has_bucket(b, (#[trigger] a[i]).key()),
        forall|i: int| 0 <= i < b.len() ==> has_bucket(a, (#[trigger] b[i]).key()),
    ensures
        a.len() == b.len(),
        forall|i: int| 0 <= i < a.len() ==> (#[trigger] a[i]).key() == b[i].key(),
    decreases a.len(),
{
    if a.len() == 0 {
        if b.len() > 0 {
            assert(has_bucket(a, b[0].key()));
        }
    } else {
        let last_a = a.len() - 1;
        assert(has_bucket(b, a[last_a].key()));
        let j = choose|j: int| 0 <= j < b.len() && (#[trigger] b[j]).key() == a[last_a].key();
        let last_b = b.len() - 1;
        assert(has_bucket(a, b[last_b].key()));
        let i = choose|i: int| 0 <= i < a.len() && (#[trigger] a[i]).key() == b[last_b].key();
        if j < last_b {
            assert(key_lt(b[j].key(), b[last_b].key()));
            if i < last_a {
                assert(key_lt(a[i].key(), a[last_a].key()));
                key_lt_transitive(a[last_a].key(), b[last_b].key(), a[last_a].key());
            }
            key_lt_irreflexive(a[last_a].key());
        }
        let shorter_a = a.drop_last();
        let shorter_b = b.drop_last();
        assert forall|m: int| 0 <= m < shorter_a.len() implies has_bucket(
            shorter_b,
            (#[trigger] shorter_a[m]).key(),
        ) by {
            assert(has_bucket(b, a[m].key()));
            let n = choose|n: int| 0 <= n < b.len() && (#[trigger] b[n]).key() == a[m].key();
            if n == last_b {
                keys_differ(a, m, last_a);
            }
            assert(shorter_b[n].key() == shorter_a[m].key());
        }
        assert forall|m: int| 0 <= m < shorter_b.len() implies has_bucket(
            shorter_a,
            (#[trigger] shorter_b[m]).key(),
        ) by {
            assert(has_bucket(a, b[m].key()));
            let n = choose|n: int| 0 <= n < a.len() && (#[trigger] a[n]).key() == b[m].key();
            if n == last_a {
                keys_differ(b, m, last_b);
            }
            assert(shorter_a[n].key() == shorter_b[m].key());
        }
        assert forall|m: int, n: int| 0 <= m < n < shorter_a.len() implies key_lt(
            (#[trigger] shorter_a[m]).key(),
            (#[trigger] shorter_a[n]).key(),
        ) by {
            assert(key_lt(a[m].key(), a[n].key()));
        }
        assert forall|m: int, n: int| 0 <= m < n < shorter_b.len() implies key_lt(
            (#[trigger] shorter_b[m]).key(),
            (#[trigger] shorter_b[n]).key(),
        ) by {
            assert(key_lt(b[m].key(), b[n].key()));
        }
        same_keys(shorter_a, shorter_b);
        assert forall|m: int| 0 <= m < a.len() implies (#[trigger] a[m]).key() == b[m].key() by {
            if m < last_a {
                assert(shorter_a[m].key() == shorter_b[m].key());
            }
        }
    }
}

/// Two runs whose transactions give every bucket the same summary have the
/// same list of buckets.
pub proof fn groups_determined(
    first: Seq<BucketView>,
    first_txns: Seq<TransactionView>,
    second: Seq<BucketView>,
    second_txns: Seq<TransactionView>,
)
    requires
        groups(first, first_txns),
        groups(second, second_txns),
        forall|key: Key| #[trigger]
            bucket_summary(first_txns, key) == bucket_summary(second_txns, key),
    ensures
        first == second,
{
    assert forall|i: int| 0 <= i < first.len() implies has_bucket(
        second,
        (#[trigger] first[i]).key(),
    ) by {
        holds_bucket(first[i].key(), first_txns, second, second_txns);
    }
    assert forall|i: int| 0 <= i < second.len() implies has_bucket(
        first,
        (#[trigger] second[i]).key(),
    ) by {
        assert(bucket_summary(first_txns, second[i].key()) == bucket_summary(
            second_txns,
            second[i].key(),
        ));
        holds_bucket(second[i].key(), second_txns, first, first_txns);
    }
    same_keys(first, second);
    assert forall|i: int| 0 <= i < first.len() implies first[i] == second[i] by {
        assert(first[i].key() == second[i].key());
        assert(bucket_summary(first_txns, first[i].key()) == bucket_summary(
            second_txns,
            first[i].key(),
        ));
    }
    assert(first =~= second);
}

/// A key whose bucket is not empty in one run has a bucket in every run
/// that gives it the same summary.
proof fn holds_bucket(
    key: Key,
    txns: Seq<TransactionView>,
    other: Seq<BucketView>,
    other_txns: Seq<TransactionView>,
)
    requires
        amounts_for(txns, key).len() > 0,
        groups(other, other_txns),
        bucket_summary(txns, key) == bucket_summary(other_txns, key),
    ensures
        has_bucket(other, key),
{
    summarize_facts(key.0, amounts_for(txns, key));
    summarize_facts(key.0, amounts_for(other_txns, key));
    amounts_for_bounds(other_txns, key);
    let j = choose|j: int| 0 <= j < other_txns.len() && (#[trigger] other_txns[j]).key() == key;
    assert(has_bucket(other, other_txns[j].key()));
}

/// The transactions of a run leave no choice: there is one list of buckets
/// that is their grouping.
pub proof fn grouping_is_unique(
    first: Seq<BucketView>,
    second: Seq<BucketView>,
    txns: Seq<TransactionView>,
)
    requires
        groups(first, txns),
        groups(second, txns),
    ensures
        first == second,
{
    groups_determined(first, txns, second, txns);
}

/// Taking a transaction out of a run takes its amount out of its bucket
/// and leaves what the other buckets hold.
proof fn amounts_for_remove(txns: Seq<TransactionView>, at: int, key: Key)
    requires
        0 <= at < txns.len(),
    ensures
        txns[at].key() == key ==> amounts_for(txns, key).to_multiset() == amounts_for(
            txns.remove(at),
            key,
        ).to_multiset().insert(txns[at].signed_amount()),
        txns[at].key() != key ==> amounts_for(txns, key).to_multiset() == amounts_for(
            txns.remove(at),
            key,
        ).to_multiset(),
    decreases txns.len(),
{
    broadcast use vstd::seq_lib::group_to_multiset_ensures;

    if at == txns.len() - 1 {
        assert(txns.remove(at) =~= txns.drop_last());
    } else {
        assert(txns.remove(at).drop_last() =~= txns.drop_last().remove(at));
        assert(txns.remove(at).last() == txns.last());
        assert(txns.drop_last()[at] == txns[at]);
        amounts_for_remove(txns.drop_last(), at, key);
        if txns.last().key() == key && txns[at].key() == key {
            assert(amounts_for(txns.drop_last(), key).to_multiset().insert(
                txns.last().signed_amount(),
            ) =~= amounts_for(txns.remove(at).drop_last(), key).to_multiset().insert(
                txns.last().signed_amount(),
            ).insert(txns[at].signed_amount()));
        }
    }
}

/// Rearranging the transactions of a run rearranges what each bucket
/// holds, and no more.
pub proof fn amounts_for_permuted(
    first: Seq<TransactionView>,
    second: Seq<TransactionView>,
    key: Key,
)
    requires
        first.to_multiset() == second.to_multiset(),
    ensures
        amounts_for(first, key).to_multiset() == amounts_for(second, key).to_multiset(),
    decreases first.len(),
{
    broadcast use vstd::seq_lib::group_to_multiset_ensures;

    if first.len() == 0 {
        assert(second.len() == 0) by {
            assert(first.len() == first.to_multiset().len());
            assert(second.len() == second.to_multiset().len());
        }
    } else {
        let last = first.last();
        assert(first[first.len() - 1] == last);
        assert(first.to_multiset().count(last) > 0);
        assert(second.to_multiset().count(last) > 0);
        assert(second.contains(last));
        let at = choose|at: int| 0 <= at < second.len() && second[at] == last;
        assert(first.drop_last() =~= first.remove(first.len() - 1));
        assert(first.drop_last().to_multiset() == second.remove(at).to_multiset());
        amounts_for_permuted(first.drop_last(), second.remove(at), key);
        amounts_for_remove(second, at, key);
    }
}

/// Shuffling the transactions of a run changes no bucket: two runs over the
/// same transactions, in whatever order, end with the same list of buckets.
pub proof fn grouping_ignores_order(
    first: Seq<BucketView>,
    first_txns: Seq<TransactionView>,
    second: Seq<BucketView>,
    second_txns: Seq<TransactionView>,
)
    requires
        groups(first, first_txns),
        groups(second, second_txns),
        first_txns.to_multiset() == second_txns.to_multiset(),
    ensures
        first == second,
{
    assert forall|key: Key| #[trigger]
        bucket_summary(first_txns, key) == bucket_summary(second_txns, key) by {
        amounts_for_permuted(first_txns, second_txns, key);
        summarize_order_independent(
            key.0,
            amounts_for(first_txns, key),
            amounts_for(second_txns, key),
        );
    }
    groups_determined(first, first_txns, second, second_txns);
}

/// Taking a record out of a table takes its transaction, if it has one, out
/// of the transactions of the table and leaves the others.
proof fn accepted_remove(schema: Schema, records: Seq<RecordView>, at: int)
    requires
        0 <= at < records.len(),
    ensures
        accepted(schema, records).to_multiset() == (match record_outcome(schema, records[at]) {
            Ok(txn) => accepted(schema, records.remove(at)).to_multiset().insert(txn),
            Err(_) => accepted(schema, records.remove(at)).to_multiset(),
        }),
    decreases records.len(),
{
    broadcast use vstd::seq_lib::group_to_multiset_ensures;

    if at == records.len() - 1 {
        assert(records.remove(at) =~= records.drop_last());
    } else {
        assert(records.remove(at).drop_last() =~= records.drop_last().remove(at));
        assert(records.remove(at).last() == records.last());
        assert(records.drop_last()[at] == records[at]);
        accepted_remove(schema, records.drop_last(), at);
        match (record_outcome(schema, records.last()), record_outcome(schema, records[at])) {
            (Ok(last), Ok(txn)) => {
                assert(accepted(schema, records.drop_last()).to_multiset().insert(last)
                    =~= accepted(schema, records.remove(at).drop_last()).to_multiset().insert(
                    last,
                ).insert(txn));
            },
            _ => {},
        }
    }
}

/// Rearranging the records of a table rearranges its transactions, and no
/// more.
pub proof fn accepted_permuted(schema: Schema, first: Seq<RecordView>, second: Seq<RecordView>)
    requires
        first.to_multiset() == second.to_multiset(),
    ensures
        accepted(schema, first).to_multiset() == accepted(schema, second).to_multiset(),
    decreases first.len(),
{
    broadcast use vstd::seq_lib::group_to_multiset_ensures;

    if first.len() == 0 {
        assert(second.len() == 0) by {
            assert(first.len() == first.to_multiset().len());
            assert(second.len() == second.to_multiset().len());
        }
    } else {
        let last = first.last();
        assert(first[first.len() - 1] == last);
        assert(first.to_multiset().count(last) > 0);
        assert(second.to_multiset().count(last) > 0);
        assert(second.contains(last));
        let at = choose|at: int| 0 <= at < second.len() && second[at] == last;
        assert(first.drop_last() =~= first.remove(first.len() - 1));
        assert(first.drop_last().to_multiset() == second.remove(at).to_multiset());
        accepted_permuted(schema, first.drop_last(), second.remove(at));
        accepted_remove(schema, second, at);
    }
}

/// Shuffling the records of a table changes no bucket: two runs over the
/// same records, in whatever order, end with the same list of buckets.
pub proof fn buckets_ignore_record_order(
    schema: Schema,
    first: Seq<BucketView>,
    first_records: Seq<RecordView>,
    second: Seq<BucketView>,
    second_records: Seq<RecordView>,
)
    requires
        groups(first, accepted(schema, first_records)),
        groups(second, accepted(schema, second_records)),
        first_records.to_multiset() == second_records.to_multiset(),
    ensures
        first == second,
{
    accepted_permuted(schema, first_records, second_records);
    grouping_ignores_order(
        first,
        accepted(schema, first_records),
        second,
        accepted(schema, second_records),
    );
}

} // verus!
