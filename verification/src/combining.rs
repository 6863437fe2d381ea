//! Joining the buckets of two partial runs: what holds while the buckets of
//! the second run are taken into those of the first, one at a time.

use vstd::prelude::*;
use crate::algebra::{merge_identity, summarize_concat, summarize_facts};
use crate::grouping::{amounts_for, amounts_for_bounds, bucket_summary, groups, has_bucket, sorted_by_key, BucketView};
use crate::order::{key_lt, key_lt_irreflexive, Key};
use crate::summary::SummaryView;
use crate::transaction::TransactionView;

verus! {

/// What a bucket of the second run adds to a key, once it has been taken
/// in.
pub open spec fn share(taken: Seq<BucketView>, txns: Seq<TransactionView>, key: Key) -> SummaryView {
    if has_bucket(taken, key) {
        bucket_summary(txns, key)
    } else {
        SummaryView::identity(key.0)
    }
}

/// The state between two steps of a join: the buckets hold all of the first
/// run and, of the second run, the buckets taken in so far.
pub open spec fn joined(
    entries: Seq<BucketView>,
    first: Seq<TransactionView>,
    second: Seq<TransactionView>,
    taken: Seq<BucketView>,
) -> bool {
    &&& sorted_by_key(entries)
    &&& forall|i: int| 0 <= i < entries.len() ==> (#[trigger] entries[i]).summary.count > 0
    &&& forall|i: int|
        0 <= i < entries.len() ==> (#[trigger] entries[i]).summary == bucket_summary(
            first,
            entries[i].key(),
        ).merge(share(taken, second, entries[i].key()))
    &&& forall|j: int| 0 <= j < first.len() ==> has_bucket(entries, (#[trigger] first[j]).key())
    &&& forall|m: int| 0 <= m < taken.len() ==> has_bucket(entries, (#[trigger] taken[m]).key())
}

/// The amounts of a bucket over two runs in a row are those of the first
/// run followed by those of the second.
pub proof fn amounts_for_concat(first: Seq<TransactionView>, second: Seq<TransactionView>, key: Key)
    ensures
        amounts_for(first + second, key) == amounts_for(first, key) + amounts_for(second, key),
    decreases second.len(),
{
    if second.len() == 0 {
        assert(first + second =~= first);
        assert(amounts_for(first, key) + amounts_for(second, key) =~= amounts_for(first, key));
    } else {
        assert((first + second).drop_last() =~= first + second.drop_last());
        assert((first + second).last() == second.last());
        amounts_for_concat(first, second.drop_last(), key);
        assert(amounts_for(first + second, key) =~= amounts_for(first, key) + amounts_for(
            second,
            key,
        ));
    }
}

/// Before any bucket of the second run is taken in, the buckets of the
/// first run are the state of the join.
pub(crate) proof fn join_begins(
    entries: Seq<BucketView>,
    first: Seq<TransactionView>,
    second: Seq<TransactionView>,
)
    requires
        groups(entries, first),
    ensures
        joined(entries, first, second, Seq::empty()),
{
    assert forall|i: int| 0 <= i < entries.len() implies (#[trigger] entries[i]).summary.count > 0
        && entries[i].summary == bucket_summary(first, entries[i].key()).merge(
        share(Seq::empty(), second, entries[i].key()),
    ) by {
        summarize_facts(entries[i].user_id, amounts_for(first, entries[i].key()));
        merge_identity(entries[i].summary);
    }
}

/// A key that no bucket of a run has is the key of none of its
/// transactions.
proof fn no_bucket_no_amounts(entries: Seq<BucketView>, txns: Seq<TransactionView>, key: Key)
    requires
        forall|j: int| 0 <= j < txns.len() ==> has_bucket(entries, (#[trigger] txns[j]).key()),
        !has_bucket(entries, key),
    ensures
        amounts_for(txns, key) == Seq::<int>::empty(),
{
    amounts_for_bounds(txns, key);
    assert(amounts_for(txns, key) =~= Seq::<int>::empty());
}

/// Taking one more bucket of the second run changes the share of its own
/// key, which was empty before, and of no other.
proof fn share_after(
    other: Seq<BucketView>,
    second: Seq<TransactionView>,
    next: int,
    key: Key,
)
    requires
        groups(other, second),
        0 <= next < other.len(),
    ensures
        key != other[next].key() ==> share(other.take(next + 1), second, key) == share(
            other.take(next),
            second,
            key,
        ),
        share(other.take(next + 1), second, other[next].key()) == other[next].summary,
        share(other.take(next), second, other[next].key()) == SummaryView::identity(
            other[next].user_id,
        ),
{
    let before = other.take(next);
    let after = other.take(next + 1);
    assert(after[next] == other[next]);
    if has_bucket(before, other[next].key()) {
        let i = choose|i: int| 0 <= i < before.len() && (#[trigger] before[i]).key() == other[next].key();
        assert(before[i] == other[i]);
        assert(key_lt(other[i].key(), other[next].key()));
        key_lt_irreflexive(other[next].key());
    }
    if key != other[next].key() {
        if has_bucket(after, key) {
            let i = choose|i: int| 0 <= i < after.len() && (#[trigger] after[i]).key() == key;
            assert(after[i] == other[i]);
            assert(before[i] == other[i]);
        }
        if has_bucket(before, key) {
            let i = choose|i: int| 0 <= i < before.len() && (#[trigger] before[i]).key() == key;
            assert(after[i] == before[i]);
        }
    }
}

/// Two buckets of one key that are about to be merged belong to the same
/// user, and together they count no more transactions than the two runs
/// have.
pub(crate) proof fn join_merge_fits(
    entries: Seq<BucketView>,
    first: Seq<TransactionView>,
    second: Seq<TransactionView>,
    other: Seq<BucketView>,
    next: int,
    at: int,
)
    requires
        joined(entries, first, second, other.take(next)),
        groups(other, second),
        0 <= next < other.len(),
        0 <= at < entries.len(),
        entries[at].key() == other[next].key(),
    ensures
        entries[at].summary.user_id == other[next].summary.user_id,
        entries[at].summary.count + other[next].summary.count <= first.len() + second.len(),
{
    let key = other[next].key();
    share_after(other, second, next, key);
    summarize_facts(key.0, amounts_for(first, key));
    summarize_facts(key.0, amounts_for(second, key));
    amounts_for_bounds(first, key);
    amounts_for_bounds(second, key);
}

/// The bucket that takes in a bucket of the same key.
pub open spec fn merged_with(entry: BucketView, other: BucketView) -> BucketView {
    BucketView { summary: entry.summary.merge(other.summary), ..entry }
}

/// A bucket of the second run whose key the join holds already is merged
/// into the bucket of that key.
pub(crate) proof fn join_merges(
    entries: Seq<BucketView>,
    first: Seq<TransactionView>,
    second: Seq<TransactionView>,
    other: Seq<BucketView>,
    next: int,
    at: int,
)
    requires
        joined(entries, first, second, other.take(next)),
        groups(other, second),
        0 <= next < other.len(),
        0 <= at < entries.len(),
        entries[at].key() == other[next].key(),
    ensures
        joined(
            entries.update(at, merged_with(entries[at], other[next])),
            first,
            second,
            other.take(next + 1),
        ),
{
    let key = other[next].key();
    let after = entries.update(at, merged_with(entries[at], other[next]));
    let taken = other.take(next + 1);
    assert forall|i: int, j: int| 0 <= i < j < after.len() implies key_lt(
        (#[trigger] after[i]).key(),
        (#[trigger] after[j]).key(),
    ) by {
        assert(key_lt(entries[i].key(), entries[j].key()));
    }
    assert forall|i: int| 0 <= i < after.len() implies (#[trigger] after[i]).summary.count > 0
        && after[i].summary == bucket_summary(first, after[i].key()).merge(
        share(taken, second, after[i].key()),
    ) by {
        share_after(other, second, next, after[i].key());
        assert(entries[i].summary.count > 0);
        if i == at {
            summarize_facts(key.0, amounts_for(first, key));
            merge_identity(bucket_summary(first, key));
        } else {
            assert(after[i] == entries[i]);
            if i < at {
                assert(key_lt(entries[i].key(), entries[at].key()));
            } else {
                assert(key_lt(entries[at].key(), entries[i].key()));
            }
            key_lt_irreflexive(key);
        }
    }
    assert forall|j: int| 0 <= j < first.len() implies has_bucket(
        after,
        (#[trigger] first[j]).key(),
    ) by {
        assert(has_bucket(entries, first[j].key()));
        let i = choose|i: int| 0 <= i < entries.len() && (#[trigger] entries[i]).key() == first[j].key();
        assert(after[i].key() == first[j].key());
    }
    assert forall|m: int| 0 <= m < taken.len() implies has_bucket(
        after,
        (#[trigger] taken[m]).key(),
    ) by {
        if m < next {
            assert(other.take(next)[m] == taken[m]);
            assert(has_bucket(entries, other.take(next)[m].key()));
            let i = choose|i: int|
                0 <= i < entries.len() && (#[trigger] entries[i]).key() == taken[m].key();
            assert(after[i].key() == taken[m].key());
        } else {
            assert(after[at].key() == taken[m].key());
        }
    }
}

/// A bucket of the second run whose key the join does not hold yet is put
/// in at its place.
pub(crate) proof fn join_inserts(
    entries: Seq<BucketView>,
    first: Seq<TransactionView>,
    second: Seq<TransactionView>,
    other: Seq<BucketView>,
    next: int,
    at: int,
)
    requires
        joined(entries, first, second, other.take(next)),
        groups(other, second),
        0 <= next < other.len(),
        0 <= at <= entries.len(),
        forall|i: int| 0 <= i < at ==> key_lt((#[trigger] entries[i]).key(), other[next].key()),
        forall|i: int|
            at <= i < entries.len() ==> key_lt(other[next].key(), (#[trigger] entries[i]).key()),
    ensures
        joined(entries.insert(at, other[next]), first, second, other.take(next + 1)),
{
    let key = other[next].key();
    let after = entries.insert(at, other[next]);
    let taken = other.take(next + 1);
    key_lt_irreflexive(key);
    assert(!has_bucket(entries, key)) by {
        if has_bucket(entries, key) {
            let i = choose|i: int| 0 <= i < entries.len() && (#[trigger] entries[i]).key() == key;
            assert(key_lt(entries[i].key(), key) || key_lt(key, entries[i].key()));
        }
    }
    no_bucket_no_amounts(entries, first, key);
    assert forall|i: int, j: int| 0 <= i < j < after.len() implies key_lt(
        (#[trigger] after[i]).key(),
        (#[trigger] after[j]).key(),
    ) by {
        let bi = if i < at { i } else { i - 1 };
        let bj = if j < at { j } else { j - 1 };
        if i != at && j != at {
            assert(key_lt(entries[bi].key(), entries[bj].key()));
        } else if i == at {
            assert(after[j] == entries[bj]);
        } else {
            assert(after[i] == entries[bi]);
        }
    }
    assert forall|i: int| 0 <= i < after.len() implies (#[trigger] after[i]).summary.count > 0
        && after[i].summary == bucket_summary(first, after[i].key()).merge(
        share(taken, second, after[i].key()),
    ) by {
        share_after(other, second, next, after[i].key());
        if i == at {
            summarize_facts(key.0, amounts_for(second, key));
            merge_identity(other[next].summary);
        } else {
            let bi = if i < at { i } else { i - 1 };
            assert(after[i] == entries[bi]);
            assert(entries[bi].summary.count > 0);
            assert(key_lt(entries[bi].key(), key) || key_lt(key, entries[bi].key()));
        }
    }
    assert forall|j: int| 0 <= j < first.len() implies has_bucket(
        after,
        (#[trigger] first[j]).key(),
    ) by {
        assert(has_bucket(entries, first[j].key()));
        let b = choose|b: int| 0 <= b < entries.len() && (#[trigger] entries[b]).key() == first[j].key();
        let i = if b < at { b } else { b + 1 };
        assert(after[i] == entries[b]);
    }
    assert forall|m: int| 0 <= m < taken.len() implies has_bucket(
        after,
        (#[trigger] taken[m]).key(),
    ) by {
        if m < next {
            assert(other.take(next)[m] == taken[m]);
            assert(has_bucket(entries, other.take(next)[m].key()));
            let b = choose|b: int|
                0 <= b < entries.len() && (#[trigger] entries[b]).key() == taken[m].key();
            let i = if b < at { b } else { b + 1 };
            assert(after[i] == entries[b]);
        } else {
            assert(after[at].key() == taken[m].key());
        }
    }
}

/// Once every bucket of the second run is taken in, the buckets are the
/// grouping of the transactions of both runs in a row.
pub(crate) proof fn join_ends(
    entries: Seq<BucketView>,
    first: Seq<TransactionView>,
    second: Seq<TransactionView>,
    other: Seq<BucketView>,
)
    requires
        joined(entries, first, second, other),
        groups(other, second),
    ensures
        groups(entries, first + second),
{
    let both = first + second;
    assert forall|i: int| 0 <= i < entries.len() implies amounts_for(
        both,
        (#[trigger] entries[i]).key(),
    ).len() > 0 && entries[i].summary == bucket_summary(both, entries[i].key()) by {
        let key = entries[i].key();
        if !has_bucket(other, key) {
            no_bucket_no_amounts(other, second, key);
        }
        amounts_for_concat(first, second, key);
        summarize_concat(key.0, amounts_for(first, key), amounts_for(second, key));
        summarize_facts(key.0, amounts_for(both, key));
        assert(entries[i].summary.count > 0);
    }
    assert forall|j: int| 0 <= j < both.len() implies has_bucket(
        entries,
        (#[trigger] both[j]).key(),
    ) by {
        if j < first.len() {
            assert(both[j] == first[j]);
        } else {
            assert(both[j] == second[j - first.len()]);
            assert(has_bucket(other, second[j - first.len()].key()));
            let m = choose|m: int|
                0 <= m < other.len() && (#[trigger] other[m]).key() == both[j].key();
            assert(has_bucket(entries, other[m].key()));
        }
    }
}

} // verus!
