//! The mapping from `(user_id, date)` to the summary of the bucket, filled
//! one transaction at a time.

use vstd::prelude::*;
use crate::algebra::{summarize_facts, summarize_push};
use crate::combining::{join_begins, join_ends, join_inserts, join_merge_fits, join_merges, joined};
use crate::order::{key_before, key_lt, key_lt_irreflexive, key_lt_total, key_lt_transitive, Key};
use crate::summary::{summarize, Summary, SummaryView};
use crate::transaction::{Transaction, TransactionView};

verus! {

/// Mathematical content of a [`Bucket`].
pub ghost struct BucketView {
    pub user_id: int,
    pub date: Seq<char>,
    pub summary: SummaryView,
}

impl BucketView {
    /// The user and date that name the bucket.
    pub open spec fn key(self) -> Key {
        (self.user_id, self.date)
    }
}

/// The summary of one user on one date.
#[derive(Clone, Debug)]
pub struct Bucket {
    pub user_id: i64,
    pub date: String,
    pub summary: Summary,
}

impl View for Bucket {
    type V = BucketView;

    open spec fn view(&self) -> BucketView {
        BucketView { user_id: self.user_id as int, date: self.date@, summary: self.summary@ }
    }
}

/// The signed amounts, in the order of arrival, of the transactions that
/// fall into one bucket.
pub open spec fn amounts_for(txns: Seq<TransactionView>, key: Key) -> Seq<int>
    decreases txns.len(),
{
    if txns.len() == 0 {
        Seq::empty()
    } else if txns.last().key() == key {
        amounts_for(txns.drop_last(), key).push(txns.last().signed_amount())
    } else {
        amounts_for(txns.drop_last(), key)
    }
}

/// The summary of the transactions that fall into one bucket.
pub open spec fn bucket_summary(txns: Seq<TransactionView>, key: Key) -> SummaryView {
    summarize(key.0, amounts_for(txns, key))
}

/// Buckets listed by user and, for one user, by date, each bucket once.
pub open spec fn sorted_by_key(entries: Seq<BucketView>) -> bool {
    forall|i: int, j: int|
        0 <= i < j < entries.len() ==> key_lt(
            (#[trigger] entries[i]).key(),
            (#[trigger] entries[j]).key(),
        )
}

/// Whether a list of buckets holds one of the given key.
pub open spec fn has_bucket(entries: Seq<BucketView>, key: Key) -> bool {
    exists|i: int| 0 <= i < entries.len() && (#[trigger] entries[i]).key() == key
}

/// What it means for a list of buckets to be the grouping of a list of
/// transactions: the buckets are in order, there is one for each key that
/// occurs among the transactions and for no other, and each holds the
/// summary of the amounts that fall into it.
pub open spec fn groups(entries: Seq<BucketView>, txns: Seq<TransactionView>) -> bool {
    &&& sorted_by_key(entries)
    &&& forall|i: int|
        0 <= i < entries.len() ==> amounts_for(txns, (#[trigger] entries[i]).key()).len() > 0
    &&& forall|i: int|
        0 <= i < entries.len() ==> (#[trigger] entries[i]).summary == bucket_summary(
            txns,
            entries[i].key(),
        )
    &&& forall|j: int| 0 <= j < txns.len() ==> has_bucket(entries, (#[trigger] txns[j]).key())
}

/// One more transaction adds its amount to its own bucket and to no other.
pub proof fn amounts_for_push(txns: Seq<TransactionView>, txn: TransactionView, key: Key)
    ensures
        txn.key() == key ==> amounts_for(txns.push(txn), key) == amounts_for(txns, key).push(
            txn.signed_amount(),
        ),
        txn.key() != key ==> amounts_for(txns.push(txn), key) == amounts_for(txns, key),
{
    assert(txns.push(txn).drop_last() =~= txns);
}

/// A bucket holds no more amounts than there are transactions, and it holds
/// one only if some transaction has its key.
pub proof fn amounts_for_bounds(txns: Seq<TransactionView>, key: Key)
    ensures
        amounts_for(txns, key).len() <= txns.len(),
        amounts_for(txns, key).len() > 0 ==> exists|j: int|
            0 <= j < txns.len() && (#[trigger] txns[j]).key() == key,
    decreases txns.len(),
{
    if txns.len() > 0 {
        amounts_for_bounds(txns.drop_last(), key);
        if txns.last().key() == key {
            assert(txns[txns.len() - 1].key() == key);
        } else if amounts_for(txns, key).len() > 0 {
            let j = choose|j: int|
                0 <= j < txns.drop_last().len() && (#[trigger] txns.drop_last()[j]).key() == key;
            assert(txns[j].key() == key);
        }
    }
}

/// The buckets of a run, kept in the order in which they are reported.
pub struct Buckets {
    items: Vec<Bucket>,
    history: Ghost<Seq<TransactionView>>,
}

impl Buckets {
    /// The buckets, in order.
    pub closed spec fn entries(&self) -> Seq<BucketView> {
        self.items@.map_values(|b: Bucket| b@)
    }

    /// The transactions folded in so far, in the order of arrival.
    pub closed spec fn txns(&self) -> Seq<TransactionView> {
        self.history@
    }

    /// The buckets are the grouping of the transactions folded in.
    pub open spec fn wf(&self) -> bool {
        groups(self.entries(), self.txns())
    }

    /// No buckets: the grouping of no transactions.
    pub fn new() -> (buckets: Buckets)
        ensures
            buckets.wf(),
            buckets.txns() == Seq::<TransactionView>::empty(),
            buckets.entries() == Seq::<BucketView>::empty(),
    {
        Buckets { items: Vec::new(), history: Ghost(Seq::empty()) }
    }

    /// Number of buckets.
    pub fn len(&self) -> (n: usize)
        ensures
            n == self.entries().len(),
    {
        self.items.len()
    }

    /// The bucket at a position of the list.
    pub fn get(&self, index: usize) -> (bucket: &Bucket)
        requires
            index < self.entries().len(),
        ensures
            bucket@ == self.entries()[index as int],
    {
        &self.items[index]
    }

    /// Number of buckets whose key comes before the given one: the position
    /// at which a bucket of that key stands or would be put.
    fn rank(&self, user_id: i64, date: &str) -> (at: usize)
        requires
            sorted_by_key(self.entries()),
        ensures
            at <= self.entries().len(),
            forall|i: int|
                0 <= i < at ==> key_lt(
                    (#[trigger] self.entries()[i]).key(),
                    (user_id as int, date@),
                ),
            forall|i: int|
                at <= i < self.entries().len() ==> !key_lt(
                    (#[trigger] self.entries()[i]).key(),
                    (user_id as int, date@),
                ),
    {
        let ghost key = (user_id as int, date@);
        let ghost entries = self.entries();
        let mut lo: usize = 0;
        let mut hi: usize = self.items.len();
        while lo < hi
            invariant
                lo <= hi <= entries.len(),
                entries == self.entries(),
                key == (user_id as int, date@),
                sorted_by_key(entries),
                forall|i: int| 0 <= i < lo ==> key_lt((#[trigger] entries[i]).key(), key),
                forall|i: int| hi <= i < entries.len() ==> !key_lt((#[trigger] entries[i]).key(), key),
            decreases hi - lo,
        {
            let mid = lo + (hi - lo) / 2;
            let probe = &self.items[mid];
            assert(entries[mid as int] == probe@);
            if key_before(probe.user_id, probe.date.as_str(), user_id, date) {
                assert forall|i: int| 0 <= i < mid + 1 implies key_lt(
                    (#[trigger] entries[i]).key(),
                    key,
                ) by {
                    if i < mid {
                        key_lt_transitive(entries[i].key(), entries[mid as int].key(), key);
                    }
                }
                lo = mid + 1;
            } else {
                assert forall|i: int| mid <= i < entries.len() implies !key_lt(
                    (#[trigger] entries[i]).key(),
                    key,
                ) by {
                    if mid < i && key_lt(entries[i].key(), key) {
                        key_lt_transitive(entries[mid as int].key(), entries[i].key(), key);
                    }
                }
                hi = mid;
            }
        }
        lo
    }

    /// The summary of a bucket, if any transaction fell into it.
    pub fn lookup(&self, user_id: i64, date: &str) -> (found: Option<Summary>)
        requires
            self.wf(),
        ensures
            (match found {
                Some(summary) => summary@ == bucket_summary(self.txns(), (user_id as int, date@))
                    && amounts_for(self.txns(), (user_id as int, date@)).len() > 0,
                None => amounts_for(self.txns(), (user_id as int, date@)).len() == 0,
            }),
    {
        let at = self.rank(user_id, date);
        if at < self.items.len() && !key_before(
            user_id,
            date,
            self.items[at].user_id,
            self.items[at].date.as_str(),
        ) {
            proof {
                assert(self.entries()[at as int] == self.items[at as int]@);
                key_lt_total((user_id as int, date@), self.entries()[at as int].key());
            }
            Some(self.items[at].summary)
        } else {
            proof {
                if at < self.items.len() {
                    assert(self.entries()[at as int] == self.items[at as int]@);
                    key_lt_irreflexive((user_id as int, date@));
                }
            }
            proof {
                self.absent((user_id as int, date@), at as int);
            }
            None
        }
    }

    /// A key that does not stand at its rank stands nowhere in the list,
    /// and no transaction has it.
    proof fn absent(&self, key: Key, at: int)
        requires
            self.wf(),
            0 <= at <= self.entries().len(),
            forall|i: int| 0 <= i < at ==> key_lt((#[trigger] self.entries()[i]).key(), key),
            forall|i: int|
                at <= i < self.entries().len() ==> !key_lt((#[trigger] self.entries()[i]).key(), key),
            at < self.entries().len() ==> self.entries()[at].key() != key,
        ensures
            forall|i: int| 0 <= i < self.entries().len() ==> (#[trigger] self.entries()[i]).key() != key,
            forall|i: int|
                at <= i < self.entries().len() ==> key_lt(key, (#[trigger] self.entries()[i]).key()),
            amounts_for(self.txns(), key).len() == 0,
    {
        let entries = self.entries();
        assert forall|i: int| at <= i < entries.len() implies key_lt(
            key,
            (#[trigger] entries[i]).key(),
        ) by {
            key_lt_total(key, entries[at].key());
            if at < i {
                key_lt_transitive(key, entries[at].key(), entries[i].key());
            }
        }
        assert forall|i: int| 0 <= i < entries.len() implies (#[trigger] entries[i]).key() != key by {
            key_lt_irreflexive(key);
        }
        amounts_for_bounds(self.txns(), key);
    }

    /// Folds one transaction into the bucket of its user and date, which is
    /// made first if this is its first transaction. No other bucket changes.
    pub fn add(&mut self, txn: &Transaction)
        requires
            old(self).wf(),
            old(self).txns().len() < u64::MAX,
        ensures
            final(self).wf(),
            final(self).txns() == old(self).txns().push(txn@),
    {
        let ghost key = txn@.key();
        let ghost before = self.entries();
        let ghost txns = self.txns();
        let at = self.rank(txn.user_id, txn.date.as_str());
        if at < self.items.len() && !key_before(
            txn.user_id,
            txn.date.as_str(),
            self.items[at].user_id,
            self.items[at].date.as_str(),
        ) {
            let found = &self.items[at];
            proof {
                assert(before[at as int] == found@);
                key_lt_total(key, before[at as int].key());
                amounts_for_bounds(txns, key);
                summarize_facts(found.user_id as int, amounts_for(txns, key));
            }
            let bucket = Bucket {
                user_id: found.user_id,
                date: found.date.clone(),
                summary: found.summary.extend(txn),
            };
            let ghost entry = bucket@;
            self.items.set(at, bucket);
            self.history = Ghost(txns.push(txn@));
            proof {
                assert(self.entries() =~= before.update(at as int, entry));
                groups_after_update(before, txns, txn@, at as int);
            }
        } else {
            proof {
                if at < self.items.len() {
                    assert(before[at as int] == self.items[at as int]@);
                    key_lt_irreflexive(key);
                }
                self.absent(key, at as int);
            }
            let bucket = Bucket {
                user_id: txn.user_id,
                date: txn.date.clone(),
                summary: Summary::identity(txn.user_id).extend(txn),
            };
            let ghost entry = bucket@;
            self.items.insert(at, bucket);
            self.history = Ghost(txns.push(txn@));
            proof {
                assert(self.entries() =~= before.insert(at as int, entry));
                groups_after_insert(before, txns, txn@, at as int);
            }
        }
    }
}

impl Buckets {
    /// Takes in the buckets of another partial run: a bucket that both runs
    /// have becomes the merge of the two, and a bucket that only the other
    /// run has is taken as it is. The result is the grouping of the
    /// transactions of both runs, those of `self` first: the same buckets as
    /// one run over all of them.
    pub fn combine(&mut self, other: &Buckets)
        requires
            old(self).wf(),
            other.wf(),
            old(self).txns().len() + other.txns().len() <= u64::MAX,
        ensures
            final(self).wf(),
            final(self).txns() == old(self).txns() + other.txns(),
    {
        let ghost first = self.txns();
        let ghost second = other.txns();
        let ghost theirs = other.entries();
        proof {
            join_begins(self.entries(), first, second);
            assert(theirs.take(0) =~= Seq::<BucketView>::empty());
        }
        let mut next: usize = 0;
        while next < other.items.len()
            invariant
                next <= theirs.len(),
                theirs == other.entries(),
                groups(theirs, second),
                joined(self.entries(), first, second, theirs.take(next as int)),
                first.len() + second.len() <= u64::MAX,
            decreases theirs.len() - next,
        {
            let ghost before = self.entries();
            let arriving = &other.items[next];
            assert(theirs[next as int] == arriving@);
            let ghost key = arriving@.key();
            let at = self.rank(arriving.user_id, arriving.date.as_str());
            if at < self.items.len() && !key_before(
                arriving.user_id,
                arriving.date.as_str(),
                self.items[at].user_id,
                self.items[at].date.as_str(),
            ) {
                let found = &self.items[at];
                proof {
                    assert(before[at as int] == found@);
                    key_lt_total(key, before[at as int].key());
                    join_merge_fits(before, first, second, theirs, next as int, at as int);
                }
                let bucket = Bucket {
                    user_id: found.user_id,
                    date: found.date.clone(),
                    summary: found.summary.merge(&arriving.summary),
                };
                let ghost entry = bucket@;
                self.items.set(at, bucket);
                proof {
                    assert(self.entries() =~= before.update(at as int, entry));
                    join_merges(before, first, second, theirs, next as int, at as int);
                }
            } else {
                proof {
                    if at < self.items.len() {
                        assert(before[at as int] == self.items[at as int]@);
                    }
                    assert forall|i: int| at <= i < before.len() implies key_lt(
                        key,
                        (#[trigger] before[i]).key(),
                    ) by {
                        key_lt_total(key, before[at as int].key());
                        if at < i {
                            key_lt_transitive(key, before[at as int].key(), before[i].key());
                        }
                    }
                }
                let bucket = Bucket {
                    user_id: arriving.user_id,
                    date: arriving.date.clone(),
                    summary: arriving.summary,
                };
                let ghost entry = bucket@;
                self.items.insert(at, bucket);
                proof {
                    assert(self.entries() =~= before.insert(at as int, entry));
                    join_inserts(before, first, second, theirs, next as int, at as int);
                }
            }
            next = next + 1;
        }
        proof {
            assert(theirs.take(next as int) =~= theirs);
            join_ends(self.entries(), first, second, theirs);
        }
        self.history = Ghost(first + second);
    }
}

/// The bucket that a transaction lands in, seen from that bucket before.
pub open spec fn extended(entry: BucketView, txn: TransactionView) -> BucketView {
    BucketView { summary: entry.summary.extend(txn.signed_amount()), ..entry }
}

/// The bucket that the first transaction of a key makes.
pub open spec fn opened(txn: TransactionView) -> BucketView {
    BucketView {
        user_id: txn.user_id,
        date: txn.date,
        summary: SummaryView::identity(txn.user_id).extend(txn.signed_amount()),
    }
}

/// Folding a transaction into the bucket of its key keeps the grouping.
proof fn groups_after_update(
    before: Seq<BucketView>,
    txns: Seq<TransactionView>,
    txn: TransactionView,
    at: int,
)
    requires
        groups(before, txns),
        0 <= at < before.len(),
        before[at].key() == txn.key(),
    ensures
        groups(before.update(at, extended(before[at], txn)), txns.push(txn)),
{
    let key = txn.key();
    let entries = before.update(at, extended(before[at], txn));
    let after = txns.push(txn);
    assert forall|i: int, j: int| 0 <= i < j < entries.len() implies key_lt(
        (#[trigger] entries[i]).key(),
        (#[trigger] entries[j]).key(),
    ) by {
        assert(key_lt(before[i].key(), before[j].key()));
    }
    assert forall|i: int| 0 <= i < entries.len() implies amounts_for(
        after,
        (#[trigger] entries[i]).key(),
    ).len() > 0 && entries[i].summary == bucket_summary(after, entries[i].key()) by {
        amounts_for_push(txns, txn, entries[i].key());
        summarize_push(entries[i].user_id, amounts_for(txns, key), txn.signed_amount());
        if i != at {
            assert(entries[i] == before[i]);
            if i < at {
                assert(key_lt(before[i].key(), before[at].key()));
            } else {
                assert(key_lt(before[at].key(), before[i].key()));
            }
            key_lt_irreflexive(key);
        }
    }
    assert forall|j: int| 0 <= j < after.len() implies has_bucket(
        entries,
        (#[trigger] after[j]).key(),
    ) by {
        if j < txns.len() {
            assert(has_bucket(before, txns[j].key()));
            let i = choose|i: int|
                0 <= i < before.len() && (#[trigger] before[i]).key() == txns[j].key();
            assert(entries[i].key() == after[j].key());
        } else {
            assert(entries[at].key() == after[j].key());
        }
    }
}

/// Putting the bucket of a new key at its rank keeps the grouping.
proof fn groups_after_insert(
    before: Seq<BucketView>,
    txns: Seq<TransactionView>,
    txn: TransactionView,
    at: int,
)
    requires
        groups(before, txns),
        0 <= at <= before.len(),
        forall|i: int| 0 <= i < at ==> key_lt((#[trigger] before[i]).key(), txn.key()),
        forall|i: int| at <= i < before.len() ==> key_lt(txn.key(), (#[trigger] before[i]).key()),
        amounts_for(txns, txn.key()).len() == 0,
    ensures
        groups(before.insert(at, opened(txn)), txns.push(txn)),
{
    let key = txn.key();
    let entries = before.insert(at, opened(txn));
    let after = txns.push(txn);
    assert forall|i: int, j: int| 0 <= i < j < entries.len() implies key_lt(
        (#[trigger] entries[i]).key(),
        (#[trigger] entries[j]).key(),
    ) by {
        let bi = if i < at { i } else { i - 1 };
        let bj = if j < at { j } else { j - 1 };
        if i != at && j != at {
            assert(key_lt(before[bi].key(), before[bj].key()));
        } else if i == at {
            assert(entries[j] == before[bj]);
        } else {
            assert(entries[i] == before[bi]);
        }
    }
    assert forall|i: int| 0 <= i < entries.len() implies amounts_for(
        after,
        (#[trigger] entries[i]).key(),
    ).len() > 0 && entries[i].summary == bucket_summary(after, entries[i].key()) by {
        amounts_for_push(txns, txn, entries[i].key());
        if i == at {
            assert(amounts_for(txns, key) =~= Seq::<int>::empty());
            summarize_push(key.0, Seq::<int>::empty(), txn.signed_amount());
        } else {
            let bi = if i < at { i } else { i - 1 };
            assert(entries[i] == before[bi]);
            key_lt_irreflexive(key);
        }
    }
    assert forall|j: int| 0 <= j < after.len() implies has_bucket(
        entries,
        (#[trigger] after[j]).key(),
    ) by {
        if j < txns.len() {
            assert(has_bucket(before, txns[j].key()));
            let b = choose|b: int|
                0 <= b < before.len() && (#[trigger] before[b]).key() == txns[j].key();
            let i = if b < at { b } else { b + 1 };
            assert(entries[i] == before[b]);
        } else {
            assert(entries[at].key() == after[j].key());
        }
    }
}

} // verus!
