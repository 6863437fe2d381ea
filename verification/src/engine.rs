//! The grouping engine: it takes the records of a table one by one, decodes
//! each, folds the transactions into their buckets and sets the other
//! records aside. A record that cannot be decoded never ends the run.

use vstd::prelude::*;
use crate::grouping::{groups, BucketView, Buckets};
use crate::parser::{parse_row, row_outcome, FailureReason, Schema};
use crate::transaction::TransactionView;

verus! {

/// A record as it comes from the reader of the table: its fields, or
/// nothing where the reader could not split the record into text fields.
pub type RecordView = Option<Seq<Seq<char>>>;

/// A record that was set aside: its position among the records after the
/// header, counted from zero, and the reason.
#[derive(Clone, Copy, Debug, PartialEq, Eq, Structural)]
pub struct ParseFailure {
    pub row: usize,
    pub reason: FailureReason,
}

/// What decoding a record gives.
pub open spec fn record_outcome(schema: Schema, record: RecordView) -> Result<
    TransactionView,
    FailureReason,
> {
    match record {
        None => Err(FailureReason::Unreadable),
        Some(fields) => row_outcome(schema, fields),
    }
}

/// The transactions that the records decode to, in the order of the
/// records.
pub open spec fn accepted(schema: Schema, records: Seq<RecordView>) -> Seq<TransactionView>
    decreases records.len(),
{
    if records.len() == 0 {
        Seq::empty()
    } else {
        match record_outcome(schema, records.last()) {
            Ok(txn) => accepted(schema, records.drop_last()).push(txn),
            Err(_) => accepted(schema, records.drop_last()),
        }
    }
}

/// The records that do not decode, each with its position and its reason,
/// in the order of the records.
pub open spec fn rejected(schema: Schema, records: Seq<RecordView>) -> Seq<ParseFailure>
    decreases records.len(),
{
    if records.len() == 0 {
        Seq::empty()
    } else {
        match record_outcome(schema, records.last()) {
            Ok(_) => rejected(schema, records.drop_last()),
            Err(reason) => rejected(schema, records.drop_last()).push(
                ParseFailure { row: (records.len() - 1) as usize, reason },
            ),
        }
    }
}

/// There are no more transactions than records.
pub proof fn accepted_len(schema: Schema, records: Seq<RecordView>)
    ensures
        accepted(schema, records).len() <= records.len(),
    decreases records.len(),
{
    if records.len() > 0 {
        accepted_len(schema, records.drop_last());
    }
}

/// A record that does not decode leaves no trace among the transactions:
/// they are those of the same records without it, so no bucket is changed
/// by it.
pub proof fn malformed_record_is_skipped(schema: Schema, records: Seq<RecordView>, at: int)
    requires
        0 <= at < records.len(),
        record_outcome(schema, records[at]) is Err,
    ensures
        accepted(schema, records) == accepted(schema, records.remove(at)),
    decreases records.len(),
{
    if at == records.len() - 1 {
        assert(records.remove(at) =~= records.drop_last());
    } else {
        assert(records.remove(at).drop_last() =~= records.drop_last().remove(at));
        assert(records.remove(at).last() == records.last());
        malformed_record_is_skipped(schema, records.drop_last(), at);
    }
}

/// The list of failures holds only records that do not decode, each with
/// its own reason, and in ascending order of their positions, so none is
/// listed twice.
pub proof fn failures_are_sound(schema: Schema, records: Seq<RecordView>)
    requires
        records.len() <= usize::MAX,
    ensures
        forall|k: int|
            0 <= k < rejected(schema, records).len() ==> (#[trigger] rejected(schema, records)[k]).row
                < records.len(),
        forall|k: int|
            0 <= k < rejected(schema, records).len() ==> record_outcome(
                schema,
                records[(#[trigger] rejected(schema, records)[k]).row as int],
            ) == Err::<TransactionView, FailureReason>(rejected(schema, records)[k].reason),
        forall|k: int, l: int|
            0 <= k < l < rejected(schema, records).len() ==> (#[trigger] rejected(
                schema,
                records,
            )[k]).row < (#[trigger] rejected(schema, records)[l]).row,
    decreases records.len(),
{
    if records.len() > 0 {
        let init = records.drop_last();
        failures_are_sound(schema, init);
        let all = rejected(schema, records);
        let before = rejected(schema, init);
        assert forall|k: int| 0 <= k < all.len() implies (#[trigger] all[k]).row < records.len()
            && record_outcome(schema, records[all[k].row as int]) == Err::<
            TransactionView,
            FailureReason,
        >(all[k].reason) by {
            if k < before.len() {
                assert(all[k] == before[k]);
                assert(init[before[k].row as int] == records[before[k].row as int]);
            }
        }
        assert forall|k: int, l: int| 0 <= k < l < all.len() implies (#[trigger] all[k]).row < (
        #[trigger] all[l]).row by {
            assert(all[k] == before[k]);
            if l < before.len() {
                assert(all[l] == before[l]);
            }
        }
    }
}

/// Every record that does not decode is in the list of failures, under its
/// position and with its reason.
pub proof fn malformed_record_is_listed(schema: Schema, records: Seq<RecordView>, at: int)
    requires
        0 <= at < records.len() <= usize::MAX,
        record_outcome(schema, records[at]) is Err,
    ensures
        exists|k: int|
            0 <= k < rejected(schema, records).len() && #[trigger] rejected(schema, records)[k]
                == (ParseFailure {
                row: at as usize,
                reason: record_outcome(schema, records[at])->Err_0,
            }),
    decreases records.len(),
{
    let all = rejected(schema, records);
    if at == records.len() - 1 {
        assert(all[all.len() - 1].row == at);
    } else {
        let init = records.drop_last();
        assert(init[at] == records[at]);
        malformed_record_is_listed(schema, init, at);
        let before = rejected(schema, init);
        let k = choose|k: int|
            0 <= k < before.len() && #[trigger] before[k] == (ParseFailure {
                row: at as usize,
                reason: record_outcome(schema, records[at])->Err_0,
            });
        assert(all[k] == before[k]);
    }
}

/// The transactions of two chunks of records in a row are those of the
/// first chunk followed by those of the second.
pub proof fn accepted_concat(schema: Schema, first: Seq<RecordView>, second: Seq<RecordView>)
    ensures
        accepted(schema, first + second) == accepted(schema, first) + accepted(schema, second),
    decreases second.len(),
{
    if second.len() == 0 {
        assert(first + second =~= first);
        assert(accepted(schema, first) + accepted(schema, second) =~= accepted(schema, first));
    } else {
        assert((first + second).drop_last() =~= first + second.drop_last());
        assert((first + second).last() == second.last());
        accepted_concat(schema, first, second.drop_last());
        assert(accepted(schema, first + second) =~= accepted(schema, first) + accepted(
            schema,
            second,
        ));
    }
}

/// Failures whose positions are counted from the start of a later chunk,
/// with the positions counted from the start of the whole table instead.
pub open spec fn shifted(failures: Seq<ParseFailure>, by: nat) -> Seq<ParseFailure> {
    failures.map_values(
        |failure: ParseFailure| ParseFailure { row: (failure.row + by) as usize, ..failure },
    )
}

/// The failures of two chunks of records in a row are those of the first
/// chunk followed by those of the second, the latter at the positions they
/// have in the whole.
pub proof fn rejected_concat(schema: Schema, first: Seq<RecordView>, second: Seq<RecordView>)
    requires
        first.len() + second.len() <= usize::MAX,
    ensures
        rejected(schema, first + second) == rejected(schema, first) + shifted(
            rejected(schema, second),
            first.len(),
        ),
    decreases second.len(),
{
    if second.len() == 0 {
        assert(first + second =~= first);
        assert(rejected(schema, first) + shifted(rejected(schema, second), first.len())
            =~= rejected(schema, first));
    } else {
        assert((first + second).drop_last() =~= first + second.drop_last());
        assert((first + second).last() == second.last());
        rejected_concat(schema, first, second.drop_last());
        assert(rejected(schema, first + second) =~= rejected(schema, first) + shifted(
            rejected(schema, second),
            first.len(),
        ));
    }
}

/// Every failure names a position among the records.
proof fn failure_rows_in_range(schema: Schema, records: Seq<RecordView>)
    requires
        records.len() <= usize::MAX,
    ensures
        forall|k: int|
            0 <= k < rejected(schema, records).len() ==> (#[trigger] rejected(schema, records)[k]).row
                < records.len(),
{
    failures_are_sound(schema, records);
}

/// Adds the failures of a later chunk to a list, at the positions they
/// have when `by` records come before the chunk.
fn append_shifted(list: &mut Vec<ParseFailure>, later: &Vec<ParseFailure>, by: usize)
    requires
        forall|k: int| 0 <= k < later@.len() ==> (#[trigger] later@[k]).row + by <= usize::MAX,
    ensures
        final(list)@ == old(list)@ + shifted(later@, by as nat),
{
    let ghost before = list@;
    let mut i: usize = 0;
    proof {
        assert(list@ =~= before + shifted(later@.take(0), by as nat));
    }
    while i < later.len()
        invariant
            i <= later@.len(),
            forall|k: int| 0 <= k < later@.len() ==> (#[trigger] later@[k]).row + by <= usize::MAX,
            list@ == before + shifted(later@.take(i as int), by as nat),
        decreases later@.len() - i,
    {
        let failure = later[i];
        proof {
            assert(later@.take(i + 1) =~= later@.take(i as int).push(failure));
            assert(shifted(later@.take(i + 1), by as nat) =~= shifted(
                later@.take(i as int),
                by as nat,
            ).push(ParseFailure { row: (failure.row + by) as usize, ..failure }));
        }
        list.push(ParseFailure { row: failure.row + by, reason: failure.reason });
        proof {
            assert(list@ =~= before + shifted(later@.take(i + 1), by as nat));
        }
        i = i + 1;
    }
    proof {
        assert(later@.take(i as int) =~= later@);
    }
}

/// The state of a run: the buckets filled and the records set aside so far.
pub struct Engine {
    schema: Schema,
    buckets: Buckets,
    failures: Vec<ParseFailure>,
    seen: usize,
    records: Ghost<Seq<RecordView>>,
}

impl Engine {
    /// The schema against which records are decoded.
    pub closed spec fn schema(&self) -> Schema {
        self.schema
    }

    /// The records taken so far.
    pub closed spec fn records(&self) -> Seq<RecordView> {
        self.records@
    }

    /// The buckets, in the order in which they are reported.
    pub closed spec fn entries(&self) -> Seq<BucketView> {
        self.buckets.entries()
    }

    /// The records set aside so far.
    pub closed spec fn failures(&self) -> Seq<ParseFailure> {
        self.failures@
    }

    /// The counters and the buckets' own record of what they hold agree
    /// with the records taken.
    pub closed spec fn in_step(&self) -> bool {
        &&& self.seen == self.records@.len()
        &&& self.buckets.txns() == accepted(self.schema, self.records@)
        &&& self.buckets.wf()
    }

    /// The buckets are the grouping of the records that decode, and the
    /// records set aside are those that do not.
    pub open spec fn wf(&self) -> bool {
        &&& self.in_step()
        &&& groups(self.entries(), accepted(self.schema(), self.records()))
        &&& self.failures() == rejected(self.schema(), self.records())
    }

    /// The state before the first record.
    pub fn new(schema: Schema) -> (engine: Engine)
        ensures
            engine.wf(),
            engine.schema() == schema,
            engine.records() == Seq::<RecordView>::empty(),
    {
        Engine {
            schema,
            buckets: Buckets::new(),
            failures: Vec::new(),
            seen: 0,
            records: Ghost(Seq::empty()),
        }
    }

    /// Takes one record. If it decodes, its transaction is folded into its
    /// bucket and the list of failures stays as it is. If it does not, it is
    /// added to the list of failures, once, and every bucket stays as it is.
    pub fn feed(&mut self, record: &Option<Vec<String>>)
        requires
            old(self).wf(),
            old(self).records().len() < usize::MAX,
        ensures
            final(self).wf(),
            final(self).schema() == old(self).schema(),
            final(self).records() == old(self).records().push(record.deep_view()),
            (match record_outcome(old(self).schema(), record.deep_view()) {
                Ok(txn) => {
                    &&& groups(
                        final(self).entries(),
                        accepted(old(self).schema(), old(self).records()).push(txn),
                    )
                    &&& final(self).failures() == old(self).failures()
                },
                Err(reason) => {
                    &&& final(self).entries() == old(self).entries()
                    &&& final(self).failures() == old(self).failures().push(
                        ParseFailure { row: old(self).records().len() as usize, reason },
                    )
                },
            }),
    {
        let ghost before = self.records@;
        let ghost after = before.push(record.deep_view());
        proof {
            assert(after.drop_last() =~= before);
            accepted_len(self.schema, before);
        }
        let outcome = match record {
            None => Err(FailureReason::Unreadable),
            Some(fields) => parse_row(&self.schema, fields),
        };
        match outcome {
            Ok(txn) => {
                self.buckets.add(&txn);
            },
            Err(reason) => {
                self.failures.push(ParseFailure { row: self.seen, reason });
            },
        }
        self.seen = self.seen + 1;
        self.records = Ghost(after);
    }

    /// Takes in the state of a run over the records that follow those of
    /// `self`: the buckets of the two runs are merged key by key, and the
    /// failures of the later run are listed at the positions they have in
    /// the whole. The state is that of one run over all the records.
    pub fn join(&mut self, later: &Engine)
        requires
            old(self).wf(),
            later.wf(),
            later.schema() == old(self).schema(),
            old(self).records().len() + later.records().len() <= usize::MAX,
        ensures
            final(self).wf(),
            final(self).schema() == old(self).schema(),
            final(self).records() == old(self).records() + later.records(),
    {
        let ghost first = self.records@;
        let ghost second = later.records@;
        proof {
            accepted_len(self.schema, first);
            accepted_len(self.schema, second);
            accepted_concat(self.schema, first, second);
            rejected_concat(self.schema, first, second);
            failure_rows_in_range(self.schema, second);
        }
        self.buckets.combine(&later.buckets);
        append_shifted(&mut self.failures, &later.failures, self.seen);
        self.seen = self.seen + later.seen;
        self.records = Ghost(first + second);
    }

    /// Number of buckets.
    pub fn bucket_count(&self) -> (n: usize)
        ensures
            n == self.entries().len(),
    {
        self.buckets.len()
    }

    /// The buckets filled so far.
    pub fn buckets(&self) -> (buckets: &Buckets)
        requires
            self.wf(),
        ensures
            buckets.wf(),
            buckets.entries() == self.entries(),
            buckets.txns() == accepted(self.schema(), self.records()),
    {
        &self.buckets
    }

    /// Ends the run and hands out the buckets and the records set aside.
    pub fn finish(self) -> (parts: (Buckets, Vec<ParseFailure>))
        requires
            self.wf(),
        ensures
            parts.0.wf(),
            parts.0.entries() == self.entries(),
            parts.0.txns() == accepted(self.schema(), self.records()),
            parts.1@ == self.failures(),
    {
        (self.buckets, self.failures)
    }
}

/// Runs the engine over the records of a table, from the first to the last.
pub fn group_records(schema: Schema, records: &Vec<Option<Vec<String>>>) -> (engine: Engine)
    ensures
        engine.wf(),
        engine.schema() == schema,
        engine.records() == records.deep_view(),
{
    let mut engine = Engine::new(schema);
    let mut i: usize = 0;
    while i < records.len()
        invariant
            i <= records.len(),
            engine.wf(),
            engine.schema() == schema,
            engine.records() == records.deep_view().take(i as int),
        decreases records.len() - i,
    {
        proof {
            assert(records.deep_view().take(i + 1) =~= records.deep_view().take(i as int).push(
                records[i as int].deep_view(),
            ));
        }
        engine.feed(&records[i]);
        i = i + 1;
    }
    proof {
        assert(records.deep_view().take(i as int) =~= records.deep_view());
    }
    engine
}

} // verus!
