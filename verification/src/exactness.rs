//! The result of a run is settled by its input: there is one way to
//! present a list of buckets by user, and one result for a header and its
//! records.

use vstd::prelude::*;
use crate::engine::{accepted, RecordView};
use crate::grouping::BucketView;
use crate::regrouping::grouping_is_unique;
use crate::report::{dates_ascending, entries_of, listing, presents, RunResultView, UserReportView};
use crate::stream::{outcome_of, schema_for};

verus! {

/// Every bucket that reports list belongs to the user of one of them.
proof fn listed_user(users: Seq<UserReportView>, k: int) -> (u: int)
    requires
        0 <= k < listing(users).len(),
    ensures
        0 <= u < users.len(),
        listing(users)[k].user_id == users[u].user_id,
    decreases users.len(),
{
    let earlier = listing(users.drop_last());
    if k < earlier.len() {
        listed_user(users.drop_last(), k)
    } else {
        users.len() - 1
    }
}

/// The reports but the last present the buckets but those of the last
/// user, all of which belong to users before the last.
proof fn presents_earlier(users: Seq<UserReportView>, entries: Seq<BucketView>)
    requires
        presents(users, entries),
        users.len() > 0,
    ensures
        presents(users.drop_last(), listing(users.drop_last())),
        entries == listing(users.drop_last()) + entries_of(users.last()),
        forall|k: int|
            0 <= k < listing(users.drop_last()).len() ==> (#[trigger] entries[k]).user_id
                < users.last().user_id,
        forall|k: int|
            listing(users.drop_last()).len() <= k < entries.len() ==> (#[trigger] entries[k]).user_id
                == users.last().user_id,
{
    let shorter = users.drop_last();
    assert forall|u: int, v: int| 0 <= u < v < shorter.len() implies (#[trigger] shorter[u]).user_id
        < (#[trigger] shorter[v]).user_id by {
        assert(users[u].user_id < users[v].user_id);
    }
    assert forall|u: int| 0 <= u < shorter.len() implies (#[trigger] shorter[u]).days.len() > 0 by {
        assert(users[u].days.len() > 0);
    }
    assert forall|u: int| 0 <= u < shorter.len() implies dates_ascending(
        (#[trigger] shorter[u]).days,
    ) by {
        assert(dates_ascending(users[u].days));
    }
    assert forall|k: int| 0 <= k < listing(shorter).len() implies (#[trigger] entries[k]).user_id
        < users.last().user_id by {
        let u = listed_user(shorter, k);
        assert(users[u].user_id < users[users.len() - 1].user_id);
    }
}

/// There is one way to present a list of buckets.
pub proof fn presentation_is_unique(
    first: Seq<UserReportView>,
    second: Seq<UserReportView>,
    entries: Seq<BucketView>,
)
    requires
        presents(first, entries),
        presents(second, entries),
    ensures
        first == second,
    decreases first.len(),
{
    if first.len() == 0 {
        if second.len() > 0 {
            assert(second[second.len() - 1].days.len() > 0);
        }
        assert(first =~= second);
    } else {
        assert(first[first.len() - 1].days.len() > 0);
        assert(entries.len() > 0);
        assert(second.len() > 0);
        assert(second[second.len() - 1].days.len() > 0);
        presents_earlier(first, entries);
        presents_earlier(second, entries);
        let last_first = first.last();
        let last_second = second.last();
        let cut_first = listing(first.drop_last()).len() as int;
        let cut_second = listing(second.drop_last()).len() as int;
        assert(entries[entries.len() - 1].user_id == last_first.user_id);
        assert(entries[entries.len() - 1].user_id == last_second.user_id);
        if cut_first < cut_second {
            assert(entries[cut_first].user_id == last_first.user_id);
        } else if cut_second < cut_first {
            assert(entries[cut_second].user_id == last_second.user_id);
        }
        assert(last_first.days =~= last_second.days) by {
            assert forall|d: int| 0 <= d < last_first.days.len() implies last_first.days[d]
                == last_second.days[d] by {
                assert(entries_of(last_first)[d] == entries[cut_first + d]);
                assert(entries_of(last_second)[d] == entries[cut_second + d]);
            }
        }
        assert(listing(first.drop_last()) =~= entries.take(cut_first));
        assert(listing(second.drop_last()) =~= entries.take(cut_second));
        presentation_is_unique(first.drop_last(), second.drop_last(), entries.take(cut_first));
        assert(first =~= first.drop_last().push(last_first));
        assert(second =~= second.drop_last().push(last_second));
    }
}

/// A header and its records have one result.
pub proof fn outcome_is_unique(
    first: RunResultView,
    second: RunResultView,
    header: Option<Seq<Seq<char>>>,
    records: Seq<RecordView>,
)
    requires
        outcome_of(first, header, records),
        outcome_of(second, header, records),
    ensures
        first == second,
{
    grouping_is_unique(
        listing(first.users),
        listing(second.users),
        accepted(schema_for(header), records),
    );
    presentation_is_unique(first.users, second.users, listing(first.users));
}

} // verus!
