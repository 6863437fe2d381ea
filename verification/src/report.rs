//! The result of a run in the shape in which it is handed on: for each
//! user the dates in ascending order, each with its summary, and beside
//! them the records that were set aside.

use vstd::prelude::*;
use vstd::utf8::encode_utf8;
use crate::engine::ParseFailure;
use crate::grouping::{sorted_by_key, BucketView, Buckets};
use crate::order::{key_lt, lex_lt};
use crate::summary::{Summary, SummaryView};

verus! {

/// Mathematical content of a [`DailySummary`].
pub ghost struct DayView {
    pub date: Seq<char>,
    pub summary: SummaryView,
}

/// The summary of one date of a user.
#[derive(Clone, Debug)]
pub struct DailySummary {
    pub date: String,
    pub summary: Summary,
}

impl View for DailySummary {
    type V = DayView;

    open spec fn view(&self) -> DayView {
        DayView { date: self.date@, summary: self.summary@ }
    }
}

/// Mathematical content of a [`UserReport`].
pub ghost struct UserReportView {
    pub user_id: int,
    pub days: Seq<DayView>,
}

/// The dates of one user.
#[derive(Clone, Debug)]
pub struct UserReport {
    pub user_id: i64,
    pub days: Vec<DailySummary>,
}

impl View for UserReport {
    type V = UserReportView;

    open spec fn view(&self) -> UserReportView {
        UserReportView {
            user_id: self.user_id as int,
            days: self.days@.map_values(|day: DailySummary| day@),
        }
    }
}

/// Mathematical content of a [`RunResult`].
pub ghost struct RunResultView {
    pub users: Seq<UserReportView>,
    pub failures: Seq<ParseFailure>,
}

/// What a run hands on.
#[derive(Clone, Debug)]
pub struct RunResult {
    pub users: Vec<UserReport>,
    pub failures: Vec<ParseFailure>,
}

impl View for RunResult {
    type V = RunResultView;

    open spec fn view(&self) -> RunResultView {
        RunResultView {
            users: self.users@.map_values(|user: UserReport| user@),
            failures: self.failures@,
        }
    }
}

/// The buckets that one user's report lists, in its order.
pub open spec fn entries_of(user: UserReportView) -> Seq<BucketView> {
    user.days.map_values(
        |day: DayView| BucketView { user_id: user.user_id, date: day.date, summary: day.summary },
    )
}

/// The buckets that the reports list, user after user.
pub open spec fn listing(users: Seq<UserReportView>) -> Seq<BucketView>
    decreases users.len(),
{
    if users.len() == 0 {
        Seq::empty()
    } else {
        listing(users.drop_last()) + entries_of(users.last())
    }
}

/// The dates of a report in ascending order, each once.
pub open spec fn dates_ascending(days: Seq<DayView>) -> bool {
    forall|i: int, j: int|
        0 <= i < j < days.len() ==> lex_lt(
            encode_utf8((#[trigger] days[i]).date),
            encode_utf8((#[trigger] days[j]).date),
        )
}

/// The users in ascending order, each once.
pub open spec fn users_ascending(users: Seq<UserReportView>) -> bool {
    forall|u: int, v: int|
        0 <= u < v < users.len() ==> (#[trigger] users[u]).user_id < (#[trigger] users[v]).user_id
}

/// What it means for reports to present a list of buckets: they list
/// exactly these buckets, every user has one report, no report is empty and
/// the dates of each report ascend.
pub open spec fn presents(users: Seq<UserReportView>, entries: Seq<BucketView>) -> bool {
    &&& listing(users) == entries
    &&& users_ascending(users)
    &&& forall|u: int| 0 <= u < users.len() ==> (#[trigger] users[u]).days.len() > 0
    &&& forall|u: int| 0 <= u < users.len() ==> dates_ascending((#[trigger] users[u]).days)
}

/// Collects the buckets of the user whose first bucket stands at `start`.
fn take_user(buckets: &Buckets, start: usize) -> (taken: (Vec<DailySummary>, usize))
    requires
        sorted_by_key(buckets.entries()),
        start < buckets.entries().len(),
    ensures
        start < taken.1 <= buckets.entries().len(),
        entries_of(
            UserReportView {
                user_id: buckets.entries()[start as int].user_id,
                days: taken.0@.map_values(|day: DailySummary| day@),
            },
        ) == buckets.entries().subrange(start as int, taken.1 as int),
        dates_ascending(taken.0@.map_values(|day: DailySummary| day@)),
        taken.1 < buckets.entries().len() ==> buckets.entries()[start as int].user_id
            < buckets.entries()[taken.1 as int].user_id,
{
    let ghost entries = buckets.entries();
    let user_id = buckets.get(start).user_id;
    let mut days: Vec<DailySummary> = Vec::new();
    let mut end: usize = start;
    while end < buckets.len() && buckets.get(end).user_id == user_id
        invariant
            start <= end <= entries.len(),
            entries == buckets.entries(),
            sorted_by_key(entries),
            user_id == entries[start as int].user_id,
            days@.len() == end - start,
            forall|k: int|
                0 <= k < days@.len() ==> (#[trigger] days@[k])@.date == entries[start + k].date
                    && days@[k]@.summary == entries[start + k].summary && entries[start
                    + k].user_id == user_id,
        decreases entries.len() - end,
    {
        let bucket = buckets.get(end);
        days.push(DailySummary { date: bucket.date.clone(), summary: bucket.summary });
        end = end + 1;
    }
    proof {
        let views = days@.map_values(|day: DailySummary| day@);
        let user = UserReportView { user_id: user_id as int, days: views };
        assert(entries_of(user) =~= entries.subrange(start as int, end as int)) by {
            assert forall|k: int| 0 <= k < views.len() implies entries_of(user)[k] == entries[start
                + k] by {
                assert(views[k] == days@[k]@);
            }
        }
        assert forall|i: int, j: int| 0 <= i < j < views.len() implies lex_lt(
            encode_utf8((#[trigger] views[i]).date),
            encode_utf8((#[trigger] views[j]).date),
        ) by {
            assert(views[i] == days@[i]@);
            assert(views[j] == days@[j]@);
            assert(key_lt(entries[start + i].key(), entries[start + j].key()));
        }
        if end < entries.len() {
            assert(key_lt(entries[start as int].key(), entries[end as int].key()));
        }
    }
    (days, end)
}

/// Arranges the buckets of a run by user and hands the list of failures on
/// as it is. Nothing is computed anew: every summary is the one that the
/// bucket holds.
pub fn assemble(buckets: &Buckets, failures: Vec<ParseFailure>) -> (result: RunResult)
    requires
        sorted_by_key(buckets.entries()),
    ensures
        presents(result@.users, buckets.entries()),
        result@.failures == failures@,
{
    RunResult { users: arrange(buckets), failures }
}

/// One report per user, in ascending order of the users.
fn arrange(buckets: &Buckets) -> (users: Vec<UserReport>)
    requires
        sorted_by_key(buckets.entries()),
    ensures
        presents(users@.map_values(|user: UserReport| user@), buckets.entries()),
{
    let ghost entries = buckets.entries();
    let mut users: Vec<UserReport> = Vec::new();
    let mut at: usize = 0;
    proof {
        assert(listing(users@.map_values(|user: UserReport| user@)) =~= entries.take(0));
    }
    while at < buckets.len()
        invariant
            at <= entries.len(),
            entries == buckets.entries(),
            sorted_by_key(entries),
            presents(users@.map_values(|user: UserReport| user@), entries.take(at as int)),
            at < entries.len() ==> forall|u: int|
                0 <= u < users@.len() ==> (#[trigger] users@[u]).user_id < entries[at as int].user_id,
        decreases entries.len() - at,
    {
        let ghost before = users@.map_values(|user: UserReport| user@);
        let user_id = buckets.get(at).user_id;
        let (days, end) = take_user(buckets, at);
        let report = UserReport { user_id, days };
        let ghost added = report@;
        users.push(report);
        proof {
            let after = users@.map_values(|user: UserReport| user@);
            assert(after =~= before.push(added));
            assert(after.drop_last() =~= before);
            assert(listing(after) =~= entries.take(end as int));
            assert forall|u: int, v: int| 0 <= u < v < after.len() implies (
            #[trigger] after[u]).user_id < (#[trigger] after[v]).user_id by {
                if v < before.len() {
                    assert(before[u].user_id < before[v].user_id);
                } else {
                    assert(before[u] == users@[u]@);
                }
            }
            if end < entries.len() {
                assert forall|u: int| 0 <= u < users@.len() implies (#[trigger] users@[u]).user_id
                    < entries[end as int].user_id by {
                    if u < before.len() {
                        assert(before[u] == users@[u]@);
                    }
                }
            }
        }
        at = end;
    }
    proof {
        assert(entries.take(at as int) =~= entries);
    }
    users
}

} // verus!
