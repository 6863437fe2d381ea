//! What makes regrouping safe: summaries form a commutative monoid under
//! `merge`, and folding amounts one by one agrees with merging the
//! summaries of any split of them.

use vstd::prelude::*;
use crate::summary::{summarize, SummaryView};

verus! {

/// Merging is associative.
pub proof fn merge_associative(a: SummaryView, b: SummaryView, c: SummaryView)
    ensures
        a.merge(b.merge(c)) == a.merge(b).merge(c),
{
}

/// Merging two summaries of one user does not depend on which comes first.
pub proof fn merge_commutative(a: SummaryView, b: SummaryView)
    requires
        a.wf(),
        b.wf(),
        a.user_id == b.user_id,
    ensures
        a.merge(b) == b.merge(a),
{
}

/// The empty summary of a user is neutral on both sides of a merge with a
/// summary of that user.
pub proof fn merge_identity(a: SummaryView)
    requires
        a.wf(),
    ensures
        SummaryView::identity(a.user_id).merge(a) == a,
        a.merge(SummaryView::identity(a.user_id)) == a,
{
}

/// Merging keeps summaries well formed.
pub proof fn merge_wf(a: SummaryView, b: SummaryView)
    requires
        a.wf(),
        b.wf(),
    ensures
        a.merge(b).wf(),
{
}

/// The summary of a list with one more amount at its end is the summary of
/// the list, extended by that amount.
pub proof fn summarize_push(user_id: int, amounts: Seq<int>, amount: int)
    ensures
        summarize(user_id, amounts.push(amount)) == summarize(user_id, amounts).extend(amount),
{
    assert(amounts.push(amount).drop_last() =~= amounts);
}

/// Folding in one amount is merging with the summary of that amount alone.
pub proof fn extend_is_merge(a: SummaryView, amount: int)
    ensures
        a.extend(amount) == a.merge(SummaryView::identity(a.user_id).extend(amount)),
{
}

/// A summary counts every amount once, and its smallest and largest amount
/// are amounts that were folded in and bound all the others.
pub proof fn summarize_facts(user_id: int, amounts: Seq<int>)
    ensures
        summarize(user_id, amounts).wf(),
        summarize(user_id, amounts).user_id == user_id,
        summarize(user_id, amounts).count == amounts.len(),
        amounts.len() > 0 ==> amounts.contains(summarize(user_id, amounts).min),
        amounts.len() > 0 ==> amounts.contains(summarize(user_id, amounts).max),
        forall|i: int|
            0 <= i < amounts.len() ==> summarize(user_id, amounts).min <= #[trigger] amounts[i]
                <= summarize(user_id, amounts).max,
    decreases amounts.len(),
{
    if amounts.len() > 0 {
        let init = amounts.drop_last();
        let last = amounts.last();
        summarize_facts(user_id, init);
        let s = summarize(user_id, amounts);
        assert(amounts[amounts.len() - 1] == last);
        if init.len() > 0 {
            let i = choose|i: int| 0 <= i < init.len() && init[i] == summarize(user_id, init).min;
            assert(amounts[i] == init[i]);
            let j = choose|j: int| 0 <= j < init.len() && init[j] == summarize(user_id, init).max;
            assert(amounts[j] == init[j]);
        }
        assert forall|i: int| 0 <= i < amounts.len() implies s.min <= #[trigger] amounts[i]
            <= s.max by {
            if i < init.len() {
                assert(amounts[i] == init[i]);
            }
        }
    }
}

/// Folding a list in one go gives the merge of the summaries of its two
/// halves, wherever the list is cut.
pub proof fn summarize_concat(user_id: int, left: Seq<int>, right: Seq<int>)
    ensures
        summarize(user_id, left + right) == summarize(user_id, left).merge(
            summarize(user_id, right),
        ),
    decreases right.len(),
{
    summarize_facts(user_id, left);
    summarize_facts(user_id, right);
    if right.len() == 0 {
        assert(left + right =~= left);
    } else {
        let init = right.drop_last();
        assert((left + right).drop_last() =~= left + init);
        assert((left + right).last() == right.last());
        summarize_concat(user_id, left, init);
        summarize_facts(user_id, init);
    }
}

/// The merge, from the left, of the summaries of the parts of a split list.
pub open spec fn merge_all(user_id: int, parts: Seq<Seq<int>>) -> SummaryView
    decreases parts.len(),
{
    if parts.len() == 0 {
        SummaryView::identity(user_id)
    } else {
        summarize(user_id, parts.first()).merge(merge_all(user_id, parts.drop_first()))
    }
}

/// Folding a list one amount at a time gives the same summary as cutting it
/// into any number of parts, folding each part on its own and merging the
/// partial summaries.
pub proof fn summarize_partition(user_id: int, parts: Seq<Seq<int>>)
    ensures
        summarize(user_id, parts.flatten()) == merge_all(user_id, parts),
    decreases parts.len(),
{
    if parts.len() > 0 {
        summarize_partition(user_id, parts.drop_first());
        summarize_concat(user_id, parts.first(), parts.drop_first().flatten());
    }
}

/// Taking any one amount out of a list and folding it in last gives the
/// summary of the whole list.
pub proof fn summarize_remove(user_id: int, amounts: Seq<int>, at: int)
    requires
        0 <= at < amounts.len(),
    ensures
        summarize(user_id, amounts) == summarize(user_id, amounts.remove(at)).extend(amounts[at]),
    decreases amounts.len(),
{
    if at == amounts.len() - 1 {
        assert(amounts.remove(at) =~= amounts.drop_last());
    } else {
        let init = amounts.drop_last();
        summarize_remove(user_id, init, at);
        assert(amounts.remove(at).drop_last() =~= init.remove(at));
        assert(amounts.remove(at).last() == amounts.last());
        assert(init[at] == amounts[at]);
        summarize_facts(user_id, init.remove(at));
    }
}

/// The summary of a bucket does not depend on the order in which its
/// amounts arrive: two lists with the same amounts, each as often in one as
/// in the other, have the same summary.
pub proof fn summarize_order_independent(user_id: int, first: Seq<int>, second: Seq<int>)
    requires
        first.to_multiset() == second.to_multiset(),
    ensures
        summarize(user_id, first) == summarize(user_id, second),
    decreases first.len(),
{
    first.to_multiset_ensures();
    second.to_multiset_ensures();
    if first.len() > 0 {
        let last = first.last();
        assert(first.contains(last)) by {
            assert(first[first.len() - 1] == last);
        }
        assert(second.contains(last)) by {
            assert(first.to_multiset().count(last) > 0);
            assert(second.to_multiset().count(last) > 0);
        }
        let at = choose|at: int| 0 <= at < second.len() && second[at] == last;
        let init = first.drop_last();
        assert(init =~= first.remove(first.len() - 1));
        assert(init.to_multiset() == second.remove(at).to_multiset());
        summarize_order_independent(user_id, init, second.remove(at));
        summarize_remove(user_id, second, at);
    }
}

} // verus!
