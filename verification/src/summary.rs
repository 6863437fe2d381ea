//! The per-bucket accumulator: an identity, a one-transaction extension and
//! an associative, commutative merge.

use vstd::prelude::*;
use crate::transaction::Transaction;

verus! {

/// Mathematical content of a [`Summary`].
pub ghost struct SummaryView {
    pub user_id: int,
    pub count: nat,
    pub total: int,
    pub min: int,
    pub max: int,
}

/// The smaller of two numbers.
pub open spec fn min_of(a: int, b: int) -> int {
    if a <= b { a } else { b }
}

/// The larger of two numbers.
pub open spec fn max_of(a: int, b: int) -> int {
    if a >= b { a } else { b }
}

impl SummaryView {
    /// The summary of no transactions at all.
    pub open spec fn identity(user_id: int) -> SummaryView {
        SummaryView { user_id, count: 0, total: 0, min: 0, max: 0 }
    }

    /// An empty summary holds zeros only, and a non-empty one has its
    /// smallest amount below its largest.
    pub open spec fn wf(self) -> bool {
        &&& self.count == 0 ==> self.total == 0 && self.min == 0 && self.max == 0
        &&& self.count > 0 ==> self.min <= self.max
    }

    /// The summary after one more signed amount. The zero that an empty
    /// summary holds is a placeholder and takes no part in the comparison.
    pub open spec fn extend(self, amount: int) -> SummaryView {
        SummaryView {
            user_id: self.user_id,
            count: self.count + 1,
            total: self.total + amount,
            min: if self.count == 0 { amount } else { min_of(self.min, amount) },
            max: if self.count == 0 { amount } else { max_of(self.max, amount) },
        }
    }

    /// The summary of everything that went into either operand.
    pub open spec fn merge(self, other: SummaryView) -> SummaryView {
        SummaryView {
            user_id: self.user_id,
            count: self.count + other.count,
            total: self.total + other.total,
            min: if self.count == 0 {
                other.min
            } else if other.count == 0 {
                self.min
            } else {
                min_of(self.min, other.min)
            },
            max: if self.count == 0 {
                other.max
            } else if other.count == 0 {
                self.max
            } else {
                max_of(self.max, other.max)
            },
        }
    }
}

/// The summary of a sequence of signed amounts, folded from the left.
pub open spec fn summarize(user_id: int, amounts: Seq<int>) -> SummaryView
    decreases amounts.len(),
{
    if amounts.len() == 0 {
        SummaryView::identity(user_id)
    } else {
        summarize(user_id, amounts.drop_last()).extend(amounts.last())
    }
}

/// Largest magnitude a single signed amount can have.
pub const AMOUNT_LIMIT: i128 = 0x8000_0000_0000_0000;

/// Running statistics of the transactions of one user on one date.
#[derive(Clone, Copy, Debug, PartialEq, Eq, Structural)]
pub struct Summary {
    user_id: i64,
    count: u64,
    total: i128,
    min: i128,
    max: i128,
}

impl View for Summary {
    type V = SummaryView;

    closed spec fn view(&self) -> SummaryView {
        SummaryView {
            user_id: self.user_id as int,
            count: self.count as nat,
            total: self.total as int,
            min: self.min as int,
            max: self.max as int,
        }
    }
}

impl Summary {
    /// What holds of every summary: its content is well formed, and no
    /// amount in it is beyond what a transaction can hold, so that the total
    /// of as many transactions as can be counted fits its field.
    #[verifier::type_invariant]
    pub closed spec fn inv(self) -> bool {
        &&& self@.wf()
        &&& -(self.count * AMOUNT_LIMIT) <= self.total <= self.count * AMOUNT_LIMIT
        &&& -AMOUNT_LIMIT <= self.min <= AMOUNT_LIMIT
        &&& -AMOUNT_LIMIT <= self.max <= AMOUNT_LIMIT
    }

    /// The content of a summary is well formed and within bounds.
    pub proof fn inv_bounds(self)
        requires
            self.inv(),
        ensures
            self@.wf(),
            -(self@.count * AMOUNT_LIMIT) <= self@.total <= self@.count * AMOUNT_LIMIT,
            -AMOUNT_LIMIT <= self@.min <= AMOUNT_LIMIT,
            -AMOUNT_LIMIT <= self@.max <= AMOUNT_LIMIT,
    {
    }

    /// The empty summary of a user.
    pub fn identity(user_id: i64) -> (s: Summary)
        ensures
            s@ == SummaryView::identity(user_id as int),
            s@.wf(),
    {
        Summary { user_id, count: 0, total: 0, min: 0, max: 0 }
    }

    /// The user whose transactions are summed up.
    pub fn user_id(&self) -> (user_id: i64)
        ensures
            user_id == self@.user_id,
    {
        self.user_id
    }

    /// Number of transactions folded in.
    pub fn count(&self) -> (count: u64)
        ensures
            count == self@.count,
    {
        self.count
    }

    /// Sum of the signed amounts folded in.
    pub fn total(&self) -> (total: i128)
        ensures
            total == self@.total,
    {
        self.total
    }

    /// Smallest signed amount folded in, or zero if there is none.
    pub fn min(&self) -> (min: i128)
        ensures
            min == self@.min,
    {
        self.min
    }

    /// Largest signed amount folded in, or zero if there is none.
    pub fn max(&self) -> (max: i128)
        ensures
            max == self@.max,
    {
        self.max
    }

    /// The summary with one more transaction of the same user folded in.
    pub fn extend(&self, txn: &Transaction) -> (s: Summary)
        requires
            txn.user_id == self@.user_id,
            self@.count < u64::MAX,
        ensures
            s@ == self@.extend(txn@.signed_amount()),
            s@.wf(),
    {
        proof {
            use_type_invariant(self);
        }
        let amount = txn.signed_amount();
        if self.count == 0 {
            Summary { user_id: self.user_id, count: 1, total: amount, min: amount, max: amount }
        } else {
            Summary {
                user_id: self.user_id,
                count: self.count + 1,
                total: self.total + amount,
                min: if self.min <= amount { self.min } else { amount },
                max: if self.max >= amount { self.max } else { amount },
            }
        }
    }

    /// The summary of everything that went into `self` or `other`.
    pub fn merge(&self, other: &Summary) -> (s: Summary)
        requires
            self@.user_id == other@.user_id,
            self@.count + other@.count <= u64::MAX,
        ensures
            s@ == self@.merge(other@),
            s@.wf(),
    {
        proof {
            use_type_invariant(self);
            use_type_invariant(other);
        }
        if self.count == 0 {
            *other
        } else if other.count == 0 {
            *self
        } else {
            Summary {
                user_id: self.user_id,
                count: self.count + other.count,
                total: self.total + other.total,
                min: if self.min <= other.min { self.min } else { other.min },
                max: if self.max >= other.max { self.max } else { other.max },
            }
        }
    }
}

} // verus!
