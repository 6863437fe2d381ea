//! The validated in-memory form of one transaction.

use vstd::prelude::*;

verus! {

/// Direction of a transaction. The set is closed: text that names neither
/// variant is rejected when a row is decoded and never becomes a value of
/// this type.
#[derive(Clone, Copy, Debug, PartialEq, Eq, Structural)]
pub enum TransactionType {
    Credit,
    Debit,
}

/// One decoded transaction.
///
/// `amount` is a magnitude in hundredths of a unit. Decoding only produces
/// non-negative amounts; the aggregation code takes the field as it is.
#[derive(Clone, Debug)]
pub struct Transaction {
    pub user_id: i64,
    pub account_id: i64,
    pub amount: i64,
    pub transaction_type: TransactionType,
    pub desc: String,
    pub date: String,
    pub misc: Option<String>,
}

/// Mathematical content of a [`Transaction`].
pub ghost struct TransactionView {
    pub user_id: int,
    pub account_id: int,
    pub amount: int,
    pub transaction_type: TransactionType,
    pub desc: Seq<char>,
    pub date: Seq<char>,
    pub misc: Option<Seq<char>>,
}

impl TransactionView {
    /// The amount with its sign: positive for a credit, negative for a debit.
    pub open spec fn signed_amount(self) -> int {
        match self.transaction_type {
            TransactionType::Credit => self.amount,
            TransactionType::Debit => -self.amount,
        }
    }

    /// The bucket this transaction belongs to.
    pub open spec fn key(self) -> (int, Seq<char>) {
        (self.user_id, self.date)
    }
}

impl View for Transaction {
    type V = TransactionView;

    open spec fn view(&self) -> TransactionView {
        TransactionView {
            user_id: self.user_id as int,
            account_id: self.account_id as int,
            amount: self.amount as int,
            transaction_type: self.transaction_type,
            desc: self.desc@,
            date: self.date@,
            misc: match self.misc {
                Some(text) => Some(text@),
                None => None,
            },
        }
    }
}

impl Transaction {
    /// The amount with its sign applied.
    pub fn signed_amount(&self) -> (signed: i128)
        ensures
            signed == self@.signed_amount(),
    {
        match self.transaction_type {
            TransactionType::Credit => self.amount as i128,
            TransactionType::Debit => -(self.amount as i128),
        }
    }
}

} // verus!
