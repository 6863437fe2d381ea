//! Decoding of one row into a transaction, against a schema that says in
//! which position each named column stands.

use vstd::prelude::*;
use vstd::string::StringSliceAdditionalSpecFns;
use vstd::utf8::encode_utf8;
use crate::text::{amount_of, eq_ignoring_case, integer_of, parse_amount, parse_integer, same_ignoring_case};
use crate::transaction::{Transaction, TransactionType, TransactionView};

verus! {

/// The columns of a transaction table.
#[derive(Clone, Copy, Debug, PartialEq, Eq, Structural)]
pub enum Column {
    UserId,
    AccountId,
    Amount,
    Desc,
    Date,
    TransactionType,
    Misc,
}

/// Why a row was set aside.
#[derive(Clone, Copy, Debug, PartialEq, Eq, Structural)]
pub enum FailureReason {
    /// The row could not be split into text fields, or it has another
    /// number of fields than the header.
    Unreadable,
    /// A required column is absent from the header or from the row.
    MissingField(Column),
    /// The text of the field does not write a value of the column's type.
    WrongType(Column),
    /// The transaction type is neither `credit` nor `debit`.
    UnknownTransactionType,
}

impl Column {
    /// The name under which a header lists the column.
    pub open spec fn name(self) -> Seq<char> {
        match self {
            Column::UserId => "user_id"@,
            Column::AccountId => "account_id"@,
            Column::Amount => "amount"@,
            Column::Desc => "desc"@,
            Column::Date => "date"@,
            Column::TransactionType => "transaction_type"@,
            Column::Misc => "misc"@,
        }
    }

    /// A header field names the column if it spells the column's name in
    /// any mix of upper and lower case.
    pub open spec fn named_by(self, field: Seq<char>) -> bool {
        same_ignoring_case(encode_utf8(field), encode_utf8(self.name()))
    }

    /// The name of the column as text.
    fn label(self) -> (text: &'static str)
        ensures
            text@ == self.name(),
    {
        match self {
            Column::UserId => "user_id",
            Column::AccountId => "account_id",
            Column::Amount => "amount",
            Column::Desc => "desc",
            Column::Date => "date",
            Column::TransactionType => "transaction_type",
            Column::Misc => "misc",
        }
    }
}

/// Position of the first header field at or after `from` that names the
/// column.
pub open spec fn column_position(header: Seq<Seq<char>>, column: Column, from: int) -> Option<int>
    decreases header.len() - from,
{
    if from < 0 || from >= header.len() {
        None
    } else if column.named_by(header[from]) {
        Some(from)
    } else {
        column_position(header, column, from + 1)
    }
}

/// Where each column stands in a row, for the columns that the header
/// names.
#[derive(Clone, Copy, Debug, PartialEq, Eq, Structural)]
pub struct Schema {
    pub user_id: Option<usize>,
    pub account_id: Option<usize>,
    pub amount: Option<usize>,
    pub desc: Option<usize>,
    pub date: Option<usize>,
    pub transaction_type: Option<usize>,
    pub misc: Option<usize>,
}

/// A position in a header as an index into a row.
pub open spec fn position_as_index(position: Option<int>) -> Option<usize> {
    match position {
        Some(i) => Some(i as usize),
        None => None,
    }
}

impl Schema {
    /// The position of a column, if the schema has it.
    pub open spec fn position(self, column: Column) -> Option<usize> {
        match column {
            Column::UserId => self.user_id,
            Column::AccountId => self.account_id,
            Column::Amount => self.amount,
            Column::Desc => self.desc,
            Column::Date => self.date,
            Column::TransactionType => self.transaction_type,
            Column::Misc => self.misc,
        }
    }

    /// The schema that a header row settles: each column stands where the
    /// header first names it.
    pub open spec fn of_header(header: Seq<Seq<char>>) -> Schema {
        Schema {
            user_id: position_as_index(column_position(header, Column::UserId, 0)),
            account_id: position_as_index(column_position(header, Column::AccountId, 0)),
            amount: position_as_index(column_position(header, Column::Amount, 0)),
            desc: position_as_index(column_position(header, Column::Desc, 0)),
            date: position_as_index(column_position(header, Column::Date, 0)),
            transaction_type: position_as_index(
                column_position(header, Column::TransactionType, 0),
            ),
            misc: position_as_index(column_position(header, Column::Misc, 0)),
        }
    }

    /// The schema of a table without any named column.
    pub fn empty() -> (schema: Schema)
        ensures
            schema == Schema::of_header(Seq::empty()),
    {
        Schema {
            user_id: None,
            account_id: None,
            amount: None,
            desc: None,
            date: None,
            transaction_type: None,
            misc: None,
        }
    }

    /// Reads the schema off a header row.
    pub fn from_header(header: &Vec<String>) -> (schema: Schema)
        ensures
            schema == Schema::of_header(header.deep_view()),
    {
        Schema {
            user_id: find_column(header, Column::UserId),
            account_id: find_column(header, Column::AccountId),
            amount: find_column(header, Column::Amount),
            desc: find_column(header, Column::Desc),
            date: find_column(header, Column::Date),
            transaction_type: find_column(header, Column::TransactionType),
            misc: find_column(header, Column::Misc),
        }
    }

    /// The position of a column, if the schema has it.
    fn index_of(&self, column: Column) -> (index: Option<usize>)
        ensures
            index == self.position(column),
    {
        match column {
            Column::UserId => self.user_id,
            Column::AccountId => self.account_id,
            Column::Amount => self.amount,
            Column::Desc => self.desc,
            Column::Date => self.date,
            Column::TransactionType => self.transaction_type,
            Column::Misc => self.misc,
        }
    }
}

/// Looks for the first field of a header that names a column.
fn find_column(header: &Vec<String>, column: Column) -> (index: Option<usize>)
    ensures
        index == position_as_index(column_position(header.deep_view(), column, 0)),
{
    let name = column.label();
    let mut i: usize = 0;
    while i < header.len()
        invariant
            i <= header.len(),
            name@ == column.name(),
            column_position(header.deep_view(), column, 0) == column_position(
                header.deep_view(),
                column,
                i as int,
            ),
        decreases header.len() - i,
    {
        assert(header.deep_view()[i as int] == header@[i as int]@);
        if eq_ignoring_case(header[i].as_str().as_bytes(), name.as_bytes()) {
            return Some(i);
        }
        i = i + 1;
    }
    None
}

/// The text that a row holds for a column, if the schema has the column and
/// the row is long enough.
pub open spec fn cell(schema: Schema, fields: Seq<Seq<char>>, column: Column) -> Option<Seq<char>> {
    match schema.position(column) {
        Some(i) => if i < fields.len() { Some(fields[i as int]) } else { None },
        None => None,
    }
}

/// A required field that holds a whole number.
pub open spec fn integer_cell(schema: Schema, fields: Seq<Seq<char>>, column: Column) -> Result<
    int,
    FailureReason,
> {
    match cell(schema, fields, column) {
        None => Err(FailureReason::MissingField(column)),
        Some(text) => match integer_of(encode_utf8(text)) {
            None => Err(FailureReason::WrongType(column)),
            Some(value) => Ok(value),
        },
    }
}

/// A required field that holds an amount.
pub open spec fn amount_cell(schema: Schema, fields: Seq<Seq<char>>, column: Column) -> Result<
    int,
    FailureReason,
> {
    match cell(schema, fields, column) {
        None => Err(FailureReason::MissingField(column)),
        Some(text) => match amount_of(encode_utf8(text)) {
            None => Err(FailureReason::WrongType(column)),
            Some(value) => Ok(value),
        },
    }
}

/// A required field that holds free text, which may be empty.
pub open spec fn text_cell(schema: Schema, fields: Seq<Seq<char>>, column: Column) -> Result<
    Seq<char>,
    FailureReason,
> {
    match cell(schema, fields, column) {
        None => Err(FailureReason::MissingField(column)),
        Some(text) => Ok(text),
    }
}

/// The transaction type that a text names, in any mix of upper and lower
/// case.
pub open spec fn type_of(text: Seq<char>) -> Option<TransactionType> {
    if same_ignoring_case(encode_utf8(text), encode_utf8("credit"@)) {
        Some(TransactionType::Credit)
    } else if same_ignoring_case(encode_utf8(text), encode_utf8("debit"@)) {
        Some(TransactionType::Debit)
    } else {
        None
    }
}

/// The required field that holds the transaction type.
pub open spec fn type_cell(schema: Schema, fields: Seq<Seq<char>>) -> Result<
    TransactionType,
    FailureReason,
> {
    match cell(schema, fields, Column::TransactionType) {
        None => Err(FailureReason::MissingField(Column::TransactionType)),
        Some(text) => match type_of(text) {
            None => Err(FailureReason::UnknownTransactionType),
            Some(kind) => Ok(kind),
        },
    }
}

/// An optional field: absent when the column is, and when the text is empty.
pub open spec fn optional_cell(schema: Schema, fields: Seq<Seq<char>>, column: Column) -> Option<
    Seq<char>,
> {
    match cell(schema, fields, column) {
        None => None,
        Some(text) => if text.len() == 0 { None } else { Some(text) },
    }
}

/// What decoding a row gives: the transaction, or the first reason, in the
/// order of the columns, for which the row is set aside.
pub open spec fn row_outcome(schema: Schema, fields: Seq<Seq<char>>) -> Result<
    TransactionView,
    FailureReason,
> {
    match integer_cell(schema, fields, Column::UserId) {
        Err(reason) => Err(reason),
        Ok(user_id) => match integer_cell(schema, fields, Column::AccountId) {
            Err(reason) => Err(reason),
            Ok(account_id) => match amount_cell(schema, fields, Column::Amount) {
                Err(reason) => Err(reason),
                Ok(amount) => match text_cell(schema, fields, Column::Desc) {
                    Err(reason) => Err(reason),
                    Ok(desc) => match text_cell(schema, fields, Column::Date) {
                        Err(reason) => Err(reason),
                        Ok(date) => match type_cell(schema, fields) {
                            Err(reason) => Err(reason),
                            Ok(transaction_type) => Ok(
                                TransactionView {
                                    user_id,
                                    account_id,
                                    amount,
                                    transaction_type,
                                    desc,
                                    date,
                                    misc: optional_cell(schema, fields, Column::Misc),
                                },
                            ),
                        },
                    },
                },
            },
        }
    }
}

/// The field of a row that holds a column.
fn get_cell<'a>(schema: &Schema, fields: &'a Vec<String>, column: Column) -> (text: Option<&'a String>)
    ensures
        (match text {
            Some(t) => cell(*schema, fields.deep_view(), column) == Some(t@),
            None => cell(*schema, fields.deep_view(), column) is None,
        }),
{
    match schema.index_of(column) {
        Some(i) => {
            if i < fields.len() {
                assert(fields.deep_view()[i as int] == fields@[i as int]@);
                Some(&fields[i])
            } else {
                None
            }
        },
        None => None,
    }
}

/// Reads a required field that holds a whole number.
fn read_integer(schema: &Schema, fields: &Vec<String>, column: Column) -> (value: Result<
    i64,
    FailureReason,
>)
    ensures
        (match value {
            Ok(v) => integer_cell(*schema, fields.deep_view(), column) == Ok::<int, FailureReason>(
                v as int,
            ),
            Err(e) => integer_cell(*schema, fields.deep_view(), column) == Err::<
                int,
                FailureReason,
            >(e),
        }),
{
    match get_cell(schema, fields, column) {
        None => Err(FailureReason::MissingField(column)),
        Some(text) => match parse_integer(text.as_str().as_bytes()) {
            None => Err(FailureReason::WrongType(column)),
            Some(v) => Ok(v),
        },
    }
}

/// Reads a required field that holds an amount.
fn read_amount(schema: &Schema, fields: &Vec<String>, column: Column) -> (value: Result<
    i64,
    FailureReason,
>)
    ensures
        (match value {
            Ok(v) => amount_cell(*schema, fields.deep_view(), column) == Ok::<int, FailureReason>(
                v as int,
            ) && v >= 0,
            Err(e) => amount_cell(*schema, fields.deep_view(), column) == Err::<
                int,
                FailureReason,
            >(e),
        }),
{
    match get_cell(schema, fields, column) {
        None => Err(FailureReason::MissingField(column)),
        Some(text) => match parse_amount(text.as_str().as_bytes()) {
            None => Err(FailureReason::WrongType(column)),
            Some(v) => Ok(v),
        },
    }
}

/// Reads a required field that holds free text.
fn read_text(schema: &Schema, fields: &Vec<String>, column: Column) -> (value: Result<
    String,
    FailureReason,
>)
    ensures
        (match value {
            Ok(v) => text_cell(*schema, fields.deep_view(), column) == Ok::<
                Seq<char>,
                FailureReason,
            >(v@),
            Err(e) => text_cell(*schema, fields.deep_view(), column) == Err::<
                Seq<char>,
                FailureReason,
            >(e),
        }),
{
    match get_cell(schema, fields, column) {
        None => Err(FailureReason::MissingField(column)),
        Some(text) => Ok(text.clone()),
    }
}

/// Reads a transaction type.
pub fn parse_type(text: &str) -> (kind: Option<TransactionType>)
    ensures
        kind == type_of(text@),
{
    if eq_ignoring_case(text.as_bytes(), "credit".as_bytes()) {
        Some(TransactionType::Credit)
    } else if eq_ignoring_case(text.as_bytes(), "debit".as_bytes()) {
        Some(TransactionType::Debit)
    } else {
        None
    }
}

/// Reads the required field that holds the transaction type.
fn read_type(schema: &Schema, fields: &Vec<String>) -> (value: Result<
    TransactionType,
    FailureReason,
>)
    ensures
        value == type_cell(*schema, fields.deep_view()),
{
    match get_cell(schema, fields, Column::TransactionType) {
        None => Err(FailureReason::MissingField(Column::TransactionType)),
        Some(text) => match parse_type(text.as_str()) {
            None => Err(FailureReason::UnknownTransactionType),
            Some(kind) => Ok(kind),
        },
    }
}

/// Reads an optional field.
fn read_optional(schema: &Schema, fields: &Vec<String>, column: Column) -> (value: Option<String>)
    ensures
        (match value {
            Some(v) => optional_cell(*schema, fields.deep_view(), column) == Some(v@),
            None => optional_cell(*schema, fields.deep_view(), column) is None,
        }),
{
    match get_cell(schema, fields, column) {
        None => None,
        Some(text) => {
            if text.as_str().is_empty() {
                None
            } else {
                Some(text.clone())
            }
        },
    }
}

/// Decodes one row. The outcome depends on the schema and the row alone,
/// and the amount of a decoded transaction is never negative.
pub fn parse_row(schema: &Schema, fields: &Vec<String>) -> (outcome: Result<
    Transaction,
    FailureReason,
>)
    ensures
        (match outcome {
            Ok(txn) => row_outcome(*schema, fields.deep_view()) == Ok::<
                TransactionView,
                FailureReason,
            >(txn@) && txn.amount >= 0,
            Err(reason) => row_outcome(*schema, fields.deep_view()) == Err::<
                TransactionView,
                FailureReason,
            >(reason),
        }),
{
    let user_id = match read_integer(schema, fields, Column::UserId) {
        Ok(v) => v,
        Err(reason) => { return Err(reason); },
    };
    let account_id = match read_integer(schema, fields, Column::AccountId) {
        Ok(v) => v,
        Err(reason) => { return Err(reason); },
    };
    let amount = match read_amount(schema, fields, Column::Amount) {
        Ok(v) => v,
        Err(reason) => { return Err(reason); },
    };
    let desc = match read_text(schema, fields, Column::Desc) {
        Ok(v) => v,
        Err(reason) => { return Err(reason); },
    };
    let date = match read_text(schema, fields, Column::Date) {
        Ok(v) => v,
        Err(reason) => { return Err(reason); },
    };
    let transaction_type = match read_type(schema, fields) {
        Ok(v) => v,
        Err(reason) => { return Err(reason); },
    };
    let misc = read_optional(schema, fields, Column::Misc);
    Ok(Transaction { user_id, account_id, amount, transaction_type, desc, date, misc })
}

} // verus!
