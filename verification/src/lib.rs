//! Streaming grouped aggregation of financial transactions.
//!
//! The records of a transaction table are decoded one at a time, classified
//! by `(user_id, date)` and folded into the [`summary::Summary`] of their
//! bucket: the number of transactions, their net signed total and the
//! smallest and largest signed amount. Records that cannot be decoded are
//! set aside with their position and the reason, and never touch a bucket.
//!
//! Amounts are exact decimals with two places: an amount is held as a whole
//! number of hundredths, so a sum does not depend on the order of addition.
//!
//! The modules, from the leaves up:
//!
//! - [`transaction`]: a decoded transaction and its signed amount;
//! - [`summary`]: the accumulator, with `identity`, `extend` and `merge`;
//! - [`algebra`]: the laws of the accumulator;
//! - [`text`]: decoding of single fields;
//! - [`parser`]: the schema of a table and the decoding of a row;
//! - [`order`]: the order of buckets, by user and date;
//! - [`grouping`]: the buckets of a run, and [`combining`] and
//!   [`regrouping`] with what is proved of them;
//! - [`engine`]: the run itself, record by record;
//! - [`report`]: the result arranged by user;
//! - [`stream`]: a whole run over the bytes of a table, and [`exactness`]
//!   with the proof that its result is settled by the input.

pub mod transaction;
pub mod summary;
pub mod algebra;
pub mod text;
pub mod parser;
pub mod order;
pub mod grouping;
pub mod combining;
pub mod regrouping;
pub mod engine;
pub mod report;
pub mod stream;
pub mod exactness;
