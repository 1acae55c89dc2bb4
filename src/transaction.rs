use vstd::prelude::*;
use std::collections::HashMap;

verus! {

#[allow(clippy::upper_case_acronyms)]
#[derive(PartialEq, Eq, Structural, Clone, Copy, Debug)]
pub enum TransactionState {
    RUNNING,
    TAINTED,
    COMMITTED,
    ABORTED,
}

#[allow(clippy::upper_case_acronyms)]
#[derive(PartialEq, Eq, Structural, Clone, Copy, Debug)]
pub enum IsolationLevel {
    READUNCOMMITTED,
    SNAPSHOTISOLATION,
    SERIALIZABLE,
}

pub struct Transaction {
    pub id: u64,
    pub finished: bool,
}

impl Transaction {
    /// Transaction zero, not finished.
    pub fn new() -> (r: Self)
        ensures
            r.id == 0,
            !r.finished,
    {
        Transaction { id: 0, finished: false }
    }
}

/// Outcome of a transactional operation.
#[derive(Clone, Debug, PartialEq)]
pub enum TxnResult<T, E> {
    Success(T),
    Failure(E),
}

pub type TimeStamp = u64;

pub type SlottedOffset = u64;

pub type TxnId = i64;

/// Transaction id that marks a link to no earlier version.
pub const INVALID_TXN_ID: TxnId = -1;

/// Link from a tuple version to the transaction that wrote the previous one.
pub struct UndoLink {
    pub prev_txn: TxnId,
}

impl UndoLink {
    pub fn is_valid(&self) -> (r: bool)
        ensures
            r == (self.prev_txn != INVALID_TXN_ID),
    {
        self.prev_txn != INVALID_TXN_ID
    }
}

/// Undo links of the tuples of one page, by slot offset.
pub struct PageVersionInfo {
    pub prev_link: HashMap<SlottedOffset, UndoLink>,
}

/// Timestamps of the running transactions.
pub struct Watermark {}

} // verus!
