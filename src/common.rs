use vstd::prelude::*;

verus! {

/// Size in bytes of every page handed out by the buffer manager.
pub const PAGE_SIZE: u32 = 4096;

/// Page number that never names a page: numbering starts at 1.
pub const INVALID_PAGE_NO: u32 = 0;

/// Reserved table that holds the transaction status log.
pub const TRANSACTION_LOG_TABLE_ID: u32 = 0;

/// Largest number of columns a table may have.
pub const MAX_COLUMNS: u8 = 64;

/// Identifier of a transaction; `0` means no transaction.
pub type TransactionId = u32;

/// Per-transaction statement counter.
pub type CommandId = u8;

/// Page number inside one table, starting at 1.
pub type PageNo = u32;

/// Identifier of a table.
pub type TableId = u32;

/// Index into the slot directory of a page.
pub type Slot = u8;

/// Physical location of a tuple: page number and slot.
pub type TupleId = (PageNo, Slot);

/// Everything that the storage core reports to its callers as a failure.
#[derive(Clone, Copy, Debug, PartialEq, Eq, Structural)]
pub enum DbError {
    /// No transaction id is left to hand out.
    TransactionIdsExhausted,
    /// A transaction tried to run more statements than a command id can count.
    TooManyStatements,
    /// `commit` on a transaction that already committed.
    AlreadyCommitted,
    /// `abort` on a transaction that already aborted.
    AlreadyAborted,
    /// `commit` on a transaction that was aborted.
    CommitAfterAbort,
    /// `abort` on a transaction that was committed.
    AbortAfterCommit,
    /// `commit` on a transaction that must be rolled back.
    RollbackExpected,
    /// The transaction log has no page: the data is corrupt or bootstrap failed.
    EmptyLog,
    /// Bootstrap was asked for over an existing transaction log.
    LogAlreadyExists,
    /// The transaction log holds more pages than transaction ids exist.
    LogTooLarge,
    /// A tuple would not fit into a page.
    TupleTooLarge,
    /// A tuple has no or more columns than a table may have.
    BadColumnCount,
    /// A tuple id names no page or no slot of the table.
    NoSuchTuple,
    /// A page number names no page of the table.
    NoSuchPage,
    /// The bytes of a page or a tuple do not have the expected shape.
    MalformedData,
    /// A table cannot grow by another page.
    TableFull,
    /// An expression was applied to values of the wrong type.
    TypeMismatch,
    /// Integer division or remainder by zero.
    DivisionByZero,
    /// An integer result does not fit.
    IntegerOverflow,
    /// An expression names a column that the row does not have.
    NoSuchColumn,
}

} // verus!
