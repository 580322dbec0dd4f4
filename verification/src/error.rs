//! The error taxonomy of the library.
//!
//! Backend result codes reach the library already decoded from the wire.
//! Errors carry a code and a human-readable message; the retry policy of
//! the execution engine consults the two classification predicates
//! `need_retry` and `need_refresh_table` rather than matching on codes at
//! each call site.

use vstd::prelude::*;

verus! {

/// The backend result codes the routing engine reacts to. `OB_SUCCESS` is
/// the success code; the remaining codes classify failures.
#[allow(non_camel_case_types)]
#[derive(Clone, Copy, Debug, PartialEq, Eq, Structural)]
pub enum ResultCodes {
    /// The backend executed the operation.
    OB_SUCCESS,
    /// A fatal backend failure: no retry, no refresh.
    OB_ERROR,
    /// The operation timed out; retry within the budget.
    OB_TIMEOUT,
    /// The addressed replica is no longer the partition leader; refresh
    /// the table's metadata, then retry.
    OB_NOT_MASTER,
    /// The addressed backend no longer serves the root catalog; refresh,
    /// then retry.
    OB_RS_NOT_MASTER,
    /// The partition addressed by the request does not exist on the
    /// backend; refresh, then retry.
    OB_PARTITION_NOT_EXIST,
    /// The request addressed an invalid partition; also returned by the
    /// library itself when an atomic batch spans several partitions.
    OB_INVALID_PARTITION,
}

impl ResultCodes {
    /// Codes after which the table's metadata must be refreshed before a
    /// retry can succeed.
    pub open spec fn spec_need_refresh(self) -> bool {
        ||| self is OB_NOT_MASTER
        ||| self is OB_RS_NOT_MASTER
        ||| self is OB_PARTITION_NOT_EXIST
    }

    /// Codes after which a retry may succeed.
    pub open spec fn spec_need_retry(self) -> bool {
        self is OB_TIMEOUT || self.spec_need_refresh()
    }
}

/// The failure classes every public operation can report.
#[derive(Clone, Copy, Debug, PartialEq, Eq, Structural)]
pub enum CommonErrCode {
    /// The client has not been initialized yet.
    NotInitialized,
    /// The client has been closed.
    AlreadyClosed,
    /// A table, replica, partition leader or backend handle is missing.
    NotFound,
    /// Malformed partition metadata, an unsupported partition level for a
    /// range query, or a missing row-key element for a partitioned table.
    PartitionError,
    /// A non-blocking refresh found another refresh of the same table in
    /// progress.
    Lock,
    /// The backend returned the carried result code.
    ObException(ResultCodes),
}

/// An error of the library: a failure class with a message.
#[derive(Debug)]
pub enum Error {
    Common(CommonErrCode, String),
}

impl Error {
    pub open spec fn spec_code(self) -> CommonErrCode {
        match self {
            Error::Common(code, _) => code,
        }
    }

    /// The failure class of this error.
    pub fn code(&self) -> (c: CommonErrCode)
        ensures
            c == self.spec_code(),
    {
        match self {
            Error::Common(code, _) => *code,
        }
    }

    /// The message of this error.
    pub fn message(&self) -> (m: &String)
        ensures
            match self {
                Error::Common(_, msg) => m@ == msg@,
            },
    {
        match self {
            Error::Common(_, msg) => msg,
        }
    }

    pub open spec fn spec_need_refresh_table(self) -> bool {
        match self.spec_code() {
            CommonErrCode::ObException(code) => code.spec_need_refresh(),
            _ => false,
        }
    }

    /// True when the failure indicates stale routing metadata, so that the
    /// table's entry should be refreshed before the next attempt.
    pub fn need_refresh_table(&self) -> (r: bool)
        ensures
            r == self.spec_need_refresh_table(),
    {
        match self.code() {
            CommonErrCode::ObException(code) => matches!(
                code,
                ResultCodes::OB_NOT_MASTER
                    | ResultCodes::OB_RS_NOT_MASTER
                    | ResultCodes::OB_PARTITION_NOT_EXIST
            ),
            _ => false,
        }
    }

    pub open spec fn spec_need_retry(self) -> bool {
        match self.spec_code() {
            CommonErrCode::ObException(code) => code.spec_need_retry(),
            _ => false,
        }
    }

    /// True when a retry of the failed operation may succeed.
    pub fn need_retry(&self) -> (r: bool)
        ensures
            r == self.spec_need_retry(),
    {
        match self.code() {
            CommonErrCode::ObException(code) => matches!(
                code,
                ResultCodes::OB_TIMEOUT
                    | ResultCodes::OB_NOT_MASTER
                    | ResultCodes::OB_RS_NOT_MASTER
                    | ResultCodes::OB_PARTITION_NOT_EXIST
            ),
            _ => false,
        }
    }
}

/// Builds an error of the given class over a message.
pub fn common_err(code: CommonErrCode, message: &str) -> (e: Error)
    ensures
        e.spec_code() == code,
        e matches Error::Common(c, m) && c == code && m@ == message@,
{
    Error::Common(code, message.to_owned())
}

} // verus!
