//! Error kinds shared by the ledger and wallet services.
use vstd::prelude::*;

verus! {

/// The kinds of failure that the library reports.
#[derive(Clone, Copy, Debug, PartialEq, Eq, Structural)]
pub enum ErrorKind {
    NotFound,
    InvalidInput,
    PermissionDenied,
    InsufficientBalance,
    BalanceAdditionError,
    TransactionNotFound,
    WalletNotFound,
    PrivateKeyNotFound,
    StorageError,
    InvalidNonce,
    InvalidSignature,
    NonceNotReady,
    PartialNotReady,
    ProofError,
}

/// An error of the library: its kind.
#[derive(Clone, Copy, Debug, PartialEq, Eq, Structural)]
pub struct Error {
    pub kind: ErrorKind,
}

impl Error {
    pub fn new(kind: ErrorKind) -> (r: Error)
        ensures
            r.kind == kind,
    {
        Error { kind }
    }

    /// The kind of this error.
    pub fn kind(&self) -> (r: ErrorKind)
        ensures
            r == self.kind,
    {
        self.kind
    }
}

} // verus!
