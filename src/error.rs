use vstd::prelude::*;

verus! {

/// Every way a command can fail. Each failure leaves all buffers as they were.
#[derive(Debug, Clone, Copy, PartialEq, Eq, Structural)]
pub enum PError {
    /// The command bytes are empty or carry an unknown tag.
    InvalidInstruction,
    /// The command's fields do not match its tag's layout.
    MalformedPayload,
    /// The signer is not the record's authority.
    Unauthorized,
    /// The principal that must sign did not.
    MissingSignature,
    /// The record buffer is not at the address derived for it.
    InvalidStorageAddress,
    /// The record buffer is read-only.
    AccountNotWritable,
    /// The accounts the command names are not all present.
    NotEnoughAccounts,
    /// The record was initialised before.
    AlreadyInitialized,
    /// The record has not been initialised.
    NotInitialized,
    /// The stored bytes are not a record.
    InvalidRecordData,
    /// An entry must carry a non-empty payload.
    InvalidEntryData,
    /// No request with that identity is in the record.
    EntryNotFound,
    /// The request was fulfilled before.
    AlreadyFulfilled,
    /// The reserve top-up could not be transferred.
    ReserveTransferFailed,
    /// The buffer could not be resized.
    ResizeFailed,
}

} // verus!
