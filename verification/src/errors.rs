use vstd::prelude::*;

verus! {

/// The program's own validation failures, surfaced directly to the caller.
#[derive(Clone, Copy, Debug, PartialEq, Eq, Structural)]
pub enum ErrorCode {
    /// The payload exceeds the 500-byte limit.
    MessageTooLong,
    /// The payload is empty.
    EmptyMessage,
    /// The caller of receive is not the stored recipient.
    UnauthorizedRecipient,
}

/// Outcome of a failed instruction as the host ledger surfaces it: either one
/// of the program's own error codes, or a failure from the host's standard
/// set, propagated unmodified.
#[derive(Clone, Copy, Debug, PartialEq, Eq, Structural)]
pub enum InstructionError {
    /// A validation failure raised by the program itself.
    Program(ErrorCode),
    /// The derived record address is already occupied, so the host refuses to
    /// create the account a second time.
    AccountAlreadyExists,
    /// No record lives at the derived address the caller named.
    AccountNotFound,
}

} // verus!
