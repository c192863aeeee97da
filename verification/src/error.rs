//! Error taxonomy of the stack.

use vstd::prelude::*;

verus! {

/// A bounded buffer had no room for the bytes being appended.
#[derive(Copy, Clone, Debug, PartialEq, Eq, Structural)]
pub struct InsufficientBuffer;

/// A sub-field of a PDU could not be parsed.
#[derive(Copy, Clone, Debug, PartialEq, Eq, Structural)]
pub enum ParseError {
    InvalidPDUFormat,
    InvalidValue,
    InvalidLength,
    InsufficientBuffer,
}

/// The 24-bit outbound sequence space is exhausted; the node must
/// re-provision or initiate an IV update.
#[derive(Copy, Clone, Debug, PartialEq, Eq, Structural)]
pub struct SeqRolloverError;

/// A 16-bit address value lies outside the range of the variant asked for.
#[derive(Copy, Clone, Debug, PartialEq, Eq, Structural)]
pub struct InvalidAddress;

/// A block-ack referred to a segment index beyond the last segment.
#[derive(Copy, Clone, Debug, PartialEq, Eq, Structural)]
pub struct InvalidBlock;

/// A message integrity code had a length other than 4 or 8 bytes.
#[derive(Copy, Clone, Debug, PartialEq, Eq, Structural)]
pub struct InvalidLength;

/// Errors surfaced by the stack driver.
#[derive(Copy, Clone, Debug, PartialEq, Eq, Structural)]
pub enum DriverError {
    InvalidState,
    InvalidKeyLength,
    CryptoError,
    InvalidAddress,
    InsufficientSpace,
    InvalidKeyHandle,
    InvalidPDU,
    IncompleteTransaction,
    ParseError(ParseError),
    SeqRolloverError,
}

} // verus!
