use vstd::prelude::*;

verus! {

/// Why a share name was refused.
#[derive(Debug, Clone, Copy, PartialEq, Eq, Structural)]
pub enum ShareAddressError {
    InvalidCharacters,
    InvalidLength,
    StartsWithDigit,
}

/// Why an identity shortname was refused.
#[derive(Debug, Clone, Copy, PartialEq, Eq, Structural)]
pub enum IdentityError {
    InvalidCharacters,
    InvalidLength,
    StartsWithDigit,
}

/// The first document check that failed.
#[derive(Debug, Clone, Copy, PartialEq, Eq, Structural)]
pub enum DocumentError {
    InvalidText,
    InvalidTextHash,
    InvalidFormat,
    InvalidPath,
    InvalidSignature,
    InvalidTimestamp,
    InvalidShareSignature,
    InvalidDeleteAfter,
    InvalidAttachmentSize,
    InvalidAttachmentHash,
}

} // verus!
