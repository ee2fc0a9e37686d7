//! Self-certifying names and self-validating signed documents.
pub mod address;
pub mod document;
pub mod encoding;
pub mod error;

pub use address::{Identity, ShareAddress};
pub use document::{Document, Timestamp};
pub use error::{DocumentError, IdentityError, ShareAddressError};
