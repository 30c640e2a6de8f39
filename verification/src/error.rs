//! The ways in which a registry operation is refused.

use vstd::prelude::*;

verus! {

/// Why the registry refused an operation. A refused operation writes nothing.
#[derive(Clone, Copy, Debug, PartialEq, Eq, Structural)]
pub enum RegistryError {
    /// The anonymous identity tried to upload.
    Unauthorized,
    /// No record is kept under the given identifier.
    NotFound,
    /// The caller is not the owner of the record.
    Forbidden,
    /// A blob is already kept under the given content hash.
    AlreadyExists,
    /// The named seller does not own the record.
    InvalidSeller,
    /// The record is not listed for sale.
    NotForSale,
}

} // verus!
