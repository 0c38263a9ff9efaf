//! The anticipated failure conditions. All four are reported to the user in
//! plain language; none is an unstructured crash.

use vstd::prelude::*;

verus! {

/// What a store operation can refuse.
#[derive(Clone, Copy, Debug, PartialEq, Eq, Structural)]
pub enum StoreError {
    /// A lookup by name or by id matched no record; the command aborts but
    /// the process may go on.
    NotFound,
    /// An insert (or a rename) would give two records the same name.
    DuplicateName,
    /// The category is the reserved token that the category listing itself
    /// uses.
    ReservedName,
    /// The backing rows cannot be used as a store, or no fresh id is left;
    /// fatal for the calling process.
    StorageUnavailable,
}

} // verus!
