//! What can go wrong while reading an archive of address tables.
use vstd::prelude::*;

verus! {

/// Why an archive of address tables could not be read. `entry` is the
/// position of a table in the archive, `row` the position of a line in its
/// table (the header is row 0) and `field` the position of a field of
/// `Address`.
#[derive(Clone, Copy, Debug, PartialEq, Eq, Structural)]
pub enum AddressError {
    /// The bytes are no ZIP archive, or one of its entries cannot be read.
    Zip,
    /// The text of an entry is not a well-formed semicolon-delimited table.
    Csv { entry: usize },
    /// A required field has no column in the header of an entry.
    MissingColumn { entry: usize, field: usize },
    /// A field has more than one column in the header of an entry.
    DuplicateColumn { entry: usize, field: usize },
    /// A row has another number of cells than the header, or a cell that
    /// does not hold a value of its field's type.
    Row { entry: usize, row: usize },
}

impl AddressError {
    /// The entry an error is about; none for an archive that cannot be read.
    pub open spec fn entry_index(self) -> Option<usize> {
        match self {
            AddressError::Zip => None,
            AddressError::Csv { entry } => Some(entry),
            AddressError::MissingColumn { entry, field: _ } => Some(entry),
            AddressError::DuplicateColumn { entry, field: _ } => Some(entry),
            AddressError::Row { entry, row: _ } => Some(entry),
        }
    }
}

} // verus!
