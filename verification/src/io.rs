use vstd::prelude::*;

pub mod csv;

verus! {

use crate::io::csv::CellTable;

/// Trait for file-format readers: a format turns a file's text into the
/// verbatim identifier and coordinate cells of a point table, which the
/// caller then assembles into a point collection with the value parser of
/// its choice.
pub trait PointReader {
    type ErrorType;

    fn read_content(&self, content: &str) -> Result<CellTable, Self::ErrorType>;
}

} // verus!
