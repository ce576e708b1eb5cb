//! The diff writer's handle. Rendering the records into a styled workbook
//! file is I/O and lives with the caller.

use vstd::prelude::*;

verus! {

/// Writer producing a highlighted workbook from diff records.
pub struct ExcelDiffWriter;

impl ExcelDiffWriter {
    pub fn new() -> ExcelDiffWriter {
        ExcelDiffWriter
    }
}

impl Default for ExcelDiffWriter {
    fn default() -> ExcelDiffWriter {
        ExcelDiffWriter::new()
    }
}

} // verus!
