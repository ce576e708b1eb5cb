//! Compare two worksheets row by row and classify every row as identical,
//! modified, removed, or added, naming the columns that changed within a
//! modified row.

pub mod cell;
pub mod differ;
pub mod excel_reader;
pub mod laws;
pub mod text;
pub mod writer;

pub use cell::CellValue;
pub use cell::Row;
pub use cell::Worksheet;
pub use differ::DiffType;
pub use differ::RowDiff;
pub use differ::WorksheetDiffer;
pub use excel_reader::ExcelReader;
pub use writer::ExcelDiffWriter;
