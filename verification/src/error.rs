use vstd::prelude::*;

verus! {

/// The failures this library reports. Every operation returns one of these
/// synchronously; nothing panics and nothing is thrown.
#[derive(Debug, Clone, Copy, PartialEq, Eq, Structural)]
pub enum ExcelError {
    /// A source or destination file is missing or unreadable.
    FileNotFound,
    /// A sheet name lookup missed.
    SheetNotFound,
    /// A sheet with the requested name already exists.
    SheetAlreadyExists,
    /// A malformed cell or range string, or a header range that spans
    /// neither a single row nor a single column.
    InvalidReference,
    /// An operation needing a current sheet ran before one was chosen.
    NoSheetSelected,
    /// An operation needing a current cell ran before one was chosen.
    NoCellSelected,
    /// A strict width or name mismatch between a table and a sheet.
    ColumnMismatch,
    /// A table cell's scalar kind is not one of string, int, float, bool.
    UnsupportedValueType,
    /// Heterogeneous column lengths handed to a table builder.
    LengthMismatch,
    /// An average over lines that hold no numeric cell at all.
    DivisionByZero,
    /// A cell whose text does not parse as a number, under the aggregation
    /// variant that refuses such cells outright.
    NonNumericCell,
    /// A write to disk failed.
    IOError,
}

/// The wording of each failure.
pub open spec fn message_text(e: ExcelError) -> Seq<char> {
    match e {
        ExcelError::FileNotFound => "file not found"@,
        ExcelError::SheetNotFound => "sheet not found"@,
        ExcelError::SheetAlreadyExists => "sheet already exists"@,
        ExcelError::InvalidReference => "invalid cell or range reference"@,
        ExcelError::NoSheetSelected => "no sheet specified"@,
        ExcelError::NoCellSelected => "no cell specified"@,
        ExcelError::ColumnMismatch => "columns do not match"@,
        ExcelError::UnsupportedValueType => "unsupported value type"@,
        ExcelError::LengthMismatch => "lists have different lengths"@,
        ExcelError::DivisionByZero => "division by zero"@,
        ExcelError::NonNumericCell => "non-numeric value in cell"@,
        ExcelError::IOError => "failed to write file"@,
    }
}

impl ExcelError {
    /// A short description of the failure.
    pub fn message(&self) -> (r: String)
        ensures
            r@ == message_text(*self),
    {
        match self {
            ExcelError::FileNotFound => String::from_str("file not found"),
            ExcelError::SheetNotFound => String::from_str("sheet not found"),
            ExcelError::SheetAlreadyExists => String::from_str("sheet already exists"),
            ExcelError::InvalidReference => String::from_str("invalid cell or range reference"),
            ExcelError::NoSheetSelected => String::from_str("no sheet specified"),
            ExcelError::NoCellSelected => String::from_str("no cell specified"),
            ExcelError::ColumnMismatch => String::from_str("columns do not match"),
            ExcelError::UnsupportedValueType => String::from_str("unsupported value type"),
            ExcelError::LengthMismatch => String::from_str("lists have different lengths"),
            ExcelError::DivisionByZero => String::from_str("division by zero"),
            ExcelError::NonNumericCell => String::from_str("non-numeric value in cell"),
            ExcelError::IOError => String::from_str("failed to write file"),
        }
    }
}

} // verus!
