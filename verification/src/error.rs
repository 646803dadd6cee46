//! The failure kinds of the library and of the surrounding tool.
use vstd::prelude::*;

verus! {

/// Everything that can go wrong while loading, selecting or rendering. The
/// variants that wrap outside failures (I/O, decoders) carry the reported
/// text.
#[derive(Debug)]
pub enum AppError {
    /// The input path exists neither as a file nor as a directory.
    InvalidInputPath(String),
    /// The file's extension names no supported format.
    UnsupportedFormat(String),
    /// Reading or writing a file failed.
    Io(String),
    /// The input holds no data at all.
    EmptyData(String),
    /// Two columns of the input share a name.
    DuplicateColumn(String),
    /// A tabular file could not be parsed.
    ParseFailure(String),
    /// An audio file could not be decoded.
    AudioDecode(String),
    /// A spreadsheet could not be read.
    SpreadsheetParse(String),
    /// Serializing plot data to JSON failed.
    JsonSerialization(String),
    /// Filling the page template failed.
    TemplateRender(String),
    /// A requested column is not in the data.
    ColumnNotFound(String),
    /// No plottable column is left after selecting the X axis.
    NoNumericColumns,
}

impl AppError {
    /// The descriptive text of each failure.
    pub open spec fn message_spec(&self) -> Seq<char> {
        match self {
            AppError::InvalidInputPath(p) => "Invalid input path: "@ + p@,
            AppError::UnsupportedFormat(p) => "Unsupported file format for: "@ + p@,
            AppError::Io(m) => "I/O error: "@ + m@,
            AppError::EmptyData(m) => "No data: "@ + m@,
            AppError::DuplicateColumn(n) => "Duplicate column name: "@ + n@,
            AppError::ParseFailure(m) => "Data parsing error: "@ + m@,
            AppError::AudioDecode(m) => "Audio decoding error: "@ + m@,
            AppError::SpreadsheetParse(m) => "Spreadsheet parsing error: "@ + m@,
            AppError::JsonSerialization(m) => "Failed to serialize data to JSON: "@ + m@,
            AppError::TemplateRender(m) => "Failed to render the page: "@ + m@,
            AppError::ColumnNotFound(n) => "Column '"@ + n@ + "' not found in the data"@,
            AppError::NoNumericColumns => "No numeric columns found to plot"@,
        }
    }

    /// A description of the failure for the error stream.
    pub fn message(&self) -> (r: String)
        ensures
            r@ == self.message_spec(),
    {
        match self {
            AppError::InvalidInputPath(p) => crate::text::concat2("Invalid input path: ", p.as_str()),
            AppError::UnsupportedFormat(p) => crate::text::concat2(
                "Unsupported file format for: ",
                p.as_str(),
            ),
            AppError::Io(m) => crate::text::concat2("I/O error: ", m.as_str()),
            AppError::EmptyData(m) => crate::text::concat2("No data: ", m.as_str()),
            AppError::DuplicateColumn(n) => crate::text::concat2(
                "Duplicate column name: ",
                n.as_str(),
            ),
            AppError::ParseFailure(m) => crate::text::concat2("Data parsing error: ", m.as_str()),
            AppError::AudioDecode(m) => crate::text::concat2(
                "Audio decoding error: ",
                m.as_str(),
            ),
            AppError::SpreadsheetParse(m) => crate::text::concat2(
                "Spreadsheet parsing error: ",
                m.as_str(),
            ),
            AppError::JsonSerialization(m) => crate::text::concat2(
                "Failed to serialize data to JSON: ",
                m.as_str(),
            ),
            AppError::TemplateRender(m) => crate::text::concat2(
                "Failed to render the page: ",
                m.as_str(),
            ),
            AppError::ColumnNotFound(n) => {
                let head = crate::text::concat2("Column '", n.as_str());
                crate::text::concat2(head.as_str(), "' not found in the data")
            },
            AppError::NoNumericColumns => "No numeric columns found to plot".to_owned(),
        }
    }
}

} // verus!
