//! The library's error type and its exact user-facing messages.
use vstd::prelude::*;
use crate::numtext::dec_str;
use crate::numtext::u64_to_string;

verus! {

/// Everything that can go wrong while turning a CSV text into chart data.
#[derive(Debug)]
pub enum ChartError {
    /// The CSV layer could not tokenize the text; `detail` is its own report.
    Malformed { detail: String },
    /// A scatter or line row does not have exactly two columns.
    ColumnCount { line: usize },
    /// A scatter or line x cell is not an integer.
    BadX { line: usize },
    /// A scatter or line y cell is not an integer.
    BadY { line: usize },
    /// A pie row does not have at least a label and a value column.
    TooFewColumns { line: usize },
    /// A pie or radar value cell is not a number.
    BadValue { line: usize },
    /// A pie RGB cell is not a number between 0 and 255.
    BadColor { line: usize, column: usize },
    /// A pie row has more columns than label, value and an RGB triple.
    UnsupportedColumns,
    /// The values sum (pie) or maximum (radar) is zero: no geometry exists.
    DegenerateData,
    /// A sum of values left the representable fixed-point range.
    Overflow,
}

/// The exact message text of an error.
pub open spec fn message_spec(e: ChartError) -> Seq<char> {
    match e {
        ChartError::Malformed { detail } => detail@,
        ChartError::ColumnCount { line } => "Line "@ + dec_str(line as nat)
            + ": Expected exactly 2 columns for x and y values."@,
        ChartError::BadX { line } => "Line "@ + dec_str(line as nat)
            + ": Invalid x value. Expected an integer."@,
        ChartError::BadY { line } => "Line "@ + dec_str(line as nat)
            + ": Invalid y value. Expected an integer."@,
        ChartError::TooFewColumns { line } => "Line "@ + dec_str(line as nat)
            + ": Expected at least 2 columns for label and value."@,
        ChartError::BadValue { line } => "Line "@ + dec_str(line as nat)
            + ": Invalid value. Expected a number."@,
        ChartError::BadColor { line, column } => "Line "@ + dec_str(line as nat)
            + ": Invalid RGB color value at column "@ + dec_str(column as nat)
            + ". Expected a number between 0 and 255."@,
        ChartError::UnsupportedColumns => "Unsupported number of columns"@,
        ChartError::DegenerateData => "Degenerate data: values sum to zero."@,
        ChartError::Overflow => "Value out of range."@,
    }
}

impl ChartError {
    /// Renders the error as the text shown to the user.
    pub fn message(&self) -> (r: String)
        ensures
            r@ == message_spec(*self),
    {
        match self {
            ChartError::Malformed { detail } => detail.clone(),
            ChartError::ColumnCount { line } => line_message(
                *line,
                ": Expected exactly 2 columns for x and y values.",
            ),
            ChartError::BadX { line } => line_message(
                *line,
                ": Invalid x value. Expected an integer.",
            ),
            ChartError::BadY { line } => line_message(
                *line,
                ": Invalid y value. Expected an integer.",
            ),
            ChartError::TooFewColumns { line } => line_message(
                *line,
                ": Expected at least 2 columns for label and value.",
            ),
            ChartError::BadValue { line } => line_message(
                *line,
                ": Invalid value. Expected a number.",
            ),
            ChartError::BadColor { line, column } => {
                let mut s = line_message(*line, ": Invalid RGB color value at column ");
                s.append(u64_to_string(*column as u64).as_str());
                s.append(". Expected a number between 0 and 255.");
                s
            },
            ChartError::UnsupportedColumns => "Unsupported number of columns".to_owned(),
            ChartError::DegenerateData => "Degenerate data: values sum to zero.".to_owned(),
            ChartError::Overflow => "Value out of range.".to_owned(),
        }
    }
}

/// `"Line <n><tail>"`, the common shape of row-level messages.
fn line_message(line: usize, tail: &str) -> (r: String)
    ensures
        r@ == "Line "@ + dec_str(line as nat) + tail@,
{
    let mut s = "Line ".to_owned();
    s.append(u64_to_string(line as u64).as_str());
    s.append(tail);
    s
}

} // verus!
