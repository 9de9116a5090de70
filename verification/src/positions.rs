//! Line and column positions derived from UTF-8 text bytes.
//!
//! The line index counts newline bytes before a position; the column index
//! counts characters (UTF-8 sequence starts) since the last newline. Both
//! are zero-indexed here; reported positions turn the line one-indexed.

use vstd::prelude::*;

verus! {

pub open spec fn nl_byte() -> u8 {
    10
}

/// A UTF-8 continuation byte continues the character started by an earlier
/// byte and adds no column.
pub open spec fn is_continuation(b: u8) -> bool {
    128 <= b < 192
}

/// Number of newline bytes strictly before `pos`: the 0-indexed line.
pub open spec fn line_index_at(text: Seq<u8>, pos: int) -> int
    decreases (if pos >= 0 { pos } else { 0 }),
{
    if pos <= 0 {
        0
    } else {
        line_index_at(text, pos - 1) + if text[pos - 1] == nl_byte() {
            1 as int
        } else {
            0 as int
        }
    }
}

/// Number of characters between the last newline before `pos` and `pos`:
/// the 0-indexed column.
pub open spec fn column_index_at(text: Seq<u8>, pos: int) -> int
    decreases (if pos >= 0 { pos } else { 0 }),
{
    if pos <= 0 {
        0
    } else if text[pos - 1] == nl_byte() {
        0
    } else {
        column_index_at(text, pos - 1) + if is_continuation(text[pos - 1]) {
            0 as int
        } else {
            1 as int
        }
    }
}

/// A 0-indexed line and column pair for one byte position.
#[derive(PartialEq, Eq, Structural, Clone, Copy, Debug)]
pub struct LineAndColumnIndex {
    pub line_index: usize,
    pub column_index: usize,
}

/// Computes the 0-indexed line and column of byte position `pos` in `text`.
pub fn line_and_column_index(text: &Vec<u8>, pos: usize) -> (r: LineAndColumnIndex)
    requires
        pos <= text@.len(),
    ensures
        r.line_index == line_index_at(text@, pos as int),
        r.column_index == column_index_at(text@, pos as int),
{
    let mut line: usize = 0;
    let mut col: usize = 0;
    let mut k: usize = 0;
    while k < pos
        invariant
            k <= pos <= text@.len(),
            line == line_index_at(text@, k as int),
            col == column_index_at(text@, k as int),
            line <= k,
            col <= k,
        decreases pos - k,
    {
        let b = text[k];
        if b == 10 {
            line = line + 1;
            col = 0;
        } else if !(128 <= b && b < 192) {
            col = col + 1;
        }
        k = k + 1;
    }
    LineAndColumnIndex { line_index: line, column_index: col }
}

/// One position of a machine-readable diagnostic record: 1-indexed line,
/// 0-indexed column, and the byte offset. The field layout is a stability
/// contract of the machine-readable output.
#[derive(PartialEq, Eq, Structural, Clone, Copy, Debug)]
pub struct JsonDiagnosticLintPosition {
    /// The 1-indexed line number.
    pub line: usize,
    /// The 0-indexed column index.
    pub col: usize,
    pub byte_pos: usize,
}

impl JsonDiagnosticLintPosition {
    /// Pairs a byte offset with its line/column position, shifting the line
    /// to 1-indexed.
    pub fn new(byte_index: usize, loc: LineAndColumnIndex) -> (r: JsonDiagnosticLintPosition)
        requires
            loc.line_index < usize::MAX,
        ensures
            r.line == loc.line_index + 1,
            r.col == loc.column_index,
            r.byte_pos == byte_index,
    {
        JsonDiagnosticLintPosition {
            line: loc.line_index + 1,
            col: loc.column_index,
            byte_pos: byte_index,
        }
    }
}

} // verus!
