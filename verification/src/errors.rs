//! Error types: structural errors raised while loading source text, and fatal
//! faults raised while the machine runs.

use vstd::prelude::*;

verus! {

/// A structural defect of the source text, detected before any instruction
/// executes.
#[derive(Debug, Clone, Copy, PartialEq, Eq, Structural)]
pub enum LoadError {
    /// The source has more lines than the grid has rows.
    SourceTooTall,
    /// The line with the given zero-based index has more characters than the
    /// grid has columns.
    SourceTooWide(usize),
    /// The source contains a byte outside the 0..=127 range.
    SourceNotAscii,
}

/// A fatal run-time fault. Every fault aborts the run immediately; none is
/// ever downgraded or masked.
#[derive(Debug, Clone, Copy, PartialEq, Eq, Structural)]
pub enum Fault {
    /// A division or modulo instruction found a zero divisor on the stack.
    DivisionByZero,
    /// A line read for the numeric-input instruction does not parse as an
    /// unsigned decimal integer.
    InvalidNumericInput,
}

} // verus!
