//! A virtual machine for programs written as a two-dimensional toroidal grid
//! of single-byte instructions, executed by an instruction pointer that moves
//! spatially across the grid and operates on a LIFO stack of byte cells.
//!
//! The library holds the whole execution engine: the grid loader, the operand
//! stack, the pointer/direction state machine, and the instruction dispatcher
//! including the string-literal sub-mode and self-modifying writes. Blocking
//! input and output are expressed as events: `step` reports that a byte or a
//! line is needed, or appends output bytes to a caller-supplied buffer, and
//! the surrounding program performs the actual reads and writes.

pub mod errors;
pub mod grid;
pub mod machine;
pub mod numeric;
