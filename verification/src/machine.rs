//! The machine state and the instruction dispatcher.
//!
//! A [`State`] owns the program grid, the operand stack, the instruction
//! pointer with its direction, and the string-mode flag. One call of
//! [`State::step`] executes the instruction under the pointer. Instructions
//! that need input do not block: `step` reports [`StepResult::NeedByte`] or
//! [`StepResult::NeedLine`] and leaves the state untouched, and the driver
//! answers through [`State::provide_byte`] or [`State::provide_line`].
//! Output bytes are appended to a caller-supplied buffer.
//!
//! The whole deterministic transition is captured by the specification
//! function [`step_spec`], a mathematical interpreter over the ghost
//! [`Model`] of the state; the contract of `step` is that it implements
//! `step_spec`.

use vstd::prelude::*;
use crate::errors::Fault;
use crate::grid::{cell, grid_view, grid_wf, grid_write};
use crate::numeric::decimal_digits;
use crate::numeric::digits_part;
use crate::numeric::format_decimal;
use crate::numeric::is_valid_u64_text;
use crate::numeric::lemma_decimal_value_nonneg;
use crate::numeric::numeric_value;
use crate::numeric::parse_decimal;
use crate::numeric::trimmed;

verus! {

/// The cardinal heading the instruction pointer advances along after each
/// executed instruction.
#[derive(Debug, Clone, Copy, PartialEq, Eq, Structural)]
pub enum Direction {
    Right,
    Left,
    Up,
    Down,
}

/// What one executed instruction asks of the driver loop.
#[derive(Debug, Clone, Copy, PartialEq, Eq, Structural)]
pub enum StepResult {
    /// Execution goes on with the next instruction.
    Continue,
    /// The halt instruction was reached; the run is over.
    Halt,
    /// The byte-input instruction needs one input byte before it can run.
    NeedByte,
    /// The numeric-input instruction needs one input line before it can run.
    NeedLine,
}

/// The pointer position one cell onward from `(line, col)` in direction
/// `dir`. The grid is a torus: moving past an edge wraps to the opposite
/// edge.
pub open spec fn step_pos(line: u8, col: u8, dir: Direction) -> (u8, u8) {
    match dir {
        Direction::Right => (line, if col == 255 { 0u8 } else { (col + 1) as u8 }),
        Direction::Left => (line, if col == 0 { 255u8 } else { (col - 1) as u8 }),
        Direction::Up => (if line == 0 { 255u8 } else { (line - 1) as u8 }, col),
        Direction::Down => (if line == 255 { 0u8 } else { (line + 1) as u8 }, col),
    }
}

/// Movement at an edge wraps to the opposite edge: the last column moving
/// right lands on column 0, column 0 moving left lands on the last column,
/// row 0 moving up lands on the last row, and the last row moving down lands
/// on row 0. The other coordinate never changes.
pub proof fn lemma_toroidal_wrap(line: u8, col: u8)
    ensures
        step_pos(line, 255, Direction::Right) == (line, 0u8),
        step_pos(line, 0, Direction::Left) == (line, 255u8),
        step_pos(0, col, Direction::Up) == (255u8, col),
        step_pos(255, col, Direction::Down) == (0u8, col),
{
}

/// Cell addition wrapping modulo 2^8.
pub open spec fn wrap_add(b: u8, a: u8) -> u8 {
    ((b + a) % 256) as u8
}

/// Cell subtraction wrapping modulo 2^8.
pub open spec fn wrap_sub(b: u8, a: u8) -> u8 {
    ((b - a + 256) % 256) as u8
}

/// Cell multiplication wrapping modulo 2^8.
pub open spec fn wrap_mul(b: u8, a: u8) -> u8 {
    ((b * a) % 256) as u8
}

/// The mathematical value of a machine state: the deep view of the grid and
/// the stack together with the scalar fields.
#[verifier::ext_equal]
pub ghost struct Model {
    pub grid: Seq<Seq<u8>>,
    pub line: u8,
    pub col: u8,
    pub stack: Seq<u8>,
    pub dir: Direction,
    pub str_mode: bool,
}

/// A model is well formed when its grid is a full 256 x 256 array.
pub open spec fn model_wf(m: Model) -> bool {
    grid_wf(m.grid)
}

/// `m` with another stack.
pub open spec fn with_stack(m: Model, stack: Seq<u8>) -> Model {
    Model { stack, ..m }
}

/// `m` with another direction.
pub open spec fn with_dir(m: Model, dir: Direction) -> Model {
    Model { dir, ..m }
}

/// `m` with the string-mode flag set or cleared.
pub open spec fn with_str_mode(m: Model, str_mode: bool) -> Model {
    Model { str_mode, ..m }
}

/// `m` with another grid.
pub open spec fn with_grid(m: Model, grid: Seq<Seq<u8>>) -> Model {
    Model { grid, ..m }
}

/// `m` with `v` pushed onto the stack.
pub open spec fn pushed(m: Model, v: u8) -> Model {
    with_stack(m, m.stack.push(v))
}

/// `m` with the pointer advanced one cell in its current direction.
pub open spec fn advanced(m: Model) -> Model {
    Model { line: step_pos(m.line, m.col, m.dir).0, col: step_pos(m.line, m.col, m.dir).1, ..m }
}

/// One pop: the remaining stack and the value. Popping an empty stack yields
/// the zero cell and leaves the stack empty; underflow never faults.
pub open spec fn popped(st: Seq<u8>) -> (Seq<u8>, u8) {
    if st.len() == 0 {
        (st, 0u8)
    } else {
        (st.drop_last(), st.last())
    }
}

/// Two pops: the remaining stack, the first value popped, the second.
pub open spec fn popped2(st: Seq<u8>) -> (Seq<u8>, u8, u8) {
    let p1 = popped(st);
    let p2 = popped(p1.0);
    (p2.0, p1.1, p2.1)
}

/// Three pops: the remaining stack and the three values in pop order.
pub open spec fn popped3(st: Seq<u8>) -> (Seq<u8>, u8, u8, u8) {
    let p1 = popped(st);
    let p2 = popped(p1.0);
    let p3 = popped(p2.0);
    (p3.0, p1.1, p2.1, p3.1)
}

/// The direction a pseudorandom byte selects, uniformly over the four
/// directions.
pub open spec fn dir_of_draw(d: u8) -> Direction {
    if d % 4 == 0 {
        Direction::Right
    } else if d % 4 == 1 {
        Direction::Left
    } else if d % 4 == 2 {
        Direction::Up
    } else {
        Direction::Down
    }
}

/// The outcome of executing one instruction, at the level of the model.
pub ghost enum Outcome {
    /// The ordinary case: the machine has the given new model.
    Cont { post: Model },
    /// As `Cont`, and the given bytes were appended to the output.
    Emit { post: Model, bytes: Seq<u8> },
    /// The halt instruction: the machine stops, its state untouched.
    Halted,
    /// The byte-input instruction: nothing happens until a byte is provided.
    AwaitByte,
    /// The numeric-input instruction: nothing happens until a line is
    /// provided.
    AwaitLine,
    /// The random-direction instruction: the machine takes one of the four
    /// directions and advances along it.
    RandomTurn,
    /// A fatal fault; the state is left untouched.
    Faulted { fault: Fault },
}

/// The transition of one instruction: a complete interpreter for every cell
/// value, over the model. In string mode every cell but the quote is pushed
/// verbatim; otherwise the cell value selects an operation, and every
/// unassigned value is a no-op that only advances the pointer.
pub open spec fn step_spec(m: Model) -> Outcome {
    let c = cell(m.grid, m.line, m.col);
    if m.str_mode {
        if c == 34 {  // '"' ends the literal
            Outcome::Cont { post: advanced(with_str_mode(m, false)) }
        } else {
            Outcome::Cont { post: advanced(pushed(m, c)) }
        }
    } else if 48 <= c && c <= 57 {  // '0' ..= '9'
        Outcome::Cont { post: advanced(pushed(m, (c - 48) as u8)) }
    } else if c == 43 {  // '+'
        let p = popped2(m.stack);
        Outcome::Cont { post: advanced(with_stack(m, p.0.push(wrap_add(p.2, p.1)))) }
    } else if c == 45 {  // '-'
        let p = popped2(m.stack);
        Outcome::Cont { post: advanced(with_stack(m, p.0.push(wrap_sub(p.2, p.1)))) }
    } else if c == 42 {  // '*'
        let p = popped2(m.stack);
        Outcome::Cont { post: advanced(with_stack(m, p.0.push(wrap_mul(p.2, p.1)))) }
    } else if c == 47 {  // '/'
        let p = popped2(m.stack);
        if p.1 == 0 {
            Outcome::Faulted { fault: Fault::DivisionByZero }
        } else {
            Outcome::Cont { post: advanced(with_stack(m, p.0.push((p.2 / p.1) as u8))) }
        }
    } else if c == 37 {  // '%'
        let p = popped2(m.stack);
        if p.1 == 0 {
            Outcome::Faulted { fault: Fault::DivisionByZero }
        } else {
            Outcome::Cont { post: advanced(with_stack(m, p.0.push((p.2 % p.1) as u8))) }
        }
    } else if c == 33 {  // '!'
        let p = popped(m.stack);
        Outcome::Cont {
            post: advanced(with_stack(m, p.0.push(if p.1 == 0 { 1u8 } else { 0u8 }))),
        }
    } else if c == 96 {  // '`'
        let p = popped2(m.stack);
        Outcome::Cont {
            post: advanced(with_stack(m, p.0.push(if p.2 > p.1 { 1u8 } else { 0u8 }))),
        }
    } else if c == 62 {  // '>'
        Outcome::Cont { post: advanced(with_dir(m, Direction::Right)) }
    } else if c == 60 {  // '<'
        Outcome::Cont { post: advanced(with_dir(m, Direction::Left)) }
    } else if c == 94 {  // '^'
        Outcome::Cont { post: advanced(with_dir(m, Direction::Up)) }
    } else if c == 118 {  // 'v'
        Outcome::Cont { post: advanced(with_dir(m, Direction::Down)) }
    } else if c == 63 {  // '?'
        Outcome::RandomTurn
    } else if c == 95 {  // '_'
        let p = popped(m.stack);
        Outcome::Cont {
            post: advanced(
                with_dir(
                    with_stack(m, p.0),
                    if p.1 == 0 {
                        Direction::Right
                    } else {
                        Direction::Left
                    },
                ),
            ),
        }
    } else if c == 124 {  // '|'
        let p = popped(m.stack);
        Outcome::Cont {
            post: advanced(
                with_dir(
                    with_stack(m, p.0),
                    if p.1 == 0 {
                        Direction::Down
                    } else {
                        Direction::Up
                    },
                ),
            ),
        }
    } else if c == 34 {  // '"' starts the literal
        Outcome::Cont { post: advanced(with_str_mode(m, true)) }
    } else if c == 58 {  // ':'
        let p = popped(m.stack);
        Outcome::Cont { post: advanced(with_stack(m, p.0.push(p.1).push(p.1))) }
    } else if c == 92 {  // '\'
        let p = popped2(m.stack);
        Outcome::Cont { post: advanced(with_stack(m, p.0.push(p.1).push(p.2))) }
    } else if c == 36 {  // '$'
        let p = popped(m.stack);
        Outcome::Cont { post: advanced(with_stack(m, p.0)) }
    } else if c == 35 {  // '#'
        Outcome::Cont { post: advanced(advanced(m)) }
    } else if c == 112 {  // 'p'
        let p = popped3(m.stack);
        Outcome::Cont {
            post: advanced(with_grid(with_stack(m, p.0), grid_write(m.grid, p.1, p.2, p.3))),
        }
    } else if c == 103 {  // 'g'
        let p = popped2(m.stack);
        Outcome::Cont { post: advanced(with_stack(m, p.0.push(cell(m.grid, p.1, p.2)))) }
    } else if c == 64 {  // '@'
        Outcome::Halted
    } else if c == 126 {  // '~'
        Outcome::AwaitByte
    } else if c == 38 {  // '&'
        Outcome::AwaitLine
    } else if c == 44 {  // ','
        let p = popped(m.stack);
        Outcome::Emit { post: advanced(with_stack(m, p.0)), bytes: seq![p.1] }
    } else if c == 46 {  // '.'
        let p = popped(m.stack);
        Outcome::Emit {
            post: advanced(with_stack(m, p.0)),
            bytes: decimal_digits(p.1) + seq![32u8],
        }
    } else {
        Outcome::Cont { post: advanced(m) }
    }
}

/// The complete machine state: the program grid, the instruction pointer,
/// the operand stack, the direction, and the string-mode flag.
pub struct State {
    /// The program grid, 256 rows of 256 cells.
    pub program: Vec<Vec<u8>>,
    /// The pointer's row.
    pub line: u8,
    /// The pointer's column.
    pub col: u8,
    /// The operand stack; the end of the vector is the top.
    pub stack: Vec<u8>,
    /// The heading the pointer advances along.
    pub dir: Direction,
    /// Whether cell reads currently push literals.
    pub str_mode: bool,
}

/// Relies on `rand::random`: draws one pseudorandom byte. Nothing is assumed
/// about the value; every caller must handle every byte.
#[verifier::external_body]
fn random_byte() -> (r: u8) {
    rand::random::<u8>()
}

/// Maps a pseudorandom byte to the direction it selects.
pub fn direction_of_draw(d: u8) -> (r: Direction)
    ensures
        r == dir_of_draw(d),
{
    match d % 4 {
        0 => Direction::Right,
        1 => Direction::Left,
        2 => Direction::Up,
        _ => Direction::Down,
    }
}

impl State {
    /// The mathematical value of this state.
    pub open spec fn model(self) -> Model {
        Model {
            grid: grid_view(self.program@),
            line: self.line,
            col: self.col,
            stack: self.stack@,
            dir: self.dir,
            str_mode: self.str_mode,
        }
    }

    /// A state is well formed when its grid is a full 256 x 256 array.
    pub open spec fn wf(self) -> bool {
        model_wf(self.model())
    }

    /// The initial state on a freshly loaded program: pointer at the origin,
    /// heading right, empty stack, string mode off.
    pub fn init(program: Vec<Vec<u8>>) -> (s: State)
        requires
            grid_wf(grid_view(program@)),
        ensures
            s.wf(),
            s.model() == (Model {
                grid: grid_view(program@),
                line: 0,
                col: 0,
                stack: Seq::empty(),
                dir: Direction::Right,
                str_mode: false,
            }),
    {
        let s = State {
            program,
            line: 0,
            col: 0,
            stack: Vec::new(),
            dir: Direction::Right,
            str_mode: false,
        };
        proof {
            assert(s.model() =~= (Model {
                grid: grid_view(s.program@),
                line: 0,
                col: 0,
                stack: Seq::empty(),
                dir: Direction::Right,
                str_mode: false,
            }));
        }
        s
    }

    /// Pops the top cell. On an empty stack this returns the zero cell and
    /// changes nothing: underflow never faults.
    pub fn pop(&mut self) -> (r: u8)
        ensures
            r == popped(old(self).model().stack).1,
            final(self).model() == with_stack(old(self).model(), popped(old(self).model().stack).0),
            old(self).stack@.len() == 0 ==> r == 0 && final(self).model() == old(self).model(),
    {
        let r = match self.stack.pop() {
            Some(v) => v,
            None => 0,
        };
        proof {
            assert(self.model() =~= with_stack(old(self).model(), popped(old(self).model().stack).0));
            if old(self).stack@.len() == 0 {
                assert(self.model() =~= old(self).model());
            }
        }
        r
    }

    /// Pushes a cell onto the stack.
    pub fn push(&mut self, val: u8)
        ensures
            final(self).model() == pushed(old(self).model(), val),
    {
        self.stack.push(val);
        proof {
            assert(self.model() =~= pushed(old(self).model(), val));
        }
    }

    /// Advances the pointer one cell in the current direction, wrapping at
    /// the grid's edges.
    pub fn mov(&mut self)
        ensures
            final(self).model() == advanced(old(self).model()),
    {
        match self.dir {
            Direction::Right => {
                self.col = if self.col == 255 { 0 } else { self.col + 1 };
            },
            Direction::Left => {
                self.col = if self.col == 0 { 255 } else { self.col - 1 };
            },
            Direction::Up => {
                self.line = if self.line == 0 { 255 } else { self.line - 1 };
            },
            Direction::Down => {
                self.line = if self.line == 255 { 0 } else { self.line + 1 };
            },
        }
        proof {
            assert(self.model() =~= advanced(old(self).model()));
        }
    }

    /// Executes the instruction under the pointer, exactly as [`step_spec`]
    /// says: the state takes the model the outcome names, emitted bytes are
    /// appended to `out`, input instructions and faults leave everything
    /// untouched, and the random-direction instruction takes some direction
    /// and advances along it.
    #[verifier::rlimit(100)]
    pub fn step(&mut self, out: &mut Vec<u8>) -> (r: Result<StepResult, Fault>)
        requires
            old(self).wf(),
        ensures
            final(self).wf(),
            match step_spec(old(self).model()) {
                Outcome::Cont { post } => {
                    &&& r == Ok::<StepResult, Fault>(StepResult::Continue)
                    &&& final(self).model() == post
                    &&& final(out)@ == old(out)@
                },
                Outcome::Emit { post, bytes } => {
                    &&& r == Ok::<StepResult, Fault>(StepResult::Continue)
                    &&& final(self).model() == post
                    &&& final(out)@ == old(out)@ + bytes
                },
                Outcome::Halted => {
                    &&& r == Ok::<StepResult, Fault>(StepResult::Halt)
                    &&& final(self).model() == old(self).model()
                    &&& final(out)@ == old(out)@
                },
                Outcome::AwaitByte => {
                    &&& r == Ok::<StepResult, Fault>(StepResult::NeedByte)
                    &&& final(self).model() == old(self).model()
                    &&& final(out)@ == old(out)@
                },
                Outcome::AwaitLine => {
                    &&& r == Ok::<StepResult, Fault>(StepResult::NeedLine)
                    &&& final(self).model() == old(self).model()
                    &&& final(out)@ == old(out)@
                },
                Outcome::RandomTurn => {
                    &&& r == Ok::<StepResult, Fault>(StepResult::Continue)
                    &&& final(self).model() == advanced(with_dir(old(self).model(), final(self).dir))
                    &&& final(out)@ == old(out)@
                },
                Outcome::Faulted { fault } => {
                    &&& r == Err::<StepResult, Fault>(fault)
                    &&& final(self).model() == old(self).model()
                    &&& final(out)@ == old(out)@
                },
            },
    {
        proof {
            assert(self.program@.len() == 256);
            assert(grid_view(self.program@)[self.line as int].len() == 256);
        }
        let instr = self.program[self.line as usize][self.col as usize];
        proof {
            assert(instr == cell(old(self).model().grid, old(self).line, old(self).col));
        }

        if self.str_mode {
            if instr == 34 {
                self.str_mode = false;
                proof {
                    assert(self.model() =~= with_str_mode(old(self).model(), false));
                }
            } else {
                self.push(instr);
            }
            self.mov();
            return Ok(StepResult::Continue);
        }

        if 48 <= instr && instr <= 57 {
            self.push(instr - 48);
            self.mov();
            return Ok(StepResult::Continue);
        }

        match instr {
            43 => {  // '+'
                let a = self.pop();
                let b = self.pop();
                let s = (b as u16) + (a as u16);
                self.push((s % 256) as u8);
            },
            45 => {  // '-'
                let a = self.pop();
                let b = self.pop();
                let s = (b as u16) + 256 - (a as u16);
                self.push((s % 256) as u8);
            },
            42 => {  // '*'
                let a = self.pop();
                let b = self.pop();
                proof {
                    assert((b as u16) * (a as u16) <= 65025) by (nonlinear_arith)
                        requires
                            b as u16 <= 255,
                            a as u16 <= 255,
                    ;
                }
                let s = (b as u16) * (a as u16);
                self.push((s % 256) as u8);
            },
            47 => {  // '/'
                let len = self.stack.len();
                if len == 0 || self.stack[len - 1] == 0 {
                    return Err(Fault::DivisionByZero);
                }
                let a = self.pop();
                let b = self.pop();
                self.push(b / a);
            },
            37 => {  // '%'
                let len = self.stack.len();
                if len == 0 || self.stack[len - 1] == 0 {
                    return Err(Fault::DivisionByZero);
                }
                let a = self.pop();
                let b = self.pop();
                self.push(b % a);
            },
            33 => {  // '!'
                let a = self.pop();
                self.push(if a == 0 { 1 } else { 0 });
            },
            96 => {  // '`'
                let a = self.pop();
                let b = self.pop();
                self.push(if b > a { 1 } else { 0 });
            },
            62 => {  // '>'
                self.dir = Direction::Right;
                proof {
                    assert(self.model() =~= with_dir(old(self).model(), Direction::Right));
                }
            },
            60 => {  // '<'
                self.dir = Direction::Left;
                proof {
                    assert(self.model() =~= with_dir(old(self).model(), Direction::Left));
                }
            },
            94 => {  // '^'
                self.dir = Direction::Up;
                proof {
                    assert(self.model() =~= with_dir(old(self).model(), Direction::Up));
                }
            },
            118 => {  // 'v'
                self.dir = Direction::Down;
                proof {
                    assert(self.model() =~= with_dir(old(self).model(), Direction::Down));
                }
            },
            63 => {  // '?'
                let d = random_byte();
                let nd = direction_of_draw(d);
                self.dir = nd;
                proof {
                    assert(self.model() =~= with_dir(old(self).model(), nd));
                }
            },
            95 => {  // '_'
                let a = self.pop();
                self.dir = if a == 0 {
                    Direction::Right
                } else {
                    Direction::Left
                };
            },
            124 => {  // '|'
                let a = self.pop();
                self.dir = if a == 0 {
                    Direction::Down
                } else {
                    Direction::Up
                };
            },
            34 => {  // '"'
                self.str_mode = true;
                proof {
                    assert(self.model() =~= with_str_mode(old(self).model(), true));
                }
            },
            58 => {  // ':'
                let a = self.pop();
                self.push(a);
                self.push(a);
            },
            92 => {  // '\'
                let a = self.pop();
                let b = self.pop();
                self.push(a);
                self.push(b);
            },
            36 => {  // '$'
                self.pop();
            },
            35 => {  // '#'
                self.mov();
            },
            112 => {  // 'p'
                let wline = self.pop();
                let wcol = self.pop();
                let v = self.pop();
                proof {
                    assert(self.program@.len() == 256);
                    assert(grid_view(self.program@)[wline as int].len() == 256);
                }
                self.program[wline as usize][wcol as usize] = v;
                proof {
                    assert(grid_view(self.program@) =~= grid_write(
                        old(self).model().grid,
                        wline,
                        wcol,
                        v,
                    ));
                }
            },
            103 => {  // 'g'
                let rline = self.pop();
                let rcol = self.pop();
                proof {
                    assert(self.program@.len() == 256);
                    assert(grid_view(self.program@)[rline as int].len() == 256);
                }
                let v = self.program[rline as usize][rcol as usize];
                self.push(v);
            },
            64 => {  // '@'
                return Ok(StepResult::Halt);
            },
            126 => {  // '~'
                return Ok(StepResult::NeedByte);
            },
            38 => {  // '&'
                return Ok(StepResult::NeedLine);
            },
            44 => {  // ','
                let a = self.pop();
                out.push(a);
                proof {
                    assert(out@ =~= old(out)@ + seq![a]);
                }
            },
            46 => {  // '.'
                let a = self.pop();
                let mut text = format_decimal(a);
                text.push(32);
                out.append(&mut text);
                proof {
                    assert(out@ =~= old(out)@ + (decimal_digits(a) + seq![32u8]));
                }
            },
            _ => {},
        }

        self.mov();
        Ok(StepResult::Continue)
    }

    /// Answers the byte-input instruction: pushes the byte that was read and
    /// advances the pointer past the instruction.
    pub fn provide_byte(&mut self, b: u8)
        ensures
            final(self).model() == advanced(pushed(old(self).model(), b)),
    {
        self.push(b);
        self.mov();
    }

    /// Answers the numeric-input instruction with the line that was read. A
    /// valid unsigned decimal numeral is kept modulo 2^8 — its low-order
    /// byte — and pushed, and the pointer advances; anything else is the
    /// fatal invalid-numeric-input fault, which changes nothing.
    pub fn provide_line(&mut self, text: &[u8]) -> (r: Result<(), Fault>)
        ensures
            r is Ok <==> is_valid_u64_text(text@),
            is_valid_u64_text(text@) ==> final(self).model() == advanced(
                pushed(old(self).model(), (numeric_value(text@) % 256) as u8),
            ),
            !is_valid_u64_text(text@) ==> r == Err::<(), Fault>(Fault::InvalidNumericInput)
                && final(self).model() == old(self).model(),
    {
        match parse_decimal(text) {
            Some(v) => {
                proof {
                    lemma_decimal_value_nonneg(digits_part(trimmed(text@)));
                }
                self.push((v % 256) as u8);
                self.mov();
                Ok(())
            },
            None => Err(Fault::InvalidNumericInput),
        }
    }
}

/// Cell arithmetic wraps modulo 2^8: the sum, difference, and product
/// instructions push exactly the mathematical result reduced modulo 256.
pub proof fn lemma_arith_wraps(b: u8, a: u8)
    ensures
        wrap_add(b, a) == (b + a) % 256,
        wrap_sub(b, a) == ((b - a) % 256 + 256) % 256,
        wrap_mul(b, a) == (b * a) % 256,
{
    assert(((b - a) % 256 + 256) % 256 == (b - a + 256) % 256);
    assert(b * a >= 0) by (nonlinear_arith);
}

/// Self-modification round-trips: a write instruction that stores `v` at row
/// `wline`, column `wcol` leaves exactly that cell changed, and a read
/// instruction executed next on the same coordinates pushes `v` back.
pub proof fn lemma_self_modification_roundtrip(
    m: Model,
    m2: Model,
    rest: Seq<u8>,
    rest2: Seq<u8>,
    v: u8,
    wcol: u8,
    wline: u8,
)
    requires
        model_wf(m),
        !m.str_mode,
        cell(m.grid, m.line, m.col) == 112,
        m.stack == rest + seq![v, wcol, wline],
        model_wf(m2),
        !m2.str_mode,
        cell(m2.grid, m2.line, m2.col) == 103,
        m2.grid == grid_write(m.grid, wline, wcol, v),
        m2.stack == rest2 + seq![wcol, wline],
    ensures
        step_spec(m) matches Outcome::Cont { post } && post.grid == grid_write(
            m.grid,
            wline,
            wcol,
            v,
        ) && post.stack == rest,
        cell(grid_write(m.grid, wline, wcol, v), wline, wcol) == v,
        step_spec(m2) matches Outcome::Cont { post } && post.stack == rest2.push(v)
            && post.grid == m2.grid,
{
    assert(m.stack.len() == rest.len() + 3);
    assert(m.stack.last() == wline);
    assert(m.stack.drop_last() =~= rest + seq![v, wcol]);
    assert((rest + seq![v, wcol]).last() == wcol);
    assert((rest + seq![v, wcol]).drop_last() =~= rest + seq![v]);
    assert((rest + seq![v]).last() == v);
    assert((rest + seq![v]).drop_last() =~= rest);
    assert(m2.stack.last() == wline);
    assert(m2.stack.drop_last() =~= rest2 + seq![wcol]);
    assert((rest2 + seq![wcol]).last() == wcol);
    assert((rest2 + seq![wcol]).drop_last() =~= rest2);
}

} // verus!
