use befunge::errors::Fault;
use befunge::grid::{parse_program, serialize_program};
use befunge::machine::{Direction, State, StepResult};

fn load(src: &[u8]) -> State {
    State::init(parse_program(src).unwrap())
}

/// Steps until the program halts, collecting output; fails the test on a
/// fault, on an input request, or after `limit` steps.
fn run_to_halt(state: &mut State, out: &mut Vec<u8>, limit: usize) {
    for _ in 0..limit {
        match state.step(out) {
            Ok(StepResult::Continue) => {},
            Ok(StepResult::Halt) => return,
            other => panic!("unexpected step outcome: {:?}", other),
        }
    }
    panic!("program did not halt within {} steps", limit);
}

#[test]
fn halt_after_exactly_one_step() {
    let mut s = load(b"@");
    let mut out: Vec<u8> = Vec::new();
    assert_eq!(s.step(&mut out), Ok(StepResult::Halt));
    assert!(s.stack.is_empty());
    assert!(out.is_empty());
    assert_eq!(serialize_program(&s.program), b"@".to_vec());
    assert_eq!((s.line, s.col), (0, 0));
}

#[test]
fn pop_on_empty_stack_is_zero() {
    let mut s = load(b"@");
    assert_eq!(s.pop(), 0);
    assert_eq!(s.pop(), 0);
    assert!(s.stack.is_empty());
}

#[test]
fn movement_wraps_at_every_edge() {
    let mut s = load(b"@");

    s.col = 255;
    s.dir = Direction::Right;
    s.mov();
    assert_eq!((s.line, s.col), (0, 0));

    s.dir = Direction::Left;
    s.mov();
    assert_eq!((s.line, s.col), (0, 255));

    s.line = 0;
    s.dir = Direction::Up;
    s.mov();
    assert_eq!(s.line, 255);

    s.dir = Direction::Down;
    s.mov();
    assert_eq!(s.line, 0);
}

#[test]
fn addition_wraps_modulo_256() {
    let mut s = load(b"+");
    s.push(200);
    s.push(100);
    let mut out: Vec<u8> = Vec::new();
    assert_eq!(s.step(&mut out), Ok(StepResult::Continue));
    assert_eq!(s.stack, vec![44]);
}

#[test]
fn subtraction_wraps_modulo_256() {
    let mut s = load(b"-");
    s.push(3);
    s.push(5);
    let mut out: Vec<u8> = Vec::new();
    assert_eq!(s.step(&mut out), Ok(StepResult::Continue));
    assert_eq!(s.stack, vec![254]);
}

#[test]
fn multiplication_wraps_modulo_256() {
    let mut s = load(b"*");
    s.push(100);
    s.push(3);
    let mut out: Vec<u8> = Vec::new();
    assert_eq!(s.step(&mut out), Ok(StepResult::Continue));
    assert_eq!(s.stack, vec![44]);
}

#[test]
fn division_pops_divisor_first() {
    let mut s = load(b"82/@");
    let mut out: Vec<u8> = Vec::new();
    run_to_halt(&mut s, &mut out, 10);
    assert_eq!(s.stack, vec![4]);
}

#[test]
fn modulo_pops_divisor_first() {
    let mut s = load(b"94%@");
    let mut out: Vec<u8> = Vec::new();
    run_to_halt(&mut s, &mut out, 10);
    assert_eq!(s.stack, vec![1]);
}

#[test]
fn division_by_zero_faults() {
    let mut s = load(b"/");
    let mut out: Vec<u8> = Vec::new();
    assert_eq!(s.step(&mut out), Err(Fault::DivisionByZero));
    // The fault leaves the machine untouched.
    assert!(s.stack.is_empty());
    assert_eq!((s.line, s.col), (0, 0));
}

#[test]
fn modulo_by_zero_faults() {
    let mut s = load(b"%");
    s.push(9);
    s.push(0);
    let mut out: Vec<u8> = Vec::new();
    assert_eq!(s.step(&mut out), Err(Fault::DivisionByZero));
    assert_eq!(s.stack, vec![9, 0]);
}

#[test]
fn logical_not() {
    let mut s = load(b"!!@");
    let mut out: Vec<u8> = Vec::new();
    run_to_halt(&mut s, &mut out, 10);
    // First `!` pops the zero of the empty stack and pushes 1; the second
    // pops 1 and pushes 0.
    assert_eq!(s.stack, vec![0]);
}

#[test]
fn greater_than() {
    let mut s = load(b"`");
    s.push(3);
    s.push(2);
    let mut out: Vec<u8> = Vec::new();
    assert_eq!(s.step(&mut out), Ok(StepResult::Continue));
    assert_eq!(s.stack, vec![1]);
}

#[test]
fn digits_push_their_values() {
    let mut s = load(b"0123456789@");
    let mut out: Vec<u8> = Vec::new();
    run_to_halt(&mut s, &mut out, 20);
    assert_eq!(s.stack, vec![0, 1, 2, 3, 4, 5, 6, 7, 8, 9]);
}

#[test]
fn duplicate_and_discard() {
    let mut s = load(b"5:$@");
    let mut out: Vec<u8> = Vec::new();
    run_to_halt(&mut s, &mut out, 10);
    assert_eq!(s.stack, vec![5]);
}

#[test]
fn duplicate_on_empty_stack() {
    let mut s = load(b":@");
    let mut out: Vec<u8> = Vec::new();
    run_to_halt(&mut s, &mut out, 10);
    assert_eq!(s.stack, vec![0, 0]);
}

#[test]
fn swap_exchanges_the_top_two() {
    let mut s = load(b"\\");
    s.push(1);
    s.push(2);
    let mut out: Vec<u8> = Vec::new();
    assert_eq!(s.step(&mut out), Ok(StepResult::Continue));
    assert_eq!(s.stack, vec![2, 1]);
}

#[test]
fn direction_instructions_set_the_heading() {
    let mut s = load(b"v");
    let mut out: Vec<u8> = Vec::new();
    assert_eq!(s.step(&mut out), Ok(StepResult::Continue));
    assert_eq!(s.dir, Direction::Down);
    assert_eq!((s.line, s.col), (1, 0));
}

#[test]
fn horizontal_branch() {
    let mut s = load(b"_");
    let mut out: Vec<u8> = Vec::new();
    assert_eq!(s.step(&mut out), Ok(StepResult::Continue));
    assert_eq!(s.dir, Direction::Right);

    let mut s = load(b"_");
    s.push(1);
    assert_eq!(s.step(&mut out), Ok(StepResult::Continue));
    assert_eq!(s.dir, Direction::Left);
}

#[test]
fn vertical_branch() {
    let mut s = load(b"|");
    let mut out: Vec<u8> = Vec::new();
    assert_eq!(s.step(&mut out), Ok(StepResult::Continue));
    assert_eq!(s.dir, Direction::Down);

    let mut s = load(b"|");
    s.push(7);
    assert_eq!(s.step(&mut out), Ok(StepResult::Continue));
    assert_eq!(s.dir, Direction::Up);
}

#[test]
fn skip_jumps_over_one_cell() {
    let mut s = load(b"#1@");
    let mut out: Vec<u8> = Vec::new();
    run_to_halt(&mut s, &mut out, 10);
    assert!(s.stack.is_empty());
}

#[test]
fn random_direction_is_one_of_four() {
    let mut s = load(b"?");
    let mut out: Vec<u8> = Vec::new();
    assert_eq!(s.step(&mut out), Ok(StepResult::Continue));
    let moved = match s.dir {
        Direction::Right => (0, 1),
        Direction::Left => (0, 255),
        Direction::Up => (255, 0),
        Direction::Down => (1, 0),
    };
    assert_eq!((s.line, s.col), moved);
    assert!(s.stack.is_empty());
}

#[test]
fn string_mode_pushes_literals() {
    let mut s = load(b"\"BA\"@");
    let mut out: Vec<u8> = Vec::new();
    run_to_halt(&mut s, &mut out, 10);
    // 'B' first, then 'A': the top of the stack is 'A'.
    assert_eq!(s.stack, vec![66, 65]);
    assert!(!s.str_mode);
}

#[test]
fn string_mode_takes_digits_verbatim() {
    let mut s = load(b"\"0\"@");
    let mut out: Vec<u8> = Vec::new();
    run_to_halt(&mut s, &mut out, 10);
    assert_eq!(s.stack, vec![48]);
}

#[test]
fn self_modification_roundtrip() {
    let mut s = load(b"pg@");
    s.push(7);  // value
    s.push(2);  // column
    s.push(3);  // line
    let mut out: Vec<u8> = Vec::new();
    assert_eq!(s.step(&mut out), Ok(StepResult::Continue));
    assert!(s.stack.is_empty());
    assert_eq!(s.program[3][2], 7);
    s.push(2);  // column
    s.push(3);  // line
    assert_eq!(s.step(&mut out), Ok(StepResult::Continue));
    assert_eq!(s.stack, vec![7]);
}

#[test]
fn read_own_cell() {
    let mut s = load(b"g");
    s.push(0);
    s.push(0);
    let mut out: Vec<u8> = Vec::new();
    assert_eq!(s.step(&mut out), Ok(StepResult::Continue));
    assert_eq!(s.stack, vec![b'g']);
}

#[test]
fn byte_output() {
    let mut s = load(b",");
    s.push(65);
    let mut out: Vec<u8> = Vec::new();
    assert_eq!(s.step(&mut out), Ok(StepResult::Continue));
    assert_eq!(out, vec![65]);
    assert!(s.stack.is_empty());
}

#[test]
fn decimal_output_appends_a_space() {
    let mut s = load(b"..");
    s.push(255);
    s.push(0);
    let mut out: Vec<u8> = Vec::new();
    assert_eq!(s.step(&mut out), Ok(StepResult::Continue));
    assert_eq!(out, b"0 ".to_vec());
    assert_eq!(s.step(&mut out), Ok(StepResult::Continue));
    assert_eq!(out, b"0 255 ".to_vec());
}

#[test]
fn multiply_and_print() {
    let mut s = load(b"52*.@");
    let mut out: Vec<u8> = Vec::new();
    run_to_halt(&mut s, &mut out, 10);
    assert_eq!(out, b"10 ".to_vec());
    assert!(s.stack.is_empty());
}

#[test]
fn byte_input_is_requested_and_pushed() {
    let mut s = load(b"~@");
    let mut out: Vec<u8> = Vec::new();
    assert_eq!(s.step(&mut out), Ok(StepResult::NeedByte));
    // The request leaves the machine untouched.
    assert_eq!((s.line, s.col), (0, 0));
    s.provide_byte(65);
    assert_eq!(s.stack, vec![65]);
    assert_eq!((s.line, s.col), (0, 1));
    assert_eq!(s.step(&mut out), Ok(StepResult::Halt));
}

#[test]
fn numeric_input_keeps_the_low_byte() {
    let mut s = load(b"&@");
    let mut out: Vec<u8> = Vec::new();
    assert_eq!(s.step(&mut out), Ok(StepResult::NeedLine));
    assert_eq!(s.provide_line(b" 300 \n"), Ok(()));
    assert_eq!(s.stack, vec![44]);
    assert_eq!(s.step(&mut out), Ok(StepResult::Halt));
}

#[test]
fn numeric_input_accepts_a_plus_sign() {
    let mut s = load(b"&");
    assert_eq!(s.provide_line(b"+7\n"), Ok(()));
    assert_eq!(s.stack, vec![7]);
}

#[test]
fn numeric_input_accepts_the_largest_value() {
    let mut s = load(b"&");
    assert_eq!(s.provide_line(b"18446744073709551615\n"), Ok(()));
    assert_eq!(s.stack, vec![255]);
}

#[test]
fn numeric_input_trims_unicode_whitespace() {
    let mut s = load(b"&");
    // Thin space before the digit, as text trimming removes it.
    assert_eq!(s.provide_line("\u{2009}5\n".as_bytes()), Ok(()));
    assert_eq!(s.stack, vec![5]);
    // No-break space, ideographic space, and next line around a numeral.
    assert_eq!(s.provide_line("\u{a0}\u{3000}12\u{85}\n".as_bytes()), Ok(()));
    assert_eq!(s.stack, vec![5, 12]);
    // Ogham space mark, narrow no-break space, paragraph separator.
    assert_eq!(s.provide_line("\u{1680}\u{202f}7\u{2029}".as_bytes()), Ok(()));
    assert_eq!(s.stack, vec![5, 12, 7]);
}

#[test]
fn non_whitespace_unicode_input_faults() {
    let mut s = load(b"&");
    // An accented letter is not whitespace.
    assert_eq!(s.provide_line("\u{e9}5\n".as_bytes()), Err(Fault::InvalidNumericInput));
    // A zero-width space is not a white-space character either.
    assert_eq!(s.provide_line("\u{200b}5\n".as_bytes()), Err(Fault::InvalidNumericInput));
    // Whitespace inside the numeral does not trim away.
    assert_eq!(s.provide_line(b"1 2\n"), Err(Fault::InvalidNumericInput));
    assert!(s.stack.is_empty());
}

#[test]
fn malformed_numeric_input_faults() {
    let mut s = load(b"&");
    assert_eq!(s.provide_line(b"abc\n"), Err(Fault::InvalidNumericInput));
    assert_eq!(s.provide_line(b"\n"), Err(Fault::InvalidNumericInput));
    assert_eq!(s.provide_line(b"12x\n"), Err(Fault::InvalidNumericInput));
    assert_eq!(s.provide_line(b"-4\n"), Err(Fault::InvalidNumericInput));
    // One past the largest 64-bit value.
    assert_eq!(s.provide_line(b"18446744073709551616\n"), Err(Fault::InvalidNumericInput));
    // The faults leave the machine untouched.
    assert!(s.stack.is_empty());
    assert_eq!((s.line, s.col), (0, 0));
}

#[test]
fn unassigned_cells_are_no_ops() {
    let mut s = load(b"a b@");
    let mut out: Vec<u8> = Vec::new();
    run_to_halt(&mut s, &mut out, 10);
    assert!(s.stack.is_empty());
    assert!(out.is_empty());
}

#[test]
fn control_flow_over_the_grid() {
    // Walk down, right, and back up into the halt cell.
    let mut s = load(b"v@\n>^");
    let mut out: Vec<u8> = Vec::new();
    run_to_halt(&mut s, &mut out, 20);
    assert!(s.stack.is_empty());
}
