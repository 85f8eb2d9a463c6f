use befunge::errors::LoadError;
use befunge::grid::{parse_program, serialize_program};

#[test]
fn roundtrip_two_lines() {
    let grid = parse_program(b"ab\ncd").unwrap();
    assert_eq!(serialize_program(&grid), b"ab\ncd".to_vec());
}

#[test]
fn roundtrip_interior_blank_line() {
    let grid = parse_program(b"a\n\nb").unwrap();
    assert_eq!(serialize_program(&grid), b"a\n\nb".to_vec());
}

#[test]
fn roundtrip_single_line() {
    let grid = parse_program(b"12345@").unwrap();
    assert_eq!(serialize_program(&grid), b"12345@".to_vec());
}

#[test]
fn roundtrip_empty_source() {
    let grid = parse_program(b"").unwrap();
    assert_eq!(serialize_program(&grid), Vec::<u8>::new());
}

#[test]
fn serialize_drops_trailing_newline() {
    let grid = parse_program(b"ab\n").unwrap();
    assert_eq!(serialize_program(&grid), b"ab".to_vec());
}

#[test]
fn rows_are_zero_padded() {
    let grid = parse_program(b"ab\nc").unwrap();
    assert_eq!(grid[0][0], b'a');
    assert_eq!(grid[0][1], b'b');
    assert_eq!(grid[0][2], 0);
    assert_eq!(grid[1][0], b'c');
    assert_eq!(grid[1][1], 0);
    assert_eq!(grid[255][255], 0);
}

#[test]
fn largest_source_loads() {
    let line = vec![b'x'; 256];
    let mut src = Vec::new();
    for i in 0..256 {
        if i > 0 {
            src.push(b'\n');
        }
        src.extend_from_slice(&line);
    }
    let grid = parse_program(&src).unwrap();
    assert_eq!(serialize_program(&grid), src);
}

#[test]
fn too_many_lines_rejected() {
    // 256 newlines make 257 lines.
    let src = vec![b'\n'; 256];
    assert_eq!(parse_program(&src), Err(LoadError::SourceTooTall));
}

#[test]
fn too_wide_line_rejected_with_its_index() {
    let mut src = b"ok\n".to_vec();
    src.extend_from_slice(&vec![b'w'; 257]);
    assert_eq!(parse_program(&src), Err(LoadError::SourceTooWide(1)));
}

#[test]
fn height_is_checked_before_width() {
    let mut src = vec![b'w'; 300];
    src.extend_from_slice(&vec![b'\n'; 256]);
    assert_eq!(parse_program(&src), Err(LoadError::SourceTooTall));
}

#[test]
fn non_ascii_rejected() {
    assert_eq!(parse_program(&[b'a', 200, b'b']), Err(LoadError::SourceNotAscii));
}
