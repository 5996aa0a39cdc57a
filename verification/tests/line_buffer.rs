use nova_shell::line_buffer::LineBuffer;

/// A terminal row: text bytes are written under the cursor, a backspace
/// moves the cursor left.
struct Row {
    cells: Vec<u8>,
    column: usize,
}

fn receive(row: &mut Row, echo: &[u8]) {
    for byte in echo {
        if *byte == 8 {
            if row.column > 0 {
                row.column -= 1;
            }
        } else {
            if row.column < row.cells.len() {
                row.cells[row.column] = *byte;
            } else {
                row.cells.push(*byte);
            }
            row.column += 1;
        }
    }
}

fn shows(row: &Row, line: &LineBuffer) -> bool {
    let text = line.to_vec();
    row.column == line.cursor()
        && row.cells.len() >= text.len()
        && row.cells[..text.len()] == text[..]
        && row.cells[text.len()..].iter().all(|cell| *cell == b' ')
}

fn line_with(text: &[u8], cursor: usize) -> LineBuffer {
    let mut line = LineBuffer::from_bytes(text.to_vec());
    line.cursor_left(text.len() - cursor);
    line
}

#[test]
fn a_new_line_is_empty() {
    let line = LineBuffer::new();
    assert!(line.is_empty());
    assert_eq!(line.len(), 0);
    assert_eq!(line.cursor(), 0);
    assert_eq!(line.as_slice(), b"");
}

#[test]
fn from_bytes_puts_the_cursor_at_the_end() {
    let line = LineBuffer::from_bytes(b"pwd".to_vec());
    assert_eq!(line.to_vec(), b"pwd".to_vec());
    assert_eq!(line.cursor(), 3);
    assert!(!line.is_empty());
}

#[test]
fn insert_at_the_end_echoes_the_bytes() {
    let mut line = LineBuffer::new();
    assert_eq!(line.insert(b"ls"), b"ls".to_vec());
    assert_eq!(line.to_vec(), b"ls".to_vec());
    assert_eq!(line.cursor(), 2);
}

#[test]
fn insert_in_the_middle_shifts_the_rest() {
    let mut line = line_with(b"abef", 2);
    let echo = line.insert(b"cd");
    assert_eq!(line.to_vec(), b"abcdef".to_vec());
    assert_eq!(line.cursor(), 4);
    assert_eq!(echo, b"cdef\x08\x08".to_vec());
}

#[test]
fn delete_removes_forward_and_keeps_the_cursor() {
    let mut line = line_with(b"abcdef", 2);
    let echo = line.delete(2);
    assert_eq!(line.to_vec(), b"abef".to_vec());
    assert_eq!(line.cursor(), 2);
    assert_eq!(echo, b"ef  \x08\x08\x08\x08".to_vec());
}

#[test]
fn delete_takes_no_more_than_there_is() {
    let mut line = line_with(b"abc", 1);
    line.delete(10);
    assert_eq!(line.to_vec(), b"a".to_vec());
    assert_eq!(line.cursor(), 1);
    let mut at_end = LineBuffer::from_bytes(b"abc".to_vec());
    assert_eq!(at_end.delete(1), Vec::<u8>::new());
    assert_eq!(at_end.to_vec(), b"abc".to_vec());
    assert_eq!(at_end.delete(0), Vec::<u8>::new());
}

#[test]
fn backspace_removes_the_byte_before_the_cursor() {
    let mut line = line_with(b"abc", 2);
    let echo = line.backspace();
    assert_eq!(line.to_vec(), b"ac".to_vec());
    assert_eq!(line.cursor(), 1);
    assert_eq!(echo, b"\x08c \x08\x08".to_vec());
}

#[test]
fn backspace_at_the_beginning_does_nothing() {
    let mut line = line_with(b"abc", 0);
    assert_eq!(line.backspace(), Vec::<u8>::new());
    assert_eq!(line.to_vec(), b"abc".to_vec());
    assert_eq!(line.cursor(), 0);
}

#[test]
fn the_cursor_stays_inside_the_line() {
    let mut line = LineBuffer::from_bytes(b"abc".to_vec());
    assert_eq!(line.cursor_right(5), Vec::<u8>::new());
    assert_eq!(line.cursor(), 3);
    assert_eq!(line.cursor_left(2), vec![8, 8]);
    assert_eq!(line.cursor(), 1);
    assert_eq!(line.cursor_left(7), vec![8]);
    assert_eq!(line.cursor(), 0);
    assert_eq!(line.cursor_right(2), b"ab".to_vec());
    assert_eq!(line.cursor(), 2);
    assert_eq!(line.cursor_right(2), b"c".to_vec());
    assert_eq!(line.cursor(), 3);
}

#[test]
fn home_and_end_jump_to_the_bounds() {
    let mut line = line_with(b"abcd", 1);
    assert_eq!(line.end(), b"bcd".to_vec());
    assert_eq!(line.cursor(), 4);
    assert_eq!(line.home(), vec![8, 8, 8, 8]);
    assert_eq!(line.cursor(), 0);
    assert_eq!(line.home(), Vec::<u8>::new());
}

#[test]
fn change_line_replaces_the_text() {
    let mut line = line_with(b"longer text", 3);
    let echo = line.change_line(b"pwd".to_vec());
    assert_eq!(line.to_vec(), b"pwd".to_vec());
    assert_eq!(line.cursor(), 3);
    let mut expected = vec![8, 8, 8];
    expected.extend_from_slice(b"pwd");
    expected.extend_from_slice(b"        ");
    expected.extend_from_slice(&[8; 8]);
    assert_eq!(echo, expected);
    let echo = line.change_line(b"history".to_vec());
    assert_eq!(echo, b"\x08\x08\x08history".to_vec());
    assert_eq!(line.cursor(), 7);
}

#[test]
fn insert_then_delete_restores_the_line() {
    for cursor in 0..=6 {
        for inserted in [&b""[..], &b"x"[..], &b"xyz"[..], &b"a much longer run"[..]] {
            let mut line = line_with(b"abcdef", cursor);
            line.insert(inserted);
            line.cursor_left(inserted.len());
            line.delete(inserted.len());
            assert_eq!(line.to_vec(), b"abcdef".to_vec());
            assert_eq!(line.cursor(), cursor);
        }
    }
}

#[test]
fn the_echo_keeps_a_terminal_in_step() {
    let mut line = LineBuffer::new();
    let mut row = Row { cells: Vec::new(), column: 0 };
    let echo = line.insert(b"echo hello");
    receive(&mut row, &echo);
    assert!(shows(&row, &line));
    let echo = line.cursor_left(5);
    receive(&mut row, &echo);
    assert!(shows(&row, &line));
    let echo = line.insert(b"big ");
    receive(&mut row, &echo);
    assert!(shows(&row, &line));
    let echo = line.backspace();
    receive(&mut row, &echo);
    assert!(shows(&row, &line));
    let echo = line.delete(3);
    receive(&mut row, &echo);
    assert!(shows(&row, &line));
    let echo = line.home();
    receive(&mut row, &echo);
    assert!(shows(&row, &line));
    let echo = line.cursor_right(2);
    receive(&mut row, &echo);
    assert!(shows(&row, &line));
    let echo = line.end();
    receive(&mut row, &echo);
    assert!(shows(&row, &line));
    let echo = line.change_line(b"ls".to_vec());
    receive(&mut row, &echo);
    assert!(shows(&row, &line));
    assert_eq!(line.to_vec(), b"ls".to_vec());
    let echo = line.change_line(b"a longer line".to_vec());
    receive(&mut row, &echo);
    assert!(shows(&row, &line));
}
