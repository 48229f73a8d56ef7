use blog_kernel::vga_buffer::{Color, ColorCode, ScreenChar, Writer, BUFFER_HEIGHT, BUFFER_WIDTH};

fn row_text(w: &Writer, row: usize, len: usize) -> Vec<u8> {
    (0..len).map(|c| w.read_char(row, c).ascii_character).collect()
}

#[test]
fn color_code_packs_background_high() {
    assert_eq!(ColorCode::new(Color::Yellow, Color::Black).0, 0x0e);
    assert_eq!(ColorCode::new(Color::White, Color::Blue).0, 0x1f);
    assert_eq!(ColorCode::new(Color::Black, Color::White).0, 0xf0);
}

#[test]
fn new_writer_is_blank() {
    let code = ColorCode::new(Color::Yellow, Color::Black);
    let w = Writer::new(code);
    assert_eq!(w.column_position(), 0);
    for row in 0..BUFFER_HEIGHT {
        for col in 0..BUFFER_WIDTH {
            assert_eq!(w.read_char(row, col), ScreenChar { ascii_character: b' ', color_code: code });
        }
    }
}

#[test]
fn write_byte_goes_to_bottom_row() {
    let code = ColorCode::new(Color::Green, Color::Black);
    let mut w = Writer::new(code);
    w.write_byte(b'A');
    assert_eq!(w.read_char(BUFFER_HEIGHT - 1, 0), ScreenChar { ascii_character: b'A', color_code: code });
    assert_eq!(w.column_position(), 1);
}

#[test]
fn newline_scrolls_up() {
    let code = ColorCode::new(Color::Yellow, Color::Black);
    let mut w = Writer::new(code);
    let s = "Some test string that fits on a single line";
    w.write_string("\n");
    w.write_string(s);
    w.write_string("\n");
    assert_eq!(row_text(&w, BUFFER_HEIGHT - 2, s.len()), s.as_bytes().to_vec());
    assert_eq!(row_text(&w, BUFFER_HEIGHT - 1, 3), b"   ".to_vec());
    assert_eq!(w.column_position(), 0);
}

#[test]
fn non_printable_bytes_show_placeholder() {
    let mut w = Writer::new(ColorCode::new(Color::Yellow, Color::Black));
    w.write_string("a\u{e9}b");
    assert_eq!(row_text(&w, BUFFER_HEIGHT - 1, 4), vec![b'a', 0xfe, 0xfe, b'b']);
}

#[test]
fn full_row_wraps_to_new_line() {
    let mut w = Writer::new(ColorCode::new(Color::Yellow, Color::Black));
    let line = "x".repeat(BUFFER_WIDTH);
    w.write_string(&line);
    assert_eq!(w.column_position(), BUFFER_WIDTH);
    w.write_string("y");
    assert_eq!(row_text(&w, BUFFER_HEIGHT - 2, BUFFER_WIDTH), line.as_bytes().to_vec());
    assert_eq!(w.read_char(BUFFER_HEIGHT - 1, 0).ascii_character, b'y');
    assert_eq!(w.column_position(), 1);
}

#[test]
fn many_lines_keep_last_rows() {
    let mut w = Writer::new(ColorCode::new(Color::Yellow, Color::Black));
    for i in 0..200 {
        w.write_string(&format!("line {}\n", i));
    }
    assert_eq!(row_text(&w, BUFFER_HEIGHT - 2, 8), b"line 199".to_vec());
    assert_eq!(row_text(&w, 0, 8), b"line 176".to_vec());
}
