use blog_os::vga_buffer::{
    Buffer, Color, ColorCode, ScreenChar, Writer, BUFFER_HEIGHT, BUFFER_WIDTH, REPLACEMENT_BYTE,
};

fn blank_buffer(color_code: ColorCode) -> Buffer {
    Buffer::filled(ScreenChar { ascii_character: b' ', color_code })
}

fn yellow_on_black() -> ColorCode {
    ColorCode::new(Color::Yellow, Color::Black)
}

fn new_writer() -> Writer {
    let color_code = yellow_on_black();
    Writer::new(color_code, blank_buffer(color_code))
}

fn row_text(writer: &Writer, row: usize) -> Vec<u8> {
    (0..BUFFER_WIDTH)
        .map(|col| writer.buffer().cell(row, col).ascii_character)
        .collect()
}

fn padded(s: &[u8]) -> Vec<u8> {
    let mut v = s.to_vec();
    v.resize(BUFFER_WIDTH, b' ');
    v
}

#[test]
fn color_values_follow_the_palette() {
    assert_eq!(Color::Black.value(), 0);
    assert_eq!(Color::Blue.value(), 1);
    assert_eq!(Color::LightGray.value(), 7);
    assert_eq!(Color::DarkGray.value(), 8);
    assert_eq!(Color::Yellow.value(), 14);
    assert_eq!(Color::White.value(), 15);
}

#[test]
fn color_code_packs_background_high_foreground_low() {
    assert_eq!(ColorCode::new(Color::Yellow, Color::Black), ColorCode(0x0e));
    assert_eq!(ColorCode::new(Color::White, Color::Blue), ColorCode(0x1f));
    assert_eq!(ColorCode::new(Color::Black, Color::White), ColorCode(0xf0));
    assert_eq!(ColorCode::new(Color::Red, Color::Green).0, 2 * 16 + 4);
}

#[test]
fn color_code_tells_colour_pairs_apart() {
    let colors = [
        Color::Black, Color::Blue, Color::Green, Color::Cyan, Color::Red, Color::Magenta,
        Color::Brown, Color::LightGray, Color::DarkGray, Color::LightBlue, Color::LightGreen,
        Color::LightCyan, Color::LightRed, Color::Pink, Color::Yellow, Color::White,
    ];
    let mut seen = std::collections::HashSet::new();
    for &fg in colors.iter() {
        for &bg in colors.iter() {
            let code = ColorCode::new(fg, bg).0;
            assert_eq!(code % 16, fg.value());
            assert_eq!(code / 16, bg.value());
            assert!(seen.insert(code));
        }
    }
    assert_eq!(seen.len(), 256);
}

#[test]
fn from_cells_needs_every_cell() {
    let cell = ScreenChar { ascii_character: b'x', color_code: yellow_on_black() };
    assert!(Buffer::from_cells(vec![cell; BUFFER_WIDTH * BUFFER_HEIGHT - 1]).is_none());
    assert!(Buffer::from_cells(vec![cell; BUFFER_WIDTH * BUFFER_HEIGHT + 1]).is_none());
    let mut cells = vec![cell; BUFFER_WIDTH * BUFFER_HEIGHT];
    cells[3 * BUFFER_WIDTH + 7] = ScreenChar { ascii_character: b'y', color_code: ColorCode(0x1f) };
    let buffer = Buffer::from_cells(cells).unwrap();
    assert_eq!(buffer.cell(3, 7), ScreenChar { ascii_character: b'y', color_code: ColorCode(0x1f) });
    assert_eq!(buffer.cell(3, 8), cell);
    assert_eq!(buffer.cell(24, 79), cell);
}

#[test]
fn write_bytes_draws_on_the_bottom_row() {
    let mut writer = new_writer();
    writer.write_bytes(b'H');
    assert_eq!(writer.column_position(), 1);
    assert_eq!(
        writer.buffer().cell(BUFFER_HEIGHT - 1, 0),
        ScreenChar { ascii_character: b'H', color_code: ColorCode(0x0e) }
    );
    assert_eq!(writer.buffer().cell(BUFFER_HEIGHT - 1, 1).ascii_character, b' ');
    assert_eq!(writer.color_code(), ColorCode(0x0e));
}

#[test]
fn write_bytes_newline_scrolls_and_returns_to_column_zero() {
    let mut writer = new_writer();
    writer.write_string("top");
    writer.write_bytes(b'\n');
    assert_eq!(writer.column_position(), 0);
    assert_eq!(row_text(&writer, BUFFER_HEIGHT - 2), padded(b"top"));
    assert_eq!(row_text(&writer, BUFFER_HEIGHT - 1), padded(b""));
}

#[test]
fn write_bytes_wraps_when_the_row_is_full() {
    let mut writer = new_writer();
    for _ in 0..BUFFER_WIDTH {
        writer.write_bytes(b'a');
    }
    assert_eq!(writer.column_position(), BUFFER_WIDTH);
    assert_eq!(row_text(&writer, BUFFER_HEIGHT - 1), vec![b'a'; BUFFER_WIDTH]);
    writer.write_bytes(b'b');
    assert_eq!(writer.column_position(), 1);
    assert_eq!(row_text(&writer, BUFFER_HEIGHT - 2), vec![b'a'; BUFFER_WIDTH]);
    assert_eq!(row_text(&writer, BUFFER_HEIGHT - 1), padded(b"b"));
}

#[test]
fn write_bytes_draws_any_byte_as_given() {
    let mut writer = new_writer();
    writer.write_bytes(0x01);
    writer.write_bytes(0xfe);
    assert_eq!(writer.buffer().cell(BUFFER_HEIGHT - 1, 0).ascii_character, 0x01);
    assert_eq!(writer.buffer().cell(BUFFER_HEIGHT - 1, 1).ascii_character, 0xfe);
}

#[test]
fn new_line_moves_every_row_up() {
    let color_code = yellow_on_black();
    let mut cells = Vec::new();
    for row in 0..BUFFER_HEIGHT {
        for col in 0..BUFFER_WIDTH {
            cells.push(ScreenChar { ascii_character: (row * 3 + col) as u8, color_code: ColorCode(row as u8) });
        }
    }
    let buffer = Buffer::from_cells(cells).unwrap();
    let mut writer = Writer::new(ColorCode(0x4f), buffer);
    writer.write_bytes(b'z');
    writer.new_line();
    assert_eq!(writer.column_position(), 0);
    for row in 0..BUFFER_HEIGHT - 2 {
        for col in 0..BUFFER_WIDTH {
            assert_eq!(
                writer.buffer().cell(row, col),
                ScreenChar { ascii_character: ((row + 1) * 3 + col) as u8, color_code: ColorCode((row + 1) as u8) }
            );
        }
    }
    assert_eq!(
        writer.buffer().cell(BUFFER_HEIGHT - 2, 0),
        ScreenChar { ascii_character: b'z', color_code: ColorCode(0x4f) }
    );
    for col in 0..BUFFER_WIDTH {
        assert_eq!(
            writer.buffer().cell(BUFFER_HEIGHT - 1, col),
            ScreenChar { ascii_character: b' ', color_code: ColorCode(0x4f) }
        );
    }
}

#[test]
fn clear_row_blanks_one_row_only() {
    let mut writer = new_writer();
    writer.write_string("keep\nclear");
    writer.clear_row(BUFFER_HEIGHT - 1);
    assert_eq!(row_text(&writer, BUFFER_HEIGHT - 1), padded(b""));
    assert_eq!(row_text(&writer, BUFFER_HEIGHT - 2), padded(b"keep"));
    assert_eq!(writer.column_position(), 5);
    writer.clear_row(0);
    assert_eq!(row_text(&writer, BUFFER_HEIGHT - 2), padded(b"keep"));
}

#[test]
fn write_string_replaces_unprintable_bytes() {
    let mut writer = new_writer();
    writer.write_string("a\tb\u{7f}ä~");
    // 'ä' is two bytes in UTF-8, each shown as the replacement byte.
    let expected = [b'a', REPLACEMENT_BYTE, b'b', REPLACEMENT_BYTE, REPLACEMENT_BYTE, REPLACEMENT_BYTE, b'~'];
    assert_eq!(row_text(&writer, BUFFER_HEIGHT - 1), padded(&expected));
    assert_eq!(writer.column_position(), expected.len());
}

#[test]
fn write_string_in_pieces_draws_the_same_as_at_once() {
    let mut whole = new_writer();
    whole.write_string("one line\nand a second one that is long enough to be wrapped at the end of the row ok");
    let mut pieces = new_writer();
    pieces.write_string("one li");
    pieces.write_string("ne\nand a second one that is long enough to be ");
    pieces.write_string("wrapped at the end of the row ok");
    assert_eq!(whole.column_position(), pieces.column_position());
    for row in 0..BUFFER_HEIGHT {
        for col in 0..BUFFER_WIDTH {
            assert_eq!(whole.buffer().cell(row, col), pieces.buffer().cell(row, col));
        }
    }
}

#[test]
fn println_output_lands_on_second_row_from_bottom() {
    let s = "Some test string that fits on a single line";
    let mut writer = new_writer();
    writer.write_string("\n");
    writer.write_string(s);
    writer.write_string("\n");
    for (i, c) in s.chars().enumerate() {
        let screen_char = writer.buffer().cell(BUFFER_HEIGHT - 2, i);
        assert_eq!(char::from(screen_char.ascii_character), c);
    }
    assert_eq!(row_text(&writer, BUFFER_HEIGHT - 2), padded(s.as_bytes()));
    assert_eq!(row_text(&writer, BUFFER_HEIGHT - 1), padded(b""));
}

#[test]
fn println_many_keeps_the_last_lines() {
    let mut writer = new_writer();
    for i in 0..200 {
        writer.write_string(&format!("test_println_simply output {}\n", i));
    }
    assert_eq!(row_text(&writer, BUFFER_HEIGHT - 2), padded(b"test_println_simply output 199"));
    assert_eq!(row_text(&writer, 0), padded(b"test_println_simply output 176"));
    assert_eq!(writer.column_position(), 0);
}

#[test]
fn print_something_output() {
    let mut writer = new_writer();
    writer.write_bytes(b'H');
    writer.write_string("ello ");
    writer.write_string(&format!("The number are {} and {}", 42, 1.0 / 3.0));
    assert_eq!(
        row_text(&writer, BUFFER_HEIGHT - 1),
        padded(b"Hello The number are 42 and 0.3333333333333333")
    );
}
