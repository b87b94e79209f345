use vstd::prelude::*;

use crate::vga_buffer::{
    blank, blank_row, byte_step, color_code_value, color_value, is_screen, put_on_last_row,
    scrolled, shown_byte, string_step, Color, ScreenChar, BUFFER_HEIGHT, BUFFER_WIDTH,
};

verus! {

/// An attribute byte holds the foreground colour in its low nibble and the
/// background colour in its high nibble, so both can be read back from it.
pub proof fn lemma_color_code_nibbles(foreground: Color, background: Color)
    ensures
        color_code_value(foreground, background) % 16 == color_value(foreground),
        color_code_value(foreground, background) / 16 == color_value(background),
{
}

/// Two colour pairs give the same attribute byte only if they are the same
/// pair.
pub proof fn lemma_color_code_injective(f1: Color, b1: Color, f2: Color, b2: Color)
    requires
        color_code_value(f1, b1) == color_code_value(f2, b2),
    ensures
        f1 == f2,
        b1 == b2,
{
    lemma_color_code_nibbles(f1, b1);
    lemma_color_code_nibbles(f2, b2);
}

/// A new line moves each row but the top one up by one row and leaves a
/// blank bottom row.
pub proof fn lemma_scrolled_rows(screen: Seq<Seq<ScreenChar>>, color_code: crate::vga_buffer::ColorCode)
    requires
        is_screen(screen),
    ensures
        is_screen(scrolled(screen, color_code)),
        forall|r: int|
            0 <= r < BUFFER_HEIGHT - 1 ==> #[trigger] scrolled(screen, color_code)[r] == screen[r + 1],
        scrolled(screen, color_code)[BUFFER_HEIGHT - 1] == blank_row(color_code),
{
}

/// Writing a byte keeps the shape of the screen and the column within
/// `0..=BUFFER_WIDTH`.
pub proof fn lemma_byte_step_keeps_shape(
    state: (Seq<Seq<ScreenChar>>, int),
    byte: u8,
    color_code: crate::vga_buffer::ColorCode,
)
    requires
        is_screen(state.0),
        0 <= state.1 <= BUFFER_WIDTH,
    ensures
        is_screen(byte_step(state, byte, color_code).0),
        0 <= byte_step(state, byte, color_code).1 <= BUFFER_WIDTH,
{
    let sc = scrolled(state.0, color_code);
    assert(is_screen(sc));
    if byte != 0x0a {
        if state.1 >= BUFFER_WIDTH {
            assert(is_screen(put_on_last_row(sc, 0, byte, color_code)));
        } else {
            assert(is_screen(put_on_last_row(state.0, state.1, byte, color_code)));
        }
    }
}

/// Writing two strings one after the other draws the same as writing them
/// joined into one.
pub proof fn lemma_string_step_concat(
    state: (Seq<Seq<ScreenChar>>, int),
    first: Seq<u8>,
    second: Seq<u8>,
    color_code: crate::vga_buffer::ColorCode,
)
    ensures
        string_step(state, first + second, color_code) == string_step(
            string_step(state, first, color_code),
            second,
            color_code,
        ),
    decreases second.len(),
{
    if second.len() == 0 {
        assert(first + second =~= first);
    } else {
        lemma_string_step_concat(state, first, second.drop_last(), color_code);
        assert((first + second).drop_last() =~= first + second.drop_last());
        assert((first + second).last() == second.last());
    }
}

/// Printable ASCII, without the newline.
pub open spec fn is_printable_line(s: Seq<u8>) -> bool {
    forall|i: int| 0 <= i < s.len() ==> 0x20 <= #[trigger] s[i] <= 0x7e
}

/// A row that shows `s` from its first column on, blank after it.
pub open spec fn line_row(s: Seq<u8>, color_code: crate::vga_buffer::ColorCode) -> Seq<ScreenChar> {
    Seq::new(
        BUFFER_WIDTH as nat,
        |c: int|
            if c < s.len() {
                ScreenChar { ascii_character: s[c], color_code }
            } else {
                blank(color_code)
            },
    )
}

/// Printable bytes written from column 0 onto a blank bottom row fill that
/// row from the left, one byte per column.
proof fn lemma_printable_run(
    state: (Seq<Seq<ScreenChar>>, int),
    s: Seq<u8>,
    color_code: crate::vga_buffer::ColorCode,
)
    requires
        is_screen(state.0),
        state.1 == 0,
        state.0[BUFFER_HEIGHT - 1] == blank_row(color_code),
        is_printable_line(s),
        s.len() <= BUFFER_WIDTH,
    ensures
        string_step(state, s, color_code).0 == state.0.update(
            BUFFER_HEIGHT - 1,
            line_row(s, color_code),
        ),
        string_step(state, s, color_code).1 == s.len(),
    decreases s.len(),
{
    if s.len() == 0 {
        assert(line_row(s, color_code) =~= blank_row(color_code));
        assert(state.0.update(BUFFER_HEIGHT - 1, line_row(s, color_code)) =~= state.0);
    } else {
        let prefix = s.drop_last();
        assert(is_printable_line(prefix));
        lemma_printable_run(state, prefix, color_code);
        let b = s.last();
        assert(shown_byte(b) == b);
        let mid = string_step(state, prefix, color_code);
        let last = BUFFER_HEIGHT - 1;
        assert(mid.0[last] == line_row(prefix, color_code));
        assert(mid.0[last].update(prefix.len() as int, ScreenChar { ascii_character: b, color_code })
            =~= line_row(s, color_code));
        assert(put_on_last_row(mid.0, mid.1, b, color_code) =~= state.0.update(
            last,
            line_row(s, color_code),
        ));
    }
}

/// A line of at most `BUFFER_WIDTH` printable bytes written between two
/// newlines stands intact on the second row from the bottom afterwards,
/// blank to its right, above a blank bottom row, with the column back at 0.
pub proof fn lemma_line_lands_above(
    state: (Seq<Seq<ScreenChar>>, int),
    s: Seq<u8>,
    color_code: crate::vga_buffer::ColorCode,
)
    requires
        is_screen(state.0),
        is_printable_line(s),
        s.len() <= BUFFER_WIDTH,
    ensures
        string_step(state, seq![0x0au8] + s + seq![0x0au8], color_code).0[BUFFER_HEIGHT - 2]
            == line_row(s, color_code),
        string_step(state, seq![0x0au8] + s + seq![0x0au8], color_code).0[BUFFER_HEIGHT - 1]
            == blank_row(color_code),
        string_step(state, seq![0x0au8] + s + seq![0x0au8], color_code).1 == 0,
{
    let nl = seq![0x0au8];
    lemma_string_step_concat(state, nl + s, nl, color_code);
    lemma_string_step_concat(state, nl, s, color_code);
    assert(nl.drop_last() =~= Seq::<u8>::empty());
    assert(nl.last() == 0x0au8);
    assert(string_step(state, nl.drop_last(), color_code) == state);
    let after_nl = string_step(state, nl, color_code);
    assert(after_nl == (scrolled(state.0, color_code), 0int));
    lemma_scrolled_rows(state.0, color_code);
    lemma_printable_run(after_nl, s, color_code);
    let after_line = string_step(after_nl, s, color_code);
    assert(is_screen(after_line.0));
    assert(string_step(after_line, nl.drop_last(), color_code) == after_line);
    let done = string_step(after_line, nl, color_code);
    assert(done == (scrolled(after_line.0, color_code), 0int));
    lemma_scrolled_rows(after_line.0, color_code);
}


/// What writing one byte does, cell by cell, whatever the screen held before:
/// a newline moves every row up by one and leaves a bottom row of spaces at
/// column 0; any other byte at a column inside the row overwrites exactly the
/// cell at that column of the bottom row and moves one column right; at a
/// full row the byte first moves every row up by one (the bottom row becoming
/// spaces) and is then drawn at column 0.
pub proof fn lemma_byte_step_cells(
    state: (Seq<Seq<ScreenChar>>, int),
    byte: u8,
    color_code: crate::vga_buffer::ColorCode,
)
    requires
        is_screen(state.0),
        0 <= state.1 <= BUFFER_WIDTH,
    ensures
        is_screen(byte_step(state, byte, color_code).0),
        0 <= byte_step(state, byte, color_code).1 <= BUFFER_WIDTH,
        byte == 0x0a || state.1 >= BUFFER_WIDTH ==> forall|r: int|
            0 <= r < BUFFER_HEIGHT - 1 ==> #[trigger] byte_step(state, byte, color_code).0[r]
                == state.0[r + 1],
        byte == 0x0a ==> byte_step(state, byte, color_code).1 == 0,
        byte == 0x0a ==> forall|c: int|
            0 <= c < BUFFER_WIDTH ==> #[trigger] byte_step(state, byte, color_code).0[BUFFER_HEIGHT
                - 1][c] == (ScreenChar { ascii_character: 0x20, color_code }),
        byte != 0x0a && state.1 >= BUFFER_WIDTH ==> byte_step(state, byte, color_code).1 == 1,
        byte != 0x0a && state.1 >= BUFFER_WIDTH ==> byte_step(state, byte, color_code).0[BUFFER_HEIGHT
            - 1][0] == (ScreenChar { ascii_character: byte, color_code }),
        byte != 0x0a && state.1 >= BUFFER_WIDTH ==> forall|c: int|
            1 <= c < BUFFER_WIDTH ==> #[trigger] byte_step(state, byte, color_code).0[BUFFER_HEIGHT
                - 1][c] == (ScreenChar { ascii_character: 0x20, color_code }),
        byte != 0x0a && state.1 < BUFFER_WIDTH ==> byte_step(state, byte, color_code).1 == state.1 + 1,
        byte != 0x0a && state.1 < BUFFER_WIDTH ==> byte_step(state, byte, color_code).0[BUFFER_HEIGHT
            - 1][state.1] == (ScreenChar { ascii_character: byte, color_code }),
        byte != 0x0a && state.1 < BUFFER_WIDTH ==> forall|r: int, c: int|
            0 <= r < BUFFER_HEIGHT && 0 <= c < BUFFER_WIDTH && !(r == BUFFER_HEIGHT - 1 && c
                == state.1) ==> #[trigger] byte_step(state, byte, color_code).0[r][c] == state.0[r][c],
{
    lemma_byte_step_keeps_shape(state, byte, color_code);
    lemma_scrolled_rows(state.0, color_code);
    let after = byte_step(state, byte, color_code);
    if byte != 0x0a && state.1 < BUFFER_WIDTH {
        assert forall|r: int, c: int|
            0 <= r < BUFFER_HEIGHT && 0 <= c < BUFFER_WIDTH && !(r == BUFFER_HEIGHT - 1 && c
                == state.1) implies #[trigger] after.0[r][c] == state.0[r][c] by {
            if r != BUFFER_HEIGHT - 1 {
                assert(after.0[r] == state.0[r]);
            }
        }
    }
}

/// Printable ASCII (0x20 to 0x7e) and the newline are shown as they are;
/// every other byte, control bytes and bytes above 0x7e alike, is shown as
/// 0xfe.
pub proof fn lemma_shown_byte_values(byte: u8)
    ensures
        (0x20 <= byte && byte <= 0x7e) || byte == 0x0a ==> shown_byte(byte) == byte,
        (byte < 0x20 && byte != 0x0a) || byte > 0x7e ==> shown_byte(byte) == 0xfe,
{
}

/// Writing a string draws its last byte after the rest, as itself when it
/// is printable ASCII or a newline, and as 0xfe otherwise.
pub proof fn lemma_string_step_last(
    state: (Seq<Seq<ScreenChar>>, int),
    bytes: Seq<u8>,
    color_code: crate::vga_buffer::ColorCode,
)
    requires
        bytes.len() > 0,
    ensures
        string_step(state, bytes, color_code) == byte_step(
            string_step(state, bytes.drop_last(), color_code),
            if (bytes.last() < 0x20 && bytes.last() != 0x0a) || bytes.last() > 0x7e {
                0xfeu8
            } else {
                bytes.last()
            },
            color_code,
        ),
{
    lemma_shown_byte_values(bytes.last());
}

/// The palette index of each colour.
pub proof fn lemma_color_palette()
    ensures
        color_value(Color::Black) == 0,
        color_value(Color::Blue) == 1,
        color_value(Color::Green) == 2,
        color_value(Color::Cyan) == 3,
        color_value(Color::Red) == 4,
        color_value(Color::Magenta) == 5,
        color_value(Color::Brown) == 6,
        color_value(Color::LightGray) == 7,
        color_value(Color::DarkGray) == 8,
        color_value(Color::LightBlue) == 9,
        color_value(Color::LightGreen) == 10,
        color_value(Color::LightCyan) == 11,
        color_value(Color::LightRed) == 12,
        color_value(Color::Pink) == 13,
        color_value(Color::Yellow) == 14,
        color_value(Color::White) == 15,
{
}


/// Writing the empty string changes nothing; writing a one-byte string is
/// writing that byte, replaced by 0xfe unless it is printable ASCII or a
/// newline.
pub proof fn lemma_string_step_short(
    state: (Seq<Seq<ScreenChar>>, int),
    byte: u8,
    color_code: crate::vga_buffer::ColorCode,
)
    ensures
        string_step(state, Seq::<u8>::empty(), color_code) == state,
        string_step(state, seq![byte], color_code) == byte_step(
            state,
            if (byte < 0x20 && byte != 0x0a) || byte > 0x7e {
                0xfeu8
            } else {
                byte
            },
            color_code,
        ),
{
    assert(seq![byte].drop_last() =~= Seq::<u8>::empty());
    lemma_shown_byte_values(byte);
}

} // verus!
