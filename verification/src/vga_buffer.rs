use vstd::prelude::*;
use vstd::string::StringSliceAdditionalSpecFns;

use crate::vga_laws::{lemma_byte_step_cells, lemma_scrolled_rows};

verus! {

/// The sixteen colours of the VGA text-mode palette.
#[derive(Debug, Clone, Copy, PartialEq, Eq, Structural)]
pub enum Color {
    Black,
    Blue,
    Green,
    Cyan,
    Red,
    Magenta,
    Brown,
    LightGray,
    DarkGray,
    LightBlue,
    LightGreen,
    LightCyan,
    LightRed,
    Pink,
    Yellow,
    White,
}

/// The palette number of a colour, as the VGA hardware reads it.
pub open spec fn color_value(c: Color) -> u8 {
    match c {
        Color::Black => 0,
        Color::Blue => 1,
        Color::Green => 2,
        Color::Cyan => 3,
        Color::Red => 4,
        Color::Magenta => 5,
        Color::Brown => 6,
        Color::LightGray => 7,
        Color::DarkGray => 8,
        Color::LightBlue => 9,
        Color::LightGreen => 10,
        Color::LightCyan => 11,
        Color::LightRed => 12,
        Color::Pink => 13,
        Color::Yellow => 14,
        Color::White => 15,
    }
}

impl Color {
    /// The palette number of this colour (`Black` is 0, `White` is 15).
    pub fn value(self) -> (v: u8)
        ensures
            v == color_value(self),
            v < 16,
            self == Color::Black ==> v == 0,
            self == Color::Blue ==> v == 1,
            self == Color::Green ==> v == 2,
            self == Color::Cyan ==> v == 3,
            self == Color::Red ==> v == 4,
            self == Color::Magenta ==> v == 5,
            self == Color::Brown ==> v == 6,
            self == Color::LightGray ==> v == 7,
            self == Color::DarkGray ==> v == 8,
            self == Color::LightBlue ==> v == 9,
            self == Color::LightGreen ==> v == 10,
            self == Color::LightCyan ==> v == 11,
            self == Color::LightRed ==> v == 12,
            self == Color::Pink ==> v == 13,
            self == Color::Yellow ==> v == 14,
            self == Color::White ==> v == 15,
    {
        match self {
            Color::Black => 0,
            Color::Blue => 1,
            Color::Green => 2,
            Color::Cyan => 3,
            Color::Red => 4,
            Color::Magenta => 5,
            Color::Brown => 6,
            Color::LightGray => 7,
            Color::DarkGray => 8,
            Color::LightBlue => 9,
            Color::LightGreen => 10,
            Color::LightCyan => 11,
            Color::LightRed => 12,
            Color::Pink => 13,
            Color::Yellow => 14,
            Color::White => 15,
        }
    }
}

/// A VGA attribute byte: background colour in the high nibble, foreground
/// colour in the low nibble.
#[derive(Debug, Clone, Copy, PartialEq, Eq, Structural)]
pub struct ColorCode(pub u8);

/// The attribute byte for the given foreground and background colours.
pub open spec fn color_code_value(foreground: Color, background: Color) -> u8 {
    (color_value(background) * 16 + color_value(foreground)) as u8
}

impl ColorCode {
    /// Packs a foreground and a background colour into one attribute byte.
    pub fn new(foreground: Color, background: Color) -> (code: ColorCode)
        ensures
            code.0 == color_code_value(foreground, background),
    {
        let fg = foreground.value();
        let bg = background.value();
        assert((bg << 4u8) | fg == bg * 16 + fg) by (bit_vector)
            requires
                fg < 16,
                bg < 16,
        ;
        ColorCode((bg << 4u8) | fg)
    }
}


/// A character cell of the text buffer: a code page 437 byte and its colours.
#[derive(Debug, Clone, Copy, PartialEq, Eq, Structural)]
pub struct ScreenChar {
    pub ascii_character: u8,
    pub color_code: ColorCode,
}

/// Number of rows of the text buffer.
pub const BUFFER_HEIGHT: usize = 25;

/// Number of columns of the text buffer.
pub const BUFFER_WIDTH: usize = 80;

/// The byte that stands in for every byte the buffer cannot show (`■`).
pub const REPLACEMENT_BYTE: u8 = 0xfe;

/// The contents of the 80x25 text buffer, row by row.
pub struct Buffer {
    chars: Vec<ScreenChar>,
}

impl Buffer {
    /// The buffer holds one cell for every row and column.
    pub closed spec fn wf(&self) -> bool {
        self.chars.len() == BUFFER_HEIGHT * BUFFER_WIDTH
    }
}

impl View for Buffer {
    type V = Seq<Seq<ScreenChar>>;

    /// The buffer as `BUFFER_HEIGHT` rows of `BUFFER_WIDTH` cells, top row first.
    closed spec fn view(&self) -> Seq<Seq<ScreenChar>> {
        Seq::new(
            BUFFER_HEIGHT as nat,
            |r: int| Seq::new(BUFFER_WIDTH as nat, |c: int| self.chars@[r * BUFFER_WIDTH + c]),
        )
    }
}

/// `screen` has the shape of the text buffer: 25 rows of 80 cells.
pub open spec fn is_screen(screen: Seq<Seq<ScreenChar>>) -> bool {
    &&& screen.len() == BUFFER_HEIGHT
    &&& forall|r: int| 0 <= r < BUFFER_HEIGHT ==> (#[trigger] screen[r]).len() == BUFFER_WIDTH
}

/// The blank cell drawn in the given colours.
pub open spec fn blank(color_code: ColorCode) -> ScreenChar {
    ScreenChar { ascii_character: 0x20, color_code }
}

/// A row of blank cells.
pub open spec fn blank_row(color_code: ColorCode) -> Seq<ScreenChar> {
    Seq::new(BUFFER_WIDTH as nat, |c: int| blank(color_code))
}

/// The screen moved up by one row: the top row is lost, every other row
/// moves one up, and the bottom row is blank.
pub open spec fn scrolled(screen: Seq<Seq<ScreenChar>>, color_code: ColorCode) -> Seq<Seq<ScreenChar>> {
    screen.drop_first().push(blank_row(color_code))
}

/// The screen with `byte` drawn at column `col` of the bottom row.
pub open spec fn put_on_last_row(
    screen: Seq<Seq<ScreenChar>>,
    col: int,
    byte: u8,
    color_code: ColorCode,
) -> Seq<Seq<ScreenChar>> {
    let last = BUFFER_HEIGHT - 1;
    screen.update(
        last,
        screen[last].update(col, ScreenChar { ascii_character: byte, color_code }),
    )
}

/// What writing one byte does to a (screen, column) pair: a newline scrolls
/// and goes back to column 0; any other byte wraps to a fresh line when the
/// bottom row is full, and is then drawn at the column, which moves right.
pub open spec fn byte_step(state: (Seq<Seq<ScreenChar>>, int), byte: u8, color_code: ColorCode) -> (
    Seq<Seq<ScreenChar>>,
    int,
) {
    if byte == 0x0a {
        (scrolled(state.0, color_code), 0)
    } else if state.1 >= BUFFER_WIDTH {
        (put_on_last_row(scrolled(state.0, color_code), 0, byte, color_code), 1)
    } else {
        (put_on_last_row(state.0, state.1, byte, color_code), state.1 + 1)
    }
}

/// Printable ASCII (0x20 to 0x7e) and newline are shown as they are; any
/// other byte is shown as `REPLACEMENT_BYTE`.
pub open spec fn shown_byte(byte: u8) -> u8 {
    if (0x20 <= byte && byte <= 0x7e) || byte == 0x0a {
        byte
    } else {
        REPLACEMENT_BYTE
    }
}

/// What writing the bytes of a string does to a (screen, column) pair.
pub open spec fn string_step(
    state: (Seq<Seq<ScreenChar>>, int),
    bytes: Seq<u8>,
    color_code: ColorCode,
) -> (Seq<Seq<ScreenChar>>, int)
    decreases bytes.len(),
{
    if bytes.len() == 0 {
        state
    } else {
        byte_step(
            string_step(state, bytes.drop_last(), color_code),
            shown_byte(bytes.last()),
            color_code,
        )
    }
}

impl Buffer {
    /// Every buffer has 25 rows of 80 cells.
    pub proof fn lemma_is_screen(&self)
        ensures
            is_screen(self@),
    {
    }

    /// A buffer holding the given cells, row by row; `None` unless there are
    /// exactly `BUFFER_HEIGHT * BUFFER_WIDTH` of them.
    pub fn from_cells(cells: Vec<ScreenChar>) -> (b: Option<Buffer>)
        ensures
            b is Some <==> cells.len() == BUFFER_HEIGHT * BUFFER_WIDTH,
            b matches Some(buffer) ==> buffer.wf(),
            b matches Some(buffer) ==> forall|r: int, c: int|
                0 <= r < BUFFER_HEIGHT && 0 <= c < BUFFER_WIDTH ==> #[trigger] buffer@[r][c]
                    == cells@[r * BUFFER_WIDTH + c],
    {
        if cells.len() == BUFFER_HEIGHT * BUFFER_WIDTH {
            Some(Buffer { chars: cells })
        } else {
            None
        }
    }

    /// A buffer whose every cell is `fill`.
    pub fn filled(fill: ScreenChar) -> (b: Buffer)
        ensures
            b.wf(),
            forall|r: int, c: int|
                0 <= r < BUFFER_HEIGHT && 0 <= c < BUFFER_WIDTH ==> #[trigger] b@[r][c] == fill,
    {
        let mut chars: Vec<ScreenChar> = Vec::new();
        let total = BUFFER_HEIGHT * BUFFER_WIDTH;
        while chars.len() < total
            invariant
                total == BUFFER_HEIGHT * BUFFER_WIDTH,
                chars.len() <= total,
                forall|i: int| 0 <= i < chars.len() ==> chars@[i] == fill,
            decreases total - chars.len(),
        {
            chars.push(fill);
        }
        Buffer { chars }
    }

    /// The cell at `row`, `col`.
    pub fn cell(&self, row: usize, col: usize) -> (c: ScreenChar)
        requires
            self.wf(),
            row < BUFFER_HEIGHT,
            col < BUFFER_WIDTH,
        ensures
            c == self@[row as int][col as int],
    {
        self.chars[row * BUFFER_WIDTH + col]
    }

    /// Draws `c` at `row`, `col`.
    fn set_cell(&mut self, row: usize, col: usize, c: ScreenChar)
        requires
            old(self).wf(),
            row < BUFFER_HEIGHT,
            col < BUFFER_WIDTH,
        ensures
            final(self).wf(),
            final(self)@ == old(self)@.update(row as int, old(self)@[row as int].update(col as int, c)),
    {
        let ghost before = self@;
        self.chars.set(row * BUFFER_WIDTH + col, c);
        proof {
            let after = self@;
            let expected = before.update(row as int, before[row as int].update(col as int, c));
            assert forall|r: int| 0 <= r < BUFFER_HEIGHT implies #[trigger] after[r] =~= expected[r] by {
                assert forall|k: int| 0 <= k < BUFFER_WIDTH implies after[r][k] == expected[r][k] by {
                    assert(r * BUFFER_WIDTH + k != row * BUFFER_WIDTH + col || (r == row && k == col));
                }
            }
            assert(after =~= expected);
        }
    }
}


/// Writes text to the bottom row of the buffer, scrolling up at each new
/// line, in one fixed pair of colours.
pub struct Writer {
    colum_position: usize,
    color_code: ColorCode,
    buffer: Buffer,
}

impl Writer {
    /// The column stays within the row and the buffer holds every cell.
    pub closed spec fn wf(&self) -> bool {
        &&& self.colum_position <= BUFFER_WIDTH
        &&& self.buffer.wf()
    }

    /// The column of the bottom row that the next byte goes to.
    pub closed spec fn column(&self) -> int {
        self.colum_position as int
    }

    /// The colours that every byte is drawn in.
    pub closed spec fn color(&self) -> ColorCode {
        self.color_code
    }

    /// The contents of the buffer, row by row.
    pub closed spec fn screen(&self) -> Seq<Seq<ScreenChar>> {
        self.buffer@
    }

    /// The screen and the column together.
    pub open spec fn state(&self) -> (Seq<Seq<ScreenChar>>, int) {
        (self.screen(), self.column())
    }

    /// A well-formed writer has a full screen and a column in `0..=BUFFER_WIDTH`.
    pub proof fn lemma_wf(&self)
        requires
            self.wf(),
        ensures
            is_screen(self.screen()),
            0 <= self.column() <= BUFFER_WIDTH,
    {
    }

    /// A writer at column 0 that draws in `color_code` on `buffer`.
    pub fn new(color_code: ColorCode, buffer: Buffer) -> (w: Writer)
        requires
            buffer.wf(),
        ensures
            w.wf(),
            w.column() == 0,
            w.color() == color_code,
            w.screen() == buffer@,
    {
        Writer { colum_position: 0, color_code, buffer }
    }

    /// Writes one byte: a newline starts a new line; any other byte is drawn
    /// at the current column of the bottom row, after starting a new line if
    /// that row is full.
    pub fn write_bytes(&mut self, byte: u8)
        requires
            old(self).wf(),
        ensures
            final(self).wf(),
            final(self).color() == old(self).color(),
            final(self).state() == byte_step(old(self).state(), byte, old(self).color()),
            byte == 0x0a || old(self).column() >= BUFFER_WIDTH ==> forall|r: int|
                0 <= r < BUFFER_HEIGHT - 1 ==> #[trigger] final(self).screen()[r] == old(
                    self,
                ).screen()[r + 1],
            byte == 0x0a ==> final(self).column() == 0,
            byte == 0x0a ==> forall|c: int|
                0 <= c < BUFFER_WIDTH ==> #[trigger] final(self).screen()[BUFFER_HEIGHT - 1][c]
                    == (ScreenChar { ascii_character: 0x20, color_code: old(self).color() }),
            byte != 0x0a && old(self).column() >= BUFFER_WIDTH ==> final(self).column() == 1,
            byte != 0x0a && old(self).column() >= BUFFER_WIDTH ==> final(self).screen()[BUFFER_HEIGHT
                - 1][0] == (ScreenChar { ascii_character: byte, color_code: old(self).color() }),
            byte != 0x0a && old(self).column() >= BUFFER_WIDTH ==> forall|c: int|
                1 <= c < BUFFER_WIDTH ==> #[trigger] final(self).screen()[BUFFER_HEIGHT - 1][c]
                    == (ScreenChar { ascii_character: 0x20, color_code: old(self).color() }),
            byte != 0x0a && old(self).column() < BUFFER_WIDTH ==> final(self).column() == old(
                self,
            ).column() + 1,
            byte != 0x0a && old(self).column() < BUFFER_WIDTH ==> final(self).screen()[BUFFER_HEIGHT
                - 1][old(self).column()] == (ScreenChar {
                ascii_character: byte,
                color_code: old(self).color(),
            }),
            byte != 0x0a && old(self).column() < BUFFER_WIDTH ==> forall|r: int, c: int|
                0 <= r < BUFFER_HEIGHT && 0 <= c < BUFFER_WIDTH && !(r == BUFFER_HEIGHT - 1 && c
                    == old(self).column()) ==> #[trigger] final(self).screen()[r][c] == old(
                    self,
                ).screen()[r][c],
    {
        proof {
            lemma_byte_step_cells(self.state(), byte, self.color());
        }
        match byte {
            0x0a => self.new_line(),
            byte => {
                if self.colum_position >= BUFFER_WIDTH {
                    self.new_line();
                }
                let row = BUFFER_HEIGHT - 1;
                let col = self.colum_position;

                let color_code = self.color_code;
                self.buffer.set_cell(row, col, ScreenChar { ascii_character: byte, color_code });
                self.colum_position += 1;
            },
        }
    }

    /// Moves every row up by one, dropping the top row, blanks the bottom
    /// row and goes back to column 0.
    pub fn new_line(&mut self)
        requires
            old(self).wf(),
        ensures
            final(self).wf(),
            final(self).color() == old(self).color(),
            final(self).screen() == scrolled(old(self).screen(), old(self).color()),
            final(self).column() == 0,
            forall|r: int|
                0 <= r < BUFFER_HEIGHT - 1 ==> #[trigger] final(self).screen()[r] == old(
                    self,
                ).screen()[r + 1],
            forall|c: int|
                0 <= c < BUFFER_WIDTH ==> #[trigger] final(self).screen()[BUFFER_HEIGHT - 1][c]
                    == (ScreenChar { ascii_character: 0x20, color_code: old(self).color() }),
    {
        proof {
            lemma_scrolled_rows(self.screen(), self.color());
        }
        let ghost before = self.screen();
        for row in 1..BUFFER_HEIGHT
            invariant
                self.wf(),
                self.color() == old(self).color(),
                before == old(self).screen(),
                is_screen(before),
                is_screen(self.screen()),
                forall|r: int| 0 <= r < row - 1 ==> #[trigger] self.screen()[r] == before[r + 1],
                forall|r: int| row - 1 <= r < BUFFER_HEIGHT ==> #[trigger] self.screen()[r] == before[r],
        {
            for col in 0..BUFFER_WIDTH
                invariant
                    1 <= row < BUFFER_HEIGHT,
                    self.wf(),
                    self.color() == old(self).color(),
                    is_screen(before),
                    is_screen(self.screen()),
                    forall|r: int| 0 <= r < row - 1 ==> #[trigger] self.screen()[r] == before[r + 1],
                    forall|r: int| row <= r < BUFFER_HEIGHT ==> #[trigger] self.screen()[r] == before[r],
                    forall|c: int| 0 <= c < col ==> #[trigger] self.screen()[row - 1][c] == before[row as int][c],
                    forall|c: int| col <= c < BUFFER_WIDTH ==> #[trigger] self.screen()[row - 1][c] == before[row - 1][c],
            {
                let character = self.buffer.cell(row, col);
                self.buffer.set_cell(row - 1, col, character);
            }
            assert(self.screen()[row - 1] =~= before[row as int]);
        }
        self.clear_row(BUFFER_HEIGHT - 1);
        self.colum_position = 0;
        assert(self.screen() =~= scrolled(before, self.color()));
    }

    /// Overwrites row `row` with blanks.
    pub fn clear_row(&mut self, row: usize)
        requires
            old(self).wf(),
            row < BUFFER_HEIGHT,
        ensures
            final(self).wf(),
            final(self).color() == old(self).color(),
            final(self).column() == old(self).column(),
            final(self).screen() == old(self).screen().update(row as int, blank_row(old(self).color())),
            forall|c: int|
                0 <= c < BUFFER_WIDTH ==> #[trigger] final(self).screen()[row as int][c] == (ScreenChar {
                    ascii_character: 0x20,
                    color_code: old(self).color(),
                }),
            forall|r: int|
                0 <= r < BUFFER_HEIGHT && r != row ==> #[trigger] final(self).screen()[r] == old(
                    self,
                ).screen()[r],
    {
        let blank = ScreenChar { ascii_character: 0x20, color_code: self.color_code };
        let ghost before = self.screen();
        for col in 0..BUFFER_WIDTH
            invariant
                row < BUFFER_HEIGHT,
                self.wf(),
                self.color() == old(self).color(),
                self.column() == old(self).column(),
                before == old(self).screen(),
                blank == crate::vga_buffer::blank(self.color()),
                is_screen(before),
                is_screen(self.screen()),
                forall|r: int| 0 <= r < BUFFER_HEIGHT && r != row ==> #[trigger] self.screen()[r] == before[r],
                forall|c: int| 0 <= c < col ==> #[trigger] self.screen()[row as int][c] == blank,
                forall|c: int| col <= c < BUFFER_WIDTH ==> #[trigger] self.screen()[row as int][c] == before[row as int][c],
        {
            self.buffer.set_cell(row, col, blank);
        }
        assert(self.screen()[row as int] =~= blank_row(self.color()));
        assert(self.screen() =~= before.update(row as int, blank_row(self.color())));
    }

    /// Writes every byte of `s` in order; printable ASCII and newlines as
    /// they are, every other byte (those of non-ASCII characters among them)
    /// as `REPLACEMENT_BYTE`.
    pub fn write_string(&mut self, s: &str)
        requires
            old(self).wf(),
        ensures
            final(self).wf(),
            final(self).color() == old(self).color(),
            final(self).state() == string_step(old(self).state(), s.spec_bytes(), old(self).color()),
    {
        let bytes = s.as_bytes();
        let ghost start = self.state();
        let mut i: usize = 0;
        while i < bytes.len()
            invariant
                self.wf(),
                self.color() == old(self).color(),
                start == old(self).state(),
                bytes@ == s.spec_bytes(),
                i <= bytes.len(),
                self.state() == string_step(start, bytes@.subrange(0, i as int), self.color()),
            decreases bytes.len() - i,
        {
            let byte = bytes[i];
            if (0x20 <= byte && byte <= 0x7e) || byte == 0x0a {
                self.write_bytes(byte);
            } else {
                self.write_bytes(REPLACEMENT_BYTE);
            }
            assert(bytes@.subrange(0, i + 1).drop_last() =~= bytes@.subrange(0, i as int));
            i += 1;
        }
        assert(bytes@.subrange(0, bytes@.len() as int) =~= bytes@);
    }

    /// The column of the bottom row that the next byte goes to.
    pub fn column_position(&self) -> (col: usize)
        ensures
            col == self.column(),
    {
        self.colum_position
    }

    /// The colours that this writer draws in.
    pub fn color_code(&self) -> (code: ColorCode)
        ensures
            code == self.color(),
    {
        self.color_code
    }

    /// The buffer that this writer draws on.
    pub fn buffer(&self) -> (b: &Buffer)
        requires
            self.wf(),
        ensures
            b.wf(),
            b@ == self.screen(),
    {
        &self.buffer
    }
}

} // verus!
