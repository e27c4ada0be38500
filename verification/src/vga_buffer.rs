//! The text display: a screen of 25 rows of 80 characters, written at the
//! bottom row and scrolled up line by line.

use vstd::prelude::*;
use vstd::string::StringSliceAdditionalSpecFns;

verus! {

/// The colours of the text display.
#[derive(Clone, Copy, Debug, PartialEq, Eq, Structural)]
pub enum Color {
    Black,
    Blue,
    Green,
    Cyan,
    Red,
    Magenta,
    Brown,
    LightGray,
    DackGray,
    LightBlue,
    LightGreen,
    LightCyan,
    LightRed,
    Pink,
    Yellow,
    White,
}

impl Color {
    /// The number of the colour, 0 to 15.
    pub open spec fn code_spec(self) -> u8 {
        match self {
            Color::Black => 0x0,
            Color::Blue => 0x1,
            Color::Green => 0x2,
            Color::Cyan => 0x3,
            Color::Red => 0x4,
            Color::Magenta => 0x5,
            Color::Brown => 0x6,
            Color::LightGray => 0x7,
            Color::DackGray => 0x8,
            Color::LightBlue => 0x9,
            Color::LightGreen => 0xa,
            Color::LightCyan => 0xb,
            Color::LightRed => 0xc,
            Color::Pink => 0xd,
            Color::Yellow => 0xe,
            Color::White => 0xf,
        }
    }

    /// The number of the colour, 0 to 15.
    pub fn code(self) -> (code: u8)
        ensures
            code == self.code_spec(),
            code < 16,
    {
        match self {
            Color::Black => 0x0,
            Color::Blue => 0x1,
            Color::Green => 0x2,
            Color::Cyan => 0x3,
            Color::Red => 0x4,
            Color::Magenta => 0x5,
            Color::Brown => 0x6,
            Color::LightGray => 0x7,
            Color::DackGray => 0x8,
            Color::LightBlue => 0x9,
            Color::LightGreen => 0xa,
            Color::LightCyan => 0xb,
            Color::LightRed => 0xc,
            Color::Pink => 0xd,
            Color::Yellow => 0xe,
            Color::White => 0xf,
        }
    }
}

/// A foreground and a background colour in one byte: the background in
/// the high four bits, the foreground in the low four.
#[derive(Clone, Copy, Debug, PartialEq, Eq, Structural)]
pub struct ColorCode(pub u8);

impl ColorCode {
    /// The code for `foreground` on `background`.
    pub fn new(foreground: Color, background: Color) -> (code: ColorCode)
        ensures
            code.0 == background.code_spec() * 16 + foreground.code_spec(),
    {
        let high = background.code();
        let low = foreground.code();
        assert(high < 16 && low < 16 ==> (high << 4) | low == high * 16 + low) by (bit_vector);
        ColorCode((high << 4) | low)
    }
}

/// One cell of the screen: a character and its colours.
#[derive(Clone, Copy, Debug, PartialEq, Eq, Structural)]
pub struct ScreenChar {
    pub ascii_character: u8,
    pub color_code: ColorCode,
}

/// How many rows the screen has.
pub const BUFFER_HEIGHT: usize = 25;

/// How many characters a row holds.
pub const BUFFER_WIDTH: usize = 80;

/// How many cells the screen has.
pub const BUFFER_CELLS: usize = BUFFER_HEIGHT * BUFFER_WIDTH;

/// The character that is shown for a byte that cannot be printed.
pub const UNPRINTABLE: u8 = 0xfe;

/// What is on the screen and where the next character goes.
pub struct Screen {
    /// The cells of the screen, row by row from the top.
    pub chars: Seq<ScreenChar>,
    /// The column of the bottom row that the next character goes to.
    pub column_position: int,
    /// The colours of what is written.
    pub color_code: ColorCode,
}

impl Screen {
    /// The screen has all its cells, and the column position is in the
    /// row or just behind it.
    pub open spec fn wf(self) -> bool {
        &&& self.chars.len() == BUFFER_HEIGHT * BUFFER_WIDTH
        &&& 0 <= self.column_position <= BUFFER_WIDTH
    }

    /// The cell in `row` and `col`.
    pub open spec fn cell(self, row: int, col: int) -> ScreenChar {
        self.chars[row * BUFFER_WIDTH + col]
    }

    /// A blank in the colours of the screen.
    pub open spec fn blank(self) -> ScreenChar {
        ScreenChar { ascii_character: 0x20, color_code: self.color_code }
    }

    /// The screen after a line break: every row has moved up by one, the
    /// top row is gone, the bottom row is blank, and writing goes on in
    /// its first column.
    pub open spec fn new_line(self) -> Screen {
        Screen {
            chars: self.chars.skip(BUFFER_WIDTH as int) + Seq::new(
                BUFFER_WIDTH as nat,
                |col: int| self.blank(),
            ),
            column_position: 0,
            ..self
        }
    }

    /// The screen after `row` was blanked.
    pub open spec fn clear_line(self, row: int) -> Screen {
        Screen {
            chars: Seq::new(
                self.chars.len(),
                |i: int|
                    if row * BUFFER_WIDTH <= i < (row + 1) * BUFFER_WIDTH {
                        self.blank()
                    } else {
                        self.chars[i]
                    },
            ),
            ..self
        }
    }

    /// The screen after `byte` was written: a line feed breaks the line;
    /// any other byte goes to the bottom row at the column position, after
    /// a line break if the row is full.
    pub open spec fn write_byte(self, byte: u8) -> Screen {
        if byte == 0x0a {
            self.new_line()
        } else {
            let screen = if self.column_position >= BUFFER_WIDTH {
                self.new_line()
            } else {
                self
            };
            Screen {
                chars: screen.chars.update(
                    (BUFFER_HEIGHT - 1) * BUFFER_WIDTH + screen.column_position,
                    ScreenChar { ascii_character: byte, color_code: screen.color_code },
                ),
                column_position: screen.column_position + 1,
                ..screen
            }
        }
    }

    /// The screen after the bytes were written as text, first to last.
    pub open spec fn write_bytes(self, bytes: Seq<u8>) -> Screen
        decreases bytes.len(),
    {
        if bytes.len() == 0 {
            self
        } else {
            self.write_bytes(bytes.drop_last()).write_byte(printable(bytes.last()))
        }
    }
}

/// The byte that is shown for `byte`: the byte itself if it is a printable
/// ASCII character or a line feed, else the sign for what cannot be printed.
pub open spec fn printable(byte: u8) -> u8 {
    if 0x20 <= byte <= 0x7e || byte == 0x0a {
        byte
    } else {
        UNPRINTABLE
    }
}

/// Writes text to the screen.
pub struct Writer {
    column_position: usize,
    color_code: ColorCode,
    buffer: [ScreenChar; BUFFER_CELLS],
}

impl View for Writer {
    type V = Screen;

    closed spec fn view(&self) -> Screen {
        Screen {
            chars: self.buffer@,
            column_position: self.column_position as int,
            color_code: self.color_code,
        }
    }
}

impl Writer {
    /// A writer on a blank screen, at the first column.
    pub fn new(color_code: ColorCode) -> (writer: Writer)
        ensures
            writer@.wf(),
            writer@.column_position == 0,
            writer@.color_code == color_code,
            forall|i: int| 0 <= i < writer@.chars.len() ==> writer@.chars[i] == writer@.blank(),
    {
        let blank = ScreenChar { ascii_character: 0x20, color_code };
        let buffer = [blank; BUFFER_CELLS];
        Writer { column_position: 0, color_code, buffer }
    }

    /// The cell in `row` and `col`.
    pub fn read(&self, row: usize, col: usize) -> (cell: ScreenChar)
        requires
            self@.wf(),
            row < BUFFER_HEIGHT,
            col < BUFFER_WIDTH,
        ensures
            cell == self@.cell(row as int, col as int),
    {
        assert(row * BUFFER_WIDTH + col < BUFFER_HEIGHT * BUFFER_WIDTH) by (nonlinear_arith)
            requires
                row < BUFFER_HEIGHT,
                col < BUFFER_WIDTH,
        ;
        self.buffer[row * BUFFER_WIDTH + col]
    }

    /// Writes one byte.
    pub fn write_byte(&mut self, byte: u8)
        requires
            old(self)@.wf(),
        ensures
            final(self)@.wf(),
            final(self)@ == old(self)@.write_byte(byte),
    {
        if byte == 0x0a {
            self.new_line();
        } else {
            if self.column_position >= BUFFER_WIDTH {
                self.new_line();
            }
            let row = BUFFER_HEIGHT - 1;
            let col = self.column_position;
            let color_code = self.color_code;
            let character = ScreenChar { ascii_character: byte, color_code };
            self.buffer[row * BUFFER_WIDTH + col] = character;
            self.column_position += 1;
        }
    }

    /// Writes a string. What is neither a printable ASCII character nor a
    /// line feed is shown as a filled box.
    pub fn write_string(&mut self, s: &str)
        requires
            old(self)@.wf(),
        ensures
            final(self)@.wf(),
            final(self)@ == old(self)@.write_bytes(s.spec_bytes()),
    {
        let bytes = s.as_bytes();
        let mut i: usize = 0;
        while i < bytes.len()
            invariant
                i <= bytes.len(),
                bytes@ == s.spec_bytes(),
                self@.wf(),
                self@ == old(self)@.write_bytes(bytes@.take(i as int)),
            decreases bytes.len() - i,
        {
            let byte = bytes[i];
            proof {
                assert(bytes@.take(i as int + 1).drop_last() =~= bytes@.take(i as int));
                assert(bytes@.take(i as int + 1).last() == byte);
            }
            if (0x20 <= byte && byte <= 0x7e) || byte == 0x0a {
                self.write_byte(byte);
            } else {
                self.write_byte(UNPRINTABLE);
            }
            i += 1;
        }
        proof {
            assert(bytes@.take(i as int) =~= bytes@);
        }
    }

    /// Moves every row up by one and blanks the bottom row.
    fn new_line(&mut self)
        requires
            old(self)@.wf(),
        ensures
            final(self)@.wf(),
            final(self)@ == old(self)@.new_line(),
    {
        let mut row: usize = 1;
        while row < BUFFER_HEIGHT
            invariant
                1 <= row <= BUFFER_HEIGHT,
                self.buffer.len() == BUFFER_HEIGHT * BUFFER_WIDTH,
                self.column_position == old(self).column_position,
                self.color_code == old(self).color_code,
                forall|i: int|
                    0 <= i < (row - 1) * BUFFER_WIDTH ==> self.buffer[i] == old(self).buffer[i
                        + BUFFER_WIDTH],
                forall|i: int|
                    (row - 1) * BUFFER_WIDTH <= i < BUFFER_HEIGHT * BUFFER_WIDTH ==> self.buffer[i]
                        == old(self).buffer[i],
            decreases BUFFER_HEIGHT - row,
        {
            let mut col: usize = 0;
            while col < BUFFER_WIDTH
                invariant
                    1 <= row < BUFFER_HEIGHT,
                    col <= BUFFER_WIDTH,
                    self.buffer.len() == BUFFER_HEIGHT * BUFFER_WIDTH,
                    self.column_position == old(self).column_position,
                    self.color_code == old(self).color_code,
                    forall|i: int|
                        0 <= i < (row - 1) * BUFFER_WIDTH + col ==> self.buffer[i] == old(
                            self,
                        ).buffer[i + BUFFER_WIDTH],
                    forall|i: int|
                        (row - 1) * BUFFER_WIDTH + col <= i < BUFFER_HEIGHT * BUFFER_WIDTH
                            ==> self.buffer[i] == old(self).buffer[i],
                decreases BUFFER_WIDTH - col,
            {
                let character = self.buffer[row * BUFFER_WIDTH + col];
                self.buffer[(row - 1) * BUFFER_WIDTH + col] = character;
                col += 1;
            }
            row += 1;
        }
        self.clear_line(BUFFER_HEIGHT - 1);
        self.column_position = 0;
        assert(self@.chars =~= old(self)@.new_line().chars);
    }

    /// Blanks `row`.
    fn clear_line(&mut self, row: usize)
        requires
            old(self).buffer.len() == BUFFER_HEIGHT * BUFFER_WIDTH,
            row < BUFFER_HEIGHT,
        ensures
            final(self)@ == old(self)@.clear_line(row as int),
            final(self).buffer.len() == BUFFER_HEIGHT * BUFFER_WIDTH,
    {
        let blank = ScreenChar { ascii_character: 0x20, color_code: self.color_code };
        let mut col: usize = 0;
        while col < BUFFER_WIDTH
            invariant
                col <= BUFFER_WIDTH,
                row < BUFFER_HEIGHT,
                self.buffer.len() == BUFFER_HEIGHT * BUFFER_WIDTH,
                self.column_position == old(self).column_position,
                self.color_code == old(self).color_code,
                blank == old(self)@.blank(),
                forall|i: int|
                    0 <= i < BUFFER_HEIGHT * BUFFER_WIDTH ==> self.buffer[i] == if row
                        * BUFFER_WIDTH <= i < row * BUFFER_WIDTH + col {
                        blank
                    } else {
                        old(self).buffer[i]
                    },
            decreases BUFFER_WIDTH - col,
        {
            self.buffer[row * BUFFER_WIDTH + col] = blank;
            col += 1;
        }
        assert(self@.chars =~= old(self)@.clear_line(row as int).chars);
    }
}

} // verus!
