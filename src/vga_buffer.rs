use vstd::prelude::*;
use vstd::string::*;

verus! {

/// The sixteen colours of the VGA text mode palette.
#[derive(Debug, Clone, Copy, PartialEq, Eq, Structural)]
pub enum Color {
    Black,
    Blue,
    Green,
    Cyan,
    Red,
    Magenta,
    Brown,
    LightGray,
    DarkGray,
    LightBlue,
    LightGreen,
    LightCyan,
    LightRed,
    Pink,
    Yellow,
    White,
}

/// The palette number of a colour.
pub open spec fn color_number(c: Color) -> u8 {
    match c {
        Color::Black => 0,
        Color::Blue => 1,
        Color::Green => 2,
        Color::Cyan => 3,
        Color::Red => 4,
        Color::Magenta => 5,
        Color::Brown => 6,
        Color::LightGray => 7,
        Color::DarkGray => 8,
        Color::LightBlue => 9,
        Color::LightGreen => 10,
        Color::LightCyan => 11,
        Color::LightRed => 12,
        Color::Pink => 13,
        Color::Yellow => 14,
        Color::White => 15,
    }
}

impl Color {
    /// The palette number of this colour, in 0..16.
    pub fn number(self) -> (r: u8)
        ensures
            r == color_number(self),
            r < 16,
    {
        match self {
            Color::Black => 0,
            Color::Blue => 1,
            Color::Green => 2,
            Color::Cyan => 3,
            Color::Red => 4,
            Color::Magenta => 5,
            Color::Brown => 6,
            Color::LightGray => 7,
            Color::DarkGray => 8,
            Color::LightBlue => 9,
            Color::LightGreen => 10,
            Color::LightCyan => 11,
            Color::LightRed => 12,
            Color::Pink => 13,
            Color::Yellow => 14,
            Color::White => 15,
        }
    }
}

/// An attribute byte: background colour in the high nibble, foreground
/// colour in the low nibble.
#[derive(Debug, Clone, Copy, PartialEq, Eq, Structural)]
pub struct ColorCode(pub u8);

impl ColorCode {
    pub fn new(foreground: Color, background: Color) -> (r: ColorCode)
        ensures
            r.0 == color_number(background) * 16 + color_number(foreground),
    {
        let f = foreground.number();
        let b = background.number();
        assert((b << 4u8) | f == b * 16 + f) by (bit_vector)
            requires
                b < 16u8,
                f < 16u8,
        ;
        ColorCode((b << 4u8) | f)
    }
}

/// One cell of the text screen.
#[derive(Debug, Clone, Copy, PartialEq, Eq, Structural)]
pub struct ScreenChar {
    pub ascii_character: u8,
    pub color_code: ColorCode,
}

pub const BUFFER_HEIGHT: usize = 25;

pub const BUFFER_WIDTH: usize = 80;

pub const BUFFER_CELLS: usize = 2000;

/// The byte shown in place of one outside printable ASCII.
pub const PLACEHOLDER: u8 = 0xfe;

/// The abstract state of a writer: the column of the next byte on the bottom
/// row, the current colour, and the screen's cells in row-major order.
pub ghost struct WriterModel {
    pub column: int,
    pub color: ColorCode,
    pub screen: Seq<ScreenChar>,
}

pub open spec fn blank(color: ColorCode) -> ScreenChar {
    ScreenChar { ascii_character: 32u8, color_code: color }
}

/// The cell at `row`, `col` of a row-major screen.
pub open spec fn cell(screen: Seq<ScreenChar>, row: int, col: int) -> ScreenChar {
    screen[row * BUFFER_WIDTH + col]
}

/// Every row moves up by one, the top row is lost and the bottom row is blank.
pub open spec fn scrolled(screen: Seq<ScreenChar>, color: ColorCode) -> Seq<ScreenChar> {
    Seq::new(
        BUFFER_CELLS as nat,
        |i: int|
            if i < (BUFFER_HEIGHT - 1) * BUFFER_WIDTH {
                screen[i + BUFFER_WIDTH]
            } else {
                blank(color)
            },
    )
}

pub open spec fn new_line_model(m: WriterModel) -> WriterModel {
    WriterModel { column: 0, color: m.color, screen: scrolled(m.screen, m.color) }
}

/// What writing one byte does: a newline scrolls; any other byte goes to the
/// bottom row, after a scroll when that row is full.
pub open spec fn write_byte_model(m: WriterModel, byte: u8) -> WriterModel {
    if byte == 10u8 {
        new_line_model(m)
    } else {
        let m1 = if m.column >= BUFFER_WIDTH {
            new_line_model(m)
        } else {
            m
        };
        WriterModel {
            column: m1.column + 1,
            color: m1.color,
            screen: m1.screen.update(
                (BUFFER_HEIGHT - 1) * BUFFER_WIDTH + m1.column,
                ScreenChar { ascii_character: byte, color_code: m1.color },
            ),
        }
    }
}

/// Printable ASCII and newline are shown as they are; any other byte as the
/// placeholder.
pub open spec fn shown_byte(b: u8) -> u8 {
    if (0x20u8 <= b && b <= 0x7eu8) || b == 10u8 {
        b
    } else {
        PLACEHOLDER
    }
}

/// The state after writing `bytes` in order.
pub open spec fn write_bytes_model(m: WriterModel, bytes: Seq<u8>) -> WriterModel
    decreases bytes.len(),
{
    if bytes.len() == 0 {
        m
    } else {
        write_byte_model(write_bytes_model(m, bytes.drop_last()), shown_byte(bytes.last()))
    }
}

/// A text writer over a 25 by 80 screen of cells.
pub struct Writer {
    column_position: usize,
    color_code: ColorCode,
    buffer: Vec<ScreenChar>,
}

impl View for Writer {
    type V = WriterModel;

    closed spec fn view(&self) -> WriterModel {
        WriterModel {
            column: self.column_position as int,
            color: self.color_code,
            screen: self.buffer@,
        }
    }
}

pub open spec fn model_wf(m: WriterModel) -> bool {
    &&& 0 <= m.column <= BUFFER_WIDTH
    &&& m.screen.len() == BUFFER_CELLS
}

impl Writer {
    pub open spec fn wf(&self) -> bool {
        model_wf(self@)
    }

    /// A writer over a blank screen, writing in `color_code`.
    pub fn new(color_code: ColorCode) -> (r: Writer)
        ensures
            r.wf(),
            r@.column == 0,
            r@.color == color_code,
            r@.screen == Seq::new(BUFFER_CELLS as nat, |i: int| blank(color_code)),
    {
        let mut buffer: Vec<ScreenChar> = Vec::new();
        let b = ScreenChar { ascii_character: 32u8, color_code };
        let mut i: usize = 0;
        while i < BUFFER_CELLS
            invariant
                i <= BUFFER_CELLS,
                b == blank(color_code),
                buffer@ == Seq::new(i as nat, |k: int| blank(color_code)),
            decreases BUFFER_CELLS - i,
        {
            buffer.push(b);
            i = i + 1;
            assert(buffer@ =~= Seq::new(i as nat, |k: int| blank(color_code)));
        }
        Writer { column_position: 0, color_code, buffer }
    }

    /// The column at which the next byte goes on the bottom row.
    pub fn column_position(&self) -> (r: usize)
        ensures
            r == self@.column,
    {
        self.column_position
    }

    pub fn color_code(&self) -> (r: ColorCode)
        ensures
            r == self@.color,
    {
        self.color_code
    }

    /// The cell at `row`, `col`.
    pub fn read_char(&self, row: usize, col: usize) -> (r: ScreenChar)
        requires
            self.wf(),
            row < BUFFER_HEIGHT,
            col < BUFFER_WIDTH,
        ensures
            r == cell(self@.screen, row as int, col as int),
    {
        self.buffer[row * BUFFER_WIDTH + col]
    }

    pub fn write_byte(&mut self, byte: u8)
        requires
            old(self).wf(),
        ensures
            final(self).wf(),
            final(self)@ == write_byte_model(old(self)@, byte),
    {
        if byte == 10u8 {
            self.new_line();
        } else {
            if self.column_position >= BUFFER_WIDTH {
                self.new_line();
            }
            let row = BUFFER_HEIGHT - 1;
            let col = self.column_position;
            let color_code = self.color_code;
            self.buffer.set(row * BUFFER_WIDTH + col, ScreenChar { ascii_character: byte, color_code });
            self.column_position = self.column_position + 1;
        }
    }

    /// Writes the bytes of `s` in order; bytes outside printable ASCII and
    /// newline are shown as the placeholder.
    pub fn write_string(&mut self, s: &str)
        requires
            old(self).wf(),
        ensures
            final(self).wf(),
            final(self)@ == write_bytes_model(old(self)@, s.spec_bytes()),
    {
        let bytes = s.as_bytes();
        let mut i: usize = 0;
        while i < bytes.len()
            invariant
                bytes@ == s.spec_bytes(),
                i <= bytes@.len(),
                self.wf(),
                self@ == write_bytes_model(old(self)@, bytes@.take(i as int)),
            decreases bytes@.len() - i,
        {
            let byte = bytes[i];
            let shown = if (0x20u8 <= byte && byte <= 0x7eu8) || byte == 10u8 {
                byte
            } else {
                PLACEHOLDER
            };
            self.write_byte(shown);
            proof {
                assert(bytes@.take(i + 1).drop_last() =~= bytes@.take(i as int));
            }
            i = i + 1;
        }
        proof {
            assert(bytes@.take(i as int) =~= bytes@);
        }
    }

    /// Scrolls the screen up by one row and starts the bottom row afresh.
    fn new_line(&mut self)
        requires
            old(self).wf(),
        ensures
            final(self).wf(),
            final(self)@ == new_line_model(old(self)@),
    {
        let mut i: usize = BUFFER_WIDTH;
        while i < BUFFER_CELLS
            invariant
                BUFFER_WIDTH <= i <= BUFFER_CELLS,
                self.color_code == old(self).color_code,
                self.column_position == old(self).column_position,
                old(self).wf(),
                self.buffer@.len() == BUFFER_CELLS,
                forall|k: int|
                    0 <= k < i - BUFFER_WIDTH ==> #[trigger] self.buffer@[k] == old(self).buffer@[k
                        + BUFFER_WIDTH],
                forall|k: int| i - BUFFER_WIDTH <= k < BUFFER_CELLS ==> #[trigger] self.buffer@[k] == old(self).buffer@[k],
            decreases BUFFER_CELLS - i,
        {
            let c = self.buffer[i];
            self.buffer.set(i - BUFFER_WIDTH, c);
            i = i + 1;
        }
        self.clear_row(BUFFER_HEIGHT - 1);
        self.column_position = 0;
        proof {
            assert(self.buffer@ =~= scrolled(old(self).buffer@, old(self).color_code));
        }
    }

    /// Fills `row` with blanks in the current colour.
    fn clear_row(&mut self, row: usize)
        requires
            old(self).wf(),
            row < BUFFER_HEIGHT,
        ensures
            final(self).wf(),
            final(self).column_position == old(self).column_position,
            final(self).color_code == old(self).color_code,
            final(self).buffer@.len() == BUFFER_CELLS,
            forall|k: int|
                0 <= k < BUFFER_CELLS ==> #[trigger] final(self).buffer@[k] == if row * BUFFER_WIDTH <= k < (row + 1) * BUFFER_WIDTH {
                    blank(old(self).color_code)
                } else {
                    old(self).buffer@[k]
                },
    {
        let blank_char = ScreenChar { ascii_character: 32u8, color_code: self.color_code };
        let mut col: usize = 0;
        while col < BUFFER_WIDTH
            invariant
                col <= BUFFER_WIDTH,
                row < BUFFER_HEIGHT,
                self.wf(),
                self.column_position == old(self).column_position,
                self.color_code == old(self).color_code,
                blank_char == blank(self.color_code),
                forall|k: int|
                    0 <= k < BUFFER_CELLS ==> #[trigger] self.buffer@[k] == if row * BUFFER_WIDTH <= k < row * BUFFER_WIDTH + col {
                        blank(old(self).color_code)
                    } else {
                        old(self).buffer@[k]
                    },
            decreases BUFFER_WIDTH - col,
        {
            self.buffer.set(row * BUFFER_WIDTH + col, blank_char);
            col = col + 1;
        }
    }
}

} // verus!
