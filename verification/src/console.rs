//! The text console: a grid of cells with a cursor, drawn by a driver.

use vstd::prelude::*;
use crate::arch::port::{Port, PortWrite, byte_write};
use crate::driver::video::framebuffer::{Font, Framebuffer};
use crate::driver::video::terminal::FramebufferDriver;

verus! {

pub const CRTC_ADDR_REG: u16 = 0x3D4;
pub const CRTC_ADDR_DATA: u16 = 0x3D5;
pub const CURSOR_LOCATION_HIGH_IND: u8 = 0x0E;
pub const CURSOR_LOCATION_LOW_IND: u8 = 0x0F;

pub const CONSOLE_WIDTH: usize = 80;
pub const CONSOLE_HEIGHT: usize = 25;

/// Largest number of cells of a terminal.
pub const MAX_CELLS: usize = 0x100_0000;

#[derive(Debug, Clone, Copy, PartialEq, Eq, Structural)]
pub enum Color {
    Black,
    Blue,
    Green,
    Cyan,
    Red,
    Magenta,
    Brown,
    LightGray,
    DarkGray,
    LightBlue,
    LightGreen,
    LightCyan,
    LightRed,
    Pink,
    Yellow,
    White,
}

impl Color {
    /// The number of the colour, 0 for black up to 15 for white.
    pub open spec fn spec_value(self) -> u8 {
        match self {
            Color::Black => 0,
            Color::Blue => 1,
            Color::Green => 2,
            Color::Cyan => 3,
            Color::Red => 4,
            Color::Magenta => 5,
            Color::Brown => 6,
            Color::LightGray => 7,
            Color::DarkGray => 8,
            Color::LightBlue => 9,
            Color::LightGreen => 10,
            Color::LightCyan => 11,
            Color::LightRed => 12,
            Color::Pink => 13,
            Color::Yellow => 14,
            Color::White => 15,
        }
    }

    pub fn value(self) -> (v: u8)
        ensures
            v == self.spec_value(),
            v < 16,
    {
        match self {
            Color::Black => 0,
            Color::Blue => 1,
            Color::Green => 2,
            Color::Cyan => 3,
            Color::Red => 4,
            Color::Magenta => 5,
            Color::Brown => 6,
            Color::LightGray => 7,
            Color::DarkGray => 8,
            Color::LightBlue => 9,
            Color::LightGreen => 10,
            Color::LightCyan => 11,
            Color::LightRed => 12,
            Color::Pink => 13,
            Color::Yellow => 14,
            Color::White => 15,
        }
    }

    /// The colour with the number given; numbers above 15 count from 0 again.
    pub fn from_value(v: u8) -> (c: Color)
        ensures
            c.spec_value() == v % 16,
    {
        match v % 16 {
            0 => Color::Black,
            1 => Color::Blue,
            2 => Color::Green,
            3 => Color::Cyan,
            4 => Color::Red,
            5 => Color::Magenta,
            6 => Color::Brown,
            7 => Color::LightGray,
            8 => Color::DarkGray,
            9 => Color::LightBlue,
            10 => Color::LightGreen,
            11 => Color::LightCyan,
            12 => Color::LightRed,
            13 => Color::Pink,
            14 => Color::Yellow,
            _ => Color::White,
        }
    }
}

/// The colours of a cell: background in the high four bits, foreground in the low.
#[derive(Debug, Clone, Copy, PartialEq, Eq, Structural)]
pub struct Attribute(pub u8);

impl Attribute {
    pub fn new(fg: Color, bg: Color) -> (a: Attribute)
        ensures
            a.0 == bg.spec_value() * 16 + fg.spec_value(),
    {
        Attribute(bg.value() * 16 + fg.value())
    }

    pub fn bg(&self) -> (c: Color)
        ensures
            c.spec_value() == self.0 / 16,
    {
        Color::from_value(self.0 / 16)
    }

    pub fn fg(&self) -> (c: Color)
        ensures
            c.spec_value() == self.0 % 16,
    {
        Color::from_value(self.0 % 16)
    }
}

/// One cell: a character and its colours.
#[derive(Debug, Clone, Copy, PartialEq, Eq, Structural)]
pub struct Char {
    pub ascii: u8,
    pub attr: Attribute,
}

impl Char {
    /// The cell as the word that the text buffer of the display holds: the
    /// colours in the high byte, the character in the low.
    pub fn word(&self) -> (w: u16)
        ensures
            w == self.attr.0 * 256 + self.ascii,
    {
        (self.attr.0 as u16) * 256 + (self.ascii as u16)
    }
}

/// An empty cell: a space, white on black.
pub open spec fn spec_blank() -> Char {
    Char { ascii: 32, attr: Attribute(15) }
}

pub fn blank() -> (c: Char)
    ensures
        c == spec_blank(),
{
    Char { ascii: 32, attr: Attribute::new(Color::White, Color::Black) }
}

/// The cells after the driver scrolled for a cursor at `cursor`: with the
/// cursor in the last row, every row moves up by one and the last row is
/// empty; else nothing moves.
pub open spec fn spec_scroll(screen: Seq<Char>, cols: int, rows: int, cursor: int) -> Seq<Char> {
    if cursor / cols < rows - 1 {
        screen
    } else {
        Seq::new(
            screen.len(),
            |i: int|
                if i < cols * (rows - 1) {
                    screen[i + cols]
                } else {
                    spec_blank()
                },
        )
    }
}

/// A grid of empty cells.
pub open spec fn spec_cleared(n: nat) -> Seq<Char> {
    Seq::new(n, |i: int| spec_blank())
}

/// What draws the cells of a terminal.
pub trait TerminalDriver: Sized {
    spec fn wf(&self) -> bool;

    spec fn spec_cols(&self) -> usize;

    spec fn spec_rows(&self) -> usize;

    /// The cells, row after row.
    spec fn screen(&self) -> Seq<Char>;

    /// Whether the size of the grid is the device's own, and not the 25
    /// rows of 80 cells of the text mode.
    spec fn spec_resizable(&self) -> bool;

    /// The writes to the ports that the driver has collected and not yet
    /// handed over.
    spec fn spec_sent(&self) -> Seq<PortWrite>;

    /// The writes to the ports that tell the device that the cursor is in
    /// a row and a column; none for a device without a cursor.
    spec fn spec_cursor_told(&self, row: usize, col: usize) -> Seq<PortWrite>;

    /// A driver in good order has a grid of `spec_rows() * spec_cols()`
    /// cells, at least one and at most `MAX_CELLS`; one that is not
    /// resizable has the 25 rows of 80 cells of the text mode.
    proof fn lemma_wf(&self)
        requires
            self.wf(),
        ensures
            self.spec_cols() >= 1,
            self.spec_rows() >= 1,
            self.screen().len() == self.spec_rows() * self.spec_cols(),
            self.spec_rows() * self.spec_cols() <= MAX_CELLS,
            !self.spec_resizable() ==> self.spec_cols() == CONSOLE_WIDTH && self.spec_rows()
                == CONSOLE_HEIGHT,
    ;

    /// Tells the device where the cursor is: at any row and column, on the
    /// grid or off it, whose cell has a number.
    fn update_cursor(&mut self, row: usize, col: usize)
        requires
            old(self).wf(),
            row * old(self).spec_cols() + col <= usize::MAX,
        ensures
            final(self).wf(),
            final(self).spec_cols() == old(self).spec_cols(),
            final(self).spec_rows() == old(self).spec_rows(),
            final(self).screen() == old(self).screen(),
            final(self).spec_sent() == old(self).spec_sent() + old(self).spec_cursor_told(row, col),
    ;

    fn draw_byte(&mut self, cursor: usize, byte: Char)
        requires
            old(self).wf(),
            cursor < old(self).spec_rows() * old(self).spec_cols(),
        ensures
            final(self).wf(),
            final(self).spec_cols() == old(self).spec_cols(),
            final(self).spec_rows() == old(self).spec_rows(),
            final(self).screen() == old(self).screen().update(cursor as int, byte),
            final(self).spec_sent() == old(self).spec_sent(),
    ;

    fn get_max_cols(&self) -> (r: usize)
        requires
            self.wf(),
        ensures
            r == self.spec_cols(),
    ;

    fn get_max_rows(&self) -> (r: usize)
        requires
            self.wf(),
        ensures
            r == self.spec_rows(),
    ;

    /// Whether the size of the grid is the device's own.
    fn resizable(&self) -> (r: bool)
        ensures
            r == self.spec_resizable(),
    ;

    fn scroll_up(&mut self, cursor: usize)
        requires
            old(self).wf(),
        ensures
            final(self).wf(),
            final(self).spec_cols() == old(self).spec_cols(),
            final(self).spec_rows() == old(self).spec_rows(),
            final(self).screen() == spec_scroll(
                old(self).screen(),
                old(self).spec_cols() as int,
                old(self).spec_rows() as int,
                cursor as int,
            ),
            final(self).spec_sent() == old(self).spec_sent(),
    ;

    fn clear(&mut self)
        requires
            old(self).wf(),
        ensures
            final(self).wf(),
            final(self).spec_cols() == old(self).spec_cols(),
            final(self).spec_rows() == old(self).spec_rows(),
            final(self).screen() == spec_cleared(old(self).screen().len()),
            final(self).spec_sent() == old(self).spec_sent(),
    ;
}

/// The text mode of the legacy console: 25 rows of 80 cells, and the
/// cursor of the display controller. Writes to the controller's ports are
/// collected in `outbox` for the caller to send.
pub struct ConsoleDriver {
    pub buf: Vec<Char>,
    pub crtc_reg: Port<u8>,
    pub crtc_data: Port<u8>,
    pub outbox: Vec<PortWrite>,
}

/// The four writes that move the cursor of the display controller to `cursor`.
pub open spec fn spec_cursor_writes(cursor: usize) -> Seq<PortWrite> {
    seq![
        byte_write(CRTC_ADDR_REG, CURSOR_LOCATION_HIGH_IND),
        byte_write(CRTC_ADDR_DATA, ((cursor / 256) % 256) as u8),
        byte_write(CRTC_ADDR_REG, CURSOR_LOCATION_LOW_IND),
        byte_write(CRTC_ADDR_DATA, (cursor % 256) as u8),
    ]
}

impl ConsoleDriver {
    pub fn new() -> (d: ConsoleDriver)
        ensures
            d.wf(),
            d.outbox@.len() == 0,
            d.screen() == spec_cleared(2000),
    {
        let mut buf: Vec<Char> = Vec::new();
        let mut i: usize = 0;
        while i < CONSOLE_WIDTH * CONSOLE_HEIGHT
            invariant
                i <= CONSOLE_WIDTH * CONSOLE_HEIGHT,
                buf@.len() == i,
                forall|j: int| 0 <= j < i ==> buf@[j] == spec_blank(),
            decreases CONSOLE_WIDTH * CONSOLE_HEIGHT - i,
        {
            buf.push(blank());
            i += 1;
        }
        let d = ConsoleDriver {
            buf,
            crtc_reg: Port::new(CRTC_ADDR_REG),
            crtc_data: Port::new(CRTC_ADDR_DATA),
            outbox: Vec::new(),
        };
        assert(d.screen() =~= spec_cleared(2000));
        d
    }

    /// Moves the cursor of the display controller.
    pub fn set_phy_cursor(&mut self, cursor: usize)
        requires
            old(self).wf(),
        ensures
            final(self).wf(),
            final(self).buf == old(self).buf,
            final(self).outbox@ == old(self).outbox@ + spec_cursor_writes(cursor),
    {
        let high = ((cursor / 256) % 256) as u8;
        let low = (cursor % 256) as u8;
        let w1 = self.crtc_reg.write(CURSOR_LOCATION_HIGH_IND);
        let w2 = self.crtc_data.write(high);
        let w3 = self.crtc_reg.write(CURSOR_LOCATION_LOW_IND);
        let w4 = self.crtc_data.write(low);
        self.outbox.push(w1);
        self.outbox.push(w2);
        self.outbox.push(w3);
        self.outbox.push(w4);
        assert(self.outbox@ =~= old(self).outbox@ + spec_cursor_writes(cursor));
    }

    /// The writes collected since the last call.
    pub fn take_outbox(&mut self) -> (w: Vec<PortWrite>)
        ensures
            w@ == old(self).outbox@,
            final(self).outbox@.len() == 0,
            final(self).buf == old(self).buf,
            final(self).crtc_reg == old(self).crtc_reg,
            final(self).crtc_data == old(self).crtc_data,
    {
        let mut w: Vec<PortWrite> = Vec::new();
        std::mem::swap(&mut w, &mut self.outbox);
        w
    }
}

impl TerminalDriver for ConsoleDriver {
    open spec fn wf(&self) -> bool {
        &&& self.buf@.len() == 2000
        &&& self.crtc_reg.port == CRTC_ADDR_REG
        &&& self.crtc_data.port == CRTC_ADDR_DATA
    }

    open spec fn spec_cols(&self) -> usize {
        80
    }

    open spec fn spec_rows(&self) -> usize {
        25
    }

    open spec fn screen(&self) -> Seq<Char> {
        self.buf@
    }

    open spec fn spec_resizable(&self) -> bool {
        false
    }

    open spec fn spec_sent(&self) -> Seq<PortWrite> {
        self.outbox@
    }

    open spec fn spec_cursor_told(&self, row: usize, col: usize) -> Seq<PortWrite> {
        spec_cursor_writes((row * 80 + col) as usize)
    }

    proof fn lemma_wf(&self) {
    }

    fn update_cursor(&mut self, row: usize, col: usize)
        ensures
            final(self).outbox@ == old(self).outbox@ + spec_cursor_writes((row * 80 + col) as usize),
    {
        let v = row * CONSOLE_WIDTH + col;
        self.set_phy_cursor(v);
    }

    fn draw_byte(&mut self, cursor: usize, byte: Char)
        ensures
            final(self).outbox == old(self).outbox,
    {
        self.buf[cursor] = byte;
    }

    fn get_max_cols(&self) -> (r: usize) {
        CONSOLE_WIDTH
    }

    fn get_max_rows(&self) -> (r: usize) {
        CONSOLE_HEIGHT
    }

    fn resizable(&self) -> (r: bool) {
        false
    }

    fn scroll_up(&mut self, cursor: usize)
        ensures
            final(self).outbox == old(self).outbox,
    {
        let cy = cursor / CONSOLE_WIDTH;
        if cy < CONSOLE_HEIGHT - 1 {
            return ;
        }
        let off = CONSOLE_WIDTH * (CONSOLE_HEIGHT - 1);
        let mut i: usize = 0;
        while i < off
            invariant
                i <= off,
                off == 1920,
                self.buf@.len() == 2000,
                self.crtc_reg == old(self).crtc_reg,
                self.crtc_data == old(self).crtc_data,
                self.outbox == old(self).outbox,
                forall|j: int| 0 <= j < i ==> self.buf@[j] == old(self).buf@[j + 80],
                forall|j: int| i <= j < 2000 ==> self.buf@[j] == old(self).buf@[j],
            decreases off - i,
        {
            let c = self.buf[i + CONSOLE_WIDTH];
            self.buf[i] = c;
            i += 1;
        }
        while i < CONSOLE_WIDTH * CONSOLE_HEIGHT
            invariant
                1920 <= i <= 2000,
                self.buf@.len() == 2000,
                self.crtc_reg == old(self).crtc_reg,
                self.crtc_data == old(self).crtc_data,
                self.outbox == old(self).outbox,
                forall|j: int| 0 <= j < 1920 ==> self.buf@[j] == old(self).buf@[j + 80],
                forall|j: int| 1920 <= j < i ==> self.buf@[j] == spec_blank(),
            decreases 2000 - i,
        {
            self.buf[i] = blank();
            i += 1;
        }
        assert(self.buf@ =~= spec_scroll(old(self).buf@, 80, 25, cursor as int));
    }

    fn clear(&mut self)
        ensures
            final(self).outbox == old(self).outbox,
    {
        let mut i: usize = 0;
        while i < CONSOLE_WIDTH * CONSOLE_HEIGHT
            invariant
                i <= 2000,
                self.buf@.len() == 2000,
                self.crtc_reg == old(self).crtc_reg,
                self.crtc_data == old(self).crtc_data,
                self.outbox == old(self).outbox,
                forall|j: int| 0 <= j < i ==> self.buf@[j] == spec_blank(),
            decreases 2000 - i,
        {
            self.buf[i] = blank();
            i += 1;
        }
        assert(self.buf@ =~= spec_cleared(2000));
    }
}

/// The cursor and the colours of a terminal, over a driver.
pub struct TerminalHelper<T: TerminalDriver> {
    /// The cursor as the number of its cell.
    pub cursor: usize,
    /// The colours that characters are written in.
    pub attr: Attribute,
    pub cols: usize,
    pub rows: usize,
    pub drv: T,
}

/// A terminal as a value of mathematics: the cells, the grid's size, the
/// cursor and the colours.
pub struct TerminalState {
    pub screen: Seq<Char>,
    pub cols: int,
    pub rows: int,
    pub cursor: int,
    pub attr: Attribute,
}

impl TerminalState {
    /// The terminal after the cursor moved one cell on: into the next row
    /// after the last column, and with a scroll after the last row.
    pub open spec fn advance(self) -> TerminalState {
        let cy = self.cursor / self.cols;
        let cx = self.cursor % self.cols;
        if cx + 1 < self.cols {
            TerminalState { cursor: cy * self.cols + cx + 1, ..self }
        } else if cy + 1 < self.rows {
            TerminalState { cursor: (cy + 1) * self.cols, ..self }
        } else {
            TerminalState {
                cursor: (self.rows - 1) * self.cols,
                screen: spec_scroll(self.screen, self.cols, self.rows, self.cursor),
                ..self
            }
        }
    }

    /// The cells from `from` up to `to` made empty.
    pub open spec fn blanked(screen: Seq<Char>, from: int, to: int) -> Seq<Char> {
        Seq::new(
            screen.len(),
            |i: int|
                if from <= i < to {
                    spec_blank()
                } else {
                    screen[i]
                },
        )
    }

    /// The column that a tab moves to from column `cx`: the next multiple of
    /// eight, but not beyond the last column.
    pub open spec fn tab_stop(cx: int, cols: int) -> int {
        let next = (cx / 8 + 1) * 8;
        if next >= cols {
            cols - 1
        } else {
            next
        }
    }

    /// The terminal after a byte was written to it. Backspace empties the
    /// cell under the cursor and moves the cursor back, unless it is in the
    /// first column. Tab moves to the next tab stop and empties the cells
    /// on the way. Line feed moves to the start of the next row, with a
    /// scroll after the last row. Carriage return moves to the start of the
    /// row. Every other byte is put into the cell under the cursor, in the
    /// terminal's colours, and the cursor moves on.
    pub open spec fn write_byte(self, byte: u8) -> TerminalState {
        let cy = self.cursor / self.cols;
        let cx = self.cursor % self.cols;
        if byte == 8 {
            if cx > 0 {
                TerminalState {
                    screen: self.screen.update(self.cursor, spec_blank()),
                    cursor: self.cursor - 1,
                    ..self
                }
            } else {
                self
            }
        } else if byte == 9 {
            let target = cy * self.cols + Self::tab_stop(cx, self.cols);
            TerminalState {
                screen: Self::blanked(self.screen, self.cursor, target),
                cursor: target,
                ..self
            }
        } else if byte == 10 {
            if cy + 1 < self.rows {
                TerminalState { cursor: (cy + 1) * self.cols, ..self }
            } else {
                TerminalState {
                    cursor: (self.rows - 1) * self.cols,
                    screen: spec_scroll(self.screen, self.cols, self.rows, self.cursor),
                    ..self
                }
            }
        } else if byte == 13 {
            TerminalState { cursor: cy * self.cols, ..self }
        } else {
            (TerminalState {
                screen: self.screen.update(self.cursor, Char { ascii: byte, attr: self.attr }),
                ..self
            }).advance()
        }
    }
}

/// A cell of the grid by row and column.
pub proof fn lemma_cell_index(cols: int, rows: int, cy: int, cx: int)
    requires
        0 <= cx < cols,
        0 <= cy < rows,
    ensures
        0 <= cy * cols + cx < rows * cols,
        (cy * cols + cx) / cols == cy,
        (cy * cols + cx) % cols == cx,
{
    assert(cy * cols + cx < rows * cols && 0 <= cy * cols) by (nonlinear_arith)
        requires
            0 <= cx < cols,
            0 <= cy < rows,
    ;
    vstd::arithmetic::div_mod::lemma_fundamental_div_mod_converse(cy * cols + cx, cols, cy, cx);
}

/// The row and column of a cell of the grid.
pub proof fn lemma_cursor_parts(cols: int, rows: int, cursor: int)
    requires
        cols >= 1,
        0 <= cursor < rows * cols,
    ensures
        0 <= cursor / cols < rows,
        0 <= cursor % cols < cols,
        cursor == (cursor / cols) * cols + cursor % cols,
{
    vstd::arithmetic::div_mod::lemma_fundamental_div_mod(cursor, cols);
    vstd::arithmetic::div_mod::lemma_mod_bound(cursor, cols);
    let q = cursor / cols;
    assert(cols * q == q * cols) by (nonlinear_arith);
    if q >= rows {
        assert(q * cols >= rows * cols) by (nonlinear_arith)
            requires
                q >= rows,
                cols >= 1,
        ;
    }
    if q < 0 {
        assert(q * cols <= -cols) by (nonlinear_arith)
            requires
                q <= -1,
                cols >= 1,
        ;
    }
}

impl<T: TerminalDriver> TerminalHelper<T> {
    /// The driver is in good order, the helper knows its size, and the
    /// cursor is on the grid.
    pub open spec fn wf(self) -> bool {
        &&& self.ready()
        &&& self.cursor < self.rows * self.cols
    }

    /// The driver is in good order and the helper knows its size; the
    /// cursor may lie off the grid.
    pub open spec fn ready(self) -> bool {
        &&& self.drv.wf()
        &&& self.cols == self.drv.spec_cols()
        &&& self.rows == self.drv.spec_rows()
    }

    pub open spec fn view(self) -> TerminalState {
        TerminalState {
            screen: self.drv.screen(),
            cols: self.cols as int,
            rows: self.rows as int,
            cursor: self.cursor as int,
            attr: self.attr,
        }
    }

    /// A terminal of 25 rows of 80 cells, green on black, with the cursor
    /// in the first cell.
    pub fn new(drv: T) -> (t: TerminalHelper<T>)
        ensures
            t.drv == drv,
            t.cursor == 0,
            t.attr == Attribute(2),
            t.cols == CONSOLE_WIDTH,
            t.rows == CONSOLE_HEIGHT,
            // over a driver of fixed size the terminal is in good order at once
            drv.wf() && !drv.spec_resizable() ==> t.wf(),
    {
        proof {
            if drv.wf() && !drv.spec_resizable() {
                drv.lemma_wf();
            }
        }
        TerminalHelper {
            drv,
            cursor: 0,
            attr: Attribute::new(Color::Green, Color::Black),
            cols: CONSOLE_WIDTH,
            rows: CONSOLE_HEIGHT,
        }
    }

    /// Moves the cursor to a row and a column, and tells the driver. The
    /// cell need not lie on the grid; where it does, the terminal is in
    /// good order afterwards.
    pub fn update_cursor(&mut self, row: usize, col: usize)
        requires
            old(self).ready(),
            row * old(self).cols + col <= usize::MAX,
        ensures
            final(self).ready(),
            row < old(self).rows && col < old(self).cols ==> final(self).wf(),
            final(self)@ == (TerminalState { cursor: row * old(self).cols + col, ..old(self)@ }),
            // the driver is told once
            final(self).drv.spec_sent() == old(self).drv.spec_sent() + old(self).drv.spec_cursor_told(
                row,
                col,
            ),
    {
        proof {
            self.drv.lemma_wf();
            if row < self.rows && col < self.cols {
                lemma_cell_index(self.cols as int, self.rows as int, row as int, col as int);
            }
        }
        let v = self.contract_cursor(row, col);
        self.cursor = v;
        self.drv.update_cursor(row, col);
    }

    /// Moves the cursor one cell on and returns where it was.
    pub fn advance(&mut self) -> (before: usize)
        requires
            old(self).wf(),
        ensures
            final(self).wf(),
            before == old(self).cursor,
            final(self)@ == old(self)@.advance(),
    {
        proof {
            self.drv.lemma_wf();
            lemma_cursor_parts(self.cols as int, self.rows as int, self.cursor as int);
        }
        let before = self.cursor;
        let (cy0, cx0) = self.extract_cursor(before);
        let mut cy = cy0;
        let mut cx = cx0 + 1;
        if cx == self.cols {
            cx = 0;
            cy = cy + 1;
        }
        if cy == self.rows {
            cy = self.rows - 1;
            self.drv.scroll_up(self.cursor);
        }
        proof {
            self.drv.lemma_wf();
            lemma_cell_index(self.cols as int, self.rows as int, cy as int, cx as int);
        }
        self.update_cursor(cy, cx);
        before
    }

    /// The row and the column of a cell.
    pub fn extract_cursor(&self, cursor: usize) -> (r: (usize, usize))
        requires
            self.cols > 0,
        ensures
            r.0 == cursor / self.cols,
            r.1 == cursor % self.cols,
    {
        (cursor / self.cols, cursor % self.cols)
    }

    /// The cell in a row and a column.
    pub fn contract_cursor(&self, row: usize, col: usize) -> (r: usize)
        requires
            row * self.cols + col <= usize::MAX,
        ensures
            r == row * self.cols + col,
    {
        assert(row * self.cols <= row * self.cols + col);
        row * self.cols + col
    }

    /// Sets the colours and returns those that were set.
    pub fn set_attr(&mut self, val: Attribute) -> (before: Attribute)
        ensures
            before == old(self).attr,
            *final(self) == (TerminalHelper { attr: val, ..*old(self) }),
    {
        let before = self.attr;
        self.attr = val;
        before
    }

    pub fn get_attr(&self) -> (a: Attribute)
        ensures
            a == self.attr,
    {
        self.attr
    }

    /// Empties every cell and moves the cursor to the first.
    pub fn clear(&mut self)
        requires
            old(self).wf(),
        ensures
            final(self).wf(),
            final(self)@ == (TerminalState {
                screen: spec_cleared(old(self)@.screen.len()),
                cursor: 0,
                ..old(self)@
            }),
    {
        proof {
            self.drv.lemma_wf();
        }
        self.drv.clear();
        self.update_cursor(0, 0);
    }

    /// Moves the cursor one cell back, unless it is in the first cell, and
    /// returns where it was.
    pub fn retreat(&mut self) -> (before: usize)
        requires
            old(self).wf(),
        ensures
            final(self).wf(),
            before == old(self).cursor,
            final(self)@ == (TerminalState {
                cursor: if old(self).cursor == 0 {
                    0
                } else {
                    old(self).cursor - 1
                },
                ..old(self)@
            }),
    {
        proof {
            self.drv.lemma_wf();
            lemma_cursor_parts(self.cols as int, self.rows as int, self.cursor as int);
        }
        let before = self.cursor;
        let (cy0, cx0) = self.extract_cursor(before);
        if before == 0 {
            return before;
        }
        let mut cy = cy0;
        let mut cx = cx0;
        proof {
            if cy0 == 0 {
                assert(cy0 * self.cols == 0) by (nonlinear_arith)
                    requires
                        cy0 == 0,
                ;
            }
            assert((cy0 - 1) * self.cols + self.cols == cy0 * self.cols) by (nonlinear_arith);
        }
        if cx == 0 {
            cx = self.cols - 1;
            cy = cy - 1;
        } else {
            cx = cx - 1;
        }
        proof {
            lemma_cell_index(self.cols as int, self.rows as int, cy as int, cx as int);
        }
        self.update_cursor(cy, cx);
        before
    }

    /// Writes a byte to the terminal.
    pub fn write_byte(&mut self, byte: u8)
        requires
            old(self).wf(),
        ensures
            final(self).wf(),
            final(self)@ == old(self)@.write_byte(byte),
    {
        proof {
            self.drv.lemma_wf();
            lemma_cursor_parts(self.cols as int, self.rows as int, self.cursor as int);
        }
        let (cy0, cx0) = self.extract_cursor(self.cursor);
        let mut cy = cy0;
        let mut cx = cx0;
        let empty = blank();
        if byte == 8 {
            if cx > 0 {
                let cur = self.cursor;
                self.drv.draw_byte(cur, empty);
                self.retreat();
            }
        } else if byte == 9 {
            cx = (cx / 8 + 1) * 8;
            if cx >= self.cols {
                cx = self.cols - 1;
            }
            let before = self.cursor;
            let ghost screen0 = self.drv.screen();
            proof {
                lemma_cell_index(self.cols as int, self.rows as int, cy as int, cx as int);
            }
            self.update_cursor(cy, cx);
            let target = self.cursor;
            let mut i = before;
            proof {
                assert(before == cy0 * self.cols + cx0);
                assert(target == cy0 * self.cols + cx);
                assert(cx >= cx0);
                assert(self.drv.screen() =~= TerminalState::blanked(screen0, before as int, before as int));
            }
            while i < target
                invariant
                    self.wf(),
                    before <= i <= target,
                    empty == spec_blank(),
                    target == self.cursor,
                    self.cols == old(self).cols,
                    self.rows == old(self).rows,
                    self.attr == old(self).attr,
                    self.drv.screen() == TerminalState::blanked(screen0, before as int, i as int),
                    screen0.len() == self.rows * self.cols,
                decreases target - i,
            {
                proof {
                    self.drv.lemma_wf();
                }
                self.drv.draw_byte(i, empty);
                i += 1;
                assert(self.drv.screen() =~= TerminalState::blanked(screen0, before as int, i as int));
            }
            assert(self.drv.screen() =~= TerminalState::blanked(screen0, before as int, target as int));
        } else if byte == 10 {
            cy = cy + 1;
            cx = 0;
            if cy == self.rows {
                cy = self.rows - 1;
                self.drv.scroll_up(self.cursor);
            }
            proof {
                lemma_cell_index(self.cols as int, self.rows as int, cy as int, 0);
            }
            self.update_cursor(cy, cx);
        } else if byte == 13 {
            cx = 0;
            proof {
                lemma_cell_index(self.cols as int, self.rows as int, cy as int, 0);
            }
            self.update_cursor(cy, cx);
        } else {
            let cur = self.cursor;
            let attr = self.attr;
            self.drv.draw_byte(cur, Char { ascii: byte, attr: attr });
            self.advance();
        }
    }
}

/// How weighty a message is.
#[derive(Debug, Clone, Copy, PartialEq, Eq, Structural)]
pub enum LogLevel {
    Debug,
    Normal,
    Info,
    Warn,
    Critical,
}

impl LogLevel {
    /// The colours that messages of the level are written in.
    pub open spec fn spec_attribute(self) -> Attribute {
        match self {
            LogLevel::Debug => Attribute(2),
            LogLevel::Normal => Attribute(15),
            LogLevel::Info => Attribute(3),
            LogLevel::Warn => Attribute(4),
            LogLevel::Critical => Attribute(252),
        }
    }

    pub fn attribute(self) -> (a: Attribute)
        ensures
            a == self.spec_attribute(),
    {
        match self {
            LogLevel::Debug => Attribute::new(Color::Green, Color::Black),
            LogLevel::Normal => Attribute::new(Color::White, Color::Black),
            LogLevel::Info => Attribute::new(Color::Cyan, Color::Black),
            LogLevel::Warn => Attribute::new(Color::Red, Color::Black),
            LogLevel::Critical => Attribute::new(Color::LightRed, Color::White),
        }
    }
}

/// The terminal after the bytes from position `from` on were written to it.
pub open spec fn spec_write_bytes(t: TerminalState, s: Seq<u8>, from: int) -> TerminalState
    decreases s.len() - from,
{
    if from < 0 || from >= s.len() {
        t
    } else {
        spec_write_bytes(t.write_byte(s[from]), s, from + 1)
    }
}

/// Writing keeps the size of the grid.
pub proof fn lemma_write_bytes_dims(t: TerminalState, s: Seq<u8>, from: int)
    ensures
        spec_write_bytes(t, s, from).cols == t.cols,
        spec_write_bytes(t, s, from).rows == t.rows,
    decreases s.len() - from,
{
    if 0 <= from < s.len() {
        lemma_write_bytes_dims(t.write_byte(s[from]), s, from + 1);
    }
}

/// The console: the legacy text mode or a terminal on the framebuffer.
pub enum Console {
    TextTerminal(TerminalHelper<ConsoleDriver>),
    FbTerminal(TerminalHelper<FramebufferDriver>),
}

impl Console {
    pub open spec fn wf(self) -> bool {
        match self {
            Console::TextTerminal(t) => t.wf(),
            Console::FbTerminal(t) => t.wf(),
        }
    }

    /// The terminal is in good order but for its cursor, which may lie off
    /// the grid.
    pub open spec fn ready(self) -> bool {
        match self {
            Console::TextTerminal(t) => t.ready(),
            Console::FbTerminal(t) => t.ready(),
        }
    }

    pub open spec fn view(self) -> TerminalState {
        match self {
            Console::TextTerminal(t) => t@,
            Console::FbTerminal(t) => t@,
        }
    }

    /// A console in good order has at least one cell, and its cursor is on
    /// the grid.
    pub proof fn lemma_wf(self)
        requires
            self.wf(),
        ensures
            self@.cols >= 1,
            self@.rows >= 1,
            0 <= self@.cursor < self@.rows * self@.cols,
            self@.screen.len() == self@.rows * self@.cols,
            self@.rows * self@.cols <= MAX_CELLS,
    {
        match self {
            Console::TextTerminal(t) => {
                t.drv.lemma_wf();
            },
            Console::FbTerminal(t) => {
                t.drv.lemma_wf();
            },
        }
    }

    /// A console in the legacy text mode, empty, with the cursor in the
    /// first cell.
    pub fn new_with_text_only() -> (c: Console)
        ensures
            c.wf(),
            c@ == (TerminalState {
                screen: spec_cleared(2000),
                cols: 80,
                rows: 25,
                cursor: 0,
                attr: Attribute(2),
            }),
    {
        Console::TextTerminal(TerminalHelper::new(ConsoleDriver::new()))
    }

    /// A console on the framebuffer, as large as the font allows, empty,
    /// with the cursor in the first cell.
    pub fn new_with_fb(fb: Framebuffer, font: Font) -> (c: Console)
        requires
            fb.wf(),
            font.wf(),
            fb.width >= 8,
            fb.height >= 16,
        ensures
            c.wf(),
            c@ == (TerminalState {
                screen: spec_cleared(((fb.height / 16) * (fb.width / 8)) as nat),
                cols: fb.width as int / 8,
                rows: fb.height as int / 16,
                cursor: 0,
                attr: Attribute(2),
            }),
    {
        let drv = FramebufferDriver::new(fb, font);
        proof {
            drv.lemma_wf();
        }
        let mut helper = TerminalHelper::new(drv);
        helper.cols = helper.drv.get_max_cols();
        helper.rows = helper.drv.get_max_rows();
        assert(0 < helper.rows * helper.cols) by (nonlinear_arith)
            requires
                helper.rows >= 1,
                helper.cols >= 1,
        ;
        Console::FbTerminal(helper)
    }

    /// Writes a byte to the terminal.
    pub fn putchar(&mut self, byte: u8)
        requires
            old(self).wf(),
        ensures
            final(self).wf(),
            final(self)@ == old(self)@.write_byte(byte),
    {
        match self {
            Console::TextTerminal(drv) => drv.write_byte(byte),
            Console::FbTerminal(drv) => drv.write_byte(byte),
        }
    }

    /// Sets the colours and returns those that were set.
    pub fn set_attr(&mut self, val: Attribute) -> (before: Attribute)
        requires
            old(self).wf(),
        ensures
            final(self).wf(),
            before == old(self)@.attr,
            final(self)@ == (TerminalState { attr: val, ..old(self)@ }),
    {
        match self {
            Console::TextTerminal(drv) => drv.set_attr(val),
            Console::FbTerminal(drv) => drv.set_attr(val),
        }
    }

    /// Empties every cell and moves the cursor to the first.
    pub fn clear(&mut self)
        requires
            old(self).wf(),
        ensures
            final(self).wf(),
            final(self)@ == (TerminalState {
                screen: spec_cleared(old(self)@.screen.len()),
                cursor: 0,
                ..old(self)@
            }),
    {
        match self {
            Console::TextTerminal(drv) => drv.clear(),
            Console::FbTerminal(drv) => drv.clear(),
        }
    }

    /// Moves the cursor to a row and a column. The cell need not lie on
    /// the grid; where it does, the console is in good order afterwards.
    pub fn update_cursor(&mut self, row: usize, col: usize)
        requires
            old(self).ready(),
            row * old(self)@.cols + col <= usize::MAX,
        ensures
            final(self).ready(),
            row < old(self)@.rows && col < old(self)@.cols ==> final(self).wf(),
            final(self)@ == (TerminalState { cursor: row * old(self)@.cols + col, ..old(self)@ }),
    {
        match self {
            Console::TextTerminal(drv) => drv.update_cursor(row, col),
            Console::FbTerminal(drv) => drv.update_cursor(row, col),
        }
    }

    pub fn get_cursor(&self) -> (c: usize)
        ensures
            c == self@.cursor,
    {
        match self {
            Console::TextTerminal(drv) => drv.cursor,
            Console::FbTerminal(drv) => drv.cursor,
        }
    }

    /// The row and the column of a cell.
    pub fn extract_cursor(&self, cursor: usize) -> (r: (usize, usize))
        requires
            self@.cols > 0,
        ensures
            r.0 == cursor as int / self@.cols,
            r.1 == cursor as int % self@.cols,
    {
        match self {
            Console::TextTerminal(drv) => drv.extract_cursor(cursor),
            Console::FbTerminal(drv) => drv.extract_cursor(cursor),
        }
    }

    /// Writes the bytes to the terminal, one after the other.
    pub fn write_str(&mut self, s: &[u8])
        requires
            old(self).wf(),
        ensures
            final(self).wf(),
            final(self)@ == spec_write_bytes(old(self)@, s@, 0),
    {
        let mut i: usize = 0;
        while i < s.len()
            invariant
                i <= s@.len(),
                self.wf(),
                spec_write_bytes(self@, s@, i as int) == spec_write_bytes(old(self)@, s@, 0),
            decreases s@.len() - i,
        {
            self.putchar(s[i]);
            i += 1;
        }
    }

    /// Writes a message in the colours of its level, and sets the colours
    /// back. A message of the level `Debug` is dropped unless `kdebug` is set.
    pub fn printk(&mut self, level: LogLevel, text: &[u8], kdebug: bool)
        requires
            old(self).wf(),
        ensures
            final(self).wf(),
            level == LogLevel::Debug && !kdebug ==> final(self)@ == old(self)@,
            !(level == LogLevel::Debug && !kdebug) ==> final(self)@ == (TerminalState {
                attr: old(self)@.attr,
                ..spec_write_bytes(
                    TerminalState { attr: level.spec_attribute(), ..old(self)@ },
                    text@,
                    0,
                )
            }),
    {
        let drop = match level {
            LogLevel::Debug => !kdebug,
            _ => false,
        };
        if !drop {
            let before = self.set_attr(level.attribute());
            self.write_str(text);
            self.set_attr(before);
        }
    }
}

/// The terminal after `text` was logged at `level` from column `col` of
/// row `row` on, with the cursor put back where it was.
pub open spec fn spec_logged_at(
    t: TerminalState,
    row: int,
    col: int,
    level: LogLevel,
    text: Seq<u8>,
    kdebug: bool,
) -> TerminalState {
    let moved = TerminalState { cursor: row * t.cols + col, ..t };
    let printed = if level == LogLevel::Debug && !kdebug {
        moved
    } else {
        TerminalState {
            attr: t.attr,
            ..spec_write_bytes(TerminalState { attr: level.spec_attribute(), ..moved }, text, 0)
        }
    };
    TerminalState { cursor: t.cursor, ..printed }
}

impl Console {
    /// Logs `text` at `level` from column `col` of row `row` on, and puts
    /// the cursor back where it was. The cell must lie on the grid where
    /// the text is written; a message that is dropped may be aimed anywhere.
    pub fn with(&mut self, row: usize, col: usize, level: LogLevel, text: &[u8], kdebug: bool)
        requires
            old(self).wf(),
            row * old(self)@.cols + col <= usize::MAX,
            !(level == LogLevel::Debug && !kdebug) ==> row < old(self)@.rows && col < old(self)@.cols,
        ensures
            final(self).wf(),
            final(self)@ == spec_logged_at(old(self)@, row as int, col as int, level, text@, kdebug),
    {
        let before = self.get_cursor();
        proof {
            self.lemma_wf();
            lemma_write_bytes_dims(
                TerminalState {
                    cursor: row * self@.cols + col,
                    attr: level.spec_attribute(),
                    ..self@
                },
                text@,
                0,
            );
            lemma_cursor_parts(self@.cols, self@.rows, self@.cursor);
        }
        self.update_cursor(row, col);
        let dropped = match level {
            LogLevel::Debug => !kdebug,
            _ => false,
        };
        if !dropped {
            self.printk(level, text, kdebug);
        }
        let (cy, cx) = self.extract_cursor(before);
        self.update_cursor(cy, cx);
    }
}

/// Empties the console.
pub fn clear(con: &mut Console)
    requires
        old(con).wf(),
    ensures
        final(con).wf(),
        final(con)@ == (TerminalState {
            screen: spec_cleared(old(con)@.screen.len()),
            cursor: 0,
            ..old(con)@
        }),
{
    con.clear();
}

} // verus!
