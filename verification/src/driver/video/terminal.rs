//! A terminal drawn on the framebuffer with a font of fixed size.

use vstd::prelude::*;
use crate::console::{Char, TerminalDriver, blank, spec_blank, spec_cleared, spec_scroll};
use super::framebuffer::{Font, Framebuffer, Point, Rgba, spec_char};

verus! {

/// The colour of the framebuffer for each colour of the console.
pub fn colormap(index: u8) -> (c: Rgba)
    ensures
        c.0 == spec_colormap(index),
{
    match index % 16 {
        0 => Rgba::new(0x000000),
        1 => Rgba::new(0x0000ff),
        2 => Rgba::new(0x00ff00),
        3 => Rgba::new(0x00ffff),
        4 => Rgba::new(0xff0000),
        5 => Rgba::new(0xff00ff),
        6 => Rgba::new(0xa52a2a),
        7 => Rgba::new(0xd3d3d3),
        8 => Rgba::new(0xbebebe),
        9 => Rgba::new(0xadd8e6),
        10 => Rgba::new(0x90ee90),
        11 => Rgba::new(0xe0ffff),
        12 => Rgba::new(0xcd5c5c),
        13 => Rgba::new(0xee00ee),
        14 => Rgba::new(0xffff00),
        _ => Rgba::new(0xffffff),
    }
}

pub open spec fn spec_colormap(index: u8) -> u32 {
    let i = index % 16;
    if i == 0 {
        0x000000
    } else if i == 1 {
        0x0000ff
    } else if i == 2 {
        0x00ff00
    } else if i == 3 {
        0x00ffff
    } else if i == 4 {
        0xff0000
    } else if i == 5 {
        0xff00ff
    } else if i == 6 {
        0xa52a2a
    } else if i == 7 {
        0xd3d3d3
    } else if i == 8 {
        0xbebebe
    } else if i == 9 {
        0xadd8e6
    } else if i == 10 {
        0x90ee90
    } else if i == 11 {
        0xe0ffff
    } else if i == 12 {
        0xcd5c5c
    } else if i == 13 {
        0xee00ee
    } else if i == 14 {
        0xffff00
    } else {
        0xffffff
    }
}

/// Draws the cells of a terminal as glyphs into the framebuffer, and keeps
/// the cells themselves.
pub struct FramebufferDriver {
    pub fb: Framebuffer,
    /// Columns in use.
    pub width: usize,
    /// Rows in use.
    pub height: usize,
    pub max_cols: usize,
    pub max_rows: usize,
    pub cells: Vec<Char>,
    pub font: Font,
}

impl FramebufferDriver {
    /// A terminal of as many columns and rows as glyphs fit into the
    /// framebuffer, with every cell empty.
    pub fn new(fb: Framebuffer, font: Font) -> (d: FramebufferDriver)
        requires
            fb.wf(),
            font.wf(),
            fb.width >= 8,
            fb.height >= 16,
        ensures
            d.wf(),
            d.spec_cols() == fb.width as int / 8,
            d.spec_rows() == fb.height as int / 16,
            d.screen() == spec_cleared(((fb.height / 16) * (fb.width / 8)) as nat),
            d.fb == fb,
    {
        let w = (fb.width / font.xadvance) as usize;
        let h = (fb.height / font.yadvance) as usize;
        assert(1 <= h * w <= 1024 * 512) by (nonlinear_arith)
            requires
                1 <= w <= 1024,
                1 <= h <= 512,
        ;
        let n = h * w;
        let mut cells: Vec<Char> = Vec::new();
        let mut i: usize = 0;
        while i < n
            invariant
                i <= n,
                cells@.len() == i,
                forall|j: int| 0 <= j < i ==> cells@[j] == spec_blank(),
            decreases n - i,
        {
            cells.push(blank());
            i += 1;
        }
        assert(cells@ =~= spec_cleared(n as nat));
        FramebufferDriver { fb, max_cols: w, max_rows: h, width: w, height: h, cells, font }
    }
}

impl TerminalDriver for FramebufferDriver {
    open spec fn wf(&self) -> bool {
        &&& self.fb.wf()
        &&& self.font.wf()
        &&& self.width >= 1
        &&& self.height >= 1
        &&& self.width * 8 <= self.fb.width
        &&& self.height * 16 <= self.fb.height
        &&& self.max_cols == self.width
        &&& self.max_rows == self.height
        &&& self.cells@.len() == self.height * self.width
    }

    open spec fn spec_cols(&self) -> usize {
        self.width
    }

    open spec fn spec_rows(&self) -> usize {
        self.height
    }

    open spec fn screen(&self) -> Seq<Char> {
        self.cells@
    }

    open spec fn spec_resizable(&self) -> bool {
        true
    }

    open spec fn spec_sent(&self) -> Seq<crate::arch::port::PortWrite> {
        Seq::empty()
    }

    open spec fn spec_cursor_told(&self, row: usize, col: usize) -> Seq<crate::arch::port::PortWrite> {
        Seq::empty()
    }

    proof fn lemma_wf(&self) {
        assert(self.height * self.width <= 512 * 1024) by (nonlinear_arith)
            requires
                self.width <= 1024,
                self.height <= 512,
        ;
    }

    fn update_cursor(&mut self, row: usize, col: usize) {
    }

    fn draw_byte(&mut self, cursor: usize, byte: Char) {
        let cy = cursor / self.width;
        let cx = cursor % self.width;
        proof {
            crate::console::lemma_cursor_parts(self.width as int, self.height as int, cursor as int);
        }
        let p = Point { x: (cx as i32) * 8, y: (cy as i32) * 16 };
        let fg = colormap(byte.attr.fg().value());
        let bg = colormap(byte.attr.bg().value());
        self.fb.draw_char(&self.font, p, byte.ascii, fg, bg);
        self.cells[cursor] = byte;
    }

    fn get_max_cols(&self) -> (r: usize) {
        self.max_cols
    }

    fn get_max_rows(&self) -> (r: usize) {
        self.max_rows
    }

    fn resizable(&self) -> (r: bool) {
        true
    }

    fn scroll_up(&mut self, cursor: usize) {
        let cy = cursor / self.width;
        if cy < self.height - 1 {
            return ;
        }
        let ghost before = self.cells@;
        proof {
            self.lemma_wf();
        }
        let n = self.height * self.width;
        assert(self.height * self.width >= self.width) by (nonlinear_arith)
            requires
                self.height >= 1,
                self.width >= 1,
        ;
        let off = n - self.width;
        assert(off == self.width * (self.height - 1)) by (nonlinear_arith)
            requires
                off == self.height * self.width - self.width,
        ;
        let mut i: usize = 0;
        while i < off
            invariant
                i <= off,
                off + self.width == n,
                n == self.height * self.width,
                self.cells@.len() == n,
                self.fb == old(self).fb,
                self.font == old(self).font,
                self.width == old(self).width,
                self.height == old(self).height,
                self.max_cols == old(self).max_cols,
                self.max_rows == old(self).max_rows,
                forall|j: int| 0 <= j < i ==> self.cells@[j] == before[j + self.width],
                forall|j: int| i <= j < n ==> self.cells@[j] == before[j],
            decreases off - i,
        {
            let c = self.cells[i + self.width];
            self.cells[i] = c;
            i += 1;
        }
        while i < n
            invariant
                off <= i <= n,
                off + self.width == n,
                n == self.height * self.width,
                self.cells@.len() == n,
                self.fb == old(self).fb,
                self.font == old(self).font,
                self.width == old(self).width,
                self.height == old(self).height,
                self.max_cols == old(self).max_cols,
                self.max_rows == old(self).max_rows,
                forall|j: int| 0 <= j < off ==> self.cells@[j] == before[j + self.width],
                forall|j: int| off <= j < i ==> self.cells@[j] == spec_blank(),
            decreases n - i,
        {
            self.cells[i] = blank();
            i += 1;
        }
        assert(self.cells@ =~= spec_scroll(before, self.width as int, self.height as int, cursor as int));
        self.redraw();
    }

    fn clear(&mut self) {
        proof {
            self.lemma_wf();
        }
        let n = self.cells.len();
        let mut i: usize = 0;
        while i < n
            invariant
                i <= n,
                self.cells@.len() == n,
                n == old(self).cells@.len(),
                self.fb == old(self).fb,
                self.font == old(self).font,
                self.width == old(self).width,
                self.height == old(self).height,
                self.max_cols == old(self).max_cols,
                self.max_rows == old(self).max_rows,
                forall|j: int| 0 <= j < i ==> self.cells@[j] == spec_blank(),
            decreases n - i,
        {
            self.cells[i] = blank();
            i += 1;
        }
        assert(self.cells@ =~= spec_cleared(n as nat));
        let w = self.fb.width;
        let h = self.fb.height;
        self.fb.fill_rect(Point { x: 0, y: 0 }, w, h, Rgba(0));
    }
}

/// Where the top left pixel of cell `i` lies, in a grid of `cols` columns
/// of glyphs of 8 by 16 pixels.
pub open spec fn cell_point(i: int, cols: int) -> Point {
    Point { x: ((i % cols) * 8) as i32, y: ((i / cols) * 16) as i32 }
}

/// The pixels after the first `n` of the cells were drawn, one after the
/// other, each as the glyph of its character at its place in the grid, in
/// the colours of its attribute: the foreground in the low four bits, the
/// background in the high.
pub open spec fn spec_drawn(
    pixels: Seq<Rgba>,
    fb_width: int,
    font: Font,
    cells: Seq<Char>,
    cols: int,
    n: int,
) -> Seq<Rgba>
    decreases n,
{
    if n <= 0 {
        pixels
    } else {
        let c = cells[n - 1];
        spec_char(
            spec_drawn(pixels, fb_width, font, cells, cols, n - 1),
            fb_width,
            font,
            cell_point(n - 1, cols),
            c.ascii,
            Rgba(spec_colormap((c.attr.0 % 16) as u8)),
            Rgba(spec_colormap((c.attr.0 / 16) as u8)),
        )
    }
}

impl FramebufferDriver {
    /// Draws every cell anew: the framebuffer then shows the glyph of each
    /// cell at its place. The cells themselves stay as they are.
    pub fn redraw(&mut self)
        requires
            old(self).wf(),
        ensures
            final(self).wf(),
            final(self).cells == old(self).cells,
            final(self).font == old(self).font,
            final(self).width == old(self).width,
            final(self).height == old(self).height,
            final(self).max_cols == old(self).max_cols,
            final(self).max_rows == old(self).max_rows,
            final(self).fb.width == old(self).fb.width,
            final(self).fb.height == old(self).fb.height,
            final(self).fb.pitch == old(self).fb.pitch,
            final(self).fb.buf@ == spec_drawn(
                old(self).fb.buf@,
                old(self).fb.width as int,
                old(self).font,
                old(self).cells@,
                old(self).width as int,
                old(self).cells@.len() as int,
            ),
    {
        proof {
            self.lemma_wf();
        }
        let n = self.cells.len();
        let mut i: usize = 0;
        while i < n
            invariant
                i <= n,
                n == self.cells@.len(),
                self.wf(),
                self.cells == old(self).cells,
                self.font == old(self).font,
                self.width == old(self).width,
                self.height == old(self).height,
                self.max_cols == old(self).max_cols,
                self.max_rows == old(self).max_rows,
                self.fb.width == old(self).fb.width,
                self.fb.height == old(self).fb.height,
                self.fb.pitch == old(self).fb.pitch,
                self.fb.buf@ == spec_drawn(
                    old(self).fb.buf@,
                    old(self).fb.width as int,
                    old(self).font,
                    old(self).cells@,
                    old(self).width as int,
                    i as int,
                ),
            decreases n - i,
        {
            let byte = self.cells[i];
            let cy = i / self.width;
            let cx = i % self.width;
            proof {
                crate::console::lemma_cursor_parts(self.width as int, self.height as int, i as int);
            }
            let p = Point { x: (cx as i32) * 8, y: (cy as i32) * 16 };
            let fg = colormap(byte.attr.fg().value());
            let bg = colormap(byte.attr.bg().value());
            self.fb.draw_char(&self.font, p, byte.ascii, fg, bg);
            i += 1;
        }
    }
}

} // verus!
