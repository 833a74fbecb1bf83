//! Drawing into a linear framebuffer of 32-bit pixels.
//!
//! A pixel is addressed by its place in the buffer, row after row: the pixel
//! at `(x, y)` is number `y * width + x`. A write to a place outside the
//! buffer is dropped.

use vstd::prelude::*;

verus! {

/// Largest width and height of a framebuffer, and largest distance of a
/// coordinate from 0.
pub const MAX_EXTENT: i32 = 8192;

/// A colour: alpha, red, green and blue, eight bits each.
#[derive(Debug, Clone, Copy, PartialEq, Eq, Structural)]
pub struct Rgba(pub u32);

impl Rgba {
    pub fn new(val: u32) -> (c: Rgba)
        ensures
            c.0 == val,
    {
        Rgba(val)
    }

    /// The colour of the three parts, with alpha 0.
    pub fn from(r: u8, g: u8, b: u8) -> (c: Rgba)
        ensures
            c.0 == ((r as u32) << 16) | ((g as u32) << 8) | (b as u32),
    {
        let v = (r as u32) << 16 | (g as u32) << 8 | (b as u32);
        Rgba(v)
    }

    pub open spec fn spec_r(self) -> u8 {
        ((self.0 >> 16) & 0xff) as u8
    }

    pub open spec fn spec_g(self) -> u8 {
        ((self.0 >> 8) & 0xff) as u8
    }

    pub open spec fn spec_b(self) -> u8 {
        (self.0 & 0xff) as u8
    }

    pub fn a(&self) -> (v: u8)
        ensures
            v == (self.0 >> 24) & 0xff,
    {
        proof {
            lemma_channels(self.0);
        }
        ((self.0 >> 24) & 0xff) as u8
    }

    pub fn r(&self) -> (v: u8)
        ensures
            v == (self.0 >> 16) & 0xff,
            v == self.spec_r(),
    {
        proof {
            lemma_channels(self.0);
        }
        ((self.0 >> 16) & 0xff) as u8
    }

    pub fn g(&self) -> (v: u8)
        ensures
            v == (self.0 >> 8) & 0xff,
            v == self.spec_g(),
    {
        proof {
            lemma_channels(self.0);
        }
        ((self.0 >> 8) & 0xff) as u8
    }

    pub fn b(&self) -> (v: u8)
        ensures
            v == self.0 & 0xff,
            v == self.spec_b(),
    {
        proof {
            lemma_channels(self.0);
        }
        (self.0 & 0xff) as u8
    }
}

/// Each of the four parts of a colour is a byte.
pub proof fn lemma_channels(x: u32)
    by (bit_vector)
    ensures
        (x >> 24) & 0xff <= 0xff,
        (x >> 16) & 0xff <= 0xff,
        (x >> 8) & 0xff <= 0xff,
        x & 0xff <= 0xff,
{
}

#[derive(Debug, Clone, Copy, PartialEq, Eq, Structural)]
pub struct Point {
    pub x: i32,
    pub y: i32,
}

/// The glyphs of a font of fixed size: each glyph is `xadvance * yadvance`
/// bytes, row after row, of which `b'*'` stands for a pixel of the glyph.
#[derive(Debug)]
pub struct Font {
    pub glyphs: Vec<Vec<u8>>,
    pub xadvance: i32,
    pub yadvance: i32,
}

impl Font {
    /// The font has 8 by 16 glyphs of 128 bytes each.
    pub open spec fn wf(self) -> bool {
        &&& self.xadvance == 8
        &&& self.yadvance == 16
        &&& forall|i: int| 0 <= i < self.glyphs@.len() ==> (#[trigger] self.glyphs@[i])@.len() == 128
    }
}

/// The pixels after `rgb` was put at place `y * width + x`.
pub open spec fn plot(pixels: Seq<Rgba>, width: int, x: int, y: int, rgb: Rgba) -> Seq<Rgba> {
    let k = y * width + x;
    if 0 <= k < pixels.len() {
        pixels.update(k, rgb)
    } else {
        pixels
    }
}

/// The line from `(x, y)` to the column `x_end`, one pixel per column: the
/// error `e` grows by `2 * dy` with each column, and where it exceeds 1 the
/// line moves on by `dir` in the other direction. With `steep` the two
/// directions change places.
pub open spec fn line_from(
    pixels: Seq<Rgba>,
    width: int,
    x: int,
    x_end: int,
    y: int,
    e: int,
    dx: int,
    dy: int,
    dir: int,
    steep: bool,
    rgb: Rgba,
) -> Seq<Rgba>
    decreases x_end - x + 1,
{
    if x > x_end {
        pixels
    } else {
        let drawn = if steep {
            plot(pixels, width, y, x, rgb)
        } else {
            plot(pixels, width, x, y, rgb)
        };
        let e2 = e + 2 * dy;
        if e2 > 1 {
            line_from(drawn, width, x + 1, x_end, y + dir, e2 - 2 * dx, dx, dy, dir, steep, rgb)
        } else {
            line_from(drawn, width, x + 1, x_end, y, e2, dx, dy, dir, steep, rgb)
        }
    }
}

/// The line between two points.
pub open spec fn spec_line(pixels: Seq<Rgba>, width: int, p1: Point, p2: Point, rgb: Rgba) -> Seq<Rgba> {
    let dx = if p2.x >= p1.x {
        p2.x - p1.x
    } else {
        p1.x - p2.x
    };
    let dy = if p2.y >= p1.y {
        p2.y - p1.y
    } else {
        p1.y - p2.y
    };
    if dx >= dy {
        let (a, b) = if p1.x > p2.x {
            (p2, p1)
        } else {
            (p1, p2)
        };
        line_from(
            pixels,
            width,
            a.x as int,
            b.x as int,
            a.y as int,
            0,
            dx,
            dy,
            if b.y >= a.y {
                1
            } else {
                -1
            },
            false,
            rgb,
        )
    } else {
        let (a, b) = if p1.y > p2.y {
            (p2, p1)
        } else {
            (p1, p2)
        };
        line_from(
            pixels,
            width,
            a.y as int,
            b.y as int,
            a.x as int,
            0,
            dy,
            dx,
            if b.x >= a.x {
                1
            } else {
                -1
            },
            true,
            rgb,
        )
    }
}

/// A pixel that has the colour keeps it when a point is plotted in that colour.
pub proof fn lemma_plot_keeps(pixels: Seq<Rgba>, width: int, x: int, y: int, rgb: Rgba, k: int)
    requires
        0 <= k < pixels.len(),
        pixels[k] == rgb,
    ensures
        plot(pixels, width, x, y, rgb).len() == pixels.len(),
        plot(pixels, width, x, y, rgb)[k] == rgb,
{
}

/// A pixel that has the colour keeps it when a line is drawn in that colour.
pub proof fn lemma_line_from_keeps(
    pixels: Seq<Rgba>,
    width: int,
    x: int,
    x_end: int,
    y: int,
    e: int,
    dx: int,
    dy: int,
    dir: int,
    steep: bool,
    rgb: Rgba,
    k: int,
)
    requires
        0 <= k < pixels.len(),
        pixels[k] == rgb,
    ensures
        line_from(pixels, width, x, x_end, y, e, dx, dy, dir, steep, rgb).len() == pixels.len(),
        line_from(pixels, width, x, x_end, y, e, dx, dy, dir, steep, rgb)[k] == rgb,
    decreases x_end - x + 1,
{
    if x <= x_end {
        let drawn = if steep {
            plot(pixels, width, y, x, rgb)
        } else {
            plot(pixels, width, x, y, rgb)
        };
        let e2 = e + 2 * dy;
        if e2 > 1 {
            lemma_line_from_keeps(drawn, width, x + 1, x_end, y + dir, e2 - 2 * dx, dx, dy, dir, steep, rgb, k);
        } else {
            lemma_line_from_keeps(drawn, width, x + 1, x_end, y, e2, dx, dy, dir, steep, rgb, k);
        }
    }
}

/// A line that has come from `(x0, y0)` to `(x, y)` with the error `e`
/// ends at the point `dx` further in the one direction and `dy` further,
/// by `dir`, in the other, and colours it where it lies in the buffer.
pub proof fn lemma_line_from_end(
    pixels: Seq<Rgba>,
    width: int,
    x: int,
    x_end: int,
    y: int,
    e: int,
    dx: int,
    dy: int,
    dir: int,
    steep: bool,
    rgb: Rgba,
    x0: int,
    y0: int,
)
    requires
        x0 <= x <= x_end,
        x_end == x0 + dx,
        0 <= dy <= dx,
        dir == 1 || dir == -1,
        e == 2 * dy * (x - x0) - 2 * dx * ((y - y0) * dir),
        1 - 2 * dx < e <= 1 || dx == 0,
        dx == 0 ==> y == y0,
        ({
            let ey = y0 + dir * dy;
            if steep {
                0 <= x_end * width + ey < pixels.len()
            } else {
                0 <= ey * width + x_end < pixels.len()
            }
        }),
    ensures
        ({
            let ey = y0 + dir * dy;
            let drawn = line_from(pixels, width, x, x_end, y, e, dx, dy, dir, steep, rgb);
            if steep {
                drawn[x_end * width + ey] == rgb
            } else {
                drawn[ey * width + x_end] == rgb
            }
        }),
    decreases x_end - x,
{
    let ey = y0 + dir * dy;
    let spot = if steep {
        x_end * width + ey
    } else {
        ey * width + x_end
    };
    let drawn = if steep {
        plot(pixels, width, y, x, rgb)
    } else {
        plot(pixels, width, x, y, rgb)
    };
    let e2 = e + 2 * dy;
    if x == x_end {
        let k = (y - y0) * dir;
        if dx > 0 {
            assert(e == 2 * dx * (dy - k)) by (nonlinear_arith)
                requires
                    e == 2 * dy * (x - x0) - 2 * dx * k,
                    x - x0 == dx,
            ;
            assert(dy - k == 0) by (nonlinear_arith)
                requires
                    e == 2 * dx * (dy - k),
                    1 - 2 * dx < e <= 1,
                    dx > 0,
            ;
        }
        assert(y - y0 == k * dir) by (nonlinear_arith)
            requires
                k == (y - y0) * dir,
                dir == 1 || dir == -1,
        ;
        assert(y == ey) by (nonlinear_arith)
            requires
                y - y0 == k * dir,
                k == dy,
                ey == y0 + dir * dy,
        ;
        assert(drawn[spot] == rgb);
        if e2 > 1 {
            lemma_line_from_keeps(drawn, width, x + 1, x_end, y + dir, e2 - 2 * dx, dx, dy, dir, steep, rgb, spot);
        } else {
            lemma_line_from_keeps(drawn, width, x + 1, x_end, y, e2, dx, dy, dir, steep, rgb, spot);
        }
    } else {
        assert(dx > 0);
        if e2 > 1 {
            assert(e2 - 2 * dx == 2 * dy * (x + 1 - x0) - 2 * dx * ((y + dir - y0) * dir)) by (nonlinear_arith)
                requires
                    e2 == e + 2 * dy,
                    e == 2 * dy * (x - x0) - 2 * dx * ((y - y0) * dir),
                    dir == 1 || dir == -1,
            ;
            lemma_line_from_end(drawn, width, x + 1, x_end, y + dir, e2 - 2 * dx, dx, dy, dir, steep, rgb, x0, y0);
        } else {
            assert(e2 == 2 * dy * (x + 1 - x0) - 2 * dx * ((y - y0) * dir)) by (nonlinear_arith)
                requires
                    e2 == e + 2 * dy,
                    e == 2 * dy * (x - x0) - 2 * dx * ((y - y0) * dir),
            ;
            lemma_line_from_end(drawn, width, x + 1, x_end, y, e2, dx, dy, dir, steep, rgb, x0, y0);
        }
    }
}

/// A line colours both of its end points, where they lie in the buffer.
pub proof fn lemma_line_ends(pixels: Seq<Rgba>, width: int, p1: Point, p2: Point, rgb: Rgba)
    ensures
        spec_line(pixels, width, p1, p2, rgb).len() == pixels.len(),
        0 <= p1.y * width + p1.x < pixels.len() ==> spec_line(pixels, width, p1, p2, rgb)[p1.y * width
            + p1.x] == rgb,
        0 <= p2.y * width + p2.x < pixels.len() ==> spec_line(pixels, width, p1, p2, rgb)[p2.y * width
            + p2.x] == rgb,
{
    let dx = if p2.x >= p1.x {
        p2.x - p1.x
    } else {
        p1.x - p2.x
    };
    let dy = if p2.y >= p1.y {
        p2.y - p1.y
    } else {
        p1.y - p2.y
    };
    if dx >= dy {
        let (a, b) = if p1.x > p2.x {
            (p2, p1)
        } else {
            (p1, p2)
        };
        let dir: int = if b.y >= a.y {
            1
        } else {
            -1
        };
        lemma_line_len(pixels, width, a.x as int, b.x as int, a.y as int, 0, dx, dy, dir, false, rgb);
        let sa = a.y * width + a.x;
        let sb = b.y * width + b.x;
        if 0 <= sa < pixels.len() {
            let drawn = plot(pixels, width, a.x as int, a.y as int, rgb);
            let e2 = 2 * dy;
            if e2 > 1 {
                lemma_line_from_keeps(drawn, width, a.x + 1, b.x as int, a.y + dir, e2 - 2 * dx, dx, dy, dir, false, rgb, sa);
            } else {
                lemma_line_from_keeps(drawn, width, a.x + 1, b.x as int, a.y as int, e2, dx, dy, dir, false, rgb, sa);
            }
        }
        if 0 <= sb < pixels.len() {
            assert(a.y + dir * dy == b.y) by (nonlinear_arith)
                requires
                    dir == 1 && b.y - a.y == dy || dir == -1 && a.y - b.y == dy,
            ;
            assert(0 == 2 * dy * (a.x - a.x) - 2 * dx * ((a.y - a.y) * dir)) by (nonlinear_arith);
            lemma_line_from_end(pixels, width, a.x as int, b.x as int, a.y as int, 0, dx, dy, dir, false, rgb, a.x as int, a.y as int);
        }
    } else {
        let (a, b) = if p1.y > p2.y {
            (p2, p1)
        } else {
            (p1, p2)
        };
        let dir: int = if b.x >= a.x {
            1
        } else {
            -1
        };
        lemma_line_len(pixels, width, a.y as int, b.y as int, a.x as int, 0, dy, dx, dir, true, rgb);
        let sa = a.y * width + a.x;
        let sb = b.y * width + b.x;
        if 0 <= sa < pixels.len() {
            let drawn = plot(pixels, width, a.x as int, a.y as int, rgb);
            let e2 = 2 * dx;
            if e2 > 1 {
                lemma_line_from_keeps(drawn, width, a.y + 1, b.y as int, a.x + dir, e2 - 2 * dy, dy, dx, dir, true, rgb, sa);
            } else {
                lemma_line_from_keeps(drawn, width, a.y + 1, b.y as int, a.x as int, e2, dy, dx, dir, true, rgb, sa);
            }
        }
        if 0 <= sb < pixels.len() {
            assert(a.x + dir * dx == b.x) by (nonlinear_arith)
                requires
                    dir == 1 && b.x - a.x == dx || dir == -1 && a.x - b.x == dx,
            ;
            assert(0 == 2 * dx * (a.y - a.y) - 2 * dy * ((a.x - a.x) * dir)) by (nonlinear_arith);
            lemma_line_from_end(pixels, width, a.y as int, b.y as int, a.x as int, 0, dy, dx, dir, true, rgb, a.y as int, a.x as int);
        }
    }
}

/// A pixel that has the colour keeps it when a line is drawn in that colour.
pub proof fn lemma_line_keeps(pixels: Seq<Rgba>, width: int, p1: Point, p2: Point, rgb: Rgba, k: int)
    requires
        0 <= k < pixels.len(),
        pixels[k] == rgb,
    ensures
        spec_line(pixels, width, p1, p2, rgb)[k] == rgb,
{
    let dx = if p2.x >= p1.x {
        p2.x - p1.x
    } else {
        p1.x - p2.x
    };
    let dy = if p2.y >= p1.y {
        p2.y - p1.y
    } else {
        p1.y - p2.y
    };
    if dx >= dy {
        let (a, b) = if p1.x > p2.x {
            (p2, p1)
        } else {
            (p1, p2)
        };
        let dir: int = if b.y >= a.y {
            1
        } else {
            -1
        };
        lemma_line_from_keeps(pixels, width, a.x as int, b.x as int, a.y as int, 0, dx, dy, dir, false, rgb, k);
    } else {
        let (a, b) = if p1.y > p2.y {
            (p2, p1)
        } else {
            (p1, p2)
        };
        let dir: int = if b.x >= a.x {
            1
        } else {
            -1
        };
        lemma_line_from_keeps(pixels, width, a.y as int, b.y as int, a.x as int, 0, dy, dx, dir, true, rgb, k);
    }
}

/// Drawing a line leaves the number of pixels as it is.
pub proof fn lemma_line_len(
    pixels: Seq<Rgba>,
    width: int,
    x: int,
    x_end: int,
    y: int,
    e: int,
    dx: int,
    dy: int,
    dir: int,
    steep: bool,
    rgb: Rgba,
)
    ensures
        line_from(pixels, width, x, x_end, y, e, dx, dy, dir, steep, rgb).len() == pixels.len(),
    decreases x_end - x + 1,
{
    if x <= x_end {
        let drawn = if steep {
            plot(pixels, width, y, x, rgb)
        } else {
            plot(pixels, width, x, y, rgb)
        };
        let e2 = e + 2 * dy;
        if e2 > 1 {
            lemma_line_len(drawn, width, x + 1, x_end, y + dir, e2 - 2 * dx, dx, dy, dir, steep, rgb);
        } else {
            lemma_line_len(drawn, width, x + 1, x_end, y, e2, dx, dy, dir, steep, rgb);
        }
    }
}

/// The eight points of a circle round `(x0, y0)` that mirror `(x, y)`, in
/// the order in which they are drawn.
pub open spec fn octants(x0: int, y0: int, x: int, y: int) -> Seq<(int, int)> {
    seq![
        (x0 + x, y0 + y),
        (x0 + y, y0 + x),
        (x0 - y, y0 + x),
        (x0 - x, y0 + y),
        (x0 - x, y0 - y),
        (x0 - y, y0 - x),
        (x0 + y, y0 - x),
        (x0 + x, y0 - y),
    ]
}

/// The pixels after each of the points was plotted.
pub open spec fn plot_all(pixels: Seq<Rgba>, width: int, points: Seq<(int, int)>, rgb: Rgba) -> Seq<Rgba>
    decreases points.len(),
{
    if points.len() == 0 {
        pixels
    } else {
        plot_all(plot(pixels, width, points[0].0, points[0].1, rgb), width, points.skip(1), rgb)
    }
}

/// The pixels after a line was drawn from the centre to each of the points.
pub open spec fn spoke_all(pixels: Seq<Rgba>, width: int, centre: Point, points: Seq<(int, int)>, rgb: Rgba) -> Seq<
    Rgba,
>
    decreases points.len(),
{
    if points.len() == 0 {
        pixels
    } else {
        spoke_all(
            spec_line(
                pixels,
                width,
                centre,
                Point { x: points[0].0 as i32, y: points[0].1 as i32 },
                rgb,
            ),
            width,
            centre,
            points.skip(1),
            rgb,
        )
    }
}

/// A circle by the midpoint method, from the state `(x, y, err, xchange,
/// ychange)` on: eight mirrored points per step, as pixels or, with
/// `spokes`, as lines from the centre.
pub open spec fn circle_from(
    pixels: Seq<Rgba>,
    width: int,
    centre: Point,
    x: int,
    y: int,
    err: int,
    xchange: int,
    ychange: int,
    spokes: bool,
    rgb: Rgba,
) -> Seq<Rgba>
    decreases
        (if x >= y {
            x - y + 1
        } else {
            0
        }),
{
    if x < y {
        pixels
    } else {
        let pts = octants(centre.x as int, centre.y as int, x, y);
        let drawn = if spokes {
            spoke_all(pixels, width, centre, pts, rgb)
        } else {
            plot_all(pixels, width, pts, rgb)
        };
        let err2 = err + ychange;
        let ychange2 = ychange + 2;
        if 2 * (err2 + xchange) + ychange2 > 0 {
            circle_from(
                drawn,
                width,
                centre,
                x - 1,
                y + 1,
                err2 + xchange,
                xchange + 2,
                ychange2,
                spokes,
                rgb,
            )
        } else {
            circle_from(drawn, width, centre, x, y + 1, err2, xchange, ychange2, spokes, rgb)
        }
    }
}

/// Plotting points leaves the number of pixels as it is.
pub proof fn lemma_plot_all_len(pixels: Seq<Rgba>, width: int, points: Seq<(int, int)>, rgb: Rgba)
    ensures
        plot_all(pixels, width, points, rgb).len() == pixels.len(),
    decreases points.len(),
{
    if points.len() > 0 {
        lemma_plot_all_len(plot(pixels, width, points[0].0, points[0].1, rgb), width, points.skip(1), rgb);
    }
}

/// A pixel that has the colour keeps it when points are plotted in that colour.
pub proof fn lemma_plot_all_keeps(pixels: Seq<Rgba>, width: int, points: Seq<(int, int)>, rgb: Rgba, k: int)
    requires
        0 <= k < pixels.len(),
        pixels[k] == rgb,
    ensures
        plot_all(pixels, width, points, rgb).len() == pixels.len(),
        plot_all(pixels, width, points, rgb)[k] == rgb,
    decreases points.len(),
{
    if points.len() > 0 {
        lemma_plot_all_keeps(
            plot(pixels, width, points[0].0, points[0].1, rgb),
            width,
            points.skip(1),
            rgb,
            k,
        );
    }
}

/// Each of the points that are plotted has the colour afterwards, where
/// it lies in the buffer.
pub proof fn lemma_plot_all_sets(pixels: Seq<Rgba>, width: int, points: Seq<(int, int)>, rgb: Rgba, i: int)
    requires
        0 <= i < points.len(),
        0 <= points[i].1 * width + points[i].0 < pixels.len(),
    ensures
        plot_all(pixels, width, points, rgb)[points[i].1 * width + points[i].0] == rgb,
    decreases points.len(),
{
    let first = plot(pixels, width, points[0].0, points[0].1, rgb);
    if i == 0 {
        lemma_plot_all_keeps(first, width, points.skip(1), rgb, points[0].1 * width + points[0].0);
    } else {
        assert(points.skip(1)[i - 1] == points[i]);
        lemma_plot_all_sets(first, width, points.skip(1), rgb, i - 1);
    }
}

/// A pixel that has the colour keeps it when a circle is drawn in that colour.
pub proof fn lemma_circle_from_keeps(
    pixels: Seq<Rgba>,
    width: int,
    centre: Point,
    x: int,
    y: int,
    err: int,
    xchange: int,
    ychange: int,
    rgb: Rgba,
    k: int,
)
    requires
        0 <= k < pixels.len(),
        pixels[k] == rgb,
    ensures
        circle_from(pixels, width, centre, x, y, err, xchange, ychange, false, rgb)[k] == rgb,
    decreases
        (if x >= y {
            x - y + 1
        } else {
            0
        }),
{
    if x >= y {
        let pts = octants(centre.x as int, centre.y as int, x, y);
        let drawn = plot_all(pixels, width, pts, rgb);
        lemma_plot_all_keeps(pixels, width, pts, rgb, k);
        let err2 = err + ychange;
        let ychange2 = ychange + 2;
        if 2 * (err2 + xchange) + ychange2 > 0 {
            lemma_circle_from_keeps(drawn, width, centre, x - 1, y + 1, err2 + xchange, xchange + 2, ychange2, rgb, k);
        } else {
            lemma_circle_from_keeps(drawn, width, centre, x, y + 1, err2, xchange, ychange2, rgb, k);
        }
    }
}

/// A circle colours the four points where it meets the two axes through
/// its centre, where they lie in the buffer: `i` picks the point to the
/// right (0), below (1), to the left (3) or above (5), as the first eight
/// mirrored points are numbered.
pub proof fn lemma_circle_axes(pixels: Seq<Rgba>, width: int, centre: Point, radius: int, rgb: Rgba, i: int)
    requires
        radius >= 0,
        0 <= i < 8,
        ({
            let p = octants(centre.x as int, centre.y as int, radius, 0)[i];
            0 <= p.1 * width + p.0 < pixels.len()
        }),
    ensures
        ({
            let p = octants(centre.x as int, centre.y as int, radius, 0)[i];
            circle_from(pixels, width, centre, radius, 0, 0, 1 - 2 * radius, 1, false, rgb)[p.1 * width
                + p.0] == rgb
        }),
{
    let pts = octants(centre.x as int, centre.y as int, radius, 0);
    let p = pts[i];
    let spot = p.1 * width + p.0;
    let drawn = plot_all(pixels, width, pts, rgb);
    lemma_plot_all_sets(pixels, width, pts, rgb, i);
    lemma_plot_all_len(pixels, width, pts, rgb);
    let err2: int = 1;
    let xchange = 1 - 2 * radius;
    if 2 * (err2 + xchange) + 3 > 0 {
        lemma_circle_from_keeps(drawn, width, centre, radius - 1, 1, err2 + xchange, xchange + 2, 3, rgb, spot);
    } else {
        lemma_circle_from_keeps(drawn, width, centre, radius, 1, err2, xchange, 3, rgb, spot);
    }
}

/// The colour of the pixel in column `x` and row `y` of a glyph.
pub open spec fn glyph_pixel(glyph: Seq<u8>, x: int, y: int, rgb: Rgba, bg: Rgba) -> Rgba {
    if glyph[y * 8 + x] == 42 {
        rgb
    } else {
        bg
    }
}

/// The pixels after the glyph of character `c` was drawn with its top left
/// corner at `p`; they are unchanged where the font lacks the glyph.
pub open spec fn spec_char(pixels: Seq<Rgba>, width: int, font: Font, p: Point, c: u8, rgb: Rgba, bg: Rgba) -> Seq<
    Rgba,
> {
    if 1 <= c <= font.glyphs@.len() {
        Seq::new(
            pixels.len(),
            |k: int|
                {
                    let x = k % width;
                    let y = k / width;
                    if p.x <= x < p.x + 8 && p.y <= y < p.y + 16 {
                        glyph_pixel(font.glyphs@[c - 1]@, x - p.x, y - p.y, rgb, bg)
                    } else {
                        pixels[k]
                    }
                },
        )
    } else {
        pixels
    }
}

/// The pixels after the characters of `text` from position `from` on were
/// drawn, the first at `(x, y)`, each 8 pixels right of the one before, and
/// from the left edge 16 pixels further down once the right edge is
/// reached. A character that has no room left of the right edge is left
/// out, and so is everything below the last row that has room for a glyph.
pub open spec fn spec_str(
    pixels: Seq<Rgba>,
    width: int,
    height: int,
    font: Font,
    x: int,
    y: int,
    text: Seq<u8>,
    from: int,
    rgb: Rgba,
    bg: Rgba,
) -> Seq<Rgba>
    decreases text.len() - from,
{
    if from < 0 || from >= text.len() || y > height - 16 {
        pixels
    } else {
        let drawn = if x <= width - 8 {
            spec_char(pixels, width, font, Point { x: x as i32, y: y as i32 }, text[from], rgb, bg)
        } else {
            pixels
        };
        if x + 8 >= width {
            spec_str(drawn, width, height, font, 0, y + 16, text, from + 1, rgb, bg)
        } else {
            spec_str(drawn, width, height, font, x + 8, y, text, from + 1, rgb, bg)
        }
    }
}

/// One part of a colour on the way from `v0` by `range`, at step `step`
/// of `span`.
pub open spec fn spec_interpolate(v0: int, step: int, range: int, span: int) -> int {
    if span != 0 {
        (v0 * span + step * range) / span
    } else {
        0
    }
}

/// The colour at step `step` of `span` on the way from `from` to `to`,
/// part by part; its alpha is 0.
pub open spec fn spec_interpolate_color(step: int, from: Rgba, to: Rgba, span: int) -> Rgba {
    let r = spec_interpolate(from.spec_r() as int, step, to.spec_r() - from.spec_r(), span) as u8;
    let g = spec_interpolate(from.spec_g() as int, step, to.spec_g() - from.spec_g(), span) as u8;
    let b = spec_interpolate(from.spec_b() as int, step, to.spec_b() - from.spec_b(), span) as u8;
    Rgba(((r as u32) << 16) | ((g as u32) << 8) | (b as u32))
}

/// The colour of row `row` of a rectangle of `span` rows that is filled
/// from `from` towards `to`: the first row has `from`, each later one the
/// colour of the step before it.
pub open spec fn spec_grad(row: int, from: Rgba, to: Rgba, span: int) -> Rgba {
    if row <= 0 {
        from
    } else {
        spec_interpolate_color(row - 1, from, to, span)
    }
}

/// A part of a colour on its way to another stays a byte.
pub proof fn lemma_interpolate(v0: int, step: int, t: int, span: int)
    requires
        0 <= v0 <= 255,
        0 <= t <= 255,
        0 <= step < span,
    ensures
        0 <= v0 * span + step * (t - v0) <= 255 * span,
        0 <= v0 * span <= 255 * span,
        -255 * span <= step * (t - v0) <= 255 * span,
        0 <= spec_interpolate(v0, step, t - v0, span) <= 255,
{
    let num = v0 * span + step * (t - v0);
    assert(num == v0 * (span - step) + step * t) by (nonlinear_arith)
        requires
            num == v0 * span + step * (t - v0),
    ;
    assert(0 <= v0 * span <= 255 * span) by (nonlinear_arith)
        requires
            0 <= v0 <= 255,
            0 < span,
    ;
    assert(-255 * span <= step * (t - v0) <= 255 * span) by (nonlinear_arith)
        requires
            -255 <= t - v0 <= 255,
            0 <= step < span,
    ;
    assert(0 <= v0 * (span - step) <= 255 * (span - step)) by (nonlinear_arith)
        requires
            0 <= v0 <= 255,
            span - step > 0,
    ;
    assert(0 <= step * t <= 255 * step) by (nonlinear_arith)
        requires
            0 <= t <= 255,
            0 <= step,
    ;
    assert(255 * (span - step) + 255 * step == 255 * span) by (nonlinear_arith);
    vstd::arithmetic::div_mod::lemma_div_pos_is_pos(num, span);
    assert(num / span <= 255) by {
        vstd::arithmetic::div_mod::lemma_div_is_ordered(num, 255 * span, span);
        vstd::arithmetic::div_mod::lemma_div_multiples_vanish(255, span);
    }
}

pub struct Framebuffer {
    pub buf: Vec<Rgba>,
    pub width: i32,
    pub height: i32,
    pub pitch: i32,
}

impl Framebuffer {
    pub open spec fn wf(self) -> bool {
        &&& 0 <= self.width <= MAX_EXTENT
        &&& 0 <= self.height <= MAX_EXTENT
        &&& self.buf@.len() == self.width * self.height
    }

    /// Whether a point is near enough to be drawn from.
    pub open spec fn near(p: Point) -> bool {
        -MAX_EXTENT <= p.x <= MAX_EXTENT && -MAX_EXTENT <= p.y <= MAX_EXTENT
    }

    /// A framebuffer of black pixels.
    pub fn new(width: i32, height: i32, pitch: i32) -> (f: Framebuffer)
        requires
            0 <= width <= MAX_EXTENT,
            0 <= height <= MAX_EXTENT,
        ensures
            f.wf(),
            f.width == width,
            f.height == height,
            f.pitch == pitch,
            forall|k: int| 0 <= k < f.buf@.len() ==> f.buf@[k] == Rgba(0),
    {
        assert(0 <= width * height <= 8192 * 8192) by (nonlinear_arith)
            requires
                0 <= width <= 8192,
                0 <= height <= 8192,
        ;
        let n: usize = (width as usize) * (height as usize);
        let mut buf: Vec<Rgba> = Vec::new();
        let mut i: usize = 0;
        while i < n
            invariant
                i <= n,
                buf@.len() == i,
                forall|k: int| 0 <= k < i ==> buf@[k] == Rgba(0),
            decreases n - i,
        {
            buf.push(Rgba(0));
            i += 1;
        }
        Framebuffer { buf, width, height, pitch }
    }

    /// Puts a colour at the place of a point.
    pub fn draw_pixel(&mut self, p: Point, rgb: Rgba)
        requires
            old(self).wf(),
            -3 * MAX_EXTENT <= p.x <= 3 * MAX_EXTENT,
            -3 * MAX_EXTENT <= p.y <= 3 * MAX_EXTENT,
        ensures
            final(self).wf(),
            final(self).width == old(self).width,
            final(self).height == old(self).height,
            final(self).pitch == old(self).pitch,
            final(self).buf@ == plot(old(self).buf@, old(self).width as int, p.x as int, p.y as int, rgb),
    {
        assert(-3 * 8192 * 8192 <= p.y * self.width <= 3 * 8192 * 8192) by (nonlinear_arith)
            requires
                -3 * 8192 <= p.y <= 3 * 8192,
                0 <= self.width <= 8192,
        ;
        let k: i32 = p.y * self.width + p.x;
        if k >= 0 && (k as usize) < self.buf.len() {
            self.buf[k as usize] = rgb;
        }
    }

    /// Draws the line between two points.
    pub fn draw_line(&mut self, p1: Point, p2: Point, rgb: Rgba)
        requires
            old(self).wf(),
            Self::near(p1),
            Self::near(p2),
        ensures
            final(self).wf(),
            final(self).width == old(self).width,
            final(self).height == old(self).height,
            final(self).pitch == old(self).pitch,
            final(self).buf@ == spec_line(old(self).buf@, old(self).width as int, p1, p2, rgb),
            // both end points have the colour, where they lie in the buffer
            0 <= p1.y * old(self).width + p1.x < old(self).buf@.len() ==> final(self).buf@[p1.y * old(self).width + p1.x] == rgb,
            0 <= p2.y * old(self).width + p2.x < old(self).buf@.len() ==> final(self).buf@[p2.y * old(self).width + p2.x] == rgb,
            // and what had the colour has it still
            forall|k: int|
                0 <= k < old(self).buf@.len() && old(self).buf@[k] == rgb ==> #[trigger] final(self).buf@[k]
                    == rgb,
    {
        proof {
            lemma_line_ends(self.buf@, self.width as int, p1, p2, rgb);
            assert forall|k: int| 0 <= k < self.buf@.len() && self.buf@[k] == rgb implies #[trigger] spec_line(
                self.buf@,
                self.width as int,
                p1,
                p2,
                rgb,
            )[k] == rgb by {
                lemma_line_keeps(self.buf@, self.width as int, p1, p2, rgb, k);
            }
        }
        let dx = if p2.x >= p1.x {
            p2.x - p1.x
        } else {
            p1.x - p2.x
        };
        let dy = if p2.y >= p1.y {
            p2.y - p1.y
        } else {
            p1.y - p2.y
        };
        let steep = dx < dy;
        let (a, b) = if !steep {
            if p1.x > p2.x {
                (Point { x: p2.x, y: p2.y }, Point { x: p1.x, y: p1.y })
            } else {
                (Point { x: p1.x, y: p1.y }, Point { x: p2.x, y: p2.y })
            }
        } else {
            if p1.y > p2.y {
                (Point { x: p2.y, y: p2.x }, Point { x: p1.y, y: p1.x })
            } else {
                (Point { x: p1.y, y: p1.x }, Point { x: p2.y, y: p2.x })
            }
        };
        // from here on `x` is the direction that the line is longer in
        let (long, short) = if steep {
            (dy, dx)
        } else {
            (dx, dy)
        };
        let dir: i32 = if b.y >= a.y {
            1
        } else {
            -1
        };
        let mut e: i32 = 0;
        let mut y: i32 = a.y;
        let mut x: i32 = a.x;
        while x <= b.x
            invariant
                self.wf(),
                self.width == old(self).width,
                self.height == old(self).height,
                self.pitch == old(self).pitch,
                a.x <= x <= b.x + 1,
                -MAX_EXTENT <= a.x <= b.x <= MAX_EXTENT,
                -MAX_EXTENT <= a.y <= MAX_EXTENT,
                0 <= short <= long <= 2 * MAX_EXTENT,
                long == b.x - a.x,
                dir == 1 || dir == -1,
                a.y - (x - a.x) <= y <= a.y + (x - a.x),
                -2 * long <= e <= 1,
                line_from(
                    self.buf@,
                    self.width as int,
                    x as int,
                    b.x as int,
                    y as int,
                    e as int,
                    long as int,
                    short as int,
                    dir as int,
                    steep,
                    rgb,
                ) == spec_line(old(self).buf@, old(self).width as int, p1, p2, rgb),
            decreases b.x - x + 1,
        {
            if steep {
                self.draw_pixel(Point { x: y, y: x }, rgb);
            } else {
                self.draw_pixel(Point { x: x, y: y }, rgb);
            }
            e = e + 2 * short;
            if e > 1 {
                e = e - 2 * long;
                y = y + dir;
            }
            x = x + 1;
        }
    }

    /// Draws the circle round `center`.
    pub fn draw_circle(&mut self, center: Point, radius: i32, rgb: Rgba)
        requires
            old(self).wf(),
            Self::near(center),
            0 <= radius <= MAX_EXTENT,
        ensures
            final(self).wf(),
            final(self).width == old(self).width,
            final(self).height == old(self).height,
            final(self).pitch == old(self).pitch,
            final(self).buf@ == circle_from(
                old(self).buf@,
                old(self).width as int,
                center,
                radius as int,
                0,
                0,
                1 - 2 * radius,
                1,
                false,
                rgb,
            ),
            // the four points where the circle meets the axes through its
            // centre have the colour, where they lie in the buffer
            ({
                let w = old(self).width as int;
                let n = old(self).buf@.len();
                let b = final(self).buf@;
                &&& 0 <= center.y * w + (center.x + radius) < n ==> b[center.y * w + (center.x + radius)]
                    == rgb
                &&& 0 <= (center.y + radius) * w + center.x < n ==> b[(center.y + radius) * w + center.x]
                    == rgb
                &&& 0 <= center.y * w + (center.x - radius) < n ==> b[center.y * w + (center.x - radius)]
                    == rgb
                &&& 0 <= (center.y - radius) * w + center.x < n ==> b[(center.y - radius) * w + center.x]
                    == rgb
            }),
    {
        proof {
            let w = self.width as int;
            let n = self.buf@.len();
            let pts = octants(center.x as int, center.y as int, radius as int, 0);
            if 0 <= center.y * w + (center.x + radius) < n {
                assert(pts[0] == (center.x + radius, center.y + 0));
                lemma_circle_axes(self.buf@, w, center, radius as int, rgb, 0);
            }
            if 0 <= (center.y + radius) * w + center.x < n {
                assert(pts[1] == (center.x + 0, center.y + radius));
                lemma_circle_axes(self.buf@, w, center, radius as int, rgb, 1);
            }
            if 0 <= center.y * w + (center.x - radius) < n {
                assert(pts[3] == (center.x - radius, center.y + 0));
                lemma_circle_axes(self.buf@, w, center, radius as int, rgb, 3);
            }
            if 0 <= (center.y - radius) * w + center.x < n {
                assert(pts[5] == (center.x - 0, center.y - radius));
                lemma_circle_axes(self.buf@, w, center, radius as int, rgb, 5);
            }
        }
        let x0 = center.x;
        let y0 = center.y;
        let mut x: i32 = radius;
        let mut y: i32 = 0;
        let mut err: i32 = 0;
        let mut xchange: i32 = 1 - 2 * radius;
        let mut ychange: i32 = 1;
        while x >= y
            invariant
                self.wf(),
                self.width == old(self).width,
                self.height == old(self).height,
                self.pitch == old(self).pitch,
                Self::near(center),
                x0 == center.x,
                y0 == center.y,
                0 <= radius <= MAX_EXTENT,
                0 <= y <= x + 2,
                -1 <= x <= radius,
                ychange == 2 * y + 1,
                xchange == 1 - 2 * x,
                -20000 * (y + radius - x) <= err <= 20000 * y,
                circle_from(
                    self.buf@,
                    self.width as int,
                    center,
                    x as int,
                    y as int,
                    err as int,
                    xchange as int,
                    ychange as int,
                    false,
                    rgb,
                ) == circle_from(
                    old(self).buf@,
                    old(self).width as int,
                    center,
                    radius as int,
                    0,
                    0,
                    1 - 2 * radius,
                    1,
                    false,
                    rgb,
                ),
            decreases x - y + 2,
        {
            let ghost before = self.buf@;
            assert(y <= x);
            self.draw_pixel(Point { x: x0 + x, y: y0 + y }, rgb);
            self.draw_pixel(Point { x: x0 + y, y: y0 + x }, rgb);
            self.draw_pixel(Point { x: x0 - y, y: y0 + x }, rgb);
            self.draw_pixel(Point { x: x0 - x, y: y0 + y }, rgb);
            self.draw_pixel(Point { x: x0 - x, y: y0 - y }, rgb);
            self.draw_pixel(Point { x: x0 - y, y: y0 - x }, rgb);
            self.draw_pixel(Point { x: x0 + y, y: y0 - x }, rgb);
            self.draw_pixel(Point { x: x0 + x, y: y0 - y }, rgb);
            proof {
                reveal_with_fuel(plot_all, 9);
                let pts = octants(x0 as int, y0 as int, x as int, y as int);
                assert(pts.skip(1).skip(1).skip(1).skip(1).skip(1).skip(1).skip(1).skip(1).len() == 0);
                assert(self.buf@ == plot_all(before, self.width as int, pts, rgb));
            }
            y = y + 1;
            err = err + ychange;
            ychange = ychange + 2;
            if 2 * (err + xchange) + ychange > 0 {
                x = x - 1;
                err = err + xchange;
                xchange = xchange + 2;
            }
        }
    }

    /// Draws the disc round `center` as lines from the centre to each point
    /// of the circle.
    pub fn spread_circle(&mut self, center: Point, radius: i32, rgb: Rgba)
        requires
            old(self).wf(),
            0 <= radius,
            -MAX_EXTENT <= center.x - radius,
            center.x + radius <= MAX_EXTENT,
            -MAX_EXTENT <= center.y - radius,
            center.y + radius <= MAX_EXTENT,
        ensures
            final(self).wf(),
            final(self).width == old(self).width,
            final(self).height == old(self).height,
            final(self).pitch == old(self).pitch,
            final(self).buf@ == circle_from(
                old(self).buf@,
                old(self).width as int,
                center,
                radius as int,
                0,
                0,
                1 - 2 * radius,
                1,
                true,
                rgb,
            ),
    {
        let x0 = center.x;
        let y0 = center.y;
        let mut x: i32 = radius;
        let mut y: i32 = 0;
        let mut err: i32 = 0;
        let mut xchange: i32 = 1 - 2 * radius;
        let mut ychange: i32 = 1;
        while x >= y
            invariant
                self.wf(),
                self.width == old(self).width,
                self.height == old(self).height,
                self.pitch == old(self).pitch,
                x0 == center.x,
                y0 == center.y,
                0 <= radius <= MAX_EXTENT,
                -MAX_EXTENT <= center.x - radius,
                center.x + radius <= MAX_EXTENT,
                -MAX_EXTENT <= center.y - radius,
                center.y + radius <= MAX_EXTENT,
                0 <= y <= x + 2,
                -1 <= x <= radius,
                ychange == 2 * y + 1,
                xchange == 1 - 2 * x,
                -20000 * (y + radius - x) <= err <= 20000 * y,
                circle_from(
                    self.buf@,
                    self.width as int,
                    center,
                    x as int,
                    y as int,
                    err as int,
                    xchange as int,
                    ychange as int,
                    true,
                    rgb,
                ) == circle_from(
                    old(self).buf@,
                    old(self).width as int,
                    center,
                    radius as int,
                    0,
                    0,
                    1 - 2 * radius,
                    1,
                    true,
                    rgb,
                ),
            decreases x - y + 2,
        {
            let ghost before = self.buf@;
            assert(y <= x);
            self.draw_line(center, Point { x: x0 + x, y: y0 + y }, rgb);
            self.draw_line(center, Point { x: x0 + y, y: y0 + x }, rgb);
            self.draw_line(center, Point { x: x0 - y, y: y0 + x }, rgb);
            self.draw_line(center, Point { x: x0 - x, y: y0 + y }, rgb);
            self.draw_line(center, Point { x: x0 - x, y: y0 - y }, rgb);
            self.draw_line(center, Point { x: x0 - y, y: y0 - x }, rgb);
            self.draw_line(center, Point { x: x0 + y, y: y0 - x }, rgb);
            self.draw_line(center, Point { x: x0 + x, y: y0 - y }, rgb);
            proof {
                reveal_with_fuel(spoke_all, 9);
                let pts = octants(x0 as int, y0 as int, x as int, y as int);
                assert(pts.skip(1).skip(1).skip(1).skip(1).skip(1).skip(1).skip(1).skip(1).len() == 0);
                assert(self.buf@ == spoke_all(before, self.width as int, center, pts, rgb));
            }
            y = y + 1;
            err = err + ychange;
            ychange = ychange + 2;
            if 2 * (err + xchange) + ychange > 0 {
                x = x - 1;
                err = err + xchange;
                xchange = xchange + 2;
            }
        }
    }

    /// Fills the rectangle, as far as it lies in the buffer.
    pub fn fill_rect(&mut self, top_left: Point, width: i32, height: i32, rgb: Rgba)
        requires
            old(self).wf(),
            0 <= top_left.x <= old(self).width,
            0 <= top_left.y <= old(self).height,
            0 <= width,
            0 <= height,
        ensures
            final(self).wf(),
            final(self).width == old(self).width,
            final(self).height == old(self).height,
            final(self).pitch == old(self).pitch,
            forall|x: int, y: int|
                0 <= x < old(self).width && 0 <= y < old(self).height ==> #[trigger] final(self).buf@[y * old(self).width + x] == if top_left.x <= x < top_left.x + width
                    && top_left.y <= y < top_left.y + height {
                    rgb
                } else {
                    old(self).buf@[y * old(self).width + x]
                },
    {
        let w = if self.width - top_left.x < width {
            self.width - top_left.x
        } else {
            width
        };
        let h = if self.height - top_left.y < height {
            self.height - top_left.y
        } else {
            height
        };
        let mut i: i32 = 0;
        while i < h
            invariant
                self.wf(),
                self.width == old(self).width,
                self.height == old(self).height,
                self.pitch == old(self).pitch,
                0 <= i <= h,
                0 <= w <= self.width - top_left.x,
                0 <= h <= self.height - top_left.y,
                w == if self.width - top_left.x < width { self.width - top_left.x } else { width as int },
                h == if self.height - top_left.y < height { self.height - top_left.y } else { height as int },
                0 <= top_left.x,
                0 <= top_left.y,
                forall|x: int, y: int|
                    0 <= x < self.width && 0 <= y < self.height ==> #[trigger] self.buf@[y * self.width
                        + x] == if top_left.x <= x < top_left.x + w && top_left.y <= y < top_left.y + i {
                        rgb
                    } else {
                        old(self).buf@[y * self.width + x]
                    },
            decreases h - i,
        {
            let row = top_left.y + i;
            let mut j: i32 = 0;
            while j < w
                invariant
                    self.wf(),
                    self.width == old(self).width,
                    self.height == old(self).height,
                    self.pitch == old(self).pitch,
                    0 <= i < h,
                    0 <= j <= w,
                    row == top_left.y + i,
                    0 <= w <= self.width - top_left.x,
                    0 <= h <= self.height - top_left.y,
                    0 <= top_left.x,
                    0 <= top_left.y,
                    forall|x: int, y: int|
                        0 <= x < self.width && 0 <= y < self.height ==> #[trigger] self.buf@[y
                            * self.width + x] == if (top_left.x <= x < top_left.x + w && top_left.y <= y
                            < top_left.y + i) || (y == row && top_left.x <= x < top_left.x + j) {
                            rgb
                        } else {
                            old(self).buf@[y * self.width + x]
                        },
                decreases w - j,
            {
                let ghost before = self.buf@;
                let col = top_left.x + j;
                proof {
                    lemma_cell(self.width as int, self.height as int, col as int, row as int);
                }
                let k: usize = (row as usize) * (self.width as usize) + (col as usize);
                self.buf[k] = rgb;
                proof {
                    assert forall|x: int, y: int|
                        0 <= x < self.width && 0 <= y < self.height implies #[trigger] self.buf@[y
                        * self.width + x] == if (top_left.x <= x < top_left.x + w && top_left.y <= y
                        < top_left.y + i) || (y == row && top_left.x <= x < top_left.x + j + 1) {
                        rgb
                    } else {
                        old(self).buf@[y * self.width + x]
                    } by {
                        lemma_cell(self.width as int, self.height as int, x, y);
                        lemma_cell_distinct(self.width as int, x, y, col as int, row as int);
                        assert(before[y * self.width + x] == if (top_left.x <= x < top_left.x + w
                            && top_left.y <= y < top_left.y + i) || (y == row && top_left.x <= x
                            < top_left.x + j) {
                            rgb
                        } else {
                            old(self).buf@[y * self.width + x]
                        });
                    }
                }
                j = j + 1;
            }
            i = i + 1;
        }
    }

    /// Puts a colour into the `w` pixels of row `row` from column `x0` on.
    fn fill_row(&mut self, row: i32, x0: i32, w: i32, rgb: Rgba)
        requires
            old(self).wf(),
            0 <= row < old(self).height,
            0 <= x0,
            0 <= w,
            x0 + w <= old(self).width,
        ensures
            final(self).wf(),
            final(self).width == old(self).width,
            final(self).height == old(self).height,
            final(self).pitch == old(self).pitch,
            forall|x: int, y: int|
                0 <= x < old(self).width && 0 <= y < old(self).height ==> #[trigger] final(self).buf@[y * old(self).width + x] == if y == row && x0 <= x < x0 + w {
                    rgb
                } else {
                    old(self).buf@[y * old(self).width + x]
                },
    {
        let mut j: i32 = 0;
        while j < w
            invariant
                self.wf(),
                self.width == old(self).width,
                self.height == old(self).height,
                self.pitch == old(self).pitch,
                0 <= row < self.height,
                0 <= x0,
                0 <= j <= w,
                x0 + w <= self.width,
                forall|x: int, y: int|
                    0 <= x < self.width && 0 <= y < self.height ==> #[trigger] self.buf@[y * self.width
                        + x] == if y == row && x0 <= x < x0 + j {
                        rgb
                    } else {
                        old(self).buf@[y * self.width + x]
                    },
            decreases w - j,
        {
            let ghost before = self.buf@;
            let col = x0 + j;
            proof {
                lemma_cell(self.width as int, self.height as int, col as int, row as int);
            }
            let k: usize = (row as usize) * (self.width as usize) + (col as usize);
            self.buf[k] = rgb;
            proof {
                assert forall|x: int, y: int|
                    0 <= x < self.width && 0 <= y < self.height implies #[trigger] self.buf@[y * self.width
                    + x] == if y == row && x0 <= x < x0 + j + 1 {
                    rgb
                } else {
                    old(self).buf@[y * self.width + x]
                } by {
                    lemma_cell(self.width as int, self.height as int, x, y);
                    lemma_cell_distinct(self.width as int, x, y, col as int, row as int);
                    assert(before[y * self.width + x] == if y == row && x0 <= x < x0 + j {
                        rgb
                    } else {
                        old(self).buf@[y * self.width + x]
                    });
                }
            }
            j = j + 1;
        }
    }

    /// The colour at step `step` of `span` on the way from `from` to `to`.
    pub fn interpolate_color(step: i32, from: Rgba, to: Rgba, span: i32) -> (c: Rgba)
        requires
            0 <= step < span <= MAX_EXTENT,
        ensures
            c == spec_interpolate_color(step as int, from, to, span as int),
    {
        let (r0, g0, b0) = (from.r(), from.g(), from.b());
        let (r1, g1, b1) = (to.r(), to.g(), to.b());
        proof {
            lemma_interpolate(r0 as int, step as int, r1 as int, span as int);
            lemma_interpolate(g0 as int, step as int, g1 as int, span as int);
            lemma_interpolate(b0 as int, step as int, b1 as int, span as int);
        }
        assert(255 * span <= 255 * 8192) by (nonlinear_arith)
            requires
                span <= 8192,
        ;
        let r = ((r0 as i32) * span + step * ((r1 as i32) - (r0 as i32))) / span;
        let g = ((g0 as i32) * span + step * ((g1 as i32) - (g0 as i32))) / span;
        let b = ((b0 as i32) * span + step * ((b1 as i32) - (b0 as i32))) / span;
        Rgba::from(r as u8, g as u8, b as u8)
    }

    /// Fills the rectangle, as far as it lies in the buffer, row by row
    /// with the colours from `from` towards `to`.
    pub fn fill_rect_grad(&mut self, top_left: Point, width: i32, height: i32, from: Rgba, to: Rgba)
        requires
            old(self).wf(),
            0 <= top_left.x <= old(self).width,
            0 <= top_left.y <= old(self).height,
            0 <= width,
            0 <= height,
        ensures
            final(self).wf(),
            final(self).width == old(self).width,
            final(self).height == old(self).height,
            final(self).pitch == old(self).pitch,
            ({
                let h = if old(self).height - top_left.y < height {
                    old(self).height - top_left.y
                } else {
                    height as int
                };
                forall|x: int, y: int|
                    0 <= x < old(self).width && 0 <= y < old(self).height ==> #[trigger] final(self).buf@[y * old(self).width + x] == if top_left.x <= x < top_left.x + width && top_left.y <= y < top_left.y + h {
                        spec_grad(y - top_left.y, from, to, h)
                    } else {
                        old(self).buf@[y * old(self).width + x]
                    }
            }),
    {
        let w = if self.width - top_left.x < width {
            self.width - top_left.x
        } else {
            width
        };
        let h = if self.height - top_left.y < height {
            self.height - top_left.y
        } else {
            height
        };
        let mut clr = from;
        let mut i: i32 = 0;
        while i < h
            invariant
                self.wf(),
                self.width == old(self).width,
                self.height == old(self).height,
                self.pitch == old(self).pitch,
                0 <= i <= h,
                0 <= top_left.x,
                0 <= top_left.y,
                0 <= w <= self.width - top_left.x,
                0 <= h <= self.height - top_left.y,
                w == if self.width - top_left.x < width { self.width - top_left.x } else { width as int },
                clr == spec_grad(i as int, from, to, h as int),
                forall|x: int, y: int|
                    0 <= x < self.width && 0 <= y < self.height ==> #[trigger] self.buf@[y * self.width
                        + x] == if top_left.x <= x < top_left.x + w && top_left.y <= y < top_left.y + i {
                        spec_grad(y - top_left.y, from, to, h as int)
                    } else {
                        old(self).buf@[y * self.width + x]
                    },
            decreases h - i,
        {
            self.fill_row(top_left.y + i, top_left.x, w, clr);
            clr = Self::interpolate_color(i, from, to, h);
            i = i + 1;
        }
    }

    /// Copies the pixels of a rectangle with its top left corner at `src`
    /// to the rectangle with its top left corner at `dst`; the rectangle
    /// is cut off at the right and at the bottom of the buffer. The two may
    /// overlap: what is copied is what the first held before.
    pub fn blit_copy(&mut self, dst: Point, src: Point, width: i32, height: i32)
        requires
            old(self).wf(),
            0 <= src.x <= old(self).width,
            0 <= src.y <= old(self).height,
            0 <= dst.x,
            0 <= dst.y,
            0 <= width,
            0 <= height,
            dst.x + (if old(self).width - src.x < width { old(self).width - src.x } else { width as int }) <= old(self).width,
            dst.y + (if old(self).height - src.y < height { old(self).height - src.y } else { height as int }) <= old(self).height,
        ensures
            final(self).wf(),
            final(self).width == old(self).width,
            final(self).height == old(self).height,
            final(self).pitch == old(self).pitch,
            ({
                let w = if old(self).width - src.x < width {
                    old(self).width - src.x
                } else {
                    width as int
                };
                let h = if old(self).height - src.y < height {
                    old(self).height - src.y
                } else {
                    height as int
                };
                forall|x: int, y: int|
                    0 <= x < old(self).width && 0 <= y < old(self).height ==> #[trigger] final(self).buf@[y * old(self).width + x] == if dst.x <= x < dst.x + w && dst.y <= y < dst.y + h {
                        old(self).buf@[(y - dst.y + src.y) * old(self).width + (x - dst.x + src.x)]
                    } else {
                        old(self).buf@[y * old(self).width + x]
                    }
            }),
    {
        let w = if self.width - src.x < width {
            self.width - src.x
        } else {
            width
        };
        let h = if self.height - src.y < height {
            self.height - src.y
        } else {
            height
        };
        let down = src.y > dst.y;
        let mut n: i32 = 0;
        while n < h
            invariant
                self.wf(),
                self.width == old(self).width,
                self.height == old(self).height,
                self.pitch == old(self).pitch,
                0 <= n <= h,
                0 <= src.x,
                0 <= src.y,
                0 <= dst.x,
                0 <= dst.y,
                0 <= w,
                src.x + w <= self.width,
                src.y + h <= self.height,
                dst.x + w <= self.width,
                dst.y + h <= self.height,
                down == (src.y > dst.y),
                forall|x: int, y: int|
                    0 <= x < self.width && 0 <= y < self.height ==> #[trigger] self.buf@[y * self.width
                        + x] == if dst.x <= x < dst.x + w && dst.y <= y < dst.y + h && (if down {
                        y - dst.y < n
                    } else {
                        y - dst.y >= h - n
                    }) {
                        old(self).buf@[(y - dst.y + src.y) * self.width + (x - dst.x + src.x)]
                    } else {
                        old(self).buf@[y * self.width + x]
                    },
            decreases h - n,
        {
            let j = if down {
                n
            } else {
                h - 1 - n
            };
            let ghost before = self.buf@;
            let mut row: Vec<Rgba> = Vec::new();
            let mut i: i32 = 0;
            while i < w
                invariant
                    self.wf(),
                    self.buf@ == before,
                    0 <= i <= w,
                    0 <= j < h,
                    0 <= src.x,
                    0 <= src.y,
                    src.x + w <= self.width,
                    src.y + h <= self.height,
                    row@.len() == i,
                    forall|k: int| 0 <= k < i ==> #[trigger] row@[k] == before[(src.y + j) * self.width + (src.x + k)],
                decreases w - i,
            {
                proof {
                    lemma_cell(self.width as int, self.height as int, (src.x + i) as int, (src.y + j) as int);
                }
                let k: usize = ((src.y + j) as usize) * (self.width as usize) + ((src.x + i) as usize);
                row.push(self.buf[k]);
                i = i + 1;
            }
            let mut i: i32 = 0;
            while i < w
                invariant
                    self.wf(),
                    self.width == old(self).width,
                    self.height == old(self).height,
                    self.pitch == old(self).pitch,
                    0 <= i <= w,
                    0 <= j < h,
                    0 <= dst.x,
                    0 <= dst.y,
                    dst.x + w <= self.width,
                    dst.y + h <= self.height,
                    row@.len() == w,
                    forall|x: int, y: int|
                        0 <= x < self.width && 0 <= y < self.height ==> #[trigger] self.buf@[y * self.width
                            + x] == if y == dst.y + j && dst.x <= x < dst.x + i {
                            row@[x - dst.x]
                        } else {
                            before[y * self.width + x]
                        },
                decreases w - i,
            {
                let ghost mid = self.buf@;
                let col = dst.x + i;
                proof {
                    lemma_cell(self.width as int, self.height as int, col as int, (dst.y + j) as int);
                }
                let k: usize = ((dst.y + j) as usize) * (self.width as usize) + (col as usize);
                self.buf[k] = row[i as usize];
                proof {
                    assert forall|x: int, y: int|
                        0 <= x < self.width && 0 <= y < self.height implies #[trigger] self.buf@[y
                        * self.width + x] == if y == dst.y + j && dst.x <= x < dst.x + i + 1 {
                        row@[x - dst.x]
                    } else {
                        before[y * self.width + x]
                    } by {
                        lemma_cell(self.width as int, self.height as int, x, y);
                        lemma_cell_distinct(self.width as int, x, y, col as int, (dst.y + j) as int);
                        assert(mid[y * self.width + x] == if y == dst.y + j && dst.x <= x < dst.x + i {
                            row@[x - dst.x]
                        } else {
                            before[y * self.width + x]
                        });
                    }
                }
                i = i + 1;
            }
            proof {
                assert forall|x: int, y: int|
                    0 <= x < self.width && 0 <= y < self.height implies #[trigger] self.buf@[y * self.width
                    + x] == if dst.x <= x < dst.x + w && dst.y <= y < dst.y + h && (if down {
                    y - dst.y < n + 1
                } else {
                    y - dst.y >= h - (n + 1)
                }) {
                    old(self).buf@[(y - dst.y + src.y) * self.width + (x - dst.x + src.x)]
                } else {
                    old(self).buf@[y * self.width + x]
                } by {
                    if y == dst.y + j && dst.x <= x < dst.x + w {
                        let sx = x - dst.x + src.x;
                        let sy = src.y + j;
                        lemma_cell(self.width as int, self.height as int, sx, sy);
                        assert(row@[x - dst.x] == before[sy * self.width + sx]);
                        assert(before[sy * self.width + sx] == old(self).buf@[sy * self.width + sx]);
                    } else {
                        assert(before[y * self.width + x] == if dst.x <= x < dst.x + w && dst.y <= y < dst.y
                            + h && (if down {
                            y - dst.y < n
                        } else {
                            y - dst.y >= h - n
                        }) {
                            old(self).buf@[(y - dst.y + src.y) * self.width + (x - dst.x + src.x)]
                        } else {
                            old(self).buf@[y * self.width + x]
                        });
                    }
                }
            }
            n = n + 1;
        }
    }

    /// Draws the outline of the rectangle, cut off at the right and at the
    /// bottom of the buffer.
    pub fn draw_rect(&mut self, top_left: Point, width: i32, height: i32, rgb: Rgba)
        requires
            old(self).wf(),
            0 <= top_left.x <= old(self).width,
            0 <= top_left.y <= old(self).height,
            0 <= width,
            0 <= height,
        ensures
            final(self).wf(),
            final(self).width == old(self).width,
            final(self).height == old(self).height,
            final(self).pitch == old(self).pitch,
            ({
                let w = if old(self).width - top_left.x < width {
                    old(self).width - top_left.x
                } else {
                    width as int
                };
                let h = if old(self).height - top_left.y < height {
                    old(self).height - top_left.y
                } else {
                    height as int
                };
                let l = top_left.x;
                let r = (top_left.x + w - 1) as i32;
                let t = top_left.y;
                let b = (top_left.y + h - 1) as i32;
                let wd = old(self).width as int;
                final(self).buf@ == spec_line(
                    spec_line(
                        spec_line(
                            spec_line(
                                old(self).buf@,
                                wd,
                                Point { x: l, y: t },
                                Point { x: r, y: t },
                                rgb,
                            ),
                            wd,
                            Point { x: l, y: t },
                            Point { x: l, y: b },
                            rgb,
                        ),
                        wd,
                        Point { x: r, y: t },
                        Point { x: r, y: b },
                        rgb,
                    ),
                    wd,
                    Point { x: l, y: b },
                    Point { x: r, y: b },
                    rgb,
                )
            }),
            // the four corners of a rectangle that is not empty have the colour
            ({
                let w = if old(self).width - top_left.x < width {
                    old(self).width - top_left.x
                } else {
                    width as int
                };
                let h = if old(self).height - top_left.y < height {
                    old(self).height - top_left.y
                } else {
                    height as int
                };
                let l = top_left.x as int;
                let r = top_left.x + w - 1;
                let t = top_left.y as int;
                let b = top_left.y + h - 1;
                let wd = old(self).width as int;
                w >= 1 && h >= 1 ==> final(self).buf@[t * wd + l] == rgb && final(self).buf@[t * wd + r]
                    == rgb && final(self).buf@[b * wd + l] == rgb && final(self).buf@[b * wd + r] == rgb
            }),
    {
        let w = if self.width - top_left.x < width {
            self.width - top_left.x
        } else {
            width
        };
        let h = if self.height - top_left.y < height {
            self.height - top_left.y
        } else {
            height
        };
        let l = top_left.x;
        let r = top_left.x + w - 1;
        let t = top_left.y;
        let b = top_left.y + h - 1;
        proof {
            if w >= 1 && h >= 1 {
                lemma_cell(self.width as int, self.height as int, l as int, t as int);
                lemma_cell(self.width as int, self.height as int, r as int, t as int);
                lemma_cell(self.width as int, self.height as int, l as int, b as int);
                lemma_cell(self.width as int, self.height as int, r as int, b as int);
            }
        }
        self.draw_line(Point { x: l, y: t }, Point { x: r, y: t }, rgb);
        self.draw_line(Point { x: l, y: t }, Point { x: l, y: b }, rgb);
        self.draw_line(Point { x: r, y: t }, Point { x: r, y: b }, rgb);
        self.draw_line(Point { x: l, y: b }, Point { x: r, y: b }, rgb);
    }

    /// Draws a glyph of the font with its top left corner at `p`: the
    /// glyph's pixels in `rgb`, the others in `bg`. A character whose glyph
    /// the font lacks draws nothing.
    pub fn draw_char(&mut self, font: &Font, p: Point, c: u8, rgb: Rgba, bg: Rgba)
        requires
            old(self).wf(),
            font.wf(),
            0 <= p.x <= old(self).width - 8,
            0 <= p.y <= old(self).height - 16,
        ensures
            final(self).wf(),
            final(self).width == old(self).width,
            final(self).height == old(self).height,
            final(self).pitch == old(self).pitch,
            !(1 <= c <= font.glyphs@.len()) ==> final(self).buf@ == old(self).buf@,
            final(self).buf@ == spec_char(old(self).buf@, old(self).width as int, *font, p, c, rgb, bg),
            1 <= c <= font.glyphs@.len() ==> forall|x: int, y: int|
                0 <= x < old(self).width && 0 <= y < old(self).height ==> #[trigger] final(self).buf@[y * old(self).width + x] == if p.x <= x < p.x + 8 && p.y <= y < p.y + 16 {
                    glyph_pixel(font.glyphs@[c - 1]@, x - p.x, y - p.y, rgb, bg)
                } else {
                    old(self).buf@[y * old(self).width + x]
                },
    {
        if c == 0 || (c as usize) > font.glyphs.len() {
            return ;
        }
        let glyph = &font.glyphs[(c - 1) as usize];
        assert(glyph@.len() == 128);
        let mut i: i32 = 0;
        while i < 16
            invariant
                self.wf(),
                self.width == old(self).width,
                self.height == old(self).height,
                self.pitch == old(self).pitch,
                0 <= p.x <= self.width - 8,
                0 <= p.y <= self.height - 16,
                0 <= i <= 16,
                glyph@.len() == 128,
                forall|x: int, y: int|
                    0 <= x < self.width && 0 <= y < self.height ==> #[trigger] self.buf@[y * self.width
                        + x] == if p.x <= x < p.x + 8 && p.y <= y < p.y + i {
                        glyph_pixel(glyph@, x - p.x, y - p.y, rgb, bg)
                    } else {
                        old(self).buf@[y * self.width + x]
                    },
            decreases 16 - i,
        {
            let row = p.y + i;
            let mut j: i32 = 0;
            while j < 8
                invariant
                    self.wf(),
                    self.width == old(self).width,
                    self.height == old(self).height,
                    self.pitch == old(self).pitch,
                    0 <= p.x <= self.width - 8,
                    0 <= p.y <= self.height - 16,
                    0 <= i < 16,
                    0 <= j <= 8,
                    row == p.y + i,
                    glyph@.len() == 128,
                    forall|x: int, y: int|
                        0 <= x < self.width && 0 <= y < self.height ==> #[trigger] self.buf@[y
                            * self.width + x] == if (p.x <= x < p.x + 8 && p.y <= y < p.y + i) || (y
                            == row && p.x <= x < p.x + j) {
                            glyph_pixel(glyph@, x - p.x, y - p.y, rgb, bg)
                        } else {
                            old(self).buf@[y * self.width + x]
                        },
                decreases 8 - j,
            {
                let ghost before = self.buf@;
                let col = p.x + j;
                proof {
                    lemma_cell(self.width as int, self.height as int, col as int, row as int);
                }
                let k: usize = (row as usize) * (self.width as usize) + (col as usize);
                let idx: usize = (i * 8 + j) as usize;
                self.buf[k] = if glyph[idx] == 42 {
                    rgb
                } else {
                    bg
                };
                proof {
                    assert forall|x: int, y: int|
                        0 <= x < self.width && 0 <= y < self.height implies #[trigger] self.buf@[y
                        * self.width + x] == if (p.x <= x < p.x + 8 && p.y <= y < p.y + i) || (y == row
                        && p.x <= x < p.x + j + 1) {
                        glyph_pixel(glyph@, x - p.x, y - p.y, rgb, bg)
                    } else {
                        old(self).buf@[y * self.width + x]
                    } by {
                        lemma_cell(self.width as int, self.height as int, x, y);
                        lemma_cell_distinct(self.width as int, x, y, col as int, row as int);
                        assert(before[y * self.width + x] == if (p.x <= x < p.x + 8 && p.y <= y < p.y
                            + i) || (y == row && p.x <= x < p.x + j) {
                            glyph_pixel(glyph@, x - p.x, y - p.y, rgb, bg)
                        } else {
                            old(self).buf@[y * self.width + x]
                        });
                    }
                }
                j = j + 1;
            }
            i = i + 1;
        }
        proof {
            let w = self.width as int;
            let h = self.height as int;
            let want = spec_char(old(self).buf@, w, *font, p, c, rgb, bg);
            assert forall|k: int| 0 <= k < self.buf@.len() implies self.buf@[k] == want[k] by {
                crate::console::lemma_cursor_parts(w, h, k);
                assert(self.buf@[(k / w) * w + k % w] == want[k]);
            }
            assert(self.buf@ =~= want);
        }
    }

    /// Draws the text from `p` on, 8 pixels from character to character,
    /// and goes on 16 pixels further down at the left edge once the right
    /// edge is reached.
    pub fn draw_str(&mut self, font: &Font, p: Point, text: &[u8], rgb: Rgba, bg: Rgba)
        requires
            old(self).wf(),
            font.wf(),
            0 <= p.x <= MAX_EXTENT,
            0 <= p.y,
        ensures
            final(self).wf(),
            final(self).width == old(self).width,
            final(self).height == old(self).height,
            final(self).pitch == old(self).pitch,
            final(self).buf@ == spec_str(
                old(self).buf@,
                old(self).width as int,
                old(self).height as int,
                *font,
                p.x as int,
                p.y as int,
                text@,
                0,
                rgb,
                bg,
            ),
    {
        let mut x: i32 = p.x;
        let mut y: i32 = p.y;
        let mut i: usize = 0;
        while i < text.len() && y <= self.height - 16
            invariant
                self.wf(),
                font.wf(),
                self.width == old(self).width,
                self.height == old(self).height,
                self.pitch == old(self).pitch,
                i <= text@.len(),
                0 <= x <= MAX_EXTENT,
                0 <= y,
                spec_str(
                    self.buf@,
                    self.width as int,
                    self.height as int,
                    *font,
                    x as int,
                    y as int,
                    text@,
                    i as int,
                    rgb,
                    bg,
                ) == spec_str(
                    old(self).buf@,
                    old(self).width as int,
                    old(self).height as int,
                    *font,
                    p.x as int,
                    p.y as int,
                    text@,
                    0,
                    rgb,
                    bg,
                ),
            decreases text@.len() - i,
        {
            if x <= self.width - 8 {
                self.draw_char(font, Point { x, y }, text[i], rgb, bg);
            }
            if x + 8 >= self.width {
                x = 0;
                y = y + 16;
            } else {
                x = x + 8;
            }
            i += 1;
        }
    }
}

/// The place of a point of the buffer lies in the buffer.
pub proof fn lemma_cell(width: int, height: int, x: int, y: int)
    requires
        0 <= x < width,
        0 <= y < height,
        width <= MAX_EXTENT,
        height <= MAX_EXTENT,
    ensures
        0 <= y * width + x < width * height,
        width * height <= MAX_EXTENT * MAX_EXTENT,
        (y * width + x) / width == y,
        (y * width + x) % width == x,
{
    assert(y * width + x < width * height && 0 <= y * width) by (nonlinear_arith)
        requires
            0 <= x < width,
            0 <= y < height,
    ;
    assert(width * height <= 8192 * 8192) by (nonlinear_arith)
        requires
            0 <= width <= 8192,
            0 <= height <= 8192,
    ;
    vstd::arithmetic::div_mod::lemma_fundamental_div_mod_converse(y * width + x, width, y, x);
}

/// Two points of the buffer with the same place are the same point.
pub proof fn lemma_cell_distinct(width: int, x1: int, y1: int, x2: int, y2: int)
    requires
        0 <= x1 < width,
        0 <= x2 < width,
        0 <= y1,
        0 <= y2,
    ensures
        y1 * width + x1 == y2 * width + x2 ==> x1 == x2 && y1 == y2,
{
    if y1 * width + x1 == y2 * width + x2 {
        vstd::arithmetic::div_mod::lemma_fundamental_div_mod_converse(y1 * width + x1, width, y1, x1);
        vstd::arithmetic::div_mod::lemma_fundamental_div_mod_converse(y2 * width + x2, width, y2, x2);
    }
}

} // verus!
