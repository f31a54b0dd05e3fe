//! Windows and drawing surfaces: rectangles of RGBA pixels and the byte
//! arithmetic of writing into them. Putting a finished frame on the real
//! framebuffer happens outside the crate.
use vstd::prelude::*;

use crate::colour::Colour;

verus! {

/// Bytes per pixel: red, green, blue and one alpha byte that drawing leaves
/// alone.
pub const RGBA_BYTES_PER_PIXEL: usize = 4;

/// Where a window sits on the screen: its top-left corner, possibly off
/// screen, and its extent.
#[derive(Debug, Clone, PartialEq, Eq, Structural)]
pub struct Coordinates {
    pub x: isize,
    pub y: isize,
    pub width: usize,
    pub height: usize,
}

impl Coordinates {
    /// The rectangle of `width` by `height` pixels whose top-left corner is
    /// at `(x, y)`.
    pub fn new(x: isize, y: isize, width: usize, height: usize) -> (c: Self)
        ensures
            c == (Coordinates { x, y, width, height }),
    {
        Coordinates { x, y, width, height }
    }

    /// Whether the point `(x, y)` lies in the rectangle.
    pub fn contains(&self, x: isize, y: isize) -> (r: bool)
        requires
            self.x + self.width <= isize::MAX,
            self.y + self.height <= isize::MAX,
            self.width <= isize::MAX,
            self.height <= isize::MAX,
        ensures
            r == (self.x <= x < self.x + self.width && self.y <= y < self.y + self.height),
    {
        x >= self.x && x < self.x + self.width as isize && y >= self.y && y < self.y
            + self.height as isize
    }
}

/// The first byte of the pixel at `(row, col)` in a surface `width` pixels
/// wide.
pub open spec fn pixel_offset(width: int, row: int, col: int) -> int {
    (row * width + col) * RGBA_BYTES_PER_PIXEL
}

/// The pixel at `(row, col)` of `new` holds `colour`, with its alpha byte
/// taken over from `old`.
pub open spec fn pixel_written(
    old_pixels: Seq<u8>,
    new_pixels: Seq<u8>,
    width: int,
    row: int,
    col: int,
    colour: Colour,
) -> bool {
    let o = pixel_offset(width, row, col);
    &&& new_pixels[o] == colour.r
    &&& new_pixels[o + 1] == colour.g
    &&& new_pixels[o + 2] == colour.b
    &&& new_pixels[o + 3] == old_pixels[o + 3]
}

/// A surface that can be drawn on, pixel by pixel or row by row.
pub trait Draw {
    /// The surface's internal consistency: its pixel buffer matches its
    /// extent.
    spec fn inv(&self) -> bool;

    /// The surface's width in pixels.
    spec fn spec_width(&self) -> usize;

    /// The surface's height in pixels.
    spec fn spec_height(&self) -> usize;

    /// The surface's pixel bytes, row-major, four per pixel.
    spec fn pixels(&self) -> Seq<u8>;

    /// The surface's width in pixels.
    fn width(&self) -> (w: usize)
        requires
            self.inv(),
        ensures
            w == self.spec_width(),
    ;

    /// The surface's height in pixels.
    fn height(&self) -> (h: usize)
        requires
            self.inv(),
        ensures
            h == self.spec_height(),
    ;

    /// Paint every pixel of the surface with `colour`.
    fn clear(&mut self, colour: Colour)
        requires
            old(self).inv(),
        ensures
            final(self).inv(),
            final(self).spec_width() == old(self).spec_width(),
            final(self).spec_height() == old(self).spec_height(),
            final(self).pixels().len() == old(self).pixels().len(),
            forall|row: int, col: int|
                0 <= row < old(self).spec_height() && 0 <= col < old(self).spec_width()
                    ==> pixel_written(
                    old(self).pixels(),
                    final(self).pixels(),
                    old(self).spec_width() as int,
                    row,
                    col,
                    colour,
                ),
    ;

    /// Paint the pixel at `(row, col)` with `colour`, if it lies on the
    /// surface; off-surface coordinates are ignored.
    fn write_pixel(&mut self, row: isize, col: isize, colour: Colour)
        requires
            old(self).inv(),
        ensures
            final(self).inv(),
            final(self).spec_width() == old(self).spec_width(),
            final(self).spec_height() == old(self).spec_height(),
            final(self).pixels().len() == old(self).pixels().len(),
            (0 <= row < old(self).spec_height() && 0 <= col < old(self).spec_width())
                ==> pixel_written(
                old(self).pixels(),
                final(self).pixels(),
                old(self).spec_width() as int,
                row as int,
                col as int,
                colour,
            ) && (forall|k: int|
                0 <= k < old(self).pixels().len() && !(pixel_offset(
                    old(self).spec_width() as int,
                    row as int,
                    col as int,
                ) <= k < pixel_offset(
                    old(self).spec_width() as int,
                    row as int,
                    col as int,
                ) + 3) ==> final(self).pixels()[k] == old(self).pixels()[k]),
            !(0 <= row < old(self).spec_height() && 0 <= col < old(self).spec_width()) ==> final(self).pixels() == old(self).pixels(),
    ;

    /// Paint every pixel of row `row` with `colour`.
    fn write_row(&mut self, row: usize, colour: Colour)
        requires
            old(self).inv(),
            row < old(self).spec_height(),
        ensures
            final(self).inv(),
            final(self).spec_width() == old(self).spec_width(),
            final(self).spec_height() == old(self).spec_height(),
            final(self).pixels().len() == old(self).pixels().len(),
            forall|col: int|
                0 <= col < old(self).spec_width() ==> pixel_written(
                    old(self).pixels(),
                    final(self).pixels(),
                    old(self).spec_width() as int,
                    row as int,
                    col,
                    colour,
                ),
            forall|k: int|
                0 <= k < old(self).pixels().len() && !(pixel_offset(
                    old(self).spec_width() as int,
                    row as int,
                    0,
                ) <= k < pixel_offset(old(self).spec_width() as int, row as int + 1, 0)) ==> final(self).pixels()[k] == old(self).pixels()[k],
    ;

    /// Copy the pixel bytes of row `row_from` over those of row `row_to`.
    fn copy_row(&mut self, row_from: usize, row_to: usize)
        requires
            old(self).inv(),
            row_from < old(self).spec_height(),
            row_to < old(self).spec_height(),
        ensures
            final(self).inv(),
            final(self).spec_width() == old(self).spec_width(),
            final(self).spec_height() == old(self).spec_height(),
            final(self).pixels().len() == old(self).pixels().len(),
            forall|k: int|
                0 <= k < old(self).spec_width() * RGBA_BYTES_PER_PIXEL ==> #[trigger] final(self).pixels()[pixel_offset(old(self).spec_width() as int, row_to as int, 0) + k]
                    == old(self).pixels()[pixel_offset(
                    old(self).spec_width() as int,
                    row_from as int,
                    0,
                ) + k],
            forall|k: int|
                0 <= k < old(self).pixels().len() && !(pixel_offset(
                    old(self).spec_width() as int,
                    row_to as int,
                    0,
                ) <= k < pixel_offset(old(self).spec_width() as int, row_to as int + 1, 0))
                    ==> final(self).pixels()[k] == old(self).pixels()[k],
    ;
}

/// A window: a named rectangle of pixels.
pub struct Window {
    pub name: String,
    pub coordinates: Coordinates,
    pub buffer: Vec<u8>,
}

impl Window {
    /// A window at the given coordinates, all pixels black and transparent.
    pub fn new(name: String, coordinates: Coordinates) -> (w: Window)
        requires
            coordinates.width * coordinates.height * RGBA_BYTES_PER_PIXEL <= usize::MAX,
        ensures
            w.inv(),
            w.name@ == name@,
            w.coordinates == coordinates,
            w.spec_width() == coordinates.width,
            w.spec_height() == coordinates.height,
            forall|k: int| 0 <= k < w.pixels().len() ==> w.pixels()[k] == 0,
    {
        proof {
            vstd::arithmetic::mul::lemma_mul_nonnegative(
                coordinates.width as int,
                coordinates.height as int,
            );
        }
        let count = coordinates.width * coordinates.height * RGBA_BYTES_PER_PIXEL;
        let mut buffer: Vec<u8> = Vec::new();
        let mut i: usize = 0;
        while i < count
            invariant
                i <= count,
                buffer@.len() == i,
                forall|k: int| 0 <= k < i ==> buffer@[k] == 0,
            decreases count - i,
        {
            buffer.push(0);
            i = i + 1;
        }
        Window { name, coordinates, buffer }
    }

    /// Get the window's name.
    pub fn name(&self) -> (name: &str)
        ensures
            name@ == self.name@,
    {
        self.name.as_str()
    }
}

impl Draw for Window {
    open spec fn inv(&self) -> bool {
        self.buffer@.len() == self.coordinates.width * self.coordinates.height
            * RGBA_BYTES_PER_PIXEL
    }

    open spec fn spec_width(&self) -> usize {
        self.coordinates.width
    }

    open spec fn spec_height(&self) -> usize {
        self.coordinates.height
    }

    open spec fn pixels(&self) -> Seq<u8> {
        self.buffer@
    }

    fn width(&self) -> (w: usize) {
        self.coordinates.width
    }

    fn height(&self) -> (h: usize) {
        self.coordinates.height
    }

    fn clear(&mut self, colour: Colour) {
        let height = self.coordinates.height;
        let mut row: usize = 0;
        while row < height
            invariant
                row <= height,
                self.inv(),
                self.spec_width() == old(self).spec_width(),
                self.spec_height() == old(self).spec_height(),
                height == old(self).spec_height(),
                self.pixels().len() == old(self).pixels().len(),
                forall|r: int, c: int|
                    0 <= r < row && 0 <= c < old(self).spec_width() ==> pixel_written(
                        old(self).pixels(),
                        self.pixels(),
                        old(self).spec_width() as int,
                        r,
                        c,
                        colour,
                    ),
                forall|k: int|
                    pixel_offset(old(self).spec_width() as int, row as int, 0) <= k < old(self).pixels().len() ==> self.pixels()[k] == old(self).pixels()[k],
            decreases height - row,
        {
            let ghost prev = *self;
            self.write_row(row, colour);
            proof {
                lemma_row_bounds(
                    old(self).spec_width() as int,
                    old(self).spec_height() as int,
                    row as int,
                );
                assert forall|r: int, c: int|
                    0 <= r < row + 1 && 0 <= c < old(self).spec_width() implies pixel_written(
                    old(self).pixels(),
                    self.pixels(),
                    old(self).spec_width() as int,
                    r,
                    c,
                    colour,
                ) by {
                    let w = old(self).spec_width() as int;
                    lemma_pixel_in_row(w, r, c);
                    lemma_pixel_bounds(w, old(self).spec_height() as int, r, c);
                    if r < row {
                        lemma_row_monotonic(w, r + 1, row as int);
                        assert(pixel_written(old(self).pixels(), prev.pixels(), w, r, c, colour));
                        assert(self.pixels()[pixel_offset(w, r, c)] == prev.pixels()[pixel_offset(
                            w,
                            r,
                            c,
                        )]);
                        assert(self.pixels()[pixel_offset(w, r, c) + 1] == prev.pixels()[pixel_offset(
                            w,
                            r,
                            c,
                        ) + 1]);
                        assert(self.pixels()[pixel_offset(w, r, c) + 2] == prev.pixels()[pixel_offset(
                            w,
                            r,
                            c,
                        ) + 2]);
                        assert(self.pixels()[pixel_offset(w, r, c) + 3] == prev.pixels()[pixel_offset(
                            w,
                            r,
                            c,
                        ) + 3]);
                    } else {
                        assert(pixel_written(prev.pixels(), self.pixels(), w, r, c, colour));
                        assert(prev.pixels()[pixel_offset(w, r, c) + 3] == old(
                            self,
                        ).pixels()[pixel_offset(w, r, c) + 3]);
                    }
                }
                assert forall|k: int|
                    pixel_offset(old(self).spec_width() as int, row as int + 1, 0) <= k < old(
                    self,
                ).pixels().len() implies self.pixels()[k] == old(self).pixels()[k] by {
                    lemma_row_monotonic(
                        old(self).spec_width() as int,
                        row as int,
                        row as int + 1,
                    );
                }
            }
            row = row + 1;
        }
    }

    fn write_pixel(&mut self, row: isize, col: isize, colour: Colour) {
        let width = self.coordinates.width;
        let height = self.coordinates.height;
        if row < 0 || col < 0 {
            return ;
        }
        let r = row as usize;
        let c = col as usize;
        if r >= height || c >= width {
            return ;
        }
        let buffer_len = self.buffer.len();
        proof {
            lemma_pixel_bounds(width as int, height as int, row as int, col as int);
        }
        let offset = (r * width + c) * RGBA_BYTES_PER_PIXEL;
        self.buffer[offset] = colour.r;
        self.buffer[offset + 1] = colour.g;
        self.buffer[offset + 2] = colour.b;
    }

    fn write_row(&mut self, row: usize, colour: Colour) {
        let width = self.coordinates.width;
        let ghost w0 = *old(self);
        let buffer_len = self.buffer.len();
        proof {
            lemma_row_bounds(width as int, self.coordinates.height as int, row as int);
        }
        let row_start = row * width * RGBA_BYTES_PER_PIXEL;
        let mut col: usize = 0;
        while col < width
            invariant
                col <= width,
                self.coordinates == w0.coordinates,
                self.name == w0.name,
                width == w0.coordinates.width,
                self.pixels().len() == w0.pixels().len(),
                w0.inv(),
                self.inv(),
                row < w0.spec_height(),
                row_start == pixel_offset(width as int, row as int, 0),
                row_start + width * RGBA_BYTES_PER_PIXEL <= w0.pixels().len(),
                w0.pixels().len() <= usize::MAX,
                forall|c: int|
                    0 <= c < col ==> pixel_written(
                        w0.pixels(),
                        self.pixels(),
                        width as int,
                        row as int,
                        c,
                        colour,
                    ),
                forall|k: int|
                    0 <= k < w0.pixels().len() && !(row_start <= k < row_start + 4 * col)
                        ==> self.pixels()[k] == w0.pixels()[k],
            decreases width - col,
        {
            let ghost pre = *self;
            proof {
                assert(row_start + col * 4 + 3 < w0.pixels().len()) by (nonlinear_arith)
                    requires
                        col < width,
                        row_start + width * 4 <= w0.pixels().len(),
                ;
            }
            let offset = row_start + col * RGBA_BYTES_PER_PIXEL;
            self.buffer[offset] = colour.r;
            self.buffer[offset + 1] = colour.g;
            self.buffer[offset + 2] = colour.b;
            proof {
                assert(pixel_offset(width as int, row as int, col as int) == offset);
                assert forall|c: int|
                    0 <= c < col + 1 implies pixel_written(
                    w0.pixels(),
                    self.pixels(),
                    width as int,
                    row as int,
                    c,
                    colour,
                ) by {
                    assert(pixel_offset(width as int, row as int, c) == row_start + c * 4);
                    if c < col {
                        assert(pixel_written(
                            w0.pixels(),
                            pre.pixels(),
                            width as int,
                            row as int,
                            c,
                            colour,
                        ));
                    } else {
                        assert(pre.pixels()[row_start + c * 4 + 3] == w0.pixels()[row_start + c * 4
                            + 3]);
                    }
                }
            }
            col = col + 1;
        }
        proof {
            assert(pixel_offset(width as int, row as int + 1, 0) == row_start + width * 4)
                by (nonlinear_arith)
                requires
                    row_start == (row as int * width as int) * 4,
            ;
        }
    }

    fn copy_row(&mut self, row_from: usize, row_to: usize) {
        let width = self.coordinates.width;
        let ghost w0 = *old(self);
        let buffer_len = self.buffer.len();
        proof {
            lemma_row_bounds(width as int, self.coordinates.height as int, row_from as int);
            lemma_row_bounds(width as int, self.coordinates.height as int, row_to as int);
        }
        let from_start = row_from * width * RGBA_BYTES_PER_PIXEL;
        let to_start = row_to * width * RGBA_BYTES_PER_PIXEL;
        let stride = width * RGBA_BYTES_PER_PIXEL;
        let mut k: usize = 0;
        while k < stride
            invariant
                k <= stride,
                self.coordinates == w0.coordinates,
                self.name == w0.name,
                width == w0.coordinates.width,
                stride == width * 4,
                self.pixels().len() == w0.pixels().len(),
                w0.inv(),
                self.inv(),
                from_start == pixel_offset(width as int, row_from as int, 0),
                to_start == pixel_offset(width as int, row_to as int, 0),
                from_start + stride <= w0.pixels().len(),
                to_start + stride <= w0.pixels().len(),
                w0.pixels().len() <= usize::MAX,
                forall|j: int|
                    0 <= j < k ==> #[trigger] self.pixels()[to_start + j] == w0.pixels()[from_start
                        + j],
                forall|j: int|
                    0 <= j < w0.pixels().len() && !(to_start <= j < to_start + k)
                        ==> self.pixels()[j] == w0.pixels()[j],
            decreases stride - k,
        {
            let value = self.buffer[from_start + k];
            proof {
                if row_from == row_to {
                    assert(from_start == to_start);
                } else if from_start + k >= to_start && from_start + k < to_start + k {
                    assert(from_start < to_start + stride && to_start < from_start + stride);
                    assert(false) by (nonlinear_arith)
                        requires
                            from_start == (row_from as int * width as int) * 4,
                            to_start == (row_to as int * width as int) * 4,
                            stride == width as int * 4,
                            row_from != row_to,
                            from_start < to_start + stride,
                            to_start < from_start + stride,
                    ;
                }
            }
            self.buffer[to_start + k] = value;
            k = k + 1;
        }
        proof {
            assert(pixel_offset(width as int, row_to as int + 1, 0) == to_start + width * 4)
                by (nonlinear_arith)
                requires
                    to_start == (row_to as int * width as int) * 4,
            ;
        }
    }
}

/// A whole row of pixels lies inside the buffer.
proof fn lemma_row_bounds(width: int, height: int, row: int)
    requires
        0 <= width,
        0 <= row < height,
    ensures
        pixel_offset(width, row, 0) == (row * width) * 4,
        pixel_offset(width, row, 0) >= 0,
        pixel_offset(width, row, 0) + width * 4 <= width * height * 4,
{
    assert((row * width) * 4 >= 0 && (row * width) * 4 + width * 4 <= width * height * 4)
        by (nonlinear_arith)
        requires
            0 <= width,
            0 <= row < height,
    ;
}

/// A single pixel lies inside the buffer.
proof fn lemma_pixel_bounds(width: int, height: int, row: int, col: int)
    requires
        0 <= row < height,
        0 <= col < width,
    ensures
        pixel_offset(width, row, col) == (row * width + col) * 4,
        pixel_offset(width, row, col) >= 0,
        pixel_offset(width, row, col) + 3 < width * height * 4,
{
    assert((row * width + col) * 4 >= 0 && (row * width + col) * 4 + 3 < width * height * 4)
        by (nonlinear_arith)
        requires
            0 <= row < height,
            0 <= col < width,
    ;
}

/// Row starts come in row order.
proof fn lemma_row_monotonic(width: int, r1: int, r2: int)
    requires
        0 <= width,
        r1 <= r2,
    ensures
        pixel_offset(width, r1, 0) <= pixel_offset(width, r2, 0),
{
    assert((r1 * width) * 4 <= (r2 * width) * 4) by (nonlinear_arith)
        requires
            0 <= width,
            r1 <= r2,
    ;
}

/// A pixel's offset within its row.
proof fn lemma_pixel_in_row(width: int, row: int, col: int)
    requires
        0 <= col < width,
    ensures
        pixel_offset(width, row, col) == pixel_offset(width, row, 0) + col * 4,
        pixel_offset(width, row, 0) <= pixel_offset(width, row, col) + 3 < pixel_offset(
            width,
            row + 1,
            0,
        ),
{
    assert((row * width + col) * 4 == (row * width) * 4 + col * 4 && (row * width) * 4 <= (row
        * width + col) * 4 + 3 < ((row + 1) * width) * 4) by (nonlinear_arith)
        requires
            0 <= col < width,
    ;
}

} // verus!
