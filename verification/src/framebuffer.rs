//! The pixel surface that every renderer draws into.

use vstd::prelude::*;

verus! {

/// A width x height grid of packed RGB pixels, stored row by row.
///
/// Its view is the row-major sequence of its pixels, `width * height` long.
pub struct Framebuffer {
    width: usize,
    height: usize,
    buffer: Vec<u32>,
}

/// A pixel inside a `w` x `h` grid has a row-major index inside the grid's storage.
pub proof fn lemma_cell_index(x: int, y: int, w: int, h: int)
    by (nonlinear_arith)
    requires
        0 <= x < w,
        0 <= y < h,
    ensures
        0 <= y * w,
        0 <= y * w + x < w * h,
{
}

/// Two pixels of one grid with the same row-major index are the same pixel.
pub proof fn lemma_cell_index_unique(x1: int, y1: int, x2: int, y2: int, w: int)
    by (nonlinear_arith)
    requires
        0 <= x1 < w,
        0 <= x2 < w,
        0 <= y1,
        0 <= y2,
        y1 * w + x1 == y2 * w + x2,
    ensures
        x1 == x2,
        y1 == y2,
{
    if y1 < y2 {
        assert(y2 * w >= (y1 + 1) * w);
    } else if y2 < y1 {
        assert(y1 * w >= (y2 + 1) * w);
    }
}

impl View for Framebuffer {
    type V = Seq<u32>;

    closed spec fn view(&self) -> Seq<u32> {
        self.buffer@
    }
}

impl Framebuffer {
    #[verifier::type_invariant]
    spec fn inv(self) -> bool {
        self.buffer.len() == self.width * self.height
    }

    /// The number of columns.
    pub closed spec fn spec_width(&self) -> usize {
        self.width
    }

    /// The number of rows.
    pub closed spec fn spec_height(&self) -> usize {
        self.height
    }

    /// Whether column `x`, row `y` lies on the surface.
    pub open spec fn in_bounds(&self, x: int, y: int) -> bool {
        0 <= x < self.width() && 0 <= y < self.height()
    }

    /// The pixel in column `x` of row `y`.
    pub open spec fn pixel(&self, x: int, y: int) -> u32
        recommends
            self.in_bounds(x, y),
    {
        self@[y * self.width() + x]
    }

    /// Whether `other` has the same number of columns and rows, and as many pixels.
    pub open spec fn same_size(&self, other: &Framebuffer) -> bool {
        self.width() == other.width() && self.height() == other.height() && self@.len()
            == other@.len()
    }

    /// A surface of `width` x `height` black pixels.
    pub fn new(width: usize, height: usize) -> (fb: Framebuffer)
        requires
            width * height <= usize::MAX,
        ensures
            fb.width() == width,
            fb.height() == height,
            fb@.len() == width * height,
            forall|i: int| 0 <= i < fb@.len() ==> fb@[i] == 0,
    {
        Framebuffer { width, height, buffer: vec![0u32; width * height] }
    }

    /// The number of columns.
    #[verifier::when_used_as_spec(spec_width)]
    pub fn width(&self) -> (w: usize)
        ensures
            w == self.width(),
    {
        self.width
    }

    /// The number of rows.
    #[verifier::when_used_as_spec(spec_height)]
    pub fn height(&self) -> (h: usize)
        ensures
            h == self.height(),
    {
        self.height
    }

    /// The number of pixels: one for each column of each row.
    pub fn len(&self) -> (n: usize)
        ensures
            n == self@.len(),
            n == self.width() * self.height(),
    {
        proof {
            use_type_invariant(self);
        }
        self.buffer.len()
    }

    /// The pixel in column `x` of row `y`, if there is one.
    pub fn get(&self, x: usize, y: usize) -> (p: Option<u32>)
        ensures
            p == (if self.in_bounds(x as int, y as int) {
                Some(self.pixel(x as int, y as int))
            } else {
                None
            }),
    {
        proof {
            use_type_invariant(self);
        }
        if x < self.width && y < self.height {
            proof {
                lemma_cell_index(x as int, y as int, self.width as int, self.height as int);
            }
            Some(self.buffer[y * self.width + x])
        } else {
            None
        }
    }

    /// Gives every pixel the colour `color`.
    pub fn clear(&mut self, color: u32)
        ensures
            final(self).same_size(old(self)),
            final(self)@.len() == old(self)@.len(),
            forall|i: int| 0 <= i < final(self)@.len() ==> final(self)@[i] == color,
            forall|x: int, y: int|
                final(self).in_bounds(x, y) ==> #[trigger] final(self).pixel(x, y) == color,
    {
        proof {
            use_type_invariant(&*self);
        }
        let n: usize = self.buffer.len();
        let mut i: usize = 0;
        while i < n
            invariant
                i <= n,
                n == self.buffer.len(),
                self.width == old(self).width,
                self.height == old(self).height,
                self.buffer.len() == self.width * self.height,
                forall|k: int| 0 <= k < i ==> self.buffer@[k] == color,
            decreases n - i,
        {
            self.buffer[i] = color;
            i += 1;
        }
        proof {
            assert forall|x: int, y: int| self.in_bounds(x, y) implies #[trigger] self.pixel(x, y)
                == color by {
                lemma_cell_index(x, y, self.width as int, self.height as int);
            }
        }
    }

    /// Writes one pixel; a position off the surface is ignored.
    pub fn point(&mut self, x: usize, y: usize, color: u32)
        ensures
            final(self).same_size(old(self)),
            final(self)@ == (if old(self).in_bounds(x as int, y as int) {
                old(self)@.update(y * old(self).width() + x, color)
            } else {
                old(self)@
            }),
            forall|i: int, j: int|
                final(self).in_bounds(i, j) ==> #[trigger] final(self).pixel(i, j) == (if i == x
                    && j == y {
                    color
                } else {
                    old(self).pixel(i, j)
                }),
    {
        proof {
            use_type_invariant(&*self);
        }
        if x < self.width && y < self.height {
            proof {
                lemma_cell_index(x as int, y as int, self.width as int, self.height as int);
            }
            self.buffer[y * self.width + x] = color;
            proof {
                assert forall|i: int, j: int| self.in_bounds(i, j) implies #[trigger] self.pixel(
                    i,
                    j,
                ) == (if i == x && j == y {
                    color
                } else {
                    old(self).pixel(i, j)
                }) by {
                    lemma_cell_index(i, j, self.width as int, self.height as int);
                    if j * self.width + i == y * self.width + x {
                        lemma_cell_index_unique(i, j, x as int, y as int, self.width as int);
                    }
                }
            }
        }
    }

    /// Writes one pixel given by signed coordinates; a position off the surface is ignored.
    pub fn plot(&mut self, x: i64, y: i64, color: u32)
        ensures
            final(self).same_size(old(self)),
            forall|i: int, j: int|
                final(self).in_bounds(i, j) ==> #[trigger] final(self).pixel(i, j) == (if i == x
                    && j == y {
                    color
                } else {
                    old(self).pixel(i, j)
                }),
    {
        if x >= 0 && y >= 0 && (x as u64) < (self.width as u64) && (y as u64) < (self.height as u64) {
            self.point(x as usize, y as usize, color);
        }
    }

    /// Copies the pixels, row by row, into `out`, which must have room for exactly all of them.
    pub fn flush_to(&self, out: &mut [u32])
        requires
            old(out)@.len() == self@.len(),
        ensures
            final(out)@ == self@,
    {
        let n: usize = self.buffer.len();
        let mut i: usize = 0;
        while i < n
            invariant
                i <= n,
                n == self.buffer@.len(),
                out@.len() == n,
                forall|k: int| 0 <= k < i ==> out@[k] == self.buffer@[k],
            decreases n - i,
        {
            out[i] = self.buffer[i];
            i += 1;
        }
        assert(out@ =~= self@);
    }

    /// Fills the rectangle whose top left corner is (`x`, `y`), as far as it lies on the
    /// surface.
    pub fn fill_rect(&mut self, x: usize, y: usize, width: usize, height: usize, color: u32)
        ensures
            final(self).same_size(old(self)),
            forall|i: int, j: int|
                final(self).in_bounds(i, j) ==> #[trigger] final(self).pixel(i, j) == (if x <= i
                    < x + width && y <= j < y + height {
                    color
                } else {
                    old(self).pixel(i, j)
                }),
    {
        let w: usize = self.width;
        let h: usize = self.height;
        // the part of the rectangle that is on the surface
        let x0: usize = if x < w { x } else { w };
        let y0: usize = if y < h { y } else { h };
        let x1: usize = if width < w - x0 { x0 + width } else { w };
        let y1: usize = if height < h - y0 { y0 + height } else { h };
        let mut j: usize = y0;
        while j < y1
            invariant
                self.same_size(old(self)),
                w == self.width(),
                h == self.height(),
                x0 <= x1 <= w,
                y0 <= j <= y1 <= h,
                forall|a: int, b: int|
                    self.in_bounds(a, b) ==> #[trigger] self.pixel(a, b) == (if x0 <= a < x1 && y0
                        <= b < j {
                        color
                    } else {
                        old(self).pixel(a, b)
                    }),
            decreases y1 - j,
        {
            let mut i: usize = x0;
            while i < x1
                invariant
                    self.same_size(old(self)),
                    w == self.width(),
                    h == self.height(),
                    x0 <= i <= x1 <= w,
                    y0 <= j < y1 <= h,
                    forall|a: int, b: int|
                        self.in_bounds(a, b) ==> #[trigger] self.pixel(a, b) == (if (x0 <= a < x1
                            && y0 <= b < j) || (b == j && x0 <= a < i) {
                            color
                        } else {
                            old(self).pixel(a, b)
                        }),
                decreases x1 - i,
            {
                self.point(i, j, color);
                i += 1;
            }
            j += 1;
        }
    }
}

} // verus!
