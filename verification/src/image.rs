//! Working images: one colour word per pixel, ink on paper.

use vstd::prelude::*;
use crate::color::{BLACK, WHITE};
use crate::grid::{cell_index, in_grid, lemma_cell_index, lemma_index_cell};
use crate::surface::Surface;
use crate::bitmap::{bits_to_bytes, lemma_unpacked_rows, unpacked, Bitmap};
use crate::ellipse::{arc, stroke_arc};
use crate::line::{point, stroke, stroke_line};

verus! {

/// A mutable picture of one animated element, with the place on the canvas
/// where it belongs. A pixel is set when it holds [`BLACK`]; every other value
/// counts as background.
pub struct Image {
    pub bytes: Vec<u32>,
    pub width: usize,
    pub height: usize,
    pub x_offset: usize,
    pub y_offset: usize,
}

/// The mathematical content of an [`Image`].
pub struct ImageView {
    pub pixels: Seq<u32>,
    pub width: nat,
    pub height: nat,
    pub x_offset: nat,
    pub y_offset: nat,
}

impl ImageView {
    /// There is exactly one colour word per pixel.
    pub open spec fn wf(self) -> bool {
        self.pixels.len() == self.width * self.height
    }

    /// Whether `(x, y)` is set.
    pub open spec fn has_ink(self, x: int, y: int) -> bool {
        in_grid(self.width as int, self.height as int, x, y) && self.pixels[cell_index(
            self.width as int,
            x,
            y,
        )] == BLACK
    }

    /// The picture with every pixel of `shape` set and all others untouched.
    pub open spec fn inked(self, shape: Set<(int, int)>) -> ImageView {
        ImageView {
            pixels: Seq::new(
                self.pixels.len(),
                |i: int|
                    if shape.contains((i % (self.width as int), i / (self.width as int))) {
                        BLACK
                    } else {
                        self.pixels[i]
                    },
            ),
            ..self
        }
    }

    /// The picture with every pixel reset to the background.
    pub open spec fn cleared(self) -> ImageView {
        ImageView { pixels: Seq::new(self.pixels.len(), |i: int| WHITE), ..self }
    }
}

impl View for Image {
    type V = ImageView;

    open spec fn view(&self) -> ImageView {
        ImageView {
            pixels: self.bytes@,
            width: self.width as nat,
            height: self.height as nat,
            x_offset: self.x_offset as nat,
            y_offset: self.y_offset as nat,
        }
    }
}

impl Image {
    /// There is exactly one colour word per pixel.
    pub open spec fn wf(&self) -> bool {
        self@.wf()
    }

    /// A blank image of the given size, to be shown at the given place.
    pub fn new(width: usize, height: usize, x_offset: usize, y_offset: usize) -> (image: Image)
        requires
            width * height <= usize::MAX,
        ensures
            image.wf(),
            image@ == (ImageView {
                pixels: Seq::new((width * height) as nat, |i: int| WHITE),
                width: width as nat,
                height: height as nat,
                x_offset: x_offset as nat,
                y_offset: y_offset as nat,
            }),
    {
        let image = Image { bytes: vec![WHITE; width * height], width, height, x_offset, y_offset };
        assert(image@.pixels =~= Seq::new((width * height) as nat, |i: int| WHITE));
        image
    }

    /// The working image that a bitmap unpacks to: ink where a bit is set,
    /// paper elsewhere, same size and place.
    pub fn from_bitmap(bitmap: &Bitmap) -> (image: Image)
        ensures
            image@ == (ImageView {
                pixels: unpacked(bitmap.bits@, bitmap.width as int, BLACK, WHITE),
                width: bitmap.width as nat,
                height: bitmap.height as nat,
                x_offset: bitmap.x_offset as nat,
                y_offset: bitmap.y_offset as nat,
            }),
            bitmap.wf() ==> image.wf(),
    {
        proof {
            if bitmap.wf() {
                lemma_unpacked_rows(
                    bitmap.bits@,
                    bitmap.width as int,
                    bitmap.height as int,
                    BLACK,
                    WHITE,
                );
            }
        }
        Image {
            bytes: bits_to_bytes(bitmap.bits, bitmap.width),
            width: bitmap.width,
            height: bitmap.height,
            x_offset: bitmap.x_offset,
            y_offset: bitmap.y_offset,
        }
    }

    /// Resets every pixel to the background.
    pub fn clear(&mut self)
        ensures
            final(self)@ == old(self)@.cleared(),
            old(self).wf() ==> final(self).wf(),
    {
        let n = self.bytes.len();
        let mut i: usize = 0;
        while i < n
            invariant
                n == self.bytes.len(),
                n == old(self).bytes.len(),
                0 <= i <= n,
                self.width == old(self).width,
                self.height == old(self).height,
                self.x_offset == old(self).x_offset,
                self.y_offset == old(self).y_offset,
                forall|k: int| 0 <= k < i ==> self.bytes@[k] == WHITE,
            decreases n - i,
        {
            self.bytes[i] = WHITE;
            i += 1;
        }
        assert(self@.pixels =~= old(self)@.cleared().pixels);
    }

    /// Sets one pixel; does nothing if the point lies outside the image.
    pub fn plot(&mut self, point: (i32, i32))
        requires
            old(self).wf(),
        ensures
            final(self).wf(),
            final(self)@ == old(self)@.inked(set![crate::line::point(point)]),
    {
        self.plot_at(point.0 as i64, point.1 as i64);
    }

    /// Draws a stroke of the given width from `a` to `b`.
    pub fn plot_line_width(&mut self, a: (i32, i32), b: (i32, i32), width: u32)
        requires
            old(self).wf(),
        ensures
            final(self).wf(),
            final(self)@ == old(self)@.inked(stroke(point(a), point(b), width as int)),
    {
        stroke_line(self, a, b, width);
    }

    /// Draws the selected quadrants of an ellipse outline.
    pub fn plot_ellipse(
        &mut self,
        center: (i32, i32),
        radii: (i32, i32),
        quadrants: [bool; 4],
        width: u32,
    )
        requires
            old(self).wf(),
        ensures
            final(self).wf(),
            final(self)@ == old(self)@.inked(
                arc(point(center), point(radii), quadrants@, width as int),
            ),
    {
        stroke_arc(self, center, radii, quadrants, width);
    }
}

impl Surface for Image {
    open spec fn valid(model: ImageView) -> bool {
        model.wf()
    }

    open spec fn extent(model: ImageView) -> (nat, nat) {
        (model.width, model.height)
    }

    open spec fn has_ink(model: ImageView, x: int, y: int) -> bool {
        model.has_ink(x, y)
    }

    open spec fn inked(model: ImageView, shape: Set<(int, int)>) -> ImageView {
        model.inked(shape)
    }

    proof fn lemma_inked_nothing(model: ImageView) {
        assert(model.inked(Set::empty()).pixels =~= model.pixels);
    }

    proof fn lemma_inked_twice(model: ImageView, first: Set<(int, int)>, second: Set<(int, int)>) {
        assert(model.inked(first).inked(second).pixels =~= model.inked(
            first.union(second),
        ).pixels);
    }

    proof fn lemma_inked_ink(model: ImageView, shape: Set<(int, int)>, x: int, y: int) {
        if in_grid(model.width as int, model.height as int, x, y) {
            lemma_cell_index(model.width as int, model.height as int, x, y);
        }
    }

    fn plot_at(&mut self, x: i64, y: i64) {
        if x < 0 || y < 0 {
            proof {
                lemma_plot_outside(self@, x as int, y as int);
            }
            return ;
        }
        if x as u64 >= self.width as u64 || y as u64 >= self.height as u64 {
            proof {
                lemma_plot_outside(self@, x as int, y as int);
            }
            return ;
        }
        proof {
            lemma_cell_index(self.width as int, self.height as int, x as int, y as int);
        }
        assert(0 <= y * self.width <= cell_index(self.width as int, x as int, y as int))
            by (nonlinear_arith)
            requires
                0 <= y,
                0 <= x,
                cell_index(self.width as int, x as int, y as int) == y * self.width + x,
        ;
        assert(self.bytes.len() == self.width * self.height);
        let i = y as usize * self.width + x as usize;
        self.bytes[i] = BLACK;
        proof {
            let want = old(self)@.inked(set![(x as int, y as int)]);
            assert forall|k: int| 0 <= k < want.pixels.len() implies self@.pixels[k]
                == want.pixels[k] by {
                lemma_index_cell(self.width as int, self.height as int, k);
            }
            assert(self@.pixels =~= want.pixels);
        }
    }
}

/// A plot outside the grid leaves the picture as it was.
proof fn lemma_plot_outside(model: ImageView, x: int, y: int)
    requires
        model.wf(),
        !in_grid(model.width as int, model.height as int, x, y),
    ensures
        model.inked(set![(x, y)]) == model,
{
    let after = model.inked(set![(x, y)]);
    assert forall|k: int| 0 <= k < model.pixels.len() implies after.pixels[k]
        == model.pixels[k] by {
        lemma_index_cell(model.width as int, model.height as int, k);
    }
    assert(after.pixels =~= model.pixels);
}

} // verus!
