//! Packed working buffers: one bit per pixel, laid out like a bitmap, but
//! open to drawing.

use vstd::prelude::*;
use vstd::arithmetic::div_mod::{lemma_fundamental_div_mod, lemma_fundamental_div_mod_converse};
use crate::bitmap::{
    bitmap_pixel, bits_to_bytes, bits_width, lemma_unpacked_rows, pixel_width_to_bits_width,
    unpacked,
};
use crate::color::{BLACK, WHITE};
use crate::grid::{cell_index, lemma_index_cell};
use crate::image::{Image, ImageView};
use crate::bits::{bit_is_set, byte_with, lemma_byte_with, lemma_same_bits, set_bit};
use crate::grid::in_grid;
use crate::surface::Surface;

verus! {

/// A mutable packed picture: rows of `row_width` pixels, each padded to a
/// whole number of bytes, bit 0 of a byte being its leftmost pixel.
pub struct Buffer {
    pub vec: Vec<u8>,
    pub row_width: usize,
    pub height: usize,
}

/// The mathematical content of a [`Buffer`].
pub struct BufferView {
    pub bits: Seq<u8>,
    pub row_width: nat,
    pub height: nat,
}

/// Whether bit `n` of byte `i` stands for a pixel of `shape`. Padding bits
/// stand for no pixel.
pub open spec fn covers(shape: Set<(int, int)>, row_width: int, i: int, n: int) -> bool {
    let row = bits_width(row_width);
    let x = 8 * (i % row) + n;
    x < row_width && shape.contains((x, i / row))
}

impl BufferView {
    /// The data holds exactly `height` padded rows.
    pub open spec fn wf(self) -> bool {
        self.bits.len() == bits_width(self.row_width as int) * self.height
    }

    /// Whether `(x, y)` is set.
    pub open spec fn has_ink(self, x: int, y: int) -> bool {
        in_grid(self.row_width as int, self.height as int, x, y) && bitmap_pixel(
            self.bits,
            self.row_width as int,
            x,
            y,
        )
    }

    /// The picture with every pixel of `shape` set and all other bits
    /// untouched.
    pub open spec fn inked(self, shape: Set<(int, int)>) -> BufferView {
        BufferView {
            bits: Seq::new(
                self.bits.len(),
                |i: int|
                    byte_with(
                        |n: int|
                            bit_is_set(self.bits[i], n) || covers(
                                shape,
                                self.row_width as int,
                                i,
                                n,
                            ),
                    ),
            ),
            ..self
        }
    }
}

impl View for Buffer {
    type V = BufferView;

    open spec fn view(&self) -> BufferView {
        BufferView {
            bits: self.vec@,
            row_width: self.row_width as nat,
            height: self.height as nat,
        }
    }
}

impl BufferView {
    /// The working image that the buffer unpacks to, to be shown at the
    /// given place.
    pub open spec fn unpacked_at(self, x_offset: nat, y_offset: nat) -> ImageView {
        ImageView {
            pixels: unpacked(self.bits, self.row_width as int, BLACK, WHITE),
            width: self.row_width,
            height: self.height,
            x_offset,
            y_offset,
        }
    }
}

impl Buffer {
    /// The data holds exactly `height` padded rows.
    pub open spec fn wf(&self) -> bool {
        self@.wf()
    }

    /// A buffer with no pixel set.
    pub fn new(row_width: usize, height: usize) -> (buffer: Buffer)
        requires
            bits_width(row_width as int) * height <= usize::MAX,
        ensures
            buffer.wf(),
            buffer.row_width == row_width,
            buffer.height == height,
            forall|i: int| 0 <= i < buffer.vec@.len() ==> buffer.vec@[i] == 0,
    {
        let row = pixel_width_to_bits_width(row_width);
        Buffer { vec: vec![0u8; row * height], row_width, height }
    }

    /// Unpacks the buffer into a working image, to be shown at the given
    /// place: ink where a bit is set, paper elsewhere.
    pub fn to_image(&self, x_offset: usize, y_offset: usize) -> (image: Image)
        ensures
            image@ == self@.unpacked_at(x_offset as nat, y_offset as nat),
            self.wf() ==> image.wf(),
    {
        proof {
            if self.wf() {
                lemma_unpacked_rows(self.vec@, self.row_width as int, self.height as int, BLACK, WHITE);
            }
        }
        Image {
            bytes: bits_to_bytes(self.vec.as_slice(), self.row_width),
            width: self.row_width,
            height: self.height,
            x_offset,
            y_offset,
        }
    }
}

/// Drawing on a packed buffer and then unpacking it gives the same picture
/// as unpacking it first and drawing on the image.
pub proof fn lemma_unpack_inked(model: BufferView, shape: Set<(int, int)>, x_offset: nat, y_offset: nat)
    requires
        model.wf(),
    ensures
        model.inked(shape).unpacked_at(x_offset, y_offset) == model.unpacked_at(
            x_offset,
            y_offset,
        ).inked(shape),
{
    let w = model.row_width as int;
    let h = model.height as int;
    let after = model.inked(shape);
    let left = after.unpacked_at(x_offset, y_offset);
    let right = model.unpacked_at(x_offset, y_offset).inked(shape);
    lemma_unpacked_rows(model.bits, w, h, BLACK, WHITE);
    lemma_unpacked_rows(after.bits, w, h, BLACK, WHITE);
    assert forall|j: int| 0 <= j < w * h implies left.pixels[j] == right.pixels[j] by {
        lemma_index_cell(w, h, j);
        let x = j % w;
        let y = j / w;
        assert(cell_index(w, x, y) == j);
        lemma_cell_byte(model, x, y);
        let i = y * bits_width(w) + x / 8;
        lemma_byte_with(|n: int| bit_is_set(model.bits[i], n) || covers(shape, w, i, n), x % 8);
    }
    assert(left.pixels =~= right.pixels);
}

/// Byte `i` of a valid buffer lies in one row, and its bit `n` either is
/// padding or stands for one pixel of the grid, which leads back to `i` and
/// `n`.
pub proof fn lemma_byte_cell(model: BufferView, i: int, n: int)
    requires
        model.wf(),
        0 <= i < model.bits.len(),
        0 <= n < 8,
    ensures
        ({
            let row = bits_width(model.row_width as int);
            let x = 8 * (i % row) + n;
            let y = i / row;
            &&& row > 0
            &&& 0 <= i % row < row
            &&& 0 <= y < model.height
            &&& i == y * row + i % row
            &&& x < model.row_width ==> (in_grid(model.row_width as int, model.height as int, x, y)
                && y * row + x / 8 == i && x % 8 == n)
        }),
{
    let row = bits_width(model.row_width as int);
    let height = model.height as int;
    assert(row > 0) by (nonlinear_arith)
        requires
            0 <= i < row * height,
            0 <= row,
    ;
    lemma_fundamental_div_mod(i, row);
    let q = i / row;
    let r = i % row;
    assert(row * q == q * row) by (nonlinear_arith);
    assert(0 <= q < height) by (nonlinear_arith)
        requires
            i == q * row + r,
            0 <= r < row,
            0 <= i < row * height,
    ;
}

/// Pixel `(x, y)` of the grid of a valid buffer lives in bit `x % 8` of byte
/// `y * row + x / 8`.
pub proof fn lemma_cell_byte(model: BufferView, x: int, y: int)
    requires
        model.wf(),
        in_grid(model.row_width as int, model.height as int, x, y),
    ensures
        ({
            let row = bits_width(model.row_width as int);
            let i = y * row + x / 8;
            &&& 0 <= x / 8 < row
            &&& 0 <= i < model.bits.len()
            &&& i % row == x / 8
            &&& i / row == y
        }),
{
    let row = bits_width(model.row_width as int);
    let height = model.height as int;
    let i = y * row + x / 8;
    assert(0 <= y * row && (y + 1) * row <= height * row) by (nonlinear_arith)
        requires
            0 <= y < height,
            0 < row,
    ;
    assert((y + 1) * row == y * row + row && height * row == row * height) by (nonlinear_arith);
    lemma_fundamental_div_mod_converse(i, row, y, x / 8);
}

impl Surface for Buffer {
    open spec fn valid(model: BufferView) -> bool {
        model.wf()
    }

    open spec fn extent(model: BufferView) -> (nat, nat) {
        (model.row_width, model.height)
    }

    open spec fn has_ink(model: BufferView, x: int, y: int) -> bool {
        model.has_ink(x, y)
    }

    open spec fn inked(model: BufferView, shape: Set<(int, int)>) -> BufferView {
        model.inked(shape)
    }

    proof fn lemma_inked_nothing(model: BufferView) {
        let after = model.inked(Set::empty());
        assert forall|i: int| 0 <= i < model.bits.len() implies after.bits[i] == model.bits[i] by {
            assert forall|n: int| 0 <= n < 8 implies bit_is_set(after.bits[i], n) == bit_is_set(
                model.bits[i],
                n,
            ) by {
                lemma_byte_with(
                    |n: int|
                        bit_is_set(model.bits[i], n) || covers(
                            Set::empty(),
                            model.row_width as int,
                            i,
                            n,
                        ),
                    n,
                );
            }
            lemma_same_bits(after.bits[i], model.bits[i]);
        }
        assert(after.bits =~= model.bits);
    }

    proof fn lemma_inked_twice(model: BufferView, first: Set<(int, int)>, second: Set<(int, int)>) {
        let once = model.inked(first);
        let twice = once.inked(second);
        let both = model.inked(first.union(second));
        let w = model.row_width as int;
        assert forall|i: int| 0 <= i < model.bits.len() implies twice.bits[i] == both.bits[i] by {
            assert forall|n: int| 0 <= n < 8 implies bit_is_set(twice.bits[i], n) == bit_is_set(
                both.bits[i],
                n,
            ) by {
                lemma_byte_with(|n: int| bit_is_set(model.bits[i], n) || covers(first, w, i, n), n);
                lemma_byte_with(|n: int| bit_is_set(once.bits[i], n) || covers(second, w, i, n), n);
                lemma_byte_with(
                    |n: int| bit_is_set(model.bits[i], n) || covers(first.union(second), w, i, n),
                    n,
                );
            }
            lemma_same_bits(twice.bits[i], both.bits[i]);
        }
        assert(twice.bits =~= both.bits);
    }

    proof fn lemma_inked_ink(model: BufferView, shape: Set<(int, int)>, x: int, y: int) {
        if in_grid(model.row_width as int, model.height as int, x, y) {
            lemma_cell_byte(model, x, y);
            let i = y * bits_width(model.row_width as int) + x / 8;
            lemma_byte_with(
                |n: int|
                    bit_is_set(model.bits[i], n) || covers(shape, model.row_width as int, i, n),
                x % 8,
            );
        }
    }

    fn plot_at(&mut self, x: i64, y: i64) {
        let ghost before = self@;
        let ghost dot = set![(x as int, y as int)];
        let ghost want = before.inked(dot);
        let ghost w = self.row_width as int;
        if x < 0 || y < 0 || x as u64 >= self.row_width as u64 || y as u64 >= self.height as u64 {
            proof {
                assert forall|i: int| 0 <= i < before.bits.len() implies want.bits[i]
                    == before.bits[i] by {
                    assert forall|n: int| 0 <= n < 8 implies bit_is_set(want.bits[i], n)
                        == bit_is_set(before.bits[i], n) by {
                        lemma_byte_with(
                            |n: int| bit_is_set(before.bits[i], n) || covers(dot, w, i, n),
                            n,
                        );
                        lemma_byte_cell(before, i, n);
                    }
                    lemma_same_bits(want.bits[i], before.bits[i]);
                }
                assert(want.bits =~= before.bits);
            }
            return ;
        }
        let row = pixel_width_to_bits_width(self.row_width);
        proof {
            lemma_cell_byte(before, x as int, y as int);
            assert(self.vec.len() == before.bits.len());
            assert(0 <= y * row) by (nonlinear_arith)
                requires
                    0 <= y,
                    0 <= row,
            ;
        }
        let i = y as usize * row + (x as usize) / 8;
        let raised = set_bit(self.vec[i], (x as usize) % 8);
        self.vec[i] = raised;
        proof {
            assert forall|k: int| 0 <= k < want.bits.len() implies self@.bits[k]
                == want.bits[k] by {
                assert forall|n: int| 0 <= n < 8 implies bit_is_set(self@.bits[k], n)
                    == bit_is_set(want.bits[k], n) by {
                    lemma_byte_with(
                        |n: int| bit_is_set(before.bits[k], n) || covers(dot, w, k, n),
                        n,
                    );
                    lemma_byte_cell(before, k, n);
                }
                lemma_same_bits(self@.bits[k], want.bits[k]);
            }
            assert(self@.bits =~= want.bits);
        }
    }
}

} // verus!
