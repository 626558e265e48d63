//! Packed monochrome bitmaps: one bit per pixel, least significant bit
//! first, row after row, each row padded to a whole number of bytes.

use vstd::prelude::*;
use vstd::arithmetic::div_mod::lemma_fundamental_div_mod_converse;
use crate::bits::{bit_is_set, read_bit};
use crate::color::{BLACK, TRANSPARENT, WHITE};
use crate::grid::{cell_index, in_grid, lemma_cell_index};

verus! {

/// The number of bytes that hold one row of `pixels` pixels.
pub open spec fn bits_width(pixels: int) -> int {
    pixels / 8 + if pixels % 8 > 0 {
        1int
    } else {
        0int
    }
}

/// The number of bytes that hold one row of `i` pixels: `i / 8`, rounded up.
#[inline(always)]
pub fn pixel_width_to_bits_width(i: usize) -> (bytes: usize)
    ensures
        bytes == bits_width(i as int),
        8 * (bytes - 1) < i <= 8 * bytes || (i == 0 && bytes == 0),
{
    i / 8 + if i % 8 > 0 {
        1
    } else {
        0
    }
}

/// An immutable packed picture with the place on the canvas where it
/// belongs.
#[derive(Clone, Copy)]
pub struct Bitmap<'bits> {
    pub bits: &'bits [u8],
    pub width: usize,
    pub height: usize,
    pub x_offset: usize,
    pub y_offset: usize,
}

impl<'bits> Bitmap<'bits> {
    /// The data holds exactly `height` padded rows.
    pub open spec fn wf(&self) -> bool {
        self.bits@.len() == bits_width(self.width as int) * self.height
    }

    /// Whether the data holds exactly `height` padded rows.
    pub fn is_wf(&self) -> (ok: bool)
        ensures
            ok == self.wf(),
    {
        let row = pixel_width_to_bits_width(self.width);
        assert(self.bits.len() == self.bits@.len());
        match row.checked_mul(self.height) {
            Some(n) => n == self.bits.len(),
            None => false,
        }
    }
}

/// How many pixels `count` bytes unpack to, for rows of `width` pixels.
///
/// Whole rows give `width` pixels each; the bytes of a last, unfinished row
/// give eight each. With `width == 0` no row ever ends, and every byte gives
/// eight.
pub open spec fn unpacked_len(count: int, width: int) -> int {
    if width == 0 {
        8 * count
    } else {
        (count / bits_width(width)) * width + 8 * (count % bits_width(width))
    }
}

/// The byte that holds pixel `j` of the unpacked sequence.
pub open spec fn source_byte(j: int, width: int) -> int {
    if width == 0 {
        j / 8
    } else {
        (j / width) * bits_width(width) + (j % width) / 8
    }
}

/// The bit of its byte that holds pixel `j` of the unpacked sequence.
pub open spec fn source_bit(j: int, width: int) -> int {
    if width == 0 {
        j % 8
    } else {
        (j % width) % 8
    }
}

/// The colour of pixel `j` of the unpacked sequence.
pub open spec fn unpacked_pixel(bits: Seq<u8>, width: int, ink: u32, paper: u32, j: int) -> u32 {
    if bit_is_set(bits[source_byte(j, width)], source_bit(j, width)) {
        ink
    } else {
        paper
    }
}

/// The pixels that packed rows of `width` pixels stand for: `ink` where a
/// bit is set, `paper` where it is clear, padding bits left out.
pub open spec fn unpacked(bits: Seq<u8>, width: int, ink: u32, paper: u32) -> Seq<u32> {
    Seq::new(
        unpacked_len(bits.len() as int, width) as nat,
        |j: int| unpacked_pixel(bits, width, ink, paper, j),
    )
}

/// The colour that stands for a clear bit: the background if there is one,
/// else the transparent marker.
pub open spec fn paper_of(bg: Option<u32>) -> u32 {
    match bg {
        Some(c) => c,
        None => TRANSPARENT,
    }
}

/// Where the bytes of byte row `row`, up to column byte `col`, stand in the
/// packed data and in the unpacked pixels.
proof fn lemma_unpack_position(width: int, row: int, col: int, n: int)
    requires
        0 <= width,
        0 <= row,
        0 <= col,
        0 <= n < 8,
        width == 0 ==> row == 0,
        width > 0 ==> col < bits_width(width) && 8 * col + n < width,
    ensures
        ({
            let j = row * width + 8 * col + n;
            let k = row * bits_width(width) + col;
            source_byte(j, width) == k && source_bit(j, width) == n
        }),
{
    let j = row * width + 8 * col + n;
    if width > 0 {
        lemma_fundamental_div_mod_converse(j, width, row, 8 * col + n);
    } else {
        assert(row * width == 0) by (nonlinear_arith)
            requires
                width == 0,
        ;
        assert(row * bits_width(width) == 0) by (nonlinear_arith)
            requires
                row == 0,
        ;
    }
}

/// The length that `row` whole rows and `col` further bytes unpack to.
proof fn lemma_unpack_count(width: int, row: int, col: int)
    requires
        0 <= width,
        0 <= row,
        0 <= col,
        width == 0 ==> row == 0,
        width > 0 ==> col < bits_width(width),
    ensures
        unpacked_len(row * bits_width(width) + col, width) == row * width + 8 * col,
{
    if width > 0 {
        lemma_fundamental_div_mod_converse(
            row * bits_width(width) + col,
            bits_width(width),
            row,
            col,
        );
    } else {
        assert(row * bits_width(width) == 0 && row * width == 0) by (nonlinear_arith)
            requires
                row == 0,
        ;
    }
}

/// Unpacks bit-packed rows of `width` pixels into one colour per pixel.
///
/// The bytes are read in order, each from its least significant bit up. A
/// row ends after `width` pixels; what is left of its last byte is padding
/// and is skipped.
pub fn unpack(bits: &[u8], width: usize, ink: u32, paper: u32) -> (pixels: Vec<u32>)
    ensures
        pixels@ == unpacked(bits@, width as int, ink, paper),
{
    let mut ret: Vec<u32> = Vec::new();
    let mut current_row_count: usize = 0;
    let ghost w = width as int;
    let ghost mut row: int = 0;
    let ghost mut col: int = 0;
    let mut k: usize = 0;
    proof {
        assert(row * bits_width(w) + col == 0 && row * w == 0) by (nonlinear_arith)
            requires
                row == 0,
                col == 0,
        ;
    }
    while k < bits.len()
        invariant
            w == width as int,
            0 <= k <= bits.len(),
            0 <= row,
            0 <= col,
            w == 0 ==> row == 0,
            w > 0 ==> col < bits_width(w),
            k == row * bits_width(w) + col,
            current_row_count == 8 * col,
            ret@.len() == row * w + 8 * col,
            forall|j: int| 0 <= j < ret@.len() ==> ret@[j] == unpacked_pixel(bits@, w, ink, paper, j),
        decreases bits.len() - k,
    {
        let byte = bits[k];
        let mut n: usize = 0;
        let mut row_ended = false;
        while n < 8 && !row_ended
            invariant
                w == width as int,
                0 <= k < bits.len(),
                byte == bits@[k as int],
                0 <= row,
                0 <= col,
                w == 0 ==> row == 0,
                w > 0 ==> col < bits_width(w),
                k == row * bits_width(w) + col,
                0 <= n <= 8,
                !row_ended ==> current_row_count == 8 * col + n,
                !row_ended ==> (w > 0 ==> 8 * col + n < w),
                row_ended ==> current_row_count == 0 && 8 * col + n == w && w > 0,
                ret@.len() == row * w + 8 * col + n,
                forall|j: int|
                    0 <= j < ret@.len() ==> ret@[j] == unpacked_pixel(bits@, w, ink, paper, j),
            decreases 8 - n + (if row_ended { 0int } else { 1int }),
        {
            proof {
                lemma_unpack_position(w, row, col, n as int);
                assert(0 <= row * w) by (nonlinear_arith)
                    requires
                        0 <= row,
                        0 <= w,
                ;
            }
            if read_bit(byte, n) {
                ret.push(ink);
            } else {
                ret.push(paper);
            }
            assert(ret.len() == row * w + 8 * col + n + 1);
            current_row_count += 1;
            n += 1;
            if current_row_count == width {
                current_row_count = 0;
                row_ended = true;
            }
        }
        proof {
            if row_ended {
                assert((row + 1) * w == row * w + w && (row + 1) * bits_width(w) == row
                    * bits_width(w) + bits_width(w)) by (nonlinear_arith);
                row = row + 1;
                col = 0;
            } else {
                col = col + 1;
            }
        }
        k += 1;
    }
    proof {
        lemma_unpack_count(w, row, col);
        assert(ret@ =~= unpacked(bits@, w, ink, paper));
    }
    ret
}

/// Unpacks bit-packed rows of `width` pixels into ink on paper: [`BLACK`]
/// for a set bit, [`WHITE`] for a clear one.
pub fn bits_to_bytes(bits: &[u8], width: usize) -> (pixels: Vec<u32>)
    ensures
        pixels@ == unpacked(bits@, width as int, BLACK, WHITE),
{
    unpack(bits, width, BLACK, WHITE)
}

/// Whether the bit of pixel `(x, y)` is set in packed rows of `width`
/// pixels.
pub open spec fn bitmap_pixel(bits: Seq<u8>, width: int, x: int, y: int) -> bool {
    bit_is_set(bits[y * bits_width(width) + x / 8], x % 8)
}

/// Packed data of exactly `height` padded rows unpacks to `width * height`
/// pixels, and pixel `(x, y)` takes its colour from bit `x % 8` of byte
/// `x / 8` of row `y`.
pub proof fn lemma_unpacked_rows(bits: Seq<u8>, width: int, height: int, ink: u32, paper: u32)
    requires
        0 <= width,
        0 <= height,
        bits.len() == bits_width(width) * height,
    ensures
        unpacked(bits, width, ink, paper).len() == width * height,
        forall|x: int, y: int|
            in_grid(width, height, x, y) ==> #[trigger] unpacked(bits, width, ink, paper)[cell_index(
                width,
                x,
                y,
            )] == (if bitmap_pixel(bits, width, x, y) {
                ink
            } else {
                paper
            }),
{
    let row = bits_width(width);
    assert(row * height == height * row && width * height == height * width) by (nonlinear_arith);
    lemma_unpack_count(width, if width == 0 { 0 } else { height }, 0);
    if width == 0 {
        assert(row * height == 0 && width * height == 0) by (nonlinear_arith)
            requires
                row == 0,
                width == 0,
        ;
    }
    assert forall|x: int, y: int| in_grid(width, height, x, y) implies #[trigger] unpacked(
        bits,
        width,
        ink,
        paper,
    )[cell_index(width, x, y)] == (if bitmap_pixel(bits, width, x, y) {
        ink
    } else {
        paper
    }) by {
        lemma_cell_index(width, height, x, y);
    }
}

/// A single byte with one bit set, read as a row of eight pixels, has ink
/// at the position of that bit, counted from the least significant one, and
/// paper everywhere else.
pub proof fn lemma_single_bit(n: u8, ink: u32, paper: u32)
    requires
        n < 8,
    ensures
        unpacked(seq![1u8 << n], 8, ink, paper) == Seq::new(
            8,
            |j: int|
                if j == n {
                    ink
                } else {
                    paper
                },
        ),
{
    let bits = seq![1u8 << n];
    let want = Seq::new(
        8,
        |j: int|
            if j == n {
                ink
            } else {
                paper
            },
    );
    assert forall|j: int| 0 <= j < 8 implies unpacked(bits, 8, ink, paper)[j] == want[j] by {
        let k: u8 = j as u8;
        assert(((1u8 << n) & (1u8 << k) != 0) == (k == n)) by (bit_vector)
            requires
                n < 8,
                k < 8,
        ;
    }
    assert(unpacked(bits, 8, ink, paper) =~= want);
}

/// Decodes a bitmap into one colour per pixel, row after row: `fg` where
/// the bit is set, else `bg` if there is one, else [`TRANSPARENT`].
pub fn decode(bitmap: &Bitmap, fg: u32, bg: Option<u32>) -> (pixels: Vec<u32>)
    requires
        bitmap.wf(),
    ensures
        pixels@ == unpacked(bitmap.bits@, bitmap.width as int, fg, paper_of(bg)),
        pixels@.len() == bitmap.width * bitmap.height,
        forall|x: int, y: int|
            in_grid(bitmap.width as int, bitmap.height as int, x, y) ==> #[trigger] pixels@[cell_index(
                bitmap.width as int,
                x,
                y,
            )] == (if bitmap_pixel(bitmap.bits@, bitmap.width as int, x, y) {
                fg
            } else {
                paper_of(bg)
            }),
{
    let paper = match bg {
        Some(c) => c,
        None => TRANSPARENT,
    };
    proof {
        lemma_unpacked_rows(
            bitmap.bits@,
            bitmap.width as int,
            bitmap.height as int,
            fg,
            paper,
        );
    }
    unpack(bitmap.bits, bitmap.width, fg, paper)
}

} // verus!
