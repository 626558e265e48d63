//! The canvas: the flat array of colours that is shown, and how a working
//! image is laid onto it.

use vstd::prelude::*;
use vstd::arithmetic::div_mod::{lemma_fundamental_div_mod, lemma_fundamental_div_mod_converse, lemma_mod_bound};
use crate::color::BLACK;
use crate::grid::{cell_index, in_grid, lemma_cell_index};
use crate::image::{Image, ImageView};

verus! {

/// The picture that is handed to the display, row after row.
pub struct Canvas {
    pub pixels: Vec<u32>,
    pub width: usize,
    pub height: usize,
}

impl Canvas {
    /// There is exactly one colour per pixel.
    pub open spec fn wf(&self) -> bool {
        self.pixels@.len() == self.width * self.height
    }

    /// A canvas of one colour.
    pub fn new(width: usize, height: usize, color: u32) -> (canvas: Canvas)
        requires
            width * height <= usize::MAX,
        ensures
            canvas.wf(),
            canvas.width == width,
            canvas.height == height,
            forall|k: int| 0 <= k < canvas.pixels@.len() ==> canvas.pixels@[k] == color,
    {
        Canvas { pixels: vec![color; width * height], width, height }
    }
}

/// The column of the image that lands on canvas position `k`.
pub open spec fn source_x(canvas_width: int, image: ImageView, k: int) -> int {
    k % canvas_width - image.x_offset
}

/// The row of the image that lands on canvas position `k`.
pub open spec fn source_y(canvas_width: int, image: ImageView, k: int) -> int {
    k / canvas_width - image.y_offset
}

/// Whether a pixel of the image lands on canvas position `k`. A pixel that
/// would fall beyond the right edge of the canvas lands nowhere.
pub open spec fn lands(canvas_width: int, image: ImageView, k: int) -> bool {
    canvas_width > 0 && in_grid(
        image.width as int,
        image.height as int,
        source_x(canvas_width, image, k),
        source_y(canvas_width, image, k),
    )
}

/// Whether a set pixel of the image lands on canvas position `k`.
pub open spec fn lands_ink(canvas_width: int, image: ImageView, k: int) -> bool {
    lands(canvas_width, image, k) && image.has_ink(
        source_x(canvas_width, image, k),
        source_y(canvas_width, image, k),
    )
}

/// The colour that an image pixel leaves on the canvas: `fg` for a set
/// pixel; for a clear one `bg` if there is one, else what was there.
pub open spec fn painted(pixel: u32, under: u32, fg: u32, bg: Option<u32>) -> u32 {
    if pixel == BLACK {
        fg
    } else {
        match bg {
            Some(c) => c,
            None => under,
        }
    }
}

/// The canvas after the image rows above `rows`, and the first `cols` pixels
/// of row `rows`, have been laid onto it.
pub open spec fn composited_upto(
    canvas: Seq<u32>,
    canvas_width: int,
    image: ImageView,
    fg: u32,
    bg: Option<u32>,
    rows: int,
    cols: int,
) -> Seq<u32> {
    Seq::new(
        canvas.len(),
        |k: int|
            {
                let x = source_x(canvas_width, image, k);
                let y = source_y(canvas_width, image, k);
                if lands(canvas_width, image, k) && (y < rows || (y == rows && x < cols)) {
                    painted(image.pixels[cell_index(image.width as int, x, y)], canvas[k], fg, bg)
                } else {
                    canvas[k]
                }
            },
    )
}

/// The canvas after the whole image has been laid onto it at its offset.
pub open spec fn composited(
    canvas: Seq<u32>,
    canvas_width: int,
    image: ImageView,
    fg: u32,
    bg: Option<u32>,
) -> Seq<u32> {
    composited_upto(canvas, canvas_width, image, fg, bg, image.height as int, 0)
}

/// Without a background colour, laying an image onto the canvas changes
/// only the positions where a set pixel lands.
pub proof fn lemma_composite_transparent(
    canvas: Seq<u32>,
    canvas_width: int,
    image: ImageView,
    fg: u32,
    k: int,
)
    requires
        image.wf(),
        0 <= k < canvas.len(),
        !lands_ink(canvas_width, image, k),
    ensures
        composited(canvas, canvas_width, image, fg, None)[k] == canvas[k],
{
    if lands(canvas_width, image, k) {
        lemma_cell_index(
            image.width as int,
            image.height as int,
            source_x(canvas_width, image, k),
            source_y(canvas_width, image, k),
        );
    }
}

/// A canvas position below the canvas width times a row count splits into
/// its row and column.
proof fn lemma_row_col(canvas_width: int, k: int)
    requires
        canvas_width > 0,
        0 <= k,
    ensures
        0 <= k % canvas_width < canvas_width,
        0 <= k / canvas_width,
        k == (k / canvas_width) * canvas_width + k % canvas_width,
{
    lemma_fundamental_div_mod(k, canvas_width);
    lemma_mod_bound(k, canvas_width);
    let q = k / canvas_width;
    assert(canvas_width * q == q * canvas_width) by (nonlinear_arith);
    assert(q >= 0) by (nonlinear_arith)
        requires
            k == q * canvas_width + k % canvas_width,
            0 <= k % canvas_width < canvas_width,
            0 <= k,
            canvas_width > 0,
    ;
}

impl Image {
    /// Lays the image onto the canvas at its offset.
    ///
    /// A set pixel is written as `fg`. A clear pixel is written as `bg` if
    /// there is one, and left alone if not. A row stops at the right edge of
    /// the canvas, and pixels below its end are skipped.
    pub fn draw(&self, canvas: &mut Canvas, fg: u32, bg: Option<u32>)
        requires
            self.wf(),
        ensures
            final(canvas).width == old(canvas).width,
            final(canvas).height == old(canvas).height,
            final(canvas).pixels@ == composited(
                old(canvas).pixels@,
                old(canvas).width as int,
                self@,
                fg,
                bg,
            ),
            final(canvas).pixels@.len() == old(canvas).pixels@.len(),
            bg is None ==> forall|k: int|
                0 <= k < old(canvas).pixels@.len() && !lands_ink(old(canvas).width as int, self@, k)
                    ==> final(canvas).pixels@[k] == old(canvas).pixels@[k],
    {
        let ghost start = canvas.pixels@;
        let ghost cw = canvas.width as int;
        let ghost img = self@;
        let width = canvas.width;
        let len = canvas.pixels.len();
        let room = if self.x_offset < width {
            width - self.x_offset
        } else {
            0
        };
        let visible = if self.width < room {
            self.width
        } else {
            room
        };
        let mut cy: usize = 0;
        proof {
            assert(canvas.pixels@ =~= composited_upto(start, cw, img, fg, bg, 0, 0));
        }
        while cy < self.height
            invariant
                self.wf(),
                img == self@,
                cw == canvas.width as int,
                width == canvas.width,
                canvas.width == old(canvas).width,
                canvas.height == old(canvas).height,
                len == canvas.pixels.len(),
                len == start.len(),
                visible <= self.width,
                visible == 0 || self.x_offset + visible <= cw,
                visible < self.width ==> self.x_offset + visible >= cw,
                0 <= cy <= self.height,
                canvas.pixels@ == composited_upto(start, cw, img, fg, bg, cy as int, 0),
            decreases self.height - cy,
        {
            let mut cx: usize = 0;
            while cx < visible
                invariant
                    self.wf(),
                    img == self@,
                    cw == canvas.width as int,
                    width == canvas.width,
                    canvas.width == old(canvas).width,
                    canvas.height == old(canvas).height,
                    len == canvas.pixels.len(),
                    len == start.len(),
                    visible <= self.width,
                    visible == 0 || self.x_offset + visible <= cw,
                    visible < self.width ==> self.x_offset + visible >= cw,
                    0 <= cy < self.height,
                    0 <= cx <= visible,
                    canvas.pixels@ == composited_upto(start, cw, img, fg, bg, cy as int, cx as int),
                decreases visible - cx,
            {
                let ghost before = canvas.pixels@;
                let ghost target = (self.y_offset + cy) * cw + self.x_offset + cx;
                let tx = self.x_offset + cx;
                let mut slot: Option<usize> = None;
                match self.y_offset.checked_add(cy) {
                    Some(ty) => {
                        match ty.checked_mul(width) {
                            Some(base) => {
                                match base.checked_add(tx) {
                                    Some(k) => {
                                        if k < len {
                                            slot = Some(k);
                                        }
                                    },
                                    None => {},
                                }
                            },
                            None => {},
                        }
                    },
                    None => {},
                }
                proof {
                    assert(0 <= (self.y_offset + cy) * cw) by (nonlinear_arith)
                        requires
                            0 <= self.y_offset + cy,
                            0 <= cw,
                    ;
                    assert(cw > 0);
                    assert((self.y_offset + cy) * cw >= self.y_offset + cy) by (nonlinear_arith)
                        requires
                            0 <= self.y_offset + cy,
                            1 <= cw,
                    ;
                    assert(slot matches Some(k) ==> k == target);
                    assert(slot is None ==> target >= len);
                    assert(self.bytes.len() == self.width * self.height);
                    assert(0 <= cy * self.width) by (nonlinear_arith)
                        requires
                            0 <= cy,
                            0 <= self.width,
                    ;
                    lemma_cell_index(
                        img.width as int,
                        img.height as int,
                        cx as int,
                        cy as int,
                    );
                    lemma_fundamental_div_mod_converse(
                        target,
                        cw,
                        self.y_offset + cy,
                        self.x_offset + cx,
                    );
                }
                match slot {
                    Some(k) => {
                        let pixel = self.bytes[cy * self.width + cx];
                        if pixel == BLACK {
                            canvas.pixels[k] = fg;
                        } else {
                            match bg {
                                Some(c) => {
                                    canvas.pixels[k] = c;
                                },
                                None => {},
                            }
                        }
                    },
                    None => {},
                }
                proof {
                    let want = composited_upto(start, cw, img, fg, bg, cy as int, cx + 1);
                    assert forall|k: int| 0 <= k < len implies canvas.pixels@[k] == want[k] by {
                        lemma_row_col(cw, k);
                    }
                    assert(canvas.pixels@ =~= want);
                }
                cx += 1;
            }
            proof {
                let want = composited_upto(start, cw, img, fg, bg, cy + 1, 0);
                assert forall|k: int| 0 <= k < len implies canvas.pixels@[k] == want[k] by {
                    if cw > 0 {
                        lemma_row_col(cw, k);
                    }
                }
                assert(canvas.pixels@ =~= want);
            }
            cy += 1;
        }
        proof {
            if bg is None {
                assert forall|k: int|
                    0 <= k < start.len() && !lands_ink(cw, img, k) implies canvas.pixels@[k]
                    == start[k] by {
                    lemma_composite_transparent(start, cw, img, fg, k);
                }
            }
        }
    }
}

} // verus!
