//! The shifting eyes: two pupils, each the outline of a slice of a sphere.

use vstd::prelude::*;
use crate::color::WHITE;
use crate::image::{Image, ImageView};
use crate::polyline::{points_of, polyline, stroke_polyline};
use crate::surface::Surface;

verus! {

/// Width of the picture that holds both pupils.
pub const EYES_WIDTH: usize = 60;

/// Height of the picture that holds both pupils.
pub const EYES_HEIGHT: usize = 30;

/// Where the picture of the pupils belongs on the canvas.
pub const EYES_OFFSET_X: usize = 47;

pub const EYES_OFFSET_Y: usize = 30;

/// How far the second pupil lies to the right of the first.
pub const EYE_SHIFT: i32 = 31;

/// The pen width of a pupil outline.
pub const EYE_PEN: u32 = 1;

/// The points moved `dx` pixels to the right.
pub open spec fn shifted(points: Seq<(int, int)>, dx: int) -> Seq<(int, int)> {
    Seq::new(points.len(), |i: int| (points[i].0 + dx, points[i].1))
}

/// The pixels of both pupils: the outline, and the outline again further
/// right.
pub open spec fn eyes_shape(outline: Seq<(int, int)>) -> Set<(int, int)> {
    polyline(outline, EYE_PEN as int).union(
        polyline(shifted(outline, EYE_SHIFT as int), EYE_PEN as int),
    )
}

/// The outline moved to where the second pupil lies.
pub fn second_pupil(outline: &[(i32, i32)]) -> (moved: Vec<(i32, i32)>)
    requires
        forall|i: int| 0 <= i < outline@.len() ==> outline@[i].0 + EYE_SHIFT <= i32::MAX,
    ensures
        points_of(moved@) == shifted(points_of(outline@), EYE_SHIFT as int),
{
    let mut moved: Vec<(i32, i32)> = Vec::new();
    let mut j: usize = 0;
    while j < outline.len()
        invariant
            0 <= j <= outline@.len(),
            moved@.len() == j,
            forall|i: int| 0 <= i < outline@.len() ==> outline@[i].0 + EYE_SHIFT <= i32::MAX,
            forall|i: int|
                0 <= i < j ==> moved@[i] == ((outline@[i].0 + EYE_SHIFT) as i32, outline@[i].1),
        decreases outline@.len() - j,
    {
        let p = outline[j];
        moved.push((p.0 + EYE_SHIFT, p.1));
        j += 1;
    }
    assert(points_of(moved@) =~= shifted(points_of(outline@), EYE_SHIFT as int));
    moved
}

/// Draws both pupils from the outline of the first.
pub fn draw_eyes<S: Surface>(surface: &mut S, outline: &[(i32, i32)])
    requires
        S::valid(old(surface)@),
        forall|i: int| 0 <= i < outline@.len() ==> outline@[i].0 + EYE_SHIFT <= i32::MAX,
    ensures
        S::valid(final(surface)@),
        final(surface)@ == S::inked(old(surface)@, eyes_shape(points_of(outline@))),
{
    let ghost start = surface@;
    stroke_polyline(surface, outline, EYE_PEN);
    let moved = second_pupil(outline);
    stroke_polyline(surface, moved.as_slice(), EYE_PEN);
    proof {
        S::lemma_inked_twice(
            start,
            polyline(points_of(outline@), EYE_PEN as int),
            polyline(points_of(moved@), EYE_PEN as int),
        );
    }
}

/// The picture of the pupils for one outline, on paper of its own.
pub fn create_eye_pixmap(outline: &[(i32, i32)]) -> (image: Image)
    requires
        forall|i: int| 0 <= i < outline@.len() ==> outline@[i].0 + EYE_SHIFT <= i32::MAX,
    ensures
        image.wf(),
        image@ == (ImageView {
            pixels: Seq::new((EYES_WIDTH * EYES_HEIGHT) as nat, |i: int| WHITE),
            width: EYES_WIDTH as nat,
            height: EYES_HEIGHT as nat,
            x_offset: EYES_OFFSET_X as nat,
            y_offset: EYES_OFFSET_Y as nat,
        }).inked(eyes_shape(points_of(outline@))),
{
    let mut ret = Image::new(EYES_WIDTH, EYES_HEIGHT, EYES_OFFSET_X, EYES_OFFSET_Y);
    draw_eyes(&mut ret, outline);
    ret
}

} // verus!
