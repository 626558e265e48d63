//! The swinging tail: strokes along its skeleton and a rounded tip.

use vstd::prelude::*;
use vstd::slice::slice_to_vec;
use crate::bitmap::{bits_to_bytes, lemma_unpacked_rows, unpacked, Bitmap};
use crate::buffer::{lemma_unpack_inked, Buffer, BufferView};
use crate::color::{BLACK, WHITE};
use crate::image::{Image, ImageView};
use crate::ellipse::{arc, stroke_arc};
use crate::line::point;
use crate::polyline::{points_of, polyline, stroke_polyline};
use crate::surface::Surface;

verus! {

/// How many tail pictures one swing from side to side is sampled into.
pub const NUM_TAILS: usize = 10;

/// How many control points the skeleton of the tail has.
pub const N_TAIL_PTS: usize = 7;

/// The pen width of the tail.
pub const TAIL_PEN: u32 = 15;

/// Where the root of the tail lies in its picture.
pub const TAIL_OFFSET: (i32, i32) = (72, 0);

/// The skeleton of the tail at rest, hanging straight down from its root
/// and hooked at the tip.
pub fn center_tail() -> (skeleton: [(i32, i32); 7])
    ensures
        skeleton@ == seq![
            (0i32, 0i32),
            (0i32, 76i32),
            (3i32, 82i32),
            (10i32, 84i32),
            (18i32, 82i32),
            (21i32, 76i32),
            (21i32, 70i32),
        ],
{
    let skeleton = [(0, 0), (0, 76), (3, 82), (10, 84), (18, 82), (21, 76), (21, 70)];
    assert(skeleton@ =~= seq![
        (0i32, 0i32),
        (0i32, 76i32),
        (3i32, 82i32),
        (10i32, 84i32),
        (18i32, 82i32),
        (21i32, 76i32),
        (21i32, 70i32),
    ]);
    skeleton
}

/// The two lower quadrants.
pub open spec fn lower_half() -> Seq<bool> {
    seq![false, false, true, true]
}

/// How far the rounded tip reaches below the last point: four tenths of the
/// pen width.
pub open spec fn cap_depth(width: int) -> int {
    4 * width / 10
}

/// Whether `p` lies on the half ellipse of vertical radius `depth` that
/// helps to fill the tip.
pub open spec fn in_cap_layer(tip: (int, int), width: int, depth: int, p: (int, int)) -> bool {
    0 <= depth && arc((tip.0, tip.1 + 1), (width / 2, depth), lower_half(), 1).contains(p)
}

/// The first `layers` half ellipses of the tip.
pub open spec fn cap_upto(tip: (int, int), width: int, layers: int) -> Set<(int, int)> {
    Set::new(
        |p: (int, int)|
            exists|depth: int| depth < layers && #[trigger] in_cap_layer(tip, width, depth, p),
    )
}

/// The rounded tip: lower half ellipses, half the pen wide, of every
/// vertical radius from zero to the cap depth, centred one pixel below the
/// last point.
pub open spec fn cap(tip: (int, int), width: int) -> Set<(int, int)> {
    cap_upto(tip, width, cap_depth(width) + 1)
}

/// The pixels of a tail with the given skeleton.
pub open spec fn tail_shape(pose: Seq<(int, int)>, width: int) -> Set<(int, int)> {
    if pose.len() == 0 {
        Set::empty()
    } else {
        polyline(pose, width).union(cap(pose.last(), width))
    }
}

/// Draws the rounded tip of a tail below `tip`.
pub fn draw_cap<S: Surface>(surface: &mut S, tip: (i32, i32), width: u32)
    requires
        S::valid(old(surface)@),
        tip.1 < i32::MAX,
    ensures
        S::valid(final(surface)@),
        final(surface)@ == S::inked(old(surface)@, cap(point(tip), width as int)),
{
    let ghost start = surface@;
    let ghost t = point(tip);
    let ghost w = width as int;
    let ghost mut done: Set<(int, int)> = Set::empty();
    proof {
        S::lemma_inked_nothing(start);
        assert(done =~= cap_upto(t, w, 0));
    }
    let center: (i32, i32) = (tip.0, tip.1 + 1);
    let reach: i32 = (width / 2) as i32;
    let deepest: i32 = (4 * (width as u64) / 10) as i32;
    let mut depth: i32 = 0;
    while depth <= deepest
        invariant
            t == point(tip),
            w == width as int,
            center == (tip.0, (tip.1 + 1) as i32),
            tip.1 < i32::MAX,
            reach == w / 2,
            deepest == cap_depth(w),
            0 <= depth <= deepest + 1,
            deepest < i32::MAX,
            S::valid(start),
            S::valid(surface@),
            surface@ == S::inked(start, done),
            done == cap_upto(t, w, depth as int),
        decreases deepest + 1 - depth,
    {
        let ghost before = done;
        let quadrants = [false, false, true, true];
        assert(quadrants@ =~= lower_half());
        stroke_arc(surface, center, (reach, depth), quadrants, 1);
        proof {
            let layer = arc(point(center), point((reach, depth)), lower_half(), 1);
            let want = cap_upto(t, w, depth + 1);
            S::lemma_inked_twice(start, before, layer);
            done = before.union(layer);
            assert forall|p: (int, int)| done.contains(p) == want.contains(p) by {
                if layer.contains(p) {
                    assert(in_cap_layer(t, w, depth as int, p));
                }
                if before.contains(p) {
                    let d = choose|d: int| d < depth && #[trigger] in_cap_layer(t, w, d, p);
                    assert(d < depth + 1 && in_cap_layer(t, w, d, p));
                }
                if want.contains(p) {
                    let d = choose|d: int| d < depth + 1 && #[trigger] in_cap_layer(t, w, d, p);
                    if d < depth {
                        assert(before.contains(p));
                    } else {
                        assert(layer.contains(p));
                    }
                }
            }
            assert(done =~= want);
        }
        depth = depth + 1;
    }
}

/// Draws a tail: strokes from each point of the skeleton to the next, and
/// a rounded tip below the last point.
pub fn draw_tail<S: Surface>(surface: &mut S, pose: &[(i32, i32)], width: u32)
    requires
        S::valid(old(surface)@),
        pose@.len() > 0 ==> pose@.last().1 < i32::MAX,
    ensures
        S::valid(final(surface)@),
        final(surface)@ == S::inked(old(surface)@, tail_shape(points_of(pose@), width as int)),
{
    let ghost start = surface@;
    if pose.len() == 0 {
        proof {
            S::lemma_inked_nothing(start);
        }
        return ;
    }
    stroke_polyline(surface, pose, width);
    draw_cap(surface, pose[pose.len() - 1], width);
    proof {
        let pts = points_of(pose@);
        S::lemma_inked_twice(start, polyline(pts, width as int), cap(pts.last(), width as int));
    }
}

/// The packed picture of the tail in one pose: the resting tail of the
/// bitmap with the swung tail drawn over it.
pub fn create_tail_pixmap(tail: &Bitmap, pose: &[(i32, i32); 7]) -> (bits: Vec<u8>)
    requires
        tail.wf(),
        pose@[6].1 < i32::MAX,
    ensures
        bits@ == (BufferView {
            bits: tail.bits@,
            row_width: tail.width as nat,
            height: tail.height as nat,
        }).inked(tail_shape(points_of(pose@), TAIL_PEN as int)).bits,
        bits@.len() == tail.bits@.len(),
{
    let mut buf = Buffer { vec: slice_to_vec(tail.bits), row_width: tail.width, height: tail.height };
    draw_tail(&mut buf, pose.as_slice(), TAIL_PEN);
    buf.vec
}

/// The working image of the tail in one pose, to be shown where the
/// bitmap of the resting tail belongs: that bitmap unpacked, with the swung
/// tail drawn over it.
pub fn tail_frame(tail: &Bitmap, pose: &[(i32, i32); 7]) -> (frame: Image)
    requires
        tail.wf(),
        pose@[6].1 < i32::MAX,
    ensures
        frame.wf(),
        frame@ == (ImageView {
            pixels: unpacked(tail.bits@, tail.width as int, BLACK, WHITE),
            width: tail.width as nat,
            height: tail.height as nat,
            x_offset: tail.x_offset as nat,
            y_offset: tail.y_offset as nat,
        }).inked(tail_shape(points_of(pose@), TAIL_PEN as int)),
{
    let bits = create_tail_pixmap(tail, pose);
    let frame = Image {
        bytes: bits_to_bytes(bits.as_slice(), tail.width),
        width: tail.width,
        height: tail.height,
        x_offset: tail.x_offset,
        y_offset: tail.y_offset,
    };
    proof {
        let resting = BufferView {
            bits: tail.bits@,
            row_width: tail.width as nat,
            height: tail.height as nat,
        };
        let shape = tail_shape(points_of(pose@), TAIL_PEN as int);
        lemma_unpack_inked(resting, shape, tail.x_offset as nat, tail.y_offset as nat);
        lemma_unpacked_rows(
            tail.bits@,
            tail.width as int,
            tail.height as int,
            BLACK,
            WHITE,
        );
    }
    frame
}

} // verus!
