//! Connected strokes through a list of points.

use vstd::prelude::*;
use crate::line::{in_stroke, point, stroke, stroke_line};
use crate::surface::Surface;

verus! {

/// The points of a list, as mathematical points.
pub open spec fn points_of(list: Seq<(i32, i32)>) -> Seq<(int, int)> {
    Seq::new(list.len(), |i: int| point(list[i]))
}

/// Whether `p` belongs to the stroke between point `k` and the next.
pub open spec fn in_segment(points: Seq<(int, int)>, width: int, k: int, p: (int, int)) -> bool {
    0 <= k < points.len() - 1 && in_stroke(points[k], points[k + 1], width, p)
}

/// The pixels of the strokes that join the first `upto + 1` points.
pub open spec fn polyline_upto(points: Seq<(int, int)>, width: int, upto: int) -> Set<(int, int)> {
    Set::new(|p: (int, int)| exists|k: int| k < upto && #[trigger] in_segment(points, width, k, p))
}

/// The pixels of the strokes that join each point to the next. Fewer than
/// two points give no stroke.
pub open spec fn polyline(points: Seq<(int, int)>, width: int) -> Set<(int, int)> {
    polyline_upto(points, width, points.len() - 1)
}

/// Joins each point of the list to the next with a stroke of the given
/// width.
pub fn stroke_polyline<S: Surface>(surface: &mut S, points: &[(i32, i32)], width: u32)
    requires
        S::valid(old(surface)@),
    ensures
        S::valid(final(surface)@),
        final(surface)@ == S::inked(old(surface)@, polyline(points_of(points@), width as int)),
{
    let ghost start = surface@;
    let ghost pts = points_of(points@);
    let ghost w = width as int;
    let ghost mut done: Set<(int, int)> = Set::empty();
    proof {
        S::lemma_inked_nothing(start);
        assert(done =~= polyline_upto(pts, w, 0));
    }
    let n = points.len();
    let mut i: usize = 0;
    while i + 1 < n
        invariant
            n == points@.len(),
            pts == points_of(points@),
            w == width as int,
            0 <= i,
            i < n || i == 0,
            S::valid(start),
            S::valid(surface@),
            surface@ == S::inked(start, done),
            done == polyline_upto(pts, w, i as int),
        decreases n - i,
    {
        let ghost before = done;
        stroke_line(surface, points[i], points[i + 1], width);
        proof {
            let piece = stroke(pts[i as int], pts[i + 1], w);
            let want = polyline_upto(pts, w, i + 1);
            S::lemma_inked_twice(start, before, piece);
            done = before.union(piece);
            assert forall|p: (int, int)| done.contains(p) == want.contains(p) by {
                if piece.contains(p) {
                    assert(in_segment(pts, w, i as int, p));
                }
                if before.contains(p) {
                    let k = choose|k: int| k < i && #[trigger] in_segment(pts, w, k, p);
                    assert(k < i + 1 && in_segment(pts, w, k, p));
                }
                if want.contains(p) {
                    let k = choose|k: int| k < i + 1 && #[trigger] in_segment(pts, w, k, p);
                    if k < i {
                        assert(before.contains(p));
                    } else {
                        assert(piece.contains(p));
                    }
                }
            }
            assert(done =~= want);
        }
        i += 1;
    }
    proof {
        assert forall|p: (int, int)| done.contains(p) == polyline(pts, w).contains(p) by {
            if done.contains(p) {
                let k = choose|k: int| k < i && #[trigger] in_segment(pts, w, k, p);
                assert(k < pts.len() - 1 && in_segment(pts, w, k, p));
            }
            if polyline(pts, w).contains(p) {
                let k = choose|k: int| k < pts.len() - 1 && #[trigger] in_segment(pts, w, k, p);
                assert(k < i && in_segment(pts, w, k, p));
            }
        }
        assert(done =~= polyline(pts, w));
    }
}

} // verus!
