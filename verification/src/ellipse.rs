//! Ellipse outlines, by quadrant.
//!
//! The outline of an axis-aligned ellipse is found with the midpoint test:
//! in every column the pixel is taken whose upper midpoint is the first that
//! is not strictly inside the ellipse, and likewise in every row. Both scans
//! together give a closed outline however flat or tall the ellipse is.

use vstd::prelude::*;
use crate::line::{abs, block, fill_block, point};
use crate::surface::Surface;

verus! {

/// Whether the point with the doubled coordinates `(x2, y2)`, relative to the
/// centre, lies strictly inside the ellipse with radii `rx` and `ry`.
pub open spec fn inside(rx: int, ry: int, x2: int, y2: int) -> bool {
    (ry * ry) * (x2 * x2) + (rx * rx) * (y2 * y2) < 4 * ((rx * rx) * (ry * ry))
}

/// Whether `y` is the height of the outline in column `x`: the least height
/// from zero up whose upper midpoint `(x, y + 1/2)` is not inside.
pub open spec fn is_height_at(rx: int, ry: int, x: int, y: int) -> bool {
    &&& y >= 0
    &&& !inside(rx, ry, 2 * x, 2 * y + 1)
    &&& (y == 0 || inside(rx, ry, 2 * x, 2 * y - 1))
}

/// Whether the offset `(x, y)` from the centre, taken in the quadrant where
/// both are positive, lies on the outline.
pub open spec fn on_outline(rx: int, ry: int, x: int, y: int) -> bool {
    ||| 0 <= x <= rx && is_height_at(rx, ry, x, y)
    ||| 0 <= y <= ry && is_height_at(ry, rx, y, x)
}

/// Whether the offset `(u, v)` from the centre lies in a quadrant that the
/// mask selects. The quadrants are counted from the upper right against the
/// clock, as seen on a screen whose y axis points down; an offset on an axis
/// belongs to both quadrants that meet there.
pub open spec fn in_quadrants(mask: Seq<bool>, u: int, v: int) -> bool {
    ||| mask[0] && u >= 0 && v <= 0
    ||| mask[1] && u <= 0 && v <= 0
    ||| mask[2] && u <= 0 && v >= 0
    ||| mask[3] && u >= 0 && v >= 0
}

/// Whether `q` is a pixel of the thin arc: on the outline, in a selected
/// quadrant. An ellipse with a negative radius has no pixels.
pub open spec fn on_arc(center: (int, int), radii: (int, int), mask: Seq<bool>, q: (int, int)) -> bool {
    let u = q.0 - center.0;
    let v = q.1 - center.1;
    &&& radii.0 >= 0
    &&& radii.1 >= 0
    &&& in_quadrants(mask, u, v)
    &&& on_outline(radii.0, radii.1, abs(u), abs(v))
}

/// Whether `p` lies within `half` pixels of `q` along both axes.
pub open spec fn near(q: (int, int), p: (int, int), half: int) -> bool {
    abs(p.0 - q.0) <= half && abs(p.1 - q.1) <= half
}

/// The pixels of the arc drawn with a pen of the given width: every pixel
/// within `width / 2` of a pixel of the thin arc.
pub open spec fn arc(center: (int, int), radii: (int, int), mask: Seq<bool>, width: int) -> Set<
    (int, int),
> {
    Set::new(
        |p: (int, int)|
            exists|q: (int, int)| on_arc(center, radii, mask, q) && #[trigger] near(q, p, width / 2),
    )
}

/// Moving a point away from the centre along y never brings it inside.
pub proof fn lemma_inside_shrinks(rx: int, ry: int, x2: int, y2: int, y2_far: int)
    requires
        0 <= y2 <= y2_far,
        inside(rx, ry, x2, y2_far),
    ensures
        inside(rx, ry, x2, y2),
{
    assert((rx * rx) * (y2 * y2) <= (rx * rx) * (y2_far * y2_far)) by (nonlinear_arith)
        requires
            0 <= y2 <= y2_far,
    ;
}

/// Moving a point away from the centre along x never brings it inside.
pub proof fn lemma_outside_grows(rx: int, ry: int, x2: int, x2_far: int, y2: int)
    requires
        0 <= x2 <= x2_far,
        !inside(rx, ry, x2, y2),
    ensures
        !inside(rx, ry, x2_far, y2),
{
    assert((ry * ry) * (x2 * x2) <= (ry * ry) * (x2_far * x2_far)) by (nonlinear_arith)
        requires
            0 <= x2 <= x2_far,
    ;
}

/// A column has one height only.
pub proof fn lemma_height_unique(rx: int, ry: int, x: int, y1: int, y2: int)
    requires
        is_height_at(rx, ry, x, y1),
        is_height_at(rx, ry, x, y2),
    ensures
        y1 == y2,
{
    if y1 < y2 {
        lemma_inside_shrinks(rx, ry, 2 * x, 2 * y1 + 1, 2 * y2 - 1);
    }
    if y2 < y1 {
        lemma_inside_shrinks(rx, ry, 2 * x, 2 * y2 + 1, 2 * y1 - 1);
    }
}

/// The outline stays within the box that the radii span.
pub proof fn lemma_outline_in_box(rx: int, ry: int, x: int, y: int)
    requires
        0 <= rx,
        0 <= ry,
        on_outline(rx, ry, x, y),
    ensures
        0 <= x <= rx,
        0 <= y <= ry,
{
    if 0 <= x <= rx && is_height_at(rx, ry, x, y) {
        lemma_height_in_box(rx, ry, x, y);
    }
    if 0 <= y <= ry && is_height_at(ry, rx, y, x) {
        lemma_height_in_box(ry, rx, y, x);
    }
}

/// The height of a column is at most the radius along y.
pub proof fn lemma_height_in_box(rx: int, ry: int, x: int, y: int)
    requires
        0 <= rx,
        0 <= ry,
        is_height_at(rx, ry, x, y),
    ensures
        0 <= y <= ry,
{
    if y > ry {
        assert(inside(rx, ry, 2 * x, 2 * y - 1));
        assert((rx * rx) * ((2 * y - 1) * (2 * y - 1)) >= 4 * ((rx * rx) * (ry * ry)))
            by (nonlinear_arith)
            requires
                y > ry,
                ry >= 0,
        ;
        assert((ry * ry) * ((2 * x) * (2 * x)) >= 0) by (nonlinear_arith);
    }
}

/// The radii at the ends of the axes lie on the outline.
pub proof fn lemma_outline_meets_axes(rx: int, ry: int)
    requires
        0 <= rx,
        0 <= ry,
    ensures
        on_outline(rx, ry, rx, 0),
        on_outline(rx, ry, 0, ry),
{
    assert(is_height_at(rx, ry, rx, 0)) by (nonlinear_arith)
        requires
            0 <= rx,
            0 <= ry,
    ;
    assert(is_height_at(ry, rx, ry, 0)) by (nonlinear_arith)
        requires
            0 <= rx,
            0 <= ry,
    ;
}

/// Whether `q` is one of the mirror images of the offset `(x, y)` about the
/// centre that the mask lets through.
pub open spec fn is_mirror(center: (int, int), mask: Seq<bool>, x: int, y: int, q: (int, int)) -> bool {
    &&& abs(q.0 - center.0) == x
    &&& abs(q.1 - center.1) == y
    &&& in_quadrants(mask, q.0 - center.0, q.1 - center.1)
}

/// The pen marks around the mirror images of one offset.
pub open spec fn stamp(center: (int, int), mask: Seq<bool>, x: int, y: int, half: int) -> Set<
    (int, int),
> {
    Set::new(
        |p: (int, int)|
            exists|q: (int, int)| is_mirror(center, mask, x, y, q) && #[trigger] near(q, p, half),
    )
}

/// Whether `q` is a pixel of the arc that a scan finds in its first `upto`
/// steps. The scan over columns (`steep` false) takes the height of each
/// column; the scan over rows takes the width of each row.
pub open spec fn on_scan(
    steep: bool,
    center: (int, int),
    radii: (int, int),
    mask: Seq<bool>,
    upto: int,
    q: (int, int),
) -> bool {
    let u = q.0 - center.0;
    let v = q.1 - center.1;
    let s = if steep {
        abs(v)
    } else {
        abs(u)
    };
    let t = if steep {
        abs(u)
    } else {
        abs(v)
    };
    let along = if steep {
        radii.1
    } else {
        radii.0
    };
    let across = if steep {
        radii.0
    } else {
        radii.1
    };
    &&& in_quadrants(mask, u, v)
    &&& 0 <= s < upto
    &&& s <= along
    &&& is_height_at(along, across, s, t)
}

/// The pen marks of the first `upto` steps of a scan.
pub open spec fn scanned(
    steep: bool,
    center: (int, int),
    radii: (int, int),
    mask: Seq<bool>,
    half: int,
    upto: int,
) -> Set<(int, int)> {
    Set::new(
        |p: (int, int)|
            exists|q: (int, int)|
                on_scan(steep, center, radii, mask, upto, q) && #[trigger] near(q, p, half),
    )
}

/// The midpoint test on machine integers.
fn is_inside(rx: u64, ry: u64, x2: u64, y2: u64) -> (r: bool)
    requires
        rx < 0x8000_0000,
        ry < 0x8000_0000,
        x2 <= 0x1_0000_0000,
        y2 <= 0x1_0000_0000,
    ensures
        r == inside(rx as int, ry as int, x2 as int, y2 as int),
{
    let rx = rx as u128;
    let ry = ry as u128;
    let x2 = x2 as u128;
    let y2 = y2 as u128;
    assert(rx * rx <= 0x4000_0000_0000_0000 && ry * ry <= 0x4000_0000_0000_0000 && x2 * x2
        <= 0x1_0000_0000_0000_0000 && y2 * y2 <= 0x1_0000_0000_0000_0000)
        by (nonlinear_arith)
        requires
            rx < 0x8000_0000,
            ry < 0x8000_0000,
            x2 <= 0x1_0000_0000,
            y2 <= 0x1_0000_0000,
    ;
    let rxx = rx * rx;
    let ryy = ry * ry;
    let xx = x2 * x2;
    let yy = y2 * y2;
    assert(ryy * xx <= 0x4000_0000_0000_0000 * 0x1_0000_0000_0000_0000 && rxx * yy
        <= 0x4000_0000_0000_0000 * 0x1_0000_0000_0000_0000 && rxx * ryy
        <= 0x4000_0000_0000_0000 * 0x4000_0000_0000_0000) by (nonlinear_arith)
        requires
            rxx <= 0x4000_0000_0000_0000,
            ryy <= 0x4000_0000_0000_0000,
            xx <= 0x1_0000_0000_0000_0000,
            yy <= 0x1_0000_0000_0000_0000,
    ;
    ryy * xx + rxx * yy < 4 * (rxx * ryy)
}

/// Whether the mask selects a quadrant that holds the offset `(u, v)`.
fn quadrant_enabled(mask: &[bool; 4], u: i64, v: i64) -> (r: bool)
    ensures
        r == in_quadrants(mask@, u as int, v as int),
{
    (mask[0] && u >= 0 && v <= 0) || (mask[1] && u <= 0 && v <= 0) || (mask[2] && u <= 0 && v >= 0)
        || (mask[3] && u >= 0 && v >= 0)
}

/// Marks one mirror image of an offset with the pen, if the mask lets it
/// through.
fn stamp_one<S: Surface>(
    surface: &mut S,
    center: (i64, i64),
    mask: &[bool; 4],
    u: i64,
    v: i64,
    half: i64,
)
    requires
        S::valid(old(surface)@),
        -0x8000_0000 <= center.0 < 0x8000_0000,
        -0x8000_0000 <= center.1 < 0x8000_0000,
        -0x8000_0000 < u < 0x8000_0000,
        -0x8000_0000 < v < 0x8000_0000,
        0 <= half < 0x8000_0000,
    ensures
        S::valid(final(surface)@),
        final(surface)@ == S::inked(
            old(surface)@,
            if in_quadrants(mask@, u as int, v as int) {
                block(
                    center.0 + u - half,
                    center.0 + u + half,
                    center.1 + v - half,
                    center.1 + v + half,
                )
            } else {
                Set::empty()
            },
        ),
{
    if quadrant_enabled(mask, u, v) {
        fill_block(
            surface,
            center.0 + u - half,
            center.0 + u + half,
            center.1 + v - half,
            center.1 + v + half,
        );
    } else {
        proof {
            S::lemma_inked_nothing(surface@);
        }
    }
}

/// Marks every mirror image of the offset `(x, y)` that the mask lets
/// through.
fn stamp_mirrors<S: Surface>(
    surface: &mut S,
    center: (i64, i64),
    mask: &[bool; 4],
    x: i64,
    y: i64,
    half: i64,
)
    requires
        S::valid(old(surface)@),
        -0x8000_0000 <= center.0 < 0x8000_0000,
        -0x8000_0000 <= center.1 < 0x8000_0000,
        0 <= x < 0x8000_0000,
        0 <= y < 0x8000_0000,
        0 <= half < 0x8000_0000,
    ensures
        S::valid(final(surface)@),
        final(surface)@ == S::inked(
            old(surface)@,
            stamp((center.0 as int, center.1 as int), mask@, x as int, y as int, half as int),
        ),
{
    let ghost start = surface@;
    let ghost c = (center.0 as int, center.1 as int);
    let ghost h = half as int;
    let ghost piece = |u: int, v: int|
        if in_quadrants(mask@, u, v) {
            block(c.0 + u - h, c.0 + u + h, c.1 + v - h, c.1 + v + h)
        } else {
            Set::<(int, int)>::empty()
        };
    stamp_one(surface, center, mask, x, -y, half);
    let ghost s1 = piece(x as int, -y);
    stamp_one(surface, center, mask, -x, -y, half);
    let ghost s2 = s1.union(piece(-x, -y));
    stamp_one(surface, center, mask, -x, y, half);
    let ghost s3 = s2.union(piece(-x, y as int));
    stamp_one(surface, center, mask, x, y, half);
    let ghost s4 = s3.union(piece(x as int, y as int));
    proof {
        S::lemma_inked_twice(start, s1, piece(-x, -y));
        S::lemma_inked_twice(start, s2, piece(-x, y as int));
        S::lemma_inked_twice(start, s3, piece(x as int, y as int));
        let want = stamp(c, mask@, x as int, y as int, h);
        assert forall|p: (int, int)| s4.contains(p) == want.contains(p) by {
            if want.contains(p) {
                let q = choose|q: (int, int)|
                    is_mirror(c, mask@, x as int, y as int, q) && #[trigger] near(q, p, h);
                assert(s4.contains(p));
            }
            if s4.contains(p) {
                if piece(x as int, -y).contains(p) {
                    assert(near((c.0 + x, c.1 - y), p, h));
                } else if piece(-x, -y).contains(p) {
                    assert(near((c.0 - x, c.1 - y), p, h));
                } else if piece(-x, y as int).contains(p) {
                    assert(near((c.0 - x, c.1 + y), p, h));
                } else {
                    assert(near((c.0 + x, c.1 + y), p, h));
                }
            }
        }
        assert(s4 =~= want);
    }
}

/// Runs one scan of the outline and marks what it finds: over the columns
/// `0..=rx`, or, if `steep`, over the rows `0..=ry`.
fn scan<S: Surface>(
    surface: &mut S,
    steep: bool,
    center: (i64, i64),
    radii: (i64, i64),
    mask: &[bool; 4],
    half: i64,
)
    requires
        S::valid(old(surface)@),
        -0x8000_0000 <= center.0 < 0x8000_0000,
        -0x8000_0000 <= center.1 < 0x8000_0000,
        0 <= radii.0 < 0x8000_0000,
        0 <= radii.1 < 0x8000_0000,
        0 <= half < 0x8000_0000,
    ensures
        S::valid(final(surface)@),
        final(surface)@ == S::inked(
            old(surface)@,
            scanned(
                steep,
                (center.0 as int, center.1 as int),
                (radii.0 as int, radii.1 as int),
                mask@,
                half as int,
                if steep {
                    radii.1 + 1
                } else {
                    radii.0 + 1
                },
            ),
        ),
{
    let ghost start = surface@;
    let ghost c = (center.0 as int, center.1 as int);
    let ghost r = (radii.0 as int, radii.1 as int);
    let ghost h = half as int;
    let ghost mut done: Set<(int, int)> = Set::empty();
    let along: i64 = if steep {
        radii.1
    } else {
        radii.0
    };
    let across: i64 = if steep {
        radii.0
    } else {
        radii.1
    };
    proof {
        S::lemma_inked_nothing(start);
        assert(done =~= scanned(steep, c, r, mask@, h, 0));
        assert(!inside(along as int, across as int, 0, 2 * across + 1)) by (nonlinear_arith)
            requires
                0 <= across,
        ;
    }
    let mut s: i64 = 0;
    let mut t: i64 = across;
    while s <= along
        invariant
            -0x8000_0000 <= center.0 < 0x8000_0000,
            -0x8000_0000 <= center.1 < 0x8000_0000,
            0 <= half < 0x8000_0000,
            0 <= along < 0x8000_0000,
            0 <= across < 0x8000_0000,
            c == (center.0 as int, center.1 as int),
            r == (radii.0 as int, radii.1 as int),
            h == half as int,
            along == (if steep {
                radii.1
            } else {
                radii.0
            }),
            across == (if steep {
                radii.0
            } else {
                radii.1
            }),
            0 <= s <= along + 1,
            0 <= t <= across,
            s <= along ==> !inside(along as int, across as int, 2 * s, 2 * t + 1),
            S::valid(start),
            S::valid(surface@),
            surface@ == S::inked(start, done),
            done == scanned(steep, c, r, mask@, h, s as int),
        decreases along + 1 - s,
    {
        while t > 0 && !is_inside(along as u64, across as u64, (2 * s) as u64, (2 * t - 1) as u64)
            invariant
                0 <= along < 0x8000_0000,
                0 <= across < 0x8000_0000,
                0 <= s <= along,
                0 <= t <= across,
                !inside(along as int, across as int, 2 * s, 2 * t + 1),
            decreases t,
        {
            t = t - 1;
        }
        assert(is_height_at(along as int, across as int, s as int, t as int));
        let x: i64 = if steep {
            t
        } else {
            s
        };
        let y: i64 = if steep {
            s
        } else {
            t
        };
        let ghost before = done;
        stamp_mirrors(surface, center, mask, x, y, half);
        proof {
            let marks = stamp(c, mask@, x as int, y as int, h);
            let want = scanned(steep, c, r, mask@, h, s + 1);
            S::lemma_inked_twice(start, before, marks);
            done = before.union(marks);
            assert forall|p: (int, int)| done.contains(p) == want.contains(p) by {
                if want.contains(p) {
                    let q = choose|q: (int, int)|
                        on_scan(steep, c, r, mask@, s + 1, q) && #[trigger] near(q, p, h);
                    if on_scan(steep, c, r, mask@, s as int, q) {
                        assert(before.contains(p));
                    } else {
                        let tq = if steep {
                            abs(q.0 - c.0)
                        } else {
                            abs(q.1 - c.1)
                        };
                        lemma_height_unique(along as int, across as int, s as int, tq, t as int);
                        assert(is_mirror(c, mask@, x as int, y as int, q));
                        assert(marks.contains(p));
                    }
                }
                if before.contains(p) {
                    let q = choose|q: (int, int)|
                        on_scan(steep, c, r, mask@, s as int, q) && #[trigger] near(q, p, h);
                    assert(on_scan(steep, c, r, mask@, s + 1, q));
                }
                if marks.contains(p) {
                    let q = choose|q: (int, int)|
                        is_mirror(c, mask@, x as int, y as int, q) && #[trigger] near(q, p, h);
                    assert(on_scan(steep, c, r, mask@, s + 1, q));
                }
            }
            assert(done =~= want);
            if s + 1 <= along {
                lemma_outside_grows(along as int, across as int, 2 * s, 2 * (s + 1), 2 * t + 1);
            }
        }
        s = s + 1;
    }
}

/// Draws the parts of an ellipse outline that lie in the selected
/// quadrants, with a pen of the given width.
///
/// `quadrants` selects, in this order, the upper right, upper left, lower
/// left and lower right quarter, on a screen whose y axis points down. The
/// pen marks every pixel within `width / 2` of the thin outline. A radius of
/// zero flattens the ellipse to a segment; a negative radius draws nothing.
/// Pixels outside the surface are left out; ink already there stays.
pub fn stroke_arc<S: Surface>(
    surface: &mut S,
    center: (i32, i32),
    radii: (i32, i32),
    quadrants: [bool; 4],
    width: u32,
)
    requires
        S::valid(old(surface)@),
    ensures
        S::valid(final(surface)@),
        final(surface)@ == S::inked(
            old(surface)@,
            arc(point(center), point(radii), quadrants@, width as int),
        ),
{
    let ghost start = surface@;
    let ghost c = point(center);
    let ghost r = point(radii);
    let ghost want = arc(c, r, quadrants@, width as int);
    if radii.0 < 0 || radii.1 < 0 {
        proof {
            assert(want =~= Set::empty());
            S::lemma_inked_nothing(start);
        }
        return ;
    }
    let half: i64 = (width / 2) as i64;
    let cc: (i64, i64) = (center.0 as i64, center.1 as i64);
    let rr: (i64, i64) = (radii.0 as i64, radii.1 as i64);
    scan(surface, false, cc, rr, &quadrants, half);
    scan(surface, true, cc, rr, &quadrants, half);
    proof {
        let columns = scanned(false, c, r, quadrants@, half as int, r.0 + 1);
        let rows = scanned(true, c, r, quadrants@, half as int, r.1 + 1);
        S::lemma_inked_twice(start, columns, rows);
        assert forall|p: (int, int)| columns.union(rows).contains(p) == want.contains(p) by {
            if want.contains(p) {
                let q = choose|q: (int, int)|
                    on_arc(c, r, quadrants@, q) && #[trigger] near(q, p, width as int / 2);
                assert(on_scan(false, c, r, quadrants@, r.0 + 1, q) || on_scan(
                    true,
                    c,
                    r,
                    quadrants@,
                    r.1 + 1,
                    q,
                ));
            }
            if columns.contains(p) {
                let q = choose|q: (int, int)|
                    on_scan(false, c, r, quadrants@, r.0 + 1, q) && #[trigger] near(
                        q,
                        p,
                        half as int,
                    );
                assert(on_arc(c, r, quadrants@, q));
            }
            if rows.contains(p) {
                let q = choose|q: (int, int)|
                    on_scan(true, c, r, quadrants@, r.1 + 1, q) && #[trigger] near(
                        q,
                        p,
                        half as int,
                    );
                assert(on_arc(c, r, quadrants@, q));
            }
        }
        assert(columns.union(rows) =~= want);
    }
}

} // verus!
