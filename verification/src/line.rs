//! Thick straight strokes.
//!
//! A stroke follows the ideal segment one pixel at a time along its longer
//! axis and widens it across that axis by half the width on each side.

use vstd::prelude::*;
use vstd::arithmetic::div_mod::{lemma_fundamental_div_mod, lemma_fundamental_div_mod_converse, lemma_mod_bound};
use crate::surface::Surface;

verus! {

/// A point given in machine integers, as a mathematical point.
pub open spec fn point(p: (i32, i32)) -> (int, int) {
    (p.0 as int, p.1 as int)
}

pub open spec fn abs(v: int) -> int {
    if v >= 0 {
        v
    } else {
        -v
    }
}

/// The point with its coordinates exchanged if `steep`, else the point.
pub open spec fn oriented(steep: bool, p: (int, int)) -> (int, int) {
    if steep {
        (p.1, p.0)
    } else {
        p
    }
}

/// How far the segment has moved across its longer axis after `i` steps
/// along it: `i * minor / major`, rounded to the nearest integer, a half
/// rounding away from the start.
pub open spec fn minor_offset(i: int, major: int, minor: int) -> int {
    (2 * i * minor + major) / (2 * major)
}

/// The number of steps from `a` to `p` along the first axis, counted in the
/// direction of `b`.
pub open spec fn step_of(a: (int, int), b: (int, int), p: (int, int)) -> int {
    if b.0 >= a.0 {
        p.0 - a.0
    } else {
        a.0 - p.0
    }
}

/// The second coordinate of the segment from `a` to `b` after `i` steps
/// along the first axis.
pub open spec fn minor_at(a: (int, int), b: (int, int), i: int) -> int {
    let off = minor_offset(i, abs(b.0 - a.0), abs(b.1 - a.1));
    if b.1 >= a.1 {
        a.1 + off
    } else {
        a.1 - off
    }
}

/// Whether `p` belongs to the stroke from `a` to `b` that runs along the
/// first axis and reaches `half` pixels to either side across it.
pub open spec fn in_flat_stroke(a: (int, int), b: (int, int), half: int, p: (int, int)) -> bool {
    let i = step_of(a, b, p);
    0 <= i <= abs(b.0 - a.0) && abs(p.1 - minor_at(a, b, i)) <= half
}

/// Whether `p` belongs to the stroke of the given width from `a` to `b`.
///
/// A segment that is at least as wide as it is tall is followed along x and
/// widened along y; a taller one the other way round. A segment of no length
/// is a square blob around its point.
pub open spec fn in_stroke(a: (int, int), b: (int, int), width: int, p: (int, int)) -> bool {
    let half = width / 2;
    if a == b {
        abs(p.0 - a.0) <= half && abs(p.1 - a.1) <= half
    } else if abs(b.0 - a.0) >= abs(b.1 - a.1) {
        in_flat_stroke(a, b, half, p)
    } else {
        in_flat_stroke(oriented(true, a), oriented(true, b), half, oriented(true, p))
    }
}

/// The pixels of the stroke of the given width from `a` to `b`.
pub open spec fn stroke(a: (int, int), b: (int, int), width: int) -> Set<(int, int)> {
    Set::new(|p: (int, int)| in_stroke(a, b, width, p))
}

/// The pixels whose first coordinate (second, if `steep`) is `major` and
/// whose other coordinate lies in `lo..=hi`.
pub open spec fn span(steep: bool, major: int, lo: int, hi: int) -> Set<(int, int)> {
    Set::new(|p: (int, int)| oriented(steep, p).0 == major && lo <= oriented(steep, p).1 <= hi)
}

/// The pixels of the rectangle `x_lo..=x_hi` by `y_lo..=y_hi`.
pub open spec fn block(x_lo: int, x_hi: int, y_lo: int, y_hi: int) -> Set<(int, int)> {
    Set::new(|p: (int, int)| x_lo <= p.0 <= x_hi && y_lo <= p.1 <= y_hi)
}

/// Puts ink on a straight run of pixels.
pub fn fill_span<S: Surface>(surface: &mut S, steep: bool, major: i64, lo: i64, hi: i64)
    requires
        S::valid(old(surface)@),
        hi < i64::MAX,
    ensures
        S::valid(final(surface)@),
        final(surface)@ == S::inked(old(surface)@, span(steep, major as int, lo as int, hi as int)),
{
    let ghost start = surface@;
    let ghost mut done: Set<(int, int)> = Set::empty();
    proof {
        S::lemma_inked_nothing(start);
    }
    let mut m = lo;
    while m <= hi
        invariant
            hi < i64::MAX,
            lo <= m,
            m <= hi + 1 || m == lo,
            S::valid(start),
            S::valid(surface@),
            surface@ == S::inked(start, done),
            done == span(steep, major as int, lo as int, m - 1),
        decreases hi + 1 - m,
    {
        let ghost before = done;
        if steep {
            surface.plot_at(m, major);
        } else {
            surface.plot_at(major, m);
        }
        proof {
            let dot = if steep {
                set![(m as int, major as int)]
            } else {
                set![(major as int, m as int)]
            };
            S::lemma_inked_twice(start, before, dot);
            done = before.union(dot);
            assert(done =~= span(steep, major as int, lo as int, m as int));
        }
        m = m + 1;
    }
    proof {
        assert(done =~= span(steep, major as int, lo as int, hi as int));
    }
}

/// Puts ink on a rectangle of pixels.
pub fn fill_block<S: Surface>(surface: &mut S, x_lo: i64, x_hi: i64, y_lo: i64, y_hi: i64)
    requires
        S::valid(old(surface)@),
        x_hi < i64::MAX,
        y_hi < i64::MAX,
    ensures
        S::valid(final(surface)@),
        final(surface)@ == S::inked(
            old(surface)@,
            block(x_lo as int, x_hi as int, y_lo as int, y_hi as int),
        ),
{
    let ghost start = surface@;
    let ghost mut done: Set<(int, int)> = Set::empty();
    proof {
        S::lemma_inked_nothing(start);
    }
    let mut x = x_lo;
    while x <= x_hi
        invariant
            x_hi < i64::MAX,
            y_hi < i64::MAX,
            x_lo <= x,
            x <= x_hi + 1 || x == x_lo,
            S::valid(start),
            S::valid(surface@),
            surface@ == S::inked(start, done),
            done == block(x_lo as int, x - 1, y_lo as int, y_hi as int),
        decreases x_hi + 1 - x,
    {
        let ghost before = done;
        fill_span(surface, false, x, y_lo, y_hi);
        proof {
            let column = span(false, x as int, y_lo as int, y_hi as int);
            S::lemma_inked_twice(start, before, column);
            done = before.union(column);
            assert(done =~= block(x_lo as int, x as int, y_lo as int, y_hi as int));
        }
        x = x + 1;
    }
    proof {
        assert(done =~= block(x_lo as int, x_hi as int, y_lo as int, y_hi as int));
    }
}

/// The part of a flat stroke that the first `steps` steps have covered.
pub open spec fn flat_stroke_upto(
    steep: bool,
    a: (int, int),
    b: (int, int),
    half: int,
    steps: int,
) -> Set<(int, int)> {
    Set::new(
        |p: (int, int)|
            in_flat_stroke(a, b, half, oriented(steep, p)) && step_of(a, b, oriented(steep, p))
                < steps,
    )
}

/// The running quotient and remainder of the stepping are those of the
/// rounded division that defines the stroke.
proof fn lemma_minor_offset(i: int, major: int, minor: int, q: int, r: int)
    requires
        0 < major,
        0 <= r < 2 * major,
        2 * i * minor + major == q * (2 * major) + r,
    ensures
        q == minor_offset(i, major, minor),
{
    lemma_fundamental_div_mod_converse(2 * i * minor + major, 2 * major, q, r);
}

/// Draws the stroke from `a` to `b` along its longer axis. The points are
/// given with the longer axis first; `steep` says that this axis is y.
fn stroke_flat<S: Surface>(surface: &mut S, steep: bool, a: (i64, i64), b: (i64, i64), half: i64)
    requires
        S::valid(old(surface)@),
        -0x8000_0000 <= a.0 < 0x8000_0000,
        -0x8000_0000 <= a.1 < 0x8000_0000,
        -0x8000_0000 <= b.0 < 0x8000_0000,
        -0x8000_0000 <= b.1 < 0x8000_0000,
        0 <= half < 0x8000_0000,
        a.0 != b.0,
        abs(b.0 - a.0) >= abs(b.1 - a.1),
    ensures
        S::valid(final(surface)@),
        final(surface)@ == S::inked(
            old(surface)@,
            flat_stroke_upto(
                steep,
                (a.0 as int, a.1 as int),
                (b.0 as int, b.1 as int),
                half as int,
                abs(b.0 - a.0) + 1,
            ),
        ),
{
    let ghost start = surface@;
    let ghost ga = (a.0 as int, a.1 as int);
    let ghost gb = (b.0 as int, b.1 as int);
    let ghost mut done: Set<(int, int)> = Set::empty();
    proof {
        S::lemma_inked_nothing(start);
        assert(done =~= flat_stroke_upto(steep, ga, gb, half as int, 0));
    }
    let forward = b.0 >= a.0;
    let rising = b.1 >= a.1;
    let major: i64 = if forward {
        b.0 - a.0
    } else {
        a.0 - b.0
    };
    let minor: i64 = if rising {
        b.1 - a.1
    } else {
        a.1 - b.1
    };
    let mut i: i64 = 0;
    let mut q: i64 = 0;
    let mut r: i64 = major;
    assert(2 * i * minor + major == q * (2 * major) + r) by (nonlinear_arith)
        requires
            i == 0,
            q == 0,
            r == major,
    ;
    while i <= major
        invariant
            -0x8000_0000 <= a.0 < 0x8000_0000,
            -0x8000_0000 <= a.1 < 0x8000_0000,
            0 <= half < 0x8000_0000,
            ga == (a.0 as int, a.1 as int),
            gb == (b.0 as int, b.1 as int),
            forward == (b.0 >= a.0),
            rising == (b.1 >= a.1),
            major == abs(b.0 - a.0),
            minor == abs(b.1 - a.1),
            0 < major < 0x1_0000_0000,
            0 <= minor <= major,
            0 <= i <= major + 1,
            0 <= q <= i,
            0 <= r < 2 * major,
            i <= major ==> 2 * i * minor + major == q * (2 * major) + r,
            S::valid(start),
            S::valid(surface@),
            surface@ == S::inked(start, done),
            done == flat_stroke_upto(steep, ga, gb, half as int, i as int),
        decreases major + 1 - i,
    {
        let ghost before = done;
        let along: i64 = if forward {
            a.0 + i
        } else {
            a.0 - i
        };
        let across: i64 = if rising {
            a.1 + q
        } else {
            a.1 - q
        };
        proof {
            lemma_minor_offset(i as int, major as int, minor as int, q as int, r as int);
            assert(across == minor_at(ga, gb, i as int));
        }
        fill_span(surface, steep, along, across - half, across + half);
        proof {
            let run = span(steep, along as int, across - half, across + half);
            S::lemma_inked_twice(start, before, run);
            done = before.union(run);
            assert forall|p: (int, int)|
                done.contains(p) == flat_stroke_upto(steep, ga, gb, half as int, i + 1).contains(
                    p,
                ) by {
                let o = oriented(steep, p);
                if step_of(ga, gb, o) == i {
                    assert(o.0 == along);
                }
                if o.0 == along {
                    assert(step_of(ga, gb, o) == i);
                }
            }
            assert(done =~= flat_stroke_upto(steep, ga, gb, half as int, i + 1));
        }
        let ghost q0 = q as int;
        let ghost r0 = r as int;
        i = i + 1;
        if i <= major {
            r = r + 2 * minor;
            if r >= 2 * major {
                r = r - 2 * major;
                q = q + 1;
            }
            assert(2 * i * minor + major == q * (2 * major) + r) by (nonlinear_arith)
                requires
                    2 * (i - 1) * minor + major == q0 * (2 * major) + r0,
                    (q == q0 && r == r0 + 2 * minor) || (q == q0 + 1 && r == r0 + 2 * minor - 2
                        * major),
            ;
        }
    }
}

/// Draws a stroke of the given width from `a` to `b`.
///
/// The stroke follows the segment along its longer axis, one pixel per step,
/// and reaches `width / 2` pixels to either side across that axis. Where
/// `a == b` it is the square of pixels within `width / 2` of the point.
/// Pixels outside the surface are left out; ink already there stays.
pub fn stroke_line<S: Surface>(surface: &mut S, a: (i32, i32), b: (i32, i32), width: u32)
    requires
        S::valid(old(surface)@),
    ensures
        S::valid(final(surface)@),
        final(surface)@ == S::inked(old(surface)@, stroke(point(a), point(b), width as int)),
{
    let half: i64 = (width / 2) as i64;
    let ax: i64 = a.0 as i64;
    let ay: i64 = a.1 as i64;
    let bx: i64 = b.0 as i64;
    let by: i64 = b.1 as i64;
    if ax == bx && ay == by {
        fill_block(surface, ax - half, ax + half, ay - half, ay + half);
        proof {
            assert(block(ax - half, ax + half, ay - half, ay + half) =~= stroke(
                point(a),
                point(b),
                width as int,
            ));
        }
    } else {
        let run: i64 = if bx >= ax {
            bx - ax
        } else {
            ax - bx
        };
        let rise: i64 = if by >= ay {
            by - ay
        } else {
            ay - by
        };
        if run >= rise {
            stroke_flat(surface, false, (ax, ay), (bx, by), half);
            proof {
                assert(flat_stroke_upto(false, point(a), point(b), half as int, run + 1) =~= stroke(
                    point(a),
                    point(b),
                    width as int,
                ));
            }
        } else {
            stroke_flat(surface, true, (ay, ax), (by, bx), half);
            proof {
                assert(flat_stroke_upto(
                    true,
                    oriented(true, point(a)),
                    oriented(true, point(b)),
                    half as int,
                    rise + 1,
                ) =~= stroke(point(a), point(b), width as int));
            }
        }
    }
}

/// A stroke of no length is the square of pixels within `width / 2` of its
/// point, the point itself included: a blob that is bounded whatever the
/// width.
pub proof fn lemma_stroke_of_point(a: (int, int), width: int, p: (int, int))
    requires
        0 <= width,
    ensures
        stroke(a, a, width).contains(p) <==> (abs(p.0 - a.0) <= width / 2 && abs(p.1 - a.1) <= width
            / 2),
        stroke(a, a, width).contains(a),
{
}

/// A stroke covers both of its end points.
pub proof fn lemma_stroke_ends(a: (int, int), b: (int, int), width: int)
    requires
        0 <= width,
    ensures
        stroke(a, b, width).contains(a),
        stroke(a, b, width).contains(b),
{
    if a != b {
        if abs(b.0 - a.0) >= abs(b.1 - a.1) {
            lemma_flat_stroke_ends(a, b, width / 2);
        } else {
            lemma_flat_stroke_ends(oriented(true, a), oriented(true, b), width / 2);
        }
    }
}

/// A flat stroke covers both of its end points.
proof fn lemma_flat_stroke_ends(a: (int, int), b: (int, int), half: int)
    requires
        0 <= half,
        a.0 != b.0,
        abs(b.0 - a.0) >= abs(b.1 - a.1),
    ensures
        in_flat_stroke(a, b, half, a),
        in_flat_stroke(a, b, half, b),
{
    let major = abs(b.0 - a.0);
    let minor = abs(b.1 - a.1);
    assert(2 * 0 * minor + major == 0 * (2 * major) + major) by (nonlinear_arith);
    lemma_minor_offset(0, major, minor, 0, major);
    assert(2 * major * minor + major == minor * (2 * major) + major) by (nonlinear_arith);
    lemma_minor_offset(major, major, minor, minor, major);
}

/// A stroke stays within `width / 2` of the box that its end points span.
pub proof fn lemma_stroke_bounded(a: (int, int), b: (int, int), width: int, p: (int, int))
    requires
        0 <= width,
        stroke(a, b, width).contains(p),
    ensures
        a.0 <= b.0 ==> a.0 - width / 2 <= p.0 <= b.0 + width / 2,
        b.0 <= a.0 ==> b.0 - width / 2 <= p.0 <= a.0 + width / 2,
        a.1 <= b.1 ==> a.1 - width / 2 <= p.1 <= b.1 + width / 2,
        b.1 <= a.1 ==> b.1 - width / 2 <= p.1 <= a.1 + width / 2,
{
    if a != b {
        if abs(b.0 - a.0) >= abs(b.1 - a.1) {
            lemma_flat_stroke_bounded(a, b, width / 2, p);
        } else {
            lemma_flat_stroke_bounded(
                oriented(true, a),
                oriented(true, b),
                width / 2,
                oriented(true, p),
            );
        }
    }
}

/// Along its shorter axis a flat stroke moves between its end points.
proof fn lemma_flat_stroke_bounded(a: (int, int), b: (int, int), half: int, p: (int, int))
    requires
        0 <= half,
        a.0 != b.0,
        abs(b.0 - a.0) >= abs(b.1 - a.1),
        in_flat_stroke(a, b, half, p),
    ensures
        0 <= minor_offset(step_of(a, b, p), abs(b.0 - a.0), abs(b.1 - a.1)) <= abs(b.1 - a.1),
{
    let major = abs(b.0 - a.0);
    let minor = abs(b.1 - a.1);
    let i = step_of(a, b, p);
    let n = 2 * i * minor + major;
    let q = minor_offset(i, major, minor);
    lemma_fundamental_div_mod(n, 2 * major);
    lemma_mod_bound(n, 2 * major);
    assert(0 <= q <= minor) by (nonlinear_arith)
        requires
            n == (2 * major) * q + n % (2 * major),
            0 <= n % (2 * major) < 2 * major,
            n == 2 * i * minor + major,
            0 <= i <= major,
            0 <= minor <= major,
            0 < major,
    ;
}

} // verus!
