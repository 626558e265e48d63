//! Drawing on packed buffers.

use vstd::prelude::*;
use crate::buffer::Buffer;
use crate::ellipse::{arc, stroke_arc};
use crate::line::{point, stroke, stroke_line};
use crate::surface::Surface;

verus! {

/// Sets one pixel; does nothing if the point lies outside the buffer.
pub fn plot(buffer: &mut Buffer, point: (i32, i32))
    requires
        old(buffer).wf(),
    ensures
        final(buffer).wf(),
        final(buffer)@ == old(buffer)@.inked(set![crate::line::point(point)]),
{
    buffer.plot_at(point.0 as i64, point.1 as i64);
}

/// Draws a stroke of the given width from `point_a` to `point_b`.
///
/// The stroke follows the segment along its longer axis and reaches
/// `width / 2` pixels to either side across it; a segment of no length
/// becomes a square blob of that reach.
pub fn plot_line_with_width(buffer: &mut Buffer, point_a: (i32, i32), point_b: (i32, i32), width: u32)
    requires
        old(buffer).wf(),
    ensures
        final(buffer).wf(),
        final(buffer)@ == old(buffer)@.inked(stroke(point(point_a), point(point_b), width as int)),
{
    stroke_line(buffer, point_a, point_b, width);
}

/// Draws the selected quadrants of an ellipse outline: upper right, upper
/// left, lower left, lower right, in this order.
pub fn plot_ellipse(
    buffer: &mut Buffer,
    center: (i32, i32),
    radii: (i32, i32),
    quadrants: [bool; 4],
    width: u32,
)
    requires
        old(buffer).wf(),
    ensures
        final(buffer).wf(),
        final(buffer)@ == old(buffer)@.inked(
            arc(point(center), point(radii), quadrants@, width as int),
        ),
{
    stroke_arc(buffer, center, radii, quadrants, width);
}

} // verus!
