//! The clock hands: one stroke each, from a start point near the pivot to
//! the tip.

use vstd::prelude::*;
use crate::image::Image;
use crate::line::{point, stroke};

verus! {

/// Length of the second hand, from the pivot to its tip.
pub const SECOND_LENGTH: i32 = 23;

pub const SECOND_WIDTH: u32 = 1;

pub const MINUTE_LENGTH: i32 = 29;

pub const MINUTE_WIDTH: u32 = 3;

pub const HOUR_LENGTH: i32 = 18;

pub const HOUR_WIDTH: u32 = 4;

/// How far from the pivot a hand starts, along its own direction; negative
/// on the far side of the pivot.
pub const HAND_INSET: i32 = -5;

/// How many positions a dial has: one for each sixtieth of a turn.
pub const DIAL_POSITIONS: usize = 60;

/// A hand in one position: where its stroke starts and where it ends.
#[derive(Clone, Copy, Debug, PartialEq, Eq)]
pub struct Segment {
    pub start: (i32, i32),
    pub tip: (i32, i32),
}

/// The position on a dial of sixty that shows `hour`: five steps an hour,
/// twelve hours a turn.
pub fn hour_position(hour: u8) -> (position: u8)
    ensures
        position == (hour % 12) * 5,
        position < DIAL_POSITIONS,
{
    (hour % 12) * 5
}

/// Draws a hand onto its own picture: a stroke of the given width from
/// `start` to `tip`.
pub fn draw_second(image: &mut Image, start: (i32, i32), tip: (i32, i32), width: u32)
    requires
        old(image).wf(),
    ensures
        final(image).wf(),
        final(image)@ == old(image)@.inked(stroke(point(start), point(tip), width as int)),
{
    image.plot_line_width(start, tip, width);
}

} // verus!
