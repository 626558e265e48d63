//! One tick of the clock: the layers are laid onto the canvas in a fixed
//! order, the hands move when their time has come, and the animation steps
//! on.

use vstd::prelude::*;
use crate::canvas::{composited, Canvas};
use crate::clock::{minute_due, second_due, ticked, ClockState};
use crate::color::{AZURE_BLUE, BLACK, WHITE};
use crate::hands::{
    draw_second, hour_position, Segment, DIAL_POSITIONS, HOUR_WIDTH, MINUTE_WIDTH, SECOND_WIDTH,
};
use crate::image::{Image, ImageView};
use crate::line::{point, stroke};
use crate::pingpong::{stepped, PingPongIndex};

verus! {

/// Everything a tick reads and never changes: the resting tail and eyes,
/// their pictures for every phase of the swing, and where each hand lies in
/// each of its sixty positions.
pub struct Layers {
    pub tail: Image,
    pub eyes: Image,
    pub tails_frames: Vec<Image>,
    pub eyes_frames: Vec<Image>,
    pub second_dial: Vec<Segment>,
    pub minute_dial: Vec<Segment>,
    pub hour_dial: Vec<Segment>,
}

/// The pictures of the three hands as they are shown now.
pub struct Hands {
    pub second: Image,
    pub minute: Image,
    pub hour: Image,
}

/// The counters that a tick moves: the time shown and the phase of the
/// swing.
#[derive(Clone, Copy, Debug, PartialEq, Eq)]
pub struct Scheduler {
    pub clock: ClockState,
    pub phase: PingPongIndex,
}

impl Layers {
    /// Every picture matches its size, there is a tail and an eye picture
    /// for every phase and at least one phase, and every dial is complete.
    pub open spec fn wf(&self) -> bool {
        &&& self.tail.wf()
        &&& self.eyes.wf()
        &&& self.tails_frames@.len() > 0
        &&& self.tails_frames@.len() == self.eyes_frames@.len()
        &&& forall|i: int| 0 <= i < self.tails_frames@.len() ==> (#[trigger] self.tails_frames@[i]).wf()
        &&& forall|i: int| 0 <= i < self.eyes_frames@.len() ==> (#[trigger] self.eyes_frames@[i]).wf()
        &&& self.second_dial@.len() == DIAL_POSITIONS
        &&& self.minute_dial@.len() == DIAL_POSITIONS
        &&& self.hour_dial@.len() == DIAL_POSITIONS
    }
}

impl Hands {
    pub open spec fn wf(&self) -> bool {
        self.second.wf() && self.minute.wf() && self.hour.wf()
    }
}

impl Scheduler {
    /// The time is valid and the phase points at one of `phases` frames.
    pub open spec fn wf(&self, phases: int) -> bool {
        self.clock.wf() && self.phase.wf(phases)
    }

    /// The counters at the start: the given hour, the first phase, and a
    /// minute hand that is due at the first tick.
    pub fn new(hour: u8, now_ms: u64) -> (scheduler: Scheduler)
        ensures
            scheduler.clock == (ClockState {
                hour,
                minutes: 0,
                seconds: 0,
                passed_seconds: 60,
                last_second_ms: now_ms,
            }),
            scheduler.phase == (PingPongIndex { index: 0, up: true }),
    {
        Scheduler { clock: ClockState::new(hour, now_ms), phase: PingPongIndex::new() }
    }
}

/// The canvas after the animated layers of one phase have been laid onto
/// it: the resting tail and eyes with their background, which wipes the
/// phase before, then the tail and the eyes of this phase.
pub open spec fn animated(canvas: Seq<u32>, canvas_width: int, layers: Layers, phase: int) -> Seq<u32> {
    let wiped_tail = composited(canvas, canvas_width, layers.tail@, BLACK, Some(WHITE));
    let wiped = composited(wiped_tail, canvas_width, layers.eyes@, BLACK, Some(WHITE));
    let with_tail = composited(wiped, canvas_width, layers.tails_frames@[phase]@, BLACK, None);
    composited(with_tail, canvas_width, layers.eyes_frames@[phase]@, BLACK, None)
}

/// The picture of a hand after it has been cleared and drawn in a new
/// position.
pub open spec fn hand_moved(hand: ImageView, segment: Segment, width: u32) -> ImageView {
    hand.cleared().inked(stroke(point(segment.start), point(segment.tip), width as int))
}

/// The canvas after a hand has been painted over in the paper colour.
pub open spec fn hand_erased(canvas: Seq<u32>, canvas_width: int, hand: ImageView) -> Seq<u32> {
    composited(canvas, canvas_width, hand, WHITE, None)
}

/// The canvas after a hand has been laid onto it.
pub open spec fn hand_shown(canvas: Seq<u32>, canvas_width: int, hand: ImageView) -> Seq<u32> {
    composited(canvas, canvas_width, hand, BLACK, None)
}

/// The hands after a tick that leaves the clock in state `clock`.
pub open spec fn hands_after(
    hands: (ImageView, ImageView, ImageView),
    layers: Layers,
    clock: ClockState,
    second: bool,
    minute: bool,
) -> (ImageView, ImageView, ImageView) {
    (
        if second {
            hand_moved(hands.0, layers.second_dial@[clock.seconds as int], SECOND_WIDTH)
        } else {
            hands.0
        },
        if minute {
            hand_moved(hands.1, layers.minute_dial@[clock.minutes as int], MINUTE_WIDTH)
        } else {
            hands.1
        },
        hand_moved(hands.2, layers.hour_dial@[((clock.hour % 12) * 5) as int], HOUR_WIDTH),
    )
}

/// The canvas after a tick: the animated layers, then the second hand if
/// it moved, then the minute hand, then the hour hand. A hand that moves is
/// first painted over where it was.
pub open spec fn canvas_after(
    canvas: Seq<u32>,
    canvas_width: int,
    layers: Layers,
    phase: int,
    before: (ImageView, ImageView, ImageView),
    after: (ImageView, ImageView, ImageView),
    second: bool,
    minute: bool,
) -> Seq<u32> {
    let scene = animated(canvas, canvas_width, layers, phase);
    let with_second = if second {
        hand_shown(hand_erased(scene, canvas_width, before.0), canvas_width, after.0)
    } else {
        scene
    };
    let without_minute = if minute {
        hand_erased(with_second, canvas_width, before.1)
    } else {
        with_second
    };
    let with_minute = hand_shown(without_minute, canvas_width, after.1);
    hand_shown(hand_erased(with_minute, canvas_width, before.2), canvas_width, after.2)
}

/// The canvas after the body of the cat has been drawn: the belly in white
/// with its background, then the outline in black, the tie in blue, and the
/// resting tail and eyes in black.
pub open spec fn body_drawn(
    canvas: Seq<u32>,
    canvas_width: int,
    belly: ImageView,
    outline: ImageView,
    tie: ImageView,
    tail: ImageView,
    eyes: ImageView,
) -> Seq<u32> {
    let c1 = composited(canvas, canvas_width, belly, WHITE, Some(WHITE));
    let c2 = composited(c1, canvas_width, outline, BLACK, None);
    let c3 = composited(c2, canvas_width, tie, AZURE_BLUE, None);
    let c4 = composited(c3, canvas_width, tail, BLACK, None);
    composited(c4, canvas_width, eyes, BLACK, None)
}

/// Draws the body of the cat, once, before the first tick.
pub fn draw_body(
    canvas: &mut Canvas,
    belly: &Image,
    outline: &Image,
    tie: &Image,
    tail: &Image,
    eyes: &Image,
)
    requires
        belly.wf(),
        outline.wf(),
        tie.wf(),
        tail.wf(),
        eyes.wf(),
    ensures
        final(canvas).width == old(canvas).width,
        final(canvas).height == old(canvas).height,
        final(canvas).pixels@ == body_drawn(
            old(canvas).pixels@,
            old(canvas).width as int,
            belly@,
            outline@,
            tie@,
            tail@,
            eyes@,
        ),
{
    belly.draw(canvas, WHITE, Some(WHITE));
    outline.draw(canvas, BLACK, None);
    tie.draw(canvas, AZURE_BLUE, None);
    tail.draw(canvas, BLACK, None);
    eyes.draw(canvas, BLACK, None);
}

/// Lays the animated layers of one phase onto the canvas.
pub fn draw_animation(layers: &Layers, canvas: &mut Canvas, phase: usize)
    requires
        layers.wf(),
        phase < layers.tails_frames@.len(),
    ensures
        final(canvas).width == old(canvas).width,
        final(canvas).height == old(canvas).height,
        final(canvas).pixels@ == animated(
            old(canvas).pixels@,
            old(canvas).width as int,
            *layers,
            phase as int,
        ),
{
    layers.tail.draw(canvas, BLACK, Some(WHITE));
    layers.eyes.draw(canvas, BLACK, Some(WHITE));
    layers.tails_frames[phase].draw(canvas, BLACK, None);
    layers.eyes_frames[phase].draw(canvas, BLACK, None);
}

/// Takes a hand off the canvas and draws it anew, on its own picture, in
/// the given position.
pub fn move_hand(hand: &mut Image, canvas: &mut Canvas, segment: Segment, width: u32)
    requires
        old(hand).wf(),
    ensures
        final(hand).wf(),
        final(hand)@ == hand_moved(old(hand)@, segment, width),
        final(canvas).width == old(canvas).width,
        final(canvas).height == old(canvas).height,
        final(canvas).pixels@ == hand_erased(
            old(canvas).pixels@,
            old(canvas).width as int,
            old(hand)@,
        ),
{
    hand.draw(canvas, WHITE, None);
    hand.clear();
    draw_second(hand, segment.start, segment.tip, width);
}

/// Draws one tick onto the canvas and moves the counters on.
///
/// In this order: the animated layers of the current phase; the second
/// hand, if a second has gone by; the minute hand, moved first if the
/// minute is full; the hour hand; and last the phase steps on.
pub fn tick(
    scheduler: &mut Scheduler,
    layers: &Layers,
    hands: &mut Hands,
    canvas: &mut Canvas,
    now_ms: u64,
    wall_seconds: u64,
)
    requires
        layers.wf(),
        old(hands).wf(),
        old(scheduler).wf(layers.tails_frames@.len() as int),
    ensures
        final(hands).wf(),
        final(scheduler).wf(layers.tails_frames@.len() as int),
        final(scheduler).clock == ticked(old(scheduler).clock, now_ms, wall_seconds),
        (final(scheduler).phase.index as int, final(scheduler).phase.up) == stepped(
            old(scheduler).phase.index as int,
            old(scheduler).phase.up,
            layers.tails_frames@.len() as int,
        ),
        (final(hands).second@, final(hands).minute@, final(hands).hour@) == hands_after(
            (old(hands).second@, old(hands).minute@, old(hands).hour@),
            *layers,
            final(scheduler).clock,
            second_due(old(scheduler).clock.last_second_ms, now_ms),
            minute_due(old(scheduler).clock, now_ms),
        ),
        final(canvas).width == old(canvas).width,
        final(canvas).height == old(canvas).height,
        final(canvas).pixels@ == canvas_after(
            old(canvas).pixels@,
            old(canvas).width as int,
            *layers,
            old(scheduler).phase.index as int,
            (old(hands).second@, old(hands).minute@, old(hands).hour@),
            (final(hands).second@, final(hands).minute@, final(hands).hour@),
            second_due(old(scheduler).clock.last_second_ms, now_ms),
            minute_due(old(scheduler).clock, now_ms),
        ),
{
    draw_animation(layers, canvas, scheduler.phase.index);
    let plan = scheduler.clock.advance(now_ms, wall_seconds);
    if plan.redraw_second {
        let segment = layers.second_dial[scheduler.clock.seconds as usize];
        move_hand(&mut hands.second, canvas, segment, SECOND_WIDTH);
        hands.second.draw(canvas, BLACK, None);
    }
    if plan.redraw_minute {
        let segment = layers.minute_dial[scheduler.clock.minutes as usize];
        move_hand(&mut hands.minute, canvas, segment, MINUTE_WIDTH);
    }
    hands.minute.draw(canvas, BLACK, None);
    let segment = layers.hour_dial[hour_position(scheduler.clock.hour) as usize];
    move_hand(&mut hands.hour, canvas, segment, HOUR_WIDTH);
    hands.hour.draw(canvas, BLACK, None);
    scheduler.phase.advance(layers.tails_frames.len());
}

} // verus!
