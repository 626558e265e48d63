//! A cursor that walks up and down a row of frames.

use vstd::prelude::*;
use vstd::arithmetic::div_mod::{lemma_fundamental_div_mod, lemma_fundamental_div_mod_converse, lemma_mod_bound};

verus! {

/// A cursor into a row of frames, with the direction it moves in. It counts
/// up to the last frame, turns, counts down to the first, turns again, and
/// so plays a swing back and forth from frames of the way forth alone.
#[derive(Clone, Copy, Debug, PartialEq, Eq)]
pub struct PingPongIndex {
    pub index: usize,
    pub up: bool,
}

/// Where a cursor at `index`, moving up or down, stands after one step
/// along `len` frames. At either end it turns and steps back at once, so
/// that no end frame is shown twice in a row.
pub open spec fn stepped(index: int, up: bool, len: int) -> (int, bool) {
    if len <= 1 {
        (index, !up)
    } else if up {
        if index + 1 >= len {
            (index - 1, false)
        } else {
            (index + 1, true)
        }
    } else {
        if index == 0 {
            (1, true)
        } else {
            (index - 1, false)
        }
    }
}

/// Where a cursor that starts at the first frame, moving up, stands after
/// `steps` steps.
pub open spec fn walked(len: int, steps: nat) -> (int, bool)
    decreases steps,
{
    if steps == 0 {
        (0, true)
    } else {
        let before = walked(len, (steps - 1) as nat);
        stepped(before.0, before.1, len)
    }
}

/// The triangle wave of period `2 * (len - 1)` that the cursor follows.
pub open spec fn swing(len: int, steps: int) -> int {
    let m = steps % (2 * (len - 1));
    if m <= len - 1 {
        m
    } else {
        2 * (len - 1) - m
    }
}

impl PingPongIndex {
    /// The cursor points at one of `len` frames.
    pub open spec fn wf(&self, len: int) -> bool {
        self.index < len
    }

    /// A cursor at the first frame, about to move up.
    pub fn new() -> (cursor: PingPongIndex)
        ensures
            cursor.index == 0,
            cursor.up,
    {
        PingPongIndex { index: 0, up: true }
    }

    /// Moves the cursor one step along `len` frames.
    pub fn advance(&mut self, len: usize)
        requires
            old(self).wf(len as int),
        ensures
            final(self).wf(len as int),
            (final(self).index as int, final(self).up) == stepped(
                old(self).index as int,
                old(self).up,
                len as int,
            ),
            len >= 2 ==> final(self).index != old(self).index,
    {
        if len <= 1 {
            self.up = !self.up;
        } else if self.up {
            if self.index + 1 == len {
                self.up = false;
                self.index -= 1;
            } else {
                self.index += 1;
            }
        } else {
            if self.index == 0 {
                self.up = true;
                self.index = 1;
            } else {
                self.index -= 1;
            }
        }
    }
}

/// From the first frame the cursor follows a triangle wave: it stays among
/// the frames, shows `0, 1, .., len - 1, len - 2, .., 1, 0, 1, ..`, and
/// moves by exactly one frame at every step.
pub proof fn lemma_walk(len: int, steps: nat)
    requires
        len >= 2,
    ensures
        walked(len, steps).0 == swing(len, steps as int),
        0 <= walked(len, steps).0 < len,
        walked(len, steps).1 == (steps == 0 || 1 <= steps as int % (2 * (len - 1)) <= len - 1),
        walked(len, steps + 1).0 == walked(len, steps).0 + 1 || walked(len, steps + 1).0 == walked(
            len,
            steps,
        ).0 - 1,
    decreases steps,
{
    let period = 2 * (len - 1);
    lemma_mod_bound(steps as int, period);
    if steps > 0 {
        lemma_walk(len, (steps - 1) as nat);
        let k = steps - 1;
        lemma_mod_bound(k, period);
        lemma_fundamental_div_mod(k, period);
        let q = k / period;
        let m = k % period;
        assert(period * q == q * period) by (nonlinear_arith);
        if m + 1 < period {
            lemma_fundamental_div_mod_converse(steps as int, period, q, m + 1);
        } else {
            assert((q + 1) * period == q * period + period) by (nonlinear_arith);
            lemma_fundamental_div_mod_converse(steps as int, period, q + 1, 0);
        }
    } else {
        assert(0int % period == 0) by {
            lemma_fundamental_div_mod_converse(0, period, 0, 0);
        }
    }
    assert(walked(len, steps + 1) == stepped(walked(len, steps).0, walked(len, steps).1, len));
}

} // verus!
