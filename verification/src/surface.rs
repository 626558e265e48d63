//! What a drawing routine may ask of the thing it draws on.

use vstd::prelude::*;

verus! {

/// A rectangular grid of pixels on which ink can be put down, one pixel at a
/// time. Ink is never taken off by plotting, and a plot outside the grid does
/// nothing.
///
/// The abstract state of a surface is its view. `inked` says what that state
/// becomes once a set of pixels has been plotted, in any order; the three laws
/// make shapes composable: drawing one shape and then another is drawing their
/// union.
pub trait Surface: View + Sized {
    /// Whether the buffer behind the surface matches its dimensions.
    spec fn valid(model: Self::V) -> bool;

    /// Width and height of the grid.
    spec fn extent(model: Self::V) -> (nat, nat);

    /// Whether pixel `(x, y)` lies in the grid and carries ink.
    spec fn has_ink(model: Self::V, x: int, y: int) -> bool;

    /// The state after every pixel of `shape` has been plotted.
    spec fn inked(model: Self::V, shape: Set<(int, int)>) -> Self::V;

    /// Plotting nothing changes nothing.
    proof fn lemma_inked_nothing(model: Self::V)
        requires
            Self::valid(model),
        ensures
            Self::inked(model, Set::empty()) == model,
    ;

    /// Plotting `first` and then `second` is plotting their union.
    proof fn lemma_inked_twice(model: Self::V, first: Set<(int, int)>, second: Set<(int, int)>)
        requires
            Self::valid(model),
        ensures
            Self::valid(Self::inked(model, first)),
            Self::inked(Self::inked(model, first), second) == Self::inked(
                model,
                first.union(second),
            ),
    ;

    /// After plotting, a pixel of the grid carries ink exactly if it did
    /// before or belongs to the shape; the grid keeps its size.
    proof fn lemma_inked_ink(model: Self::V, shape: Set<(int, int)>, x: int, y: int)
        requires
            Self::valid(model),
        ensures
            Self::extent(Self::inked(model, shape)) == Self::extent(model),
            Self::has_ink(Self::inked(model, shape), x, y) <==> (Self::has_ink(model, x, y) || (
            0 <= x < Self::extent(model).0 && 0 <= y < Self::extent(model).1 && shape.contains(
                (x, y),
            ))),
    ;

    /// Puts ink on pixel `(x, y)`; does nothing if it lies outside the grid.
    fn plot_at(&mut self, x: i64, y: i64)
        requires
            Self::valid(old(self)@),
        ensures
            Self::valid(final(self)@),
            final(self)@ == Self::inked(old(self)@, set![(x as int, y as int)]),
    ;
}

} // verus!
