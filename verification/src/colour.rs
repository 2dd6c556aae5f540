//! Palettes: the ordered colours from which a region's gradient is built.
//!
//! A palette does not look inside a colour. It is generic in the colour type,
//! and whoever blends colours hands the blending function in.
use crate::rng::uniform_below;
use crate::surface::{Gradient, Stop};
use std::collections::VecDeque;
use vstd::prelude::*;

verus! {

/// The part of a palette that its left child keeps: all of it, or all but the
/// last colour once the palette holds five or more.
pub open spec fn left_base<C>(parent: Seq<C>) -> Seq<C> {
    if parent.len() >= 5 {
        parent.drop_last()
    } else {
        parent
    }
}

/// The part of a palette that its right child keeps: all of it, or all but
/// the first colour once the palette holds five or more.
pub open spec fn right_base<C>(parent: Seq<C>) -> Seq<C> {
    if parent.len() >= 5 {
        parent.drop_first()
    } else {
        parent
    }
}

/// That `colour` is a possible result of blending the colours of `base`.
pub open spec fn blended_from<C, F: Fn(&VecDeque<C>) -> C>(mix: F, base: Seq<C>, colour: C) -> bool {
    exists|v: VecDeque<C>| (#[trigger] v@) == base && call_ensures(mix, (&v,), colour)
}

/// That `child` is `base` with one blend of `base` inserted before one of its
/// colours.
pub open spec fn grown_from<C, F: Fn(&VecDeque<C>) -> C>(mix: F, base: Seq<C>, child: Seq<C>) -> bool {
    exists|at: int, colour: C|
        0 <= at < base.len() && blended_from(mix, base, colour) && child == #[trigger] base.insert(
            at,
            colour,
        )
}

/// That `left` and `right` are a possible outcome of forking `parent`.
pub open spec fn forked_from<C, F: Fn(&VecDeque<C>) -> C>(
    mix: F,
    parent: Seq<C>,
    left: Seq<C>,
    right: Seq<C>,
) -> bool {
    &&& grown_from(mix, left_base(parent), left)
    &&& grown_from(mix, right_base(parent), right)
}

/// The denominator of the stop positions of a palette of `n` colours: the
/// index of its last colour, or one where there is no second colour.
pub open spec fn last_place(n: nat) -> nat {
    if n >= 2 {
        (n - 1) as nat
    } else {
        1
    }
}

/// The gradient stops of a palette: colour `i` of `n` sits at `i / (n - 1)`.
/// A palette of one colour has its only stop at the start.
pub open spec fn stops_of<C>(colours: Seq<C>) -> Seq<Stop<C>> {
    Seq::new(
        colours.len(),
        |i: int|
            Stop { position: i as usize, of: last_place(colours.len()) as usize, colour: colours[i] },
    )
}

/// An ordered, non-shared list of colours. The order is the order of the
/// gradient stops, first colour first.
pub struct Colours<C>(VecDeque<C>);

impl<C> View for Colours<C> {
    type V = Seq<C>;

    closed spec fn view(&self) -> Seq<C> {
        self.0@
    }
}

impl<C: Copy> Colours<C> {
    /// A palette of the given colours, in their order.
    pub fn new(colours: VecDeque<C>) -> (palette: Self)
        ensures
            palette@ == colours@,
    {
        Colours(colours)
    }

    pub fn len(&self) -> (n: usize)
        ensures
            n == self@.len(),
    {
        self.0.len()
    }

    /// The colour at place `i`.
    pub fn get(&self, i: usize) -> (colour: C)
        requires
            i < self@.len(),
        ensures
            colour == self@[i as int],
    {
        self.0[i]
    }

    /// The colours from place `from` up to, not including, place `to`.
    fn copy_range(&self, from: usize, to: usize) -> (part: VecDeque<C>)
        requires
            from <= to <= self@.len(),
        ensures
            part@ == self@.subrange(from as int, to as int),
    {
        let mut part: VecDeque<C> = VecDeque::new();
        let mut i: usize = from;
        while i < to
            invariant
                from <= i <= to <= self@.len(),
                part@ == self@.subrange(from as int, i as int),
            decreases to - i,
        {
            part.push_back(self.0[i]);
            i += 1;
        }
        part
    }

    /// What the left child of this palette starts from.
    pub fn left_base(&self) -> (base: VecDeque<C>)
        ensures
            base@ == left_base(self@),
    {
        let n: usize = self.0.len();
        if n >= 5 {
            self.copy_range(0, n - 1)
        } else {
            self.copy_range(0, n)
        }
    }

    /// What the right child of this palette starts from.
    pub fn right_base(&self) -> (base: VecDeque<C>)
        ensures
            base@ == right_base(self@),
    {
        let n: usize = self.0.len();
        if n >= 5 {
            self.copy_range(1, n)
        } else {
            self.copy_range(0, n)
        }
    }

    /// Forks the palette with the two new colours and their places given.
    pub fn split_with(&self, left_at: usize, left_new: C, right_at: usize, right_new: C) -> (r: (
        Self,
        Self,
    ))
        requires
            left_at <= left_base(self@).len(),
            right_at <= right_base(self@).len(),
        ensures
            r.0@ == left_base(self@).insert(left_at as int, left_new),
            r.1@ == right_base(self@).insert(right_at as int, right_new),
    {
        let mut left = self.left_base();
        let mut right = self.right_base();
        left.insert(left_at, left_new);
        right.insert(right_at, right_new);
        (Colours(left), Colours(right))
    }
    /// Forks the palette. Each child starts from its base, blends one new
    /// colour from that base, and inserts it before a colour of the base that
    /// is drawn uniformly.
    pub fn split<F: Fn(&VecDeque<C>) -> C>(&self, mix: &F) -> (r: (Self, Self))
        requires
            self@.len() >= 1,
            forall|v: VecDeque<C>|
                v@ == left_base(self@) || v@ == right_base(self@) ==> call_requires(*mix, (&v,)),
        ensures
            forked_from(*mix, self@, r.0@, r.1@),
            self@.len() >= 5 ==> r.0@.len() == self@.len() && r.1@.len() == self@.len(),
            self@.len() < 5 ==> r.0@.len() == self@.len() + 1 && r.1@.len() == self@.len() + 1,
    {
        let mut left = self.left_base();
        let mut right = self.right_base();
        let left_at: usize = uniform_below(left.len() as u64) as usize;
        let left_new: C = mix(&left);
        let right_at: usize = uniform_below(right.len() as u64) as usize;
        let right_new: C = mix(&right);
        proof {
            assert(blended_from(*mix, left_base(self@), left_new)) by {
                assert(left@ == left_base(self@) && call_ensures(*mix, (&left,), left_new));
            }
            assert(blended_from(*mix, right_base(self@), right_new)) by {
                assert(right@ == right_base(self@) && call_ensures(*mix, (&right,), right_new));
            }
        }
        left.insert(left_at, left_new);
        right.insert(right_at, right_new);
        (Colours(left), Colours(right))
    }
    /// A fresh palette of five colours, each made by `make`.
    pub fn random<G: Fn() -> C>(make: &G) -> (palette: Self)
        requires
            call_requires(*make, ()),
        ensures
            palette@.len() == 5,
            forall|i: int| 0 <= i < 5 ==> call_ensures(*make, (), #[trigger] palette@[i]),
    {
        let mut colours: VecDeque<C> = VecDeque::new();
        let mut i: usize = 0;
        while i < 5
            invariant
                i <= 5,
                colours@.len() == i,
                call_requires(*make, ()),
                forall|k: int| 0 <= k < i ==> call_ensures(*make, (), #[trigger] colours@[k]),
            decreases 5 - i,
        {
            let colour: C = make();
            colours.push_back(colour);
            i += 1;
        }
        Colours(colours)
    }

    /// Appends this palette's stops to a gradient.
    pub fn add_gradient_stops(&self, gradient: &mut Gradient<C>)
        ensures
            final(gradient).stops@ == old(gradient).stops@ + stops_of(self@),
            final(gradient).x0 == old(gradient).x0,
            final(gradient).y0 == old(gradient).y0,
            final(gradient).x1 == old(gradient).x1,
            final(gradient).y1 == old(gradient).y1,
    {
        let n: usize = self.0.len();
        let max_ix: usize = if n >= 2 {
            n - 1
        } else {
            1
        };
        let ghost before = gradient.stops@;
        let mut ix: usize = 0;
        while ix < n
            invariant
                ix <= n,
                n == self@.len(),
                max_ix == last_place(self@.len()),
                gradient.stops@ == before + stops_of(self@).subrange(0, ix as int),
                gradient.x0 == old(gradient).x0,
                gradient.y0 == old(gradient).y0,
                gradient.x1 == old(gradient).x1,
                gradient.y1 == old(gradient).y1,
            decreases n - ix,
        {
            gradient.stops.push(Stop { position: ix, of: max_ix, colour: self.0[ix] });
            ix += 1;
            assert(gradient.stops@ =~= before + stops_of(self@).subrange(0, ix as int));
        }
        assert(stops_of(self@).subrange(0, n as int) =~= stops_of(self@));
    }
}

/// A fork keeps the length of a palette of five or more colours, and adds one
/// colour to a shorter one: a palette of five forks into two palettes of
/// five, four of them kept and one new.
pub proof fn lemma_fork_lengths<C, F: Fn(&VecDeque<C>) -> C>(
    mix: F,
    parent: Seq<C>,
    left: Seq<C>,
    right: Seq<C>,
)
    requires
        forked_from(mix, parent, left, right),
    ensures
        parent.len() >= 5 ==> left.len() == parent.len() && right.len() == parent.len(),
        parent.len() < 5 ==> left.len() == parent.len() + 1 && right.len() == parent.len() + 1,
        left.len() >= 1,
        right.len() >= 1,
{
}

/// The stops of a palette span the gradient: the first sits at its start,
/// the last of two or more at its end, and each sits strictly before the
/// next, so that they are in strictly increasing order.
pub proof fn lemma_stops_span<C>(colours: Seq<C>)
    requires
        1 <= colours.len() <= usize::MAX,
    ensures
        stops_of(colours).len() == colours.len(),
        stops_of(colours)[0].at_start(),
        colours.len() >= 2 ==> stops_of(colours)[colours.len() - 1].at_end(),
        forall|i: int, j: int|
            0 <= i < j < colours.len() ==> (#[trigger] stops_of(colours)[i]).before(
                #[trigger] stops_of(colours)[j],
            ),
        forall|i: int|
            0 <= i < colours.len() ==> (#[trigger] stops_of(colours)[i]).colour == colours[i],
{
    let d = last_place(colours.len());
    assert forall|i: int, j: int| 0 <= i < j < colours.len() implies (#[trigger] stops_of(
        colours,
    )[i]).before(#[trigger] stops_of(colours)[j]) by {
        assert(i * d < j * d) by (nonlinear_arith)
            requires
                0 <= i < j,
                d > 0,
        ;
    }
}

} // verus!
