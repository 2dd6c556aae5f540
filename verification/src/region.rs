//! Rectangular regions of the canvas and how they are subdivided.
use crate::colour::{forked_from, lemma_fork_lengths, stops_of, Colours};
use crate::field::SubArgs;
use crate::rng::uniform_below;
use crate::surface::{Gradient, Paint, Stop};
use std::collections::VecDeque;
use vstd::prelude::*;

verus! {

/// One axis of a rectangle: the half-open interval `[min, max)` together with
/// the inset that is taken off both ends to reach its inner part.
#[derive(Copy, Clone, Debug)]
pub struct Range {
    pub min: i32,
    pub max: i32,
    pub size: i32,
    pub border: i32,
}

impl Range {
    /// The stored size is the distance between the bounds, and the inset is
    /// not negative.
    pub open spec fn wf(self) -> bool {
        &&& self.size == self.max - self.min
        &&& self.border >= 0
    }

    /// Lower bound of the inner interval.
    pub open spec fn inner_min(self) -> int {
        self.min + self.border
    }

    /// Upper bound of the inner interval.
    pub open spec fn inner_max(self) -> int {
        self.max - self.border
    }

    /// Length of the inner interval; negative when the insets overlap.
    pub open spec fn inner_size(self) -> int {
        self.max - self.min - 2 * self.border
    }

    /// Whether an interval of this size leaves room for a cut.
    pub open spec fn spec_is_splittable(self) -> bool {
        self.size > 2 * (self.border + 1)
    }

    /// Whether the inner interval fits the machine integers of a `Range`.
    pub open spec fn inner_fits(self) -> bool {
        &&& self.inner_min() <= i32::MAX
        &&& i32::MIN <= self.inner_max()
        &&& i32::MIN <= self.inner_size() <= i32::MAX
    }

    /// The inner interval as a range of its own, with the same inset.
    pub open spec fn spec_inner(self) -> Range {
        Range {
            min: self.inner_min() as i32,
            max: self.inner_max() as i32,
            size: self.inner_size() as i32,
            border: self.border,
        }
    }

    /// The two parts of this interval when it is cut `at` units above `min`.
    pub open spec fn spec_split(self, at: int) -> (Range, Range) {
        (
            Range { min: self.min, max: (self.min + at) as i32, size: at as i32, border: self.border },
            Range {
                min: (self.min + at) as i32,
                max: self.max,
                size: (self.max - self.min - at) as i32,
                border: self.border,
            },
        )
    }

    pub fn new(min: i32, max: i32, border: i32) -> (r: Range)
        requires
            i32::MIN <= max - min <= i32::MAX,
        ensures
            r == (Range { min, max, size: (max - min) as i32, border }),
            border >= 0 ==> r.wf(),
    {
        let size: i32 = max - min;
        Range { min, max, size, border }
    }

    pub fn inner(&self) -> (r: Range)
        requires
            self.border >= 0,
            self.inner_fits(),
        ensures
            r == self.spec_inner(),
            r.wf(),
            r.size == self.inner_size(),
    {
        Range::new(self.min + self.border, self.max - self.border, self.border)
    }

    pub fn is_splittable(&self) -> (r: bool)
        ensures
            r == self.spec_is_splittable(),
    {
        let size: i64 = self.size as i64;
        let border: i64 = self.border as i64;
        size > 2 * (border + 1)
    }

    pub fn split(&self, at: i32) -> (r: (Range, Range))
        requires
            self.wf(),
            0 <= at <= self.size,
        ensures
            r == self.spec_split(at as int),
            r.0.wf(),
            r.1.wf(),
            r.0.size + r.1.size == self.size,
            r.0.max == r.1.min,
    {
        (
            Range::new(self.min, self.min + at, self.border),
            Range::new(self.min + at, self.max, self.border),
        )
    }
}

/// An axis-aligned rectangle with an inset. The rectangle that is painted is
/// the outer one, `x` by `y`; cuts are made inside the inner one, which lies
/// `border` units in from every side.
#[derive(Copy, Clone, Debug)]
pub struct Region {
    pub x: Range,
    pub y: Range,
    pub border: i32,
}

impl Region {
    /// Both axes are well formed, start at or above the origin, and share the
    /// region's inset.
    pub open spec fn wf(self) -> bool {
        &&& self.border >= 0
        &&& self.x.wf()
        &&& self.y.wf()
        &&& self.x.border == self.border
        &&& self.y.border == self.border
        &&& self.x.min >= 0
        &&& self.y.min >= 0
    }

    /// A region can be cut when the inner interval of each axis is longer
    /// than twice the inset plus two.
    pub open spec fn spec_is_splittable(self) -> bool {
        &&& self.x.inner_size() > 2 * (self.x.border + 1)
        &&& self.y.inner_size() > 2 * (self.y.border + 1)
    }

    /// The number of places at which a cut can be made: one for each unit of
    /// the inner width and of the inner height.
    pub open spec fn perimeter_weight(self) -> int {
        self.x.inner_size() + self.y.inner_size()
    }

    /// The two halves that a cut at `t` gives. Values of `t` below the inner
    /// width cut the x axis at that offset; the others cut the y axis at what
    /// remains of `t`. The axis that is not cut keeps its whole inner
    /// interval.
    pub open spec fn spec_split_at(self, t: int) -> (Region, Region) {
        let xi = self.x.spec_inner();
        let yi = self.y.spec_inner();
        if t < self.x.inner_size() {
            let (low, high) = xi.spec_split(t);
            (
                Region { x: low, y: yi, border: self.border },
                Region { x: high, y: yi, border: self.border },
            )
        } else {
            let (low, high) = yi.spec_split(t - self.x.inner_size());
            (
                Region { x: xi, y: low, border: self.border },
                Region { x: xi, y: high, border: self.border },
            )
        }
    }

    /// The region that covers a whole canvas.
    pub fn new(args: &SubArgs, border: i32) -> (r: Region)
        requires
            border >= 0,
        ensures
            r.wf(),
            r.border == border,
            r.x == (Range { min: 0, max: args.size.0, size: args.size.0, border }),
            r.y == (Range { min: 0, max: args.size.1, size: args.size.1, border }),
    {
        Region {
            x: Range::new(0, args.size.0, border),
            y: Range::new(0, args.size.1, border),
            border,
        }
    }

    pub fn is_splittable(&self) -> (r: bool)
        ensures
            r == self.spec_is_splittable(),
    {
        let bx: i64 = self.x.border as i64;
        let by: i64 = self.y.border as i64;
        let sx: i64 = self.x.max as i64 - self.x.min as i64 - 2 * bx;
        let sy: i64 = self.y.max as i64 - self.y.min as i64 - 2 * by;
        sx > 2 * (bx + 1) && sy > 2 * (by + 1)
    }

    /// Cuts the region at a given place.
    pub fn split_at(&self, t: i64) -> (r: (Region, Region))
        requires
            self.wf(),
            self.spec_is_splittable(),
            0 <= t < self.perimeter_weight(),
        ensures
            r == self.spec_split_at(t as int),
            r.0.wf(),
            r.1.wf(),
    {
        let x_inner = self.x.inner();
        let y_inner = self.y.inner();
        if t < x_inner.size as i64 {
            let (low_x, high_x) = x_inner.split(t as i32);
            (
                Region { x: low_x, y: y_inner, border: self.border },
                Region { x: high_x, y: y_inner, border: self.border },
            )
        } else {
            let (low_y, high_y) = y_inner.split((t - x_inner.size as i64) as i32);
            (
                Region { x: x_inner, y: low_y, border: self.border },
                Region { x: x_inner, y: high_y, border: self.border },
            )
        }
    }

    /// Cuts the region at a place drawn uniformly from its perimeter weight,
    /// so that the longer axis is the likelier one to be cut.
    pub fn split(&self) -> (r: (Region, Region))
        requires
            self.wf(),
            self.spec_is_splittable(),
        ensures
            exists|t: int| 0 <= t < self.perimeter_weight() && r == #[trigger] self.spec_split_at(t),
            r.0.wf(),
            r.1.wf(),
    {
        let inner_x: i64 = self.x.max as i64 - self.x.min as i64 - 2 * (self.x.border as i64);
        let inner_y: i64 = self.y.max as i64 - self.y.min as i64 - 2 * (self.y.border as i64);
        let perim: i64 = inner_x + inner_y;
        let drawn: u64 = uniform_below(perim as u64);
        self.split_at(drawn as i64)
    }

    /// That `paint` fills this region's outer rectangle with a gradient that
    /// runs from its first corner to its last and has the stops of `colours`.
    pub open spec fn painted_as<C>(self, colours: Seq<C>, paint: Paint<C>) -> bool {
        &&& paint.x == self.x.min
        &&& paint.y == self.y.min
        &&& paint.width == self.x.size
        &&& paint.height == self.y.size
        &&& paint.gradient.x0 == self.x.min
        &&& paint.gradient.y0 == self.y.min
        &&& paint.gradient.x1 == self.x.max
        &&& paint.gradient.y1 == self.y.max
        &&& paint.gradient.stops@ == stops_of(colours)
    }

    /// The gradient line of this region, corner to corner, without stops.
    pub fn get_gradient<C>(&self) -> (g: Gradient<C>)
        ensures
            g.x0 == self.x.min,
            g.y0 == self.y.min,
            g.x1 == self.x.max,
            g.y1 == self.y.max,
            g.stops@ == Seq::<Stop<C>>::empty(),
    {
        Gradient::new(self.x.min, self.y.min, self.x.max, self.y.max)
    }

    /// The one rectangle that this region itself contributes to a drawing.
    pub fn paint<C: Copy>(&self, colours: &Colours<C>) -> (paint: Paint<C>)
        ensures
            self.painted_as(colours@, paint),
    {
        let mut gradient = self.get_gradient();
        colours.add_gradient_stops(&mut gradient);
        assert(gradient.stops@ =~= stops_of(colours@));
        Paint { gradient, x: self.x.min, y: self.y.min, width: self.x.size, height: self.y.size }
    }

    /// Appends a drawing of this region to `out` and leaves what `out` held
    /// before as it was.
    fn render_into<C: Copy, F: Fn(&VecDeque<C>) -> C>(
        &self,
        colours: &Colours<C>,
        depth: u8,
        mix: &F,
        out: &mut Vec<Paint<C>>,
    )
        requires
            self.wf(),
            colours@.len() >= 1,
            forall|v: VecDeque<C>| v@.len() >= 1 ==> call_requires(*mix, (&v,)),
        ensures
            final(out)@.len() > old(out)@.len(),
            final(out)@.subrange(0, old(out)@.len() as int) == old(out)@,
            renders(
                *mix,
                *self,
                colours@,
                depth as nat,
                final(out)@.subrange(old(out)@.len() as int, final(out)@.len() as int),
            ),
        decreases depth,
    {
        let ghost start = out@.len() as int;
        let own = self.paint(colours);
        out.push(own);
        if depth > 0 && self.is_splittable() {
            let (rl, rr) = self.split();
            let (cl, cr) = colours.split(mix);
            let ghost t = choose|t: int|
                0 <= t < self.perimeter_weight() && (rl, rr) == #[trigger] self.spec_split_at(t);
            proof {
                lemma_fork_lengths(*mix, colours@, cl@, cr@);
            }
            let ghost before_left = out@;
            rl.render_into(&cl, depth - 1, mix, out);
            let ghost before_right = out@;
            rr.render_into(&cr, depth - 1, mix, out);
            proof {
                let plan = out@.subrange(start, out@.len() as int);
                let k = before_right.len() - start;
                assert(plan.subrange(1, k) =~= before_right.subrange(
                    before_left.len() as int,
                    before_right.len() as int,
                )) by {
                    assert(out@.subrange(0, before_right.len() as int) == before_right);
                    assert forall|i: int| 0 <= i < before_right.len() implies out@[i]
                        == before_right[i] by {
                        assert(out@.subrange(0, before_right.len() as int)[i] == out@[i]);
                    }
                }
                assert(plan.subrange(k, plan.len() as int) =~= out@.subrange(
                    before_right.len() as int,
                    out@.len() as int,
                ));
                assert(plan[0] == own) by {
                    assert(out@.subrange(0, before_right.len() as int)[start] == out@[start]);
                    assert(before_right.subrange(0, before_left.len() as int)[start]
                        == before_right[start]);
                }
                assert((rl, rr) == self.spec_split_at(t));
                assert(forked_from(*mix, colours@, cl@, cr@));
                assert(out@.subrange(0, start) =~= old(out)@) by {
                    assert forall|i: int| 0 <= i < start implies out@[i] == old(out)@[i] by {
                        assert(out@.subrange(0, before_right.len() as int)[i] == out@[i]);
                        assert(before_right.subrange(0, before_left.len() as int)[i]
                            == before_right[i]);
                    }
                }
            }
        } else {
            proof {
                let plan = out@.subrange(start, out@.len() as int);
                assert(plan[0] == own);
                assert(out@.subrange(0, start) =~= old(out)@);
            }
        }
    }

    /// Draws this region and, while depth remains and it can be cut, its two
    /// halves after it, the first half and all that lies in it before the
    /// second. The drawing is returned as the list of rectangles to fill, in
    /// the order in which they are to be filled.
    pub fn render<C: Copy, F: Fn(&VecDeque<C>) -> C>(
        &self,
        colours: &Colours<C>,
        depth: u8,
        mix: &F,
    ) -> (plan: Vec<Paint<C>>)
        requires
            self.wf(),
            colours@.len() >= 1,
            forall|v: VecDeque<C>| v@.len() >= 1 ==> call_requires(*mix, (&v,)),
        ensures
            renders(*mix, *self, colours@, depth as nat, plan@),
            self.painted_as(colours@, plan@[0]),
            depth == 0 || !self.spec_is_splittable() ==> plan@.len() == 1,
            1 <= plan@.len() <= most_paints(depth as nat),
    {
        let mut plan: Vec<Paint<C>> = Vec::new();
        self.render_into(colours, depth, mix, &mut plan);
        proof {
            assert(plan@.subrange(0, plan@.len() as int) =~= plan@);
            lemma_paints_bounded(*mix, *self, colours@, depth as nat, plan@);
        }
        plan
    }
}

/// That `plan` is a possible drawing of `region` with `colours` to the given
/// depth: first the region's own rectangle; then, if depth remains and the
/// region can be cut, a drawing of each half of some cut with its half of some
/// fork of the palette, one depth less; and nothing else.
pub open spec fn renders<C, F: Fn(&VecDeque<C>) -> C>(
    mix: F,
    region: Region,
    colours: Seq<C>,
    depth: nat,
    plan: Seq<Paint<C>>,
) -> bool
    decreases depth,
{
    &&& plan.len() >= 1
    &&& region.painted_as(colours, plan[0])
    &&& if depth > 0 && region.spec_is_splittable() {
        exists|t: int, left: Seq<C>, right: Seq<C>, k: int|
            #![trigger
                region.spec_split_at(t),
                forked_from(mix, colours, left, right),
                plan.subrange(1, k)]
            {
                &&& 0 <= t < region.perimeter_weight()
                &&& forked_from(mix, colours, left, right)
                &&& 1 <= k <= plan.len()
                &&& renders(
                    mix,
                    region.spec_split_at(t).0,
                    left,
                    (depth - 1) as nat,
                    plan.subrange(1, k),
                )
                &&& renders(
                    mix,
                    region.spec_split_at(t).1,
                    right,
                    (depth - 1) as nat,
                    plan.subrange(k, plan.len() as int),
                )
            }
    } else {
        plan.len() == 1
    }
}

/// A point of the plane lies in the inner rectangle of `region`.
pub open spec fn in_inner(region: Region, px: int, py: int) -> bool {
    &&& region.x.inner_min() <= px < region.x.inner_max()
    &&& region.y.inner_min() <= py < region.y.inner_max()
}

/// A region can be cut exactly when the inner size of each axis exceeds
/// twice the inset plus two: one axis at or under that threshold is enough
/// to forbid the cut.
pub proof fn lemma_splittable_threshold(region: Region)
    requires
        region.wf(),
    ensures
        region.x.inner_size() <= 2 * (region.border + 1) ==> !region.spec_is_splittable(),
        region.y.inner_size() <= 2 * (region.border + 1) ==> !region.spec_is_splittable(),
        region.x.inner_size() > 2 * (region.border + 1) && region.y.inner_size() > 2 * (
        region.border + 1) ==> region.spec_is_splittable(),
{
}

/// Cutting never leaves the parent: whatever lies in the inner rectangle of
/// either half lies in the inner rectangle of the region that was cut. The
/// halves do not meet: along the axis that was cut, the inner interval of the
/// first ends at or before the place where that of the second begins, so no
/// point lies in both.
pub proof fn lemma_split_stays_inside(region: Region, t: int)
    requires
        region.wf(),
        region.spec_is_splittable(),
        0 <= t < region.perimeter_weight(),
    ensures
        forall|px: int, py: int|
            in_inner(region.spec_split_at(t).0, px, py) || in_inner(
                region.spec_split_at(t).1,
                px,
                py,
            ) ==> #[trigger] in_inner(region, px, py),
        forall|px: int, py: int|
            !(#[trigger] in_inner(region.spec_split_at(t).0, px, py) && in_inner(
                region.spec_split_at(t).1,
                px,
                py,
            )),
        t < region.x.inner_size() ==> region.spec_split_at(t).0.x.inner_max()
            <= region.spec_split_at(t).1.x.inner_min(),
        t >= region.x.inner_size() ==> region.spec_split_at(t).0.y.inner_max()
            <= region.spec_split_at(t).1.y.inner_min(),
{
}

/// Cutting shrinks: neither half has more places to cut than the region had,
/// each has fewer by four times the inset at least, and the first half has
/// fewer in any case. With an inset of one or more, cutting again and again
/// comes to an end by itself.
pub proof fn lemma_split_shrinks(region: Region, t: int)
    requires
        region.wf(),
        region.spec_is_splittable(),
        0 <= t < region.perimeter_weight(),
    ensures
        region.spec_split_at(t).0.perimeter_weight() < region.perimeter_weight(),
        region.spec_split_at(t).0.perimeter_weight() <= region.perimeter_weight() - 4
            * region.border,
        region.spec_split_at(t).1.perimeter_weight() <= region.perimeter_weight() - 4
            * region.border,
        region.spec_split_at(t).0.wf(),
        region.spec_split_at(t).1.wf(),
{
}

/// A region that is drawn with no depth left, or that cannot be cut, is
/// drawn as one rectangle: its own.
pub proof fn lemma_leaf_paints_once<C, F: Fn(&VecDeque<C>) -> C>(
    mix: F,
    region: Region,
    colours: Seq<C>,
    depth: nat,
    plan: Seq<Paint<C>>,
)
    requires
        renders(mix, region, colours, depth, plan),
        depth == 0 || !region.spec_is_splittable(),
    ensures
        plan.len() == 1,
        region.painted_as(colours, plan[0]),
{
}

/// A region that can be cut and is drawn to depth one is drawn as three
/// rectangles: its own, then one for each half.
pub proof fn lemma_one_cut_paints_thrice<C, F: Fn(&VecDeque<C>) -> C>(
    mix: F,
    region: Region,
    colours: Seq<C>,
    plan: Seq<Paint<C>>,
)
    requires
        renders(mix, region, colours, 1, plan),
        region.spec_is_splittable(),
    ensures
        plan.len() == 3,
        region.painted_as(colours, plan[0]),
{
    let (t, left, right, k) = choose|t: int, left: Seq<C>, right: Seq<C>, k: int|
        #![trigger
            region.spec_split_at(t),
            forked_from(mix, colours, left, right),
            plan.subrange(1, k)]
        {
            &&& 0 <= t < region.perimeter_weight()
            &&& forked_from(mix, colours, left, right)
            &&& 1 <= k <= plan.len()
            &&& renders(mix, region.spec_split_at(t).0, left, 0, plan.subrange(1, k))
            &&& renders(
                mix,
                region.spec_split_at(t).1,
                right,
                0,
                plan.subrange(k, plan.len() as int),
            )
        };
    lemma_leaf_paints_once(mix, region.spec_split_at(t).0, left, 0, plan.subrange(1, k));
    lemma_leaf_paints_once(
        mix,
        region.spec_split_at(t).1,
        right,
        0,
        plan.subrange(k, plan.len() as int),
    );
}

/// The most rectangles that a drawing to the given depth can hold: a full
/// binary tree of that height.
pub open spec fn most_paints(depth: nat) -> nat
    decreases depth,
{
    if depth == 0 {
        1
    } else {
        1 + 2 * most_paints((depth - 1) as nat)
    }
}

/// A drawing holds at least one rectangle and at most a full binary tree of
/// them.
pub proof fn lemma_paints_bounded<C, F: Fn(&VecDeque<C>) -> C>(
    mix: F,
    region: Region,
    colours: Seq<C>,
    depth: nat,
    plan: Seq<Paint<C>>,
)
    requires
        renders(mix, region, colours, depth, plan),
    ensures
        1 <= plan.len() <= most_paints(depth),
    decreases depth,
{
    if depth > 0 && region.spec_is_splittable() {
        let d = (depth - 1) as nat;
        let (t, left, right, k) = choose|t: int, left: Seq<C>, right: Seq<C>, k: int|
            #![trigger
                region.spec_split_at(t),
                forked_from(mix, colours, left, right),
                plan.subrange(1, k)]
            {
                &&& 0 <= t < region.perimeter_weight()
                &&& forked_from(mix, colours, left, right)
                &&& 1 <= k <= plan.len()
                &&& renders(mix, region.spec_split_at(t).0, left, d, plan.subrange(1, k))
                &&& renders(
                    mix,
                    region.spec_split_at(t).1,
                    right,
                    d,
                    plan.subrange(k, plan.len() as int),
                )
            };
        lemma_paints_bounded(mix, region.spec_split_at(t).0, left, d, plan.subrange(1, k));
        lemma_paints_bounded(
            mix,
            region.spec_split_at(t).1,
            right,
            d,
            plan.subrange(k, plan.len() as int),
        );
    }
}

} // verus!
