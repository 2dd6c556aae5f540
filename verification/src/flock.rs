//! Whom each member of a flock follows and whom it flees.
use crate::rng::uniform_below;
use vstd::prelude::*;

verus! {

/// The member that a draw stands for when one member is left out: draws
/// below the one left out stand for themselves, the others for the member
/// one above.
pub open spec fn skipping_one(draw: int, out: int) -> int {
    if draw >= out {
        draw + 1
    } else {
        draw
    }
}

/// The member that a draw stands for when two members are left out.
pub open spec fn skipping_two(draw: int, a: int, b: int) -> int {
    let low = if a < b {
        a
    } else {
        b
    };
    let high = if a < b {
        b
    } else {
        a
    };
    skipping_one(skipping_one(draw, low), high)
}

/// The member that a flock member follows, for a given draw: any member but
/// itself.
pub fn follow_of(me: usize, draw: usize) -> (follow: usize)
    requires
        draw < usize::MAX,
    ensures
        follow == skipping_one(draw as int, me as int),
        follow != me,
{
    if draw >= me {
        draw + 1
    } else {
        draw
    }
}

/// The member that a flock member flees, for a given draw: any member but
/// itself and the one it follows.
pub fn flee_of(me: usize, follow: usize, draw: usize) -> (flee: usize)
    requires
        me != follow,
        draw < usize::MAX - 1,
    ensures
        flee == skipping_two(draw as int, me as int, follow as int),
        flee != me,
        flee != follow,
{
    let low: usize = if me < follow {
        me
    } else {
        follow
    };
    let high: usize = if me < follow {
        follow
    } else {
        me
    };
    let past_low: usize = if draw >= low {
        draw + 1
    } else {
        draw
    };
    if past_low >= high {
        past_low + 1
    } else {
        past_low
    }
}

/// Draws whom member `me` of a flock of `nboids` follows and whom it flees.
/// Each of the other members is as likely to be followed as any other, and
/// each of the remaining ones as likely to be fled.
pub fn pick_partners(nboids: usize, me: usize) -> (r: (usize, usize))
    requires
        nboids >= 3,
        me < nboids,
    ensures
        r.0 < nboids,
        r.1 < nboids,
        r.0 != me,
        r.1 != me,
        r.1 != r.0,
        exists|d: int| 0 <= d < nboids - 1 && r.0 == #[trigger] skipping_one(d, me as int),
        exists|d: int|
            0 <= d < nboids - 2 && r.1 == #[trigger] skipping_two(d, me as int, r.0 as int),
{
    let first: usize = uniform_below((nboids - 1) as u64) as usize;
    let follow = follow_of(me, first);
    let second: usize = uniform_below((nboids - 2) as u64) as usize;
    let flee = flee_of(me, follow, second);
    assert(follow == skipping_one(first as int, me as int));
    assert(flee == skipping_two(second as int, me as int, follow as int));
    (follow, flee)
}

/// Leaving one member out loses none of the others and names none twice:
/// every other member of the flock stands for exactly one draw.
pub proof fn lemma_skipping_one_covers(n: int, out: int, target: int)
    requires
        0 <= out < n,
        0 <= target < n,
        target != out,
    ensures
        exists|d: int| 0 <= d < n - 1 && #[trigger] skipping_one(d, out) == target,
        forall|d: int, e: int|
            0 <= d < n - 1 && 0 <= e < n - 1 && #[trigger] skipping_one(d, out) == target
                && #[trigger] skipping_one(e, out) == target ==> d == e,
{
    let d = if target > out {
        target - 1
    } else {
        target
    };
    assert(skipping_one(d, out) == target);
}

/// Leaving two members out loses none of the others and names none twice.
pub proof fn lemma_skipping_two_covers(n: int, a: int, b: int, target: int)
    requires
        0 <= a < n,
        0 <= b < n,
        a != b,
        0 <= target < n,
        target != a,
        target != b,
    ensures
        exists|d: int| 0 <= d < n - 2 && #[trigger] skipping_two(d, a, b) == target,
        forall|d: int, e: int|
            0 <= d < n - 2 && 0 <= e < n - 2 && #[trigger] skipping_two(d, a, b) == target
                && #[trigger] skipping_two(e, a, b) == target ==> d == e,
{
    let low = if a < b {
        a
    } else {
        b
    };
    let high = if a < b {
        b
    } else {
        a
    };
    let d = if target > high {
        target - 2
    } else if target > low {
        target - 1
    } else {
        target
    };
    assert(skipping_two(d, a, b) == target);
}

} // verus!
