//! Pixels of three byte channels, and the reductions of a run of pixels to
//! one.
use vstd::prelude::*;

verus! {

/// A pixel: red, green and blue, one byte each.
#[derive(Clone, Copy, Debug, PartialEq, Eq, Structural)]
pub struct Rgb {
    pub r: u8,
    pub g: u8,
    pub b: u8,
}

/// A channel of a pixel by its number: 0 is red, 1 is green, anything else
/// is blue.
pub open spec fn channel(p: Rgb, s: int) -> int {
    if s == 0 {
        p.r as int
    } else if s == 1 {
        p.g as int
    } else {
        p.b as int
    }
}

/// The sum of one channel over a run of pixels.
pub open spec fn channel_sum(pixels: Seq<Rgb>, s: int) -> int
    decreases pixels.len(),
{
    if pixels.len() == 0 {
        0
    } else {
        channel_sum(pixels.drop_last(), s) + channel(pixels.last(), s)
    }
}

/// The largest value of one channel over a run of pixels; zero for an empty
/// run.
pub open spec fn channel_max(pixels: Seq<Rgb>, s: int) -> int
    decreases pixels.len(),
{
    if pixels.len() == 0 {
        0
    } else {
        let rest = channel_max(pixels.drop_last(), s);
        if channel(pixels.last(), s) > rest {
            channel(pixels.last(), s)
        } else {
            rest
        }
    }
}

/// The average of one channel over a run of pixels, rounded down.
pub open spec fn channel_average(pixels: Seq<Rgb>, s: int) -> int
    recommends
        pixels.len() > 0,
{
    channel_sum(pixels, s) / (pixels.len() as int)
}

/// A channel sum is not negative and is at most 255 for each pixel.
pub proof fn lemma_channel_sum_bounds(pixels: Seq<Rgb>, s: int)
    ensures
        0 <= channel_sum(pixels, s) <= 255 * pixels.len(),
    decreases pixels.len(),
{
    if pixels.len() > 0 {
        lemma_channel_sum_bounds(pixels.drop_last(), s);
    }
}

/// An average is a byte.
pub proof fn lemma_channel_average_bounds(pixels: Seq<Rgb>, s: int)
    requires
        pixels.len() > 0,
    ensures
        0 <= channel_average(pixels, s) <= 255,
{
    lemma_channel_sum_bounds(pixels, s);
    let total = channel_sum(pixels, s);
    let n = pixels.len() as int;
    assert(0 <= total / n <= 255) by (nonlinear_arith)
        requires
            0 <= total <= 255 * n,
            n > 0,
    ;
}

/// The largest value of a channel is a byte, no pixel of the run exceeds it,
/// and some pixel of a run that is not empty has it.
pub proof fn lemma_channel_max_is_max(pixels: Seq<Rgb>, s: int)
    ensures
        0 <= channel_max(pixels, s) <= 255,
        forall|i: int| 0 <= i < pixels.len() ==> channel(#[trigger] pixels[i], s) <= channel_max(pixels, s),
        pixels.len() > 0 ==> exists|i: int|
            0 <= i < pixels.len() && channel(#[trigger] pixels[i], s) == channel_max(pixels, s),
    decreases pixels.len(),
{
    if pixels.len() > 0 {
        let front = pixels.drop_last();
        lemma_channel_max_is_max(front, s);
        assert forall|i: int| 0 <= i < pixels.len() implies channel(#[trigger] pixels[i], s)
            <= channel_max(pixels, s) by {
            if i < front.len() {
                assert(front[i] == pixels[i]);
            }
        }
        if channel(pixels.last(), s) > channel_max(front, s) || front.len() == 0 {
            assert(channel(pixels[pixels.len() - 1], s) == channel_max(pixels, s));
        } else {
            let i = choose|i: int|
                0 <= i < front.len() && channel(#[trigger] front[i], s) == channel_max(front, s);
            assert(pixels[i] == front[i]);
        }
    }
}

/// The pixel whose channels are the averages of the channels of a run.
pub open spec fn spec_pixel_average(pixels: Seq<Rgb>) -> Rgb
    recommends
        pixels.len() > 0,
{
    Rgb {
        r: channel_average(pixels, 0) as u8,
        g: channel_average(pixels, 1) as u8,
        b: channel_average(pixels, 2) as u8,
    }
}

/// The pixel whose channels are the largest values of the channels of a run.
pub open spec fn spec_pixel_max(pixels: Seq<Rgb>) -> Rgb {
    Rgb {
        r: channel_max(pixels, 0) as u8,
        g: channel_max(pixels, 1) as u8,
        b: channel_max(pixels, 2) as u8,
    }
}

/// Averages a run of pixels channel by channel, rounding down.
pub fn pixel_average(pixels: &[Rgb]) -> (av: Rgb)
    requires
        pixels@.len() > 0,
    ensures
        av == spec_pixel_average(pixels@),
        av.r == channel_average(pixels@, 0),
        av.g == channel_average(pixels@, 1),
        av.b == channel_average(pixels@, 2),
{
    let n: usize = pixels.len();
    let mut total_r: u128 = 0;
    let mut total_g: u128 = 0;
    let mut total_b: u128 = 0;
    let mut i: usize = 0;
    while i < n
        invariant
            i <= n,
            n == pixels@.len(),
            total_r == channel_sum(pixels@.take(i as int), 0),
            total_g == channel_sum(pixels@.take(i as int), 1),
            total_b == channel_sum(pixels@.take(i as int), 2),
        decreases n - i,
    {
        proof {
            let next = pixels@.take(i + 1);
            assert(next.drop_last() =~= pixels@.take(i as int));
            assert(next.last() == pixels@[i as int]);
            lemma_channel_sum_bounds(pixels@.take(i as int), 0);
            lemma_channel_sum_bounds(pixels@.take(i as int), 1);
            lemma_channel_sum_bounds(pixels@.take(i as int), 2);
        }
        let p = pixels[i];
        total_r = total_r + p.r as u128;
        total_g = total_g + p.g as u128;
        total_b = total_b + p.b as u128;
        i += 1;
    }
    proof {
        assert(pixels@.take(n as int) =~= pixels@);
        lemma_channel_average_bounds(pixels@, 0);
        lemma_channel_average_bounds(pixels@, 1);
        lemma_channel_average_bounds(pixels@, 2);
    }
    let count: u128 = n as u128;
    Rgb { r: (total_r / count) as u8, g: (total_g / count) as u8, b: (total_b / count) as u8 }
}

/// Takes the largest value of each channel over a run of pixels; zero where
/// the run is empty.
pub fn pixel_max(pixels: &[Rgb]) -> (top: Rgb)
    ensures
        top == spec_pixel_max(pixels@),
        top.r == channel_max(pixels@, 0),
        top.g == channel_max(pixels@, 1),
        top.b == channel_max(pixels@, 2),
{
    let n: usize = pixels.len();
    let mut top = Rgb { r: 0, g: 0, b: 0 };
    let mut i: usize = 0;
    while i < n
        invariant
            i <= n,
            n == pixels@.len(),
            top.r == channel_max(pixels@.take(i as int), 0),
            top.g == channel_max(pixels@.take(i as int), 1),
            top.b == channel_max(pixels@.take(i as int), 2),
        decreases n - i,
    {
        proof {
            let next = pixels@.take(i + 1);
            assert(next.drop_last() =~= pixels@.take(i as int));
            assert(next.last() == pixels@[i as int]);
        }
        let p = pixels[i];
        if p.r > top.r {
            top.r = p.r;
        }
        if p.g > top.g {
            top.g = p.g;
        }
        if p.b > top.b {
            top.b = p.b;
        }
        i += 1;
    }
    proof {
        assert(pixels@.take(n as int) =~= pixels@);
    }
    top
}

} // verus!
