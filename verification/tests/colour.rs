use genart::colour::Colours;
use genart::surface::Gradient;
use std::cell::Cell;
use std::collections::VecDeque;

fn numbered(n: u32) -> Colours<u32> {
    Colours::new((0..n).collect::<VecDeque<u32>>())
}

fn contents(c: &Colours<u32>) -> Vec<u32> {
    (0..c.len()).map(|i| c.get(i)).collect()
}

fn sum_plus_thousand(v: &VecDeque<u32>) -> u32 {
    1000 + v.iter().sum::<u32>()
}

#[test]
fn new_keeps_the_order() {
    assert_eq!(contents(&numbered(4)), vec![0, 1, 2, 3]);
    assert_eq!(numbered(4).len(), 4);
}

#[test]
fn bases_drop_an_end_from_five_on() {
    let p = numbered(5);
    assert_eq!(p.left_base(), VecDeque::from(vec![0, 1, 2, 3]));
    assert_eq!(p.right_base(), VecDeque::from(vec![1, 2, 3, 4]));
    let q = numbered(7);
    assert_eq!(q.left_base(), VecDeque::from(vec![0, 1, 2, 3, 4, 5]));
    assert_eq!(q.right_base(), VecDeque::from(vec![1, 2, 3, 4, 5, 6]));
}

#[test]
fn bases_keep_short_palettes_whole() {
    let p = numbered(4);
    assert_eq!(p.left_base(), VecDeque::from(vec![0, 1, 2, 3]));
    assert_eq!(p.right_base(), VecDeque::from(vec![0, 1, 2, 3]));
    let q = numbered(1);
    assert_eq!(q.left_base(), VecDeque::from(vec![0]));
    assert_eq!(q.right_base(), VecDeque::from(vec![0]));
}

#[test]
fn split_with_inserts_at_the_given_places() {
    let (l, r) = numbered(5).split_with(0, 90, 4, 70);
    assert_eq!(contents(&l), vec![90, 0, 1, 2, 3]);
    assert_eq!(contents(&r), vec![1, 2, 3, 4, 70]);
    let (l, r) = numbered(3).split_with(2, 90, 1, 70);
    assert_eq!(contents(&l), vec![0, 1, 90, 2]);
    assert_eq!(contents(&r), vec![0, 70, 1, 2]);
}

#[test]
fn fork_of_five_gives_five_and_five() {
    for _ in 0..100 {
        let (l, r) = numbered(5).split(&sum_plus_thousand);
        assert_eq!((l.len(), r.len()), (5, 5));
    }
}

#[test]
fn fork_of_a_short_palette_adds_one() {
    for n in 1..5u32 {
        let (l, r) = numbered(n).split(&sum_plus_thousand);
        assert_eq!((l.len(), r.len()), (n as usize + 1, n as usize + 1));
    }
}

#[test]
fn fork_of_a_long_palette_keeps_its_length() {
    let (l, r) = numbered(9).split(&sum_plus_thousand);
    assert_eq!((l.len(), r.len()), (9, 9));
}

#[test]
fn fork_blends_each_child_from_its_own_base() {
    for _ in 0..100 {
        let (l, r) = numbered(5).split(&sum_plus_thousand);
        let l = contents(&l);
        let r = contents(&r);
        // left base 0,1,2,3 sums to 6; right base 1,2,3,4 sums to 10
        assert_eq!(l.iter().filter(|c| **c == 1006).count(), 1);
        assert_eq!(r.iter().filter(|c| **c == 1010).count(), 1);
        let kept_l: Vec<u32> = l.iter().copied().filter(|c| *c < 1000).collect();
        let kept_r: Vec<u32> = r.iter().copied().filter(|c| *c < 1000).collect();
        assert_eq!(kept_l, vec![0, 1, 2, 3]);
        assert_eq!(kept_r, vec![1, 2, 3, 4]);
    }
}

#[test]
fn fork_never_appends_the_new_colour() {
    // the place is drawn below the length of the base, so the new colour
    // always stands before a colour of the base
    for _ in 0..300 {
        let (l, r) = numbered(5).split(&sum_plus_thousand);
        assert_eq!(l.get(4), 3);
        assert_eq!(r.get(4), 4);
    }
}

#[test]
fn fork_calls_the_blend_once_for_each_child() {
    let calls = Cell::new(0u32);
    let mix = |v: &VecDeque<u32>| -> u32 {
        calls.set(calls.get() + 1);
        v.len() as u32
    };
    let _ = numbered(5).split(&mix);
    assert_eq!(calls.get(), 2);
}

#[test]
fn random_makes_five_colours() {
    let next = Cell::new(10u32);
    let make = || -> u32 {
        next.set(next.get() + 1);
        next.get()
    };
    let p = Colours::random(&make);
    assert_eq!(contents(&p), vec![11, 12, 13, 14, 15]);
}

#[test]
fn palette_holds_float_colours() {
    let p: Colours<(f64, f64, f64)> =
        Colours::new(VecDeque::from(vec![(0.0, 0.5, 1.0), (1.0, 0.5, 0.0)]));
    let mix = |v: &VecDeque<(f64, f64, f64)>| -> (f64, f64, f64) {
        let n = v.len() as f64;
        let s = v.iter().fold((0.0, 0.0, 0.0), |a, c| (a.0 + c.0, a.1 + c.1, a.2 + c.2));
        (s.0 / n, s.1 / n, s.2 / n)
    };
    let (l, r) = p.split(&mix);
    assert_eq!((l.len(), r.len()), (3, 3));
    let found = (0..3).filter(|i| l.get(*i) == (0.5, 0.5, 0.5)).count();
    assert_eq!(found, 1);
}

#[test]
fn stops_span_the_gradient() {
    for n in 2..9u32 {
        let mut g: Gradient<u32> = Gradient::new(0, 0, 10, 10);
        numbered(n).add_gradient_stops(&mut g);
        assert_eq!(g.stops.len(), n as usize);
        assert_eq!(g.stops[0].position, 0);
        let last = &g.stops[n as usize - 1];
        assert_eq!(last.position, last.of);
        for w in g.stops.windows(2) {
            assert!(w[0].position * w[1].of < w[1].position * w[0].of);
        }
        for (i, s) in g.stops.iter().enumerate() {
            assert_eq!((s.position, s.of, s.colour), (i, n as usize - 1, i as u32));
        }
    }
}

#[test]
fn stops_of_five_are_quarters() {
    let mut g: Gradient<u32> = Gradient::new(0, 0, 10, 10);
    numbered(5).add_gradient_stops(&mut g);
    let offsets: Vec<f64> = g.stops.iter().map(|s| s.position as f64 / s.of as f64).collect();
    assert_eq!(offsets, vec![0.0, 0.25, 0.5, 0.75, 1.0]);
}

#[test]
fn single_colour_has_its_stop_at_the_start() {
    let mut g: Gradient<u32> = Gradient::new(0, 0, 10, 10);
    numbered(1).add_gradient_stops(&mut g);
    assert_eq!(g.stops.len(), 1);
    assert_eq!((g.stops[0].position, g.stops[0].of, g.stops[0].colour), (0, 1, 0));
    assert_eq!(g.stops[0].position as f64 / g.stops[0].of as f64, 0.0);
}

#[test]
fn stops_are_appended_and_the_line_is_kept() {
    let mut g: Gradient<u32> = Gradient::new(1, 2, 3, 4);
    numbered(2).add_gradient_stops(&mut g);
    numbered(3).add_gradient_stops(&mut g);
    assert_eq!((g.x0, g.y0, g.x1, g.y1), (1, 2, 3, 4));
    let got: Vec<(usize, usize)> = g.stops.iter().map(|s| (s.position, s.of)).collect();
    assert_eq!(got, vec![(0, 1), (1, 1), (0, 2), (1, 2), (2, 2)]);
}
