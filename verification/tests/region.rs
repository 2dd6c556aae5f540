use genart::colour::Colours;
use genart::field::{Size, SubArgs};
use genart::region::{Range, Region};
use std::collections::VecDeque;
use std::path::PathBuf;

fn canvas(width: i32, height: i32, border: i32) -> Region {
    let args = SubArgs::new(PathBuf::from("out.png"), Size(width, height));
    Region::new(&args, border)
}

fn palette(n: u32) -> Colours<u32> {
    Colours::new((0..n).collect::<VecDeque<u32>>())
}

fn first_of(v: &VecDeque<u32>) -> u32 {
    v[0] + 1000
}

#[test]
fn new_region_spans_the_canvas() {
    let r = canvas(640, 480, 3);
    assert_eq!((r.x.min, r.x.max, r.x.size, r.x.border), (0, 640, 640, 3));
    assert_eq!((r.y.min, r.y.max, r.y.size, r.y.border), (0, 480, 480, 3));
    assert_eq!(r.border, 3);
}

#[test]
fn range_new_computes_size() {
    let r = Range::new(5, 17, 2);
    assert_eq!((r.min, r.max, r.size, r.border), (5, 17, 12, 2));
}

#[test]
fn range_inner_shrinks_both_ends() {
    let r = Range::new(0, 100, 2).inner();
    assert_eq!((r.min, r.max, r.size, r.border), (2, 98, 96, 2));
}

#[test]
fn range_split_cuts_above_min() {
    let (low, high) = Range::new(2, 98, 2).split(10);
    assert_eq!((low.min, low.max, low.size, low.border), (2, 12, 10, 2));
    assert_eq!((high.min, high.max, high.size, high.border), (12, 98, 86, 2));
}

#[test]
fn range_is_splittable_compares_size_with_threshold() {
    assert!(!Range::new(0, 6, 2).is_splittable());
    assert!(Range::new(0, 7, 2).is_splittable());
    assert!(!Range::new(0, 2, 0).is_splittable());
    assert!(Range::new(0, 3, 0).is_splittable());
}

#[test]
fn inner_size_at_threshold_is_not_splittable() {
    // border 2, size 10: inner size 6, threshold 6
    assert!(!canvas(10, 100, 2).is_splittable());
    assert!(!canvas(100, 10, 2).is_splittable());
}

#[test]
fn inner_size_above_threshold_is_splittable() {
    // border 2, size 12: inner size 8, threshold 6
    assert!(canvas(12, 12, 2).is_splittable());
    assert!(canvas(11, 11, 2).is_splittable());
}

#[test]
fn wide_border_is_not_splittable() {
    // inner size 100 - 80 = 20, threshold 82
    assert!(!canvas(100, 100, 40).is_splittable());
}

#[test]
fn negative_canvas_is_not_splittable() {
    assert!(!canvas(-5, 100, 0).is_splittable());
}

#[test]
fn huge_border_is_not_splittable() {
    assert!(!canvas(100, 100, i32::MAX).is_splittable());
    assert!(!canvas(i32::MAX, i32::MAX, i32::MAX).is_splittable());
}

#[test]
fn split_at_low_offsets_cuts_x() {
    let (a, b) = canvas(100, 100, 2).split_at(10);
    assert_eq!((a.x.min, a.x.max, a.x.size), (2, 12, 10));
    assert_eq!((b.x.min, b.x.max, b.x.size), (12, 98, 86));
    assert_eq!((a.y.min, a.y.max, a.y.size), (2, 98, 96));
    assert_eq!((b.y.min, b.y.max, b.y.size), (2, 98, 96));
    assert_eq!((a.border, b.border, a.x.border, b.y.border), (2, 2, 2, 2));
}

#[test]
fn split_at_high_offsets_cuts_y() {
    let (a, b) = canvas(100, 100, 2).split_at(100);
    assert_eq!((a.y.min, a.y.max, a.y.size), (2, 6, 4));
    assert_eq!((b.y.min, b.y.max, b.y.size), (6, 98, 92));
    assert_eq!((a.x.min, a.x.max, a.x.size), (2, 98, 96));
    assert_eq!((b.x.min, b.x.max, b.x.size), (2, 98, 96));
}

#[test]
fn split_at_boundary_between_axes() {
    let r = canvas(100, 50, 2);
    let (a, b) = r.split_at(95);
    assert_eq!((a.x.size, b.x.size), (95, 1));
    let (c, d) = r.split_at(96);
    assert_eq!((c.y.size, d.y.size), (0, 46));
    assert_eq!((c.x.size, d.x.size), (96, 96));
}

#[test]
fn split_at_handles_the_largest_canvas() {
    let r = canvas(i32::MAX, i32::MAX, 0);
    let (a, b) = r.split_at(i32::MAX as i64 + 5);
    assert_eq!((a.y.min, a.y.max, b.y.min, b.y.max), (0, 5, 5, i32::MAX));
}

#[test]
fn split_children_stay_inside_and_apart() {
    let r = canvas(100, 60, 2);
    for _ in 0..200 {
        let (a, b) = r.split();
        for c in [&a, &b] {
            assert!(c.x.min + c.border >= r.x.min + r.border);
            assert!(c.x.max - c.border <= r.x.max - r.border);
            assert!(c.y.min + c.border >= r.y.min + r.border);
            assert!(c.y.max - c.border <= r.y.max - r.border);
            assert_eq!(c.border, r.border);
        }
        let cut_x = a.x.max != b.x.max;
        if cut_x {
            assert!(a.x.max - a.border <= b.x.min + b.border);
            assert_eq!(a.x.size + b.x.size, 96);
            assert_eq!((a.y.size, b.y.size), (56, 56));
        } else {
            assert!(a.y.max - a.border <= b.y.min + b.border);
            assert_eq!(a.y.size + b.y.size, 56);
            assert_eq!((a.x.size, b.x.size), (96, 96));
        }
    }
}

#[test]
fn split_never_cuts_at_the_perimeter_weight() {
    // a draw equal to the bound would cut y at its full inner size
    let r = canvas(100, 100, 2);
    for _ in 0..500 {
        let (a, b) = r.split();
        assert!(!(a.y.size == 96 && b.y.size == 0));
    }
}

#[test]
fn split_reaches_both_axes() {
    let r = canvas(100, 100, 2);
    let mut x_cut = false;
    let mut y_cut = false;
    for _ in 0..500 {
        let (a, _) = r.split();
        if a.x.size != 96 {
            x_cut = true;
        }
        if a.y.size != 96 {
            y_cut = true;
        }
    }
    assert!(x_cut && y_cut);
}

#[test]
fn depth_zero_paints_once() {
    let r = canvas(100, 100, 2);
    assert!(r.is_splittable());
    let plan = r.render(&palette(5), 0, &first_of);
    assert_eq!(plan.len(), 1);
    let p = &plan[0];
    assert_eq!((p.x, p.y, p.width, p.height), (0, 0, 100, 100));
    assert_eq!((p.gradient.x0, p.gradient.y0, p.gradient.x1, p.gradient.y1), (0, 0, 100, 100));
    assert_eq!(p.gradient.stops.len(), 5);
}

#[test]
fn depth_one_paints_three_times() {
    let r = canvas(100, 100, 2);
    for _ in 0..50 {
        let plan = r.render(&palette(5), 1, &first_of);
        assert_eq!(plan.len(), 3);
        assert_eq!((plan[0].x, plan[0].y, plan[0].width, plan[0].height), (0, 0, 100, 100));
        // the children share the inner rectangle of the root
        assert_eq!((plan[1].x, plan[1].y), (2, 2));
        assert_eq!(plan[1].gradient.stops.len(), 5);
        assert_eq!(plan[2].gradient.stops.len(), 5);
        assert_eq!(plan[2].x + plan[2].width, 98);
        assert_eq!(plan[2].y + plan[2].height, 98);
        if plan[1].width == 96 {
            assert_eq!(plan[1].height + plan[2].height, 96);
            assert_eq!(plan[2].y, plan[1].y + plan[1].height);
        } else {
            assert_eq!(plan[1].width + plan[2].width, 96);
            assert_eq!(plan[2].x, plan[1].x + plan[1].width);
            assert_eq!((plan[1].height, plan[2].height), (96, 96));
        }
    }
}

#[test]
fn unsplittable_root_paints_once_at_any_depth() {
    let r = canvas(100, 100, 40);
    let plan = r.render(&palette(5), 10, &first_of);
    assert_eq!(plan.len(), 1);
    assert_eq!((plan[0].x, plan[0].y, plan[0].width, plan[0].height), (0, 0, 100, 100));
}

#[test]
fn deeper_renders_stay_under_the_full_tree() {
    let r = canvas(400, 400, 2);
    for depth in 0..6u8 {
        let plan = r.render(&palette(5), depth, &first_of);
        assert!(plan.len() >= 1);
        assert!(plan.len() <= (1usize << (depth + 1)) - 1);
        assert_eq!(plan.len() % 2, 1);
    }
}

#[test]
fn render_paints_parent_before_children() {
    let r = canvas(400, 400, 2);
    let plan = r.render(&palette(5), 3, &first_of);
    // every rectangle after the first lies inside the inner rectangle of the root
    for p in plan.iter().skip(1) {
        assert!(p.x >= 2 && p.y >= 2);
        assert!(p.x + p.width <= 398 && p.y + p.height <= 398);
    }
}

#[test]
fn paint_carries_the_palette_in_order() {
    let r = canvas(10, 20, 1);
    let p = r.paint(&palette(3));
    let stops: Vec<(usize, usize, u32)> =
        p.gradient.stops.iter().map(|s| (s.position, s.of, s.colour)).collect();
    assert_eq!(stops, vec![(0, 2, 0), (1, 2, 1), (2, 2, 2)]);
    assert_eq!((p.x, p.y, p.width, p.height), (0, 0, 10, 20));
}

#[test]
fn get_gradient_runs_corner_to_corner() {
    let (a, _) = canvas(100, 100, 2).split_at(10);
    let g = a.get_gradient::<u32>();
    assert_eq!((g.x0, g.y0, g.x1, g.y1), (2, 2, 12, 98));
    assert!(g.stops.is_empty());
}
