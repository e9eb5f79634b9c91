use hayate::geom::{PointEmu, RectEmu, SizeEmu};
use hayate::presentation::Presentation;
use hayate::snap::{snap_candidates, snap_frame, snap_resize};
use hayate::theme::{Platform, Theme};

fn rect(x: i64, y: i64, w: i64, h: i64) -> RectEmu {
    RectEmu {
        origin: PointEmu::new(x, y),
        size: SizeEmu::new(w, h),
    }
}

#[test]
fn candidates_are_slide_lines_then_other_shapes() {
    let mut p = Presentation::new();
    p.slide_size = SizeEmu::new(1000, 600);
    let master = p.add_master(Theme::default_for(Platform::Other));
    let layout = p.add_layout(master, "Blank");
    let slide = p.add_slide(layout);
    let a = p.add_shape(slide);
    let b = p.add_shape(slide);
    let c = p.add_shape(slide);
    p.world.frames.insert(a.0, rect(100, 50, 200, 100));
    p.world.frames.insert(b.0, rect(10, 20, 30, 41));
    // `c` has no frame and contributes nothing.
    let _ = c;
    let (xs, ys) = snap_candidates(&p, slide, b);
    assert_eq!(xs, vec![0, 500, 1000, 100, 200, 300]);
    assert_eq!(ys, vec![0, 300, 600, 50, 100, 150]);
    let (xs, ys) = snap_candidates(&p, slide, a);
    assert_eq!(xs, vec![0, 500, 1000, 10, 25, 40]);
    assert_eq!(ys, vec![0, 300, 600, 20, 40, 61]);
}

#[test]
fn moving_snaps_the_nearest_anchor() {
    let xs = vec![0, 500, 1000];
    let ys = vec![0, 300, 600];
    // Right edge at 995 is 5 from 1000; left edge at 795 is far from everything.
    let r = snap_frame(rect(795, 7, 200, 100), &xs, &ys, 8);
    assert_eq!(r, rect(800, 0, 200, 100));
    // Nothing within the radius: unchanged.
    let r = snap_frame(rect(120, 120, 50, 50), &xs, &ys, 8);
    assert_eq!(r, rect(120, 120, 50, 50));
}

#[test]
fn moving_prefers_the_first_of_equal_deltas() {
    // Start is 3 below 100 and end is 3 above 200: the start, checked first, wins.
    let xs = vec![100, 200];
    let r = snap_frame(rect(103, 0, 94, 10), &xs, &vec![], 5);
    assert_eq!(r.origin.x, 100);
    // The middle is exactly on a line: no shift.
    let r = snap_frame(rect(90, 0, 20, 10), &vec![100], &vec![], 5);
    assert_eq!(r.origin.x, 90);
}

#[test]
fn resizing_right_edge_keeps_left_edge() {
    let xs = vec![0, 500_000, 1_000_000];
    let ys = vec![0, 300_000, 600_000];
    // Handle 3 (right) moves the right edge 499_995 -> 500_000.
    let r = snap_resize(3, rect(100_000, 100_000, 399_995, 50_000), &xs, &ys, 8);
    assert_eq!(r, rect(100_000, 100_000, 400_000, 50_000));
}

#[test]
fn resizing_left_edge_keeps_right_edge() {
    let xs = vec![0, 500_000, 1_000_000];
    let ys = vec![0, 300_000, 600_000];
    // Handle 7 (left) moves the left edge 500_005 -> 500_000; the right edge stays at 700_000.
    let r = snap_resize(7, rect(500_005, 100_000, 199_995, 50_000), &xs, &ys, 8);
    assert_eq!(r, rect(500_000, 100_000, 200_000, 50_000));
    // Handle 0 (top-left) snaps both the left and the top edges.
    let r = snap_resize(0, rect(500_005, 299_996, 199_995, 100_000), &xs, &ys, 8);
    assert_eq!(r, rect(500_000, 300_000, 200_000, 99_996));
}

#[test]
fn resizing_keeps_the_minimum_size() {
    // The left edge would snap past the right edge; it stops one point short of it.
    let xs = vec![20_000];
    let r = snap_resize(7, rect(10_000, 0, 5_000, 20_000), &xs, &vec![], 10_000);
    assert_eq!(r.origin.x, 15_000 - 12_700);
    assert_eq!(r.size.w, 12_700);
    // A side handle leaves the other axis alone.
    let r = snap_resize(3, rect(0, 5, 100, 5), &vec![], &vec![0], 100);
    assert_eq!(r, rect(0, 5, 100, 5));
}
