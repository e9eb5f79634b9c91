use hayate::geom::{PointEmu, RectEmu};
use hayate::units::{pt, EMU_PER_INCH};

#[test]
fn geom_rect_basics() {
    let r = RectEmu::new(10, 20, 100, 40);
    assert_eq!(r.right(), 110);
    assert_eq!(r.bottom(), 60);
    assert_eq!(r.center(), PointEmu::new(60, 40));
}

#[test]
fn geom_contains() {
    let r = RectEmu::new(0, 0, 100, 100);
    assert!(r.contains(PointEmu::new(0, 0)));
    assert!(r.contains(PointEmu::new(99, 99)));
    assert!(!r.contains(PointEmu::new(100, 100)));
    assert!(!r.contains(PointEmu::new(-1, 50)));
}

#[test]
fn tests_rect_basics() {
    let r = RectEmu::new(10, 20, 100, 40);
    assert_eq!(r.right(), 110);
    assert_eq!(r.bottom(), 60);
    assert_eq!(r.center(), PointEmu::new(60, 40));
}

#[test]
fn tests_contains() {
    let r = RectEmu::new(0, 0, 100, 100);
    assert!(r.contains(PointEmu::new(0, 0)));
    assert!(r.contains(PointEmu::new(99, 99)));
    assert!(!r.contains(PointEmu::new(100, 100)));
    assert!(!r.contains(PointEmu::new(-1, 50)));
}

#[test]
fn center_rounds_negative_half_toward_zero() {
    let r = RectEmu::new(0, 0, -5, 5);
    assert_eq!(r.center(), PointEmu::new(-2, 2));
}

#[test]
fn pt_conversions() {
    assert_eq!(pt(1), 12_700);
    assert_eq!(pt(72), EMU_PER_INCH);
}
