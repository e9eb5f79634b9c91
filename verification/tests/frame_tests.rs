use hayate::color::{rgb_u32, Rgba};
use hayate::frame::{resize_frame, MIN_FRAME_EMU};
use hayate::geom::RectEmu;

fn start() -> RectEmu {
    RectEmu::new(100_000, 200_000, 300_000, 400_000)
}

#[test]
fn bottom_right_handle_grows_size_and_keeps_origin() {
    let r = resize_frame(4, start(), 10_000, 20_000);
    assert_eq!(r, RectEmu::new(100_000, 200_000, 310_000, 420_000));
}

#[test]
fn top_left_handle_keeps_bottom_right_corner() {
    let s = start();
    let r = resize_frame(0, s, 10_000, 20_000);
    assert_eq!(r, RectEmu::new(110_000, 220_000, 290_000, 380_000));
    assert_eq!(r.right(), s.right());
    assert_eq!(r.bottom(), s.bottom());
}

#[test]
fn edge_handles_move_one_axis_only() {
    assert_eq!(resize_frame(1, start(), 5_000, 7_000), RectEmu::new(100_000, 207_000, 300_000, 393_000));
    assert_eq!(resize_frame(3, start(), 5_000, 7_000), RectEmu::new(100_000, 200_000, 305_000, 400_000));
    assert_eq!(resize_frame(5, start(), 5_000, 7_000), RectEmu::new(100_000, 200_000, 300_000, 407_000));
    assert_eq!(resize_frame(7, start(), 5_000, 7_000), RectEmu::new(105_000, 200_000, 295_000, 400_000));
}

#[test]
fn corner_handles_two_and_six() {
    assert_eq!(resize_frame(2, start(), 5_000, 7_000), RectEmu::new(100_000, 207_000, 305_000, 393_000));
    assert_eq!(resize_frame(6, start(), 5_000, 7_000), RectEmu::new(105_000, 200_000, 295_000, 407_000));
}

#[test]
fn size_is_clamped_to_one_point() {
    let s = start();
    let r = resize_frame(4, s, -1_000_000, -1_000_000);
    assert_eq!(r, RectEmu::new(100_000, 200_000, MIN_FRAME_EMU, MIN_FRAME_EMU));
    let l = resize_frame(0, s, 1_000_000, 1_000_000);
    assert_eq!(l.size.w, 12_700);
    assert_eq!(l.size.h, 12_700);
    assert_eq!(l.right(), s.right());
    assert_eq!(l.bottom(), s.bottom());
}

#[test]
fn unknown_handle_only_clamps() {
    assert_eq!(resize_frame(9, start(), 5_000, 7_000), start());
    let tiny = RectEmu::new(0, 0, 10, 10);
    assert_eq!(resize_frame(9, tiny, 0, 0), RectEmu::new(0, 0, 12_700, 12_700));
}

#[test]
fn rgb_packs_red_green_blue() {
    assert_eq!(rgb_u32(Rgba::rgb(0x12, 0x34, 0x56)), 0x123456);
    assert_eq!(rgb_u32(Rgba::rgba(0xFF, 0x00, 0x80, 0x10)), 0xFF0080);
    assert_eq!(rgb_u32(Rgba::white()), 0xFFFFFF);
}
