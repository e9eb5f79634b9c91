use hayate::color::{Color, ThemeColorToken};
use hayate::doc::{PlaceholderRef, PlaceholderType};
use hayate::geom::RectEmu;
use hayate::paint::Fill;
use hayate::presentation::{step_slide, Presentation};
use hayate::shape::Geometry;
use hayate::theme::{Platform, Theme};
use hayate::world::Entity;

fn small_deck() -> (Presentation, Entity, Entity) {
    let mut p = Presentation::new();
    let master = p.add_master(Theme::default_for(Platform::Other));
    let layout = p.add_layout(master, "Title and Content");
    let s1 = p.add_slide(layout);
    let s2 = p.add_slide(layout);
    (p, s1, s2)
}

#[test]
fn slides_are_ordered_by_creation() {
    let (p, s1, s2) = small_deck();
    assert_eq!(p.slides(), vec![s1, s2]);
}

#[test]
fn children_are_ordered() {
    let (mut p, s1, _) = small_deck();
    let a = p.add_shape(s1);
    let b = p.add_shape(s1);
    let c = p.add_shape(s1);
    assert_eq!(p.children(s1), vec![a, b, c]);
}

#[test]
fn inheritance_resolves_to_master_background_and_theme() {
    let (mut p, s1, _) = small_deck();
    let master = p.master_of(s1).unwrap();
    p.world
        .backgrounds
        .insert(master.0, Fill::Solid(Color::theme(ThemeColorToken::Lt1)));
    assert!(p.background_of(s1).is_some());
    let theme = p.theme_of(s1).unwrap();
    assert_eq!(theme, &Theme::default_for(Platform::Other));
    assert_eq!(p.container_theme(s1), p.theme_of(s1));
}

#[test]
fn add_media_roundtrips_bytes() {
    let mut p = Presentation::new();
    let bytes = vec![1u8, 2, 3, 4, 5];
    let key = p.add_media(bytes.clone());
    assert!(!key.is_empty());
    assert_eq!(p.get_media(&key), Some(bytes.as_slice()));
}

#[test]
fn add_media_is_idempotent_by_content() {
    let mut p = Presentation::new();
    let key1 = p.add_media(vec![10u8, 20, 30]);
    let key2 = p.add_media(vec![10u8, 20, 30]);
    assert_eq!(key1, key2);
    assert_eq!(p.media.len(), 1);
}

#[test]
fn media_key_is_fnv1a_hex() {
    let mut p = Presentation::new();
    // FNV-1a of the empty input is the offset basis.
    assert_eq!(p.add_media(vec![]), "cbf29ce484222325");
    // FNV-1a of "a".
    assert_eq!(p.add_media(b"a".to_vec()), "af63dc4c8601ec8c");
    assert_eq!(p.get_media("AF63DC4C8601EC8C"), None);
    assert_eq!(p.get_media("af63dc4c8601ec8"), None);
    assert_eq!(p.get_media("af63dc4c8601ec8c"), Some(&b"a"[..]));
}

#[test]
fn new_presentation_is_16_9() {
    let p = Presentation::new();
    assert_eq!(p.slide_size.w, 12_191_695);
    assert_eq!(p.slide_size.h, 6_858_000);
    assert!(p.default_master.is_none());
}

#[test]
fn first_master_becomes_default() {
    let mut p = Presentation::new();
    let m1 = p.add_master(Theme::default_for(Platform::Other));
    let m2 = p.add_master(Theme::default_for(Platform::Other));
    assert_ne!(m1, m2);
    assert_eq!(p.default_master, Some(m1));
}

#[test]
fn background_falls_back_slide_layout_master() {
    let mut p = Presentation::new();
    let master = p.add_master(Theme::default_for(Platform::Other));
    let layout = p.add_layout(master, "Blank");
    let slide = p.add_slide(layout);
    assert_eq!(p.background_of(slide), None);
    let fm = Fill::Solid(Color::theme(ThemeColorToken::Lt1));
    let fl = Fill::Solid(Color::theme(ThemeColorToken::Dk1));
    let fs = Fill::Solid(Color::theme(ThemeColorToken::Accent1));
    p.world.backgrounds.insert(master.0, fm);
    assert_eq!(p.background_of(slide), Some(fm));
    assert_eq!(p.container_background(layout), Some(fm));
    p.world.backgrounds.insert(layout.0, fl);
    assert_eq!(p.background_of(slide), Some(fl));
    assert_eq!(p.container_background(slide), Some(fl));
    p.world.backgrounds.insert(slide.0, fs);
    assert_eq!(p.background_of(slide), Some(fs));
    assert_eq!(p.container_background(master), Some(fm));
}

#[test]
fn owning_master_of_each_container() {
    let (p, s1, _) = small_deck();
    let layout = p.layout_of(s1).unwrap();
    let master = p.master_of(s1).unwrap();
    assert_eq!(p.owning_master(master), Some(master));
    assert_eq!(p.owning_master(layout), Some(master));
    assert_eq!(p.owning_master(s1), Some(master));
}

#[test]
fn placeholders_inherit_from_layout_and_master() {
    let (mut p, s1, _) = small_deck();
    let layout = p.layout_of(s1).unwrap();
    let master = p.master_of(s1).unwrap();
    let title = PlaceholderRef { ph_type: PlaceholderType::Title, idx: 0 };
    let body = PlaceholderRef { ph_type: PlaceholderType::Body, idx: 1 };

    let mt = p.add_shape(master);
    p.world.placeholders.insert(mt.0, title);
    p.world.frames.insert(mt.0, RectEmu::new(1, 1, 10, 10));
    p.world.geometries.insert(mt.0, Geometry::Rect);
    let lt = p.add_shape(layout);
    p.world.placeholders.insert(lt.0, title);
    p.world.frames.insert(lt.0, RectEmu::new(2, 2, 20, 20));
    let lb = p.add_shape(layout);
    p.world.placeholders.insert(lb.0, body);

    assert_eq!(p.placeholder_shapes(layout), vec![lt, lb]);
    assert_eq!(p.find_placeholder(layout, body), Some(lb));
    assert_eq!(p.placeholder_chain(s1, title), [None, Some(lt), Some(mt)]);
    assert_eq!(p.ph_frame(s1, title), Some(RectEmu::new(2, 2, 20, 20)));
    assert_eq!(p.ph_geometry(s1, title), Some(Geometry::Rect));
    assert_eq!(p.ph_fill(s1, title), None);
    assert!(p.ph_text(s1, title).is_none());
    assert_eq!(p.effective_placeholders(s1), vec![title, body]);
}

#[test]
fn stepping_through_slides_wraps_around() {
    let (mut p, s1, s2) = small_deck();
    let layout = p.layout_of(s1).unwrap();
    let s3 = p.add_slide(layout);
    let slides = p.slides();
    assert_eq!(step_slide(&slides, s1, 1), Some(s2));
    assert_eq!(step_slide(&slides, s3, 1), Some(s1));
    assert_eq!(step_slide(&slides, s1, -1), Some(s3));
    assert_eq!(step_slide(&slides, s2, -4), Some(s1));
    assert_eq!(step_slide(&slides, s2, 0), Some(s2));
    assert_eq!(step_slide(&slides, Entity(999), 1), None);
}
