use hayate::color::Rgba;
use hayate::doc::{PlaceholderRef, PlaceholderType};
use hayate::frac::FracIndex;
use hayate::presentation::Presentation;
use hayate::theme::{next_accent, theme_color_presets, Platform, Theme};
use hayate::geom::RectEmu;
use hayate::world::{CompKind, CompValue, Entity};

fn deck_of_three() -> (Presentation, Entity, [Entity; 3]) {
    let mut p = Presentation::new();
    let master = p.add_master(Theme::default_for(Platform::Other));
    let layout = p.add_layout(master, "Blank");
    let a = p.add_slide(layout);
    let b = p.add_slide(layout);
    let c = p.add_slide(layout);
    (p, layout, [a, b, c])
}

#[test]
fn reorder_slide_moves_it_before_target() {
    let (mut p, _layout, [first, second, third]) = deck_of_three();
    assert_eq!(p.slides(), vec![first, second, third]);
    assert!(p.reorder_slide(third, first));
    let after = p.slides();
    assert_eq!(after[0], third, "dragged slide should now be first");
    assert_eq!(after, vec![third, first, second]);
    assert_eq!(after.len(), 3, "reorder must not add or drop slides");
}

#[test]
fn reorder_slide_into_the_middle() {
    let (mut p, _layout, [first, second, third]) = deck_of_three();
    assert!(p.reorder_slide(first, third));
    assert_eq!(p.slides(), vec![second, first, third]);
    // Keys [128] [192] [224]: the first slide lands between [192] and [224].
    assert_eq!(p.world.order.get(&first.0), Some(&FracIndex(vec![208])));
}

#[test]
fn reorder_slide_onto_itself_or_a_non_slide_does_nothing() {
    let (mut p, _layout, [first, second, third]) = deck_of_three();
    assert!(!p.reorder_slide(second, second));
    assert!(!p.reorder_slide(second, Entity(999)));
    assert_eq!(p.slides(), vec![first, second, third]);
}

#[test]
fn slide_add_and_delete_round_trips() {
    let (mut p, layout, [first, second, third]) = deck_of_three();
    let start = p.slides().len();
    let extra = p.add_slide(layout);
    let shape = p.add_shape(extra);
    assert_eq!(p.slides().len(), start + 1);
    assert!(p.delete_slide(extra));
    assert_eq!(p.slides().len(), start);
    assert_eq!(p.slides(), vec![first, second, third]);
    assert!(!p.world.is_alive(extra));
    assert!(!p.world.is_alive(shape), "the slide's shapes go with it");
    assert!(!p.world.frames.contains_key(&shape.0));
}

#[test]
fn the_last_slide_is_never_deleted() {
    let mut p = Presentation::new();
    let master = p.add_master(Theme::default_for(Platform::Other));
    let layout = p.add_layout(master, "Blank");
    let only = p.add_slide(layout);
    assert!(!p.delete_slide(only));
    assert_eq!(p.slides(), vec![only]);
}

#[test]
fn delete_layout_in_use_is_refused() {
    let (mut p, layout, _) = deck_of_three();
    assert!(!p.delete_layout(layout));
    assert!(p.world.is_alive(layout), "in-use layout kept");
}

#[test]
fn unused_layout_is_deleted_with_its_placeholders() {
    let (mut p, _layout, _) = deck_of_three();
    let master = p.default_master.unwrap();
    let spare = p.add_layout(master, "Spare");
    let ph = p.add_shape(spare);
    p.world.set(
        ph,
        CompValue::Placeholder(PlaceholderRef {
            ph_type: PlaceholderType::Title,
            idx: 0,
        }),
    );
    assert!(p.delete_layout(spare));
    assert!(!p.world.is_alive(spare));
    assert!(!p.world.is_alive(ph));
    assert!(p.world.is_alive(master));
}

#[test]
fn accent_cycles_through_the_presets() {
    let presets = theme_color_presets();
    let office = presets[0].1.accent[0];
    let warm = presets[1].1.accent[0];
    let mono = presets[3].1.accent[0];
    assert_eq!(next_accent(Some(office), 0), Some(warm));
    assert_eq!(next_accent(Some(mono), 0), Some(office), "wraps around");
    assert_eq!(next_accent(Some(Rgba::rgb(1, 2, 3)), 0), Some(office));
    assert_eq!(next_accent(None, 5), Some(presets[0].1.accent[5]));
    assert_eq!(next_accent(Some(office), 6), None);
}

#[test]
fn duplicate_slide_copies_its_shapes_onto_a_new_last_slide() {
    let (mut p, layout, [first, second, third]) = deck_of_three();
    let a = p.add_shape(first);
    let b = p.add_shape(first);
    p.world.set(a, CompValue::Frame(RectEmu::new(1, 2, 30, 40)));
    p.world.set(b, CompValue::Name("title".to_string()));
    let copy = p.duplicate_slide(first).expect("a slide");
    assert_eq!(p.slides(), vec![first, second, third, copy]);
    assert_eq!(p.layout_of(copy), Some(layout));
    let kids = p.children(copy);
    assert_eq!(kids.len(), 2);
    assert_eq!(kids, vec![Entity(copy.0 + 1), Entity(copy.0 + 2)]);
    assert_eq!(
        p.world.get(kids[0], CompKind::Frame),
        Some(CompValue::Frame(RectEmu::new(1, 2, 30, 40)))
    );
    assert_eq!(
        p.world.get(kids[1], CompKind::Name),
        Some(CompValue::Name("title".to_string()))
    );
    assert_eq!(p.world.get(kids[0], CompKind::Parent), Some(CompValue::Parent(copy)));
    // The original keeps its shapes.
    assert_eq!(p.children(first), vec![a, b]);
}

#[test]
fn duplicating_a_non_slide_does_nothing() {
    let (mut p, layout, _) = deck_of_three();
    let before = p.slides();
    assert_eq!(p.duplicate_slide(layout), None);
    assert_eq!(p.slides(), before);
}
