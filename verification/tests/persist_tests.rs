use hayate::color::{Color, ThemeColorToken};
use hayate::geom::{RectEmu, SizeEmu};
use hayate::paint::Fill;
use hayate::persist::{restore, snapshot, Snapshot};
use hayate::presentation::Presentation;
use hayate::shape::Geometry;
use hayate::theme::{Platform, Theme};
use hayate::world::{CompKind, CompValue, Entity};

fn deck() -> (Presentation, Entity, Entity) {
    let mut p = Presentation::new();
    let master = p.add_master(Theme::default_for(Platform::Other));
    let layout = p.add_layout(master, "Blank");
    let slide = p.add_slide(layout);
    let rect = p.add_shape(slide);
    p.world.set(rect, CompValue::Frame(RectEmu::new(10, 20, 300, 400)));
    p.world.set(rect, CompValue::Geometry(Geometry::Rect));
    p.world.set(rect, CompValue::Fill(Fill::Solid(Color::theme(ThemeColorToken::Accent1))));
    (p, slide, rect)
}

#[test]
fn snapshot_then_restore_preserves_document() {
    let (p, slide, rect) = deck();
    let loaded = restore(snapshot(&p));
    assert_eq!(loaded.slides().len(), 1);
    let s = loaded.slides()[0];
    assert_eq!(s, slide);
    let shapes = loaded.children(s);
    assert_eq!(shapes, vec![rect]);
    assert_eq!(
        loaded.world.get(shapes[0], CompKind::Frame),
        Some(CompValue::Frame(RectEmu::new(10, 20, 300, 400)))
    );
    assert!(loaded.theme_of(s).is_some());
    assert_eq!(loaded.slide_size, p.slide_size);
    assert_eq!(loaded.default_master, p.default_master);
    assert_eq!(loaded.world.iter(), p.world.iter());
    for e in p.world.iter() {
        assert_eq!(loaded.world.components_of(e), p.world.components_of(e));
    }
}

#[test]
fn snapshot_has_one_row_per_live_entity_in_id_order() {
    let (mut p, _, rect) = deck();
    p.world.despawn(rect);
    let snap = snapshot(&p);
    let ids: Vec<Entity> = snap.rows.iter().map(|r| r.0).collect();
    assert_eq!(ids, p.world.iter());
    assert!(snap.rows.iter().all(|r| r.0 != rect));
}

#[test]
fn restore_keeps_defaults_when_meta_is_missing() {
    let snap = Snapshot { slide_size: None, default_master: None, rows: vec![] };
    let p = restore(snap);
    assert_eq!(p.slide_size, Presentation::new().slide_size);
    assert_eq!(p.default_master, None);
    assert!(p.world.is_empty());
}

#[test]
fn restore_applies_rows_in_order() {
    let snap = Snapshot {
        slide_size: Some(SizeEmu::new(100, 50)),
        default_master: Some(Some(Entity(3))),
        rows: vec![
            (Entity(7), vec![CompValue::Rotation(1), CompValue::Rotation(2)]),
            (Entity(3), vec![CompValue::Group(9)]),
        ],
    };
    let p = restore(snap);
    assert_eq!(p.slide_size, SizeEmu::new(100, 50));
    assert_eq!(p.default_master, Some(Entity(3)));
    assert_eq!(p.world.iter(), vec![Entity(3), Entity(7)]);
    assert_eq!(p.world.get(Entity(7), CompKind::Rotation), Some(CompValue::Rotation(2)));
    assert_eq!(p.world.get(Entity(3), CompKind::Group), Some(CompValue::Group(9)));
    // The id counter moves past the largest restored id.
    let mut w = p.world;
    assert_eq!(w.spawn(), Entity(8));
}
