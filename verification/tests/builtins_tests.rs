use hayate::builtins::{build, builtins, ArgValue, Args, Operation, Transaction};
use hayate::color::{Color, Rgba, ThemeColorToken};
use hayate::frac::FracIndex;
use hayate::geom::RectEmu;
use hayate::paint::Fill;
use hayate::world::{CompKind, CompValue, Entity, World};

fn world_with_framed_shape() -> (World, Entity) {
    let mut w = World::new();
    let e = w.spawn();
    w.set(e, CompValue::Frame(RectEmu::new(10, 20, 100, 50)));
    (w, e)
}

fn args(entries: Vec<(&str, ArgValue)>) -> Args {
    Args { entries: entries.into_iter().map(|(k, v)| (k.to_string(), v)).collect() }
}

fn entity(e: Entity) -> Args {
    args(vec![("entity", ArgValue::Int(e.0 as i64))])
}

fn commit(w: &mut World, tx: Transaction) {
    for op in tx.ops {
        match op {
            Operation::Despawn { entity } => {
                w.despawn(entity);
            }
            Operation::SetComponent { entity, value } => {
                w.set(entity, value);
            }
        }
    }
}

#[test]
fn delete_command_removes_entity() {
    let (mut w, e) = world_with_framed_shape();
    let reg = builtins();
    let tx = build(&reg, "shape.delete", &entity(e), &w).expect("shape.delete is registered");
    assert_eq!(tx.label, "Delete Shape");
    commit(&mut w, tx);
    assert!(!w.is_alive(e), "entity is gone after delete");
}

#[test]
fn set_fill_command_applies_color() {
    let (mut w, e) = world_with_framed_shape();
    let reg = builtins();
    // Object form.
    let fields = vec![("r".to_string(), 255), ("g".to_string(), 0), ("b".to_string(), 0)];
    let a = args(vec![("entity", ArgValue::Int(e.0 as i64)), ("color", ArgValue::Ints(fields))]);
    let tx = build(&reg, "shape.set_fill", &a, &w).unwrap();
    commit(&mut w, tx);
    assert_eq!(
        w.get(e, CompKind::Fill),
        Some(CompValue::Fill(Fill::Solid(Color::Literal(Rgba::rgb(255, 0, 0)))))
    );
    // Hex string form.
    let a = args(vec![("entity", ArgValue::Int(e.0 as i64)), ("color", ArgValue::Str("#00ff00".to_string()))]);
    let tx = build(&reg, "shape.set_fill", &a, &w).unwrap();
    commit(&mut w, tx);
    assert_eq!(
        w.get(e, CompKind::Fill),
        Some(CompValue::Fill(Fill::Solid(Color::Literal(Rgba::rgb(0, 255, 0)))))
    );
}

#[test]
fn unknown_command_returns_none() {
    let reg = builtins();
    let w = World::new();
    assert!(build(&reg, "shape.nope", &args(vec![]), &w).is_none());
}

#[test]
fn z_order_missing_entity_is_lenient() {
    let reg = builtins();
    let w = World::new();
    let front = build(&reg, "shape.bring_to_front", &args(vec![]), &w).unwrap();
    let back = build(&reg, "shape.send_to_back", &args(vec![]), &w).unwrap();
    assert!(front.ops.is_empty());
    assert!(back.ops.is_empty());
}

#[test]
fn bring_to_front_moves_child_last() {
    let mut w = World::new();
    let parent = w.spawn();
    let mut children = Vec::new();
    let mut last: Option<FracIndex> = None;
    for _ in 0..3 {
        let c = w.spawn();
        w.set(c, CompValue::Parent(parent));
        let k = FracIndex::after(last.as_ref());
        w.set(c, CompValue::Order(k.clone()));
        last = Some(k);
        children.push(c);
    }
    let reg = builtins();
    let tx = build(&reg, "shape.bring_to_front", &entity(children[0]), &w).unwrap();
    assert_eq!(tx.label, "Bring to Front");
    commit(&mut w, tx);
    let key = |c: Entity| match w.get(c, CompKind::Order) {
        Some(CompValue::Order(k)) => k,
        other => panic!("expected an order key, got {other:?}"),
    };
    let mut sorted = children.clone();
    sorted.sort_by_key(|&c| key(c));
    assert_eq!(*sorted.last().unwrap(), children[0]);
}

#[test]
fn fill_accent_command_sets_theme_fill() {
    let (mut w, e) = world_with_framed_shape();
    let reg = builtins();
    let tx = build(&reg, "shape.fill_accent3", &entity(e), &w).expect("shape.fill_accent3 is registered");
    commit(&mut w, tx);
    assert_eq!(
        w.get(e, CompKind::Fill),
        Some(CompValue::Fill(Fill::Solid(Color::theme(ThemeColorToken::Accent3))))
    );
}

#[test]
fn filter_finds_accent_commands() {
    let reg = builtins();
    let hits = reg.filter("accent");
    let ids: Vec<&str> = hits.iter().map(|(id, _)| id.as_str()).collect();
    assert_eq!(ids.len(), 6, "exactly the six accent fills, got {ids:?}");
    for n in 1..=6 {
        let id = format!("shape.fill_accent{n}");
        assert!(ids.contains(&id.as_str()), "missing {id}");
    }
    assert!(hits.iter().any(|(_, title)| title == "Fill: Accent 1"));
}

#[test]
fn reset_rotation_command_sets_zero() {
    let (mut w, e) = world_with_framed_shape();
    w.set(e, CompValue::Rotation(33.0f32.to_bits()));
    let reg = builtins();
    let tx = build(&reg, "shape.reset_rotation", &entity(e), &w).expect("shape.reset_rotation is registered");
    assert_eq!(tx.label, "Reset Rotation");
    commit(&mut w, tx);
    assert_eq!(w.get(e, CompKind::Rotation), Some(CompValue::Rotation(0.0f32.to_bits())));
}

#[test]
fn fill_black_command_sets_literal_black() {
    let (mut w, e) = world_with_framed_shape();
    let reg = builtins();
    let tx = build(&reg, "shape.fill_black", &entity(e), &w).expect("shape.fill_black is registered");
    commit(&mut w, tx);
    assert_eq!(w.get(e, CompKind::Fill), Some(CompValue::Fill(Fill::Solid(Color::Literal(Rgba::black())))));
}

#[test]
fn text_commands_run_through_the_registry() {
    let (mut w, e) = world_with_framed_shape();
    let reg = builtins();
    let a = args(vec![("entity", ArgValue::Int(e.0 as i64)), ("text", ArgValue::Str("Hello".to_string()))]);
    let tx = build(&reg, "shape.set_text", &a, &w).unwrap();
    assert_eq!(tx.label, "Set Text");
    commit(&mut w, tx);
    let tx = build(&reg, "shape.toggle_bold", &entity(e), &w).unwrap();
    commit(&mut w, tx);
    match w.get(e, CompKind::Text) {
        Some(CompValue::Text(b)) => {
            assert_eq!(b.paragraphs[0].runs[0].text, "Hello");
            assert!(b.paragraphs[0].runs[0].bold);
        }
        other => panic!("expected text, got {other:?}"),
    }
}
