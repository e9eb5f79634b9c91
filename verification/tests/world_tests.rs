use hayate::persist::respawn;
use hayate::anim::{Anim, AnimKind, AnimStep, Easing, Effect, SlideTimeline, Transition, TransitionKind, Trigger};
use hayate::geom::{RectEmu, SizeEmu};
use hayate::image::PictureRef;
use hayate::world::{CompKind, CompValue, World};

#[test]
fn world_spawn_and_despawn() {
    let mut w = World::new();
    let e = w.spawn();
    assert!(w.is_alive(e));
    assert_eq!(w.len(), 1);
    assert!(w.despawn(e));
    assert!(!w.is_alive(e));
    assert!(w.is_empty());
    assert!(!w.despawn(e), "double despawn is a no-op");
}

#[test]
fn world_spawn_at_recreates_same_id() {
    let mut w = World::new();
    let e = w.spawn();
    w.despawn(e);
    w.spawn_at(e);
    assert!(w.is_alive(e), "redo can recreate the same id");
    let e2 = w.spawn();
    assert_ne!(e, e2);
}

#[test]
fn world_despawn_clears_components() {
    let mut w = World::new();
    let e = w.spawn();
    w.frames.insert(e.0, RectEmu::new(0, 0, 100, 100));
    w.names.insert(e.0, "title".to_string());
    w.despawn(e);
    assert!(!w.frames.contains_key(&e.0));
    assert!(!w.names.contains_key(&e.0));
}

#[test]
fn world_despawn_clears_new_components() {
    let mut w = World::new();
    let e = w.spawn();
    w.pictures.insert(
        e.0,
        PictureRef {
            media_key: "k".to_string(),
            natural: SizeEmu::new(10, 20),
        },
    );
    w.timelines.insert(e.0, SlideTimeline::default());
    w.morph_keys.insert(e.0, "logo".to_string());
    w.despawn(e);
    assert!(!w.pictures.contains_key(&e.0));
    assert!(!w.timelines.contains_key(&e.0));
    assert!(!w.morph_keys.contains_key(&e.0));
}

#[test]
fn tests_spawn_and_despawn() {
    let mut w = World::new();
    let e = w.spawn();
    assert!(w.is_alive(e));
    assert_eq!(w.len(), 1);
    assert!(w.despawn(e));
    assert!(!w.is_alive(e));
    assert!(w.is_empty());
    assert!(!w.despawn(e), "double despawn is a no-op");
}

#[test]
fn tests_spawn_at_recreates_same_id() {
    let mut w = World::new();
    let e = w.spawn();
    w.despawn(e);
    w.spawn_at(e);
    assert!(w.is_alive(e), "redo can recreate the same id");
    let e2 = w.spawn();
    assert_ne!(e, e2);
}

#[test]
fn tests_despawn_clears_components() {
    let mut w = World::new();
    let e = w.spawn();
    w.frames.insert(e.0, RectEmu::new(0, 0, 100, 100));
    w.names.insert(e.0, "title".to_string());
    w.despawn(e);
    assert!(!w.frames.contains_key(&e.0));
    assert!(!w.names.contains_key(&e.0));
}

#[test]
fn tests_despawn_clears_new_components() {
    let mut w = World::new();
    let e = w.spawn();
    w.pictures.insert(
        e.0,
        PictureRef {
            media_key: "k".to_string(),
            natural: SizeEmu::new(10, 20),
        },
    );
    w.timelines.insert(e.0, SlideTimeline::default());
    w.morph_keys.insert(e.0, "logo".to_string());
    w.despawn(e);
    assert!(!w.pictures.contains_key(&e.0));
    assert!(!w.timelines.contains_key(&e.0));
    assert!(!w.morph_keys.contains_key(&e.0));
}

#[test]
fn world_generic_set_remove_get_roundtrip() {
    let mut w = World::new();
    let e = w.spawn();
    let v = CompValue::Frame(RectEmu::new(1, 2, 3, 4));
    assert_eq!(v.kind(), CompKind::Frame);

    assert_eq!(w.set(e, v.clone()), None);
    assert_eq!(w.get(e, CompKind::Frame), Some(v.clone()));

    let v2 = CompValue::Frame(RectEmu::new(5, 6, 7, 8));
    assert_eq!(w.set(e, v2.clone()), Some(v));
    assert_eq!(w.get(e, CompKind::Frame), Some(v2.clone()));

    assert_eq!(w.remove(e, CompKind::Frame), Some(v2));
    assert_eq!(w.get(e, CompKind::Frame), None);
    assert_eq!(w.remove(e, CompKind::Frame), None);
}

#[test]
fn tests_generic_set_remove_get_roundtrip() {
    let mut w = World::new();
    let e = w.spawn();
    let v = CompValue::Frame(RectEmu::new(1, 2, 3, 4));
    assert_eq!(v.kind(), CompKind::Frame);

    assert_eq!(w.set(e, v.clone()), None);
    assert_eq!(w.get(e, CompKind::Frame), Some(v.clone()));

    let v2 = CompValue::Frame(RectEmu::new(5, 6, 7, 8));
    assert_eq!(w.set(e, v2.clone()), Some(v));
    assert_eq!(w.get(e, CompKind::Frame), Some(v2.clone()));

    assert_eq!(w.remove(e, CompKind::Frame), Some(v2));
    assert_eq!(w.get(e, CompKind::Frame), None);
    assert_eq!(w.remove(e, CompKind::Frame), None);
}

#[test]
fn world_picture_timeline_morph_set_get_roundtrip() {
    let mut w = World::new();
    let e = w.spawn();

    // Picture
    let pic = CompValue::Picture(PictureRef {
        media_key: "sha256:abc".to_string(),
        natural: SizeEmu::new(640, 480),
    });
    assert_eq!(pic.kind(), CompKind::Picture);
    assert_eq!(w.set(e, pic.clone()), None);
    assert_eq!(w.get(e, CompKind::Picture), Some(pic));

    // Timeline
    let timeline = CompValue::Timeline(SlideTimeline {
        steps: vec![AnimStep {
            trigger: Trigger::AfterPrev { delay: 250 },
            anims: vec![Anim {
                target: e,
                kind: AnimKind::Entrance(Effect::Fade),
                duration: 500,
                delay: 0,
                easing: Easing::EaseInOut,
            }],
        }],
    });
    assert_eq!(timeline.kind(), CompKind::Timeline);
    assert_eq!(w.set(e, timeline.clone()), None);
    assert_eq!(w.get(e, CompKind::Timeline), Some(timeline));

    // Transition
    let transition = CompValue::Transition(Transition {
        kind: TransitionKind::Push,
        duration: 300,
    });
    assert_eq!(transition.kind(), CompKind::Transition);
    assert_eq!(w.set(e, transition.clone()), None);
    assert_eq!(w.get(e, CompKind::Transition), Some(transition));

    // Morph key
    let morph = CompValue::MorphKey("logo".to_string());
    assert_eq!(morph.kind(), CompKind::MorphKey);
    assert_eq!(w.set(e, morph.clone()), None);
    assert_eq!(w.get(e, CompKind::MorphKey), Some(morph));
}

#[test]
fn tests_picture_timeline_morph_set_get_roundtrip() {
    let mut w = World::new();
    let e = w.spawn();

    // Picture
    let pic = CompValue::Picture(PictureRef {
        media_key: "sha256:abc".to_string(),
        natural: SizeEmu::new(640, 480),
    });
    assert_eq!(pic.kind(), CompKind::Picture);
    assert_eq!(w.set(e, pic.clone()), None);
    assert_eq!(w.get(e, CompKind::Picture), Some(pic));

    // Timeline
    let timeline = CompValue::Timeline(SlideTimeline {
        steps: vec![AnimStep {
            trigger: Trigger::AfterPrev { delay: 250 },
            anims: vec![Anim {
                target: e,
                kind: AnimKind::Entrance(Effect::Fade),
                duration: 500,
                delay: 0,
                easing: Easing::EaseInOut,
            }],
        }],
    });
    assert_eq!(timeline.kind(), CompKind::Timeline);
    assert_eq!(w.set(e, timeline.clone()), None);
    assert_eq!(w.get(e, CompKind::Timeline), Some(timeline));

    // Transition
    let transition = CompValue::Transition(Transition {
        kind: TransitionKind::Push,
        duration: 300,
    });
    assert_eq!(transition.kind(), CompKind::Transition);
    assert_eq!(w.set(e, transition.clone()), None);
    assert_eq!(w.get(e, CompKind::Transition), Some(transition));

    // Morph key
    let morph = CompValue::MorphKey("logo".to_string());
    assert_eq!(morph.kind(), CompKind::MorphKey);
    assert_eq!(w.set(e, morph.clone()), None);
    assert_eq!(w.get(e, CompKind::MorphKey), Some(morph));
}

#[test]
fn iter_lists_live_ids_in_order() {
    let mut w = World::new();
    let a = w.spawn();
    let b = w.spawn();
    let c = w.spawn();
    w.despawn(b);
    assert_eq!(w.iter(), vec![a, c]);
    w.spawn_at(b);
    assert_eq!(w.iter(), vec![a, b, c]);
}

#[test]
fn reserve_id_is_fresh_but_not_live() {
    let mut w = World::new();
    let a = w.spawn();
    let r = w.reserve_id();
    assert_ne!(a, r);
    assert!(!w.is_alive(r));
    let b = w.spawn();
    assert_ne!(b, r);
}

#[test]
fn components_of_lists_in_column_order() {
    let mut w = World::new();
    let e = w.spawn();
    w.names.insert(e.0, "n".to_string());
    w.frames.insert(e.0, RectEmu::new(1, 2, 3, 4));
    let comps = w.components_of(e);
    assert_eq!(comps, vec![CompValue::Frame(RectEmu::new(1, 2, 3, 4)), CompValue::Name("n".to_string())]);
}

#[test]
fn despawn_is_undone_by_respawning_its_components() {
    let mut w = World::new();
    let a = w.spawn();
    let b = w.spawn();
    w.set(a, CompValue::Frame(RectEmu::new(1, 2, 3, 4)));
    w.set(a, CompValue::Name("box".to_string()));
    w.set(b, CompValue::Group(7));
    let before = w.components_of(a);
    assert_eq!(before.len(), 2);
    assert!(w.despawn(a));
    assert!(w.components_of(a).is_empty());
    respawn(&mut w, a, before.clone());
    assert!(w.is_alive(a));
    assert_eq!(w.components_of(a), before);
    assert_eq!(w.get(b, CompKind::Group), Some(CompValue::Group(7)));
}
