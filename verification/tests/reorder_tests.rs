use hayate::frac::FracIndex;
use hayate::reorder::{reorder_to_edge, Edge};
use hayate::world::{CompKind, CompValue, Entity, World};

/// A parent with three children whose order keys increase (c0 back .. c2 front).
fn world_with_three_children() -> (World, Entity, [Entity; 3]) {
    let mut w = World::new();
    let parent = w.spawn();
    let mut children = [Entity(0); 3];
    let mut last: Option<FracIndex> = None;
    for child in &mut children {
        let e = w.spawn();
        w.set(e, CompValue::Parent(parent));
        let order = FracIndex::after(last.as_ref());
        w.set(e, CompValue::Order(order.clone()));
        last = Some(order);
        *child = e;
    }
    (w, parent, children)
}

fn order_of(w: &World, e: Entity) -> FracIndex {
    match w.get(e, CompKind::Order) {
        Some(CompValue::Order(o)) => o,
        other => panic!("expected an Order on {e:?}, got {other:?}"),
    }
}

fn children_by_order(w: &World, children: &[Entity; 3]) -> Vec<Entity> {
    let mut sorted = children.to_vec();
    sorted.sort_by_key(|&e| order_of(w, e));
    sorted
}

#[test]
fn bring_to_front_key_sorts_the_child_last() {
    let (mut w, _parent, children) = world_with_three_children();
    let target = children[0];
    let key = reorder_to_edge(&w, target, Edge::Front).expect("live entity");
    // Generated just after the greatest sibling key, [224].
    assert_eq!(order_of(&w, children[2]), FracIndex(vec![224]));
    assert_eq!(key, FracIndex(vec![240]));
    w.set(target, CompValue::Order(key));
    let sorted = children_by_order(&w, &children);
    assert_eq!(*sorted.last().unwrap(), target);
    assert_eq!(sorted, vec![children[1], children[2], children[0]]);
}

#[test]
fn send_to_back_key_sorts_the_child_first() {
    let (mut w, _parent, children) = world_with_three_children();
    let target = children[2];
    let key = reorder_to_edge(&w, target, Edge::Back).expect("live entity");
    // Generated just before the least sibling key, [128].
    assert_eq!(key, FracIndex(vec![64]));
    w.set(target, CompValue::Order(key));
    let sorted = children_by_order(&w, &children);
    assert_eq!(*sorted.first().unwrap(), target);
    assert_eq!(sorted, vec![children[2], children[0], children[1]]);
}

#[test]
fn reorder_of_a_dead_entity_gives_nothing() {
    let w = World::new();
    assert_eq!(reorder_to_edge(&w, Entity(7), Edge::Front), None);
    assert_eq!(reorder_to_edge(&w, Entity(7), Edge::Back), None);
}

#[test]
fn reorder_ignores_entities_under_another_parent() {
    let (mut w, _parent, children) = world_with_three_children();
    // A stranger at the root with a very high key does not count as a sibling.
    let stranger = w.spawn();
    w.set(stranger, CompValue::Order(FracIndex(vec![250])));
    let key = reorder_to_edge(&w, children[0], Edge::Front).unwrap();
    assert_eq!(key, FracIndex(vec![240]));
}

#[test]
fn reorder_without_siblings_rekeys_next_to_its_own_key() {
    let mut w = World::new();
    let e = w.spawn();
    w.set(e, CompValue::Order(FracIndex(vec![100])));
    assert_eq!(reorder_to_edge(&w, e, Edge::Front), Some(FracIndex(vec![178])));
    assert_eq!(reorder_to_edge(&w, e, Edge::Back), Some(FracIndex(vec![50])));
    let bare = w.spawn();
    w.set(bare, CompValue::Parent(e));
    assert_eq!(reorder_to_edge(&w, bare, Edge::Front), Some(FracIndex(vec![128])));
}
