//! Bringing an entity to the front of its siblings, or sending it to the back.
//!
//! Only the moved entity's order key changes: the new key is generated just past the
//! greatest sibling key (front) or just before the least one (back), so no other entity is
//! re-keyed.

use vstd::prelude::*;
use crate::frac::{FracIndex, between_spec, canonical, frac_lt, lex_less, lex_lt,
    lemma_after_above, lemma_before_below, lemma_lex_lt_asymmetric, lemma_lex_lt_irreflexive,
    lemma_lex_lt_total, lemma_lex_lt_transitive};
use crate::presentation::key_of;
use crate::world::{Entity, World};

verus! {

broadcast use vstd::std_specs::btree::group_btree_axioms;

/// Which end of its sibling group an entity moves to.
#[derive(Clone, Copy, Debug, PartialEq, Eq, Structural)]
pub enum Edge {
    /// The greatest order key: drawn last, on top.
    Front,
    /// The least order key: drawn first, behind.
    Back,
}

/// The parent of `id`, if it has one.
pub open spec fn parent_of(w: &World, id: u64) -> Option<Entity> {
    if w.parent@.contains_key(id) {
        Some(w.parent@[id])
    } else {
        None
    }
}

/// `s` is a sibling of `e`: live, not `e`, and with the same parent (or, like `e`, none).
pub open spec fn is_sibling(w: &World, e: u64, s: u64) -> bool {
    &&& w.live().contains(s)
    &&& s != e
    &&& parent_of(w, s) == parent_of(w, e)
}

/// `k` is the order key of some sibling of `e`.
pub open spec fn sibling_key(w: &World, e: u64, k: Seq<u8>) -> bool {
    exists|s: u64| is_sibling(w, e, s) && key_of(w, s) == Some(k)
}

/// `k` lies beyond `m` towards `edge`: above it for the front, below it for the back
/// (lexicographically, the order of the derived `Ord`).
pub open spec fn beyond(edge: Edge, m: Seq<u8>, k: Seq<u8>) -> bool {
    match edge {
        Edge::Front => lex_lt(m, k),
        Edge::Back => lex_lt(k, m),
    }
}

/// `m` is the sibling key of `e` that lies furthest towards `edge`.
pub open spec fn is_extreme(w: &World, e: u64, edge: Edge, m: Seq<u8>) -> bool {
    &&& sibling_key(w, e, m)
    &&& forall|k: Seq<u8>| #[trigger] sibling_key(w, e, k) ==> !beyond(edge, m, k)
}

/// The key the new one is generated next to: the extreme sibling key, or `e`'s own key
/// when no sibling has one.
pub open spec fn anchor(w: &World, e: u64, edge: Edge) -> Option<Seq<u8>> {
    if exists|m: Seq<u8>| is_extreme(w, e, edge, m) {
        Some(choose|m: Seq<u8>| is_extreme(w, e, edge, m))
    } else {
        key_of(w, e)
    }
}

/// The key that moves `e` to `edge`: generated above the anchor with no upper bound (front),
/// or below it from zero (back).
pub open spec fn edge_key(w: &World, e: u64, edge: Edge) -> Seq<u8> {
    match edge {
        Edge::Front => between_spec(
            match anchor(w, e, edge) {
                Some(a) => a,
                None => Seq::empty(),
            },
            None,
        ),
        Edge::Back => between_spec(Seq::empty(), anchor(w, e, edge)),
    }
}

/// The extreme key is unique, the order being total.
proof fn lemma_extreme_unique(w: &World, e: u64, edge: Edge, m1: Seq<u8>, m2: Seq<u8>)
    requires
        is_extreme(w, e, edge, m1),
        is_extreme(w, e, edge, m2),
    ensures
        m1 == m2,
{
    assert(sibling_key(w, e, m1));
    assert(sibling_key(w, e, m2));
    if m1 != m2 {
        lemma_lex_lt_total(m1, m2);
    }
}

/// Among finitely many keyed siblings of `e`, one has the key furthest towards `edge`.
proof fn lemma_extreme_in(w: &World, e: u64, edge: Edge, t: Set<u64>)
    requires
        t.finite(),
        t.len() > 0,
        forall|s: u64| #[trigger] t.contains(s) ==> is_sibling(w, e, s) && key_of(w, s) is Some,
    ensures
        exists|m: u64|
            #[trigger] t.contains(m) && forall|s: u64| #[trigger] t.contains(s) ==> !beyond(
                edge,
                key_of(w, m).unwrap(),
                key_of(w, s).unwrap(),
            ),
    decreases t.len(),
{
    let x = t.choose();
    assert(t.contains(x)) by {
        vstd::set_lib::lemma_set_empty_equivalency_len(t);
    }
    let r = t.remove(x);
    vstd::set::axiom_set_remove_len(t, x);
    vstd::set::axiom_set_remove_finite(t, x);
    let fx = key_of(w, x).unwrap();
    if r.len() == 0 {
        vstd::set_lib::lemma_set_empty_equivalency_len(r);
        assert forall|s: u64| #[trigger] t.contains(s) implies !beyond(edge, fx, key_of(w, s).unwrap()) by {
            if s != x {
                assert(r.contains(s));
            }
            lemma_lex_lt_irreflexive(fx);
        }
        assert(t.contains(x));
    } else {
        lemma_extreme_in(w, e, edge, r);
        let m = choose|m: u64|
            #[trigger] r.contains(m) && forall|s: u64| #[trigger] r.contains(s) ==> !beyond(
                edge,
                key_of(w, m).unwrap(),
                key_of(w, s).unwrap(),
            );
        let fm = key_of(w, m).unwrap();
        if beyond(edge, fm, fx) {
            assert forall|s: u64| #[trigger] t.contains(s) implies !beyond(edge, fx, key_of(w, s).unwrap()) by {
                let fs = key_of(w, s).unwrap();
                if s == x {
                    lemma_lex_lt_irreflexive(fx);
                } else {
                    assert(r.contains(s));
                    assert(!beyond(edge, fm, fs));
                    match edge {
                        Edge::Front => {
                            if lex_lt(fx, fs) {
                                lemma_lex_lt_transitive(fm, fx, fs);
                            }
                        },
                        Edge::Back => {
                            if lex_lt(fs, fx) {
                                lemma_lex_lt_transitive(fs, fx, fm);
                            }
                        },
                    }
                }
            }
            assert(t.contains(x));
        } else {
            assert forall|s: u64| #[trigger] t.contains(s) implies !beyond(edge, fm, key_of(w, s).unwrap()) by {
                if s != x {
                    assert(r.contains(s));
                }
            }
            assert(t.contains(m));
        }
    }
}

/// A live entity's move to an edge is exact: the key it receives lies above the key of every
/// sibling that has one (front), or below every one (back; there the anchor must stand for a
/// fraction above zero, as `reorder_to_edge` asks).
pub proof fn law_edge_key_beyond_siblings(w: &World, e: u64, edge: Edge)
    requires
        w.wf(),
        edge == Edge::Back ==> (anchor(w, e, edge) matches Some(a) ==> frac_lt(Seq::empty(), a)),
    ensures
        forall|s: u64| #[trigger] is_sibling(w, e, s) && key_of(w, s) is Some ==> beyond(
            edge,
            key_of(w, s).unwrap(),
            edge_key(w, e, edge),
        ),
{
    let t = w.live().filter(|s: u64| is_sibling(w, e, s) && key_of(w, s) is Some);
    w.live().lemma_len_filter(|s: u64| is_sibling(w, e, s) && key_of(w, s) is Some);
    if exists|s0: u64| #[trigger] is_sibling(w, e, s0) && key_of(w, s0) is Some {
        let s0 = choose|s0: u64| #[trigger] is_sibling(w, e, s0) && key_of(w, s0) is Some;
        assert(t.contains(s0));
        vstd::set::axiom_set_remove_len(t, s0);
        lemma_extreme_in(w, e, edge, t);
        let m = choose|m: u64|
            #[trigger] t.contains(m) && forall|s: u64| #[trigger] t.contains(s) ==> !beyond(
                edge,
                key_of(w, m).unwrap(),
                key_of(w, s).unwrap(),
            );
        let mk = key_of(w, m).unwrap();
        assert(is_extreme(w, e, edge, mk)) by {
            assert(is_sibling(w, e, m) && key_of(w, m) == Some(mk));
            assert forall|k: Seq<u8>| #[trigger] sibling_key(w, e, k) implies !beyond(edge, mk, k) by {
                let s = choose|s: u64| is_sibling(w, e, s) && key_of(w, s) == Some(k);
                assert(t.contains(s));
            }
        }
        let a = choose|m: Seq<u8>| is_extreme(w, e, edge, m);
        assert(anchor(w, e, edge) == Some(a));
        assert(is_extreme(w, e, edge, a));
        let ek = edge_key(w, e, edge);
        match edge {
            Edge::Front => {
                lemma_after_above(a);
            },
            Edge::Back => {
                lemma_before_below(a);
            },
        }
        assert forall|s: u64| #[trigger] is_sibling(w, e, s) && key_of(w, s) is Some implies beyond(
            edge,
            key_of(w, s).unwrap(),
            ek,
        ) by {
            let k = key_of(w, s).unwrap();
            assert(sibling_key(w, e, k));
            assert(!beyond(edge, a, k));
            if k != a {
                lemma_lex_lt_total(k, a);
                match edge {
                    Edge::Front => {
                        lemma_lex_lt_transitive(k, a, ek);
                    },
                    Edge::Back => {
                        lemma_lex_lt_transitive(ek, a, k);
                    },
                }
            }
        }
    }
}

/// The order key of a live entity, copied out of the world.
fn own_key(world: &World, e: Entity) -> (r: Option<&FracIndex>)
    ensures
        match r {
            Some(k) => key_of(world, e.0) == Some(k@),
            None => key_of(world, e.0) is None,
        },
{
    world.order.get(&e.0)
}

/// The new order key that moves `e` to the front or the back of its siblings (the live
/// entities sharing its parent), or `None` when `e` is not live. The key is generated just
/// past the greatest sibling key (front) or just before the least one (back); with no
/// sibling key it is generated next to `e`'s own key. For the back, that anchor must stand
/// for a fraction above zero (no key lies below zero). The new key lies above every sibling
/// key (front) or below every one (back), so `e` sorts last among its siblings, or first
/// among those that carry a key.
pub fn reorder_to_edge(world: &World, e: Entity, edge: Edge) -> (r: Option<FracIndex>)
    requires
        world.live().contains(e.0) && edge == Edge::Back ==> (anchor(world, e.0, edge) matches Some(a)
            ==> frac_lt(Seq::empty(), a)),
    ensures
        r is None <==> !world.live().contains(e.0),
        r matches Some(k) ==> k@ == edge_key(world, e.0, edge) && canonical(k@),
        r matches Some(k) ==> forall|s: u64| #[trigger] is_sibling(world, e.0, s) && key_of(world, s) is Some
            ==> beyond(edge, key_of(world, s).unwrap(), k@),
{
    if !world.is_alive(e) {
        return None;
    }
    let parent: Option<Entity> = match world.parent.get(&e.0) {
        Some(p) => Some(*p),
        None => None,
    };
    let ids = world.iter();
    let mut best: Option<&FracIndex> = None;
    let mut i: usize = 0;
    while i < ids.len()
        invariant
            i <= ids.len(),
            world.live().contains(e.0),
            parent == parent_of(world, e.0),
            forall|id: u64| world.live().contains(id) <==> exists|j: int| 0 <= j < ids@.len() && #[trigger] ids@[j].0 == id,
            best is None ==> forall|j: int| 0 <= j < i ==> !(is_sibling(world, e.0, #[trigger] ids@[j].0)
                && key_of(world, ids@[j].0) is Some),
            best matches Some(b) ==> sibling_key(world, e.0, b@),
            best matches Some(b) ==> forall|j: int| 0 <= j < i && is_sibling(world, e.0, #[trigger] ids@[j].0)
                && key_of(world, ids@[j].0) is Some ==> !beyond(edge, b@, key_of(world, ids@[j].0).unwrap()),
        decreases ids.len() - i,
    {
        let s = ids[i];
        assert(world.live().contains(s.0)) by {
            assert(ids@[i as int].0 == s.0);
        }
        if s.0 != e.0 {
            let same: bool = match (world.parent.get(&s.0), parent) {
                (Some(a), Some(b)) => a.0 == b.0,
                (None, None) => true,
                _ => false,
            };
            assert(same <==> parent_of(world, s.0) == parent_of(world, e.0));
            if same {
                match world.order.get(&s.0) {
                    Some(k) => {
                        let better: bool = match best {
                            None => true,
                            Some(b) => match edge {
                                Edge::Front => lex_less(&b.0, &k.0),
                                Edge::Back => lex_less(&k.0, &b.0),
                            },
                        };
                        proof {
                            assert(is_sibling(world, e.0, s.0));
                            assert(key_of(world, s.0) == Some(k@));
                            assert(sibling_key(world, e.0, k@));
                        }
                        if better {
                            proof {
                                if let Some(b) = best {
                                    assert(beyond(edge, b@, k@));
                                    assert forall|j: int| 0 <= j < i && is_sibling(world, e.0, #[trigger] ids@[j].0)
                                        && key_of(world, ids@[j].0) is Some implies !beyond(
                                        edge,
                                        k@,
                                        key_of(world, ids@[j].0).unwrap(),
                                    ) by {
                                        let x = key_of(world, ids@[j].0).unwrap();
                                        assert(!beyond(edge, b@, x));
                                        match edge {
                                            Edge::Front => {
                                                if x != b@ {
                                                    lemma_lex_lt_total(x, b@);
                                                    lemma_lex_lt_transitive(x, b@, k@);
                                                }
                                                lemma_lex_lt_asymmetric(x, k@);
                                            },
                                            Edge::Back => {
                                                if x != b@ {
                                                    lemma_lex_lt_total(x, b@);
                                                    lemma_lex_lt_transitive(k@, b@, x);
                                                }
                                                lemma_lex_lt_asymmetric(k@, x);
                                            },
                                        }
                                    }
                                }
                            }
                            best = Some(k);
                        }
                    },
                    None => {
                        assert(key_of(world, s.0) is None);
                    },
                }
            }
        }
        i = i + 1;
    }
    proof {
        // Every sibling was visited.
        assert forall|s: u64| is_sibling(world, e.0, s) implies exists|j: int| 0 <= j < ids@.len()
            && #[trigger] ids@[j].0 == s by {
            assert(world.live().contains(s));
        }
    }
    let key = match best {
        Some(b) => {
            proof {
                assert forall|k: Seq<u8>| #[trigger] sibling_key(world, e.0, k) implies !beyond(edge, b@, k) by {
                    let s = choose|s: u64| is_sibling(world, e.0, s) && key_of(world, s) == Some(k);
                    let j = choose|j: int| 0 <= j < ids@.len() && #[trigger] ids@[j].0 == s;
                    assert(is_sibling(world, e.0, ids@[j].0));
                }
                assert(is_extreme(world, e.0, edge, b@));
                let m = choose|m: Seq<u8>| is_extreme(world, e.0, edge, m);
                lemma_extreme_unique(world, e.0, edge, m, b@);
                assert(anchor(world, e.0, edge) == Some(b@));
            }
            match edge {
                Edge::Front => FracIndex::after(Some(b)),
                Edge::Back => FracIndex::before(Some(b)),
            }
        },
        None => {
            proof {
                assert forall|m: Seq<u8>| !is_extreme(world, e.0, edge, m) by {
                    if sibling_key(world, e.0, m) {
                        let s = choose|s: u64| is_sibling(world, e.0, s) && key_of(world, s) == Some(m);
                        let j = choose|j: int| 0 <= j < ids@.len() && #[trigger] ids@[j].0 == s;
                        assert(is_sibling(world, e.0, ids@[j].0));
                    }
                }
                assert(anchor(world, e.0, edge) == key_of(world, e.0));
            }
            let own = own_key(world, e);
            match edge {
                Edge::Front => FracIndex::after(own),
                Edge::Back => FracIndex::before(own),
            }
        },
    };
    proof {
        assert forall|s: u64| #[trigger] is_sibling(world, e.0, s) && key_of(world, s) is Some implies beyond(
            edge,
            key_of(world, s).unwrap(),
            key@,
        ) by {
            let x = key_of(world, s).unwrap();
            assert(sibling_key(world, e.0, x));
            let b = anchor(world, e.0, edge).unwrap();
            assert(is_extreme(world, e.0, edge, b));
            assert(!beyond(edge, b, x));
            match edge {
                Edge::Front => {
                    if x != b {
                        lemma_lex_lt_total(x, b);
                        lemma_lex_lt_transitive(x, b, key@);
                    }
                },
                Edge::Back => {
                    if x != b {
                        lemma_lex_lt_total(x, b);
                        lemma_lex_lt_transitive(key@, b, x);
                    }
                },
            }
        }
    }
    Some(key)
}

} // verus!
