//! The presentation document: a [`World`] plus top-level metadata, with ordered traversal
//! and the master/layout/slide inheritance rules.

use vstd::prelude::*;
use std::collections::BTreeMap;
use crate::doc::{LayoutInfo, MasterInfo, PlaceholderRef, SlideInfo, ph_less, ph_lt, lemma_ph_rank_injective};
use crate::geom::RectEmu;
use crate::paint::Fill;
use crate::shape::Geometry;
use crate::text::TextBody;
use crate::frac::{FracIndex, canonical, frac_lt, lex_less, lex_lt, lemma_lex_lt_irreflexive,
    lemma_lex_lt_total, lemma_lex_lt_transitive};
use crate::geom::SizeEmu;
use crate::media::{fnv1a, fnv1a_hash, hex16, hex16_string, lemma_parse_hex16, parse_hex16, parse_media_key};
use crate::theme::Theme;
use crate::world::{CompKind, Entity, World};

verus! {

broadcast use vstd::std_specs::btree::group_btree_axioms;

/// 13.333 inches in EMU (rounded): the width of a 16:9 slide.
pub const SLIDE_WIDTH_16_9: i64 = 12_191_695;

/// 7.5 inches in EMU: the height of a 16:9 slide.
pub const SLIDE_HEIGHT_16_9: i64 = 6_858_000;

pub struct Presentation {
    pub world: World,
    pub slide_size: SizeEmu,
    pub default_master: Option<Entity>,
    /// In-memory store of embedded media, keyed by the 64-bit content hash whose
    /// lowercase hex rendering is the media key.
    pub media: BTreeMap<u64, Vec<u8>>,
}

/// The order key of entity `e`, if it has one.
pub open spec fn key_of(w: &World, e: u64) -> Option<Seq<u8>> {
    if w.order@.contains_key(e) {
        Some(w.order@[e]@)
    } else {
        None
    }
}

/// Sibling order: by order key (an entity without a key first), ties broken by id.
pub open spec fn sorts_before(w: &World, a: u64, b: u64) -> bool {
    match (key_of(w, a), key_of(w, b)) {
        (None, None) => a < b,
        (None, Some(_)) => true,
        (Some(_), None) => false,
        (Some(x), Some(y)) => lex_lt(x, y) || (x == y && a < b),
    }
}

/// `s` lists its entities in strictly increasing sibling order (so without repeats).
pub open spec fn sorted_in(w: &World, s: Seq<Entity>) -> bool {
    forall|i: int, j: int| 0 <= i < j < s.len() ==> sorts_before(w, #[trigger] s[i].0, #[trigger] s[j].0)
}

/// `s` lists entity `id`.
pub open spec fn has_id(s: Seq<Entity>, id: u64) -> bool {
    exists|i: int| 0 <= i < s.len() && s[i].0 == id
}

/// Which entities an ordered listing selects.
#[derive(Clone, Copy, Debug, PartialEq, Eq, Structural)]
pub enum Selector {
    /// The live entities whose parent is the given entity.
    ChildOf(Entity),
    /// The live slides.
    Slides,
    /// The live entities whose parent is the given entity and which carry a placeholder.
    PlaceholdersOf(Entity),
}

pub open spec fn selects(w: &World, sel: Selector, id: u64) -> bool {
    w.live().contains(id) && match sel {
        Selector::ChildOf(p) => w.parent@.contains_key(id) && w.parent@[id] == p,
        Selector::Slides => w.slide_info@.contains_key(id),
        Selector::PlaceholdersOf(p) => w.parent@.contains_key(id) && w.parent@[id] == p
            && w.placeholders@.contains_key(id),
    }
}

/// The listing of the entities `sel` selects, in sibling order (there is exactly one such
/// sequence: see [`lemma_sorted_unique`]).
pub open spec fn listing(w: &World, sel: Selector) -> Seq<Entity> {
    choose|s: Seq<Entity>| is_order_of(w, s, sel)
}

/// `s` is the listing of the entities `sel` selects, in sibling order.
pub open spec fn is_order_of(w: &World, s: Seq<Entity>, sel: Selector) -> bool {
    &&& sorted_in(w, s)
    &&& forall|id: u64| #[trigger] has_id(s, id) <==> selects(w, sel, id)
}

/// The layout a slide is based on.
pub open spec fn spec_layout_of(w: &World, slide: Entity) -> Option<Entity> {
    if w.slide_info@.contains_key(slide.0) {
        Some(w.slide_info@[slide.0].layout)
    } else {
        None
    }
}

/// The master a slide inherits from, through its layout.
pub open spec fn spec_master_of(w: &World, slide: Entity) -> Option<Entity> {
    match spec_layout_of(w, slide) {
        Some(l) => if w.layout_info@.contains_key(l.0) {
            Some(w.layout_info@[l.0].master)
        } else {
            None
        },
        None => None,
    }
}

/// The master owning a container: a master owns itself, a layout is owned by its master,
/// a slide by the master of its layout.
pub open spec fn spec_owning_master(w: &World, c: Entity) -> Option<Entity> {
    if w.master_info@.contains_key(c.0) {
        Some(c)
    } else if w.layout_info@.contains_key(c.0) {
        Some(w.layout_info@[c.0].master)
    } else {
        spec_master_of(w, c)
    }
}

/// The background fill of an entity's own, if set.
pub open spec fn own_background(w: &World, e: Entity) -> Option<Fill> {
    if w.backgrounds@.contains_key(e.0) {
        Some(w.backgrounds@[e.0])
    } else {
        None
    }
}

/// A layout's background, falling back to its master's.
pub open spec fn spec_layout_chain_background(w: &World, layout: Entity) -> Option<Fill> {
    match own_background(w, layout) {
        Some(f) => Some(f),
        None => if w.layout_info@.contains_key(layout.0) {
            own_background(w, w.layout_info@[layout.0].master)
        } else {
            None
        },
    }
}

/// A slide's background, falling back to its layout's and then its master's.
pub open spec fn spec_background_of(w: &World, slide: Entity) -> Option<Fill> {
    match own_background(w, slide) {
        Some(f) => Some(f),
        None => match spec_layout_of(w, slide) {
            Some(l) => spec_layout_chain_background(w, l),
            None => None,
        },
    }
}

/// The background of any container, walking its inheritance chain up to the master.
pub open spec fn spec_container_background(w: &World, c: Entity) -> Option<Fill> {
    match own_background(w, c) {
        Some(f) => Some(f),
        None => if w.slide_info@.contains_key(c.0) {
            spec_layout_chain_background(w, w.slide_info@[c.0].layout)
        } else if w.layout_info@.contains_key(c.0) {
            own_background(w, w.layout_info@[c.0].master)
        } else {
            None
        },
    }
}

/// The first entity of `s` whose placeholder link is `ph`.
pub open spec fn first_with_ph(w: &World, s: Seq<Entity>, ph: PlaceholderRef) -> Option<Entity>
    decreases s.len(),
{
    if s.len() == 0 {
        None
    } else if w.placeholders@.contains_key(s[0].0) && w.placeholders@[s[0].0] == ph {
        Some(s[0])
    } else {
        first_with_ph(w, s.drop_first(), ph)
    }
}

pub open spec fn spec_find_placeholder(w: &World, c: Entity, ph: PlaceholderRef) -> Option<Entity> {
    first_with_ph(w, listing(w, Selector::PlaceholdersOf(c)), ph)
}

/// The placeholder matches for `ph` on a slide, its layout and its master, most-derived
/// first.
pub open spec fn spec_placeholder_chain(w: &World, slide: Entity, ph: PlaceholderRef) -> Seq<Option<Entity>> {
    seq![
        spec_find_placeholder(w, slide, ph),
        match spec_layout_of(w, slide) {
            Some(l) => spec_find_placeholder(w, l, ph),
            None => None,
        },
        match spec_master_of(w, slide) {
            Some(m) => spec_find_placeholder(w, m, ph),
            None => None,
        },
    ]
}

/// The first frame present along a placeholder chain.
pub open spec fn first_frame(w: &World, chain: Seq<Option<Entity>>) -> Option<RectEmu>
    decreases chain.len(),
{
    if chain.len() == 0 {
        None
    } else {
        match chain[0] {
            Some(e) => if w.frames@.contains_key(e.0) {
                Some(w.frames@[e.0])
            } else {
                first_frame(w, chain.drop_first())
            },
            None => first_frame(w, chain.drop_first()),
        }
    }
}

/// The first fill present along a placeholder chain.
pub open spec fn first_fill(w: &World, chain: Seq<Option<Entity>>) -> Option<Fill>
    decreases chain.len(),
{
    if chain.len() == 0 {
        None
    } else {
        match chain[0] {
            Some(e) => if w.fills@.contains_key(e.0) {
                Some(w.fills@[e.0])
            } else {
                first_fill(w, chain.drop_first())
            },
            None => first_fill(w, chain.drop_first()),
        }
    }
}

/// The first geometry present along a placeholder chain.
pub open spec fn first_geometry(w: &World, chain: Seq<Option<Entity>>) -> Option<Geometry>
    decreases chain.len(),
{
    if chain.len() == 0 {
        None
    } else {
        match chain[0] {
            Some(e) => if w.geometries@.contains_key(e.0) {
                Some(w.geometries@[e.0])
            } else {
                first_geometry(w, chain.drop_first())
            },
            None => first_geometry(w, chain.drop_first()),
        }
    }
}

/// The entity of the first text body present along a placeholder chain.
pub open spec fn first_text_owner(w: &World, chain: Seq<Option<Entity>>) -> Option<Entity>
    decreases chain.len(),
{
    if chain.len() == 0 {
        None
    } else {
        match chain[0] {
            Some(e) => if w.texts@.contains_key(e.0) {
                Some(e)
            } else {
                first_text_owner(w, chain.drop_first())
            },
            None => first_text_owner(w, chain.drop_first()),
        }
    }
}

/// `s` holds the placeholder link `r`.
pub open spec fn has_ref(s: Seq<PlaceholderRef>, r: PlaceholderRef) -> bool {
    exists|i: int| 0 <= i < s.len() && s[i] == r
}

/// `s` is strictly increasing in placeholder order (so without repeats).
pub open spec fn refs_sorted(s: Seq<PlaceholderRef>) -> bool {
    forall|i: int, j: int| 0 <= i < j < s.len() ==> ph_lt(#[trigger] s[i], #[trigger] s[j])
}

/// Some placeholder child of container `c` carries the link `r`.
pub open spec fn provides(w: &World, c: Entity, r: PlaceholderRef) -> bool {
    exists|id: u64| #[trigger] selects(w, Selector::PlaceholdersOf(c), id) && w.placeholders@[id] == r
}

/// The link `r` is defined on the slide, its layout or its master.
pub open spec fn in_effect(w: &World, slide: Entity, r: PlaceholderRef) -> bool {
    ||| provides(w, slide, r)
    ||| (spec_layout_of(w, slide) matches Some(l) && provides(w, l, r))
    ||| (spec_master_of(w, slide) matches Some(m) && provides(w, m, r))
}

pub proof fn lemma_sorts_before_irreflexive(w: &World, a: u64)
    ensures
        !sorts_before(w, a, a),
{
    if let Some(x) = key_of(w, a) {
        lemma_lex_lt_irreflexive(x);
    }
}

pub proof fn lemma_sorts_before_transitive(w: &World, a: u64, b: u64, c: u64)
    requires
        sorts_before(w, a, b),
        sorts_before(w, b, c),
    ensures
        sorts_before(w, a, c),
{
    match (key_of(w, a), key_of(w, b), key_of(w, c)) {
        (Some(x), Some(y), Some(z)) => {
            if lex_lt(x, y) && lex_lt(y, z) {
                lemma_lex_lt_transitive(x, y, z);
            }
        },
        _ => {},
    }
}

pub proof fn lemma_sorts_before_total(w: &World, a: u64, b: u64)
    requires
        a != b,
    ensures
        sorts_before(w, a, b) || sorts_before(w, b, a),
{
    if let (Some(x), Some(y)) = (key_of(w, a), key_of(w, b)) {
        if x != y {
            lemma_lex_lt_total(x, y);
        }
    }
}

/// Two strictly sorted sequences holding the same entities are equal.
pub proof fn lemma_sorted_unique(w: &World, s: Seq<Entity>, t: Seq<Entity>)
    requires
        sorted_in(w, s),
        sorted_in(w, t),
        forall|id: u64| #![trigger has_id(s, id)] #![trigger has_id(t, id)] has_id(s, id) <==> has_id(t, id),
    ensures
        s == t,
    decreases s.len() + t.len(),
{
    if s.len() == 0 {
        if t.len() > 0 {
            assert(has_id(t, t[0].0));
            assert(has_id(s, t[0].0));
        }
        assert(s =~= t);
    } else if t.len() == 0 {
        assert(has_id(s, s[0].0));
        assert(has_id(t, s[0].0));
    } else {
        // The least elements agree.
        let a = s[0].0;
        let b = t[0].0;
        assert(has_id(s, a));
        let j = choose|i: int| 0 <= i < t.len() && t[i].0 == a;
        assert(has_id(t, b));
        assert(has_id(s, b));
        let k = choose|i: int| 0 <= i < s.len() && s[i].0 == b;
        if a != b {
            if j > 0 {
                assert(sorts_before(w, t[0].0, t[j].0));
            }
            if k > 0 {
                assert(sorts_before(w, s[0].0, s[k].0));
            }
            lemma_sorts_before_irreflexive(w, a);
            if j > 0 && k > 0 {
                lemma_sorts_before_transitive(w, a, b, a);
            }
        }
        assert(a == b);
        let s1 = s.drop_first();
        let t1 = t.drop_first();
        assert forall|id: u64| has_id(s1, id) implies has_id(t1, id) by {
            let i = choose|i: int| 0 <= i < s1.len() && s1[i].0 == id;
            assert(s[i + 1].0 == id);
            assert(sorts_before(w, s[0].0, s[i + 1].0));
            lemma_sorts_before_irreflexive(w, id);
            assert(has_id(s, id));
            let m = choose|m: int| 0 <= m < t.len() && t[m].0 == id;
            assert(m != 0);
            assert(has_id(t, id));
            assert(t1[m - 1].0 == id);
        }
        assert forall|id: u64| has_id(t1, id) implies has_id(s1, id) by {
            let i = choose|i: int| 0 <= i < t1.len() && t1[i].0 == id;
            assert(t[i + 1].0 == id);
            assert(sorts_before(w, t[0].0, t[i + 1].0));
            lemma_sorts_before_irreflexive(w, id);
            assert(has_id(t, id));
            let m = choose|m: int| 0 <= m < s.len() && s[m].0 == id;
            assert(m != 0);
            assert(s1[m - 1].0 == id);
        }
        assert(sorted_in(w, s1));
        assert(sorted_in(w, t1));
        lemma_sorted_unique(w, s1, t1);
        assert(s[0] == t[0]);
        assert forall|i: int| 0 <= i < s.len() implies s[i] == t[i] by {
            if i > 0 {
                assert(s[i] == s1[i - 1]);
                assert(t[i] == t1[i - 1]);
            }
        }
        assert(s =~= t);
    }
}

/// Order keys of entities other than `e` agree when the order columns agree away from `e`.
pub proof fn lemma_key_frame(w1: &World, w2: &World, e: u64, x: u64)
    requires
        w1.order@.remove(e) == w2.order@.remove(e),
        x != e,
    ensures
        key_of(w1, x) == key_of(w2, x),
{
    assert(w1.order@.remove(e).contains_key(x) == w1.order@.contains_key(x));
    assert(w2.order@.remove(e).contains_key(x) == w2.order@.contains_key(x));
    if w1.order@.contains_key(x) {
        assert(w1.order@.remove(e)[x] == w1.order@[x]);
        assert(w2.order@.remove(e)[x] == w2.order@[x]);
    }
}

/// Listings stay sorted when only entity `e`'s order key changes and `e` is not listed.
pub proof fn lemma_sorted_keys_frame(w1: &World, w2: &World, e: u64, s: Seq<Entity>)
    requires
        sorted_in(w1, s),
        w1.order@.remove(e) == w2.order@.remove(e),
        !has_id(s, e),
    ensures
        sorted_in(w2, s),
{
    assert forall|i: int, j: int| 0 <= i < j < s.len() implies sorts_before(w2, #[trigger] s[i].0, #[trigger] s[j].0) by {
        assert(sorts_before(w1, s[i].0, s[j].0));
        if s[i].0 == e {
            assert(has_id(s, e));
        }
        if s[j].0 == e {
            assert(has_id(s, e));
        }
        lemma_key_frame(w1, w2, e, s[i].0);
        lemma_key_frame(w1, w2, e, s[j].0);
    }
}

/// Appending a newcomer `e` whose key sorts after the last listed entity keeps a listing
/// sorted.
pub proof fn lemma_sorted_push(w: &World, s: Seq<Entity>, e: Entity)
    requires
        sorted_in(w, s),
        s.len() > 0 ==> sorts_before(w, s.last().0, e.0),
    ensures
        sorted_in(w, s.push(e)),
{
    let t = s.push(e);
    assert forall|i: int, j: int| 0 <= i < j < t.len() implies sorts_before(w, #[trigger] t[i].0, #[trigger] t[j].0) by {
        if j == s.len() {
            if i < s.len() - 1 {
                assert(sorts_before(w, s[i].0, s[s.len() - 1].0));
                lemma_sorts_before_transitive(w, s[i].0, s.last().0, e.0);
            }
        } else {
            assert(t[i] == s[i] && t[j] == s[j]);
        }
    }
}

impl Presentation {
    /// A new empty presentation with a 16:9 slide size (13.333in x 7.5in).
    pub fn new() -> (p: Presentation)
        ensures
            p.world.wf(),
            p.world.live() == Set::<u64>::empty(),
            p.world.next_id() == 0,
            forall|e: u64, k: CompKind| p.world.comp(e, k) is None,
            p.slide_size == (SizeEmu { w: SLIDE_WIDTH_16_9, h: SLIDE_HEIGHT_16_9 }),
            p.default_master is None,
            p.media@ == Map::<u64, Vec<u8>>::empty(),
    {
        Presentation {
            world: World::new(),
            slide_size: SizeEmu::new(SLIDE_WIDTH_16_9, SLIDE_HEIGHT_16_9),
            default_master: None,
            media: BTreeMap::new(),
        }
    }

    /// Whether `a` sorts before `b` among siblings.
    fn sorts_before_exec(&self, a: u64, b: u64) -> (r: bool)
        ensures
            r == sorts_before(&self.world, a, b),
    {
        match (self.world.order.get(&a), self.world.order.get(&b)) {
            (None, None) => a < b,
            (None, Some(_)) => true,
            (Some(_), None) => false,
            (Some(x), Some(y)) => {
                if lex_less(&x.0, &y.0) {
                    true
                } else if lex_less(&y.0, &x.0) {
                    false
                } else {
                    proof {
                        if x@ != y@ {
                            lemma_lex_lt_total(x@, y@);
                        }
                    }
                    a < b
                }
            },
        }
    }

    /// Insert `x` into the strictly sorted `v` at its place in sibling order.
    fn sorted_insert(&self, v: &mut Vec<Entity>, x: Entity)
        requires
            sorted_in(&self.world, old(v)@),
            forall|i: int| 0 <= i < old(v)@.len() ==> old(v)@[i].0 != x.0,
        ensures
            sorted_in(&self.world, final(v)@),
            forall|id: u64| #![trigger has_id(final(v)@, id)] #![trigger has_id(old(v)@, id)] has_id(final(v)@, id) <==> (id == x.0 || has_id(old(v)@, id)),
    {
        let ghost w = &self.world;
        let mut p: usize = 0;
        let mut found = false;
        while p < v.len() && !found
            invariant
                *w == self.world,
                p <= v@.len(),
                v@ == old(v)@,
                forall|i: int| 0 <= i < v@.len() ==> v@[i].0 != x.0,
                forall|i: int| 0 <= i < p ==> sorts_before(w, #[trigger] v@[i].0, x.0),
                found ==> p < v@.len() && sorts_before(w, x.0, v@[p as int].0),
            decreases v@.len() - p, if found { 0int } else { 1int },
        {
            if self.sorts_before_exec(x.0, v[p].0) {
                found = true;
            } else {
                proof {
                    lemma_sorts_before_total(w, x.0, v@[p as int].0);
                }
                p = p + 1;
            }
        }
        let ghost old_v = v@;
        assert(old_v == old(v)@);
        v.insert(p, x);
        proof {
            assert(v@ == old_v.insert(p as int, x));
            assert forall|i: int, j: int| 0 <= i < j < v@.len() implies sorts_before(w, #[trigger] v@[i].0, #[trigger] v@[j].0) by {
                if j < p {
                    assert(v@[i] == old_v[i] && v@[j] == old_v[j]);
                } else if j == p {
                    assert(v@[i] == old_v[i]);
                } else if i < p {
                    assert(v@[i] == old_v[i] && v@[j] == old_v[j - 1]);
                    assert(sorts_before(w, old_v[i].0, x.0));
                    assert(sorts_before(w, x.0, old_v[j - 1].0)) by {
                        if j - 1 > p {
                            assert(sorts_before(w, old_v[p as int].0, old_v[j - 1].0));
                            lemma_sorts_before_transitive(w, x.0, old_v[p as int].0, old_v[j - 1].0);
                        }
                    }
                    lemma_sorts_before_transitive(w, old_v[i].0, x.0, old_v[j - 1].0);
                } else if i == p {
                    assert(v@[j] == old_v[j - 1]);
                    if j - 1 > p {
                        assert(sorts_before(w, old_v[p as int].0, old_v[j - 1].0));
                        lemma_sorts_before_transitive(w, x.0, old_v[p as int].0, old_v[j - 1].0);
                    }
                } else {
                    assert(v@[i] == old_v[i - 1] && v@[j] == old_v[j - 1]);
                }
            }
            assert forall|id: u64| #![trigger has_id(v@, id)] #![trigger has_id(old_v, id)] has_id(v@, id) <==> (id == x.0 || has_id(old_v, id)) by {
                if has_id(v@, id) {
                    let i = choose|i: int| 0 <= i < v@.len() && v@[i].0 == id;
                    if i < p {
                        assert(old_v[i].0 == id);
                    } else if i > p {
                        assert(old_v[i - 1].0 == id);
                    }
                }
                if id == x.0 {
                    assert(v@[p as int].0 == id);
                } else if has_id(old_v, id) {
                    let i = choose|i: int| 0 <= i < old_v.len() && old_v[i].0 == id;
                    if i < p {
                        assert(v@[i].0 == id);
                    } else {
                        assert(v@[i + 1].0 == id);
                    }
                }
            }
        }
    }

    /// The entities `sel` selects, in sibling order.
    fn select_sorted(&self, sel: Selector) -> (r: Vec<Entity>)
        ensures
            is_order_of(&self.world, r@, sel),
            r@ == listing(&self.world, sel),
    {
        let ghost w = &self.world;
        let all = self.world.iter();
        let mut out: Vec<Entity> = Vec::new();
        let mut i: usize = 0;
        while i < all.len()
            invariant
                *w == self.world,
                i <= all@.len(),
                forall|a: int, b: int| 0 <= a < b < all@.len() ==> all@[a].0 < all@[b].0,
                forall|id: u64| w.live().contains(id) <==> exists|a: int| 0 <= a < all@.len() && #[trigger] all@[a].0 == id,
                sorted_in(w, out@),
                forall|id: u64| #![trigger has_id(out@, id)] has_id(out@, id) <==> (has_id(all@.subrange(0, i as int), id) && selects(w, sel, id)),
            decreases all@.len() - i,
        {
            let e = all[i];
            let keep = match sel {
                Selector::ChildOf(p) => match self.world.parent.get(&e.0) {
                    Some(q) => *q == p,
                    None => false,
                },
                Selector::Slides => self.world.slide_info.contains_key(&e.0),
                Selector::PlaceholdersOf(p) => match self.world.parent.get(&e.0) {
                    Some(q) => *q == p && self.world.placeholders.contains_key(&e.0),
                    None => false,
                },
            };
            let ghost before = out@;
            proof {
                assert(w.live().contains(e.0));
                assert forall|k: int| 0 <= k < before.len() implies before[k].0 != e.0 by {
                    assert(has_id(before, before[k].0));
                    let a = choose|a: int| 0 <= a < i && all@.subrange(0, i as int)[a].0 == before[k].0;
                    assert(all@[a].0 < all@[i as int].0);
                }
            }
            if keep {
                self.sorted_insert(&mut out, e);
            }
            proof {
                let pre = all@.subrange(0, i as int);
                let post = all@.subrange(0, i as int + 1);
                assert forall|id: u64| #![trigger has_id(out@, id)] has_id(out@, id) <==> (has_id(post, id) && selects(w, sel, id)) by {
                    if has_id(post, id) {
                        let a = choose|a: int| 0 <= a < post.len() && post[a].0 == id;
                        if a < i {
                            assert(pre[a].0 == id);
                            assert(has_id(pre, id));
                        }
                    }
                    if has_id(pre, id) {
                        let a = choose|a: int| 0 <= a < pre.len() && pre[a].0 == id;
                        assert(post[a].0 == id);
                    }
                    assert(post[i as int].0 == e.0);
                    if id == e.0 {
                        assert(has_id(post, id));
                    }
                }
            }
            i = i + 1;
        }
        proof {
            assert(all@.subrange(0, all@.len() as int) =~= all@);
            assert forall|id: u64| #[trigger] has_id(out@, id) <==> selects(w, sel, id) by {
                if selects(w, sel, id) {
                    let a = choose|a: int| 0 <= a < all@.len() && #[trigger] all@[a].0 == id;
                    assert(has_id(all@, id));
                }
                if has_id(all@, id) {
                    let a = choose|a: int| 0 <= a < all@.len() && all@[a].0 == id;
                    assert(w.live().contains(id));
                }
            }
            assert(is_order_of(w, out@, sel));
            lemma_sorted_unique(w, out@, listing(w, sel));
        }
        out
    }

    /// Children of `parent`, in sibling order.
    pub fn children(&self, parent: Entity) -> (r: Vec<Entity>)
        ensures
            is_order_of(&self.world, r@, Selector::ChildOf(parent)),
            r@ == listing(&self.world, Selector::ChildOf(parent)),
    {
        self.select_sorted(Selector::ChildOf(parent))
    }

    /// All slides, in order.
    pub fn slides(&self) -> (r: Vec<Entity>)
        ensures
            is_order_of(&self.world, r@, Selector::Slides),
            r@ == listing(&self.world, Selector::Slides),
    {
        self.select_sorted(Selector::Slides)
    }

    /// Order key to append after the last of `siblings`.
    fn append_key(&self, siblings: &Vec<Entity>) -> (k: FracIndex)
        ensures
            canonical(k@),
            siblings@.len() > 0 ==> match key_of(&self.world, siblings@.last().0) {
                Some(last) => lex_lt(last, k@) && frac_lt(last, k@),
                None => true,
            },
    {
        let last: Option<&FracIndex> = if siblings.len() > 0 {
            self.world.order.get(&siblings[siblings.len() - 1].0)
        } else {
            None
        };
        FracIndex::after(last)
    }

    /// Add a master carrying `theme`; it becomes the default master if none is set yet.
    pub fn add_master(&mut self, theme: Theme) -> (e: Entity)
        requires
            old(self).world.wf(),
            old(self).world.next_id() < u64::MAX,
        ensures
            final(self).world.wf(),
            e.0 == old(self).world.next_id(),
            !old(self).world.live().contains(e.0),
            final(self).world.live() == old(self).world.live().insert(e.0),
            final(self).world.next_id() == e.0 + 1,
            final(self).world.master_info@ == old(self).world.master_info@.insert(e.0, MasterInfo { theme }),
            final(self).world.columns_except(&old(self).world, e.0, CompKind::Master),
            final(self).default_master == match old(self).default_master {
                Some(m) => Some(m),
                None => Some(e),
            },
            final(self).slide_size == old(self).slide_size,
            final(self).media@ == old(self).media@,
    {
        let e = self.world.spawn();
        self.world.master_info.insert(e.0, MasterInfo { theme });
        if self.default_master.is_none() {
            self.default_master = Some(e);
        }
        e
    }

    /// Add a layout named `name` under `master`.
    pub fn add_layout(&mut self, master: Entity, name: &str) -> (e: Entity)
        requires
            old(self).world.wf(),
            old(self).world.next_id() < u64::MAX,
        ensures
            final(self).world.wf(),
            e.0 == old(self).world.next_id(),
            !old(self).world.live().contains(e.0),
            final(self).world.live() == old(self).world.live().insert(e.0),
            final(self).world.next_id() == e.0 + 1,
            final(self).world.layout_info@.contains_key(e.0),
            final(self).world.layout_info@[e.0].master == master,
            final(self).world.layout_info@[e.0].name@ == name@,
            final(self).world.columns_except(&old(self).world, e.0, CompKind::Layout),
            final(self).default_master == old(self).default_master,
            final(self).slide_size == old(self).slide_size,
            final(self).media@ == old(self).media@,
    {
        let e = self.world.spawn();
        self.world.layout_info.insert(e.0, LayoutInfo { master, name: String::from_str(name) });
        e
    }

    /// Add a slide based on `layout`, appended after the existing slides: the slide order
    /// becomes the previous order followed by the new slide.
    pub fn add_slide(&mut self, layout: Entity) -> (e: Entity)
        requires
            old(self).world.wf(),
            old(self).world.next_id() < u64::MAX,
        ensures
            final(self).world.wf(),
            e.0 == old(self).world.next_id(),
            !old(self).world.live().contains(e.0),
            final(self).world.live() == old(self).world.live().insert(e.0),
            final(self).world.next_id() == e.0 + 1,
            final(self).world.slide_info@ == old(self).world.slide_info@.insert(e.0, SlideInfo { layout }),
            final(self).world.order@.contains_key(e.0),
            final(self).world.order@ == old(self).world.order@.insert(e.0, final(self).world.order@[e.0]),
            canonical(final(self).world.order@[e.0]@),
            final(self).world.columns_agree_except(&old(self).world, e.0, set![CompKind::Slide, CompKind::Order]),
            final(self).default_master == old(self).default_master,
            final(self).slide_size == old(self).slide_size,
            final(self).media@ == old(self).media@,
            forall|s: Seq<Entity>| #[trigger] is_order_of(&old(self).world, s, Selector::Slides)
                ==> is_order_of(&final(self).world, s.push(e), Selector::Slides),
            forall|s: u64| #[trigger] selects(&old(self).world, Selector::Slides, s) ==> sorts_before(
                &final(self).world,
                s,
                e.0,
            ),
            listing(&final(self).world, Selector::Slides) == listing(&old(self).world, Selector::Slides).push(e),
    {
        let sl = self.slides();
        let key = self.append_key(&sl);
        let ghost kv = key@;
        let ghost w0 = self.world;
        let e = self.world.spawn();
        self.world.slide_info.insert(e.0, SlideInfo { layout });
        self.world.order.insert(e.0, key);
        proof {
            let w1 = &self.world;
            assert(w1.order@.remove(e.0) =~= w0.order@.remove(e.0));
            assert(key_of(w1, e.0) == Some(kv));
            assert forall|s: Seq<Entity>| #[trigger] is_order_of(&w0, s, Selector::Slides)
                implies is_order_of(w1, s.push(e), Selector::Slides) by {
                lemma_sorted_unique(&w0, s, sl@);
                if has_id(s, e.0) {
                    assert(selects(&w0, Selector::Slides, e.0));
                }
                lemma_sorted_keys_frame(&w0, w1, e.0, s);
                if s.len() > 0 {
                    let last = s.last().0;
                    assert(has_id(s, last));
                    assert(last != e.0);
                    lemma_key_frame(&w0, w1, e.0, last);
                }
                lemma_sorted_push(w1, s, e);
                let t = s.push(e);
                assert forall|id: u64| #[trigger] has_id(t, id) <==> selects(w1, Selector::Slides, id) by {
                    if has_id(t, id) && id != e.0 {
                        let i = choose|i: int| 0 <= i < t.len() && t[i].0 == id;
                        assert(s[i].0 == id);
                        assert(has_id(s, id));
                    }
                    if has_id(s, id) {
                        let i = choose|i: int| 0 <= i < s.len() && s[i].0 == id;
                        assert(t[i].0 == id);
                    }
                    assert(t[s.len() as int].0 == e.0);
                }
            }
            assert(is_order_of(w1, sl@.push(e), Selector::Slides));
            lemma_sorted_unique(w1, sl@.push(e), listing(w1, Selector::Slides));
            assert forall|s: u64| #[trigger] selects(&w0, Selector::Slides, s) implies sorts_before(w1, s, e.0) by {
                assert(has_id(sl@, s));
                let i = choose|i: int| 0 <= i < sl@.len() && sl@[i].0 == s;
                let t = sl@.push(e);
                assert(t[i].0 == s && t[sl@.len() as int].0 == e.0);
                assert(sorts_before(w1, t[i].0, t[sl@.len() as int].0));
            }
        }
        e
    }

    /// Add a shape under `parent`, appended after its existing children: the children of
    /// `parent` become the previous children followed by the new shape.
    pub fn add_shape(&mut self, parent: Entity) -> (e: Entity)
        requires
            old(self).world.wf(),
            old(self).world.next_id() < u64::MAX,
        ensures
            final(self).world.wf(),
            e.0 == old(self).world.next_id(),
            !old(self).world.live().contains(e.0),
            final(self).world.live() == old(self).world.live().insert(e.0),
            final(self).world.next_id() == e.0 + 1,
            final(self).world.parent@ == old(self).world.parent@.insert(e.0, parent),
            final(self).world.order@.contains_key(e.0),
            final(self).world.order@ == old(self).world.order@.insert(e.0, final(self).world.order@[e.0]),
            canonical(final(self).world.order@[e.0]@),
            final(self).world.columns_agree_except(&old(self).world, e.0, set![CompKind::Parent, CompKind::Order]),
            final(self).default_master == old(self).default_master,
            final(self).slide_size == old(self).slide_size,
            final(self).media@ == old(self).media@,
            forall|s: Seq<Entity>| #[trigger] is_order_of(&old(self).world, s, Selector::ChildOf(parent))
                ==> is_order_of(&final(self).world, s.push(e), Selector::ChildOf(parent)),
            listing(&final(self).world, Selector::ChildOf(parent)) == listing(
                &old(self).world,
                Selector::ChildOf(parent),
            ).push(e),
    {
        let ch = self.children(parent);
        let key = self.append_key(&ch);
        let ghost kv = key@;
        let ghost w0 = self.world;
        let e = self.world.spawn();
        self.world.parent.insert(e.0, parent);
        self.world.order.insert(e.0, key);
        proof {
            let w1 = &self.world;
            let sel = Selector::ChildOf(parent);
            assert(w1.order@.remove(e.0) =~= w0.order@.remove(e.0));
            assert(key_of(w1, e.0) == Some(kv));
            assert forall|s: Seq<Entity>| #[trigger] is_order_of(&w0, s, sel)
                implies is_order_of(w1, s.push(e), sel) by {
                lemma_sorted_unique(&w0, s, ch@);
                if has_id(s, e.0) {
                    assert(selects(&w0, sel, e.0));
                }
                lemma_sorted_keys_frame(&w0, w1, e.0, s);
                if s.len() > 0 {
                    let last = s.last().0;
                    assert(has_id(s, last));
                    assert(last != e.0);
                    lemma_key_frame(&w0, w1, e.0, last);
                }
                lemma_sorted_push(w1, s, e);
                let t = s.push(e);
                assert forall|id: u64| #[trigger] has_id(t, id) <==> selects(w1, sel, id) by {
                    if has_id(t, id) && id != e.0 {
                        let i = choose|i: int| 0 <= i < t.len() && t[i].0 == id;
                        assert(s[i].0 == id);
                        assert(has_id(s, id));
                    }
                    if has_id(s, id) {
                        let i = choose|i: int| 0 <= i < s.len() && s[i].0 == id;
                        assert(t[i].0 == id);
                    }
                    assert(t[s.len() as int].0 == e.0);
                }
            }
        }
        proof {
            let w1 = &self.world;
            assert(is_order_of(&w0, ch@, Selector::ChildOf(parent)));
            assert(is_order_of(w1, ch@.push(e), Selector::ChildOf(parent)));
            lemma_sorted_unique(w1, ch@.push(e), listing(w1, Selector::ChildOf(parent)));
        }
        e
    }

    /// The layout a slide is based on.
    pub fn layout_of(&self, slide: Entity) -> (r: Option<Entity>)
        ensures
            r == spec_layout_of(&self.world, slide),
    {
        match self.world.slide_info.get(&slide.0) {
            Some(si) => Some(si.layout),
            None => None,
        }
    }

    /// The master a slide ultimately inherits from.
    pub fn master_of(&self, slide: Entity) -> (r: Option<Entity>)
        ensures
            r == spec_master_of(&self.world, slide),
    {
        let layout = match self.world.slide_info.get(&slide.0) {
            Some(si) => si.layout,
            None => {
                return None;
            },
        };
        match self.world.layout_info.get(&layout.0) {
            Some(li) => Some(li.master),
            None => None,
        }
    }

    /// The theme in effect for a slide (via its master).
    pub fn theme_of(&self, slide: Entity) -> (r: Option<&Theme>)
        ensures
            match spec_master_of(&self.world, slide) {
                Some(m) => if self.world.master_info@.contains_key(m.0) {
                    r == Some(&self.world.master_info@[m.0].theme)
                } else {
                    r is None
                },
                None => r is None,
            },
    {
        let master = match self.master_of(slide) {
            Some(m) => m,
            None => {
                return None;
            },
        };
        match self.world.master_info.get(&master.0) {
            Some(mi) => Some(&mi.theme),
            None => None,
        }
    }

    /// Resolve a slide's background, falling back slide, then layout, then master.
    pub fn background_of(&self, slide: Entity) -> (r: Option<Fill>)
        ensures
            r == spec_background_of(&self.world, slide),
    {
        if let Some(f) = self.world.backgrounds.get(&slide.0) {
            return Some(*f);
        }
        let layout = match self.world.slide_info.get(&slide.0) {
            Some(si) => si.layout,
            None => {
                return None;
            },
        };
        self.background_of_layout_chain(layout)
    }

    /// The master that owns any container: a master is itself, a layout points at its
    /// master, and a slide resolves through its layout.
    pub fn owning_master(&self, container: Entity) -> (r: Option<Entity>)
        ensures
            r == spec_owning_master(&self.world, container),
    {
        if self.world.master_info.contains_key(&container.0) {
            return Some(container);
        }
        if let Some(li) = self.world.layout_info.get(&container.0) {
            return Some(li.master);
        }
        self.master_of(container)
    }

    /// The theme in effect for any container (slide, layout or master), through its owning
    /// master.
    pub fn container_theme(&self, container: Entity) -> (r: Option<&Theme>)
        ensures
            match spec_owning_master(&self.world, container) {
                Some(m) => if self.world.master_info@.contains_key(m.0) {
                    r == Some(&self.world.master_info@[m.0].theme)
                } else {
                    r is None
                },
                None => r is None,
            },
    {
        let master = match self.owning_master(container) {
            Some(m) => m,
            None => {
                return None;
            },
        };
        match self.world.master_info.get(&master.0) {
            Some(mi) => Some(&mi.theme),
            None => None,
        }
    }

    /// The background resolved for any container, walking its inheritance chain up to the
    /// master.
    pub fn container_background(&self, container: Entity) -> (r: Option<Fill>)
        ensures
            r == spec_container_background(&self.world, container),
    {
        if let Some(f) = self.world.backgrounds.get(&container.0) {
            return Some(*f);
        }
        if let Some(si) = self.world.slide_info.get(&container.0) {
            return self.background_of_layout_chain(si.layout);
        }
        if let Some(li) = self.world.layout_info.get(&container.0) {
            return match self.world.backgrounds.get(&li.master.0) {
                Some(f) => Some(*f),
                None => None,
            };
        }
        None
    }

    /// A layout's background, falling back to its master's.
    fn background_of_layout_chain(&self, layout: Entity) -> (r: Option<Fill>)
        ensures
            r == spec_layout_chain_background(&self.world, layout),
    {
        if let Some(f) = self.world.backgrounds.get(&layout.0) {
            return Some(*f);
        }
        let master = match self.world.layout_info.get(&layout.0) {
            Some(li) => li.master,
            None => {
                return None;
            },
        };
        match self.world.backgrounds.get(&master.0) {
            Some(f) => Some(*f),
            None => None,
        }
    }

    /// Direct children of `container` that carry a placeholder link, in sibling order.
    pub fn placeholder_shapes(&self, container: Entity) -> (r: Vec<Entity>)
        ensures
            is_order_of(&self.world, r@, Selector::PlaceholdersOf(container)),
            r@ == listing(&self.world, Selector::PlaceholdersOf(container)),
    {
        self.select_sorted(Selector::PlaceholdersOf(container))
    }

    /// The first placeholder child of `container` whose link matches `ph` (type and index).
    pub fn find_placeholder(&self, container: Entity, ph: PlaceholderRef) -> (r: Option<Entity>)
        ensures
            r == spec_find_placeholder(&self.world, container, ph),
    {
        let shapes = self.placeholder_shapes(container);
        let ghost s = shapes@;
        assert(s.subrange(0, s.len() as int) =~= s);
        let mut i: usize = 0;
        while i < shapes.len()
            invariant
                shapes@ == s,
                s == listing(&self.world, Selector::PlaceholdersOf(container)),
                i <= s.len(),
                first_with_ph(&self.world, s, ph) == first_with_ph(&self.world, s.subrange(i as int, s.len() as int), ph),
            decreases s.len() - i,
        {
            let e = shapes[i];
            let ghost rest = s.subrange(i as int, s.len() as int);
            assert(rest[0] == e);
            assert(rest.drop_first() =~= s.subrange(i as int + 1, s.len() as int));
            match self.world.placeholders.get(&e.0) {
                Some(p) => {
                    if *p == ph {
                        return Some(e);
                    }
                },
                None => {},
            }
            i = i + 1;
        }
        None
    }

    /// Matching placeholder entities along the inheritance chain, most-derived first:
    /// `[slide match, layout match, master match]`, a level without a match being `None`.
    pub fn placeholder_chain(&self, slide: Entity, ph: PlaceholderRef) -> (r: [Option<Entity>; 3])
        ensures
            r@ == spec_placeholder_chain(&self.world, slide, ph),
    {
        let slide_match = self.find_placeholder(slide, ph);
        let layout_match = match self.layout_of(slide) {
            Some(layout) => self.find_placeholder(layout, ph),
            None => None,
        };
        let master_match = match self.master_of(slide) {
            Some(master) => self.find_placeholder(master, ph),
            None => None,
        };
        let r = [slide_match, layout_match, master_match];
        assert(r@ =~= spec_placeholder_chain(&self.world, slide, ph));
        r
    }

    /// A placeholder's frame: the first one present along its chain.
    pub fn ph_frame(&self, slide: Entity, ph: PlaceholderRef) -> (r: Option<RectEmu>)
        ensures
            r == first_frame(&self.world, spec_placeholder_chain(&self.world, slide, ph)),
    {
        let chain = self.placeholder_chain(slide, ph);
        let ghost c = chain@;
        assert(c.subrange(0, 3) =~= c);
        let mut i: usize = 0;
        while i < 3
            invariant
                chain@ == c,
                c == spec_placeholder_chain(&self.world, slide, ph),
                c.len() == 3,
                i <= 3,
                first_frame(&self.world, c) == first_frame(&self.world, c.subrange(i as int, 3)),
            decreases 3 - i,
        {
            let ghost rest = c.subrange(i as int, 3);
            assert(rest.drop_first() =~= c.subrange(i as int + 1, 3));
            if let Some(e) = chain[i] {
                if let Some(f) = self.world.frames.get(&e.0) {
                    return Some(*f);
                }
            }
            i = i + 1;
        }
        None
    }

    /// A placeholder's fill: the first one present along its chain.
    pub fn ph_fill(&self, slide: Entity, ph: PlaceholderRef) -> (r: Option<Fill>)
        ensures
            r == first_fill(&self.world, spec_placeholder_chain(&self.world, slide, ph)),
    {
        let chain = self.placeholder_chain(slide, ph);
        let ghost c = chain@;
        assert(c.subrange(0, 3) =~= c);
        let mut i: usize = 0;
        while i < 3
            invariant
                chain@ == c,
                c == spec_placeholder_chain(&self.world, slide, ph),
                c.len() == 3,
                i <= 3,
                first_fill(&self.world, c) == first_fill(&self.world, c.subrange(i as int, 3)),
            decreases 3 - i,
        {
            let ghost rest = c.subrange(i as int, 3);
            assert(rest.drop_first() =~= c.subrange(i as int + 1, 3));
            if let Some(e) = chain[i] {
                if let Some(f) = self.world.fills.get(&e.0) {
                    return Some(*f);
                }
            }
            i = i + 1;
        }
        None
    }

    /// A placeholder's geometry: the first one present along its chain.
    pub fn ph_geometry(&self, slide: Entity, ph: PlaceholderRef) -> (r: Option<Geometry>)
        ensures
            r == first_geometry(&self.world, spec_placeholder_chain(&self.world, slide, ph)),
    {
        let chain = self.placeholder_chain(slide, ph);
        let ghost c = chain@;
        assert(c.subrange(0, 3) =~= c);
        let mut i: usize = 0;
        while i < 3
            invariant
                chain@ == c,
                c == spec_placeholder_chain(&self.world, slide, ph),
                c.len() == 3,
                i <= 3,
                first_geometry(&self.world, c) == first_geometry(&self.world, c.subrange(i as int, 3)),
            decreases 3 - i,
        {
            let ghost rest = c.subrange(i as int, 3);
            assert(rest.drop_first() =~= c.subrange(i as int + 1, 3));
            if let Some(e) = chain[i] {
                if let Some(g) = self.world.geometries.get(&e.0) {
                    return Some(*g);
                }
            }
            i = i + 1;
        }
        None
    }

    /// A placeholder's text body: the first one present along its chain.
    pub fn ph_text(&self, slide: Entity, ph: PlaceholderRef) -> (r: Option<&TextBody>)
        ensures
            match first_text_owner(&self.world, spec_placeholder_chain(&self.world, slide, ph)) {
                Some(e) => r == Some(&self.world.texts@[e.0]),
                None => r is None,
            },
    {
        let chain = self.placeholder_chain(slide, ph);
        let ghost c = chain@;
        assert(c.subrange(0, 3) =~= c);
        let mut i: usize = 0;
        while i < 3
            invariant
                chain@ == c,
                c == spec_placeholder_chain(&self.world, slide, ph),
                c.len() == 3,
                i <= 3,
                first_text_owner(&self.world, c) == first_text_owner(&self.world, c.subrange(i as int, 3)),
            decreases 3 - i,
        {
            let ghost rest = c.subrange(i as int, 3);
            assert(rest.drop_first() =~= c.subrange(i as int + 1, 3));
            if let Some(e) = chain[i] {
                if let Some(t) = self.world.texts.get(&e.0) {
                    return Some(t);
                }
            }
            i = i + 1;
        }
        None
    }

    /// Insert `x` into the sorted `v` unless it is already there.
    fn insert_ref(v: &mut Vec<PlaceholderRef>, x: PlaceholderRef)
        requires
            refs_sorted(old(v)@),
        ensures
            refs_sorted(final(v)@),
            forall|r: PlaceholderRef| #![trigger has_ref(final(v)@, r)] #![trigger has_ref(old(v)@, r)] has_ref(final(v)@, r) <==> (r == x || has_ref(old(v)@, r)),
    {
        let mut p: usize = 0;
        while p < v.len() && ph_less(v[p], x)
            invariant
                p <= v@.len(),
                v@ == old(v)@,
                refs_sorted(v@),
                forall|i: int| 0 <= i < p ==> ph_lt(#[trigger] v@[i], x),
            decreases v@.len() - p,
        {
            p = p + 1;
        }
        let ghost old_v = v@;
        if p < v.len() && v[p] == x {
            assert(has_ref(old_v, x));
            return;
        }
        proof {
            if p < old_v.len() {
                lemma_ph_rank_injective(old_v[p as int].ph_type, x.ph_type);
                assert(ph_lt(x, old_v[p as int]));
            }
        }
        v.insert(p, x);
        proof {
            assert forall|i: int, j: int| 0 <= i < j < v@.len() implies ph_lt(#[trigger] v@[i], #[trigger] v@[j]) by {
                if j < p {
                    assert(v@[i] == old_v[i] && v@[j] == old_v[j]);
                } else if j == p {
                    assert(v@[i] == old_v[i]);
                } else if i < p {
                    assert(v@[i] == old_v[i] && v@[j] == old_v[j - 1]);
                    if j - 1 > p {
                        assert(ph_lt(old_v[p as int], old_v[j - 1]));
                    }
                } else if i == p {
                    assert(v@[j] == old_v[j - 1]);
                    if j - 1 > p {
                        assert(ph_lt(old_v[p as int], old_v[j - 1]));
                    }
                } else {
                    assert(v@[i] == old_v[i - 1] && v@[j] == old_v[j - 1]);
                }
            }
            assert forall|r: PlaceholderRef| #![trigger has_ref(v@, r)] #![trigger has_ref(old_v, r)] has_ref(v@, r) <==> (r == x || has_ref(old_v, r)) by {
                if has_ref(v@, r) {
                    let i = choose|i: int| 0 <= i < v@.len() && v@[i] == r;
                    if i < p {
                        assert(old_v[i] == r);
                    } else if i > p {
                        assert(old_v[i - 1] == r);
                    }
                }
                if r == x {
                    assert(v@[p as int] == r);
                } else if has_ref(old_v, r) {
                    let i = choose|i: int| 0 <= i < old_v.len() && old_v[i] == r;
                    if i < p {
                        assert(v@[i] == r);
                    } else {
                        assert(v@[i + 1] == r);
                    }
                }
            }
        }
    }

    /// All placeholder links in effect for a slide: the distinct links defined on the
    /// slide, its layout and its master, sorted by kind and then index.
    pub fn effective_placeholders(&self, slide: Entity) -> (refs: Vec<PlaceholderRef>)
        ensures
            refs_sorted(refs@),
            forall|r: PlaceholderRef| #[trigger] has_ref(refs@, r) <==> in_effect(&self.world, slide, r),
    {
        let ghost w = &self.world;
        let mut containers: Vec<Entity> = Vec::new();
        containers.push(slide);
        if let Some(layout) = self.layout_of(slide) {
            containers.push(layout);
        }
        if let Some(master) = self.master_of(slide) {
            containers.push(master);
        }
        let ghost cs = containers@;
        let ghost lo = spec_layout_of(w, slide);
        let ghost mo = spec_master_of(w, slide);
        assert(cs[0] == slide);
        assert(lo is Some ==> cs[1] == lo.unwrap());
        assert(lo is Some && mo is Some ==> cs.len() == 3 && cs[2] == mo.unwrap());
        assert(lo is None && mo is Some ==> cs.len() == 2 && cs[1] == mo.unwrap());
        assert(lo is Some && mo is None ==> cs.len() == 2);
        assert(lo is None && mo is None ==> cs.len() == 1);
        assert forall|r: PlaceholderRef| in_effect(w, slide, r) <==> exists|k: int| 0 <= k < cs.len() && #[trigger] provides(w, cs[k], r) by {
            if in_effect(w, slide, r) {
                if provides(w, slide, r) {
                    assert(provides(w, cs[0], r));
                } else if lo is Some && provides(w, lo.unwrap(), r) {
                    assert(provides(w, cs[1], r));
                } else {
                    if lo is Some {
                        assert(provides(w, cs[2], r));
                    } else {
                        assert(provides(w, cs[1], r));
                    }
                }
            }
            if exists|k: int| 0 <= k < cs.len() && #[trigger] provides(w, cs[k], r) {
                let k = choose|k: int| 0 <= k < cs.len() && #[trigger] provides(w, cs[k], r);
                if k == 0 {
                    assert(provides(w, slide, r));
                } else if k == 1 {
                    if lo is Some {
                        assert(provides(w, lo.unwrap(), r));
                    } else {
                        assert(provides(w, mo.unwrap(), r));
                    }
                } else {
                    assert(provides(w, mo.unwrap(), r));
                }
            }
        }
        let mut refs: Vec<PlaceholderRef> = Vec::new();
        let mut ci: usize = 0;
        while ci < containers.len()
            invariant
                *w == self.world,
                containers@ == cs,
                ci <= cs.len(),
                refs_sorted(refs@),
                forall|r: PlaceholderRef| #[trigger] has_ref(refs@, r) <==> exists|k: int| 0 <= k < ci && #[trigger] provides(w, cs[k], r),
            decreases cs.len() - ci,
        {
            let c = containers[ci];
            let shapes = self.placeholder_shapes(c);
            let mut si: usize = 0;
            while si < shapes.len()
                invariant
                    *w == self.world,
                    containers@ == cs,
                    ci < cs.len(),
                    c == cs[ci as int],
                    is_order_of(w, shapes@, Selector::PlaceholdersOf(c)),
                    si <= shapes@.len(),
                    refs_sorted(refs@),
                    forall|r: PlaceholderRef| #[trigger] has_ref(refs@, r) <==> ((exists|k: int| 0 <= k < ci && #[trigger] provides(w, cs[k], r))
                        || exists|j: int| 0 <= j < si && w.placeholders@[#[trigger] shapes@[j].0] == r),
                decreases shapes@.len() - si,
            {
                let e = shapes[si];
                proof {
                    assert(has_id(shapes@, e.0));
                }
                let ph = match self.world.placeholders.get(&e.0) {
                    Some(p) => *p,
                    None => {
                        proof {
                            assert(false);
                        }
                        si = si + 1;
                        continue;
                    },
                };
                Self::insert_ref(&mut refs, ph);
                proof {
                    assert forall|r: PlaceholderRef| #[trigger] has_ref(refs@, r) <==> ((exists|k: int| 0 <= k < ci && #[trigger] provides(w, cs[k], r))
                        || exists|j: int| 0 <= j < si + 1 && w.placeholders@[#[trigger] shapes@[j].0] == r) by {
                        if r == ph {
                            assert(w.placeholders@[shapes@[si as int].0] == r);
                        }
                        if exists|j: int| 0 <= j < si + 1 && w.placeholders@[#[trigger] shapes@[j].0] == r {
                            let j = choose|j: int| 0 <= j < si + 1 && w.placeholders@[#[trigger] shapes@[j].0] == r;
                            if j < si {
                                assert(exists|j: int| 0 <= j < si && w.placeholders@[#[trigger] shapes@[j].0] == r);
                            }
                        }
                    }
                }
                si = si + 1;
            }
            proof {
                assert forall|r: PlaceholderRef| #[trigger] has_ref(refs@, r) <==> exists|k: int| 0 <= k < ci + 1 && #[trigger] provides(w, cs[k], r) by {
                    if exists|j: int| 0 <= j < si && w.placeholders@[#[trigger] shapes@[j].0] == r {
                        let j = choose|j: int| 0 <= j < si && w.placeholders@[#[trigger] shapes@[j].0] == r;
                        assert(has_id(shapes@, shapes@[j].0));
                        assert(selects(w, Selector::PlaceholdersOf(c), shapes@[j].0));
                        assert(provides(w, cs[ci as int], r));
                    }
                    if provides(w, cs[ci as int], r) {
                        let id = choose|id: u64| #[trigger] selects(w, Selector::PlaceholdersOf(c), id) && w.placeholders@[id] == r;
                        assert(has_id(shapes@, id));
                        let j = choose|j: int| 0 <= j < shapes@.len() && shapes@[j].0 == id;
                        assert(w.placeholders@[shapes@[j].0] == r);
                    }
                    if exists|k: int| 0 <= k < ci + 1 && #[trigger] provides(w, cs[k], r) {
                        let k = choose|k: int| 0 <= k < ci + 1 && #[trigger] provides(w, cs[k], r);
                        if k < ci {
                            assert(exists|k: int| 0 <= k < ci && #[trigger] provides(w, cs[k], r));
                        }
                    }
                }
            }
            ci = ci + 1;
        }
        refs
    }

    /// Add `bytes` to the in-memory media store, returning its content key (the FNV-1a
    /// hash of the bytes as sixteen lowercase hex digits). Idempotent: the bytes are
    /// stored under the hash unless an entry for that hash already exists.
    pub fn add_media(&mut self, bytes: Vec<u8>) -> (key: String)
        ensures
            key@ == hex16(fnv1a(bytes@)),
            final(self).media@ == if old(self).media@.contains_key(fnv1a(bytes@)) {
                old(self).media@
            } else {
                old(self).media@.insert(fnv1a(bytes@), bytes)
            },
            final(self).world == old(self).world,
            final(self).slide_size == old(self).slide_size,
            final(self).default_master == old(self).default_master,
    {
        let h = fnv1a_hash(bytes.as_slice());
        let key = hex16_string(h);
        if !self.media.contains_key(&h) {
            self.media.insert(h, bytes);
        }
        key
    }

    /// Look up media bytes by content key. Only a key of sixteen lowercase hex digits can
    /// name stored media.
    pub fn get_media(&self, key: &str) -> (r: Option<&[u8]>)
        ensures
            match parse_hex16(key@) {
                Some(h) => match r {
                    Some(b) => self.media@.contains_key(h) && b@ == self.media@[h]@,
                    None => !self.media@.contains_key(h),
                },
                None => r is None,
            },
    {
        match parse_media_key(key) {
            Some(h) => match self.media.get(&h) {
                Some(v) => Some(v.as_slice()),
                None => None,
            },
            None => None,
        }
    }
}

/// Adding media and looking its key up gives back the bytes stored under its hash: the
/// added bytes, unless other bytes with the same hash were stored before.
pub proof fn law_media_roundtrip(before: &Presentation, after: &Presentation, bytes: Vec<u8>, key: Seq<char>)
    requires
        key == hex16(fnv1a(bytes@)),
        after.media@ == if before.media@.contains_key(fnv1a(bytes@)) {
            before.media@
        } else {
            before.media@.insert(fnv1a(bytes@), bytes)
        },
    ensures
        parse_hex16(key) == Some(fnv1a(bytes@)),
        after.media@.contains_key(fnv1a(bytes@)),
        !before.media@.contains_key(fnv1a(bytes@)) ==> after.media@[fnv1a(bytes@)]@ == bytes@,
        before.media@.contains_key(fnv1a(bytes@)) ==> after.media@ == before.media@,
{
    lemma_parse_hex16(fnv1a(bytes@));
}

/// The placeholder for `ph` on the layout a slide is based on, if any.
pub open spec fn layout_placeholder(w: &World, slide: Entity, ph: PlaceholderRef) -> Option<Entity> {
    match spec_layout_of(w, slide) {
        Some(l) => spec_find_placeholder(w, l, ph),
        None => None,
    }
}

/// The placeholder for `ph` on the master a slide inherits from, if any.
pub open spec fn master_placeholder(w: &World, slide: Entity, ph: PlaceholderRef) -> Option<Entity> {
    match spec_master_of(w, slide) {
        Some(m) => spec_find_placeholder(w, m, ph),
        None => None,
    }
}

/// The fill set on placeholder `o` itself.
pub open spec fn fill_at(w: &World, o: Option<Entity>) -> Option<Fill> {
    match o {
        Some(e) => if w.fills@.contains_key(e.0) { Some(w.fills@[e.0]) } else { None },
        None => None,
    }
}

/// The frame set on placeholder `o` itself.
pub open spec fn frame_at(w: &World, o: Option<Entity>) -> Option<RectEmu> {
    match o {
        Some(e) => if w.frames@.contains_key(e.0) { Some(w.frames@[e.0]) } else { None },
        None => None,
    }
}

/// The geometry set on placeholder `o` itself.
pub open spec fn geometry_at(w: &World, o: Option<Entity>) -> Option<Geometry> {
    match o {
        Some(e) => if w.geometries@.contains_key(e.0) { Some(w.geometries@[e.0]) } else { None },
        None => None,
    }
}

/// Placeholder `o` itself, when it holds a text body.
pub open spec fn text_owner_at(w: &World, o: Option<Entity>) -> Option<Entity> {
    match o {
        Some(e) => if w.texts@.contains_key(e.0) { Some(e) } else { None },
        None => None,
    }
}

/// Placeholder properties resolve most-derived first. For each of frame, fill, geometry and
/// text: what the slide's own matching placeholder sets wins; failing that, what the
/// layout's matching placeholder sets; failing that, the master's; and where none of the
/// three sets it, there is none. The chain the resolving functions walk is exactly the
/// slide's, the layout's and the master's match, in that order.
pub proof fn law_placeholder_inheritance(w: &World, slide: Entity, ph: PlaceholderRef)
    ensures
        spec_placeholder_chain(w, slide, ph) == seq![
            spec_find_placeholder(w, slide, ph),
            layout_placeholder(w, slide, ph),
            master_placeholder(w, slide, ph),
        ],
        first_fill(w, spec_placeholder_chain(w, slide, ph)) == (
            if fill_at(w, spec_find_placeholder(w, slide, ph)) is Some {
                fill_at(w, spec_find_placeholder(w, slide, ph))
            } else if fill_at(w, layout_placeholder(w, slide, ph)) is Some {
                fill_at(w, layout_placeholder(w, slide, ph))
            } else {
                fill_at(w, master_placeholder(w, slide, ph))
            }
        ),
        first_frame(w, spec_placeholder_chain(w, slide, ph)) == (
            if frame_at(w, spec_find_placeholder(w, slide, ph)) is Some {
                frame_at(w, spec_find_placeholder(w, slide, ph))
            } else if frame_at(w, layout_placeholder(w, slide, ph)) is Some {
                frame_at(w, layout_placeholder(w, slide, ph))
            } else {
                frame_at(w, master_placeholder(w, slide, ph))
            }
        ),
        first_geometry(w, spec_placeholder_chain(w, slide, ph)) == (
            if geometry_at(w, spec_find_placeholder(w, slide, ph)) is Some {
                geometry_at(w, spec_find_placeholder(w, slide, ph))
            } else if geometry_at(w, layout_placeholder(w, slide, ph)) is Some {
                geometry_at(w, layout_placeholder(w, slide, ph))
            } else {
                geometry_at(w, master_placeholder(w, slide, ph))
            }
        ),
        first_text_owner(w, spec_placeholder_chain(w, slide, ph)) == (
            if text_owner_at(w, spec_find_placeholder(w, slide, ph)) is Some {
                text_owner_at(w, spec_find_placeholder(w, slide, ph))
            } else if text_owner_at(w, layout_placeholder(w, slide, ph)) is Some {
                text_owner_at(w, layout_placeholder(w, slide, ph))
            } else {
                text_owner_at(w, master_placeholder(w, slide, ph))
            }
        ),
{
    let c = spec_placeholder_chain(w, slide, ph);
    let own = spec_find_placeholder(w, slide, ph);
    let lay = layout_placeholder(w, slide, ph);
    let mas = master_placeholder(w, slide, ph);
    assert(c == seq![own, lay, mas]);
    let c1 = c.drop_first();
    let c2 = c1.drop_first();
    assert(c1 =~= seq![lay, mas]);
    assert(c2 =~= seq![mas]);
    assert(c2.drop_first().len() == 0);
    assert(first_fill(w, c) == (if fill_at(w, own) is Some { fill_at(w, own) }
        else if fill_at(w, lay) is Some { fill_at(w, lay) } else { fill_at(w, mas) })) by {
        assert(first_fill(w, c2.drop_first()) is None);
        assert(first_fill(w, c2) == fill_at(w, mas));
        assert(first_fill(w, c1) == (if fill_at(w, lay) is Some { fill_at(w, lay) } else { fill_at(w, mas) }));
    }
    assert(first_frame(w, c) == (if frame_at(w, own) is Some { frame_at(w, own) }
        else if frame_at(w, lay) is Some { frame_at(w, lay) } else { frame_at(w, mas) })) by {
        assert(first_frame(w, c2.drop_first()) is None);
        assert(first_frame(w, c2) == frame_at(w, mas));
        assert(first_frame(w, c1) == (if frame_at(w, lay) is Some { frame_at(w, lay) } else { frame_at(w, mas) }));
    }
    assert(first_geometry(w, c) == (if geometry_at(w, own) is Some { geometry_at(w, own) }
        else if geometry_at(w, lay) is Some { geometry_at(w, lay) } else { geometry_at(w, mas) })) by {
        assert(first_geometry(w, c2.drop_first()) is None);
        assert(first_geometry(w, c2) == geometry_at(w, mas));
        assert(first_geometry(w, c1) == (if geometry_at(w, lay) is Some { geometry_at(w, lay) } else { geometry_at(w, mas) }));
    }
    assert(first_text_owner(w, c) == (if text_owner_at(w, own) is Some { text_owner_at(w, own) }
        else if text_owner_at(w, lay) is Some { text_owner_at(w, lay) } else { text_owner_at(w, mas) })) by {
        assert(first_text_owner(w, c2.drop_first()) is None);
        assert(first_text_owner(w, c2) == text_owner_at(w, mas));
        assert(first_text_owner(w, c1) == (if text_owner_at(w, lay) is Some { text_owner_at(w, lay) } else { text_owner_at(w, mas) }));
    }
}

/// Backgrounds resolve most-derived first: a slide's own background wins, then its layout's,
/// then its master's, and with none of them set there is none. Any container resolves the
/// same way from where it stands: a slide as a slide does, a layout from itself up to its
/// master.
pub proof fn law_background_inheritance(w: &World, slide: Entity, layout: Entity)
    ensures
        spec_background_of(w, slide) == (
            if own_background(w, slide) is Some {
                own_background(w, slide)
            } else if spec_layout_of(w, slide) is Some && own_background(w, spec_layout_of(w, slide).unwrap()) is Some {
                own_background(w, spec_layout_of(w, slide).unwrap())
            } else if spec_master_of(w, slide) is Some {
                own_background(w, spec_master_of(w, slide).unwrap())
            } else {
                None
            }
        ),
        w.slide_info@.contains_key(slide.0) ==> spec_container_background(w, slide) == spec_background_of(w, slide),
        !w.slide_info@.contains_key(layout.0) && w.layout_info@.contains_key(layout.0) ==> spec_container_background(w, layout) == (
            if own_background(w, layout) is Some {
                own_background(w, layout)
            } else {
                own_background(w, w.layout_info@[layout.0].master)
            }
        ),
{
}

/// The first position of `e` in `s`, if it occurs.
pub open spec fn first_position(s: Seq<Entity>, e: Entity) -> Option<int> {
    if exists|i: int| 0 <= i < s.len() && s[i] == e {
        Some(choose|i: int| 0 <= i < s.len() && s[i] == e && forall|j: int| 0 <= j < i ==> s[j] != e)
    } else {
        None
    }
}

proof fn lemma_wrap(i: int, delta: int, n: int, ni: int)
    requires
        0 <= i < n,
        delta >= 0 ==> ni == (i + delta % n) % n,
        delta < 0 ==> ni == (i + n - (-delta) % n) % n,
    ensures
        ni == (i + delta) % n,
{
    if delta >= 0 {
        vstd::arithmetic::div_mod::lemma_add_mod_noop(i, delta, n);
        vstd::arithmetic::div_mod::lemma_mod_twice(i, n);
        vstd::arithmetic::div_mod::lemma_small_mod(i as nat, n as nat);
    } else {
        let m = (-delta) % n;
        assert(0 <= m < n) by {
            vstd::arithmetic::div_mod::lemma_mod_bound(-delta, n);
        }
        // i + n - m and i + delta differ by a multiple of n.
        vstd::arithmetic::div_mod::lemma_fundamental_div_mod(-delta, n);
        let q = (-delta) / n;
        assert(i + n - m == (i + delta) + n * (q + 1)) by (nonlinear_arith)
            requires
                -delta == n * q + m,
        ;
        vstd::arithmetic::div_mod::lemma_mod_multiples_vanish(q + 1, i + delta, n);
    }
}

/// The slide `delta` places after `current` in `slides`, wrapping around at either end; none
/// when `current` is not among them.
pub fn step_slide(slides: &Vec<Entity>, current: Entity, delta: i64) -> (r: Option<Entity>)
    ensures
        match first_position(slides@, current) {
            Some(i) => r == Some(slides@[(i + delta) % (slides@.len() as int)]),
            None => r is None,
        },
{
    let mut i: usize = 0;
    while i < slides.len()
        invariant
            i <= slides@.len(),
            forall|j: int| 0 <= j < i ==> slides@[j] != current,
        decreases slides.len() - i,
    {
        if slides[i] == current {
            proof {
                let c = choose|k: int|
                    0 <= k < slides@.len() && slides@[k] == current && forall|j: int|
                        0 <= j < k ==> slides@[j] != current;
                if c < i {
                    assert(slides@[c] != current);
                } else if i < c {
                    assert(slides@[i as int] != current);
                }
            }
            let n = slides.len() as u128;
            let ni: u128 = if delta >= 0 {
                let d = (delta as u128) % n;
                (i as u128 + d) % n
            } else {
                let d = ((-(delta as i128)) as u128) % n;
                (i as u128 + n - d) % n
            };
            proof {
                lemma_wrap(i as int, delta as int, n as int, ni as int);
            }
            return Some(slides[ni as usize]);
        }
        i = i + 1;
    }
    None
}

} // verus!
