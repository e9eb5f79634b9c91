//! Editing the slide list and the masters: reordering slides by drag and drop, and the
//! decisions behind deleting a slide or a layout.

use vstd::prelude::*;
use crate::frac::{FracIndex, between_spec, frac_lt, lex_lt, lemma_lex_lt_asymmetric,
    lemma_lex_lt_irreflexive, lemma_lex_lt_transitive};
use crate::presentation::{Presentation, Selector, first_position, has_id, is_order_of, key_of,
    listing, selects, sorted_in, sorts_before, lemma_key_frame, lemma_sorted_unique,
    lemma_sorts_before_irreflexive, lemma_sorts_before_transitive};
use crate::frac::canonical;
use crate::persist::{last_of_kind, lemma_kind_index, lemma_last_of_kind_upto, lemma_same_columns_comp,
    respawn, view_kind};
use crate::presentation::spec_layout_of;
use crate::world::{CompKind, CompValue, CompView, Entity, World, ids_of, lemma_agree_except_comp};

verus! {

broadcast use vstd::std_specs::btree::group_btree_axioms;

/// The slides other than `dragged`, in order.
pub open spec fn other_slides(w: &World, dragged: Entity) -> Seq<Entity> {
    choose|s: Seq<Entity>| is_others_of(w, s, dragged)
}

/// `s` lists the slides other than `dragged`, in order.
pub open spec fn is_others_of(w: &World, s: Seq<Entity>, dragged: Entity) -> bool {
    &&& sorted_in(w, s)
    &&& forall|id: u64| #[trigger] has_id(s, id) <==> (selects(w, Selector::Slides, id) && id != dragged.0)
}

/// Dropping `dragged` onto `target` moves it: `target` is a slide other than `dragged`.
pub open spec fn drops(w: &World, dragged: Entity, target: Entity) -> bool {
    dragged != target && first_position(other_slides(w, dragged), target) is Some
}

/// The lower bound of the drop: the key of the slide just before `target` once `dragged`
/// is taken out (zero when there is none, or it has no key).
pub open spec fn drop_lower(w: &World, dragged: Entity, target: Entity) -> Seq<u8> {
    let s = other_slides(w, dragged);
    match first_position(s, target) {
        Some(p) => if p > 0 {
            match key_of(w, s[p - 1].0) {
                Some(l) => l,
                None => Seq::empty(),
            }
        } else {
            Seq::empty()
        },
        None => Seq::empty(),
    }
}

/// The key `dragged` receives: generated between the drop's lower bound and `target`'s key.
pub open spec fn drop_key(w: &World, dragged: Entity, target: Entity) -> Seq<u8> {
    between_spec(drop_lower(w, dragged, target), key_of(w, target.0))
}

/// A key can be generated for the drop: the lower bound lies below `target`'s key as a
/// fraction.
pub open spec fn drop_fits(w: &World, dragged: Entity, target: Entity) -> bool {
    key_of(w, target.0) matches Some(h) ==> frac_lt(drop_lower(w, dragged, target), h)
}

/// The position of `x` in `s`, if it occurs there.
fn position_of(s: &Vec<Entity>, x: Entity) -> (r: Option<usize>)
    ensures
        match first_position(s@, x) {
            Some(i) => r == Some(i as usize),
            None => r is None,
        },
{
    let mut i: usize = 0;
    while i < s.len()
        invariant
            i <= s@.len(),
            forall|j: int| 0 <= j < i ==> s@[j] != x,
        decreases s.len() - i,
    {
        if s[i] == x {
            proof {
                let c = choose|k: int| 0 <= k < s@.len() && s@[k] == x && forall|j: int| 0 <= j < k ==> s@[j] != x;
                if c < i {
                    assert(s@[c] != x);
                } else if i < c {
                    assert(s@[i as int] != x);
                }
            }
            return Some(i);
        }
        i = i + 1;
    }
    None
}

/// With `dragged` keyed `k` between the drop's bounds, a listed slide `s` sorts before
/// `dragged` exactly when it sorted before `target` (at position `p` of `seq`).
proof fn lemma_drop_order(w: &World, w2: &World, seq: Seq<Entity>, p: int, dragged: Entity, k: Seq<u8>, s: u64)
    requires
        sorted_in(w, seq),
        0 <= p < seq.len(),
        !has_id(seq, dragged.0),
        has_id(seq, s),
        key_of(w, seq[p].0) matches Some(h) && lex_lt(k, h),
        p > 0 ==> (key_of(w, seq[p - 1].0) matches Some(l) ==> lex_lt(l, k)),
        w2.order@.remove(dragged.0) == w.order@.remove(dragged.0),
        key_of(w2, dragged.0) == Some(k),
    ensures
        sorts_before(w2, s, dragged.0) <==> sorts_before(w, s, seq[p].0),
{
    let t = seq[p].0;
    let h = key_of(w, t).unwrap();
    let q = choose|q: int| 0 <= q < seq.len() && seq[q].0 == s;
    if s == dragged.0 {
        assert(has_id(seq, dragged.0));
    }
    lemma_key_frame(w, w2, dragged.0, s);
    if q == p {
        lemma_sorts_before_irreflexive(w, t);
        lemma_lex_lt_asymmetric(k, h);
        lemma_lex_lt_irreflexive(k);
    } else if q < p {
        assert(sorts_before(w, s, t));
        if let Some(x) = key_of(w, s) {
            let pred = seq[p - 1].0;
            if q < p - 1 {
                assert(sorts_before(w, s, pred));
            }
            let l = key_of(w, pred).unwrap();
            if x != l {
                lemma_lex_lt_transitive(x, l, k);
            }
        }
    } else {
        assert(sorts_before(w, t, s));
        lemma_sorts_before_irreflexive(w, s);
        if sorts_before(w, s, t) {
            lemma_sorts_before_transitive(w, s, t, s);
        }
        let x = key_of(w, s).unwrap();
        if x != h {
            lemma_lex_lt_transitive(k, h, x);
        }
        lemma_lex_lt_asymmetric(k, x);
        lemma_lex_lt_irreflexive(k);
    }
}

impl Presentation {
    /// Drop slide `dragged` onto `target`: give `dragged` an order key between `target` and
    /// the slide before it (with `dragged` taken out of the list), so it sits immediately
    /// before `target`. Nothing happens when `dragged` is `target` or `target` is not a slide.
    /// Returns whether the key was set. Only `dragged`'s order key changes; when `target`
    /// has a key, afterwards `dragged` sorts before `target` and after exactly the slides
    /// that sorted before `target`.
    pub fn reorder_slide(&mut self, dragged: Entity, target: Entity) -> (moved: bool)
        requires
            drops(&old(self).world, dragged, target) ==> drop_fits(&old(self).world, dragged, target),
        ensures
            moved == drops(&old(self).world, dragged, target),
            !moved ==> *final(self) == *old(self),
            moved ==> final(self).world.comp(dragged.0, CompKind::Order) == Some(
                CompView::Order(drop_key(&old(self).world, dragged, target)),
            ),
            moved ==> final(self).world.same_except(&old(self).world, dragged.0, CompKind::Order),
            final(self).slide_size == old(self).slide_size,
            final(self).default_master == old(self).default_master,
            final(self).media@ == old(self).media@,
            moved && key_of(&old(self).world, target.0) is Some ==> sorts_before(
                &final(self).world,
                dragged.0,
                target.0,
            ),
            moved && key_of(&old(self).world, target.0) is Some ==> forall|s: u64|
                #[trigger] selects(&old(self).world, Selector::Slides, s) && s != dragged.0 ==> (sorts_before(
                    &final(self).world,
                    s,
                    dragged.0,
                ) <==> sorts_before(&old(self).world, s, target.0)),
    {
        if dragged == target {
            return false;
        }
        let slides = self.slides();
        let mut seq: Vec<Entity> = Vec::new();
        let mut i: usize = 0;
        while i < slides.len()
            invariant
                i <= slides@.len(),
                is_order_of(&self.world, slides@, Selector::Slides),
                sorted_in(&self.world, seq@),
                forall|id: u64| #[trigger] has_id(seq@, id) <==> ((exists|j: int| 0 <= j < i && slides@[j].0 == id) && id
                    != dragged.0),
                seq@.len() > 0 ==> exists|j: int| 0 <= j < i && slides@[j] == seq@.last(),
            decreases slides.len() - i,
        {
            let x = slides[i];
            if x != dragged {
                proof {
                    if seq@.len() > 0 {
                        let j = choose|j: int| 0 <= j < i && slides@[j] == seq@.last();
                        assert(sorts_before(&self.world, slides@[j].0, slides@[i as int].0));
                    }
                    crate::presentation::lemma_sorted_push(&self.world, seq@, x);
                }
                let ghost before = seq@;
                seq.push(x);
                proof {
                    assert forall|id: u64| #[trigger] has_id(seq@, id) <==> ((exists|j: int| 0 <= j < i + 1
                        && slides@[j].0 == id) && id != dragged.0) by {
                        if has_id(seq@, id) {
                            let k = choose|k: int| 0 <= k < seq@.len() && seq@[k].0 == id;
                            if k < before.len() {
                                assert(has_id(before, id));
                            }
                        }
                        if (exists|j: int| 0 <= j < i + 1 && slides@[j].0 == id) && id != dragged.0 {
                            let j = choose|j: int| 0 <= j < i + 1 && slides@[j].0 == id;
                            if j < i {
                                assert(has_id(before, id));
                                let k = choose|k: int| 0 <= k < before.len() && before[k].0 == id;
                                assert(seq@[k].0 == id);
                            } else {
                                assert(seq@[before.len() as int].0 == id);
                            }
                        }
                    }
                }
            } else {
                proof {
                    assert forall|id: u64| #[trigger] has_id(seq@, id) <==> ((exists|j: int| 0 <= j < i + 1
                        && slides@[j].0 == id) && id != dragged.0) by {
                        if (exists|j: int| 0 <= j < i + 1 && slides@[j].0 == id) && id != dragged.0 {
                            let j = choose|j: int| 0 <= j < i + 1 && slides@[j].0 == id;
                            assert(j != i);
                        }
                    }
                }
            }
            i = i + 1;
        }
        proof {
            assert forall|id: u64| #[trigger] has_id(seq@, id) <==> (selects(&self.world, Selector::Slides, id) && id
                != dragged.0) by {
                if selects(&self.world, Selector::Slides, id) {
                    assert(has_id(slides@, id));
                }
                if exists|j: int| 0 <= j < slides@.len() && slides@[j].0 == id {
                    assert(has_id(slides@, id));
                }
            }
            assert(is_others_of(&self.world, seq@, dragged));
            let o = other_slides(&self.world, dragged);
            assert(is_others_of(&self.world, o, dragged));
            lemma_sorted_unique(&self.world, seq@, o);
        }
        let p = match position_of(&seq, target) {
            Some(p) => p,
            None => {
                return false;
            },
        };
        let ghost w = self.world;
        let key = {
            let lo: Option<&FracIndex> = if p == 0 {
                None
            } else {
                self.world.order.get(&seq[p - 1].0)
            };
            let hi: Option<&FracIndex> = self.world.order.get(&target.0);
            proof {
                assert(crate::frac::lower_digits(lo) == drop_lower(&w, dragged, target));
                assert(crate::frac::upper_digits(hi) == key_of(&w, target.0));
            }
            FracIndex::between(lo, hi)
        };
        let ghost k = key@;
        self.world.set(dragged, CompValue::Order(key));
        proof {
            let w2 = self.world;
            assert(w2.order@.remove(dragged.0) == w.order@.remove(dragged.0));
            assert(key_of(&w2, dragged.0) == Some(k));
            if let Some(h) = key_of(&w, target.0) {
                assert(seq@[p as int] == target);
                assert(!has_id(seq@, dragged.0));
                lemma_key_frame(&w, &w2, dragged.0, target.0);
                assert(lex_lt(k, h));
                assert forall|s: u64| #[trigger] selects(&w, Selector::Slides, s) && s != dragged.0 implies (sorts_before(
                    &w2,
                    s,
                    dragged.0,
                ) <==> sorts_before(&w, s, target.0)) by {
                    assert(has_id(seq@, s));
                    lemma_drop_order(&w, &w2, seq@, p as int, dragged, k, s);
                }
                lemma_lex_lt_irreflexive(k);
            }
        }
        true
    }
}

/// The slide and its children: what deleting the slide removes.
pub open spec fn slide_and_children(w: &World, slide: Entity) -> Set<u64> {
    ids_of(listing(w, Selector::ChildOf(slide)).push(slide))
}

/// Some slide is based on `layout`.
pub open spec fn layout_in_use(w: &World, layout: Entity) -> bool {
    exists|s: u64| #[trigger] selects(w, Selector::Slides, s) && spec_layout_of(w, Entity(s)) == Some(layout)
}

/// The layout and its placeholder shapes: what deleting the layout removes.
pub open spec fn layout_and_placeholders(w: &World, layout: Entity) -> Set<u64> {
    ids_of(seq![layout] + listing(w, Selector::PlaceholdersOf(layout)))
}

impl Presentation {
    /// Delete `slide` with its child shapes, keeping at least one slide: with a single slide
    /// (or none) nothing happens. Returns whether it deleted. The deleted entities lose all
    /// their components, nothing else changes, and the slides afterwards are the slides
    /// before except the deleted ones.
    pub fn delete_slide(&mut self, slide: Entity) -> (deleted: bool)
        requires
            old(self).world.wf(),
        ensures
            deleted == (listing(&old(self).world, Selector::Slides).len() > 1),
            !deleted ==> *final(self) == *old(self),
            final(self).world.wf(),
            final(self).world.next_id() == old(self).world.next_id(),
            deleted ==> final(self).world.live() == old(self).world.live().difference(
                slide_and_children(&old(self).world, slide),
            ),
            deleted ==> final(self).world.cleared_all(
                &old(self).world,
                slide_and_children(&old(self).world, slide).intersect(old(self).world.live()),
            ),
            deleted ==> forall|id: u64| #[trigger] selects(&final(self).world, Selector::Slides, id) <==> (
                selects(&old(self).world, Selector::Slides, id) && !slide_and_children(&old(self).world, slide).contains(id)),
            final(self).slide_size == old(self).slide_size,
            final(self).default_master == old(self).default_master,
            final(self).media@ == old(self).media@,
    {
        let slides = self.slides();
        if slides.len() <= 1 {
            return false;
        }
        let mut doomed = self.children(slide);
        doomed.push(slide);
        let ghost w0 = self.world;
        self.world.despawn_all(&doomed);
        proof {
            let r = slide_and_children(&w0, slide);
            assert forall|id: u64| #[trigger] selects(&self.world, Selector::Slides, id) <==> (selects(&w0, Selector::Slides, id)
                && !r.contains(id)) by {
                if !r.contains(id) {
                    assert(!r.intersect(w0.live()).contains(id));
                }
            }
        }
        true
    }

    /// Delete `layout` with its placeholder shapes, unless a slide is based on it: then
    /// nothing happens. Returns whether it deleted. The deleted entities lose all their
    /// components and nothing else changes.
    pub fn delete_layout(&mut self, layout: Entity) -> (deleted: bool)
        requires
            old(self).world.wf(),
        ensures
            deleted == !layout_in_use(&old(self).world, layout),
            !deleted ==> *final(self) == *old(self),
            final(self).world.wf(),
            final(self).world.next_id() == old(self).world.next_id(),
            deleted ==> final(self).world.live() == old(self).world.live().difference(
                layout_and_placeholders(&old(self).world, layout),
            ),
            deleted ==> final(self).world.cleared_all(
                &old(self).world,
                layout_and_placeholders(&old(self).world, layout).intersect(old(self).world.live()),
            ),
            final(self).slide_size == old(self).slide_size,
            final(self).default_master == old(self).default_master,
            final(self).media@ == old(self).media@,
    {
        let slides = self.slides();
        let mut i: usize = 0;
        while i < slides.len()
            invariant
                i <= slides@.len(),
                is_order_of(&self.world, slides@, Selector::Slides),
                self.world.wf(),
                forall|j: int| 0 <= j < i ==> spec_layout_of(&self.world, #[trigger] slides@[j]) != Some(layout),
            decreases slides.len() - i,
        {
            let s = slides[i];
            if self.layout_of(s) == Some(layout) {
                proof {
                    assert(has_id(slides@, s.0));
                    assert(selects(&self.world, Selector::Slides, s.0));
                    assert(Entity(s.0) == s);
                }
                return false;
            }
            i = i + 1;
        }
        proof {
            assert forall|s: u64| #[trigger] selects(&self.world, Selector::Slides, s) implies spec_layout_of(&self.world, Entity(s))
                != Some(layout) by {
                assert(has_id(slides@, s));
                let j = choose|j: int| 0 <= j < slides@.len() && slides@[j].0 == s;
                assert(slides@[j] == Entity(s));
            }
        }
        let shapes = self.placeholder_shapes(layout);
        let mut doomed: Vec<Entity> = Vec::new();
        doomed.push(layout);
        let mut k: usize = 0;
        while k < shapes.len()
            invariant
                k <= shapes@.len(),
                doomed@ == seq![layout] + shapes@.subrange(0, k as int),
            decreases shapes.len() - k,
        {
            doomed.push(shapes[k]);
            proof {
                assert(doomed@ =~= seq![layout] + shapes@.subrange(0, k + 1));
            }
            k = k + 1;
        }
        proof {
            assert(shapes@.subrange(0, shapes@.len() as int) =~= shapes@);
        }
        self.world.despawn_all(&doomed);
        true
    }
}

/// A child's component as its copy on the duplicate slide `ns` carries it: the parent
/// becomes `ns`, every other component is kept.
pub open spec fn reparented(v: CompView, ns: Entity) -> CompView {
    match v {
        CompView::Parent(_) => CompView::Parent(ns),
        _ => v,
    }
}

/// Components reparented onto `ns`, one for one.
pub open spec fn reparent_all(vs: Seq<CompView>, ns: Entity) -> Seq<CompView> {
    vs.map_values(|v: CompView| reparented(v, ns))
}

/// The id of the copy of the `i`-th child when the duplicate slide is `ns`.
pub open spec fn copy_id(ns: Entity, i: int) -> u64 {
    (ns.0 + 1 + i) as u64
}

/// The component of kind `k` on `copy`, the copy of child `c`: `c`'s own, reparented, when
/// `c` has one; otherwise whatever `copy` held already.
pub open spec fn copied_comp(w: &World, c: u64, copy: u64, ns: Entity, k: CompKind) -> Option<CompView> {
    match w.comp(c, k) {
        Some(v) => Some(reparented(v, ns)),
        None => w.comp(copy, k),
    }
}

/// `w` is `w0` after duplicating `slide` as `ns`: `ns` is a new slide on the same layout
/// whose order key sorts after every slide of `w0`; the `i`-th child of `slide` has a copy
/// `copy_id(ns, i)`, all of them new; no other component changed.
pub open spec fn is_duplicate(w0: &World, w: &World, slide: Entity, ns: Entity) -> bool {
    let cs = listing(w0, Selector::ChildOf(slide));
    let n = cs.len();
    &&& ns.0 == w0.next_id()
    &&& w.next_id() == ns.0 + 1 + n
    &&& w.live() == w0.live().insert(ns.0).union(Set::new(|x: u64| ns.0 < x <= ns.0 + n))
    &&& w.slide_info@.contains_key(ns.0)
    &&& spec_layout_of(w, ns) == spec_layout_of(w0, slide)
    &&& w.order@.contains_key(ns.0)
    &&& canonical(w.order@[ns.0]@)
    &&& forall|s: u64| #[trigger] selects(w0, Selector::Slides, s) ==> sorts_before(w, s, ns.0)
    &&& forall|k: CompKind| k != CompKind::Slide && k != CompKind::Order ==> #[trigger] w.comp(ns.0, k) == w0.comp(ns.0, k)
    &&& forall|i: int, k: CompKind| 0 <= i < n ==> #[trigger] w.comp(copy_id(ns, i), k) == copied_comp(
        w0,
        cs[i].0,
        copy_id(ns, i),
        ns,
        k,
    )
    &&& forall|x: u64, k: CompKind| !(ns.0 <= x <= ns.0 + n) ==> #[trigger] w.comp(x, k) == w0.comp(x, k)
}

proof fn lemma_last_of_kind_reparented(vs: Seq<CompView>, ns: Entity, k: CompKind)
    ensures
        last_of_kind(reparent_all(vs, ns), k) == match last_of_kind(vs, k) {
            Some(v) => Some(reparented(v, ns)),
            None => None,
        },
    decreases vs.len(),
{
    if vs.len() > 0 {
        let ms = reparent_all(vs, ns);
        assert(ms.drop_last() =~= reparent_all(vs.drop_last(), ns));
        assert(ms.last() == reparented(vs.last(), ns));
        assert(view_kind(reparented(vs.last(), ns)) == view_kind(vs.last()));
        lemma_last_of_kind_reparented(vs.drop_last(), ns, k);
    }
}

/// The components with the parent replaced by `ns`.
fn reparent_values(comps: Vec<CompValue>, ns: Entity) -> (out: Vec<CompValue>)
    ensures
        out@.map_values(|c: CompValue| c@) == reparent_all(comps@.map_values(|c: CompValue| c@), ns),
{
    let ghost vs = comps@.map_values(|c: CompValue| c@);
    let ghost orig = comps@;
    let mut out: Vec<CompValue> = Vec::new();
    proof {
        assert(out@.map_values(|c: CompValue| c@) =~= reparent_all(vs.take(0), ns));
    }
    for c in iter: comps
        invariant
            iter.seq() == orig,
            vs == orig.map_values(|c: CompValue| c@),
            out@.map_values(|c: CompValue| c@) == reparent_all(vs.take(iter.index()), ns),
    {
        let ghost j = iter.index();
        let v = match c {
            CompValue::Parent(_) => CompValue::Parent(ns),
            other => other,
        };
        let ghost before = out@;
        out.push(v);
        proof {
            assert(orig[j as int] == c);
            assert(v@ == reparented(c@, ns));
            assert(vs.take(j + 1) =~= vs.take(j as int).push(c@));
            assert(out@.map_values(|c: CompValue| c@) =~= before.map_values(|c: CompValue| c@).push(v@));
            assert(out@.map_values(|c: CompValue| c@) =~= reparent_all(vs.take(j + 1), ns));
        }
    }
    proof {
        assert(vs.take(orig.len() as int) =~= vs);
    }
    out
}

/// `w` holds nothing for ids at or past its counter and refers to none of them as a parent:
/// fresh ids are bare.
pub open spec fn fresh_ids_bare(w: &World) -> bool {
    &&& forall|x: u64, k: CompKind| x >= w.next_id() ==> #[trigger] w.comp(x, k) is None
    &&& forall|x: u64| #[trigger] w.live().contains(x) && w.parent@.contains_key(x) ==> w.parent@[x].0 < w.next_id()
}

/// The copies' ids, in the order of their originals.
pub open spec fn copies(ns: Entity, n: nat) -> Seq<Entity> {
    Seq::new(n, |i: int| Entity(copy_id(ns, i)))
}

/// Duplicating a slide gives a slide whose shapes are copies of the original's shapes, in
/// the same order, provided the world's fresh ids were bare.
pub proof fn law_duplicate_children(w0: &World, w: &World, slide: Entity, ns: Entity, cs: Seq<Entity>)
    requires
        is_duplicate(w0, w, slide, ns),
        is_order_of(w0, cs, Selector::ChildOf(slide)),
        fresh_ids_bare(w0),
    ensures
        is_order_of(w, copies(ns, cs.len()), Selector::ChildOf(ns)),
{
    let l = listing(w0, Selector::ChildOf(slide));
    lemma_sorted_unique(w0, cs, l);
    assert(cs == l);
    let n = cs.len();
    let t = copies(ns, n);
    // Each copy's order key is its original's.
    assert forall|i: int| 0 <= i < n implies #[trigger] key_of(w, t[i].0) == key_of(w0, cs[i].0) by {
        assert(t[i].0 == copy_id(ns, i));
        assert(w.comp(copy_id(ns, i), CompKind::Order) == copied_comp(w0, cs[i].0, copy_id(ns, i), ns, CompKind::Order));
        assert(w0.comp(copy_id(ns, i), CompKind::Order) is None);
    }
    assert forall|i: int, j: int| 0 <= i < j < t.len() implies sorts_before(w, #[trigger] t[i].0, #[trigger] t[j].0) by {
        assert(sorts_before(w0, cs[i].0, cs[j].0));
        assert(key_of(w, t[i].0) == key_of(w0, cs[i].0));
        assert(key_of(w, t[j].0) == key_of(w0, cs[j].0));
    }
    assert forall|id: u64| #[trigger] has_id(t, id) <==> selects(w, Selector::ChildOf(ns), id) by {
        if has_id(t, id) {
            let i = choose|i: int| 0 <= i < t.len() && t[i].0 == id;
            assert(id == copy_id(ns, i));
            assert(has_id(cs, cs[i].0));
            assert(selects(w0, Selector::ChildOf(slide), cs[i].0));
            assert(w.comp(copy_id(ns, i), CompKind::Parent) == copied_comp(w0, cs[i].0, copy_id(ns, i), ns, CompKind::Parent));
            assert(w.live().contains(id));
        }
        if selects(w, Selector::ChildOf(ns), id) {
            assert(w.comp(id, CompKind::Parent) == Some(CompView::Parent(ns)));
            if id == ns.0 {
                assert(w.comp(ns.0, CompKind::Parent) == w0.comp(ns.0, CompKind::Parent));
            } else if ns.0 < id && id <= ns.0 + n {
                let i = id - ns.0 - 1;
                assert(t[i].0 == id);
            } else {
                assert(w.comp(id, CompKind::Parent) == w0.comp(id, CompKind::Parent));
                assert(w0.live().contains(id));
            }
        }
    }
}

impl Presentation {
    /// Duplicate `slide`: add a slide on the same layout after every slide, then copy each
    /// of `slide`'s child shapes, in order, onto fresh ids following the new slide's, each
    /// copy carrying its original's components with the new slide as parent. Returns the
    /// new slide; `None`, with nothing changed, when `slide` is not a slide.
    pub fn duplicate_slide(&mut self, slide: Entity) -> (r: Option<Entity>)
        requires
            old(self).world.wf(),
            old(self).world.next_id() + listing(&old(self).world, Selector::ChildOf(slide)).len() + 1
                < u64::MAX,
        ensures
            r is None <==> !old(self).world.slide_info@.contains_key(slide.0),
            r is None ==> *final(self) == *old(self),
            r matches Some(ns) ==> is_duplicate(&old(self).world, &final(self).world, slide, ns),
            final(self).world.wf(),
            final(self).slide_size == old(self).slide_size,
            final(self).default_master == old(self).default_master,
            final(self).media@ == old(self).media@,
    {
        let layout = match self.world.slide_info.get(&slide.0) {
            Some(si) => si.layout,
            None => {
                return None;
            },
        };
        let children = self.children(slide);
        let ghost w0 = self.world;
        let ns = self.add_slide(layout);
        let ghost w1 = self.world;
        proof {
            lemma_agree_except_comp(&w1, &w0, ns.0, set![CompKind::Slide, CompKind::Order]);
            assert(Set::new(|x: u64| ns.0 < x <= ns.0 + 0) =~= Set::<u64>::empty());
            assert(w1.live() =~= w0.live().insert(ns.0).union(Set::new(|x: u64| ns.0 < x <= ns.0 + 0)));
        }
        let mut i: usize = 0;
        while i < children.len()
            invariant
                i <= children@.len(),
                children@ == listing(&w0, Selector::ChildOf(slide)),
                is_order_of(&w0, children@, Selector::ChildOf(slide)),
                w0.wf(),
                ns.0 == w0.next_id(),
                w0.next_id() + children@.len() + 1 < u64::MAX,
                self.world.wf(),
                self.world.next_id() == ns.0 + 1 + i,
                self.world.live() == w0.live().insert(ns.0).union(Set::new(|x: u64| ns.0 < x <= ns.0 + i)),
                forall|k: CompKind| #[trigger] self.world.comp(ns.0, k) == w1.comp(ns.0, k),
                forall|j: int, k: CompKind| 0 <= j < i ==> #[trigger] self.world.comp(copy_id(ns, j), k)
                    == copied_comp(&w0, children@[j].0, copy_id(ns, j), ns, k),
                forall|x: u64, k: CompKind| !(ns.0 <= x <= ns.0 + i) ==> #[trigger] self.world.comp(x, k)
                    == w0.comp(x, k),
                self.slide_size == old(self).slide_size,
                self.default_master == old(self).default_master,
                self.media@ == old(self).media@,
            decreases children.len() - i,
        {
            let c = children[i];
            proof {
                assert(has_id(children@, c.0)) by {
                    assert(children@[i as int].0 == c.0);
                }
                assert(w0.live().contains(c.0));
                assert(c.0 < ns.0);
            }
            let comps = self.world.components_of(c);
            let ghost wc = self.world;
            let mapped = reparent_values(comps, ns);
            let ne = self.world.reserve_id();
            let ghost wb = self.world;
            proof {
                lemma_same_columns_comp(&wb, &wc);
            }
            respawn(&mut self.world, ne, mapped);
            proof {
                let w = self.world;
                let vs = wc.comps_upto(c.0, 21);
                assert(ne.0 == copy_id(ns, i as int));
                assert forall|k: CompKind| #[trigger] w.comp(ne.0, k) == copied_comp(&w0, c.0, ne.0, ns, k) by {
                    lemma_kind_index(k);
                    lemma_last_of_kind_upto(&wc, c.0, 21, k);
                    lemma_last_of_kind_reparented(vs, ns, k);
                    assert(wc.comp(c.0, k) == w0.comp(c.0, k));
                    assert(wc.comp(ne.0, k) == w0.comp(ne.0, k));
                }
                assert forall|j: int, k: CompKind| 0 <= j < i + 1 implies #[trigger] w.comp(copy_id(ns, j), k)
                    == copied_comp(&w0, children@[j].0, copy_id(ns, j), ns, k) by {
                    if j < i {
                        assert(copy_id(ns, j) != ne.0);
                        assert(wb.comp(copy_id(ns, j), k) == wc.comp(copy_id(ns, j), k));
                    } else {
                        assert(copy_id(ns, j) == ne.0);
                    }
                }
                assert forall|x: u64, k: CompKind| !(ns.0 <= x <= ns.0 + i + 1) implies #[trigger] w.comp(x, k)
                    == w0.comp(x, k) by {
                    assert(x != ne.0);
                    assert(wb.comp(x, k) == wc.comp(x, k));
                }
                assert(w.comp(ns.0, CompKind::Frame) == w1.comp(ns.0, CompKind::Frame));
                assert forall|k: CompKind| #[trigger] w.comp(ns.0, k) == w1.comp(ns.0, k) by {
                    assert(ns.0 != ne.0);
                    assert(wb.comp(ns.0, k) == wc.comp(ns.0, k));
                }
                assert(w.live() =~= w0.live().insert(ns.0).union(Set::new(|x: u64| ns.0 < x <= ns.0 + i + 1)));
            }
            i = i + 1;
        }
        proof {
            let w = self.world;
            assert(w.comp(ns.0, CompKind::Slide) == w1.comp(ns.0, CompKind::Slide));
            assert(w.comp(ns.0, CompKind::Order) == w1.comp(ns.0, CompKind::Order));
            assert(w0.slide_info@.contains_key(slide.0));
            assert forall|s: u64| #[trigger] selects(&w0, Selector::Slides, s) implies sorts_before(&w, s, ns.0) by {
                assert(sorts_before(&w1, s, ns.0));
                assert(s < ns.0);
                assert(w.comp(s, CompKind::Order) == w0.comp(s, CompKind::Order));
                assert(w1.comp(s, CompKind::Order) == w0.comp(s, CompKind::Order));
            }
        }
        Some(ns)
    }
}

} // verus!
