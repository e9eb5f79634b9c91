//! What a saved document holds and how a loaded one is rebuilt: the slide size, the default
//! master, and one row per live entity with its components in column order. The storage
//! engine and the encoding of each row are the caller's; this module decides what goes into
//! the rows and what a document read back from rows is.

use crate::geom::SizeEmu;
use crate::presentation::{Presentation, SLIDE_HEIGHT_16_9, SLIDE_WIDTH_16_9};
use crate::world::{CompKind, CompValue, CompView, Entity, World};
use vstd::prelude::*;

verus! {

/// The kind of a component's content.
pub open spec fn view_kind(v: CompView) -> CompKind {
    match v {
        CompView::Frame(_) => CompKind::Frame,
        CompView::Rotation(_) => CompKind::Rotation,
        CompView::Order(_) => CompKind::Order,
        CompView::Parent(_) => CompKind::Parent,
        CompView::Name(_) => CompKind::Name,
        CompView::Group(_) => CompKind::Group,
        CompView::Fill(_) => CompKind::Fill,
        CompView::Stroke(_) => CompKind::Stroke,
        CompView::Opacity(_) => CompKind::Opacity,
        CompView::Geometry(_) => CompKind::Geometry,
        CompView::Text(_) => CompKind::Text,
        CompView::Slide(_) => CompKind::Slide,
        CompView::Layout(_) => CompKind::Layout,
        CompView::Master(_) => CompKind::Master,
        CompView::Background(_) => CompKind::Background,
        CompView::Notes(_) => CompKind::Notes,
        CompView::Placeholder(_) => CompKind::Placeholder,
        CompView::Picture(_) => CompKind::Picture,
        CompView::Timeline(_) => CompKind::Timeline,
        CompView::Transition(_) => CompKind::Transition,
        CompView::MorphKey(_) => CompKind::MorphKey,
    }
}

/// Position of `k` in column order.
pub open spec fn kind_index(k: CompKind) -> int {
    match k {
        CompKind::Frame => 0,
        CompKind::Rotation => 1,
        CompKind::Order => 2,
        CompKind::Parent => 3,
        CompKind::Name => 4,
        CompKind::Group => 5,
        CompKind::Fill => 6,
        CompKind::Stroke => 7,
        CompKind::Opacity => 8,
        CompKind::Geometry => 9,
        CompKind::Text => 10,
        CompKind::Slide => 11,
        CompKind::Layout => 12,
        CompKind::Master => 13,
        CompKind::Background => 14,
        CompKind::Notes => 15,
        CompKind::Placeholder => 16,
        CompKind::Picture => 17,
        CompKind::Timeline => 18,
        CompKind::Transition => 19,
        CompKind::MorphKey => 20,
    }
}

/// The last component of kind `k` in `vs`, if any.
pub open spec fn last_of_kind(vs: Seq<CompView>, k: CompKind) -> Option<CompView>
    decreases vs.len(),
{
    if vs.len() == 0 {
        None
    } else if view_kind(vs.last()) == k {
        Some(vs.last())
    } else {
        last_of_kind(vs.drop_last(), k)
    }
}

/// A stored row as plain values: the entity id and its components' contents.
pub open spec fn row_view(r: (Entity, Vec<CompValue>)) -> (u64, Seq<CompView>) {
    (r.0.0, r.1@.map_values(|c: CompValue| c@))
}

pub open spec fn rows_view(rows: Seq<(Entity, Vec<CompValue>)>) -> Seq<(u64, Seq<CompView>)> {
    rows.map_values(|r: (Entity, Vec<CompValue>)| row_view(r))
}

/// The component of kind `k` on `e` after loading `rows` in order: set by the last row of
/// `e` that carries one.
pub open spec fn restored_comp(rows: Seq<(u64, Seq<CompView>)>, e: u64, k: CompKind) -> Option<
    CompView,
>
    decreases rows.len(),
{
    if rows.len() == 0 {
        None
    } else if rows.last().0 == e && last_of_kind(rows.last().1, k) is Some {
        last_of_kind(rows.last().1, k)
    } else {
        restored_comp(rows.drop_last(), e, k)
    }
}

/// The ids that `rows` name.
pub open spec fn row_ids(rows: Seq<(u64, Seq<CompView>)>) -> Set<u64> {
    Set::new(|id: u64| exists|i: int| 0 <= i < rows.len() && #[trigger] rows[i].0 == id)
}

/// The id counter after loading `rows`: one past the largest id.
pub open spec fn counter_after(rows: Seq<(u64, Seq<CompView>)>) -> int
    decreases rows.len(),
{
    if rows.len() == 0 {
        0
    } else {
        let prev = counter_after(rows.drop_last());
        if rows.last().0 + 1 > prev {
            rows.last().0 + 1
        } else {
            prev
        }
    }
}

/// `rows` are what saving `w` writes: one row per live entity, by increasing id, each with
/// the entity's components in column order.
pub open spec fn is_snapshot_of(w: &World, rows: Seq<(u64, Seq<CompView>)>) -> bool {
    &&& forall|i: int, j: int| 0 <= i < j < rows.len() ==> #[trigger] rows[i].0 < #[trigger] rows[j].0
    &&& row_ids(rows) == w.live()
    &&& forall|i: int| 0 <= i < rows.len() ==> #[trigger] rows[i].1 == w.comps_upto(rows[i].0, 21)
}

/// A document as saved, or as read back before it is rebuilt. A missing size or default
/// master leaves the new document's own.
pub struct Snapshot {
    pub slide_size: Option<SizeEmu>,
    pub default_master: Option<Option<Entity>>,
    pub rows: Vec<(Entity, Vec<CompValue>)>,
}

proof fn lemma_comp_kind(w: &World, e: u64, k: CompKind)
    ensures
        w.comp(e, k) is Some ==> view_kind(w.comp(e, k).unwrap()) == k,
{
}

pub(crate) proof fn lemma_kind_index(k: CompKind)
    ensures
        0 <= kind_index(k) < 21,
        World::all_kinds()[kind_index(k)] == k,
{
}

proof fn lemma_all_kinds_index(i: int)
    requires
        0 <= i < 21,
    ensures
        kind_index(World::all_kinds()[i]) == i,
{
}

/// The components listed for `e` among the first `n` kinds hold, for each kind, its value
/// when the kind is among them.
pub(crate) proof fn lemma_last_of_kind_upto(w: &World, e: u64, n: nat, k: CompKind)
    requires
        n <= 21,
    ensures
        last_of_kind(w.comps_upto(e, n), k) == if kind_index(k) < n {
            w.comp(e, k)
        } else {
            None
        },
    decreases n,
{
    lemma_kind_index(k);
    if n > 0 {
        let kn = World::all_kinds()[n - 1];
        lemma_all_kinds_index(n - 1);
        lemma_last_of_kind_upto(w, e, (n - 1) as nat, k);
        lemma_comp_kind(w, e, kn);
        let prev = w.comps_upto(e, (n - 1) as nat);
        match w.comp(e, kn) {
            Some(v) => {
                assert(w.comps_upto(e, n) == prev.push(v));
                assert(prev.push(v).drop_last() =~= prev);
            },
            None => {
                assert(w.comps_upto(e, n) == prev);
            },
        }
    }
}

/// Two worlds that agree everywhere but in column `kind` at `e` hold the same components
/// elsewhere.
proof fn lemma_same_except_comp(w1: &World, w2: &World, e: u64, kind: CompKind)
    requires
        w1.columns_except(w2, e, kind),
    ensures
        forall|e2: u64, k2: CompKind|
            (e2 != e || k2 != kind) ==> #[trigger] w1.comp(e2, k2) == w2.comp(e2, k2),
{
    assert forall|e2: u64, k2: CompKind| (e2 != e || k2 != kind) implies #[trigger] w1.comp(e2, k2)
        == w2.comp(e2, k2) by {
        if k2 == kind {
            assert(e2 != e);
            match k2 {
                CompKind::Frame => {
                    assert(w1.frames@.remove(e).contains_key(e2) == w1.frames@.contains_key(e2));
                    assert(w2.frames@.remove(e).contains_key(e2) == w2.frames@.contains_key(e2));
                    if w1.frames@.contains_key(e2) {
                        assert(w1.frames@[e2] == w1.frames@.remove(e)[e2]);
                        assert(w2.frames@[e2] == w2.frames@.remove(e)[e2]);
                    }
                },
                CompKind::Rotation => {
                    assert(w1.rotations@.remove(e).contains_key(e2) == w1.rotations@.contains_key(e2));
                    assert(w2.rotations@.remove(e).contains_key(e2) == w2.rotations@.contains_key(e2));
                    if w1.rotations@.contains_key(e2) {
                        assert(w1.rotations@[e2] == w1.rotations@.remove(e)[e2]);
                        assert(w2.rotations@[e2] == w2.rotations@.remove(e)[e2]);
                    }
                },
                CompKind::Order => {
                    assert(w1.order@.remove(e).contains_key(e2) == w1.order@.contains_key(e2));
                    assert(w2.order@.remove(e).contains_key(e2) == w2.order@.contains_key(e2));
                    if w1.order@.contains_key(e2) {
                        assert(w1.order@[e2] == w1.order@.remove(e)[e2]);
                        assert(w2.order@[e2] == w2.order@.remove(e)[e2]);
                    }
                },
                CompKind::Parent => {
                    assert(w1.parent@.remove(e).contains_key(e2) == w1.parent@.contains_key(e2));
                    assert(w2.parent@.remove(e).contains_key(e2) == w2.parent@.contains_key(e2));
                    if w1.parent@.contains_key(e2) {
                        assert(w1.parent@[e2] == w1.parent@.remove(e)[e2]);
                        assert(w2.parent@[e2] == w2.parent@.remove(e)[e2]);
                    }
                },
                CompKind::Name => {
                    assert(w1.names@.remove(e).contains_key(e2) == w1.names@.contains_key(e2));
                    assert(w2.names@.remove(e).contains_key(e2) == w2.names@.contains_key(e2));
                    if w1.names@.contains_key(e2) {
                        assert(w1.names@[e2] == w1.names@.remove(e)[e2]);
                        assert(w2.names@[e2] == w2.names@.remove(e)[e2]);
                    }
                },
                CompKind::Group => {
                    assert(w1.groups@.remove(e).contains_key(e2) == w1.groups@.contains_key(e2));
                    assert(w2.groups@.remove(e).contains_key(e2) == w2.groups@.contains_key(e2));
                    if w1.groups@.contains_key(e2) {
                        assert(w1.groups@[e2] == w1.groups@.remove(e)[e2]);
                        assert(w2.groups@[e2] == w2.groups@.remove(e)[e2]);
                    }
                },
                CompKind::Fill => {
                    assert(w1.fills@.remove(e).contains_key(e2) == w1.fills@.contains_key(e2));
                    assert(w2.fills@.remove(e).contains_key(e2) == w2.fills@.contains_key(e2));
                    if w1.fills@.contains_key(e2) {
                        assert(w1.fills@[e2] == w1.fills@.remove(e)[e2]);
                        assert(w2.fills@[e2] == w2.fills@.remove(e)[e2]);
                    }
                },
                CompKind::Stroke => {
                    assert(w1.strokes@.remove(e).contains_key(e2) == w1.strokes@.contains_key(e2));
                    assert(w2.strokes@.remove(e).contains_key(e2) == w2.strokes@.contains_key(e2));
                    if w1.strokes@.contains_key(e2) {
                        assert(w1.strokes@[e2] == w1.strokes@.remove(e)[e2]);
                        assert(w2.strokes@[e2] == w2.strokes@.remove(e)[e2]);
                    }
                },
                CompKind::Opacity => {
                    assert(w1.opacity@.remove(e).contains_key(e2) == w1.opacity@.contains_key(e2));
                    assert(w2.opacity@.remove(e).contains_key(e2) == w2.opacity@.contains_key(e2));
                    if w1.opacity@.contains_key(e2) {
                        assert(w1.opacity@[e2] == w1.opacity@.remove(e)[e2]);
                        assert(w2.opacity@[e2] == w2.opacity@.remove(e)[e2]);
                    }
                },
                CompKind::Geometry => {
                    assert(w1.geometries@.remove(e).contains_key(e2) == w1.geometries@.contains_key(e2));
                    assert(w2.geometries@.remove(e).contains_key(e2) == w2.geometries@.contains_key(e2));
                    if w1.geometries@.contains_key(e2) {
                        assert(w1.geometries@[e2] == w1.geometries@.remove(e)[e2]);
                        assert(w2.geometries@[e2] == w2.geometries@.remove(e)[e2]);
                    }
                },
                CompKind::Text => {
                    assert(w1.texts@.remove(e).contains_key(e2) == w1.texts@.contains_key(e2));
                    assert(w2.texts@.remove(e).contains_key(e2) == w2.texts@.contains_key(e2));
                    if w1.texts@.contains_key(e2) {
                        assert(w1.texts@[e2] == w1.texts@.remove(e)[e2]);
                        assert(w2.texts@[e2] == w2.texts@.remove(e)[e2]);
                    }
                },
                CompKind::Slide => {
                    assert(w1.slide_info@.remove(e).contains_key(e2) == w1.slide_info@.contains_key(e2));
                    assert(w2.slide_info@.remove(e).contains_key(e2) == w2.slide_info@.contains_key(e2));
                    if w1.slide_info@.contains_key(e2) {
                        assert(w1.slide_info@[e2] == w1.slide_info@.remove(e)[e2]);
                        assert(w2.slide_info@[e2] == w2.slide_info@.remove(e)[e2]);
                    }
                },
                CompKind::Layout => {
                    assert(w1.layout_info@.remove(e).contains_key(e2) == w1.layout_info@.contains_key(e2));
                    assert(w2.layout_info@.remove(e).contains_key(e2) == w2.layout_info@.contains_key(e2));
                    if w1.layout_info@.contains_key(e2) {
                        assert(w1.layout_info@[e2] == w1.layout_info@.remove(e)[e2]);
                        assert(w2.layout_info@[e2] == w2.layout_info@.remove(e)[e2]);
                    }
                },
                CompKind::Master => {
                    assert(w1.master_info@.remove(e).contains_key(e2) == w1.master_info@.contains_key(e2));
                    assert(w2.master_info@.remove(e).contains_key(e2) == w2.master_info@.contains_key(e2));
                    if w1.master_info@.contains_key(e2) {
                        assert(w1.master_info@[e2] == w1.master_info@.remove(e)[e2]);
                        assert(w2.master_info@[e2] == w2.master_info@.remove(e)[e2]);
                    }
                },
                CompKind::Background => {
                    assert(w1.backgrounds@.remove(e).contains_key(e2) == w1.backgrounds@.contains_key(e2));
                    assert(w2.backgrounds@.remove(e).contains_key(e2) == w2.backgrounds@.contains_key(e2));
                    if w1.backgrounds@.contains_key(e2) {
                        assert(w1.backgrounds@[e2] == w1.backgrounds@.remove(e)[e2]);
                        assert(w2.backgrounds@[e2] == w2.backgrounds@.remove(e)[e2]);
                    }
                },
                CompKind::Notes => {
                    assert(w1.speaker_notes@.remove(e).contains_key(e2) == w1.speaker_notes@.contains_key(e2));
                    assert(w2.speaker_notes@.remove(e).contains_key(e2) == w2.speaker_notes@.contains_key(e2));
                    if w1.speaker_notes@.contains_key(e2) {
                        assert(w1.speaker_notes@[e2] == w1.speaker_notes@.remove(e)[e2]);
                        assert(w2.speaker_notes@[e2] == w2.speaker_notes@.remove(e)[e2]);
                    }
                },
                CompKind::Placeholder => {
                    assert(w1.placeholders@.remove(e).contains_key(e2) == w1.placeholders@.contains_key(e2));
                    assert(w2.placeholders@.remove(e).contains_key(e2) == w2.placeholders@.contains_key(e2));
                    if w1.placeholders@.contains_key(e2) {
                        assert(w1.placeholders@[e2] == w1.placeholders@.remove(e)[e2]);
                        assert(w2.placeholders@[e2] == w2.placeholders@.remove(e)[e2]);
                    }
                },
                CompKind::Picture => {
                    assert(w1.pictures@.remove(e).contains_key(e2) == w1.pictures@.contains_key(e2));
                    assert(w2.pictures@.remove(e).contains_key(e2) == w2.pictures@.contains_key(e2));
                    if w1.pictures@.contains_key(e2) {
                        assert(w1.pictures@[e2] == w1.pictures@.remove(e)[e2]);
                        assert(w2.pictures@[e2] == w2.pictures@.remove(e)[e2]);
                    }
                },
                CompKind::Timeline => {
                    assert(w1.timelines@.remove(e).contains_key(e2) == w1.timelines@.contains_key(e2));
                    assert(w2.timelines@.remove(e).contains_key(e2) == w2.timelines@.contains_key(e2));
                    if w1.timelines@.contains_key(e2) {
                        assert(w1.timelines@[e2] == w1.timelines@.remove(e)[e2]);
                        assert(w2.timelines@[e2] == w2.timelines@.remove(e)[e2]);
                    }
                },
                CompKind::Transition => {
                    assert(w1.transitions@.remove(e).contains_key(e2) == w1.transitions@.contains_key(e2));
                    assert(w2.transitions@.remove(e).contains_key(e2) == w2.transitions@.contains_key(e2));
                    if w1.transitions@.contains_key(e2) {
                        assert(w1.transitions@[e2] == w1.transitions@.remove(e)[e2]);
                        assert(w2.transitions@[e2] == w2.transitions@.remove(e)[e2]);
                    }
                },
                CompKind::MorphKey => {
                    assert(w1.morph_keys@.remove(e).contains_key(e2) == w1.morph_keys@.contains_key(e2));
                    assert(w2.morph_keys@.remove(e).contains_key(e2) == w2.morph_keys@.contains_key(e2));
                    if w1.morph_keys@.contains_key(e2) {
                        assert(w1.morph_keys@[e2] == w1.morph_keys@.remove(e)[e2]);
                        assert(w2.morph_keys@[e2] == w2.morph_keys@.remove(e)[e2]);
                    }
                },
            }
        }
    }
}

pub(crate) proof fn lemma_same_columns_comp(w1: &World, w2: &World)
    requires
        w1.same_columns(w2),
    ensures
        forall|e2: u64, k2: CompKind| #[trigger] w1.comp(e2, k2) == w2.comp(e2, k2),
{
}

/// What saving `pres` writes: its slide size, its default master, and one row per live
/// entity, by increasing id, holding the entity's components in column order.
pub fn snapshot(pres: &Presentation) -> (s: Snapshot)
    ensures
        s.slide_size == Some(pres.slide_size),
        s.default_master == Some(pres.default_master),
        is_snapshot_of(&pres.world, rows_view(s.rows@)),
{
    let ids = pres.world.iter();
    let mut rows: Vec<(Entity, Vec<CompValue>)> = Vec::new();
    let mut i: usize = 0;
    while i < ids.len()
        invariant
            i <= ids.len(),
            rows@.len() == i,
            forall|a: int, b: int| 0 <= a < b < ids@.len() ==> ids@[a].0 < ids@[b].0,
            forall|j: int| 0 <= j < i ==> #[trigger] row_view(rows@[j]).0 == ids@[j].0,
            forall|j: int|
                0 <= j < i ==> #[trigger] row_view(rows@[j]).1 == pres.world.comps_upto(
                    ids@[j].0,
                    21,
                ),
        decreases ids.len() - i,
    {
        let e = ids[i];
        let comps = pres.world.components_of(e);
        rows.push((e, comps));
        i = i + 1;
    }
    let ghost rv = rows_view(rows@);
    assert forall|id: u64| rv.len() == ids@.len() && (#[trigger] row_ids(rv).contains(id)
        <==> pres.world.live().contains(id)) by {
        if pres.world.live().contains(id) {
            let j = choose|j: int| 0 <= j < ids@.len() && #[trigger] ids@[j].0 == id;
            assert(rv[j].0 == id);
        }
        if row_ids(rv).contains(id) {
            let j = choose|j: int| 0 <= j < rv.len() && #[trigger] rv[j].0 == id;
            assert(ids@[j].0 == id);
        }
    }
    assert(row_ids(rv) =~= pres.world.live());
    Snapshot { slide_size: Some(pres.slide_size), default_master: Some(pres.default_master), rows }
}

/// Load one row: bring the entity to life and set its components in order.
fn restore_row(w: &mut World, e: Entity, comps: Vec<CompValue>, Ghost(done): Ghost<
    Seq<(u64, Seq<CompView>)>,
>)
    requires
        old(w).wf(),
        e.0 < u64::MAX,
        forall|e2: u64, k2: CompKind| #[trigger] old(w).comp(e2, k2) == restored_comp(done, e2, k2),
        old(w).live() == row_ids(done),
        old(w).next_id() == counter_after(done),
    ensures
        final(w).wf(),
        forall|e2: u64, k2: CompKind|
            #[trigger] final(w).comp(e2, k2) == restored_comp(
                done.push((e.0, comps@.map_values(|c: CompValue| c@))),
                e2,
                k2,
            ),
        final(w).live() == row_ids(done.push((e.0, comps@.map_values(|c: CompValue| c@)))),
        final(w).next_id() == counter_after(done.push((e.0, comps@.map_values(|c: CompValue| c@)))),
{
    let ghost row = (e.0, comps@.map_values(|c: CompValue| c@));
    let ghost all = done.push(row);
    let ghost w0 = *w;
    w.spawn_at(e);
    proof {
        lemma_same_columns_comp(w, &w0);
        assert(all.drop_last() =~= done);
        assert(row_ids(all) =~= row_ids(done).insert(e.0)) by {
            assert forall|id: u64| row_ids(all).contains(id) implies #[trigger] row_ids(done).insert(
                e.0,
            ).contains(id) by {
                let j = choose|j: int| 0 <= j < all.len() && #[trigger] all[j].0 == id;
                if j < done.len() {
                    assert(done[j].0 == id);
                }
            }
            assert forall|id: u64| row_ids(done).insert(e.0).contains(id) implies #[trigger] row_ids(
                all,
            ).contains(id) by {
                if id == e.0 {
                    assert(all[done.len() as int].0 == id);
                } else {
                    let j = choose|j: int| 0 <= j < done.len() && #[trigger] done[j].0 == id;
                    assert(all[j].0 == id);
                }
            }
        }
    }
    let ghost orig = comps@;
    for c in iter: comps
        invariant
            iter.seq() == orig,
            w.wf(),
            w.live() == row_ids(all),
            w.next_id() == counter_after(all),
            row == (e.0, orig.map_values(|c: CompValue| c@)),
            all == done.push(row),
            forall|e2: u64, k2: CompKind|
                #[trigger] w.comp(e2, k2) == if e2 == e.0 && last_of_kind(
                    row.1.take(iter.index()),
                    k2,
                ) is Some {
                    last_of_kind(row.1.take(iter.index()), k2)
                } else {
                    restored_comp(done, e2, k2)
                },
    {
        let ghost j = iter.index();
        proof {
            assert(orig[j as int] == c);
            assert(row.1.take(j + 1) =~= row.1.take(j as int).push(c@));
            assert(row.1.take(j + 1).drop_last() =~= row.1.take(j as int));
        }
        let ghost wb = *w;
        let ghost kind = c.spec_kind();
        w.set(e, c);
        proof {
            lemma_same_except_comp(w, &wb, e.0, kind);
            assert(view_kind(c@) == kind);
        }
    }
    proof {
        assert(row.1.take(orig.len() as int) =~= row.1);
    }
}

/// Rebuild a document from what was read back: a new document with the given slide size and
/// default master (where present), and every row's entity brought to life with its
/// components set in order.
pub fn restore(snap: Snapshot) -> (p: Presentation)
    requires
        forall|i: int| 0 <= i < snap.rows@.len() ==> (#[trigger] snap.rows@[i]).0.0 < u64::MAX,
    ensures
        p.world.wf(),
        p.world.live() == row_ids(rows_view(snap.rows@)),
        p.world.next_id() == counter_after(rows_view(snap.rows@)),
        forall|e: u64, k: CompKind|
            #[trigger] p.world.comp(e, k) == restored_comp(rows_view(snap.rows@), e, k),
        p.slide_size == match snap.slide_size {
            Some(s) => s,
            None => SizeEmu { w: SLIDE_WIDTH_16_9, h: SLIDE_HEIGHT_16_9 },
        },
        p.default_master == match snap.default_master {
            Some(m) => m,
            None => None,
        },
        p.media@ == Map::<u64, Vec<u8>>::empty(),
{
    let mut p = Presentation::new();
    match snap.slide_size {
        Some(s) => {
            p.slide_size = s;
        },
        None => {},
    }
    match snap.default_master {
        Some(m) => {
            p.default_master = m;
        },
        None => {},
    }
    let ghost all = rows_view(snap.rows@);
    let ghost orig = snap.rows@;
    proof {
        assert(all.take(0) =~= Seq::<(u64, Seq<CompView>)>::empty());
        assert(row_ids(all.take(0)) =~= Set::<u64>::empty());
    }
    for r in iter: snap.rows
        invariant
            iter.seq() == orig,
            all == rows_view(orig),
            forall|j: int| 0 <= j < orig.len() ==> (#[trigger] orig[j]).0.0 < u64::MAX,
            p.world.wf(),
            p.world.live() == row_ids(all.take(iter.index())),
            p.world.next_id() == counter_after(all.take(iter.index())),
            forall|e: u64, k: CompKind|
                #[trigger] p.world.comp(e, k) == restored_comp(all.take(iter.index()), e, k),
            p.slide_size == match snap.slide_size {
                Some(s) => s,
                None => SizeEmu { w: SLIDE_WIDTH_16_9, h: SLIDE_HEIGHT_16_9 },
            },
            p.default_master == match snap.default_master {
                Some(m) => m,
                None => None,
            },
            p.media@ == Map::<u64, Vec<u8>>::empty(),
    {
        let ghost i = iter.index();
        let (e, comps) = r;
        proof {
            assert(orig[i] == (e, comps));
            assert(all.take(i + 1) =~= all.take(i).push((e.0, comps@.map_values(|c: CompValue| c@))));
        }
        restore_row(&mut p.world, e, comps, Ghost(all.take(i)));
    }
    proof {
        assert(all.take(orig.len() as int) =~= all);
    }
    p
}

/// The component of kind `k` on `e2` once the components `vs` have been set on `e`, one
/// after another, over `w`: the last of that kind in `vs` for `e`, else what `w` holds.
pub open spec fn replayed(w: &World, e: u64, vs: Seq<CompView>, e2: u64, k: CompKind) -> Option<
    CompView,
> {
    if e2 == e && last_of_kind(vs, k) is Some {
        last_of_kind(vs, k)
    } else {
        w.comp(e2, k)
    }
}

/// Despawning is undone by setting back the components listed for the entity before it was
/// despawned: after `despawn` has cleared `e` from `w` (giving `cleared`), setting each of
/// `components_of(e)` in order restores every component of every entity.
pub proof fn law_despawn_undone(w: &World, cleared: &World, e: u64)
    requires
        cleared.cleared_from(w, e),
    ensures
        forall|e2: u64, k: CompKind| #[trigger] replayed(cleared, e, w.comps_upto(e, 21), e2, k)
            == w.comp(e2, k),
{
    assert forall|e2: u64, k: CompKind| #[trigger] replayed(cleared, e, w.comps_upto(e, 21), e2, k)
        == w.comp(e2, k) by {
        lemma_last_of_kind_upto(w, e, 21, k);
        lemma_kind_index(k);
    }
}

/// Bring `e` back to life with the components `comps`, set in order (what undoing a
/// despawn does with the components listed before it).
pub fn respawn(w: &mut World, e: Entity, comps: Vec<CompValue>)
    requires
        old(w).wf(),
        e.0 < u64::MAX,
    ensures
        final(w).wf(),
        final(w).live() == old(w).live().insert(e.0),
        final(w).next_id() == if e.0 >= old(w).next_id() {
            (e.0 + 1) as u64
        } else {
            old(w).next_id()
        },
        forall|e2: u64, k: CompKind|
            #[trigger] final(w).comp(e2, k) == replayed(
                old(w),
                e.0,
                comps@.map_values(|c: CompValue| c@),
                e2,
                k,
            ),
{
    let ghost w0 = *w;
    let ghost vs = comps@.map_values(|c: CompValue| c@);
    w.spawn_at(e);
    proof {
        lemma_same_columns_comp(w, &w0);
    }
    let ghost orig = comps@;
    for c in iter: comps
        invariant
            iter.seq() == orig,
            vs == orig.map_values(|c: CompValue| c@),
            w.wf(),
            w.live() == w0.live().insert(e.0),
            w.next_id() == if e.0 >= w0.next_id() {
                (e.0 + 1) as u64
            } else {
                w0.next_id()
            },
            forall|e2: u64, k2: CompKind|
                #[trigger] w.comp(e2, k2) == replayed(&w0, e.0, vs.take(iter.index()), e2, k2),
    {
        let ghost j = iter.index();
        proof {
            assert(orig[j as int] == c);
            assert(vs.take(j + 1) =~= vs.take(j as int).push(c@));
            assert(vs.take(j + 1).drop_last() =~= vs.take(j as int));
        }
        let ghost wb = *w;
        let ghost kind = c.spec_kind();
        w.set(e, c);
        proof {
            lemma_same_except_comp(w, &wb, e.0, kind);
            assert(view_kind(c@) == kind);
        }
    }
    proof {
        assert(vs.take(orig.len() as int) =~= vs);
    }
}

/// Reading back what was saved gives the document again: every live entity with exactly its
/// components, and nothing else.
pub proof fn law_snapshot_roundtrip(w: &World, rows: Seq<(u64, Seq<CompView>)>)
    requires
        is_snapshot_of(w, rows),
    ensures
        row_ids(rows) == w.live(),
        forall|e: u64, k: CompKind|
            #[trigger] restored_comp(rows, e, k) == if w.live().contains(e) {
                w.comp(e, k)
            } else {
                None
            },
    decreases rows.len(),
{
    assert forall|e: u64, k: CompKind| #[trigger] restored_comp(rows, e, k) == if w.live().contains(
        e,
    ) {
        w.comp(e, k)
    } else {
        None
    } by {
        lemma_restored_unique(w, rows, e, k);
    }
}

/// Restoring rows with increasing ids finds each entity's components in its own row alone.
proof fn lemma_restored_unique(w: &World, rows: Seq<(u64, Seq<CompView>)>, e: u64, k: CompKind)
    requires
        forall|i: int, j: int| 0 <= i < j < rows.len() ==> #[trigger] rows[i].0 < #[trigger] rows[j].0,
        forall|i: int| 0 <= i < rows.len() ==> #[trigger] rows[i].1 == w.comps_upto(rows[i].0, 21),
    ensures
        restored_comp(rows, e, k) == if row_ids(rows).contains(e) {
            w.comp(e, k)
        } else {
            None
        },
    decreases rows.len(),
{
    lemma_kind_index(k);
    if rows.len() > 0 {
        let last = rows.last();
        let prev = rows.drop_last();
        lemma_last_of_kind_upto(w, last.0, 21, k);
        lemma_restored_unique(w, prev, e, k);
        if last.0 == e {
            assert(row_ids(rows).contains(e)) by {
                assert(rows[rows.len() - 1].0 == e);
            }
            if row_ids(prev).contains(e) {
                let j = choose|j: int| 0 <= j < prev.len() && #[trigger] prev[j].0 == e;
                assert(rows[j].0 < rows[rows.len() - 1].0);
            }
        } else {
            assert(row_ids(rows).contains(e) == row_ids(prev).contains(e)) by {
                if row_ids(rows).contains(e) {
                    let j = choose|j: int| 0 <= j < rows.len() && #[trigger] rows[j].0 == e;
                    assert(j < prev.len());
                    assert(prev[j].0 == e);
                }
                if row_ids(prev).contains(e) {
                    let j = choose|j: int| 0 <= j < prev.len() && #[trigger] prev[j].0 == e;
                    assert(rows[j].0 == e);
                }
            }
        }
    } else {
        assert(!row_ids(rows).contains(e));
    }
}

} // verus!
