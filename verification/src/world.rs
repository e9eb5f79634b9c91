//! Data-oriented document store.
//!
//! An entity is a stable id; data lives in sparse component columns keyed by that id. The
//! presence or absence of a component encodes an override-or-inherit decision.
//!
//! Entity ids are explicit `u64`s handed out by a monotonic counter, so a despawned id can
//! be brought back with the same id through [`World::spawn_at`] (which keeps an operation's
//! redo stable), while fresh ids never collide with any id ever used.

use vstd::prelude::*;
use std::collections::{BTreeMap, BTreeSet};
use crate::anim::{SlideTimeline, Transition};
use crate::doc::{LayoutInfo, MasterInfo, PlaceholderRef, SlideInfo};
use crate::frac::FracIndex;
use crate::geom::RectEmu;
use crate::image::PictureRef;
use crate::paint::{Fill, Stroke};
use crate::shape::Geometry;
use crate::text::TextBody;
use vstd::std_specs::btree::{increasing_seq, spec_btree_keys_iter};
use vstd::std_specs::iter::IteratorSpec;
use vstd::std_specs::cmp::OrdSpec;

verus! {

broadcast use vstd::std_specs::btree::group_btree_axioms;

/// Stable id of a document entity (shape, slide, layout, master, ...).
#[derive(Clone, Copy, Debug, PartialEq, Eq, PartialOrd, Ord, Hash, Structural)]
pub struct Entity(pub u64);

/// Live entities plus one sparse column per component, keyed by entity id.
pub struct World {
    /// The id counter: every id ever handed out lies below it.
    pub next: u64,
    /// Ids of the live entities.
    pub alive: BTreeSet<u64>,
    /// Bounding box in slide coordinates (EMU), before rotation.
    pub frames: BTreeMap<u64, RectEmu>,
    /// Rotation in degrees, clockwise, as the bit pattern of an `f32`.
    pub rotations: BTreeMap<u64, u32>,
    /// Sibling order key among children sharing a parent.
    pub order: BTreeMap<u64, FracIndex>,
    /// Parent entity (group or slide); absent at the root of a container.
    pub parent: BTreeMap<u64, Entity>,
    /// Optional human-readable name.
    pub names: BTreeMap<u64, String>,
    /// Group membership key: shapes sharing the same nonzero key act together.
    pub groups: BTreeMap<u64, u64>,
    /// Interior fill.
    pub fills: BTreeMap<u64, Fill>,
    /// Outline.
    pub strokes: BTreeMap<u64, Stroke>,
    /// Opacity in `0.0..=1.0` as the bit pattern of an `f32` (absent = opaque).
    pub opacity: BTreeMap<u64, u32>,
    /// Vector geometry; its presence marks a vector shape.
    pub geometries: BTreeMap<u64, Geometry>,
    /// Rich text; its presence marks a text box.
    pub texts: BTreeMap<u64, TextBody>,
    /// Marks a slide.
    pub slide_info: BTreeMap<u64, SlideInfo>,
    /// Marks a layout.
    pub layout_info: BTreeMap<u64, LayoutInfo>,
    /// Marks a master.
    pub master_info: BTreeMap<u64, MasterInfo>,
    /// Background fill override; resolves slide, then layout, then master.
    pub backgrounds: BTreeMap<u64, Fill>,
    /// Speaker notes (on slides).
    pub speaker_notes: BTreeMap<u64, String>,
    /// Placeholder link for inheriting from the layout and master.
    pub placeholders: BTreeMap<u64, PlaceholderRef>,
    /// Picture reference into embedded media; its presence marks a picture.
    pub pictures: BTreeMap<u64, PictureRef>,
    /// Per-slide animation timeline.
    pub timelines: BTreeMap<u64, SlideTimeline>,
    /// Slide screen transition.
    pub transitions: BTreeMap<u64, Transition>,
    /// Morph matching key, carried across slide duplication.
    pub morph_keys: BTreeMap<u64, String>,
}

/// A component value tagged by its kind (one variant per column).
#[derive(Clone, Debug, PartialEq, Eq)]
pub enum CompValue {
    Frame(RectEmu),
    Rotation(u32),
    Order(FracIndex),
    Parent(Entity),
    Name(String),
    Group(u64),
    Fill(Fill),
    Stroke(Stroke),
    Opacity(u32),
    Geometry(Geometry),
    Text(TextBody),
    Slide(SlideInfo),
    Layout(LayoutInfo),
    Master(MasterInfo),
    Background(Fill),
    Notes(String),
    Placeholder(PlaceholderRef),
    Picture(PictureRef),
    Timeline(SlideTimeline),
    Transition(Transition),
    MorphKey(String),
}

/// The kind of a component, naming a column without a value.
#[derive(Clone, Copy, Debug, PartialEq, Eq, Structural)]
pub enum CompKind {
    Frame,
    Rotation,
    Order,
    Parent,
    Name,
    Group,
    Fill,
    Stroke,
    Opacity,
    Geometry,
    Text,
    Slide,
    Layout,
    Master,
    Background,
    Notes,
    Placeholder,
    Picture,
    Timeline,
    Transition,
    MorphKey,
}

/// The content of a component value, seen through the views of its owned data.
pub enum CompView {
    Frame(RectEmu),
    Rotation(u32),
    Order(<FracIndex as View>::V),
    Parent(Entity),
    Name(Seq<char>),
    Group(u64),
    Fill(Fill),
    Stroke(<Stroke as View>::V),
    Opacity(u32),
    Geometry(Geometry),
    Text(<TextBody as View>::V),
    Slide(SlideInfo),
    Layout(<LayoutInfo as View>::V),
    Master(<MasterInfo as View>::V),
    Background(Fill),
    Notes(Seq<char>),
    Placeholder(PlaceholderRef),
    Picture(<PictureRef as View>::V),
    Timeline(<SlideTimeline as View>::V),
    Transition(Transition),
    MorphKey(Seq<char>),
}

impl View for CompValue {
    type V = CompView;

    open spec fn view(&self) -> CompView {
        match self {
            CompValue::Frame(x) => CompView::Frame(*x),
            CompValue::Rotation(x) => CompView::Rotation(*x),
            CompValue::Order(x) => CompView::Order(x@),
            CompValue::Parent(x) => CompView::Parent(*x),
            CompValue::Name(x) => CompView::Name(x@),
            CompValue::Group(x) => CompView::Group(*x),
            CompValue::Fill(x) => CompView::Fill(*x),
            CompValue::Stroke(x) => CompView::Stroke(x@),
            CompValue::Opacity(x) => CompView::Opacity(*x),
            CompValue::Geometry(x) => CompView::Geometry(*x),
            CompValue::Text(x) => CompView::Text(x@),
            CompValue::Slide(x) => CompView::Slide(*x),
            CompValue::Layout(x) => CompView::Layout(x@),
            CompValue::Master(x) => CompView::Master(x@),
            CompValue::Background(x) => CompView::Background(*x),
            CompValue::Notes(x) => CompView::Notes(x@),
            CompValue::Placeholder(x) => CompView::Placeholder(*x),
            CompValue::Picture(x) => CompView::Picture(x@),
            CompValue::Timeline(x) => CompView::Timeline(x@),
            CompValue::Transition(x) => CompView::Transition(*x),
            CompValue::MorphKey(x) => CompView::MorphKey(x@),
        }
    }
}

impl CompValue {
    pub open spec fn spec_kind(&self) -> CompKind {
        match self {
            CompValue::Frame(_) => CompKind::Frame,
            CompValue::Rotation(_) => CompKind::Rotation,
            CompValue::Order(_) => CompKind::Order,
            CompValue::Parent(_) => CompKind::Parent,
            CompValue::Name(_) => CompKind::Name,
            CompValue::Group(_) => CompKind::Group,
            CompValue::Fill(_) => CompKind::Fill,
            CompValue::Stroke(_) => CompKind::Stroke,
            CompValue::Opacity(_) => CompKind::Opacity,
            CompValue::Geometry(_) => CompKind::Geometry,
            CompValue::Text(_) => CompKind::Text,
            CompValue::Slide(_) => CompKind::Slide,
            CompValue::Layout(_) => CompKind::Layout,
            CompValue::Master(_) => CompKind::Master,
            CompValue::Background(_) => CompKind::Background,
            CompValue::Notes(_) => CompKind::Notes,
            CompValue::Placeholder(_) => CompKind::Placeholder,
            CompValue::Picture(_) => CompKind::Picture,
            CompValue::Timeline(_) => CompKind::Timeline,
            CompValue::Transition(_) => CompKind::Transition,
            CompValue::MorphKey(_) => CompKind::MorphKey,
        }
    }

    /// The kind of this value.
    pub fn kind(&self) -> (k: CompKind)
        ensures
            k == self.spec_kind(),
    {
        match self {
            CompValue::Frame(_) => CompKind::Frame,
            CompValue::Rotation(_) => CompKind::Rotation,
            CompValue::Order(_) => CompKind::Order,
            CompValue::Parent(_) => CompKind::Parent,
            CompValue::Name(_) => CompKind::Name,
            CompValue::Group(_) => CompKind::Group,
            CompValue::Fill(_) => CompKind::Fill,
            CompValue::Stroke(_) => CompKind::Stroke,
            CompValue::Opacity(_) => CompKind::Opacity,
            CompValue::Geometry(_) => CompKind::Geometry,
            CompValue::Text(_) => CompKind::Text,
            CompValue::Slide(_) => CompKind::Slide,
            CompValue::Layout(_) => CompKind::Layout,
            CompValue::Master(_) => CompKind::Master,
            CompValue::Background(_) => CompKind::Background,
            CompValue::Notes(_) => CompKind::Notes,
            CompValue::Placeholder(_) => CompKind::Placeholder,
            CompValue::Picture(_) => CompKind::Picture,
            CompValue::Timeline(_) => CompKind::Timeline,
            CompValue::Transition(_) => CompKind::Transition,
            CompValue::MorphKey(_) => CompKind::MorphKey,
        }
    }
}

impl World {
    /// The live set is finite, and every live id lies below the id counter, so fresh ids are
    /// never live.
    pub open spec fn wf(&self) -> bool {
        &&& self.alive@.finite()
        &&& forall|id: u64| self.alive@.contains(id) ==> id < self.next
    }

    /// The set of live entity ids.
    pub open spec fn live(&self) -> Set<u64> {
        self.alive@
    }

    /// The id the next fresh entity receives.
    pub open spec fn next_id(&self) -> u64 {
        self.next
    }

    pub fn new() -> (w: World)
        ensures
            w.wf(),
            w.live() == Set::<u64>::empty(),
            w.next_id() == 0,
            forall|e: u64, k: CompKind| w.comp(e, k) is None,
    {
        World {
            next: 0,
            alive: BTreeSet::new(),
            frames: BTreeMap::new(),
            rotations: BTreeMap::new(),
            order: BTreeMap::new(),
            parent: BTreeMap::new(),
            names: BTreeMap::new(),
            groups: BTreeMap::new(),
            fills: BTreeMap::new(),
            strokes: BTreeMap::new(),
            opacity: BTreeMap::new(),
            geometries: BTreeMap::new(),
            texts: BTreeMap::new(),
            slide_info: BTreeMap::new(),
            layout_info: BTreeMap::new(),
            master_info: BTreeMap::new(),
            backgrounds: BTreeMap::new(),
            speaker_notes: BTreeMap::new(),
            placeholders: BTreeMap::new(),
            pictures: BTreeMap::new(),
            timelines: BTreeMap::new(),
            transitions: BTreeMap::new(),
            morph_keys: BTreeMap::new(),
        }
    }

    /// Create a new live entity with a freshly allocated id: the counter's value, which no
    /// live or earlier entity has.
    pub fn spawn(&mut self) -> (e: Entity)
        requires
            old(self).wf(),
            old(self).next_id() < u64::MAX,
        ensures
            final(self).wf(),
            e.0 == old(self).next_id(),
            !old(self).live().contains(e.0),
            final(self).live() == old(self).live().insert(e.0),
            final(self).next_id() == e.0 + 1,
            final(self).same_columns(old(self)),
    {
        let e = Entity(self.next);
        self.spawn_at(e);
        e
    }

    /// Reserve a fresh id without bringing it to life.
    pub fn reserve_id(&mut self) -> (e: Entity)
        requires
            old(self).wf(),
            old(self).next_id() < u64::MAX,
        ensures
            final(self).wf(),
            e.0 == old(self).next_id(),
            !old(self).live().contains(e.0),
            final(self).live() == old(self).live(),
            final(self).next_id() == e.0 + 1,
            final(self).same_columns(old(self)),
    {
        let e = Entity(self.next);
        self.next = self.next + 1;
        e
    }

    /// Bring a specific id to life. The id counter advances past it, so later fresh ids
    /// never collide with it.
    pub fn spawn_at(&mut self, e: Entity)
        requires
            old(self).wf(),
            e.0 < u64::MAX,
        ensures
            final(self).wf(),
            final(self).live() == old(self).live().insert(e.0),
            final(self).next_id() == if e.0 >= old(self).next_id() {
                (e.0 + 1) as u64
            } else {
                old(self).next_id()
            },
            final(self).same_columns(old(self)),
    {
        self.alive.insert(e.0);
        if e.0 >= self.next {
            self.next = e.0 + 1;
        }
    }

    pub fn is_alive(&self, e: Entity) -> (b: bool)
        ensures
            b == self.live().contains(e.0),
    {
        self.alive.contains(&e.0)
    }

    /// Remove an entity and all of its components. Returns whether it was live; when it was
    /// not, nothing changes.
    pub fn despawn(&mut self, e: Entity) -> (existed: bool)
        requires
            old(self).wf(),
        ensures
            final(self).wf(),
            existed == old(self).live().contains(e.0),
            final(self).live() == old(self).live().remove(e.0),
            final(self).next_id() == old(self).next_id(),
            existed ==> final(self).cleared_from(old(self), e.0),
            !existed ==> final(self).same_columns(old(self)),
    {
        if self.alive.remove(&e.0) {
            self.clear_components(e.0);
            true
        } else {
            false
        }
    }

    /// All live entities in increasing id order.
    pub fn iter(&self) -> (v: Vec<Entity>)
        ensures
            forall|i: int, j: int| 0 <= i < j < v@.len() ==> v@[i].0 < v@[j].0,
            forall|id: u64| self.live().contains(id) <==> exists|i: int| 0 <= i < v@.len() && #[trigger] v@[i].0 == id,
    {
        let mut v: Vec<Entity> = Vec::new();
        let ghost s0 = spec_btree_keys_iter(&self.alive).remaining();
        for x in it: self.alive.iter()
            invariant
                it.seq() == s0,
                v@.len() == it.index(),
                forall|j: int| 0 <= j < it.index() ==> #[trigger] v@[j].0 == *s0[j],
        {
            v.push(Entity(*x));
        }
        proof {
            assert(v@.len() == s0.len());
            assert(increasing_seq(s0));
            assert(s0.unref().to_set() == self.alive@);
            assert forall|i: int, j: int| 0 <= i < j < v@.len() implies v@[i].0 < v@[j].0 by {
                broadcast use vstd::laws_cmp::group_laws_cmp;
                assert(vstd::laws_cmp::obeys_cmp::<u64>());
                assert(vstd::laws_cmp::obeys_cmp::<&u64>());
                vstd::std_specs::btree::axiom_increasing_seq_meaning(s0);
                assert(OrdSpec::cmp_spec(&s0[i], &s0[j]) is Less);
                assert(v@[i].0 == *s0[i]);
                assert(v@[j].0 == *s0[j]);
            }
            assert forall|id: u64| self.live().contains(id) implies exists|i: int| 0 <= i < v@.len() && #[trigger] v@[i].0 == id by {
                assert(s0.unref().to_set().contains(id));
                let i = choose|i: int| 0 <= i < s0.unref().len() && s0.unref()[i] == id;
                assert(v@[i].0 == *s0[i]);
            }
            assert forall|id: u64| (exists|i: int| 0 <= i < v@.len() && #[trigger] v@[i].0 == id) implies self.live().contains(id) by {
                let i = choose|i: int| 0 <= i < v@.len() && #[trigger] v@[i].0 == id;
                assert(v@[i].0 == *s0[i]);
                assert(s0.unref()[i] == id);
                assert(s0.unref().to_set().contains(id));
            }
        }
        v
    }

    pub fn len(&self) -> (n: usize)
        ensures
            n == self.live().len(),
    {
        self.alive.len()
    }

    pub fn is_empty(&self) -> (b: bool)
        ensures
            b == self.live().is_empty(),
    {
        self.alive.is_empty()
    }

    /// The value of component `kind` on entity `e`, if present, seen through its view.
    pub open spec fn comp(&self, e: u64, kind: CompKind) -> Option<CompView> {
        match kind {
            CompKind::Frame => if self.frames@.contains_key(e) { Some(CompView::Frame(self.frames@[e])) } else { None },
            CompKind::Rotation => if self.rotations@.contains_key(e) { Some(CompView::Rotation(self.rotations@[e])) } else { None },
            CompKind::Order => if self.order@.contains_key(e) { Some(CompView::Order(self.order@[e]@)) } else { None },
            CompKind::Parent => if self.parent@.contains_key(e) { Some(CompView::Parent(self.parent@[e])) } else { None },
            CompKind::Name => if self.names@.contains_key(e) { Some(CompView::Name(self.names@[e]@)) } else { None },
            CompKind::Group => if self.groups@.contains_key(e) { Some(CompView::Group(self.groups@[e])) } else { None },
            CompKind::Fill => if self.fills@.contains_key(e) { Some(CompView::Fill(self.fills@[e])) } else { None },
            CompKind::Stroke => if self.strokes@.contains_key(e) { Some(CompView::Stroke(self.strokes@[e]@)) } else { None },
            CompKind::Opacity => if self.opacity@.contains_key(e) { Some(CompView::Opacity(self.opacity@[e])) } else { None },
            CompKind::Geometry => if self.geometries@.contains_key(e) { Some(CompView::Geometry(self.geometries@[e])) } else { None },
            CompKind::Text => if self.texts@.contains_key(e) { Some(CompView::Text(self.texts@[e]@)) } else { None },
            CompKind::Slide => if self.slide_info@.contains_key(e) { Some(CompView::Slide(self.slide_info@[e])) } else { None },
            CompKind::Layout => if self.layout_info@.contains_key(e) { Some(CompView::Layout(self.layout_info@[e]@)) } else { None },
            CompKind::Master => if self.master_info@.contains_key(e) { Some(CompView::Master(self.master_info@[e]@)) } else { None },
            CompKind::Background => if self.backgrounds@.contains_key(e) { Some(CompView::Background(self.backgrounds@[e])) } else { None },
            CompKind::Notes => if self.speaker_notes@.contains_key(e) { Some(CompView::Notes(self.speaker_notes@[e]@)) } else { None },
            CompKind::Placeholder => if self.placeholders@.contains_key(e) { Some(CompView::Placeholder(self.placeholders@[e])) } else { None },
            CompKind::Picture => if self.pictures@.contains_key(e) { Some(CompView::Picture(self.pictures@[e]@)) } else { None },
            CompKind::Timeline => if self.timelines@.contains_key(e) { Some(CompView::Timeline(self.timelines@[e]@)) } else { None },
            CompKind::Transition => if self.transitions@.contains_key(e) { Some(CompView::Transition(self.transitions@[e])) } else { None },
            CompKind::MorphKey => if self.morph_keys@.contains_key(e) { Some(CompView::MorphKey(self.morph_keys@[e]@)) } else { None },
        }
    }

    /// Every column of `self` and `other` agrees, except possibly column `kind` at `e`,
    /// and the live set and id counter agree.
    pub open spec fn same_except(&self, other: &World, e: u64, kind: CompKind) -> bool {
        &&& self.columns_except(other, e, kind)
        &&& self.live() == other.live()
        &&& self.next_id() == other.next_id()
    }

    /// Every column of `self` and `other` agrees, except possibly column `kind` at `e`.
    pub open spec fn columns_except(&self, other: &World, e: u64, kind: CompKind) -> bool {
        &&& (kind != CompKind::Frame ==> self.frames@ == other.frames@)
        &&& (kind == CompKind::Frame ==> self.frames@.remove(e) =~= other.frames@.remove(e))
        &&& (kind != CompKind::Rotation ==> self.rotations@ == other.rotations@)
        &&& (kind == CompKind::Rotation ==> self.rotations@.remove(e) =~= other.rotations@.remove(e))
        &&& (kind != CompKind::Order ==> self.order@ == other.order@)
        &&& (kind == CompKind::Order ==> self.order@.remove(e) =~= other.order@.remove(e))
        &&& (kind != CompKind::Parent ==> self.parent@ == other.parent@)
        &&& (kind == CompKind::Parent ==> self.parent@.remove(e) =~= other.parent@.remove(e))
        &&& (kind != CompKind::Name ==> self.names@ == other.names@)
        &&& (kind == CompKind::Name ==> self.names@.remove(e) =~= other.names@.remove(e))
        &&& (kind != CompKind::Group ==> self.groups@ == other.groups@)
        &&& (kind == CompKind::Group ==> self.groups@.remove(e) =~= other.groups@.remove(e))
        &&& (kind != CompKind::Fill ==> self.fills@ == other.fills@)
        &&& (kind == CompKind::Fill ==> self.fills@.remove(e) =~= other.fills@.remove(e))
        &&& (kind != CompKind::Stroke ==> self.strokes@ == other.strokes@)
        &&& (kind == CompKind::Stroke ==> self.strokes@.remove(e) =~= other.strokes@.remove(e))
        &&& (kind != CompKind::Opacity ==> self.opacity@ == other.opacity@)
        &&& (kind == CompKind::Opacity ==> self.opacity@.remove(e) =~= other.opacity@.remove(e))
        &&& (kind != CompKind::Geometry ==> self.geometries@ == other.geometries@)
        &&& (kind == CompKind::Geometry ==> self.geometries@.remove(e) =~= other.geometries@.remove(e))
        &&& (kind != CompKind::Text ==> self.texts@ == other.texts@)
        &&& (kind == CompKind::Text ==> self.texts@.remove(e) =~= other.texts@.remove(e))
        &&& (kind != CompKind::Slide ==> self.slide_info@ == other.slide_info@)
        &&& (kind == CompKind::Slide ==> self.slide_info@.remove(e) =~= other.slide_info@.remove(e))
        &&& (kind != CompKind::Layout ==> self.layout_info@ == other.layout_info@)
        &&& (kind == CompKind::Layout ==> self.layout_info@.remove(e) =~= other.layout_info@.remove(e))
        &&& (kind != CompKind::Master ==> self.master_info@ == other.master_info@)
        &&& (kind == CompKind::Master ==> self.master_info@.remove(e) =~= other.master_info@.remove(e))
        &&& (kind != CompKind::Background ==> self.backgrounds@ == other.backgrounds@)
        &&& (kind == CompKind::Background ==> self.backgrounds@.remove(e) =~= other.backgrounds@.remove(e))
        &&& (kind != CompKind::Notes ==> self.speaker_notes@ == other.speaker_notes@)
        &&& (kind == CompKind::Notes ==> self.speaker_notes@.remove(e) =~= other.speaker_notes@.remove(e))
        &&& (kind != CompKind::Placeholder ==> self.placeholders@ == other.placeholders@)
        &&& (kind == CompKind::Placeholder ==> self.placeholders@.remove(e) =~= other.placeholders@.remove(e))
        &&& (kind != CompKind::Picture ==> self.pictures@ == other.pictures@)
        &&& (kind == CompKind::Picture ==> self.pictures@.remove(e) =~= other.pictures@.remove(e))
        &&& (kind != CompKind::Timeline ==> self.timelines@ == other.timelines@)
        &&& (kind == CompKind::Timeline ==> self.timelines@.remove(e) =~= other.timelines@.remove(e))
        &&& (kind != CompKind::Transition ==> self.transitions@ == other.transitions@)
        &&& (kind == CompKind::Transition ==> self.transitions@.remove(e) =~= other.transitions@.remove(e))
        &&& (kind != CompKind::MorphKey ==> self.morph_keys@ == other.morph_keys@)
        &&& (kind == CompKind::MorphKey ==> self.morph_keys@.remove(e) =~= other.morph_keys@.remove(e))
    }

    /// Every column of `self` and `other` agrees, except possibly the columns of `kinds`
    /// at `e`.
    pub open spec fn columns_agree_except(&self, other: &World, e: u64, kinds: Set<CompKind>) -> bool {
        &&& (!kinds.contains(CompKind::Frame) ==> self.frames@ == other.frames@)
        &&& (kinds.contains(CompKind::Frame) ==> self.frames@.remove(e) =~= other.frames@.remove(e))
        &&& (!kinds.contains(CompKind::Rotation) ==> self.rotations@ == other.rotations@)
        &&& (kinds.contains(CompKind::Rotation) ==> self.rotations@.remove(e) =~= other.rotations@.remove(e))
        &&& (!kinds.contains(CompKind::Order) ==> self.order@ == other.order@)
        &&& (kinds.contains(CompKind::Order) ==> self.order@.remove(e) =~= other.order@.remove(e))
        &&& (!kinds.contains(CompKind::Parent) ==> self.parent@ == other.parent@)
        &&& (kinds.contains(CompKind::Parent) ==> self.parent@.remove(e) =~= other.parent@.remove(e))
        &&& (!kinds.contains(CompKind::Name) ==> self.names@ == other.names@)
        &&& (kinds.contains(CompKind::Name) ==> self.names@.remove(e) =~= other.names@.remove(e))
        &&& (!kinds.contains(CompKind::Group) ==> self.groups@ == other.groups@)
        &&& (kinds.contains(CompKind::Group) ==> self.groups@.remove(e) =~= other.groups@.remove(e))
        &&& (!kinds.contains(CompKind::Fill) ==> self.fills@ == other.fills@)
        &&& (kinds.contains(CompKind::Fill) ==> self.fills@.remove(e) =~= other.fills@.remove(e))
        &&& (!kinds.contains(CompKind::Stroke) ==> self.strokes@ == other.strokes@)
        &&& (kinds.contains(CompKind::Stroke) ==> self.strokes@.remove(e) =~= other.strokes@.remove(e))
        &&& (!kinds.contains(CompKind::Opacity) ==> self.opacity@ == other.opacity@)
        &&& (kinds.contains(CompKind::Opacity) ==> self.opacity@.remove(e) =~= other.opacity@.remove(e))
        &&& (!kinds.contains(CompKind::Geometry) ==> self.geometries@ == other.geometries@)
        &&& (kinds.contains(CompKind::Geometry) ==> self.geometries@.remove(e) =~= other.geometries@.remove(e))
        &&& (!kinds.contains(CompKind::Text) ==> self.texts@ == other.texts@)
        &&& (kinds.contains(CompKind::Text) ==> self.texts@.remove(e) =~= other.texts@.remove(e))
        &&& (!kinds.contains(CompKind::Slide) ==> self.slide_info@ == other.slide_info@)
        &&& (kinds.contains(CompKind::Slide) ==> self.slide_info@.remove(e) =~= other.slide_info@.remove(e))
        &&& (!kinds.contains(CompKind::Layout) ==> self.layout_info@ == other.layout_info@)
        &&& (kinds.contains(CompKind::Layout) ==> self.layout_info@.remove(e) =~= other.layout_info@.remove(e))
        &&& (!kinds.contains(CompKind::Master) ==> self.master_info@ == other.master_info@)
        &&& (kinds.contains(CompKind::Master) ==> self.master_info@.remove(e) =~= other.master_info@.remove(e))
        &&& (!kinds.contains(CompKind::Background) ==> self.backgrounds@ == other.backgrounds@)
        &&& (kinds.contains(CompKind::Background) ==> self.backgrounds@.remove(e) =~= other.backgrounds@.remove(e))
        &&& (!kinds.contains(CompKind::Notes) ==> self.speaker_notes@ == other.speaker_notes@)
        &&& (kinds.contains(CompKind::Notes) ==> self.speaker_notes@.remove(e) =~= other.speaker_notes@.remove(e))
        &&& (!kinds.contains(CompKind::Placeholder) ==> self.placeholders@ == other.placeholders@)
        &&& (kinds.contains(CompKind::Placeholder) ==> self.placeholders@.remove(e) =~= other.placeholders@.remove(e))
        &&& (!kinds.contains(CompKind::Picture) ==> self.pictures@ == other.pictures@)
        &&& (kinds.contains(CompKind::Picture) ==> self.pictures@.remove(e) =~= other.pictures@.remove(e))
        &&& (!kinds.contains(CompKind::Timeline) ==> self.timelines@ == other.timelines@)
        &&& (kinds.contains(CompKind::Timeline) ==> self.timelines@.remove(e) =~= other.timelines@.remove(e))
        &&& (!kinds.contains(CompKind::Transition) ==> self.transitions@ == other.transitions@)
        &&& (kinds.contains(CompKind::Transition) ==> self.transitions@.remove(e) =~= other.transitions@.remove(e))
        &&& (!kinds.contains(CompKind::MorphKey) ==> self.morph_keys@ == other.morph_keys@)
        &&& (kinds.contains(CompKind::MorphKey) ==> self.morph_keys@.remove(e) =~= other.morph_keys@.remove(e))
    }

    /// Each column of `self` is the matching column of `other` with `e` removed.
    pub open spec fn cleared_from(&self, other: &World, e: u64) -> bool {
        &&& self.frames@ == other.frames@.remove(e)
        &&& self.rotations@ == other.rotations@.remove(e)
        &&& self.order@ == other.order@.remove(e)
        &&& self.parent@ == other.parent@.remove(e)
        &&& self.names@ == other.names@.remove(e)
        &&& self.groups@ == other.groups@.remove(e)
        &&& self.fills@ == other.fills@.remove(e)
        &&& self.strokes@ == other.strokes@.remove(e)
        &&& self.opacity@ == other.opacity@.remove(e)
        &&& self.geometries@ == other.geometries@.remove(e)
        &&& self.texts@ == other.texts@.remove(e)
        &&& self.slide_info@ == other.slide_info@.remove(e)
        &&& self.layout_info@ == other.layout_info@.remove(e)
        &&& self.master_info@ == other.master_info@.remove(e)
        &&& self.backgrounds@ == other.backgrounds@.remove(e)
        &&& self.speaker_notes@ == other.speaker_notes@.remove(e)
        &&& self.placeholders@ == other.placeholders@.remove(e)
        &&& self.pictures@ == other.pictures@.remove(e)
        &&& self.timelines@ == other.timelines@.remove(e)
        &&& self.transitions@ == other.transitions@.remove(e)
        &&& self.morph_keys@ == other.morph_keys@.remove(e)
    }

    /// Every column of `self` and `other` agrees.
    pub open spec fn same_columns(&self, other: &World) -> bool {
        &&& self.frames@ == other.frames@
        &&& self.rotations@ == other.rotations@
        &&& self.order@ == other.order@
        &&& self.parent@ == other.parent@
        &&& self.names@ == other.names@
        &&& self.groups@ == other.groups@
        &&& self.fills@ == other.fills@
        &&& self.strokes@ == other.strokes@
        &&& self.opacity@ == other.opacity@
        &&& self.geometries@ == other.geometries@
        &&& self.texts@ == other.texts@
        &&& self.slide_info@ == other.slide_info@
        &&& self.layout_info@ == other.layout_info@
        &&& self.master_info@ == other.master_info@
        &&& self.backgrounds@ == other.backgrounds@
        &&& self.speaker_notes@ == other.speaker_notes@
        &&& self.placeholders@ == other.placeholders@
        &&& self.pictures@ == other.pictures@
        &&& self.timelines@ == other.timelines@
        &&& self.transitions@ == other.transitions@
        &&& self.morph_keys@ == other.morph_keys@
    }

    /// Each column of `self` is the matching column of `other` without the keys in `ids`.
    pub open spec fn cleared_all(&self, other: &World, ids: Set<u64>) -> bool {
        &&& self.frames@ == other.frames@.remove_keys(ids)
        &&& self.rotations@ == other.rotations@.remove_keys(ids)
        &&& self.order@ == other.order@.remove_keys(ids)
        &&& self.parent@ == other.parent@.remove_keys(ids)
        &&& self.names@ == other.names@.remove_keys(ids)
        &&& self.groups@ == other.groups@.remove_keys(ids)
        &&& self.fills@ == other.fills@.remove_keys(ids)
        &&& self.strokes@ == other.strokes@.remove_keys(ids)
        &&& self.opacity@ == other.opacity@.remove_keys(ids)
        &&& self.geometries@ == other.geometries@.remove_keys(ids)
        &&& self.texts@ == other.texts@.remove_keys(ids)
        &&& self.slide_info@ == other.slide_info@.remove_keys(ids)
        &&& self.layout_info@ == other.layout_info@.remove_keys(ids)
        &&& self.master_info@ == other.master_info@.remove_keys(ids)
        &&& self.backgrounds@ == other.backgrounds@.remove_keys(ids)
        &&& self.speaker_notes@ == other.speaker_notes@.remove_keys(ids)
        &&& self.placeholders@ == other.placeholders@.remove_keys(ids)
        &&& self.pictures@ == other.pictures@.remove_keys(ids)
        &&& self.timelines@ == other.timelines@.remove_keys(ids)
        &&& self.transitions@ == other.transitions@.remove_keys(ids)
        &&& self.morph_keys@ == other.morph_keys@.remove_keys(ids)
    }

    /// Despawn each listed entity in turn. The live ones among them lose all their
    /// components; nothing else changes.
    pub fn despawn_all(&mut self, es: &Vec<Entity>)
        requires
            old(self).wf(),
        ensures
            final(self).wf(),
            final(self).live() == old(self).live().difference(ids_of(es@)),
            final(self).next_id() == old(self).next_id(),
            final(self).cleared_all(old(self), ids_of(es@).intersect(old(self).live())),
    {
        let ghost w0 = *self;
        let mut i: usize = 0;
        proof {
            assert(ids_of(es@.subrange(0, 0)) =~= Set::<u64>::empty());
            assert(Set::<u64>::empty().intersect(w0.live()) =~= Set::<u64>::empty());
            lemma_cleared_none(&w0);
            assert(self.live() =~= w0.live().difference(Set::<u64>::empty()));
        }
        while i < es.len()
            invariant
                i <= es@.len(),
                self.wf(),
                self.live() == w0.live().difference(ids_of(es@.subrange(0, i as int))),
                self.next_id() == w0.next_id(),
                self.cleared_all(&w0, ids_of(es@.subrange(0, i as int)).intersect(w0.live())),
            decreases es.len() - i,
        {
            let e = es[i];
            let ghost a = ids_of(es@.subrange(0, i as int)).intersect(w0.live());
            let ghost w1 = *self;
            let existed = self.despawn(e);
            proof {
                let pre0 = es@.subrange(0, i as int);
                let pre1 = es@.subrange(0, i + 1);
                let prefix = ids_of(pre0);
                assert(ids_of(pre1) =~= prefix.insert(e.0)) by {
                    assert forall|id: u64| ids_of(pre1).contains(id) implies prefix.insert(e.0).contains(id) by {
                        let k = choose|k: int| 0 <= k < pre1.len() && #[trigger] pre1[k].0 == id;
                        if k < i {
                            assert(pre0[k] == pre1[k]);
                        }
                    }
                    assert forall|id: u64| prefix.insert(e.0).contains(id) implies ids_of(pre1).contains(id) by {
                        if id == e.0 {
                            assert(pre1[i as int].0 == id);
                        } else {
                            let k = choose|k: int| 0 <= k < pre0.len() && #[trigger] pre0[k].0 == id;
                            assert(pre0[k] == pre1[k]);
                        }
                    }
                }
                let a2 = prefix.insert(e.0).intersect(w0.live());
                if existed {
                    assert(a2 =~= a.insert(e.0));
                    lemma_cleared_all_step(&w0, &w1, self, a, e.0);
                } else {
                    assert(a2 =~= a);
                }
                assert(self.live() =~= w0.live().difference(prefix.insert(e.0)));
            }
            i = i + 1;
        }
        proof {
            assert(es@.subrange(0, es@.len() as int) =~= es@);
        }
    }

    fn clear_components(&mut self, e: u64)
        ensures
            final(self).cleared_from(old(self), e),
            final(self).live() == old(self).live(),
            final(self).next_id() == old(self).next_id(),
    {
        self.frames.remove(&e);
        self.rotations.remove(&e);
        self.order.remove(&e);
        self.parent.remove(&e);
        self.names.remove(&e);
        self.groups.remove(&e);
        self.fills.remove(&e);
        self.strokes.remove(&e);
        self.opacity.remove(&e);
        self.geometries.remove(&e);
        self.texts.remove(&e);
        self.slide_info.remove(&e);
        self.layout_info.remove(&e);
        self.master_info.remove(&e);
        self.backgrounds.remove(&e);
        self.speaker_notes.remove(&e);
        self.placeholders.remove(&e);
        self.pictures.remove(&e);
        self.timelines.remove(&e);
        self.transitions.remove(&e);
        self.morph_keys.remove(&e);
    }

    /// Set a component on `e`, returning the previous value of that kind if present.
    pub fn set(&mut self, e: Entity, v: CompValue) -> (prev: Option<CompValue>)
        ensures
            final(self).comp(e.0, v.spec_kind()) == Some(v@),
            final(self).same_except(old(self), e.0, v.spec_kind()),
            prev matches Some(p) ==> p.spec_kind() == v.spec_kind(),
            old(self).comp(e.0, v.spec_kind()) == match prev {
                Some(p) => Some(p@),
                None => None::<CompView>,
            },
    {
        let id = e.0;
        match v {
            CompValue::Frame(val) => match self.frames.insert(id, val) {
                Some(p) => Some(CompValue::Frame(p)),
                None => None,
            },
            CompValue::Rotation(val) => match self.rotations.insert(id, val) {
                Some(p) => Some(CompValue::Rotation(p)),
                None => None,
            },
            CompValue::Order(val) => match self.order.insert(id, val) {
                Some(p) => Some(CompValue::Order(p)),
                None => None,
            },
            CompValue::Parent(val) => match self.parent.insert(id, val) {
                Some(p) => Some(CompValue::Parent(p)),
                None => None,
            },
            CompValue::Name(val) => match self.names.insert(id, val) {
                Some(p) => Some(CompValue::Name(p)),
                None => None,
            },
            CompValue::Group(val) => match self.groups.insert(id, val) {
                Some(p) => Some(CompValue::Group(p)),
                None => None,
            },
            CompValue::Fill(val) => match self.fills.insert(id, val) {
                Some(p) => Some(CompValue::Fill(p)),
                None => None,
            },
            CompValue::Stroke(val) => match self.strokes.insert(id, val) {
                Some(p) => Some(CompValue::Stroke(p)),
                None => None,
            },
            CompValue::Opacity(val) => match self.opacity.insert(id, val) {
                Some(p) => Some(CompValue::Opacity(p)),
                None => None,
            },
            CompValue::Geometry(val) => match self.geometries.insert(id, val) {
                Some(p) => Some(CompValue::Geometry(p)),
                None => None,
            },
            CompValue::Text(val) => match self.texts.insert(id, val) {
                Some(p) => Some(CompValue::Text(p)),
                None => None,
            },
            CompValue::Slide(val) => match self.slide_info.insert(id, val) {
                Some(p) => Some(CompValue::Slide(p)),
                None => None,
            },
            CompValue::Layout(val) => match self.layout_info.insert(id, val) {
                Some(p) => Some(CompValue::Layout(p)),
                None => None,
            },
            CompValue::Master(val) => match self.master_info.insert(id, val) {
                Some(p) => Some(CompValue::Master(p)),
                None => None,
            },
            CompValue::Background(val) => match self.backgrounds.insert(id, val) {
                Some(p) => Some(CompValue::Background(p)),
                None => None,
            },
            CompValue::Notes(val) => match self.speaker_notes.insert(id, val) {
                Some(p) => Some(CompValue::Notes(p)),
                None => None,
            },
            CompValue::Placeholder(val) => match self.placeholders.insert(id, val) {
                Some(p) => Some(CompValue::Placeholder(p)),
                None => None,
            },
            CompValue::Picture(val) => match self.pictures.insert(id, val) {
                Some(p) => Some(CompValue::Picture(p)),
                None => None,
            },
            CompValue::Timeline(val) => match self.timelines.insert(id, val) {
                Some(p) => Some(CompValue::Timeline(p)),
                None => None,
            },
            CompValue::Transition(val) => match self.transitions.insert(id, val) {
                Some(p) => Some(CompValue::Transition(p)),
                None => None,
            },
            CompValue::MorphKey(val) => match self.morph_keys.insert(id, val) {
                Some(p) => Some(CompValue::MorphKey(p)),
                None => None,
            },
        }
    }

    /// Remove the component of `kind` from `e`, returning the previous value if present.
    pub fn remove(&mut self, e: Entity, kind: CompKind) -> (prev: Option<CompValue>)
        ensures
            final(self).comp(e.0, kind) is None,
            final(self).same_except(old(self), e.0, kind),
            prev matches Some(p) ==> p.spec_kind() == kind,
            old(self).comp(e.0, kind) == match prev {
                Some(p) => Some(p@),
                None => None::<CompView>,
            },
    {
        let id = e.0;
        match kind {
            CompKind::Frame => match self.frames.remove(&id) {
                Some(p) => Some(CompValue::Frame(p)),
                None => None,
            },
            CompKind::Rotation => match self.rotations.remove(&id) {
                Some(p) => Some(CompValue::Rotation(p)),
                None => None,
            },
            CompKind::Order => match self.order.remove(&id) {
                Some(p) => Some(CompValue::Order(p)),
                None => None,
            },
            CompKind::Parent => match self.parent.remove(&id) {
                Some(p) => Some(CompValue::Parent(p)),
                None => None,
            },
            CompKind::Name => match self.names.remove(&id) {
                Some(p) => Some(CompValue::Name(p)),
                None => None,
            },
            CompKind::Group => match self.groups.remove(&id) {
                Some(p) => Some(CompValue::Group(p)),
                None => None,
            },
            CompKind::Fill => match self.fills.remove(&id) {
                Some(p) => Some(CompValue::Fill(p)),
                None => None,
            },
            CompKind::Stroke => match self.strokes.remove(&id) {
                Some(p) => Some(CompValue::Stroke(p)),
                None => None,
            },
            CompKind::Opacity => match self.opacity.remove(&id) {
                Some(p) => Some(CompValue::Opacity(p)),
                None => None,
            },
            CompKind::Geometry => match self.geometries.remove(&id) {
                Some(p) => Some(CompValue::Geometry(p)),
                None => None,
            },
            CompKind::Text => match self.texts.remove(&id) {
                Some(p) => Some(CompValue::Text(p)),
                None => None,
            },
            CompKind::Slide => match self.slide_info.remove(&id) {
                Some(p) => Some(CompValue::Slide(p)),
                None => None,
            },
            CompKind::Layout => match self.layout_info.remove(&id) {
                Some(p) => Some(CompValue::Layout(p)),
                None => None,
            },
            CompKind::Master => match self.master_info.remove(&id) {
                Some(p) => Some(CompValue::Master(p)),
                None => None,
            },
            CompKind::Background => match self.backgrounds.remove(&id) {
                Some(p) => Some(CompValue::Background(p)),
                None => None,
            },
            CompKind::Notes => match self.speaker_notes.remove(&id) {
                Some(p) => Some(CompValue::Notes(p)),
                None => None,
            },
            CompKind::Placeholder => match self.placeholders.remove(&id) {
                Some(p) => Some(CompValue::Placeholder(p)),
                None => None,
            },
            CompKind::Picture => match self.pictures.remove(&id) {
                Some(p) => Some(CompValue::Picture(p)),
                None => None,
            },
            CompKind::Timeline => match self.timelines.remove(&id) {
                Some(p) => Some(CompValue::Timeline(p)),
                None => None,
            },
            CompKind::Transition => match self.transitions.remove(&id) {
                Some(p) => Some(CompValue::Transition(p)),
                None => None,
            },
            CompKind::MorphKey => match self.morph_keys.remove(&id) {
                Some(p) => Some(CompValue::MorphKey(p)),
                None => None,
            },
        }
    }

    /// Read (a copy of) the component of `kind` on `e`.
    pub fn get(&self, e: Entity, kind: CompKind) -> (r: Option<CompValue>)
        ensures
            r matches Some(v) ==> v.spec_kind() == kind,
            self.comp(e.0, kind) == match r {
                Some(v) => Some(v@),
                None => None::<CompView>,
            },
    {
        let id = e.0;
        match kind {
            CompKind::Frame => match self.frames.get(&id) {
                Some(x) => Some(CompValue::Frame(*x)),
                None => None,
            },
            CompKind::Rotation => match self.rotations.get(&id) {
                Some(x) => Some(CompValue::Rotation(*x)),
                None => None,
            },
            CompKind::Order => match self.order.get(&id) {
                Some(x) => Some(CompValue::Order(x.duplicate())),
                None => None,
            },
            CompKind::Parent => match self.parent.get(&id) {
                Some(x) => Some(CompValue::Parent(*x)),
                None => None,
            },
            CompKind::Name => match self.names.get(&id) {
                Some(x) => Some(CompValue::Name(x.clone())),
                None => None,
            },
            CompKind::Group => match self.groups.get(&id) {
                Some(x) => Some(CompValue::Group(*x)),
                None => None,
            },
            CompKind::Fill => match self.fills.get(&id) {
                Some(x) => Some(CompValue::Fill(*x)),
                None => None,
            },
            CompKind::Stroke => match self.strokes.get(&id) {
                Some(x) => Some(CompValue::Stroke(x.duplicate())),
                None => None,
            },
            CompKind::Opacity => match self.opacity.get(&id) {
                Some(x) => Some(CompValue::Opacity(*x)),
                None => None,
            },
            CompKind::Geometry => match self.geometries.get(&id) {
                Some(x) => Some(CompValue::Geometry(*x)),
                None => None,
            },
            CompKind::Text => match self.texts.get(&id) {
                Some(x) => Some(CompValue::Text(x.duplicate())),
                None => None,
            },
            CompKind::Slide => match self.slide_info.get(&id) {
                Some(x) => Some(CompValue::Slide(*x)),
                None => None,
            },
            CompKind::Layout => match self.layout_info.get(&id) {
                Some(x) => Some(CompValue::Layout(x.duplicate())),
                None => None,
            },
            CompKind::Master => match self.master_info.get(&id) {
                Some(x) => Some(CompValue::Master(x.duplicate())),
                None => None,
            },
            CompKind::Background => match self.backgrounds.get(&id) {
                Some(x) => Some(CompValue::Background(*x)),
                None => None,
            },
            CompKind::Notes => match self.speaker_notes.get(&id) {
                Some(x) => Some(CompValue::Notes(x.clone())),
                None => None,
            },
            CompKind::Placeholder => match self.placeholders.get(&id) {
                Some(x) => Some(CompValue::Placeholder(*x)),
                None => None,
            },
            CompKind::Picture => match self.pictures.get(&id) {
                Some(x) => Some(CompValue::Picture(x.duplicate())),
                None => None,
            },
            CompKind::Timeline => match self.timelines.get(&id) {
                Some(x) => Some(CompValue::Timeline(x.duplicate())),
                None => None,
            },
            CompKind::Transition => match self.transitions.get(&id) {
                Some(x) => Some(CompValue::Transition(*x)),
                None => None,
            },
            CompKind::MorphKey => match self.morph_keys.get(&id) {
                Some(x) => Some(CompValue::MorphKey(x.clone())),
                None => None,
            },
        }
    }

    /// The component kinds in column order.
    pub open spec fn all_kinds() -> Seq<CompKind> {
        seq![CompKind::Frame, CompKind::Rotation, CompKind::Order, CompKind::Parent, CompKind::Name, CompKind::Group, CompKind::Fill, CompKind::Stroke, CompKind::Opacity, CompKind::Geometry, CompKind::Text, CompKind::Slide, CompKind::Layout, CompKind::Master, CompKind::Background, CompKind::Notes, CompKind::Placeholder, CompKind::Picture, CompKind::Timeline, CompKind::Transition, CompKind::MorphKey]
    }

    /// The components on `e` among the first `n` kinds, in column order.
    pub open spec fn comps_upto(&self, e: u64, n: nat) -> Seq<CompView>
        decreases n,
    {
        if n == 0 {
            Seq::empty()
        } else {
            let prev = self.comps_upto(e, (n - 1) as nat);
            match self.comp(e, Self::all_kinds()[n - 1]) {
                Some(v) => prev.push(v),
                None => prev,
            }
        }
    }

    /// The `i`-th kind in column order.
    pub fn kind_at(i: usize) -> (k: CompKind)
        requires
            i < 21,
        ensures
            k == Self::all_kinds()[i as int],
    {
        match i {
            0 => CompKind::Frame,
            1 => CompKind::Rotation,
            2 => CompKind::Order,
            3 => CompKind::Parent,
            4 => CompKind::Name,
            5 => CompKind::Group,
            6 => CompKind::Fill,
            7 => CompKind::Stroke,
            8 => CompKind::Opacity,
            9 => CompKind::Geometry,
            10 => CompKind::Text,
            11 => CompKind::Slide,
            12 => CompKind::Layout,
            13 => CompKind::Master,
            14 => CompKind::Background,
            15 => CompKind::Notes,
            16 => CompKind::Placeholder,
            17 => CompKind::Picture,
            18 => CompKind::Timeline,
            19 => CompKind::Transition,
            _ => CompKind::MorphKey,
        }
    }

    /// Every component attached to `e`, in column order (used to build the inverse of a
    /// despawn and to persist an entity).
    pub fn components_of(&self, e: Entity) -> (out: Vec<CompValue>)
        ensures
            out@.map_values(|c: CompValue| c@) == self.comps_upto(e.0, 21),
    {
        let mut out: Vec<CompValue> = Vec::new();
        let mut i: usize = 0;
        while i < 21
            invariant
                i <= 21,
                out@.map_values(|c: CompValue| c@) == self.comps_upto(e.0, i as nat),
            decreases 21 - i,
        {
            let k = Self::kind_at(i);
            let ghost before = out@;
            match self.get(e, k) {
                Some(x) => out.push(x),
                None => {},
            }
            assert(out@.map_values(|c: CompValue| c@) =~= self.comps_upto(e.0, (i + 1) as nat));
            i = i + 1;
        }
        out
    }
}

/// The ids of the entities listed in `s`.
pub open spec fn ids_of(s: Seq<Entity>) -> Set<u64> {
    Set::new(|id: u64| exists|i: int| 0 <= i < s.len() && s[i].0 == id)
}

proof fn lemma_remove_keys_step<V>(m: Map<u64, V>, a: Set<u64>, e: u64)
    ensures
        m.remove_keys(a).remove(e) == m.remove_keys(a.insert(e)),
{
    assert(m.remove_keys(a).remove(e) =~= m.remove_keys(a.insert(e)));
}

proof fn lemma_remove_no_keys<V>(m: Map<u64, V>)
    ensures
        m.remove_keys(Set::empty()) == m,
{
    assert(m.remove_keys(Set::empty()) =~= m);
}

/// A world is itself with nothing cleared.
proof fn lemma_cleared_none(w: &World)
    ensures
        w.cleared_all(w, Set::empty()),
{
    lemma_remove_no_keys(w.frames@);
    lemma_remove_no_keys(w.rotations@);
    lemma_remove_no_keys(w.order@);
    lemma_remove_no_keys(w.parent@);
    lemma_remove_no_keys(w.names@);
    lemma_remove_no_keys(w.groups@);
    lemma_remove_no_keys(w.fills@);
    lemma_remove_no_keys(w.strokes@);
    lemma_remove_no_keys(w.opacity@);
    lemma_remove_no_keys(w.geometries@);
    lemma_remove_no_keys(w.texts@);
    lemma_remove_no_keys(w.slide_info@);
    lemma_remove_no_keys(w.layout_info@);
    lemma_remove_no_keys(w.master_info@);
    lemma_remove_no_keys(w.backgrounds@);
    lemma_remove_no_keys(w.speaker_notes@);
    lemma_remove_no_keys(w.placeholders@);
    lemma_remove_no_keys(w.pictures@);
    lemma_remove_no_keys(w.timelines@);
    lemma_remove_no_keys(w.transitions@);
    lemma_remove_no_keys(w.morph_keys@);
}

proof fn lemma_map_agree_off<V>(m1: Map<u64, V>, m2: Map<u64, V>, e: u64, x: u64)
    requires
        m1.remove(e) == m2.remove(e),
        x != e,
    ensures
        m1.contains_key(x) == m2.contains_key(x),
        m1.contains_key(x) ==> m1[x] == m2[x],
{
    assert(m1.remove(e).contains_key(x) == m1.contains_key(x));
    assert(m2.remove(e).contains_key(x) == m2.contains_key(x));
    if m1.contains_key(x) {
        assert(m1.remove(e)[x] == m1[x]);
        assert(m2.remove(e)[x] == m2[x]);
    }
}

/// Worlds whose columns agree except for the columns `kinds` at `e` hold the same
/// components everywhere else.
pub proof fn lemma_agree_except_comp(w1: &World, w2: &World, e: u64, kinds: Set<CompKind>)
    requires
        w1.columns_agree_except(w2, e, kinds),
    ensures
        forall|x: u64, k: CompKind| (x != e || !kinds.contains(k)) ==> #[trigger] w1.comp(x, k) == w2.comp(x, k),
{
    assert forall|x: u64, k: CompKind| (x != e || !kinds.contains(k)) implies #[trigger] w1.comp(x, k) == w2.comp(x, k) by {
        if x != e {
            lemma_map_agree_off(w1.frames@, w2.frames@, e, x);
            lemma_map_agree_off(w1.rotations@, w2.rotations@, e, x);
            lemma_map_agree_off(w1.order@, w2.order@, e, x);
            lemma_map_agree_off(w1.parent@, w2.parent@, e, x);
            lemma_map_agree_off(w1.names@, w2.names@, e, x);
            lemma_map_agree_off(w1.groups@, w2.groups@, e, x);
            lemma_map_agree_off(w1.fills@, w2.fills@, e, x);
            lemma_map_agree_off(w1.strokes@, w2.strokes@, e, x);
            lemma_map_agree_off(w1.opacity@, w2.opacity@, e, x);
            lemma_map_agree_off(w1.geometries@, w2.geometries@, e, x);
            lemma_map_agree_off(w1.texts@, w2.texts@, e, x);
            lemma_map_agree_off(w1.slide_info@, w2.slide_info@, e, x);
            lemma_map_agree_off(w1.layout_info@, w2.layout_info@, e, x);
            lemma_map_agree_off(w1.master_info@, w2.master_info@, e, x);
            lemma_map_agree_off(w1.backgrounds@, w2.backgrounds@, e, x);
            lemma_map_agree_off(w1.speaker_notes@, w2.speaker_notes@, e, x);
            lemma_map_agree_off(w1.placeholders@, w2.placeholders@, e, x);
            lemma_map_agree_off(w1.pictures@, w2.pictures@, e, x);
            lemma_map_agree_off(w1.timelines@, w2.timelines@, e, x);
            lemma_map_agree_off(w1.transitions@, w2.transitions@, e, x);
            lemma_map_agree_off(w1.morph_keys@, w2.morph_keys@, e, x);
        }
    }
}

/// Clearing one more entity from a world cleared of `a` clears `a` and that entity.
proof fn lemma_cleared_all_step(w0: &World, w1: &World, w2: &World, a: Set<u64>, e: u64)
    requires
        w1.cleared_all(w0, a),
        w2.cleared_from(w1, e),
    ensures
        w2.cleared_all(w0, a.insert(e)),
{
    lemma_remove_keys_step(w0.frames@, a, e);
    lemma_remove_keys_step(w0.rotations@, a, e);
    lemma_remove_keys_step(w0.order@, a, e);
    lemma_remove_keys_step(w0.parent@, a, e);
    lemma_remove_keys_step(w0.names@, a, e);
    lemma_remove_keys_step(w0.groups@, a, e);
    lemma_remove_keys_step(w0.fills@, a, e);
    lemma_remove_keys_step(w0.strokes@, a, e);
    lemma_remove_keys_step(w0.opacity@, a, e);
    lemma_remove_keys_step(w0.geometries@, a, e);
    lemma_remove_keys_step(w0.texts@, a, e);
    lemma_remove_keys_step(w0.slide_info@, a, e);
    lemma_remove_keys_step(w0.layout_info@, a, e);
    lemma_remove_keys_step(w0.master_info@, a, e);
    lemma_remove_keys_step(w0.backgrounds@, a, e);
    lemma_remove_keys_step(w0.speaker_notes@, a, e);
    lemma_remove_keys_step(w0.placeholders@, a, e);
    lemma_remove_keys_step(w0.pictures@, a, e);
    lemma_remove_keys_step(w0.timelines@, a, e);
    lemma_remove_keys_step(w0.transitions@, a, e);
    lemma_remove_keys_step(w0.morph_keys@, a, e);
}

} // verus!
