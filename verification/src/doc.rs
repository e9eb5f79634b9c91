//! Structural components of the master/layout/slide hierarchy: a slide, layout or master
//! is an entity carrying the matching component.

use vstd::prelude::*;
use crate::theme::{Theme, ThemeView};
use crate::world::Entity;

verus! {

/// Marks an entity as a slide; references the layout it is based on.
#[derive(Clone, Copy, Debug, PartialEq, Eq, Structural)]
pub struct SlideInfo {
    pub layout: Entity,
}

/// Marks an entity as a layout; references its master.
#[derive(Clone, Debug, PartialEq, Eq)]
pub struct LayoutInfo {
    pub master: Entity,
    pub name: String,
}

/// Marks an entity as a master; holds its theme.
#[derive(Clone, Debug, PartialEq, Eq)]
pub struct MasterInfo {
    pub theme: Theme,
}

pub struct LayoutInfoView {
    pub master: Entity,
    pub name: Seq<char>,
}

impl View for LayoutInfo {
    type V = LayoutInfoView;

    open spec fn view(&self) -> LayoutInfoView {
        LayoutInfoView { master: self.master, name: self.name@ }
    }
}

impl LayoutInfo {
    /// A copy of this component.
    pub fn duplicate(&self) -> (r: LayoutInfo)
        ensures
            r@ == self@,
    {
        LayoutInfo { master: self.master, name: self.name.clone() }
    }
}

impl View for MasterInfo {
    type V = ThemeView;

    open spec fn view(&self) -> ThemeView {
        self.theme@
    }
}

impl MasterInfo {
    /// A copy of this component.
    pub fn duplicate(&self) -> (r: MasterInfo)
        ensures
            r@ == self@,
    {
        MasterInfo { theme: self.theme.duplicate() }
    }
}

/// Placeholder kinds, in the order placeholders are listed.
#[derive(Clone, Copy, Debug, PartialEq, Eq, PartialOrd, Ord, Structural)]
pub enum PlaceholderType {
    Title,
    CenteredTitle,
    Subtitle,
    Body,
    Picture,
    Chart,
    Table,
    Date,
    Footer,
    SlideNumber,
}

/// The position of a placeholder kind in declaration order (the order of the derived
/// `Ord`).
pub open spec fn spec_ph_rank(t: PlaceholderType) -> u8 {
    match t {
        PlaceholderType::Title => 0,
        PlaceholderType::CenteredTitle => 1,
        PlaceholderType::Subtitle => 2,
        PlaceholderType::Body => 3,
        PlaceholderType::Picture => 4,
        PlaceholderType::Chart => 5,
        PlaceholderType::Table => 6,
        PlaceholderType::Date => 7,
        PlaceholderType::Footer => 8,
        PlaceholderType::SlideNumber => 9,
    }
}

pub fn ph_rank(t: PlaceholderType) -> (r: u8)
    ensures
        r == spec_ph_rank(t),
{
    match t {
        PlaceholderType::Title => 0,
        PlaceholderType::CenteredTitle => 1,
        PlaceholderType::Subtitle => 2,
        PlaceholderType::Body => 3,
        PlaceholderType::Picture => 4,
        PlaceholderType::Chart => 5,
        PlaceholderType::Table => 6,
        PlaceholderType::Date => 7,
        PlaceholderType::Footer => 8,
        PlaceholderType::SlideNumber => 9,
    }
}

/// The label a placeholder kind is shown under.
pub open spec fn ph_type_name_spec(t: PlaceholderType) -> Seq<char> {
    match t {
        PlaceholderType::Title => "Title"@,
        PlaceholderType::CenteredTitle => "Title"@,
        PlaceholderType::Subtitle => "Subtitle"@,
        PlaceholderType::Body => "Body"@,
        PlaceholderType::Picture => "Picture"@,
        PlaceholderType::Chart => "Chart"@,
        PlaceholderType::Table => "Table"@,
        PlaceholderType::Date => "Date"@,
        PlaceholderType::Footer => "Footer"@,
        PlaceholderType::SlideNumber => "Slide #"@,
    }
}

/// A human label for a placeholder kind; a centred title is a title too.
pub fn ph_type_name(t: PlaceholderType) -> (r: &'static str)
    ensures
        r@ == ph_type_name_spec(t),
{
    match t {
        PlaceholderType::Title => "Title",
        PlaceholderType::CenteredTitle => "Title",
        PlaceholderType::Subtitle => "Subtitle",
        PlaceholderType::Body => "Body",
        PlaceholderType::Picture => "Picture",
        PlaceholderType::Chart => "Chart",
        PlaceholderType::Table => "Table",
        PlaceholderType::Date => "Date",
        PlaceholderType::Footer => "Footer",
        PlaceholderType::SlideNumber => "Slide #",
    }
}

/// Links a shape to the placeholder it inherits from by (type, index).
#[derive(Clone, Copy, Debug, PartialEq, Eq, Structural)]
pub struct PlaceholderRef {
    pub ph_type: PlaceholderType,
    pub idx: u32,
}

/// Placeholder order: by kind (in declaration order), then by index.
pub open spec fn ph_lt(a: PlaceholderRef, b: PlaceholderRef) -> bool {
    spec_ph_rank(a.ph_type) < spec_ph_rank(b.ph_type) || (a.ph_type == b.ph_type && a.idx < b.idx)
}

pub proof fn lemma_ph_rank_injective(a: PlaceholderType, b: PlaceholderType)
    ensures
        spec_ph_rank(a) == spec_ph_rank(b) ==> a == b,
{
}

/// Whether `a` sorts before `b`.
pub fn ph_less(a: PlaceholderRef, b: PlaceholderRef) -> (r: bool)
    ensures
        r == ph_lt(a, b),
{
    let ra = ph_rank(a.ph_type);
    let rb = ph_rank(b.ph_type);
    proof {
        lemma_ph_rank_injective(a.ph_type, b.ph_type);
    }
    ra < rb || (ra == rb && a.idx < b.idx)
}

} // verus!
