//! The built-in command catalogue: each command turns typed arguments (and the current
//! document) into the operations to apply, and running a command wraps them into one
//! transaction labelled with the command's title (one undo step).

use vstd::prelude::*;
use vstd::string::StringSliceAdditionalSpecFns;
use crate::color::{Color, Rgba, ThemeColorToken};
use crate::commands::{
    Command, CommandMeta, CommandRegistry, ParamSpec, ParamType, last_with_id, parse_hex,
    parse_hex_spec,
};
use crate::frac::{frac_lt, lex_lt};
use crate::paint::Fill;
use crate::presentation::key_of;
use crate::reorder::{anchor, edge_key, is_sibling, law_edge_key_beyond_siblings, reorder_to_edge, Edge};
use crate::text::{HAlign, TextBody, TextBodyView};
use crate::textcmd::{
    aligned_body, edited_body, no_xf, set_text_spec, text_command, text_of, toggle_target, RunAttr,
    RunEditView, TextCommand,
};
use crate::units::EMU_PER_PT;
use crate::world::{CompValue, CompView, Entity, World};

verus! {

/// An argument value.
pub enum ArgValue {
    Int(i64),
    Str(String),
    Bool(bool),
    /// An object of integer fields, such as a colour `{ r, g, b, a }`.
    Ints(Vec<(String, i64)>),
}

pub enum ArgView {
    Int(i64),
    Str(Seq<char>),
    Bool(bool),
    Ints(Seq<(Seq<char>, i64)>),
}

impl View for ArgValue {
    type V = ArgView;

    open spec fn view(&self) -> ArgView {
        match self {
            ArgValue::Int(n) => ArgView::Int(*n),
            ArgValue::Str(s) => ArgView::Str(s@),
            ArgValue::Bool(b) => ArgView::Bool(*b),
            ArgValue::Ints(f) => ArgView::Ints(f@.map_values(|p: (String, i64)| (p.0@, p.1))),
        }
    }
}

/// The named arguments of a command call; a name given twice counts once, first.
pub struct Args {
    pub entries: Vec<(String, ArgValue)>,
}

impl View for Args {
    type V = Seq<(Seq<char>, ArgView)>;

    open spec fn view(&self) -> Seq<(Seq<char>, ArgView)> {
        self.entries@.map_values(|e: (String, ArgValue)| (e.0@, e.1@))
    }
}

/// The value of the first argument named `key`.
pub open spec fn arg_get(args: Seq<(Seq<char>, ArgView)>, key: Seq<char>) -> Option<ArgView>
    decreases args.len(),
{
    if args.len() == 0 {
        None
    } else if args[0].0 == key {
        Some(args[0].1)
    } else {
        arg_get(args.drop_first(), key)
    }
}

/// An entity argument: a non-negative integer id.
pub open spec fn entity_arg(args: Seq<(Seq<char>, ArgView)>, key: Seq<char>) -> Option<Entity> {
    match arg_get(args, key) {
        Some(ArgView::Int(n)) => if n >= 0 {
            Some(Entity(n as u64))
        } else {
            None
        },
        _ => None,
    }
}

/// An integer argument.
pub open spec fn int_arg(args: Seq<(Seq<char>, ArgView)>, key: Seq<char>) -> Option<i64> {
    match arg_get(args, key) {
        Some(ArgView::Int(n)) => Some(n),
        _ => None,
    }
}

/// A text argument.
pub open spec fn str_arg(args: Seq<(Seq<char>, ArgView)>, key: Seq<char>) -> Option<Seq<char>> {
    match arg_get(args, key) {
        Some(ArgView::Str(s)) => Some(s),
        _ => None,
    }
}

/// The first field named `key` of an integer object.
pub open spec fn field_get(fs: Seq<(Seq<char>, i64)>, key: Seq<char>) -> Option<i64>
    decreases fs.len(),
{
    if fs.len() == 0 {
        None
    } else if fs[0].0 == key {
        Some(fs[0].1)
    } else {
        field_get(fs.drop_first(), key)
    }
}

/// A colour channel of an object: a non-negative integer, taken modulo 256.
pub open spec fn channel(fs: Seq<(Seq<char>, i64)>, key: Seq<char>) -> Option<u8> {
    match field_get(fs, key) {
        Some(n) => if n >= 0 {
            Some((n % 256) as u8)
        } else {
            None
        },
        None => None,
    }
}

/// A colour argument: `#rrggbb` or `#rrggbbaa` text (`#` optional), or an object with
/// channels `r`, `g`, `b` and an optional `a` (255 when absent).
pub open spec fn color_arg(args: Seq<(Seq<char>, ArgView)>, key: Seq<char>) -> Option<Rgba> {
    match arg_get(args, key) {
        Some(ArgView::Str(s)) => parse_hex_spec(vstd::utf8::encode_utf8(s)),
        Some(ArgView::Ints(fs)) => match (channel(fs, "r"@), channel(fs, "g"@), channel(fs, "b"@)) {
            (Some(r), Some(g), Some(b)) => Some(Rgba {
                r,
                g,
                b,
                a: match channel(fs, "a"@) {
                    Some(a) => a,
                    None => 255,
                },
            }),
            _ => None,
        },
        _ => None,
    }
}

/// A reversible edit of the document.
pub enum Operation {
    /// Remove the entity and its components.
    Despawn { entity: Entity },
    /// Set one component of the entity.
    SetComponent { entity: Entity, value: CompValue },
}

pub enum OpView {
    Despawn(Entity),
    SetComponent(Entity, CompView),
}

impl View for Operation {
    type V = OpView;

    open spec fn view(&self) -> OpView {
        match self {
            Operation::Despawn { entity } => OpView::Despawn(*entity),
            Operation::SetComponent { entity, value } => OpView::SetComponent(*entity, value@),
        }
    }
}

pub open spec fn ops_view(ops: Seq<Operation>) -> Seq<OpView> {
    ops.map_values(|o: Operation| o@)
}

/// The operations of one command, as one undo step labelled with the command's title.
pub struct Transaction {
    pub label: String,
    pub ops: Vec<Operation>,
}

/// What a built-in command does.
#[derive(Clone, Copy, Debug, PartialEq, Eq, Structural)]
pub enum Builtin {
    /// Despawn `entity`.
    Delete,
    /// Fill `entity` with the literal colour `color` (`#rrggbb` or `#rrggbbaa`).
    SetFill,
    /// Move `entity` to the front or back of its siblings.
    Reorder(Edge),
    /// Set `entity`'s rotation back to zero.
    ResetRotation,
    /// Fill `entity` with a theme colour.
    FillTheme(ThemeColorToken),
    /// Fill `entity` with a literal colour.
    FillLiteral(Rgba),
    /// Set `entity`'s text to `text`.
    SetText,
    /// Set every run of `entity`'s text to `pt` points (at least one).
    SetFontSize,
    /// Set every run of `entity`'s text to the font `family`.
    SetFont,
    /// Flip an attribute across `entity`'s text.
    Toggle(RunAttr),
    /// Align every paragraph of `entity`'s text.
    AlignText(HAlign),
}

/// Setting a component.
pub open spec fn set_op(e: Entity, v: CompView) -> Seq<OpView> {
    seq![OpView::SetComponent(e, v)]
}

/// The text body a text command sets on `e`, as operations (none without text to format).
pub open spec fn text_ops(e: Entity, b: Option<TextBodyView>) -> Seq<OpView> {
    match b {
        Some(t) => set_op(e, CompView::Text(t)),
        None => Seq::empty(),
    }
}

/// The operations a built-in command gives for `args` over world `w`. A missing or ill-typed
/// argument gives none.
pub open spec fn handler_ops(h: Builtin, args: Seq<(Seq<char>, ArgView)>, w: &World) -> Seq<OpView> {
    match entity_arg(args, "entity"@) {
        None => Seq::empty(),
        Some(e) => match h {
            Builtin::Delete => seq![OpView::Despawn(e)],
            Builtin::SetFill => match color_arg(args, "color"@) {
                Some(c) => set_op(e, CompView::Fill(Fill::Solid(Color::Literal(c)))),
                None => Seq::empty(),
            },
            Builtin::Reorder(edge) => if w.live().contains(e.0) {
                set_op(e, CompView::Order(edge_key(w, e.0, edge)))
            } else {
                Seq::empty()
            },
            Builtin::ResetRotation => set_op(e, CompView::Rotation(0)),
            Builtin::FillTheme(t) => set_op(e, CompView::Fill(Fill::Solid(Color::Theme { token: t, xf: no_xf() }))),
            Builtin::FillLiteral(c) => set_op(e, CompView::Fill(Fill::Solid(Color::Literal(c)))),
            Builtin::SetText => match str_arg(args, "text"@) {
                Some(t) => set_op(e, CompView::Text(set_text_spec(text_of(w, e.0), t))),
                None => Seq::empty(),
            },
            Builtin::SetFontSize => match int_arg(args, "pt"@) {
                Some(p) => text_ops(
                    e,
                    match text_of(w, e.0) {
                        Some(b) => Some(edited_body(RunEditView::Size(((if p < 1 { 1 } else { p }) * EMU_PER_PT) as i64), b)),
                        None => None,
                    },
                ),
                None => Seq::empty(),
            },
            Builtin::SetFont => match str_arg(args, "family"@) {
                Some(f) => text_ops(
                    e,
                    match text_of(w, e.0) {
                        Some(b) => Some(edited_body(RunEditView::Family(f), b)),
                        None => None,
                    },
                ),
                None => Seq::empty(),
            },
            Builtin::Toggle(a) => text_ops(
                e,
                match text_of(w, e.0) {
                    Some(b) => Some(edited_body(RunEditView::Attr(a, toggle_target(a, b)), b)),
                    None => None,
                },
            ),
            Builtin::AlignText(al) => text_ops(
                e,
                match text_of(w, e.0) {
                    Some(b) => Some(aligned_body(al, b)),
                    None => None,
                },
            ),
        },
    }
}

/// The inputs on which a built-in command stays within its limits: a font size whose EMU
/// value fits an `i64`, and for the back, an anchor key above zero (no key lies below
/// zero).
pub open spec fn handler_ok(h: Builtin, args: Seq<(Seq<char>, ArgView)>, w: &World) -> bool {
    match entity_arg(args, "entity"@) {
        None => true,
        Some(e) => match h {
            Builtin::SetFontSize => match int_arg(args, "pt"@) {
                Some(p) => text_of(w, e.0) is Some ==> p * EMU_PER_PT <= i64::MAX,
                None => true,
            },
            Builtin::Reorder(edge) => w.live().contains(e.0) && edge == Edge::Back ==> (anchor(w, e.0, edge) matches Some(a)
                ==> frac_lt(Seq::empty(), a)),
            _ => true,
        },
    }
}

/// The first argument named `key`.
fn arg<'a>(args: &'a Args, key: &str) -> (r: Option<&'a ArgValue>)
    ensures
        match r {
            Some(v) => arg_get(args@, key@) == Some(v@),
            None => arg_get(args@, key@) is None,
        },
{
    let mut i: usize = 0;
    assert(args@.skip(0) =~= args@);
    while i < args.entries.len()
        invariant
            i <= args.entries@.len(),
            arg_get(args@, key@) == arg_get(args@.skip(i as int), key@),
        decreases args.entries@.len() - i,
    {
        let ghost rest = args@.skip(i as int);
        assert(rest[0] == (args.entries@[i as int].0@, args.entries@[i as int].1@));
        if crate::strings::str_eq(args.entries[i].0.as_str(), key) {
            return Some(&args.entries[i].1);
        }
        assert(rest.drop_first() =~= args@.skip(i + 1));
        i = i + 1;
    }
    assert(args@.skip(i as int) =~= Seq::<(Seq<char>, ArgView)>::empty());
    None
}

fn entity_of(args: &Args) -> (r: Option<Entity>)
    ensures
        r == entity_arg(args@, "entity"@),
{
    match arg(args, "entity") {
        Some(ArgValue::Int(n)) => if *n >= 0 {
            Some(Entity(*n as u64))
        } else {
            None
        },
        _ => None,
    }
}

fn str_of(args: &Args, key: &str) -> (r: Option<String>)
    ensures
        match r {
            Some(s) => str_arg(args@, key@) == Some(s@),
            None => str_arg(args@, key@) is None,
        },
{
    match arg(args, key) {
        Some(ArgValue::Str(s)) => Some(s.clone()),
        _ => None,
    }
}

fn field(fs: &Vec<(String, i64)>, key: &str) -> (r: Option<i64>)
    ensures
        r == field_get(fs@.map_values(|p: (String, i64)| (p.0@, p.1)), key@),
{
    let ghost v = fs@.map_values(|p: (String, i64)| (p.0@, p.1));
    let mut i: usize = 0;
    assert(v.skip(0) =~= v);
    while i < fs.len()
        invariant
            i <= fs@.len(),
            v == fs@.map_values(|p: (String, i64)| (p.0@, p.1)),
            field_get(v, key@) == field_get(v.skip(i as int), key@),
        decreases fs@.len() - i,
    {
        let ghost rest = v.skip(i as int);
        assert(rest[0] == (fs@[i as int].0@, fs@[i as int].1));
        if crate::strings::str_eq(fs[i].0.as_str(), key) {
            return Some(fs[i].1);
        }
        assert(rest.drop_first() =~= v.skip(i + 1));
        i = i + 1;
    }
    assert(v.skip(i as int) =~= Seq::<(Seq<char>, i64)>::empty());
    None
}

fn channel_of(fs: &Vec<(String, i64)>, key: &str) -> (r: Option<u8>)
    ensures
        r == channel(fs@.map_values(|p: (String, i64)| (p.0@, p.1)), key@),
{
    match field(fs, key) {
        Some(n) => if n >= 0 {
            Some((n % 256) as u8)
        } else {
            None
        },
        None => None,
    }
}

fn color_of(args: &Args, key: &str) -> (r: Option<Rgba>)
    ensures
        r == color_arg(args@, key@),
{
    proof {
        reveal_strlit("r");
        reveal_strlit("g");
        reveal_strlit("b");
        reveal_strlit("a");
    }
    match arg(args, key) {
        Some(ArgValue::Str(s)) => parse_hex(s.as_str()),
        Some(ArgValue::Ints(fs)) => match (channel_of(fs, "r"), channel_of(fs, "g"), channel_of(fs, "b")) {
            (Some(r), Some(g), Some(b)) => {
                let a = match channel_of(fs, "a") {
                    Some(a) => a,
                    None => 255,
                };
                Some(Rgba::rgba(r, g, b, a))
            },
            _ => None,
        },
        _ => None,
    }
}

/// One `SetComponent` operation.
fn set(entity: Entity, value: CompValue) -> (ops: Vec<Operation>)
    ensures
        ops_view(ops@) == set_op(entity, value@),
{
    let ops = vec![Operation::SetComponent { entity, value }];
    assert(ops_view(ops@) =~= set_op(entity, value@));
    ops
}

/// The text operation a text command gives.
fn text_op(entity: Entity, body: Option<TextBody>) -> (ops: Vec<Operation>)
    ensures
        ops_view(ops@) == text_ops(
            entity,
            match body {
                Some(b) => Some(b@),
                None => None,
            },
        ),
{
    match body {
        Some(b) => set(entity, CompValue::Text(b)),
        None => {
            let ops: Vec<Operation> = Vec::new();
            assert(ops_view(ops@) =~= Seq::<OpView>::empty());
            ops
        },
    }
}

/// The operations of a built-in command.
pub fn run_builtin(h: Builtin, args: &Args, w: &World) -> (ops: Vec<Operation>)
    requires
        handler_ok(h, args@, w),
    ensures
        ops_view(ops@) == handler_ops(h, args@, w),
{
    let none: Vec<Operation> = Vec::new();
    assert(ops_view(none@) =~= Seq::<OpView>::empty());
    let e = match entity_of(args) {
        Some(e) => e,
        None => {
            return none;
        },
    };
    proof {
        reveal_strlit("entity");
    }
    match h {
        Builtin::Delete => {
            let ops = vec![Operation::Despawn { entity: e }];
            assert(ops_view(ops@) =~= seq![OpView::Despawn(e)]);
            ops
        },
        Builtin::SetFill => match color_of(args, "color") {
            Some(c) => set(e, CompValue::Fill(Fill::Solid(Color::Literal(c)))),
            None => none,
        },
        Builtin::Reorder(edge) => match reorder_to_edge(w, e, edge) {
            Some(k) => set(e, CompValue::Order(k)),
            None => none,
        },
        Builtin::ResetRotation => set(e, CompValue::Rotation(0)),
        Builtin::FillTheme(t) => set(e, CompValue::Fill(Fill::Solid(Color::theme(t)))),
        Builtin::FillLiteral(c) => set(e, CompValue::Fill(Fill::Solid(Color::Literal(c)))),
        Builtin::SetText => match str_of(args, "text") {
            Some(t) => {
                let b = text_command(w, e, &TextCommand::SetText(t));
                text_op(e, b)
            },
            None => none,
        },
        Builtin::SetFontSize => match arg(args, "pt") {
            Some(ArgValue::Int(p)) => text_op(e, text_command(w, e, &TextCommand::SetFontSize(*p))),
            _ => none,
        },
        Builtin::SetFont => match str_of(args, "family") {
            Some(f) => text_op(e, text_command(w, e, &TextCommand::SetFont(f))),
            None => none,
        },
        Builtin::Toggle(a) => text_op(e, text_command(w, e, &TextCommand::Toggle(a))),
        Builtin::AlignText(al) => text_op(e, text_command(w, e, &TextCommand::Align(al))),
    }
}

/// Run command `id` of `reg`: its operations for `args` over `w`, as one transaction
/// labelled with its title. `None` when no command has that id; the command registered last
/// under it runs.
pub fn build(reg: &CommandRegistry<Builtin>, id: &str, args: &Args, w: &World) -> (r: Option<Transaction>)
    requires
        ({
            let k = last_with_id(reg.spec_commands(), id@, reg.spec_commands().len() as int);
            k >= 0 ==> handler_ok(reg.spec_commands()[k].handler, args@, w)
        }),
    ensures
        ({
            let k = last_with_id(reg.spec_commands(), id@, reg.spec_commands().len() as int);
            &&& r is None <==> k == -1
            &&& r matches Some(tx) ==> tx.label@ == reg.spec_commands()[k].meta.title@
                && ops_view(tx.ops@) == handler_ops(reg.spec_commands()[k].handler, args@, w)
        }),
{
    match reg.find(id) {
        Some(c) => {
            let ops = run_builtin(c.handler, args, w);
            Some(Transaction { label: c.meta.title.clone(), ops })
        },
        None => None,
    }
}

/// A catalogue entry as plain values.
pub struct CatalogEntry {
    pub id: Seq<char>,
    pub title: Seq<char>,
    pub category: Seq<char>,
    pub description: Seq<char>,
    pub params: Seq<(Seq<char>, ParamType)>,
    pub handler: Builtin,
}

/// A registered command as plain values.
pub open spec fn entry_of(c: Command<Builtin>) -> CatalogEntry {
    CatalogEntry {
        id: c.meta.id@,
        title: c.meta.title@,
        category: c.meta.category@,
        description: c.meta.description@,
        params: c.params@.map_values(|p: ParamSpec| (p.name@, p.ty)),
        handler: c.handler,
    }
}

pub open spec fn catalogue(cmds: Seq<Command<Builtin>>) -> Seq<CatalogEntry> {
    cmds.map_values(|c: Command<Builtin>| entry_of(c))
}

/// The built-in commands, in registration order: each takes the target `entity` first.
pub open spec fn builtins_spec() -> Seq<CatalogEntry> {
    seq![
        CatalogEntry { id: "shape.delete"@, title: "Delete Shape"@, category: "Shape"@, description: "Delete the target shape (despawn the entity)."@, params: seq![("entity"@, ParamType::Entity)], handler: Builtin::Delete },
        CatalogEntry { id: "shape.set_fill"@, title: "Set Fill"@, category: "Shape"@, description: "Set the shape fill to a solid color."@, params: seq![("entity"@, ParamType::Entity), ("color"@, ParamType::Color)], handler: Builtin::SetFill },
        CatalogEntry { id: "shape.bring_to_front"@, title: "Bring to Front"@, category: "Shape"@, description: "Move the shape to the front (largest Order) among its siblings."@, params: seq![("entity"@, ParamType::Entity)], handler: Builtin::Reorder(Edge::Front) },
        CatalogEntry { id: "shape.send_to_back"@, title: "Send to Back"@, category: "Shape"@, description: "Move the shape to the back (smallest Order) among its siblings."@, params: seq![("entity"@, ParamType::Entity)], handler: Builtin::Reorder(Edge::Back) },
        CatalogEntry { id: "shape.reset_rotation"@, title: "Reset Rotation"@, category: "Shape"@, description: "Clear any rotation by setting it back to 0 degrees."@, params: seq![("entity"@, ParamType::Entity)], handler: Builtin::ResetRotation },
        CatalogEntry { id: "shape.fill_accent1"@, title: "Fill: Accent 1"@, category: "Style"@, description: "Set the shape fill to theme accent color 1."@, params: seq![("entity"@, ParamType::Entity)], handler: Builtin::FillTheme(ThemeColorToken::Accent1) },
        CatalogEntry { id: "shape.fill_accent2"@, title: "Fill: Accent 2"@, category: "Style"@, description: "Set the shape fill to theme accent color 2."@, params: seq![("entity"@, ParamType::Entity)], handler: Builtin::FillTheme(ThemeColorToken::Accent2) },
        CatalogEntry { id: "shape.fill_accent3"@, title: "Fill: Accent 3"@, category: "Style"@, description: "Set the shape fill to theme accent color 3."@, params: seq![("entity"@, ParamType::Entity)], handler: Builtin::FillTheme(ThemeColorToken::Accent3) },
        CatalogEntry { id: "shape.fill_accent4"@, title: "Fill: Accent 4"@, category: "Style"@, description: "Set the shape fill to theme accent color 4."@, params: seq![("entity"@, ParamType::Entity)], handler: Builtin::FillTheme(ThemeColorToken::Accent4) },
        CatalogEntry { id: "shape.fill_accent5"@, title: "Fill: Accent 5"@, category: "Style"@, description: "Set the shape fill to theme accent color 5."@, params: seq![("entity"@, ParamType::Entity)], handler: Builtin::FillTheme(ThemeColorToken::Accent5) },
        CatalogEntry { id: "shape.fill_accent6"@, title: "Fill: Accent 6"@, category: "Style"@, description: "Set the shape fill to theme accent color 6."@, params: seq![("entity"@, ParamType::Entity)], handler: Builtin::FillTheme(ThemeColorToken::Accent6) },
        CatalogEntry { id: "shape.set_text"@, title: "Set Text"@, category: "Text"@, description: "Set the shape's text to a single string, preserving the first run's formatting."@, params: seq![("entity"@, ParamType::Entity), ("text"@, ParamType::String)], handler: Builtin::SetText },
        CatalogEntry { id: "shape.set_font_size"@, title: "Set Font Size"@, category: "Text"@, description: "Set every run's font size to the given points (minimum 1pt)."@, params: seq![("entity"@, ParamType::Entity), ("pt"@, ParamType::Float)], handler: Builtin::SetFontSize },
        CatalogEntry { id: "shape.set_font"@, title: "Set Font"@, category: "Text"@, description: "Set every run's font family to the given name."@, params: seq![("entity"@, ParamType::Entity), ("family"@, ParamType::String)], handler: Builtin::SetFont },
        CatalogEntry { id: "shape.toggle_bold"@, title: "Toggle Bold"@, category: "Text"@, description: "Toggle bold across the whole text box."@, params: seq![("entity"@, ParamType::Entity)], handler: Builtin::Toggle(RunAttr::Bold) },
        CatalogEntry { id: "shape.toggle_italic"@, title: "Toggle Italic"@, category: "Text"@, description: "Toggle italic across the whole text box."@, params: seq![("entity"@, ParamType::Entity)], handler: Builtin::Toggle(RunAttr::Italic) },
        CatalogEntry { id: "shape.toggle_underline"@, title: "Toggle Underline"@, category: "Text"@, description: "Toggle underline across the whole text box."@, params: seq![("entity"@, ParamType::Entity)], handler: Builtin::Toggle(RunAttr::Underline) },
        CatalogEntry { id: "shape.align_text_left"@, title: "Align Text Left"@, category: "Text"@, description: "Set every paragraph's horizontal alignment to left."@, params: seq![("entity"@, ParamType::Entity)], handler: Builtin::AlignText(HAlign::Left) },
        CatalogEntry { id: "shape.align_text_center"@, title: "Align Text Center"@, category: "Text"@, description: "Set every paragraph's horizontal alignment to center."@, params: seq![("entity"@, ParamType::Entity)], handler: Builtin::AlignText(HAlign::Center) },
        CatalogEntry { id: "shape.align_text_right"@, title: "Align Text Right"@, category: "Text"@, description: "Set every paragraph's horizontal alignment to right."@, params: seq![("entity"@, ParamType::Entity)], handler: Builtin::AlignText(HAlign::Right) },
        CatalogEntry { id: "shape.fill_black"@, title: "Fill: Black"@, category: "Style"@, description: "Set the shape fill to literal black."@, params: seq![("entity"@, ParamType::Entity)], handler: Builtin::FillLiteral(Rgba { r: 0, g: 0, b: 0, a: 255 }) },
        CatalogEntry { id: "shape.fill_white"@, title: "Fill: White"@, category: "Style"@, description: "Set the shape fill to literal white."@, params: seq![("entity"@, ParamType::Entity)], handler: Builtin::FillLiteral(Rgba { r: 255, g: 255, b: 255, a: 255 }) },
    ]
}

/// The character at `k`, or a space past the end.
spec fn char_or_space(s: Seq<char>, k: int) -> char {
    if 0 <= k < s.len() {
        s[k]
    } else {
        ' '
    }
}

/// A few characters of an id, enough to tell the catalogue's ids apart.
spec fn id_signature(s: Seq<char>) -> (nat, char, char, char) {
    (s.len(), char_or_space(s, 6), char_or_space(s, 11), char_or_space(s, 17))
}

/// The catalogue's ids are pairwise distinct.
proof fn lemma_catalogue_ids_distinct(i: int, j: int)
    requires
        0 <= i < builtins_spec().len(),
        0 <= j < builtins_spec().len(),
        builtins_spec()[i].id == builtins_spec()[j].id,
    ensures
        i == j,
{
    reveal_strlit("shape.delete");
    reveal_strlit("shape.set_fill");
    reveal_strlit("shape.bring_to_front");
    reveal_strlit("shape.send_to_back");
    reveal_strlit("shape.reset_rotation");
    reveal_strlit("shape.fill_accent1");
    reveal_strlit("shape.fill_accent2");
    reveal_strlit("shape.fill_accent3");
    reveal_strlit("shape.fill_accent4");
    reveal_strlit("shape.fill_accent5");
    reveal_strlit("shape.fill_accent6");
    reveal_strlit("shape.set_text");
    reveal_strlit("shape.set_font_size");
    reveal_strlit("shape.set_font");
    reveal_strlit("shape.toggle_bold");
    reveal_strlit("shape.toggle_italic");
    reveal_strlit("shape.toggle_underline");
    reveal_strlit("shape.align_text_left");
    reveal_strlit("shape.align_text_center");
    reveal_strlit("shape.align_text_right");
    reveal_strlit("shape.fill_black");
    reveal_strlit("shape.fill_white");
    assert(id_signature(builtins_spec()[i].id) == id_signature(builtins_spec()[j].id));
}

/// The catalogue's z-order commands do what their ids say. For a live target in a
/// well-formed world, the command registered as "shape.send_to_back" sets only the target's
/// order key, to one below the key of every sibling that has one; the command registered as
/// "shape.bring_to_front" sets it to one above every such sibling key.
pub proof fn law_reorder_commands(w: &World, args: Seq<(Seq<char>, ArgView)>, i: int)
    requires
        w.wf(),
        0 <= i < builtins_spec().len(),
        entity_arg(args, "entity"@) matches Some(e) && w.live().contains(e.0),
        handler_ok(builtins_spec()[i].handler, args, w),
    ensures
        builtins_spec()[i].id == "shape.send_to_back"@ ==> {
            let ops = handler_ops(builtins_spec()[i].handler, args, w);
            &&& ops.len() == 1
            &&& ops[0] matches OpView::SetComponent(x, CompView::Order(k))
            &&& x == entity_arg(args, "entity"@).unwrap()
            &&& forall|s: u64| #[trigger] is_sibling(w, x.0, s) && key_of(w, s) is Some ==> lex_lt(
                k,
                key_of(w, s).unwrap(),
            )
        },
        builtins_spec()[i].id == "shape.bring_to_front"@ ==> {
            let ops = handler_ops(builtins_spec()[i].handler, args, w);
            &&& ops.len() == 1
            &&& ops[0] matches OpView::SetComponent(x, CompView::Order(k))
            &&& x == entity_arg(args, "entity"@).unwrap()
            &&& forall|s: u64| #[trigger] is_sibling(w, x.0, s) && key_of(w, s) is Some ==> lex_lt(
                key_of(w, s).unwrap(),
                k,
            )
        },
{
    reveal_strlit("shape.bring_to_front");
    reveal_strlit("shape.send_to_back");
    assert(builtins_spec()[2].id == "shape.bring_to_front"@);
    assert(builtins_spec()[3].id == "shape.send_to_back"@);
    if builtins_spec()[i].id == "shape.bring_to_front"@ {
        lemma_catalogue_ids_distinct(i, 2);
    }
    if builtins_spec()[i].id == "shape.send_to_back"@ {
        lemma_catalogue_ids_distinct(i, 3);
    }
    let e = entity_arg(args, "entity"@).unwrap();
    if builtins_spec()[i].id == "shape.send_to_back"@ {
        assert(builtins_spec()[i].handler == Builtin::Reorder(Edge::Back));
        law_edge_key_beyond_siblings(w, e.0, Edge::Back);
    }
    if builtins_spec()[i].id == "shape.bring_to_front"@ {
        assert(builtins_spec()[i].handler == Builtin::Reorder(Edge::Front));
        law_edge_key_beyond_siblings(w, e.0, Edge::Front);
    }
}

/// The catalogue's other commands do what their ids say, on the target named by the
/// `entity` argument: delete despawns it; set fill fills it with the `color` argument;
/// reset rotation sets its rotation to zero; fill accent 1 to 6 fill it with that theme
/// accent, fill black and fill white with those literal colours; set text, set font size
/// and set font set its text, every run's size (at least one point) or every run's family;
/// the toggles flip bold, italic or underline across its text, and the alignments set every
/// paragraph left, centred or right. The text commands give nothing for a target without
/// text.
pub proof fn law_catalogue_commands(w: &World, args: Seq<(Seq<char>, ArgView)>, i: int)
    requires
        0 <= i < builtins_spec().len(),
        entity_arg(args, "entity"@) is Some,
    ensures
        ({
            let id = builtins_spec()[i].id;
            let e = entity_arg(args, "entity"@).unwrap();
            let ops = handler_ops(builtins_spec()[i].handler, args, w);
            let body = text_of(w, e.0);
            &&& id == "shape.delete"@ ==> ops == (seq![OpView::Despawn(e)])
            &&& id == "shape.set_fill"@ ==> ops == (match color_arg(args, "color"@) { Some(c) => set_op(e, CompView::Fill(Fill::Solid(Color::Literal(c)))), None => Seq::empty() })
            &&& id == "shape.reset_rotation"@ ==> ops == (set_op(e, CompView::Rotation(0)))
            &&& id == "shape.fill_accent1"@ ==> ops == (set_op(e, CompView::Fill(Fill::Solid(Color::Theme { token: ThemeColorToken::Accent1, xf: no_xf() }))))
            &&& id == "shape.fill_accent2"@ ==> ops == (set_op(e, CompView::Fill(Fill::Solid(Color::Theme { token: ThemeColorToken::Accent2, xf: no_xf() }))))
            &&& id == "shape.fill_accent3"@ ==> ops == (set_op(e, CompView::Fill(Fill::Solid(Color::Theme { token: ThemeColorToken::Accent3, xf: no_xf() }))))
            &&& id == "shape.fill_accent4"@ ==> ops == (set_op(e, CompView::Fill(Fill::Solid(Color::Theme { token: ThemeColorToken::Accent4, xf: no_xf() }))))
            &&& id == "shape.fill_accent5"@ ==> ops == (set_op(e, CompView::Fill(Fill::Solid(Color::Theme { token: ThemeColorToken::Accent5, xf: no_xf() }))))
            &&& id == "shape.fill_accent6"@ ==> ops == (set_op(e, CompView::Fill(Fill::Solid(Color::Theme { token: ThemeColorToken::Accent6, xf: no_xf() }))))
            &&& id == "shape.set_text"@ ==> ops == (match str_arg(args, "text"@) { Some(t) => set_op(e, CompView::Text(set_text_spec(body, t))), None => Seq::empty() })
            &&& id == "shape.set_font_size"@ ==> ops == (match int_arg(args, "pt"@) { Some(p) => text_ops(e, match body { Some(b) => Some(edited_body(RunEditView::Size(((if p < 1 { 1 } else { p }) * EMU_PER_PT) as i64), b)), None => None }), None => Seq::empty() })
            &&& id == "shape.set_font"@ ==> ops == (match str_arg(args, "family"@) { Some(f) => text_ops(e, match body { Some(b) => Some(edited_body(RunEditView::Family(f), b)), None => None }), None => Seq::empty() })
            &&& id == "shape.toggle_bold"@ ==> ops == (text_ops(e, match body { Some(b) => Some(edited_body(RunEditView::Attr(RunAttr::Bold, toggle_target(RunAttr::Bold, b)), b)), None => None }))
            &&& id == "shape.toggle_italic"@ ==> ops == (text_ops(e, match body { Some(b) => Some(edited_body(RunEditView::Attr(RunAttr::Italic, toggle_target(RunAttr::Italic, b)), b)), None => None }))
            &&& id == "shape.toggle_underline"@ ==> ops == (text_ops(e, match body { Some(b) => Some(edited_body(RunEditView::Attr(RunAttr::Underline, toggle_target(RunAttr::Underline, b)), b)), None => None }))
            &&& id == "shape.align_text_left"@ ==> ops == (text_ops(e, match body { Some(b) => Some(aligned_body(HAlign::Left, b)), None => None }))
            &&& id == "shape.align_text_center"@ ==> ops == (text_ops(e, match body { Some(b) => Some(aligned_body(HAlign::Center, b)), None => None }))
            &&& id == "shape.align_text_right"@ ==> ops == (text_ops(e, match body { Some(b) => Some(aligned_body(HAlign::Right, b)), None => None }))
            &&& id == "shape.fill_black"@ ==> ops == (set_op(e, CompView::Fill(Fill::Solid(Color::Literal(Rgba { r: 0, g: 0, b: 0, a: 255 })))))
            &&& id == "shape.fill_white"@ ==> ops == (set_op(e, CompView::Fill(Fill::Solid(Color::Literal(Rgba { r: 255, g: 255, b: 255, a: 255 })))))
        }),
{
    reveal_strlit("shape.delete");
    if builtins_spec()[i].id == "shape.delete"@ {
        assert(builtins_spec()[0].id == "shape.delete"@);
        lemma_catalogue_ids_distinct(i, 0);
    }
    reveal_strlit("shape.set_fill");
    if builtins_spec()[i].id == "shape.set_fill"@ {
        assert(builtins_spec()[1].id == "shape.set_fill"@);
        lemma_catalogue_ids_distinct(i, 1);
    }
    reveal_strlit("shape.reset_rotation");
    if builtins_spec()[i].id == "shape.reset_rotation"@ {
        assert(builtins_spec()[4].id == "shape.reset_rotation"@);
        lemma_catalogue_ids_distinct(i, 4);
    }
    reveal_strlit("shape.fill_accent1");
    if builtins_spec()[i].id == "shape.fill_accent1"@ {
        assert(builtins_spec()[5].id == "shape.fill_accent1"@);
        lemma_catalogue_ids_distinct(i, 5);
    }
    reveal_strlit("shape.fill_accent2");
    if builtins_spec()[i].id == "shape.fill_accent2"@ {
        assert(builtins_spec()[6].id == "shape.fill_accent2"@);
        lemma_catalogue_ids_distinct(i, 6);
    }
    reveal_strlit("shape.fill_accent3");
    if builtins_spec()[i].id == "shape.fill_accent3"@ {
        assert(builtins_spec()[7].id == "shape.fill_accent3"@);
        lemma_catalogue_ids_distinct(i, 7);
    }
    reveal_strlit("shape.fill_accent4");
    if builtins_spec()[i].id == "shape.fill_accent4"@ {
        assert(builtins_spec()[8].id == "shape.fill_accent4"@);
        lemma_catalogue_ids_distinct(i, 8);
    }
    reveal_strlit("shape.fill_accent5");
    if builtins_spec()[i].id == "shape.fill_accent5"@ {
        assert(builtins_spec()[9].id == "shape.fill_accent5"@);
        lemma_catalogue_ids_distinct(i, 9);
    }
    reveal_strlit("shape.fill_accent6");
    if builtins_spec()[i].id == "shape.fill_accent6"@ {
        assert(builtins_spec()[10].id == "shape.fill_accent6"@);
        lemma_catalogue_ids_distinct(i, 10);
    }
    reveal_strlit("shape.set_text");
    if builtins_spec()[i].id == "shape.set_text"@ {
        assert(builtins_spec()[11].id == "shape.set_text"@);
        lemma_catalogue_ids_distinct(i, 11);
    }
    reveal_strlit("shape.set_font_size");
    if builtins_spec()[i].id == "shape.set_font_size"@ {
        assert(builtins_spec()[12].id == "shape.set_font_size"@);
        lemma_catalogue_ids_distinct(i, 12);
    }
    reveal_strlit("shape.set_font");
    if builtins_spec()[i].id == "shape.set_font"@ {
        assert(builtins_spec()[13].id == "shape.set_font"@);
        lemma_catalogue_ids_distinct(i, 13);
    }
    reveal_strlit("shape.toggle_bold");
    if builtins_spec()[i].id == "shape.toggle_bold"@ {
        assert(builtins_spec()[14].id == "shape.toggle_bold"@);
        lemma_catalogue_ids_distinct(i, 14);
    }
    reveal_strlit("shape.toggle_italic");
    if builtins_spec()[i].id == "shape.toggle_italic"@ {
        assert(builtins_spec()[15].id == "shape.toggle_italic"@);
        lemma_catalogue_ids_distinct(i, 15);
    }
    reveal_strlit("shape.toggle_underline");
    if builtins_spec()[i].id == "shape.toggle_underline"@ {
        assert(builtins_spec()[16].id == "shape.toggle_underline"@);
        lemma_catalogue_ids_distinct(i, 16);
    }
    reveal_strlit("shape.align_text_left");
    if builtins_spec()[i].id == "shape.align_text_left"@ {
        assert(builtins_spec()[17].id == "shape.align_text_left"@);
        lemma_catalogue_ids_distinct(i, 17);
    }
    reveal_strlit("shape.align_text_center");
    if builtins_spec()[i].id == "shape.align_text_center"@ {
        assert(builtins_spec()[18].id == "shape.align_text_center"@);
        lemma_catalogue_ids_distinct(i, 18);
    }
    reveal_strlit("shape.align_text_right");
    if builtins_spec()[i].id == "shape.align_text_right"@ {
        assert(builtins_spec()[19].id == "shape.align_text_right"@);
        lemma_catalogue_ids_distinct(i, 19);
    }
    reveal_strlit("shape.fill_black");
    if builtins_spec()[i].id == "shape.fill_black"@ {
        assert(builtins_spec()[20].id == "shape.fill_black"@);
        lemma_catalogue_ids_distinct(i, 20);
    }
    reveal_strlit("shape.fill_white");
    if builtins_spec()[i].id == "shape.fill_white"@ {
        assert(builtins_spec()[21].id == "shape.fill_white"@);
        lemma_catalogue_ids_distinct(i, 21);
    }
}

/// Register one command.
fn register_builtin(
    reg: &mut CommandRegistry<Builtin>,
    id: &str,
    title: &str,
    category: &str,
    description: &str,
    params: Vec<ParamSpec>,
    h: Builtin,
)
    ensures
        catalogue(final(reg).spec_commands()) == catalogue(old(reg).spec_commands()).push(
            CatalogEntry {
                id: id@,
                title: title@,
                category: category@,
                description: description@,
                params: params@.map_values(|p: ParamSpec| (p.name@, p.ty)),
                handler: h,
            },
        ),
{
    let ghost before = reg.spec_commands();
    let meta = CommandMeta::new(id, title, category).describe(description);
    reg.register(meta, params, h);
    assert(catalogue(reg.spec_commands()) =~= catalogue(before).push(entry_of(reg.spec_commands().last())));
}

/// The built-in command set.
pub fn builtins() -> (reg: CommandRegistry<Builtin>)
    ensures
        catalogue(reg.spec_commands()) == builtins_spec(),
{
    let mut reg: CommandRegistry<Builtin> = CommandRegistry::new();
    assert(catalogue(reg.spec_commands()) =~= Seq::<CatalogEntry>::empty());
    {
        let mut params: Vec<ParamSpec> = Vec::new();
        params.push(ParamSpec::new("entity", ParamType::Entity));
        assert(params@.map_values(|p: ParamSpec| (p.name@, p.ty)) =~= seq![("entity"@, ParamType::Entity)]);
        register_builtin(&mut reg, "shape.delete", "Delete Shape", "Shape", "Delete the target shape (despawn the entity).", params, Builtin::Delete);
    }
    {
        let mut params: Vec<ParamSpec> = Vec::new();
        params.push(ParamSpec::new("entity", ParamType::Entity));
        params.push(ParamSpec::new("color", ParamType::Color));
        assert(params@.map_values(|p: ParamSpec| (p.name@, p.ty)) =~= seq![("entity"@, ParamType::Entity), ("color"@, ParamType::Color)]);
        register_builtin(&mut reg, "shape.set_fill", "Set Fill", "Shape", "Set the shape fill to a solid color.", params, Builtin::SetFill);
    }
    {
        let mut params: Vec<ParamSpec> = Vec::new();
        params.push(ParamSpec::new("entity", ParamType::Entity));
        assert(params@.map_values(|p: ParamSpec| (p.name@, p.ty)) =~= seq![("entity"@, ParamType::Entity)]);
        register_builtin(&mut reg, "shape.bring_to_front", "Bring to Front", "Shape", "Move the shape to the front (largest Order) among its siblings.", params, Builtin::Reorder(Edge::Front));
    }
    {
        let mut params: Vec<ParamSpec> = Vec::new();
        params.push(ParamSpec::new("entity", ParamType::Entity));
        assert(params@.map_values(|p: ParamSpec| (p.name@, p.ty)) =~= seq![("entity"@, ParamType::Entity)]);
        register_builtin(&mut reg, "shape.send_to_back", "Send to Back", "Shape", "Move the shape to the back (smallest Order) among its siblings.", params, Builtin::Reorder(Edge::Back));
    }
    {
        let mut params: Vec<ParamSpec> = Vec::new();
        params.push(ParamSpec::new("entity", ParamType::Entity));
        assert(params@.map_values(|p: ParamSpec| (p.name@, p.ty)) =~= seq![("entity"@, ParamType::Entity)]);
        register_builtin(&mut reg, "shape.reset_rotation", "Reset Rotation", "Shape", "Clear any rotation by setting it back to 0 degrees.", params, Builtin::ResetRotation);
    }
    {
        let mut params: Vec<ParamSpec> = Vec::new();
        params.push(ParamSpec::new("entity", ParamType::Entity));
        assert(params@.map_values(|p: ParamSpec| (p.name@, p.ty)) =~= seq![("entity"@, ParamType::Entity)]);
        register_builtin(&mut reg, "shape.fill_accent1", "Fill: Accent 1", "Style", "Set the shape fill to theme accent color 1.", params, Builtin::FillTheme(ThemeColorToken::Accent1));
    }
    {
        let mut params: Vec<ParamSpec> = Vec::new();
        params.push(ParamSpec::new("entity", ParamType::Entity));
        assert(params@.map_values(|p: ParamSpec| (p.name@, p.ty)) =~= seq![("entity"@, ParamType::Entity)]);
        register_builtin(&mut reg, "shape.fill_accent2", "Fill: Accent 2", "Style", "Set the shape fill to theme accent color 2.", params, Builtin::FillTheme(ThemeColorToken::Accent2));
    }
    {
        let mut params: Vec<ParamSpec> = Vec::new();
        params.push(ParamSpec::new("entity", ParamType::Entity));
        assert(params@.map_values(|p: ParamSpec| (p.name@, p.ty)) =~= seq![("entity"@, ParamType::Entity)]);
        register_builtin(&mut reg, "shape.fill_accent3", "Fill: Accent 3", "Style", "Set the shape fill to theme accent color 3.", params, Builtin::FillTheme(ThemeColorToken::Accent3));
    }
    {
        let mut params: Vec<ParamSpec> = Vec::new();
        params.push(ParamSpec::new("entity", ParamType::Entity));
        assert(params@.map_values(|p: ParamSpec| (p.name@, p.ty)) =~= seq![("entity"@, ParamType::Entity)]);
        register_builtin(&mut reg, "shape.fill_accent4", "Fill: Accent 4", "Style", "Set the shape fill to theme accent color 4.", params, Builtin::FillTheme(ThemeColorToken::Accent4));
    }
    {
        let mut params: Vec<ParamSpec> = Vec::new();
        params.push(ParamSpec::new("entity", ParamType::Entity));
        assert(params@.map_values(|p: ParamSpec| (p.name@, p.ty)) =~= seq![("entity"@, ParamType::Entity)]);
        register_builtin(&mut reg, "shape.fill_accent5", "Fill: Accent 5", "Style", "Set the shape fill to theme accent color 5.", params, Builtin::FillTheme(ThemeColorToken::Accent5));
    }
    {
        let mut params: Vec<ParamSpec> = Vec::new();
        params.push(ParamSpec::new("entity", ParamType::Entity));
        assert(params@.map_values(|p: ParamSpec| (p.name@, p.ty)) =~= seq![("entity"@, ParamType::Entity)]);
        register_builtin(&mut reg, "shape.fill_accent6", "Fill: Accent 6", "Style", "Set the shape fill to theme accent color 6.", params, Builtin::FillTheme(ThemeColorToken::Accent6));
    }
    {
        let mut params: Vec<ParamSpec> = Vec::new();
        params.push(ParamSpec::new("entity", ParamType::Entity));
        params.push(ParamSpec::new("text", ParamType::String));
        assert(params@.map_values(|p: ParamSpec| (p.name@, p.ty)) =~= seq![("entity"@, ParamType::Entity), ("text"@, ParamType::String)]);
        register_builtin(&mut reg, "shape.set_text", "Set Text", "Text", "Set the shape's text to a single string, preserving the first run's formatting.", params, Builtin::SetText);
    }
    {
        let mut params: Vec<ParamSpec> = Vec::new();
        params.push(ParamSpec::new("entity", ParamType::Entity));
        params.push(ParamSpec::new("pt", ParamType::Float));
        assert(params@.map_values(|p: ParamSpec| (p.name@, p.ty)) =~= seq![("entity"@, ParamType::Entity), ("pt"@, ParamType::Float)]);
        register_builtin(&mut reg, "shape.set_font_size", "Set Font Size", "Text", "Set every run's font size to the given points (minimum 1pt).", params, Builtin::SetFontSize);
    }
    {
        let mut params: Vec<ParamSpec> = Vec::new();
        params.push(ParamSpec::new("entity", ParamType::Entity));
        params.push(ParamSpec::new("family", ParamType::String));
        assert(params@.map_values(|p: ParamSpec| (p.name@, p.ty)) =~= seq![("entity"@, ParamType::Entity), ("family"@, ParamType::String)]);
        register_builtin(&mut reg, "shape.set_font", "Set Font", "Text", "Set every run's font family to the given name.", params, Builtin::SetFont);
    }
    {
        let mut params: Vec<ParamSpec> = Vec::new();
        params.push(ParamSpec::new("entity", ParamType::Entity));
        assert(params@.map_values(|p: ParamSpec| (p.name@, p.ty)) =~= seq![("entity"@, ParamType::Entity)]);
        register_builtin(&mut reg, "shape.toggle_bold", "Toggle Bold", "Text", "Toggle bold across the whole text box.", params, Builtin::Toggle(RunAttr::Bold));
    }
    {
        let mut params: Vec<ParamSpec> = Vec::new();
        params.push(ParamSpec::new("entity", ParamType::Entity));
        assert(params@.map_values(|p: ParamSpec| (p.name@, p.ty)) =~= seq![("entity"@, ParamType::Entity)]);
        register_builtin(&mut reg, "shape.toggle_italic", "Toggle Italic", "Text", "Toggle italic across the whole text box.", params, Builtin::Toggle(RunAttr::Italic));
    }
    {
        let mut params: Vec<ParamSpec> = Vec::new();
        params.push(ParamSpec::new("entity", ParamType::Entity));
        assert(params@.map_values(|p: ParamSpec| (p.name@, p.ty)) =~= seq![("entity"@, ParamType::Entity)]);
        register_builtin(&mut reg, "shape.toggle_underline", "Toggle Underline", "Text", "Toggle underline across the whole text box.", params, Builtin::Toggle(RunAttr::Underline));
    }
    {
        let mut params: Vec<ParamSpec> = Vec::new();
        params.push(ParamSpec::new("entity", ParamType::Entity));
        assert(params@.map_values(|p: ParamSpec| (p.name@, p.ty)) =~= seq![("entity"@, ParamType::Entity)]);
        register_builtin(&mut reg, "shape.align_text_left", "Align Text Left", "Text", "Set every paragraph's horizontal alignment to left.", params, Builtin::AlignText(HAlign::Left));
    }
    {
        let mut params: Vec<ParamSpec> = Vec::new();
        params.push(ParamSpec::new("entity", ParamType::Entity));
        assert(params@.map_values(|p: ParamSpec| (p.name@, p.ty)) =~= seq![("entity"@, ParamType::Entity)]);
        register_builtin(&mut reg, "shape.align_text_center", "Align Text Center", "Text", "Set every paragraph's horizontal alignment to center.", params, Builtin::AlignText(HAlign::Center));
    }
    {
        let mut params: Vec<ParamSpec> = Vec::new();
        params.push(ParamSpec::new("entity", ParamType::Entity));
        assert(params@.map_values(|p: ParamSpec| (p.name@, p.ty)) =~= seq![("entity"@, ParamType::Entity)]);
        register_builtin(&mut reg, "shape.align_text_right", "Align Text Right", "Text", "Set every paragraph's horizontal alignment to right.", params, Builtin::AlignText(HAlign::Right));
    }
    {
        let mut params: Vec<ParamSpec> = Vec::new();
        params.push(ParamSpec::new("entity", ParamType::Entity));
        assert(params@.map_values(|p: ParamSpec| (p.name@, p.ty)) =~= seq![("entity"@, ParamType::Entity)]);
        register_builtin(&mut reg, "shape.fill_black", "Fill: Black", "Style", "Set the shape fill to literal black.", params, Builtin::FillLiteral(Rgba { r: 0, g: 0, b: 0, a: 255 }));
    }
    {
        let mut params: Vec<ParamSpec> = Vec::new();
        params.push(ParamSpec::new("entity", ParamType::Entity));
        assert(params@.map_values(|p: ParamSpec| (p.name@, p.ty)) =~= seq![("entity"@, ParamType::Entity)]);
        register_builtin(&mut reg, "shape.fill_white", "Fill: White", "Style", "Set the shape fill to literal white.", params, Builtin::FillLiteral(Rgba { r: 255, g: 255, b: 255, a: 255 }));
    }
    proof {
        assert(catalogue(reg.spec_commands()) =~= builtins_spec());
    }
    reg
}

} // verus!
