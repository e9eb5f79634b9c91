//! Command metadata: the named, typed verbs that the palette, scripts and the AI call, and
//! the small parsing rules around them (argument types, palette search, colour arguments,
//! script function names).

use crate::color::Rgba;
use crate::strings::{push_char, str_eq};
use crate::textnav::char_vec;
use vstd::prelude::*;
use vstd::string::StringSliceAdditionalSpecFns;
use vstd::utf8::encode_utf8;

verus! {

/// The type of one command parameter.
#[derive(Clone, Copy, Debug, PartialEq, Eq, Structural)]
pub enum ParamType {
    Entity,
    Int,
    Float,
    String,
    Color,
    Bool,
}

/// The lowercase tag of a parameter type in the manifest's `"type"` field.
pub open spec fn param_tag(t: ParamType) -> Seq<char> {
    match t {
        ParamType::Entity => "entity"@,
        ParamType::Int => "int"@,
        ParamType::Float => "float"@,
        ParamType::String => "string"@,
        ParamType::Color => "color"@,
        ParamType::Bool => "bool"@,
    }
}

/// The parameter type a manifest tag names; an unknown tag reads as `String`.
pub open spec fn tag_param_type(tag: Seq<char>) -> ParamType {
    if tag == "entity"@ {
        ParamType::Entity
    } else if tag == "int"@ {
        ParamType::Int
    } else if tag == "float"@ {
        ParamType::Float
    } else if tag == "color"@ {
        ParamType::Color
    } else if tag == "bool"@ {
        ParamType::Bool
    } else {
        ParamType::String
    }
}

impl ParamType {
    /// Lowercase tag used in the manifest's `"type"` field.
    pub fn as_str(self) -> (s: &'static str)
        ensures
            s@ == param_tag(self),
    {
        match self {
            ParamType::Entity => "entity",
            ParamType::Int => "int",
            ParamType::Float => "float",
            ParamType::String => "string",
            ParamType::Color => "color",
            ParamType::Bool => "bool",
        }
    }
}

/// Map a manifest `"type"` tag back to a [`ParamType`] (an unknown tag reads as `String`,
/// which only affects argument coercion).
pub fn param_type(tag: &str) -> (t: ParamType)
    ensures
        t == tag_param_type(tag@),
{
    if str_eq(tag, "entity") {
        ParamType::Entity
    } else if str_eq(tag, "int") {
        ParamType::Int
    } else if str_eq(tag, "float") {
        ParamType::Float
    } else if str_eq(tag, "color") {
        ParamType::Color
    } else if str_eq(tag, "bool") {
        ParamType::Bool
    } else {
        ParamType::String
    }
}

/// A type's tag reads back as the same type.
pub proof fn law_param_tag_roundtrip(t: ParamType)
    ensures
        tag_param_type(param_tag(t)) == t,
{
    reveal_strlit("entity");
    reveal_strlit("int");
    reveal_strlit("float");
    reveal_strlit("string");
    reveal_strlit("color");
    reveal_strlit("bool");
    assert("string"@[0] == 's' && "entity"@[0] == 'e' && "color"@[0] == 'c' && "float"@[0] == 'f');
    assert("string"@ != "entity"@ && "string"@ != "int"@ && "string"@ != "float"@);
    assert("string"@ != "color"@ && "string"@ != "bool"@);
    assert("color"@ != "entity"@ && "color"@ != "int"@ && "color"@ != "float"@);
    assert("bool"@.len() == 4 && "entity"@.len() == 6 && "int"@.len() == 3 && "float"@.len() == 5);
    assert("bool"@ != "entity"@ && "bool"@ != "int"@ && "bool"@ != "float"@);
    assert("bool"@ != "color"@);
    assert("float"@ != "entity"@ && "float"@ != "int"@);
    assert("int"@ != "entity"@);
}

/// One named, typed parameter of a command.
#[derive(Clone, Debug, PartialEq, Eq)]
pub struct ParamSpec {
    pub name: String,
    pub ty: ParamType,
}

impl ParamSpec {
    pub fn new(name: &str, ty: ParamType) -> (p: Self)
        ensures
            p.name@ == name@,
            p.ty == ty,
    {
        ParamSpec { name: name.to_owned(), ty }
    }
}

/// Identifying and display metadata for a command.
#[derive(Clone, Debug, PartialEq, Eq)]
pub struct CommandMeta {
    /// Stable dotted id, e.g. `"shape.move"`: what scripts, the AI and keymaps reference.
    pub id: String,
    /// Human-readable title; also the undo label of the resulting transaction.
    pub title: String,
    /// Grouping for the palette, e.g. `"Shape"`.
    pub category: String,
    /// One-line description; empty when unset (the docs then fall back to the title).
    pub description: String,
}

impl CommandMeta {
    /// Metadata with an empty description.
    pub fn new(id: &str, title: &str, category: &str) -> (m: Self)
        ensures
            m.id@ == id@,
            m.title@ == title@,
            m.category@ == category@,
            m.description@ == Seq::<char>::empty(),
    {
        CommandMeta {
            id: id.to_owned(),
            title: title.to_owned(),
            category: category.to_owned(),
            description: String::new(),
        }
    }

    /// The same metadata with `description` attached (chainable).
    pub fn describe(self, description: &str) -> (m: Self)
        ensures
            m.id == self.id,
            m.title == self.title,
            m.category == self.category,
            m.description@ == description@,
    {
        CommandMeta {
            id: self.id,
            title: self.title,
            category: self.category,
            description: description.to_owned(),
        }
    }
}

/// `b` with ASCII capitals lowered (what `u8::to_ascii_lowercase` gives).
pub open spec fn ascii_lower(b: u8) -> u8 {
    if 65 <= b <= 90 {
        (b + 32) as u8
    } else {
        b
    }
}

/// `n` occurs in `h` at `i`, ignoring ASCII case.
pub open spec fn matches_ci_at(h: Seq<u8>, n: Seq<u8>, i: int) -> bool {
    &&& 0 <= i
    &&& i + n.len() <= h.len()
    &&& forall|j: int| 0 <= j < n.len() ==> ascii_lower(#[trigger] h[i + j]) == ascii_lower(n[j])
}

/// `n` occurs somewhere in `h`, ignoring ASCII case; the empty needle occurs everywhere.
pub open spec fn contains_ci_spec(h: Seq<u8>, n: Seq<u8>) -> bool {
    n.len() == 0 || exists|i: int| #[trigger] matches_ci_at(h, n, i)
}

fn lower(b: u8) -> (r: u8)
    ensures
        r == ascii_lower(b),
{
    if 65 <= b && b <= 90 {
        b + 32
    } else {
        b
    }
}

/// ASCII case-insensitive substring test. `needle_lower` is meant to be lowercased already;
/// the bytes are compared case-insensitively either way. An empty needle matches everything.
pub fn contains_ci(haystack: &str, needle_lower: &str) -> (found: bool)
    ensures
        found == contains_ci_spec(haystack.spec_bytes(), needle_lower.spec_bytes()),
{
    let h = haystack.as_bytes();
    let n = needle_lower.as_bytes();
    if n.len() == 0 {
        return true;
    }
    if n.len() > h.len() {
        assert forall|i: int| !matches_ci_at(h@, n@, i) by {}
        return false;
    }
    let last = h.len() - n.len();
    let mut i: usize = 0;
    while i <= last
        invariant
            h@ == haystack.spec_bytes(),
            n@ == needle_lower.spec_bytes(),
            n.len() <= h.len(),
            last == h.len() - n.len(),
            i <= last + 1,
            forall|k: int| 0 <= k < i ==> !matches_ci_at(h@, n@, k),
        decreases last + 1 - i,
    {
        let mut j: usize = 0;
        let mut same = true;
        while j < n.len()
            invariant
                i <= last,
                last == h.len() - n.len(),
                j <= n.len(),
                same == (forall|m: int| 0 <= m < j ==> ascii_lower(#[trigger] h@[i + m]) == ascii_lower(n@[m])),
            decreases n.len() - j,
        {
            if lower(h[i + j]) != lower(n[j]) {
                same = false;
            }
            j = j + 1;
        }
        if same {
            assert(matches_ci_at(h@, n@, i as int));
            return true;
        }
        i = i + 1;
    }
    assert forall|k: int| !matches_ci_at(h@, n@, k) by {
        if 0 <= k && k + n@.len() <= h@.len() {
            assert(k < i);
        }
    }
    false
}

/// The value of an ASCII hex digit (either case).
pub open spec fn hex_value(b: u8) -> Option<u8> {
    if 48 <= b <= 57 {
        Some((b - 48) as u8)
    } else if 97 <= b <= 102 {
        Some((b - 87) as u8)
    } else if 65 <= b <= 70 {
        Some((b - 55) as u8)
    } else {
        None
    }
}

/// The byte two ASCII hex digits spell (high digit first); `None` unless both are hex digits.
pub open spec fn hex_pair(b0: u8, b1: u8) -> Option<u8> {
    match (hex_value(b0), hex_value(b1)) {
        (Some(hi), Some(lo)) => Some((hi * 16 + lo) as u8),
        _ => None,
    }
}

fn hex_val(b: u8) -> (r: Option<u8>)
    ensures
        r == hex_value(b),
{
    if 48 <= b && b <= 57 {
        Some(b - 48)
    } else if 97 <= b && b <= 102 {
        Some(b - 87)
    } else if 65 <= b && b <= 70 {
        Some(b - 55)
    } else {
        None
    }
}

/// The byte two ASCII hex digits spell.
pub(crate) fn hex_byte(b0: u8, b1: u8) -> (r: Option<u8>)
    ensures
        r == hex_pair(b0, b1),
{
    match (hex_val(b0), hex_val(b1)) {
        (Some(hi), Some(lo)) => Some(hi * 16 + lo),
        _ => None,
    }
}

/// The bytes of a colour argument after an optional leading `#`.
pub open spec fn hex_body(b: Seq<u8>) -> Seq<u8> {
    if b.len() > 0 && b[0] == 35 {
        b.skip(1)
    } else {
        b
    }
}

/// Where the hex body starts in the argument's bytes.
pub open spec fn hex_start(b: Seq<u8>) -> int {
    if b.len() > 0 && b[0] == 35 {
        1
    } else {
        0
    }
}

/// The colour `#rrggbb` or `#rrggbbaa` names (`#` optional); `None` unless what follows the
/// optional `#` is exactly six or eight ASCII hex digits.
pub open spec fn parse_hex_spec(b: Seq<u8>) -> Option<Rgba> {
    let h = hex_body(b);
    if h.len() == 6 {
        match (hex_pair(h[0], h[1]), hex_pair(h[2], h[3]), hex_pair(h[4], h[5])) {
            (Some(r), Some(g), Some(bl)) => Some(Rgba { r, g, b: bl, a: 255 }),
            _ => None,
        }
    } else if h.len() == 8 {
        match (
            hex_pair(h[0], h[1]),
            hex_pair(h[2], h[3]),
            hex_pair(h[4], h[5]),
            hex_pair(h[6], h[7]),
        ) {
            (Some(r), Some(g), Some(bl), Some(a)) => Some(Rgba { r, g, b: bl, a }),
            _ => None,
        }
    } else {
        None
    }
}

/// Parse `#rrggbb` or `#rrggbbaa` (the `#` is optional) into an `Rgba`.
pub fn parse_hex(s: &str) -> (c: Option<Rgba>)
    ensures
        c == parse_hex_spec(s.spec_bytes()),
{
    let b = s.as_bytes();
    let o: usize = if b.len() > 0 && b[0] == 35 {
        1
    } else {
        0
    };
    let n = b.len() - o;
    proof {
        assert(hex_body(b@) =~= b@.skip(o as int));
    }
    if n == 6 {
        let r = hex_byte(b[o], b[o + 1]);
        let g = hex_byte(b[o + 2], b[o + 3]);
        let bl = hex_byte(b[o + 4], b[o + 5]);
        match (r, g, bl) {
            (Some(r), Some(g), Some(bl)) => Some(Rgba::rgb(r, g, bl)),
            _ => None,
        }
    } else if n == 8 {
        let r = hex_byte(b[o], b[o + 1]);
        let g = hex_byte(b[o + 2], b[o + 3]);
        let bl = hex_byte(b[o + 4], b[o + 5]);
        let a = hex_byte(b[o + 6], b[o + 7]);
        match (r, g, bl, a) {
            (Some(r), Some(g), Some(bl), Some(a)) => Some(Rgba::rgba(r, g, bl, a)),
            _ => None,
        }
    } else {
        None
    }
}

/// `c` may stand in a script function name: an ASCII letter or digit, or `_`.
pub open spec fn ident_char(c: char) -> bool {
    ||| ('0' <= c && c <= '9')
    ||| ('a' <= c && c <= 'z')
    ||| ('A' <= c && c <= 'Z')
    ||| c == '_'
}

/// The script-callable name of a command id: every character that cannot stand in an
/// identifier (dots among them) becomes `_`.
pub open spec fn script_name(id: Seq<char>) -> Seq<char> {
    id.map_values(|c: char| if ident_char(c) { c } else { '_' })
}

/// The script-callable name for a command id (`shape.set_fill` -> `shape_set_fill`).
pub fn fn_name(id: &str) -> (name: String)
    ensures
        name@ == script_name(id@),
{
    let cs = char_vec(id);
    let mut out = String::new();
    let mut i: usize = 0;
    while i < cs.len()
        invariant
            cs@ == id@,
            i <= cs.len(),
            out@ == script_name(id@).take(i as int),
        decreases cs.len() - i,
    {
        let c = cs[i];
        let keep = ('0' <= c && c <= '9') || ('a' <= c && c <= 'z') || ('A' <= c && c <= 'Z')
            || c == '_';
        push_char(&mut out, if keep { c } else { '_' });
        i = i + 1;
        assert(out@ =~= script_name(id@).take(i as int));
    }
    assert(out@ =~= script_name(id@));
    out
}

/// A script that failed to compile or run, with its message.
#[derive(Clone, Debug)]
pub struct ScriptError(pub String);

impl ScriptError {
    /// The error message.
    pub fn to_string(&self) -> (s: String)
        ensures
            s@ == self.0@,
    {
        self.0.clone()
    }
}

/// A registered command: metadata, parameter schema and handler.
pub struct Command<H> {
    pub meta: CommandMeta,
    pub params: Vec<ParamSpec>,
    pub handler: H,
}

/// The available commands, in registration order: what the palette, scripts and the AI
/// invoke. `H` is what runs a command.
pub struct CommandRegistry<H> {
    commands: Vec<Command<H>>,
}

/// Index of the last of the first `n` commands with id `id`, or -1.
pub open spec fn last_with_id<H>(cmds: Seq<Command<H>>, id: Seq<char>, n: int) -> int
    decreases n,
{
    if n <= 0 {
        -1
    } else if cmds[n - 1].meta.id@ == id {
        n - 1
    } else {
        last_with_id(cmds, id, n - 1)
    }
}

/// The command matches a palette query: its id or title contains it, ignoring ASCII case.
pub open spec fn command_matches<H>(c: Command<H>, q: Seq<u8>) -> bool {
    contains_ci_spec(encode_utf8(c.meta.id@), q) || contains_ci_spec(encode_utf8(c.meta.title@), q)
}

/// `(id, title)` of the commands matching `q`, in registration order.
pub open spec fn matching<H>(cmds: Seq<Command<H>>, q: Seq<u8>) -> Seq<(Seq<char>, Seq<char>)>
    decreases cmds.len(),
{
    if cmds.len() == 0 {
        Seq::empty()
    } else {
        let rest = matching(cmds.drop_last(), q);
        let c = cmds.last();
        if command_matches(c, q) {
            rest.push((c.meta.id@, c.meta.title@))
        } else {
            rest
        }
    }
}

impl<H> CommandRegistry<H> {
    pub closed spec fn spec_commands(&self) -> Seq<Command<H>> {
        self.commands@
    }

    /// An empty registry.
    pub fn new() -> (r: Self)
        ensures
            r.spec_commands() == Seq::<Command<H>>::empty(),
    {
        CommandRegistry { commands: Vec::new() }
    }

    /// Register a command. A later registration with the same id shadows the earlier one in
    /// lookups; both stay listed in registration order.
    pub fn register(&mut self, meta: CommandMeta, params: Vec<ParamSpec>, handler: H)
        ensures
            final(self).spec_commands() == old(self).spec_commands().push(
                Command { meta, params, handler },
            ),
    {
        self.commands.push(Command { meta, params, handler });
    }

    /// Every command, in registration order.
    pub fn commands(&self) -> (r: &Vec<Command<H>>)
        ensures
            r@ == self.spec_commands(),
    {
        &self.commands
    }

    /// The command registered last under `id`, if any.
    pub fn find(&self, id: &str) -> (r: Option<&Command<H>>)
        ensures
            ({
                let k = last_with_id(self.spec_commands(), id@, self.spec_commands().len() as int);
                match r {
                    Some(c) => 0 <= k < self.spec_commands().len() && *c == self.spec_commands()[k],
                    None => k == -1,
                }
            }),
    {
        let mut n = self.commands.len();
        while n > 0
            invariant
                n <= self.commands@.len(),
                last_with_id(self.commands@, id@, self.commands@.len() as int) == last_with_id(
                    self.commands@,
                    id@,
                    n as int,
                ),
            decreases n,
        {
            if str_eq(self.commands[n - 1].meta.id.as_str(), id) {
                return Some(&self.commands[n - 1]);
            }
            n = n - 1;
        }
        None
    }

    /// `(id, title)` of the commands whose id or title contains `query`, ignoring ASCII case,
    /// in registration order; an empty query matches every command.
    pub fn filter(&self, query: &str) -> (r: Vec<(String, String)>)
        ensures
            r@.map_values(|p: (String, String)| (p.0@, p.1@)) == matching(
                self.spec_commands(),
                query.spec_bytes(),
            ),
    {
        let mut out: Vec<(String, String)> = Vec::new();
        let mut i: usize = 0;
        while i < self.commands.len()
            invariant
                i <= self.commands@.len(),
                out@.map_values(|p: (String, String)| (p.0@, p.1@)) == matching(
                    self.commands@.take(i as int),
                    query.spec_bytes(),
                ),
            decreases self.commands.len() - i,
        {
            let c = &self.commands[i];
            proof {
                assert(self.commands@.take(i + 1).drop_last() =~= self.commands@.take(i as int));
            }
            if contains_ci(c.meta.id.as_str(), query) || contains_ci(c.meta.title.as_str(), query) {
                out.push((c.meta.id.clone(), c.meta.title.clone()));
            }
            i = i + 1;
            assert(out@.map_values(|p: (String, String)| (p.0@, p.1@)) =~= matching(
                self.commands@.take(i as int),
                query.spec_bytes(),
            ));
        }
        assert(self.commands@.take(self.commands.len() as int) =~= self.commands@);
        out
    }

    /// How many commands match `query` (as `filter` matches).
    pub fn filter_count(&self, query: &str) -> (n: usize)
        ensures
            n == matching(self.spec_commands(), query.spec_bytes()).len(),
    {
        let mut n: usize = 0;
        let mut i: usize = 0;
        while i < self.commands.len()
            invariant
                i <= self.commands@.len(),
                n == matching(self.commands@.take(i as int), query.spec_bytes()).len(),
                n <= i,
            decreases self.commands.len() - i,
        {
            let c = &self.commands[i];
            proof {
                assert(self.commands@.take(i + 1).drop_last() =~= self.commands@.take(i as int));
            }
            if contains_ci(c.meta.id.as_str(), query) || contains_ci(c.meta.title.as_str(), query) {
                n = n + 1;
            }
            i = i + 1;
        }
        assert(self.commands@.take(self.commands.len() as int) =~= self.commands@);
        n
    }

    /// The id of the `n`-th command matching `query` (as `filter` matches), counting from 0.
    pub fn nth_matching_id(&self, query: &str, n: usize) -> (r: Option<String>)
        ensures
            ({
                let m = matching(self.spec_commands(), query.spec_bytes());
                match r {
                    Some(id) => n < m.len() && id@ == m[n as int].0,
                    None => n >= m.len(),
                }
            }),
    {
        let mut seen: usize = 0;
        let mut i: usize = 0;
        while i < self.commands.len()
            invariant
                i <= self.commands@.len(),
                seen == matching(self.commands@.take(i as int), query.spec_bytes()).len(),
                seen <= n,
                seen <= i,
            decreases self.commands.len() - i,
        {
            let c = &self.commands[i];
            proof {
                assert(self.commands@.take(i + 1).drop_last() =~= self.commands@.take(i as int));
                lemma_matching_prefix(self.commands@, query.spec_bytes(), i + 1);
            }
            if contains_ci(c.meta.id.as_str(), query) || contains_ci(c.meta.title.as_str(), query) {
                if seen == n {
                    proof {
                        let mi = matching(self.commands@.take(i + 1), query.spec_bytes());
                        assert(self.commands@.take(i + 1).last() == *c);
                        assert(mi == matching(self.commands@.take(i as int), query.spec_bytes()).push(
                            (c.meta.id@, c.meta.title@),
                        ));
                        assert(mi[n as int] == (c.meta.id@, c.meta.title@));
                    }
                    return Some(c.meta.id.clone());
                }
                seen = seen + 1;
            }
            i = i + 1;
        }
        assert(self.commands@.take(self.commands.len() as int) =~= self.commands@);
        None
    }
}

/// Lookup finds the latest registration: right after registering `c`, looking up its id
/// finds `c` (shadowing any earlier command with that id), and looking up any other id finds
/// what it found before.
pub proof fn law_register_then_find<H>(cmds: Seq<Command<H>>, c: Command<H>, id: Seq<char>)
    ensures
        last_with_id(cmds.push(c), c.meta.id@, cmds.len() as int + 1) == cmds.len(),
        cmds.push(c)[cmds.len() as int] == c,
        id != c.meta.id@ ==> last_with_id(cmds.push(c), id, cmds.len() as int + 1) == last_with_id(
            cmds,
            id,
            cmds.len() as int,
        ),
{
    if id != c.meta.id@ {
        lemma_last_with_id_prefix(cmds, c, id, cmds.len() as int);
    }
}

/// Below the pushed command, the scan for an id sees what it saw before the push.
proof fn lemma_last_with_id_prefix<H>(cmds: Seq<Command<H>>, c: Command<H>, id: Seq<char>, n: int)
    requires
        0 <= n <= cmds.len(),
    ensures
        last_with_id(cmds.push(c), id, n) == last_with_id(cmds, id, n),
    decreases n,
{
    if n > 0 {
        assert(cmds.push(c)[n - 1] == cmds[n - 1]);
        lemma_last_with_id_prefix(cmds, c, id, n - 1);
    }
}

/// `p` is the `(id, title)` of one of `cmds` whose id or title contains `q`, ignoring
/// ASCII case.
pub open spec fn pair_of_hit<H>(cmds: Seq<Command<H>>, q: Seq<u8>, p: (Seq<char>, Seq<char>)) -> bool {
    exists|i: int|
        #![trigger cmds[i]]
        0 <= i < cmds.len() && p == (cmds[i].meta.id@, cmds[i].meta.title@) && (contains_ci_spec(
            encode_utf8(cmds[i].meta.id@),
            q,
        ) || contains_ci_spec(encode_utf8(cmds[i].meta.title@), q))
}

/// Palette search finds exactly the commands whose id or whose title contains the query,
/// ignoring ASCII case: each such command's `(id, title)` is among the matches, and each
/// match is the `(id, title)` of such a command.
pub proof fn law_palette_search<H>(cmds: Seq<Command<H>>, q: Seq<u8>)
    ensures
        forall|i: int|
            0 <= i < cmds.len() && (contains_ci_spec(encode_utf8(cmds[i].meta.id@), q)
                || contains_ci_spec(encode_utf8(cmds[i].meta.title@), q)) ==> matching(cmds, q).contains(
                (#[trigger] cmds[i].meta.id@, cmds[i].meta.title@),
            ),
        forall|j: int|
            0 <= j < matching(cmds, q).len() ==> pair_of_hit(cmds, q, #[trigger] matching(cmds, q)[j]),
    decreases cmds.len(),
{
    if cmds.len() > 0 {
        let init = cmds.drop_last();
        let c = cmds.last();
        law_palette_search(init, q);
        let rest = matching(init, q);
        let m = matching(cmds, q);
        assert forall|i: int|
            0 <= i < cmds.len() && (contains_ci_spec(encode_utf8(cmds[i].meta.id@), q)
                || contains_ci_spec(encode_utf8(cmds[i].meta.title@), q)) implies m.contains(
                (#[trigger] cmds[i].meta.id@, cmds[i].meta.title@),
            ) by {
            if i < cmds.len() - 1 {
                assert(init[i] == cmds[i]);
                assert(init[i].meta.id@ == cmds[i].meta.id@);
                assert(rest.contains((init[i].meta.id@, init[i].meta.title@)));
                let k = choose|k: int| 0 <= k < rest.len() && rest[k] == (init[i].meta.id@, init[i].meta.title@);
                assert(m[k] == rest[k]);
            } else {
                assert(command_matches(c, q));
                assert(m[rest.len() as int] == (c.meta.id@, c.meta.title@));
            }
        }
        assert forall|j: int| 0 <= j < matching(cmds, q).len() implies pair_of_hit(
            cmds,
            q,
            #[trigger] matching(cmds, q)[j],
        ) by {
            if j < rest.len() {
                assert(m[j] == rest[j]);
                assert(pair_of_hit(init, q, rest[j]));
                let i = choose|i: int|
                    #![trigger init[i]]
                    0 <= i < init.len() && rest[j] == (init[i].meta.id@, init[i].meta.title@)
                        && (contains_ci_spec(encode_utf8(init[i].meta.id@), q)
                        || contains_ci_spec(encode_utf8(init[i].meta.title@), q));
                assert(init[i] == cmds[i]);
                assert(matching(cmds, q)[j] == (cmds[i].meta.id@, cmds[i].meta.title@));
            } else {
                assert(command_matches(c, q));
                assert(m[j] == (c.meta.id@, c.meta.title@));
                assert(c == cmds[cmds.len() - 1]);
                assert(matching(cmds, q)[j] == (cmds[cmds.len() - 1].meta.id@, cmds[cmds.len() - 1].meta.title@));
            }
        }
    } else {
        assert(matching(cmds, q).len() == 0);
    }
}

/// What matches among the first `k` commands is a prefix of what matches among them all.
proof fn lemma_matching_prefix<H>(cmds: Seq<Command<H>>, q: Seq<u8>, k: int)
    requires
        0 <= k <= cmds.len(),
    ensures
        matching(cmds.take(k), q).len() <= matching(cmds, q).len(),
        forall|j: int|
            0 <= j < matching(cmds.take(k), q).len() ==> #[trigger] matching(cmds.take(k), q)[j]
                == matching(cmds, q)[j],
    decreases cmds.len() - k,
{
    if k < cmds.len() {
        lemma_matching_prefix(cmds, q, k + 1);
        assert(cmds.take(k + 1).drop_last() =~= cmds.take(k));
        let a = matching(cmds.take(k), q);
        let b = matching(cmds.take(k + 1), q);
        assert forall|j: int| 0 <= j < a.len() implies #[trigger] a[j] == matching(cmds, q)[j] by {
            assert(b[j] == a[j]);
        }
    } else {
        assert(cmds.take(k) =~= cmds);
    }
}

} // verus!
