//! What a key press means: which part of the editor gets it (an open menu, notice, dialog,
//! panel, field or text box, the slide show, or the editor itself), the editor's keyboard
//! shortcuts, and the single-line editing the dialogs and panels share.
//!
//! Key names are those of the windowing layer ("a", "enter", "backspace", "f5", ...);
//! `cmd` is whether Ctrl or Cmd is held.

use crate::strings::{push_char, str_eq};
use crate::textnav::{byte_len, char_vec, utf8_offset};
use vstd::prelude::*;

verus! {

/// How far an arrow key nudges the selection: a tenth of an inch.
pub const NUDGE_EMU: i64 = 91_440;

/// An editor command bound to a key.
#[derive(Clone, Copy, Debug, PartialEq, Eq, Structural)]
pub enum Shortcut {
    ExportPdf,
    OpenPalette,
    OpenScriptConsole,
    OpenAiPrompt,
    ExportPptx,
    ExportSvg,
    StartShow,
    ImportPptx,
    InsertImage,
    Redo,
    Undo,
    SaveAs,
    Open,
    Ungroup,
    Group,
    ToggleGrid,
    AddRect,
    AddTextBox,
    EditText,
    Duplicate,
    Copy,
    Paste,
    ClearSelection,
    DeleteSelection,
    /// Move the selection by (`dx`, `dy`) EMU.
    Nudge { dx: i64, dy: i64 },
}

/// The editor's shortcut for a key, when nothing else has the keyboard.
pub open spec fn shortcut_spec(key: Seq<char>, cmd: bool, shift: bool) -> Option<Shortcut> {
    if key == "p"@ && cmd && shift {
        Some(Shortcut::ExportPdf)
    } else if key == "p"@ && cmd {
        Some(Shortcut::OpenPalette)
    } else if key == "r"@ && cmd && shift {
        Some(Shortcut::OpenScriptConsole)
    } else if key == "a"@ && cmd && shift {
        Some(Shortcut::OpenAiPrompt)
    } else if key == "e"@ && cmd && shift {
        Some(Shortcut::ExportPptx)
    } else if key == "e"@ && cmd {
        Some(Shortcut::ExportSvg)
    } else if key == "f5"@ {
        Some(Shortcut::StartShow)
    } else if key == "o"@ && cmd && shift {
        Some(Shortcut::ImportPptx)
    } else if key == "i"@ && !cmd {
        Some(Shortcut::InsertImage)
    } else if key == "z"@ && cmd && shift {
        Some(Shortcut::Redo)
    } else if key == "z"@ && cmd {
        Some(Shortcut::Undo)
    } else if key == "s"@ && cmd {
        Some(Shortcut::SaveAs)
    } else if key == "o"@ && cmd {
        Some(Shortcut::Open)
    } else if key == "g"@ && cmd && shift {
        Some(Shortcut::Ungroup)
    } else if key == "g"@ && cmd {
        Some(Shortcut::Group)
    } else if key == "g"@ {
        Some(Shortcut::ToggleGrid)
    } else if key == "r"@ && !cmd {
        Some(Shortcut::AddRect)
    } else if key == "t"@ && !cmd {
        Some(Shortcut::AddTextBox)
    } else if key == "f2"@ {
        Some(Shortcut::EditText)
    } else if key == "d"@ && cmd {
        Some(Shortcut::Duplicate)
    } else if key == "c"@ && cmd {
        Some(Shortcut::Copy)
    } else if key == "v"@ && cmd {
        Some(Shortcut::Paste)
    } else if key == "escape"@ {
        Some(Shortcut::ClearSelection)
    } else if (key == "delete"@ || key == "backspace"@) && !cmd {
        Some(Shortcut::DeleteSelection)
    } else if key == "left"@ && !cmd {
        Some(Shortcut::Nudge { dx: (-NUDGE_EMU) as i64, dy: 0 })
    } else if key == "right"@ && !cmd {
        Some(Shortcut::Nudge { dx: NUDGE_EMU, dy: 0 })
    } else if key == "up"@ && !cmd {
        Some(Shortcut::Nudge { dx: 0, dy: (-NUDGE_EMU) as i64 })
    } else if key == "down"@ && !cmd {
        Some(Shortcut::Nudge { dx: 0, dy: NUDGE_EMU })
    } else {
        None
    }
}

/// The editor's shortcut for a key.
pub fn shortcut(key: &str, cmd: bool, shift: bool) -> (r: Option<Shortcut>)
    ensures
        r == shortcut_spec(key@, cmd, shift),
{
    if str_eq(key, "p") && cmd && shift {
        Some(Shortcut::ExportPdf)
    } else if str_eq(key, "p") && cmd {
        Some(Shortcut::OpenPalette)
    } else if str_eq(key, "r") && cmd && shift {
        Some(Shortcut::OpenScriptConsole)
    } else if str_eq(key, "a") && cmd && shift {
        Some(Shortcut::OpenAiPrompt)
    } else if str_eq(key, "e") && cmd && shift {
        Some(Shortcut::ExportPptx)
    } else if str_eq(key, "e") && cmd {
        Some(Shortcut::ExportSvg)
    } else if str_eq(key, "f5") {
        Some(Shortcut::StartShow)
    } else if str_eq(key, "o") && cmd && shift {
        Some(Shortcut::ImportPptx)
    } else if str_eq(key, "i") && !cmd {
        Some(Shortcut::InsertImage)
    } else if str_eq(key, "z") && cmd && shift {
        Some(Shortcut::Redo)
    } else if str_eq(key, "z") && cmd {
        Some(Shortcut::Undo)
    } else if str_eq(key, "s") && cmd {
        Some(Shortcut::SaveAs)
    } else if str_eq(key, "o") && cmd {
        Some(Shortcut::Open)
    } else if str_eq(key, "g") && cmd && shift {
        Some(Shortcut::Ungroup)
    } else if str_eq(key, "g") && cmd {
        Some(Shortcut::Group)
    } else if str_eq(key, "g") {
        Some(Shortcut::ToggleGrid)
    } else if str_eq(key, "r") && !cmd {
        Some(Shortcut::AddRect)
    } else if str_eq(key, "t") && !cmd {
        Some(Shortcut::AddTextBox)
    } else if str_eq(key, "f2") {
        Some(Shortcut::EditText)
    } else if str_eq(key, "d") && cmd {
        Some(Shortcut::Duplicate)
    } else if str_eq(key, "c") && cmd {
        Some(Shortcut::Copy)
    } else if str_eq(key, "v") && cmd {
        Some(Shortcut::Paste)
    } else if str_eq(key, "escape") {
        Some(Shortcut::ClearSelection)
    } else if (str_eq(key, "delete") || str_eq(key, "backspace")) && !cmd {
        Some(Shortcut::DeleteSelection)
    } else if str_eq(key, "left") && !cmd {
        Some(Shortcut::Nudge { dx: -NUDGE_EMU, dy: 0 })
    } else if str_eq(key, "right") && !cmd {
        Some(Shortcut::Nudge { dx: NUDGE_EMU, dy: 0 })
    } else if str_eq(key, "up") && !cmd {
        Some(Shortcut::Nudge { dx: 0, dy: -NUDGE_EMU })
    } else if str_eq(key, "down") && !cmd {
        Some(Shortcut::Nudge { dx: 0, dy: NUDGE_EMU })
    } else {
        None
    }
}

/// What currently holds the keyboard, from the editor's point of view.
#[derive(Clone, Copy, Debug, PartialEq, Eq, Structural)]
pub struct KeyFocus {
    pub context_menu: bool,
    pub notice: bool,
    pub save_dialog: bool,
    pub layout_rename: bool,
    pub layer_rename: bool,
    pub ai_prompt: bool,
    pub script_console: bool,
    pub palette: bool,
    pub field: bool,
    pub text_box: bool,
    pub presenting: bool,
}

/// The single-line editors that take typed keys.
#[derive(Clone, Copy, Debug, PartialEq, Eq, Structural)]
pub enum Panel {
    SaveDialog,
    LayoutRename,
    LayerRename,
    AiPrompt,
    ScriptConsole,
    Palette,
    Field,
}

/// What a key does during the slide show.
#[derive(Clone, Copy, Debug, PartialEq, Eq, Structural)]
pub enum ShowKey {
    /// Leave the show.
    End,
    /// Advance the entrance animations of the current slide.
    Advance,
    /// Go to the next slide (leaving the show after the last).
    Next,
    Previous,
}

/// Where a key press goes.
#[derive(Clone, Copy, Debug, PartialEq, Eq, Structural)]
pub enum KeyRoute {
    CloseMenu,
    DismissNotice,
    Panel(Panel),
    TextBox,
    Show(Option<ShowKey>),
    Editor(Option<Shortcut>),
}

/// A slide-show key.
pub open spec fn show_key_spec(key: Seq<char>) -> Option<ShowKey> {
    if key == "escape"@ {
        Some(ShowKey::End)
    } else if key == "space"@ {
        Some(ShowKey::Advance)
    } else if key == "right"@ || key == "down"@ {
        Some(ShowKey::Next)
    } else if key == "left"@ || key == "up"@ {
        Some(ShowKey::Previous)
    } else {
        None
    }
}

/// Where a key press goes: Escape closes an open context menu first, Escape or Enter
/// dismisses a notice, then the dialogs, panels, field and text box take the keyboard in
/// that order, then the slide show, and otherwise the editor's shortcuts.
pub open spec fn route_spec(f: KeyFocus, key: Seq<char>, cmd: bool, shift: bool) -> KeyRoute {
    if f.context_menu && key == "escape"@ {
        KeyRoute::CloseMenu
    } else if f.notice && (key == "escape"@ || key == "enter"@) {
        KeyRoute::DismissNotice
    } else if f.save_dialog {
        KeyRoute::Panel(Panel::SaveDialog)
    } else if f.layout_rename {
        KeyRoute::Panel(Panel::LayoutRename)
    } else if f.layer_rename {
        KeyRoute::Panel(Panel::LayerRename)
    } else if f.ai_prompt {
        KeyRoute::Panel(Panel::AiPrompt)
    } else if f.script_console {
        KeyRoute::Panel(Panel::ScriptConsole)
    } else if f.palette {
        KeyRoute::Panel(Panel::Palette)
    } else if f.field {
        KeyRoute::Panel(Panel::Field)
    } else if f.text_box {
        KeyRoute::TextBox
    } else if f.presenting {
        KeyRoute::Show(show_key_spec(key))
    } else {
        KeyRoute::Editor(shortcut_spec(key, cmd, shift))
    }
}

fn show_key(key: &str) -> (r: Option<ShowKey>)
    ensures
        r == show_key_spec(key@),
{
    if str_eq(key, "escape") {
        Some(ShowKey::End)
    } else if str_eq(key, "space") {
        Some(ShowKey::Advance)
    } else if str_eq(key, "right") || str_eq(key, "down") {
        Some(ShowKey::Next)
    } else if str_eq(key, "left") || str_eq(key, "up") {
        Some(ShowKey::Previous)
    } else {
        None
    }
}

/// Where a key press goes.
pub fn route_key(f: KeyFocus, key: &str, cmd: bool, shift: bool) -> (r: KeyRoute)
    ensures
        r == route_spec(f, key@, cmd, shift),
{
    if f.context_menu && str_eq(key, "escape") {
        KeyRoute::CloseMenu
    } else if f.notice && (str_eq(key, "escape") || str_eq(key, "enter")) {
        KeyRoute::DismissNotice
    } else if f.save_dialog {
        KeyRoute::Panel(Panel::SaveDialog)
    } else if f.layout_rename {
        KeyRoute::Panel(Panel::LayoutRename)
    } else if f.layer_rename {
        KeyRoute::Panel(Panel::LayerRename)
    } else if f.ai_prompt {
        KeyRoute::Panel(Panel::AiPrompt)
    } else if f.script_console {
        KeyRoute::Panel(Panel::ScriptConsole)
    } else if f.palette {
        KeyRoute::Panel(Panel::Palette)
    } else if f.field {
        KeyRoute::Panel(Panel::Field)
    } else if f.text_box {
        KeyRoute::TextBox
    } else if f.presenting {
        KeyRoute::Show(show_key(key))
    } else {
        KeyRoute::Editor(shortcut(key, cmd, shift))
    }
}

/// What a key does in a single-line editor.
#[derive(Clone, Debug, PartialEq, Eq)]
pub enum PanelKey {
    /// Close without acting.
    Cancel,
    /// Act on the text (and close).
    Submit,
    /// Erase the last character.
    Pop,
    /// Append this text.
    Insert(String),
    /// Paste the clipboard's text.
    Paste,
    /// Move the highlight up or down a list.
    Up,
    Down,
    Ignore,
}

/// A panel key as plain values.
pub enum PanelKeyView {
    Cancel,
    Submit,
    Pop,
    Insert(Seq<char>),
    Paste,
    Up,
    Down,
    Ignore,
}

impl View for PanelKey {
    type V = PanelKeyView;

    open spec fn view(&self) -> PanelKeyView {
        match self {
            PanelKey::Cancel => PanelKeyView::Cancel,
            PanelKey::Submit => PanelKeyView::Submit,
            PanelKey::Pop => PanelKeyView::Pop,
            PanelKey::Insert(t) => PanelKeyView::Insert(t@),
            PanelKey::Paste => PanelKeyView::Paste,
            PanelKey::Up => PanelKeyView::Up,
            PanelKey::Down => PanelKeyView::Down,
            PanelKey::Ignore => PanelKeyView::Ignore,
        }
    }
}

/// A key that types one character, or a digit, point or minus sign for a numeric field.
pub open spec fn types_char(panel: Panel, key: Seq<char>) -> bool {
    &&& key.len() == 1
    &&& panel == Panel::Field ==> ('0' <= key[0] <= '9' || key[0] == '.' || key[0] == '-')
}

/// What a key does in each single-line editor. Escape always closes it; Enter acts on the
/// text (in the script console only with Ctrl/Cmd, since there Enter starts a new line);
/// Backspace erases; Space and typed characters are appended, except with Ctrl/Cmd held in
/// the AI prompt and the script console, where Ctrl/Cmd+V pastes instead; the console
/// indents with Tab, and the palette moves its highlight with Up and Down.
pub open spec fn panel_key_spec(panel: Panel, key: Seq<char>, cmd: bool) -> PanelKeyView {
    if key == "escape"@ {
        PanelKeyView::Cancel
    } else {
        match panel {
            Panel::ScriptConsole => if key == "enter"@ && cmd {
                PanelKeyView::Submit
            } else if key == "v"@ && cmd {
                PanelKeyView::Paste
            } else if key == "enter"@ {
                PanelKeyView::Insert(seq!['\n'])
            } else if key == "backspace"@ {
                PanelKeyView::Pop
            } else if key == "space"@ {
                PanelKeyView::Insert(seq![' '])
            } else if key == "tab"@ {
                PanelKeyView::Insert(seq![' ', ' '])
            } else if types_char(panel, key) && !cmd {
                PanelKeyView::Insert(key)
            } else {
                PanelKeyView::Ignore
            },
            Panel::AiPrompt => if key == "v"@ && cmd {
                PanelKeyView::Paste
            } else if key == "enter"@ {
                PanelKeyView::Submit
            } else if key == "backspace"@ {
                PanelKeyView::Pop
            } else if key == "space"@ {
                PanelKeyView::Insert(seq![' '])
            } else if types_char(panel, key) && !cmd {
                PanelKeyView::Insert(key)
            } else {
                PanelKeyView::Ignore
            },
            Panel::Field => if key == "enter"@ {
                PanelKeyView::Submit
            } else if key == "backspace"@ {
                PanelKeyView::Pop
            } else if types_char(panel, key) {
                PanelKeyView::Insert(key)
            } else {
                PanelKeyView::Ignore
            },
            _ => if key == "enter"@ {
                PanelKeyView::Submit
            } else if key == "backspace"@ {
                PanelKeyView::Pop
            } else if panel == Panel::Palette && key == "up"@ {
                PanelKeyView::Up
            } else if panel == Panel::Palette && key == "down"@ {
                PanelKeyView::Down
            } else if key == "space"@ {
                PanelKeyView::Insert(seq![' '])
            } else if types_char(panel, key) {
                PanelKeyView::Insert(key)
            } else {
                PanelKeyView::Ignore
            },
        }
    }
}

fn types_char_exec(panel: Panel, key: &str) -> (r: bool)
    ensures
        r == types_char(panel, key@),
{
    if key.unicode_len() != 1 {
        return false;
    }
    match panel {
        Panel::Field => {
            let c = key.get_char(0);
            ('0' <= c && c <= '9') || c == '.' || c == '-'
        },
        _ => true,
    }
}

fn text_of(t: &str) -> (s: String)
    ensures
        s@ == t@,
{
    let mut s = String::new();
    s.append(t);
    s
}

/// What a key does in a single-line editor.
pub fn panel_key(panel: Panel, key: &str, cmd: bool) -> (r: PanelKey)
    ensures
        r@ == panel_key_spec(panel, key@, cmd),
{
    proof {
        reveal_strlit("\n");
        reveal_strlit(" ");
        reveal_strlit("  ");
        assert("\n"@ =~= seq!['\n']);
        assert(" "@ =~= seq![' ']);
        assert("  "@ =~= seq![' ', ' ']);
    }
    if str_eq(key, "escape") {
        return PanelKey::Cancel;
    }
    match panel {
        Panel::ScriptConsole => if str_eq(key, "enter") && cmd {
            PanelKey::Submit
        } else if str_eq(key, "v") && cmd {
            PanelKey::Paste
        } else if str_eq(key, "enter") {
            PanelKey::Insert(text_of("\n"))
        } else if str_eq(key, "backspace") {
            PanelKey::Pop
        } else if str_eq(key, "space") {
            PanelKey::Insert(text_of(" "))
        } else if str_eq(key, "tab") {
            PanelKey::Insert(text_of("  "))
        } else if types_char_exec(panel, key) && !cmd {
            PanelKey::Insert(text_of(key))
        } else {
            PanelKey::Ignore
        },
        Panel::AiPrompt => if str_eq(key, "v") && cmd {
            PanelKey::Paste
        } else if str_eq(key, "enter") {
            PanelKey::Submit
        } else if str_eq(key, "backspace") {
            PanelKey::Pop
        } else if str_eq(key, "space") {
            PanelKey::Insert(text_of(" "))
        } else if types_char_exec(panel, key) && !cmd {
            PanelKey::Insert(text_of(key))
        } else {
            PanelKey::Ignore
        },
        Panel::Field => if str_eq(key, "enter") {
            PanelKey::Submit
        } else if str_eq(key, "backspace") {
            PanelKey::Pop
        } else if types_char_exec(panel, key) {
            PanelKey::Insert(text_of(key))
        } else {
            PanelKey::Ignore
        },
        _ => if str_eq(key, "enter") {
            PanelKey::Submit
        } else if str_eq(key, "backspace") {
            PanelKey::Pop
        } else if panel == Panel::Palette && str_eq(key, "up") {
            PanelKey::Up
        } else if panel == Panel::Palette && str_eq(key, "down") {
            PanelKey::Down
        } else if str_eq(key, "space") {
            PanelKey::Insert(text_of(" "))
        } else if types_char_exec(panel, key) {
            PanelKey::Insert(text_of(key))
        } else {
            PanelKey::Ignore
        },
    }
}

/// A line after an erase or an append: an append happens only while the line is shorter
/// than `limit` bytes, when there is a limit; other keys leave the line as it is.
pub open spec fn edit_line_spec(buf: Seq<char>, k: PanelKeyView, limit: Option<usize>) -> Seq<char> {
    match k {
        PanelKeyView::Pop => if buf.len() > 0 {
            buf.drop_last()
        } else {
            buf
        },
        PanelKeyView::Insert(t) => if limit matches Some(n) && utf8_offset(buf, buf.len() as int)
            >= n {
            buf
        } else {
            buf + t
        },
        _ => buf,
    }
}

/// Typing a character and then erasing gives the line back, unless the line was full.
pub proof fn law_type_then_erase(buf: Seq<char>, c: char, limit: Option<usize>)
    requires
        !(limit matches Some(n) && utf8_offset(buf, buf.len() as int) >= n),
    ensures
        edit_line_spec(
            edit_line_spec(buf, PanelKeyView::Insert(seq![c]), limit),
            PanelKeyView::Pop,
            limit,
        ) == buf,
{
    assert((buf + seq![c]).drop_last() =~= buf);
}

/// Apply an erase or an append to a line being edited.
pub fn edit_line(buf: &mut String, k: &PanelKey, limit: Option<usize>)
    ensures
        final(buf)@ == edit_line_spec(old(buf)@, k@, limit),
{
    match k {
        PanelKey::Pop => {
            let cs = char_vec(buf.as_str());
            if cs.len() > 0 {
                let mut s = String::new();
                let mut i: usize = 0;
                while i + 1 < cs.len()
                    invariant
                        cs.len() > 0,
                        i + 1 <= cs.len(),
                        s@ == cs@.take(i as int),
                    decreases cs.len() - i,
                {
                    push_char(&mut s, cs[i]);
                    i = i + 1;
                    assert(s@ =~= cs@.take(i as int));
                }
                assert(cs@.take(i as int) =~= cs@.drop_last());
                *buf = s;
            }
        },
        PanelKey::Insert(t) => {
            let full = match limit {
                Some(n) => byte_len(buf.as_str()) >= n,
                None => false,
            };
            if !full {
                buf.append(t.as_str());
            }
        },
        _ => {},
    }
}

} // verus!
