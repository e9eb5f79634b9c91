use hayate::keys::{
    edit_line, panel_key, route_key, shortcut, KeyFocus, KeyRoute, Panel, PanelKey, ShowKey,
    Shortcut, NUDGE_EMU,
};

fn idle() -> KeyFocus {
    KeyFocus {
        context_menu: false,
        notice: false,
        save_dialog: false,
        layout_rename: false,
        layer_rename: false,
        ai_prompt: false,
        script_console: false,
        palette: false,
        field: false,
        text_box: false,
        presenting: false,
    }
}

#[test]
fn shortcuts_with_and_without_shift() {
    assert_eq!(shortcut("p", true, true), Some(Shortcut::ExportPdf));
    assert_eq!(shortcut("p", true, false), Some(Shortcut::OpenPalette));
    assert_eq!(shortcut("p", false, false), None);
    assert_eq!(shortcut("z", true, true), Some(Shortcut::Redo));
    assert_eq!(shortcut("z", true, false), Some(Shortcut::Undo));
    assert_eq!(shortcut("g", true, true), Some(Shortcut::Ungroup));
    assert_eq!(shortcut("g", true, false), Some(Shortcut::Group));
    assert_eq!(shortcut("g", false, false), Some(Shortcut::ToggleGrid));
    assert_eq!(shortcut("r", true, true), Some(Shortcut::OpenScriptConsole));
    assert_eq!(shortcut("r", true, false), None);
    assert_eq!(shortcut("r", false, false), Some(Shortcut::AddRect));
    assert_eq!(shortcut("a", true, true), Some(Shortcut::OpenAiPrompt));
    assert_eq!(shortcut("a", true, false), None);
    assert_eq!(shortcut("e", true, true), Some(Shortcut::ExportPptx));
    assert_eq!(shortcut("e", true, false), Some(Shortcut::ExportSvg));
    assert_eq!(shortcut("o", true, true), Some(Shortcut::ImportPptx));
    assert_eq!(shortcut("o", true, false), Some(Shortcut::Open));
    assert_eq!(shortcut("f5", false, false), Some(Shortcut::StartShow));
    assert_eq!(shortcut("f2", false, false), Some(Shortcut::EditText));
    assert_eq!(shortcut("i", false, false), Some(Shortcut::InsertImage));
    assert_eq!(shortcut("i", true, false), None);
    assert_eq!(shortcut("t", false, false), Some(Shortcut::AddTextBox));
    assert_eq!(shortcut("s", true, false), Some(Shortcut::SaveAs));
    assert_eq!(shortcut("d", true, false), Some(Shortcut::Duplicate));
    assert_eq!(shortcut("c", true, false), Some(Shortcut::Copy));
    assert_eq!(shortcut("v", true, false), Some(Shortcut::Paste));
    assert_eq!(shortcut("escape", true, false), Some(Shortcut::ClearSelection));
    assert_eq!(shortcut("delete", false, false), Some(Shortcut::DeleteSelection));
    assert_eq!(shortcut("backspace", false, false), Some(Shortcut::DeleteSelection));
    assert_eq!(shortcut("backspace", true, false), None);
}

#[test]
fn arrows_nudge_by_a_tenth_of_an_inch() {
    assert_eq!(NUDGE_EMU, 91_440);
    assert_eq!(
        shortcut("left", false, false),
        Some(Shortcut::Nudge { dx: -91_440, dy: 0 })
    );
    assert_eq!(
        shortcut("right", false, true),
        Some(Shortcut::Nudge { dx: 91_440, dy: 0 })
    );
    assert_eq!(
        shortcut("up", false, false),
        Some(Shortcut::Nudge { dx: 0, dy: -91_440 })
    );
    assert_eq!(
        shortcut("down", false, false),
        Some(Shortcut::Nudge { dx: 0, dy: 91_440 })
    );
    assert_eq!(shortcut("down", true, false), None);
}

#[test]
fn menus_and_notices_take_escape_first() {
    let mut f = idle();
    f.context_menu = true;
    f.save_dialog = true;
    assert_eq!(route_key(f, "escape", false, false), KeyRoute::CloseMenu);
    assert_eq!(
        route_key(f, "enter", false, false),
        KeyRoute::Panel(Panel::SaveDialog)
    );
    let mut g = idle();
    g.notice = true;
    assert_eq!(route_key(g, "enter", false, false), KeyRoute::DismissNotice);
    assert_eq!(route_key(g, "escape", false, false), KeyRoute::DismissNotice);
    assert_eq!(
        route_key(g, "r", false, false),
        KeyRoute::Editor(Some(Shortcut::AddRect))
    );
}

#[test]
fn panels_take_the_keyboard_in_order() {
    let mut f = idle();
    f.palette = true;
    f.text_box = true;
    f.presenting = true;
    assert_eq!(route_key(f, "x", false, false), KeyRoute::Panel(Panel::Palette));
    f.palette = false;
    assert_eq!(route_key(f, "x", false, false), KeyRoute::TextBox);
    f.text_box = false;
    assert_eq!(route_key(f, "x", false, false), KeyRoute::Show(None));
    f.layer_rename = true;
    f.ai_prompt = true;
    assert_eq!(
        route_key(f, "x", false, false),
        KeyRoute::Panel(Panel::LayerRename)
    );
}

#[test]
fn slide_show_keys() {
    let mut f = idle();
    f.presenting = true;
    assert_eq!(
        route_key(f, "escape", false, false),
        KeyRoute::Show(Some(ShowKey::End))
    );
    assert_eq!(
        route_key(f, "space", false, false),
        KeyRoute::Show(Some(ShowKey::Advance))
    );
    assert_eq!(
        route_key(f, "down", false, false),
        KeyRoute::Show(Some(ShowKey::Next))
    );
    assert_eq!(
        route_key(f, "left", false, false),
        KeyRoute::Show(Some(ShowKey::Previous))
    );
}

#[test]
fn dialog_keys() {
    assert_eq!(panel_key(Panel::SaveDialog, "escape", false), PanelKey::Cancel);
    assert_eq!(panel_key(Panel::SaveDialog, "enter", false), PanelKey::Submit);
    assert_eq!(panel_key(Panel::LayerRename, "backspace", false), PanelKey::Pop);
    assert_eq!(
        panel_key(Panel::LayoutRename, "space", false),
        PanelKey::Insert(" ".to_string())
    );
    assert_eq!(
        panel_key(Panel::LayoutRename, "é", true),
        PanelKey::Insert("é".to_string())
    );
    assert_eq!(panel_key(Panel::SaveDialog, "f5", false), PanelKey::Ignore);
}

#[test]
fn script_console_keys() {
    assert_eq!(panel_key(Panel::ScriptConsole, "enter", true), PanelKey::Submit);
    assert_eq!(
        panel_key(Panel::ScriptConsole, "enter", false),
        PanelKey::Insert("\n".to_string())
    );
    assert_eq!(
        panel_key(Panel::ScriptConsole, "tab", false),
        PanelKey::Insert("  ".to_string())
    );
    assert_eq!(panel_key(Panel::ScriptConsole, "v", true), PanelKey::Paste);
    assert_eq!(panel_key(Panel::ScriptConsole, "c", true), PanelKey::Ignore);
    assert_eq!(
        panel_key(Panel::ScriptConsole, "c", false),
        PanelKey::Insert("c".to_string())
    );
}

#[test]
fn ai_prompt_keys() {
    assert_eq!(panel_key(Panel::AiPrompt, "enter", true), PanelKey::Submit);
    assert_eq!(panel_key(Panel::AiPrompt, "v", true), PanelKey::Paste);
    assert_eq!(panel_key(Panel::AiPrompt, "tab", false), PanelKey::Ignore);
    assert_eq!(
        panel_key(Panel::AiPrompt, "q", false),
        PanelKey::Insert("q".to_string())
    );
}

#[test]
fn palette_and_field_keys() {
    assert_eq!(panel_key(Panel::Palette, "up", false), PanelKey::Up);
    assert_eq!(panel_key(Panel::Palette, "down", false), PanelKey::Down);
    assert_eq!(panel_key(Panel::SaveDialog, "up", false), PanelKey::Ignore);
    assert_eq!(
        panel_key(Panel::Field, "7", false),
        PanelKey::Insert("7".to_string())
    );
    assert_eq!(
        panel_key(Panel::Field, "-", false),
        PanelKey::Insert("-".to_string())
    );
    assert_eq!(panel_key(Panel::Field, "x", false), PanelKey::Ignore);
    assert_eq!(panel_key(Panel::Field, "space", false), PanelKey::Ignore);
}

#[test]
fn editing_a_line() {
    let mut buf = "ab".to_string();
    edit_line(&mut buf, &PanelKey::Insert("é".to_string()), None);
    assert_eq!(buf, "abé");
    edit_line(&mut buf, &PanelKey::Pop, None);
    assert_eq!(buf, "ab");
    edit_line(&mut buf, &PanelKey::Submit, None);
    assert_eq!(buf, "ab");
    let mut empty = String::new();
    edit_line(&mut empty, &PanelKey::Pop, None);
    assert_eq!(empty, "");
    let mut field = "1234567".to_string();
    edit_line(&mut field, &PanelKey::Insert("8".to_string()), Some(8));
    assert_eq!(field, "12345678");
    edit_line(&mut field, &PanelKey::Insert("9".to_string()), Some(8));
    assert_eq!(field, "12345678");
}
