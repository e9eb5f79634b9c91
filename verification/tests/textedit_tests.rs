use hayate::color::{Color, ThemeColorToken};
use hayate::font::{FontRef, ThemeFontSlot};
use hayate::text::{Paragraph, Run, TextBody};
use hayate::textedit::typst_source_of;
use hayate::textedit::{edit_key_of, EditKey, TextEdit};

fn editing(buf: &str, start: usize, end: usize) -> TextEdit {
    let mut te = TextEdit::new(buf.to_string());
    te.selected = start..end;
    te
}

#[test]
fn new_edit_puts_caret_at_end() {
    let te = TextEdit::new("héllo".to_string());
    assert_eq!(te.buf, "héllo");
    assert_eq!(te.selected, 6..6);
    assert!(te.marked.is_none());
}

#[test]
fn key_names_map_to_edit_keys() {
    assert_eq!(edit_key_of("a", true), Some(EditKey::SelectAll));
    assert_eq!(edit_key_of("a", false), None);
    assert_eq!(edit_key_of("tab", false), Some(EditKey::Tab));
    assert_eq!(edit_key_of("enter", true), Some(EditKey::Enter));
    assert_eq!(edit_key_of("backspace", false), Some(EditKey::Backspace));
    assert_eq!(edit_key_of("delete", false), Some(EditKey::Delete));
    assert_eq!(edit_key_of("left", false), Some(EditKey::Left));
    assert_eq!(edit_key_of("right", false), Some(EditKey::Right));
    assert_eq!(edit_key_of("up", false), Some(EditKey::Up));
    assert_eq!(edit_key_of("down", false), Some(EditKey::Down));
    assert_eq!(edit_key_of("escape", false), None);
    assert_eq!(edit_key_of("x", false), None);
}

#[test]
fn select_all_covers_the_buffer_and_drops_composition() {
    let mut te = editing("añb", 1, 1);
    te.marked = Some(1..3);
    assert!(!te.key(EditKey::SelectAll));
    assert_eq!(te.selected, 0..4);
    assert!(te.marked.is_none());
    assert_eq!(te.buf, "añb");
}

#[test]
fn tab_inserts_two_spaces_over_the_selection() {
    let mut te = editing("abcd", 1, 3);
    assert!(te.key(EditKey::Tab));
    assert_eq!(te.buf, "a  d");
    assert_eq!(te.selected, 3..3);
}

#[test]
fn enter_inserts_a_line_break() {
    let mut te = editing("ab", 1, 1);
    assert!(te.key(EditKey::Enter));
    assert_eq!(te.buf, "a\nb");
    assert_eq!(te.selected, 2..2);
}

#[test]
fn backspace_erases_the_character_before_the_caret() {
    let mut te = editing("aéb", 3, 3);
    assert!(te.key(EditKey::Backspace));
    assert_eq!(te.buf, "ab");
    assert_eq!(te.selected, 1..1);
}

#[test]
fn backspace_erases_the_selection() {
    let mut te = editing("hello", 1, 4);
    assert!(te.key(EditKey::Backspace));
    assert_eq!(te.buf, "ho");
    assert_eq!(te.selected, 1..1);
}

#[test]
fn backspace_at_start_changes_nothing_but_composition() {
    let mut te = editing("ab", 0, 0);
    te.marked = Some(0..1);
    assert!(te.key(EditKey::Backspace));
    assert_eq!(te.buf, "ab");
    assert_eq!(te.selected, 0..0);
    assert!(te.marked.is_none());
}

#[test]
fn delete_erases_the_character_after_the_caret() {
    let mut te = editing("aéb", 1, 1);
    assert!(te.key(EditKey::Delete));
    assert_eq!(te.buf, "ab");
    assert_eq!(te.selected, 1..1);
    let mut end = editing("ab", 2, 2);
    assert!(end.key(EditKey::Delete));
    assert_eq!(end.buf, "ab");
    assert_eq!(end.selected, 2..2);
}

#[test]
fn arrows_step_over_whole_characters() {
    let mut te = editing("aé", 3, 3);
    assert!(!te.key(EditKey::Left));
    assert_eq!(te.selected, 1..1);
    assert!(!te.key(EditKey::Right));
    assert_eq!(te.selected, 3..3);
    assert!(!te.key(EditKey::Right));
    assert_eq!(te.selected, 3..3);
    let mut start = editing("ab", 0, 0);
    start.key(EditKey::Left);
    assert_eq!(start.selected, 0..0);
    let mut sel = editing("abc", 1, 2);
    sel.key(EditKey::Left);
    assert_eq!(sel.selected, 0..0);
}

#[test]
fn up_and_down_keep_the_column() {
    let mut te = editing("ab\ncd", 4, 4);
    assert!(!te.key(EditKey::Up));
    assert_eq!(te.selected, 1..1);
    assert!(!te.key(EditKey::Down));
    assert_eq!(te.selected, 4..4);
}

#[test]
fn ime_composition_then_commit_replaces_the_composed_text() {
    let mut te = TextEdit::new(String::new());
    te.apply_ime(None, "か", true);
    assert_eq!(te.buf, "か");
    assert_eq!(te.marked, Some(0..3));
    assert_eq!(te.selected, 3..3);
    te.apply_ime(None, "化", false);
    assert_eq!(te.buf, "化");
    assert!(te.marked.is_none());
    assert_eq!(te.selected, 3..3);
}

#[test]
fn ime_with_empty_text_leaves_no_composition() {
    let mut te = editing("ab", 1, 1);
    te.apply_ime(None, "", true);
    assert_eq!(te.buf, "ab");
    assert!(te.marked.is_none());
    assert_eq!(te.selected, 1..1);
}

#[test]
fn ime_replaces_a_utf16_range() {
    let mut te = editing("héllo", 0, 0);
    te.apply_ime(Some(1..2), "e", false);
    assert_eq!(te.buf, "hello");
    assert_eq!(te.selected, 2..2);
    let mut emoji = editing("a😀b", 0, 0);
    emoji.apply_ime(Some(1..3), "x", false);
    assert_eq!(emoji.buf, "axb");
    assert_eq!(emoji.selected, 2..2);
}

#[test]
fn text_for_utf16_range() {
    let te = TextEdit::new("héllo".to_string());
    assert_eq!(te.text_for_range(1..3), Some("él".to_string()));
    assert_eq!(te.text_for_range(0..0), Some(String::new()));
    assert_eq!(te.text_for_range(3..1), None);
    assert_eq!(te.text_for_range(3..99), Some("lo".to_string()));
}

#[test]
fn source_of_a_text_box_is_one_line_per_paragraph() {
    let run = |t: &str| Run {
        text: t.to_string(),
        font: FontRef::Theme(ThemeFontSlot::Minor),
        size: 228_600,
        color: Color::theme(ThemeColorToken::Dk1),
        bold: false,
        italic: false,
        underline: false,
    };
    let tb = TextBody {
        paragraphs: vec![
            Paragraph::new(vec![run("Hello, "), run("world")]),
            Paragraph::new(vec![]),
            Paragraph::new(vec![run("bye")]),
        ],
        autofit: false,
    };
    assert_eq!(typst_source_of(&tb), "Hello, world\n\nbye");
    let empty = TextBody {
        paragraphs: vec![],
        autofit: false,
    };
    assert_eq!(typst_source_of(&empty), "");
}
