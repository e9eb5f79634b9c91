use hayate::paths::{
    autosave_path, clipboard_path_text, pdf_path, percent_decode, remember_recent, MAX_RECENTS,
};

#[test]
fn lib_autosave_path_appends_extension() {
    let p = "deck.hayate";
    assert_eq!(autosave_path(p), "deck.hayate.autosave");
}

#[test]
fn tests_autosave_path_appends_extension() {
    let p = "deck.hayate";
    assert_eq!(autosave_path(p), "deck.hayate.autosave".to_string());
}

#[test]
fn autosave_path_of_a_path_with_directories() {
    assert_eq!(autosave_path("/tmp/a b/deck"), "/tmp/a b/deck.autosave");
}

#[test]
fn pdf_path_replaces_or_appends_extension() {
    assert_eq!(pdf_path("deck.hayate"), "deck.pdf");
    assert_eq!(pdf_path("deck"), "deck.pdf");
    assert_eq!(pdf_path("a.b.c"), "a.b.pdf");
    assert_eq!(pdf_path("dir.v2/deck"), "dir.v2/deck.pdf");
    assert_eq!(pdf_path("my.dir/deck"), "my.dir/deck.pdf");
    assert_eq!(pdf_path("my.dir/deck.hayate"), "my.dir/deck.pdf");
    assert_eq!(pdf_path(""), ".pdf");
}

#[test]
fn percent_escapes_decode() {
    assert_eq!(percent_decode("a%20b"), "a b");
    assert_eq!(percent_decode("%E3%81%82"), "あ");
    assert_eq!(percent_decode("100%"), "100%");
    assert_eq!(percent_decode("%zz%2"), "%zz%2");
    assert_eq!(percent_decode("%2f%2F"), "//");
    assert_eq!(percent_decode("%ff"), "\u{FFFD}");
}

#[test]
fn clipboard_text_names_a_path() {
    assert_eq!(clipboard_path_text(""), None);
    assert_eq!(
        clipboard_path_text("file:///home/me/My%20Pic.png\nsecond line"),
        Some("/home/me/My Pic.png".to_string())
    );
    assert_eq!(clipboard_path_text("  /tmp/a.png \r\nx"), Some("/tmp/a.png".to_string()));
    assert_eq!(clipboard_path_text("\nabc"), Some(String::new()));
    assert_eq!(clipboard_path_text("just words"), Some("just words".to_string()));
}

#[test]
fn recent_list_moves_the_opened_file_first() {
    let list = vec!["a.hayate".to_string(), "b.hayate".to_string(), "c.hayate".to_string()];
    assert_eq!(
        remember_recent(list.clone(), "b.hayate"),
        vec!["b.hayate", "a.hayate", "c.hayate"]
    );
    assert_eq!(
        remember_recent(list, "d.hayate"),
        vec!["d.hayate", "a.hayate", "b.hayate", "c.hayate"]
    );
    let long: Vec<String> = (0..20).map(|i| format!("{i}.hayate")).collect();
    let r = remember_recent(long, "new.hayate");
    assert_eq!(r.len(), MAX_RECENTS);
    assert_eq!(r[0], "new.hayate");
    assert_eq!(r[11], "10.hayate");
}
