use hayate::highlight::{
    highlight_rhai, HL_COMMENT, HL_DEFAULT, HL_KEYWORD, HL_NUMBER, HL_STRING,
};

fn color_of(segs: &[(String, u32)], needle: &str) -> Option<u32> {
    segs.iter().find(|(t, _)| t == needle).map(|(_, c)| *c)
}

#[test]
fn keywords_strings_numbers_and_comments_are_tinted() {
    let segs = highlight_rhai(r#"let x = 42; // note"#);
    assert_eq!(color_of(&segs, "let"), Some(HL_KEYWORD));
    assert_eq!(color_of(&segs, "x"), Some(HL_DEFAULT));
    assert_eq!(color_of(&segs, "42"), Some(HL_NUMBER));
    assert_eq!(
        segs.iter()
            .find(|(t, _)| t.starts_with("//"))
            .map(|(_, c)| *c),
        Some(HL_COMMENT)
    );

    let segs = highlight_rhai(r##"shape_set_fill(e, "#ff0000");"##);
    assert_eq!(color_of(&segs, "\"#ff0000\""), Some(HL_STRING));
    // A `//` inside a string is part of the string, not a comment.
    let segs = highlight_rhai(r#"let u = "http://x";"#);
    assert_eq!(color_of(&segs, "\"http://x\""), Some(HL_STRING));
}

#[test]
fn segments_cover_the_whole_line() {
    let line = r#"for i in 0..3 { shape.move(i, "a\"b"); } // done"#;
    let segs = highlight_rhai(line);
    let joined: String = segs.iter().map(|(t, _)| t.as_str()).collect();
    assert_eq!(joined, line);
    assert!(segs.iter().all(|(t, _)| !t.is_empty()));
}

#[test]
fn exact_segments() {
    assert_eq!(
        highlight_rhai("x.y(1);"),
        vec![
            ("x.y".to_string(), HL_DEFAULT),
            ("(".to_string(), HL_DEFAULT),
            ("1".to_string(), HL_NUMBER),
            (");".to_string(), HL_DEFAULT),
        ]
    );
    // An escaped quote stays inside the string; an unclosed string runs to the end.
    assert_eq!(
        highlight_rhai(r#""a\"b" "c"#),
        vec![
            (r#""a\"b""#.to_string(), HL_STRING),
            (" ".to_string(), HL_DEFAULT),
            ("\"c".to_string(), HL_STRING),
        ]
    );
    assert_eq!(highlight_rhai(""), vec![]);
    assert_eq!(
        highlight_rhai("  // c"),
        vec![
            ("  ".to_string(), HL_DEFAULT),
            ("// c".to_string(), HL_COMMENT),
        ]
    );
    assert_eq!(
        highlight_rhai("return 名前"),
        vec![
            ("return".to_string(), HL_KEYWORD),
            (" ".to_string(), HL_DEFAULT),
            ("名前".to_string(), HL_DEFAULT),
        ]
    );
}
