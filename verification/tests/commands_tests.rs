use hayate::color::Rgba;
use hayate::commands::{
    contains_ci, fn_name, param_type, parse_hex, CommandMeta, CommandRegistry, ParamSpec, ParamType,
    ScriptError,
};

#[test]
fn param_tags_round_trip() {
    let all = [
        ParamType::Entity,
        ParamType::Int,
        ParamType::Float,
        ParamType::String,
        ParamType::Color,
        ParamType::Bool,
    ];
    let tags = ["entity", "int", "float", "string", "color", "bool"];
    for i in 0..all.len() {
        assert_eq!(all[i].as_str(), tags[i]);
        assert_eq!(param_type(tags[i]), all[i]);
    }
}

#[test]
fn unknown_tag_reads_as_string() {
    assert_eq!(param_type("matrix"), ParamType::String);
    assert_eq!(param_type(""), ParamType::String);
    assert_eq!(param_type("Int"), ParamType::String);
}

#[test]
fn script_names_replace_non_identifier_chars() {
    assert_eq!(fn_name("shape.set_fill"), "shape_set_fill");
    assert_eq!(fn_name("shapes.align-left"), "shapes_align_left");
    assert_eq!(fn_name("Abc_09"), "Abc_09");
    assert_eq!(fn_name("é.x"), "__x");
    assert_eq!(fn_name(""), "");
}

#[test]
fn contains_ci_ignores_ascii_case() {
    assert!(contains_ci("Fill Accent 1", "accent"));
    assert!(contains_ci("shape.fill_accent3", "ACCENT3"));
    assert!(contains_ci("anything", ""));
    assert!(contains_ci("", ""));
    assert!(!contains_ci("", "a"));
    assert!(!contains_ci("short", "longer needle"));
    assert!(!contains_ci("Delete", "move"));
    assert!(contains_ci("abc", "abc"));
}

#[test]
fn hex_colours_parse_with_and_without_hash() {
    assert_eq!(parse_hex("#ff0000"), Some(Rgba::rgb(255, 0, 0)));
    assert_eq!(parse_hex("00FF7f"), Some(Rgba::rgb(0, 255, 127)));
    assert_eq!(parse_hex("#11223344"), Some(Rgba::rgba(0x11, 0x22, 0x33, 0x44)));
}

#[test]
fn hex_colours_reject_bad_input() {
    assert_eq!(parse_hex("#ff00"), None);
    assert_eq!(parse_hex("#gg0000"), None);
    assert_eq!(parse_hex(""), None);
    assert_eq!(parse_hex("#"), None);
    assert_eq!(parse_hex("-10000"), None);
}

#[test]
fn hex_colours_need_hex_digits() {
    assert_eq!(parse_hex("+f+f+f"), None);
    assert_eq!(parse_hex("#+1+2+3"), None);
    assert_eq!(parse_hex("ééé"), None);
    assert_eq!(parse_hex("#a€aa"), None);
}

#[test]
fn command_metadata_builds_and_describes() {
    let m = CommandMeta::new("shape.move", "Move", "Shape");
    assert_eq!(m.id, "shape.move");
    assert_eq!(m.title, "Move");
    assert_eq!(m.category, "Shape");
    assert_eq!(m.description, "");
    let d = m.describe("Move a shape by an offset");
    assert_eq!(d.id, "shape.move");
    assert_eq!(d.description, "Move a shape by an offset");
    let p = ParamSpec::new("dx", ParamType::Int);
    assert_eq!(p.name, "dx");
    assert_eq!(p.ty, ParamType::Int);
}

#[test]
fn script_error_carries_its_message() {
    let e = ScriptError("syntax error at 1:3".to_string());
    assert_eq!(e.to_string(), "syntax error at 1:3");
}

fn small_registry() -> CommandRegistry<u32> {
    let mut reg = CommandRegistry::new();
    reg.register(
        CommandMeta::new("shape.move", "Move Shape", "Shape"),
        vec![ParamSpec::new("dx", ParamType::Int)],
        1,
    );
    reg.register(
        CommandMeta::new("fill.accent1", "Fill Accent 1", "Style"),
        vec![],
        2,
    );
    reg.register(
        CommandMeta::new("fill.accent2", "Fill ACCENT 2", "Style"),
        vec![],
        3,
    );
    reg.register(CommandMeta::new("shape.move", "Move (override)", "Shape"), vec![], 4);
    reg
}

#[test]
fn registry_lookup_prefers_the_last_registration() {
    let reg = small_registry();
    assert_eq!(reg.find("shape.move").map(|c| c.handler), Some(4));
    assert_eq!(reg.find("fill.accent2").map(|c| c.handler), Some(3));
    assert!(reg.find("nope").is_none());
    assert_eq!(reg.commands().len(), 4);
}

#[test]
fn palette_search_matches_id_or_title_ignoring_case() {
    let reg = small_registry();
    assert_eq!(
        reg.filter("accent"),
        vec![
            ("fill.accent1".to_string(), "Fill Accent 1".to_string()),
            ("fill.accent2".to_string(), "Fill ACCENT 2".to_string()),
        ]
    );
    assert_eq!(reg.filter("").len(), 4);
    assert_eq!(reg.filter_count("MOVE"), 2);
    assert_eq!(reg.filter_count("zzz"), 0);
    assert_eq!(reg.nth_matching_id("accent", 1), Some("fill.accent2".to_string()));
    assert_eq!(reg.nth_matching_id("accent", 2), None);
    assert_eq!(reg.nth_matching_id("", 3), Some("shape.move".to_string()));
}
