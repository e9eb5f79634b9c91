use hayate::font::FontRef;
use hayate::geom::RectEmu;
use hayate::text::{HAlign, Paragraph, TextBody};
use hayate::textcmd::{default_run, set_text, text_command, toggle_attr, RunAttr, TextCommand};
use hayate::units::pt;
use hayate::world::{CompKind, CompValue, Entity, World};

fn world_with_framed_shape() -> (World, Entity) {
    let mut w = World::new();
    let e = w.spawn();
    w.set(e, CompValue::Frame(RectEmu::new(10, 20, 100, 50)));
    (w, e)
}

fn world_with_text_shape() -> (World, Entity) {
    let (mut w, e) = world_with_framed_shape();
    let body = TextBody {
        paragraphs: vec![Paragraph::new(vec![
            default_run("Hello".to_string()),
            default_run("World".to_string()),
        ])],
        autofit: false,
    };
    w.set(e, CompValue::Text(body));
    (w, e)
}

fn text_of(w: &World, e: Entity) -> TextBody {
    match w.get(e, CompKind::Text) {
        Some(CompValue::Text(body)) => body,
        other => panic!("expected a Text component, got {other:?}"),
    }
}

fn run(w: &mut World, e: Entity, cmd: TextCommand) {
    let body = text_command(w, e, &cmd).expect("the command applies");
    w.set(e, CompValue::Text(body));
}

#[test]
fn set_text_command_creates_body_with_run_text() {
    let (mut w, e) = world_with_framed_shape();
    run(&mut w, e, TextCommand::SetText("Hello".to_string()));
    let body = text_of(&w, e);
    assert_eq!(body.paragraphs[0].runs[0].text, "Hello");
    assert!(!body.autofit);
}

#[test]
fn set_text_keeps_the_first_runs_formatting() {
    let (w, e) = world_with_text_shape();
    let mut body = text_of(&w, e);
    body.paragraphs[0].runs[0].bold = true;
    let out = set_text(Some(&body), "Hi".to_string());
    assert_eq!(out.paragraphs[0].runs[0].text, "Hi");
    assert!(out.paragraphs[0].runs[0].bold);
    assert_eq!(out.paragraphs[0].runs[1].text, "World");
    let empty = TextBody { paragraphs: vec![], autofit: true };
    let out = set_text(Some(&empty), "New".to_string());
    assert_eq!(out.paragraphs.len(), 1);
    assert_eq!(out.paragraphs[0].runs[0], default_run("New".to_string()));
    assert!(out.autofit);
}

#[test]
fn set_font_size_command_sets_all_runs() {
    let (mut w, e) = world_with_text_shape();
    assert_eq!(text_of(&w, e).paragraphs[0].runs[0].size, pt(18));
    run(&mut w, e, TextCommand::SetFontSize(32));
    let body = text_of(&w, e);
    for r in &body.paragraphs[0].runs {
        assert_eq!(r.size, pt(32), "every run sized to 32pt");
    }
}

#[test]
fn set_font_size_command_clamps_to_one_point() {
    let (mut w, e) = world_with_text_shape();
    run(&mut w, e, TextCommand::SetFontSize(0));
    let body = text_of(&w, e);
    assert_eq!(body.paragraphs[0].runs[0].size, pt(1), "floored at 1pt");
}

#[test]
fn toggle_bold_command_flips_all_runs() {
    let (mut w, e) = world_with_text_shape();
    run(&mut w, e, TextCommand::Toggle(RunAttr::Bold));
    assert!(text_of(&w, e).paragraphs[0].runs.iter().all(|r| r.bold));
    run(&mut w, e, TextCommand::Toggle(RunAttr::Bold));
    assert!(text_of(&w, e).paragraphs[0].runs.iter().all(|r| !r.bold));
}

#[test]
fn toggle_italic_command_flips_all_runs() {
    let (mut w, e) = world_with_text_shape();
    run(&mut w, e, TextCommand::Toggle(RunAttr::Italic));
    assert!(text_of(&w, e).paragraphs[0].runs.iter().all(|r| r.italic));
}

#[test]
fn toggle_underline_command_flips_all_runs() {
    let (mut w, e) = world_with_text_shape();
    run(&mut w, e, TextCommand::Toggle(RunAttr::Underline));
    assert!(text_of(&w, e).paragraphs[0].runs.iter().all(|r| r.underline));
}

#[test]
fn toggle_bold_consistent_when_runs_differ() {
    let (mut w, e) = world_with_text_shape();
    let mut body = text_of(&w, e);
    body.paragraphs[0].runs[1].bold = true;
    w.set(e, CompValue::Text(body));
    run(&mut w, e, TextCommand::Toggle(RunAttr::Bold));
    assert!(
        text_of(&w, e).paragraphs[0].runs.iter().all(|r| r.bold),
        "first run was false, so the whole box becomes bold"
    );
}

#[test]
fn toggle_twice_restores_a_uniform_box() {
    let (w, e) = world_with_text_shape();
    let body = text_of(&w, e);
    let twice = toggle_attr(&toggle_attr(&body, RunAttr::Italic), RunAttr::Italic);
    assert_eq!(twice, body);
}

#[test]
fn align_text_commands_set_every_paragraph() {
    for expected in [HAlign::Left, HAlign::Center, HAlign::Right] {
        let (mut w, e) = world_with_text_shape();
        let mut body = text_of(&w, e);
        body.paragraphs.push(Paragraph::new(vec![default_run("Second".to_string())]));
        w.set(e, CompValue::Text(body));
        run(&mut w, e, TextCommand::Align(expected));
        for para in &text_of(&w, e).paragraphs {
            assert_eq!(para.align, expected);
        }
    }
}

#[test]
fn text_commands_no_text_is_lenient() {
    let (w, e) = world_with_framed_shape();
    for cmd in [
        TextCommand::Toggle(RunAttr::Bold),
        TextCommand::Toggle(RunAttr::Italic),
        TextCommand::Toggle(RunAttr::Underline),
        TextCommand::Align(HAlign::Left),
        TextCommand::Align(HAlign::Center),
        TextCommand::Align(HAlign::Right),
        TextCommand::SetFontSize(24),
        TextCommand::SetFont("Inter".to_string()),
    ] {
        assert!(text_command(&w, e, &cmd).is_none(), "no text => nothing to do");
    }
}

#[test]
fn set_font_sets_every_runs_family() {
    let (mut w, e) = world_with_text_shape();
    run(&mut w, e, TextCommand::SetFont("Inter".to_string()));
    for r in &text_of(&w, e).paragraphs[0].runs {
        assert_eq!(r.font, FontRef::Family("Inter".to_string()));
    }
}
