use hayate::color::{Color, ThemeColorToken};
use hayate::font::{FontRef, ThemeFontSlot};
use hayate::geom::SizeEmu;
use hayate::image::PictureRef;
use hayate::labels::numbered_labels;
use hayate::presentation::Presentation;
use hayate::shape::Geometry;
use hayate::text::{Paragraph, Run, TextBody};
use hayate::theme::{Platform, Theme};
use hayate::world::Entity;

fn body(text: &str) -> TextBody {
    TextBody {
        paragraphs: vec![Paragraph::new(vec![Run {
            text: text.to_string(),
            font: FontRef::Theme(ThemeFontSlot::Minor),
            size: 228_600,
            color: Color::theme(ThemeColorToken::Dk1),
            bold: false,
            italic: false,
            underline: false,
        }])],
        autofit: false,
    }
}

fn deck() -> (Presentation, Entity) {
    let mut p = Presentation::new();
    let master = p.add_master(Theme::default_for(Platform::Other));
    let layout = p.add_layout(master, "Blank");
    let slide = p.add_slide(layout);
    (p, slide)
}

#[test]
fn kinds_are_numbered_separately_in_order() {
    let (mut p, slide) = deck();
    let r1 = p.add_shape(slide);
    let e1 = p.add_shape(slide);
    let r2 = p.add_shape(slide);
    let l1 = p.add_shape(slide);
    let a1 = p.add_shape(slide);
    let i1 = p.add_shape(slide);
    let s1 = p.add_shape(slide);
    p.world.geometries.insert(r1.0, Geometry::Rect);
    p.world.geometries.insert(e1.0, Geometry::Ellipse);
    p.world.geometries.insert(r2.0, Geometry::RoundRect { radius: 10 });
    p.world.geometries.insert(l1.0, Geometry::Line { arrow: false });
    p.world.geometries.insert(a1.0, Geometry::Line { arrow: true });
    p.world.pictures.insert(
        i1.0,
        PictureRef {
            media_key: "abc".to_string(),
            natural: SizeEmu::new(10, 10),
        },
    );
    let kids = p.children(slide);
    let labels = numbered_labels(&p.world, &kids);
    let names: Vec<(Entity, &str)> = labels.iter().map(|(e, s)| (*e, s.as_str())).collect();
    assert_eq!(
        names,
        vec![
            (r1, "Rectangle 1"),
            (e1, "Ellipse 1"),
            (r2, "Rectangle 2"),
            (l1, "Line 1"),
            (a1, "Arrow 1"),
            (i1, "Image 1"),
            (s1, "Shape"),
        ]
    );
}

#[test]
fn names_win_and_text_boxes_show_their_start() {
    let (mut p, slide) = deck();
    let named = p.add_shape(slide);
    let blank_name = p.add_shape(slide);
    let short = p.add_shape(slide);
    let long = p.add_shape(slide);
    let empty = p.add_shape(slide);
    p.world.names.insert(named.0, "  Logo ".to_string());
    p.world.geometries.insert(named.0, Geometry::Rect);
    p.world.names.insert(blank_name.0, "   ".to_string());
    p.world.geometries.insert(blank_name.0, Geometry::Rect);
    p.world.texts.insert(short.0, body("  Hello  "));
    p.world
        .texts
        .insert(long.0, body("ちょっと長めのタイトルテキストの例ですよね"));
    p.world.texts.insert(empty.0, body(" "));
    let kids = p.children(slide);
    let labels = numbered_labels(&p.world, &kids);
    assert_eq!(labels[0], (named, "  Logo ".to_string()));
    assert_eq!(labels[1], (blank_name, "Rectangle 1".to_string()));
    assert_eq!(labels[2], (short, "Hello".to_string()));
    assert_eq!(
        labels[3],
        (long, "ちょっと長めのタイトルテキストの例で\u{2026}".to_string())
    );
    assert_eq!(labels[4], (empty, "Text 3".to_string()));
}
