use hayate::image::{guess_image_format, ImageFormat};
use hayate::doc::{ph_type_name, PlaceholderType};
use hayate::color::{Color, Rgba};
use hayate::geom::{RectEmu, SizeEmu};
use hayate::import::{
    commit_shape, import_skeleton, parse_presentation, parse_rels, read_slide, slide_part_paths,
    xml_tokens,
};
use hayate::ooxml::{
    attr_i64, local_name, normalize_part_path, parse_hex_rgb, preset_to_geometry,
    trimmed_i64, XmlToken,
};
use hayate::pptx::{package_parts, slide_xml, ParaXml, RunXml, ShapeXml};
use hayate::shape::Geometry;
use hayate::text::HAlign;
use hayate::theme::{Platform, Theme};
use hayate::world::CompKind;

#[test]
fn local_names_drop_the_prefix() {
    assert_eq!(local_name(b"p:sp"), "sp");
    assert_eq!(local_name(b"sp"), "sp");
    assert_eq!(local_name(b"a:b:c"), "c");
    assert_eq!(local_name(b"x:"), "");
}

#[test]
fn numbers_parse_like_str_parse_after_trim() {
    assert_eq!(trimmed_i64(" 42 "), Some(42));
    assert_eq!(trimmed_i64("-7"), Some(-7));
    assert_eq!(trimmed_i64("+7"), Some(7));
    assert_eq!(trimmed_i64("9223372036854775807"), Some(i64::MAX));
    assert_eq!(trimmed_i64("-9223372036854775808"), Some(i64::MIN));
    assert_eq!(trimmed_i64("9223372036854775808"), None);
    assert_eq!(trimmed_i64("99999999999999999999999"), None);
    assert_eq!(trimmed_i64("-"), None);
    assert_eq!(trimmed_i64(""), None);
    assert_eq!(trimmed_i64("1 2"), None);
    assert_eq!(trimmed_i64("0x10"), None);
}

#[test]
fn attributes_are_found_by_full_key() {
    let attrs = vec![
        (b"x".to_vec(), Some(" 10".to_string())),
        (b"r:id".to_vec(), Some("rId2".to_string())),
        (b"x".to_vec(), Some("99".to_string())),
    ];
    assert_eq!(attr_i64(&attrs, "x"), Some(10));
    assert_eq!(attr_i64(&attrs, "id"), None);
    assert_eq!(attr_i64(&attrs, "r:id"), None);
}

#[test]
fn hex_colours_and_presets() {
    assert_eq!(parse_hex_rgb("123456"), Some(Rgba::rgb(0x12, 0x34, 0x56)));
    assert_eq!(parse_hex_rgb(" ffFFff\n"), Some(Rgba::rgb(255, 255, 255)));
    assert_eq!(parse_hex_rgb("12345"), None);
    assert_eq!(parse_hex_rgb("12345g"), None);
    assert_eq!(parse_hex_rgb("+1+2+3"), None, "a sign is not a hex digit");
    assert_eq!(parse_hex_rgb("a€aa"), None);
    assert_eq!(parse_hex_rgb("ééé"), None);
    assert_eq!(preset_to_geometry("rect"), Some(Geometry::Rect));
    assert_eq!(preset_to_geometry("roundRect"), Some(Geometry::RoundRect { radius: 0 }));
    assert_eq!(preset_to_geometry("ellipse"), Some(Geometry::Ellipse));
    assert_eq!(preset_to_geometry("line"), Some(Geometry::Line { arrow: false }));
    assert_eq!(preset_to_geometry("star5"), None);
}

#[test]
fn part_paths_resolve_against_ppt() {
    assert_eq!(normalize_part_path("slides/slide1.xml"), "ppt/slides/slide1.xml");
    assert_eq!(normalize_part_path("../slides/slide1.xml"), "slides/slide1.xml");
    assert_eq!(normalize_part_path("/ppt/slides/slide1.xml"), "ppt/ppt/slides/slide1.xml");
    assert_eq!(normalize_part_path("../../x.xml"), "x.xml");
}

#[test]
fn tokens_end_with_eof() {
    let ts = xml_tokens("<a x=\"1\"><b/>hi &amp; bye</a>");
    assert!(matches!(ts.last(), Some(XmlToken::Eof)));
    match &ts[0] {
        XmlToken::Start { name, attrs } => {
            assert_eq!(name, b"a");
            assert_eq!(attrs.len(), 1);
        }
        _ => panic!("expected a start"),
    }
    assert!(ts.iter().any(|t| matches!(t, XmlToken::Text(Some(s)) if s == "hi & bye")));
}

#[test]
fn presentation_part_gives_size_and_slide_ids() {
    let theme = Theme::default_for(Platform::Other);
    let parts = package_parts(100, 50, &theme, vec!["a".to_string(), "b".to_string()]);
    let (size, rids) = parse_presentation(&parts[2].1);
    assert_eq!(size, Some(SizeEmu::new(100, 50)));
    assert_eq!(rids, vec!["rId2".to_string(), "rId3".to_string()]);
    let rels = parse_rels(&parts[3].1);
    assert_eq!(rels.len(), 4);
    let paths = slide_part_paths(&rids, &rels);
    assert_eq!(paths, vec!["ppt/slides/slide1.xml".to_string(), "ppt/slides/slide2.xml".to_string()]);
}

#[test]
fn later_relationship_wins_and_unknown_ids_are_skipped() {
    let rels = vec![
        ("rId2".to_string(), "slides/a.xml".to_string()),
        ("rId2".to_string(), "slides/b.xml".to_string()),
    ];
    let rids = vec!["rId9".to_string(), "rId2".to_string()];
    assert_eq!(slide_part_paths(&rids, &rels), vec!["ppt/slides/b.xml".to_string()]);
}

#[test]
fn exported_slide_reads_back() {
    let shapes = vec![
        ShapeXml {
            id: 2,
            name: "R".to_string(),
            frame: RectEmu::new(914_400, 457_200, 1_828_800, 914_400),
            rotation: Some(1_800_000),
            geometry: Some(Geometry::Rect),
            fill: Some(Rgba::rgb(0x12, 0x34, 0x56)),
            text: None,
        },
        ShapeXml {
            id: 3,
            name: "T".to_string(),
            frame: RectEmu::new(1, 2, 3, 4),
            rotation: None,
            geometry: None,
            fill: None,
            text: Some(vec![ParaXml {
                align: HAlign::Left,
                runs: vec![RunXml {
                    text: "Round <trip>".to_string(),
                    size: 24 * 12_700,
                    bold: false,
                    italic: false,
                    underline: false,
                    color: Rgba::black(),
                }],
            }]),
        },
    ];
    let xml = slide_xml(&shapes);
    let (parsed, failed) = read_slide(&xml);
    assert!(!failed);
    assert_eq!(parsed.len(), 2);
    assert_eq!(parsed[0].off, Some((914_400, 457_200)));
    assert_eq!(parsed[0].ext, Some((1_828_800, 914_400)));
    assert_eq!(parsed[0].rotation, Some(1_800_000));
    assert_eq!(parsed[0].geometry, Some(Geometry::Rect));
    assert_eq!(parsed[0].fill, Some(Color::Literal(Rgba::rgb(0x12, 0x34, 0x56))));
    assert!(parsed[0].texts.is_empty());
    assert_eq!(parsed[1].geometry, Some(Geometry::Rect));
    assert_eq!(parsed[1].fill, Some(Color::Literal(Rgba::black())));
    assert_eq!(parsed[1].texts, vec!["Round <trip>".to_string()]);
}

#[test]
fn malformed_colour_is_ignored() {
    let xml = "<p:sld><p:sp><a:solidFill><a:srgbClr val=\"a€aa\"/></a:solidFill></p:sp></p:sld>";
    let (parsed, failed) = read_slide(xml);
    assert!(!failed);
    assert_eq!(parsed.len(), 1);
    assert_eq!(parsed[0].fill, None);
}

#[test]
fn committed_shape_carries_what_was_read() {
    let (mut p, layout) = import_skeleton(Some(SizeEmu::new(10, 20)), Platform::Other);
    assert_eq!(p.slide_size, SizeEmu::new(10, 20));
    let slide = p.add_slide(layout);
    let e = commit_shape(
        &mut p,
        slide,
        Some((1, 2)),
        Some((3, 4)),
        Some(30.0f32.to_bits()),
        Some(Geometry::Ellipse),
        Some(Color::Literal(Rgba::rgb(1, 2, 3))),
        &vec!["one".to_string(), "two".to_string()],
    );
    assert_eq!(p.children(slide), vec![e]);
    assert_eq!(p.world.frames.get(&e.0), Some(&RectEmu::new(1, 2, 3, 4)));
    assert_eq!(p.world.rotations.get(&e.0), Some(&30.0f32.to_bits()));
    let tb = p.world.texts.get(&e.0).unwrap();
    assert_eq!(tb.paragraphs.len(), 2);
    assert_eq!(tb.paragraphs[1].runs[0].text, "two");
    assert_eq!(tb.paragraphs[1].runs[0].size, 18 * 12_700);
    let bare = commit_shape(&mut p, slide, Some((1, 2)), None, None, None, None, &vec![]);
    assert!(p.world.get(bare, CompKind::Frame).is_none());
    assert!(p.world.get(bare, CompKind::Text).is_none());
}

#[test]
fn image_formats_by_magic_bytes() {
    assert_eq!(
        guess_image_format(&[0x89, b'P', b'N', b'G', 0x0D, 0x0A]),
        Some(ImageFormat::Png)
    );
    assert_eq!(guess_image_format(&[0xFF, 0xD8, 0xFF, 0xE0]), Some(ImageFormat::Jpeg));
    assert_eq!(guess_image_format(b"GIF89a"), Some(ImageFormat::Gif));
    assert_eq!(guess_image_format(b"RIFF\0\0\0\0WEBPVP8 "), Some(ImageFormat::Webp));
    assert_eq!(guess_image_format(b"RIFF\0\0\0\0WAVE"), None);
    assert_eq!(guess_image_format(b"RIFF\0\0\0\0WEB"), None);
    assert_eq!(guess_image_format(b"BM\0\0"), Some(ImageFormat::Bmp));
    assert_eq!(guess_image_format(b"not an image"), None);
    assert_eq!(guess_image_format(&[0x89, b'P']), None);
}

#[test]
fn placeholder_kind_labels() {
    assert_eq!(ph_type_name(PlaceholderType::Title), "Title");
    assert_eq!(ph_type_name(PlaceholderType::CenteredTitle), "Title");
    assert_eq!(ph_type_name(PlaceholderType::SlideNumber), "Slide #");
    assert_eq!(ph_type_name(PlaceholderType::Body), "Body");
}

fn one_shape(frame: RectEmu, geometry: Geometry, fill: Option<Rgba>) -> Vec<ShapeXml> {
    vec![ShapeXml {
        id: 2,
        name: "S".to_string(),
        frame,
        rotation: None,
        geometry: Some(geometry),
        fill,
        text: None,
    }]
}

#[test]
fn round_rect_radius_roundtrips() {
    // Frame 4,000,000 x 2,000,000 EMU; the radius is a quarter of the shorter side.
    let frame = RectEmu::new(914_400, 457_200, 4_000_000, 2_000_000);
    let radius: i64 = 500_000;
    let xml = slide_xml(&one_shape(frame, Geometry::RoundRect { radius }, Some(Rgba::rgb(0x10, 0x20, 0x30))));
    assert!(xml.contains("<a:gd name=\"adj\" fmla=\"val 25000\"/>"));
    let (parsed, failed) = read_slide(&xml);
    assert!(!failed);
    match parsed[0].geometry {
        Some(Geometry::RoundRect { radius: r }) => {
            assert!((r - radius).abs() <= 21, "radius should round-trip: {r}");
            assert!(r > 0);
        }
        other => panic!("expected a rounded rectangle, got {other:?}"),
    }
}

#[test]
fn round_rect_radius_is_quantized_to_the_guide() {
    let frame = RectEmu::new(0, 0, 3_000_000, 1_000_003);
    let xml = slide_xml(&one_shape(frame, Geometry::RoundRect { radius: 123_457 }, None));
    let (parsed, _) = read_slide(&xml);
    match parsed[0].geometry {
        Some(Geometry::RoundRect { radius: r }) => assert!((r - 123_457).abs() <= 11),
        other => panic!("expected a rounded rectangle, got {other:?}"),
    }
}

#[test]
fn line_geometry_roundtrips() {
    let frame = RectEmu::new(914_400, 457_200, 3_000_000, 2_000_000);
    let xml = slide_xml(&one_shape(frame, Geometry::Line { arrow: false }, None));
    let (parsed, failed) = read_slide(&xml);
    assert!(!failed);
    assert!(matches!(parsed[0].geometry, Some(Geometry::Line { .. })));
}
