use hayate::color::{Color, Rgba, ThemeColorToken};
use hayate::geom::RectEmu;
use hayate::paint::Fill;
use hayate::pptx::{
    emu_to_hundredth_pt, package_parts, package_theme, slide_export_theme, slide_layout_xml,
    slide_master_xml, slide_shapes, slide_xml, theme_xml, txbody_xml, xfrm_xml, ParaXml, RunXml,
    ShapeXml,
};
use hayate::presentation::Presentation;
use hayate::shape::Geometry;
use hayate::text::HAlign;
use hayate::theme::{Platform, Theme};
use hayate::world::CompValue;
use hayate::xmltext::{escape_xml, hex_rgb, push_decimal, push_signed};

#[test]
fn escape_replaces_markup_characters() {
    assert_eq!(
        escape_xml("Hello <World> & \"PPTX\" 'x'"),
        "Hello &lt;World&gt; &amp; &quot;PPTX&quot; &apos;x&apos;"
    );
    assert_eq!(escape_xml("plain あ"), "plain あ");
    assert_eq!(escape_xml(""), "");
}

#[test]
fn hex_is_uppercase_two_digits_each() {
    assert_eq!(hex_rgb(0x12, 0x34, 0x56), "123456");
    assert_eq!(hex_rgb(0, 255, 10), "00FF0A");
}

#[test]
fn decimals_render_like_display() {
    let mut s = String::new();
    push_decimal(&mut s, 0);
    s.push(' ');
    push_decimal(&mut s, 1234567890);
    s.push(' ');
    push_signed(&mut s, -42);
    s.push(' ');
    push_signed(&mut s, i64::MIN);
    s.push(' ');
    push_decimal(&mut s, u64::MAX);
    assert_eq!(s, format!("0 1234567890 -42 {} {}", i64::MIN, u64::MAX));
}

#[test]
fn font_size_in_hundredths_of_a_point() {
    assert_eq!(emu_to_hundredth_pt(24 * 12_700), 2400);
    assert_eq!(emu_to_hundredth_pt(100), 100);
    assert_eq!(emu_to_hundredth_pt(-12_700), 100);
    assert_eq!(emu_to_hundredth_pt(12_700 * 7 + 6_350), 750);
}

#[test]
fn xfrm_writes_offset_extent_and_rotation() {
    let f = RectEmu::new(914_400, 457_200, 1_828_800, -5);
    assert_eq!(
        xfrm_xml(f, Some(1_800_000)),
        r#"<a:xfrm rot="1800000"><a:off x="914400" y="457200"/><a:ext cx="1828800" cy="0"/></a:xfrm>"#
    );
    assert_eq!(
        xfrm_xml(RectEmu::new(-1, 2, 3, 4), None),
        r#"<a:xfrm><a:off x="-1" y="2"/><a:ext cx="3" cy="4"/></a:xfrm>"#
    );
}

#[test]
fn text_body_lists_paragraphs_and_runs() {
    let paras = vec![ParaXml {
        align: HAlign::Center,
        runs: vec![RunXml {
            text: "A & B".to_string(),
            size: 18 * 12_700,
            bold: true,
            italic: false,
            underline: true,
            color: Rgba::rgb(1, 2, 3),
        }],
    }];
    assert_eq!(
        txbody_xml(&paras),
        [
            r#"<p:txBody><a:bodyPr wrap="square" rtlCol="0"><a:normAutofit/></a:bodyPr><a:lstStyle/>"#,
            r#"<a:p><a:pPr algn="ctr"/><a:r><a:rPr lang="en-US" sz="1800" b="1" u="sng">"#,
            r#"<a:solidFill><a:srgbClr val="010203"/></a:solidFill></a:rPr><a:t>A &amp; B</a:t></a:r></a:p>"#,
            "</p:txBody>",
        ]
        .join("")
    );
    let empty: Vec<ParaXml> = vec![];
    assert!(txbody_xml(&empty).contains("<a:lstStyle/><a:p/></p:txBody>"));
}

#[test]
fn slide_part_holds_each_shape() {
    let shapes = vec![
        ShapeXml {
            id: 2,
            name: "Box".to_string(),
            frame: RectEmu::new(1, 2, 3, 4),
            rotation: None,
            geometry: Some(Geometry::Ellipse),
            fill: None,
            text: None,
        },
        ShapeXml {
            id: 3,
            name: "Shape 3".to_string(),
            frame: RectEmu::new(5, 6, 7, 8),
            rotation: Some(60_000),
            geometry: None,
            fill: Some(Rgba::rgb(255, 0, 0)),
            text: Some(vec![]),
        },
    ];
    let xml = slide_xml(&shapes);
    assert!(xml.starts_with(r#"<?xml version="1.0" encoding="UTF-8" standalone="yes"?><p:sld "#));
    assert!(xml.contains(r#"<p:cNvPr id="2" name="Box"/><p:cNvSpPr/>"#));
    assert!(xml.contains(r#"prst="ellipse"><a:avLst/></a:prstGeom><a:noFill/></p:spPr>"#));
    assert!(xml.contains(r#"<p:txBody><a:bodyPr/><a:lstStyle/><a:p/></p:txBody></p:sp>"#));
    assert!(xml.contains(r#"<p:cNvPr id="3" name="Shape 3"/><p:cNvSpPr txBox="1"/>"#));
    assert!(xml.contains(r#"<a:xfrm rot="60000">"#));
    assert!(xml.contains(r#"prst="rect"><a:avLst/></a:prstGeom><a:solidFill><a:srgbClr val="FF0000"/></a:solidFill></p:spPr>"#));
    assert!(xml.ends_with("</p:spTree></p:cSld><p:clrMapOvr><a:overrideClrMapping/></p:clrMapOvr></p:sld>"));
}

#[test]
fn slide_shapes_skip_frameless_and_plain_entities() {
    let mut p = Presentation::new();
    let master = p.add_master(Theme::default_for(Platform::Other));
    let layout = p.add_layout(master, "Blank");
    let slide = p.add_slide(layout);
    let a = p.add_shape(slide);
    p.world.set(a, CompValue::Frame(RectEmu::new(0, 0, 10, 10)));
    p.world.set(a, CompValue::Geometry(Geometry::Rect));
    p.world.set(a, CompValue::Fill(Fill::Solid(Color::theme(ThemeColorToken::Accent1))));
    let b = p.add_shape(slide);
    p.world.set(b, CompValue::Geometry(Geometry::Rect));
    let c = p.add_shape(slide);
    p.world.set(c, CompValue::Frame(RectEmu::new(0, 0, 10, 10)));
    let d = p.add_shape(slide);
    p.world.set(d, CompValue::Frame(RectEmu::new(1, 1, 5, 5)));
    p.world.set(d, CompValue::Geometry(Geometry::Ellipse));
    p.world.set(d, CompValue::Name("Named".to_string()));
    let shapes = slide_shapes(&p, slide);
    assert_eq!(shapes.len(), 2);
    assert_eq!(shapes[0].entity, a);
    assert_eq!(shapes[0].id, 2);
    assert_eq!(shapes[0].name, "Shape 2");
    assert_eq!(shapes[0].fill, Some(Color::theme(ThemeColorToken::Accent1)));
    assert_eq!(shapes[1].entity, d);
    assert_eq!(shapes[1].id, 3);
    assert_eq!(shapes[1].name, "Named");
    assert_eq!(shapes[1].fill, None);
}

#[test]
fn package_lists_every_part_in_order() {
    let theme = Theme::default_for(Platform::Other);
    let parts = package_parts(12_191_695, 6_858_000, &theme, vec!["S1".to_string(), "S2".to_string()]);
    let names: Vec<&str> = parts.iter().map(|p| p.0.as_str()).collect();
    assert_eq!(
        names,
        vec![
            "[Content_Types].xml",
            "_rels/.rels",
            "ppt/presentation.xml",
            "ppt/_rels/presentation.xml.rels",
            "ppt/slideMasters/slideMaster1.xml",
            "ppt/slideMasters/_rels/slideMaster1.xml.rels",
            "ppt/slideLayouts/slideLayout1.xml",
            "ppt/slideLayouts/_rels/slideLayout1.xml.rels",
            "ppt/theme/theme1.xml",
            "ppt/slides/slide1.xml",
            "ppt/slides/_rels/slide1.xml.rels",
            "ppt/slides/slide2.xml",
            "ppt/slides/_rels/slide2.xml.rels",
        ]
    );
    assert_eq!(parts[9].1, "S1");
    assert_eq!(parts[11].1, "S2");
    assert!(parts[0].1.contains(r#"<Override PartName="/ppt/slides/slide2.xml""#));
    assert!(parts[2].1.contains(r#"<p:sldId id="256" r:id="rId2"/><p:sldId id="257" r:id="rId3"/>"#));
    assert!(parts[2].1.contains(r#"<p:sldSz cx="12191695" cy="6858000"/><p:notesSz cx="6858000" cy="12191695"/>"#));
    assert!(parts[3].1.contains(r#"<Relationship Id="rId4" Type="http://schemas.openxmlformats.org/officeDocument/2006/relationships/theme""#));
    assert_eq!(parts[4].1, slide_master_xml());
    assert_eq!(parts[6].1, slide_layout_xml());
    assert_eq!(parts[8].1, theme_xml(&theme));
}

#[test]
fn theme_part_carries_colours_and_fonts() {
    let theme = Theme::default_for(Platform::MacOs);
    let xml = theme_xml(&theme);
    let dk1 = theme.colors.dk1;
    assert!(xml.contains(&format!(r#"<a:dk1><a:srgbClr val="{}"/></a:dk1>"#, hex_rgb(dk1.r, dk1.g, dk1.b))));
    assert!(xml.contains(r#"<a:latin typeface="Hiragino Sans"/><a:ea typeface="Hiragino Sans"/>"#));
    assert!(xml.ends_with("</a:themeElements></a:theme>"));
}

#[test]
fn export_themes_fall_back_to_the_default() {
    let mut p = Presentation::new();
    assert_eq!(package_theme(&p, Platform::Windows), Theme::default_for(Platform::Windows));
    let master = p.add_master(Theme::default_for(Platform::MacOs));
    let layout = p.add_layout(master, "Blank");
    let slide = p.add_slide(layout);
    assert_eq!(package_theme(&p, Platform::Windows), Theme::default_for(Platform::MacOs));
    assert_eq!(slide_export_theme(&p, slide, Platform::Windows), Theme::default_for(Platform::MacOs));
    assert_eq!(slide_export_theme(&p, master, Platform::Windows), Theme::default_for(Platform::Windows));
}
