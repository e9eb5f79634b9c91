use hayate::color::{Rgba, ThemeColorToken};
use hayate::font::{FontRef, Script, ScriptFonts, ThemeFontSlot};
use hayate::theme::{default_sans_family, theme_color_preset_names, theme_color_presets, Platform, Theme};

#[test]
fn font_picks_script_slot() {
    // Distinct families per script exercise the slot selection independently of the
    // default theme's font choice.
    let mut t = Theme::default_for(Platform::Other);
    t.fonts.minor = ScriptFonts {
        latin: "LatinFace".into(),
        ea: "EaFace".into(),
        cs: "CsFace".into(),
    };
    let body = FontRef::Theme(ThemeFontSlot::Minor);
    assert_eq!(t.font_family(&body, Script::Latin), "LatinFace");
    assert_eq!(t.font_family(&body, Script::Ea), "EaFace");
    assert_eq!(t.font_family(&body, Script::Cs), "CsFace");
    assert_eq!(
        t.font_family(&FontRef::Family("Mincho".into()), Script::Latin),
        "Mincho"
    );
}

#[test]
fn default_uses_one_family_for_all_scripts() {
    // The default theme uses a single family across scripts, on every platform.
    for platform in [Platform::MacOs, Platform::Windows, Platform::Other] {
        let t = Theme::default_for(platform);
        let body = FontRef::Theme(ThemeFontSlot::Minor);
        let fam = default_sans_family(platform);
        assert_eq!(t.font_family(&body, Script::Latin), fam);
        assert_eq!(t.font_family(&body, Script::Ea), fam);
    }
}

#[test]
fn default_sans_family_per_platform() {
    assert_eq!(default_sans_family(Platform::MacOs), "Hiragino Sans");
    assert_eq!(default_sans_family(Platform::Windows), "Yu Gothic UI");
    assert_eq!(default_sans_family(Platform::Other), "Noto Sans CJK JP");
}

#[test]
fn color_for_maps_tokens() {
    let t = Theme::default_for(Platform::Other);
    assert_eq!(t.color_for(ThemeColorToken::Lt1), Rgba::white());
    assert_eq!(t.color_for(ThemeColorToken::Dk1), Rgba::black());
    assert_eq!(t.color_for(ThemeColorToken::Accent1), Rgba::rgb(0x4F, 0x81, 0xBD));
    assert_eq!(t.color_for(ThemeColorToken::Accent6), Rgba::rgb(0xF7, 0x96, 0x46));
    assert_eq!(t.color_for(ThemeColorToken::FolHlink), Rgba::rgb(0x80, 0x00, 0x80));
}

#[test]
fn presets_are_named_in_order() {
    assert_eq!(theme_color_preset_names(), vec!["Office", "Warm", "Cool", "Mono"]);
    let presets = theme_color_presets();
    assert_eq!(presets.len(), 4);
    for (i, (name, _)) in presets.iter().enumerate() {
        assert_eq!(*name, theme_color_preset_names()[i]);
    }
    // The first preset is the default theme's scheme.
    assert_eq!(presets[0].1, Theme::default_for(Platform::Other).colors);
    assert_eq!(presets[1].1.accent[0], Rgba::rgb(0xC0, 0x39, 0x2B));
    assert_eq!(presets[3].1.dk2, Rgba::rgb(0x33, 0x33, 0x33));
}
