//! Tests of the capture names and their colors.
use ade::syntax::theme::{
    dark_highlight_colors, light_highlight_colors, style_for_highlight, Hsla, HIGHLIGHT_COUNT,
    HIGHLIGHT_NAMES,
};
use ade::theme::ThemeName;

#[test]
fn test_highlight_names_has_14_entries() {
    assert_eq!(HIGHLIGHT_NAMES.len(), 14);
}

#[test]
fn test_style_for_highlight_keyword() {
    let style = style_for_highlight(0, ThemeName::Dark);
    assert!(style.is_some(), "keyword should have a color");
}

#[test]
fn test_style_for_highlight_all_indices_have_color() {
    for i in 0..HIGHLIGHT_NAMES.len() {
        let style = style_for_highlight(i, ThemeName::Dark);
        assert!(
            style.is_some(),
            "HIGHLIGHT_NAMES[{}] = {:?} should have a color",
            i,
            HIGHLIGHT_NAMES[i]
        );
    }
}

#[test]
fn test_style_for_highlight_out_of_range() {
    let style = style_for_highlight(99, ThemeName::Dark);
    assert_eq!(style, None);
}

#[test]
fn test_style_for_highlight_boundary() {
    // Index 13 (last valid) should have color
    let style = style_for_highlight(13, ThemeName::Dark);
    assert!(style.is_some());

    // Index 14 (first out of range) has none
    let style = style_for_highlight(14, ThemeName::Dark);
    assert_eq!(style, None);
}

#[test]
fn test_highlight_names_contents() {
    assert_eq!(HIGHLIGHT_NAMES[0], "keyword");
    assert_eq!(HIGHLIGHT_NAMES[1], "string");
    assert_eq!(HIGHLIGHT_NAMES[2], "comment");
    assert_eq!(HIGHLIGHT_NAMES[3], "function");
    assert_eq!(HIGHLIGHT_NAMES[4], "type");
    assert_eq!(HIGHLIGHT_NAMES[5], "variable");
    assert_eq!(HIGHLIGHT_NAMES[6], "constant");
    assert_eq!(HIGHLIGHT_NAMES[7], "operator");
    assert_eq!(HIGHLIGHT_NAMES[8], "punctuation");
    assert_eq!(HIGHLIGHT_NAMES[9], "number");
    assert_eq!(HIGHLIGHT_NAMES[10], "attribute");
    assert_eq!(HIGHLIGHT_NAMES[11], "property");
    assert_eq!(HIGHLIGHT_NAMES[12], "tag");
    assert_eq!(HIGHLIGHT_NAMES[13], "escape");
}

#[test]
fn test_light_highlight_all_indices_have_color() {
    for i in 0..HIGHLIGHT_NAMES.len() {
        let style = style_for_highlight(i, ThemeName::Light);
        assert!(
            style.is_some(),
            "Light HIGHLIGHT_NAMES[{}] = {:?} should have a color",
            i,
            HIGHLIGHT_NAMES[i]
        );
    }
}

#[test]
fn test_dark_and_light_colors_differ() {
    // Keyword (index 0) should differ between dark and light
    let dark_color = dark_highlight_colors()[0];
    let light_color = light_highlight_colors()[0];
    assert_ne!(dark_color, light_color, "Dark and light keyword colors should differ");
}

// ---------------------------------------------------------------------------
// Additional cases
// ---------------------------------------------------------------------------

#[test]
fn test_palettes_cover_every_capture() {
    assert_eq!(HIGHLIGHT_COUNT, HIGHLIGHT_NAMES.len());
    assert_eq!(dark_highlight_colors().len(), HIGHLIGHT_COUNT);
    assert_eq!(light_highlight_colors().len(), HIGHLIGHT_COUNT);
    for i in 0..HIGHLIGHT_COUNT {
        assert_eq!(style_for_highlight(i, ThemeName::Dark), Some(dark_highlight_colors()[i]));
        assert_eq!(style_for_highlight(i, ThemeName::Light), Some(light_highlight_colors()[i]));
    }
    assert_eq!(style_for_highlight(HIGHLIGHT_COUNT, ThemeName::Light), None);
}

#[test]
fn test_keyword_colors_exact() {
    assert_eq!(dark_highlight_colors()[0], Hsla { h: 83, s: 78, l: 65, a: 100 });
    assert_eq!(light_highlight_colors()[0], Hsla { h: 75, s: 60, l: 40, a: 100 });
    assert_eq!(style_for_highlight(12, ThemeName::Dark), Some(Hsla { h: 35, s: 75, l: 60, a: 100 }));
}
