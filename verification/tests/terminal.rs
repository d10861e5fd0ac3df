//! Tests of the terminal model: sizes, colours, OSC 52 and titles.
use ade::terminal::{
    cell_appearance, dim, indexed_color, named_color, named_colors, pty_environment,
    resolve_color, sanitize_title, should_accept_osc52, NamedColor, Rgb, TermAction, TermColor,
    TermEvent, TermState, TerminalSize, DEFAULT_SCROLL_HISTORY, MAX_TITLE_CHARS, OSC52_MAX_BYTES,
};

#[test]
fn test_term_config_scrollback() {
    assert_eq!(DEFAULT_SCROLL_HISTORY, 10_000);
}

#[test]
fn test_terminal_size_dimensions() {
    let size = TerminalSize::new(120, 40);
    assert_eq!(size.columns(), 120);
    assert_eq!(size.screen_lines(), 40);
    assert_eq!(size.total_lines(), 40);
    let ws = size.window_size();
    assert_eq!(ws.num_cols, 120);
    assert_eq!(ws.num_lines, 40);
    assert_eq!(ws.cell_width, 8);
    assert_eq!(ws.cell_height, 16);
}

#[test]
fn test_pty_options_env() {
    let env: std::collections::HashMap<String, String> = pty_environment().into_iter().collect();
    assert_eq!(env.get("TERM").unwrap(), "xterm-256color");
    assert_eq!(env.get("COLORTERM").unwrap(), "truecolor");
    assert_eq!(env.get("TERM_PROGRAM").unwrap(), "Ade");
}

#[test]
fn test_resolve_color_spec() {
    let rgb = resolve_color(TermColor::Spec(Rgb { r: 0xAB, g: 0xCD, b: 0xEF }), None);
    assert_eq!(rgb, Rgb { r: 0xAB, g: 0xCD, b: 0xEF });
}

#[test]
fn test_resolve_color_named_red() {
    let rgb = resolve_color(TermColor::Named(NamedColor::Red), None);
    assert_eq!(rgb, Rgb { r: 0xCD, g: 0x00, b: 0x00 });
}

#[test]
fn test_resolve_color_indexed_basic() {
    // Indexed 1 = Red
    let rgb = resolve_color(TermColor::Indexed(1), None);
    assert_eq!(rgb, Rgb { r: 0xCD, g: 0x00, b: 0x00 });
}

#[test]
fn test_resolve_color_indexed_cube() {
    // Indexed 196 = 16 + 180, 180 = 5*36 + 0*6 + 0, so r=5,g=0,b=0
    let rgb = resolve_color(TermColor::Indexed(196), None);
    assert_eq!(rgb, Rgb { r: 0xFF, g: 0x00, b: 0x00 });
}

#[test]
fn test_resolve_color_indexed_grayscale() {
    // Indexed 232 = first grayscale: (232-232)*10+8 = 8
    let rgb = resolve_color(TermColor::Indexed(232), None);
    assert_eq!(rgb, Rgb { r: 8, g: 8, b: 8 });
}

#[test]
fn test_inverse_flag_swaps() {
    let mut fg = resolve_color(TermColor::Named(NamedColor::Red), None);
    let mut bg = resolve_color(TermColor::Named(NamedColor::Blue), None);

    assert_eq!(fg, Rgb { r: 0xCD, g: 0x00, b: 0x00 });
    assert_eq!(bg, Rgb { r: 0x00, g: 0x00, b: 0xEE });

    std::mem::swap(&mut fg, &mut bg);

    assert_eq!(fg, Rgb { r: 0x00, g: 0x00, b: 0xEE });
    assert_eq!(bg, Rgb { r: 0xCD, g: 0x00, b: 0x00 });
}

#[test]
fn test_osc52_size_limit() {
    // Text over 100,000 bytes should be rejected even when enabled
    let large_text = "x".repeat(100_001);
    assert!(!should_accept_osc52(Some("1"), &large_text));
}

#[test]
fn test_osc52_under_limit() {
    // Text at exactly 100,000 bytes should be accepted when enabled
    let text = "x".repeat(100_000);
    assert!(should_accept_osc52(Some("1"), &text));
}

#[test]
fn test_osc52_default_disabled() {
    // OSC 52 is disabled unless the setting is present
    assert!(!should_accept_osc52(None, "hello"));
}

#[test]
fn test_osc52_env_enabled() {
    assert!(should_accept_osc52(Some("1"), "hello"));
}

#[test]
fn test_title_strips_control_chars() {
    let title = "Hello\x01\x02World\x7f";
    assert_eq!(sanitize_title(title), "HelloWorld");
}

#[test]
fn test_title_truncation() {
    let title = "a".repeat(300);
    let sanitized = sanitize_title(&title);
    assert_eq!(sanitized.len(), 256);
    assert_eq!(sanitized.chars().count(), 256);
}

#[test]
fn test_title_preserves_valid() {
    assert_eq!(sanitize_title("Hello World"), "Hello World");
}

#[test]
fn test_title_unicode() {
    // CJK chars: truncate by character count, not byte count
    let title: String = std::iter::repeat_n('\u{4e00}', 300).collect();
    let sanitized = sanitize_title(&title);
    assert_eq!(sanitized.chars().count(), 256);
    assert_eq!(sanitized.len(), 768);
}

#[test]
fn test_dim_color() {
    let result = dim(Rgb { r: 255, g: 255, b: 255 });
    // 255 * 0.66 = 168.3 -> 168
    assert_eq!(result, Rgb { r: 168, g: 168, b: 168 });
}

// ---------------------------------------------------------------------------
// Additional cases
// ---------------------------------------------------------------------------

#[test]
fn test_dim_matches_float_scaling_for_every_byte() {
    for v in 0u16..=255 {
        let v = v as u8;
        let expected = (v as f32 * 0.66) as u8;
        assert_eq!(dim(Rgb { r: v, g: v, b: v }), Rgb { r: expected, g: expected, b: expected });
    }
}

#[test]
fn test_osc52_other_settings_rejected() {
    assert!(!should_accept_osc52(Some("0"), "hello"));
    assert!(!should_accept_osc52(Some("true"), "hello"));
    assert!(!should_accept_osc52(Some(""), "hello"));
    assert_eq!(OSC52_MAX_BYTES, 100_000);
}

#[test]
fn test_title_strips_bidi_and_c1_controls() {
    assert_eq!(sanitize_title("a\u{202E}b\u{0085}c\u{2069}d"), "abcd");
    assert_eq!(MAX_TITLE_CHARS, 256);
}

#[test]
fn test_custom_palette_entry_wins() {
    let custom = Rgb { r: 1, g: 2, b: 3 };
    assert_eq!(indexed_color(7, Some(custom)), custom);
    assert_eq!(named_color(NamedColor::Foreground, Some(custom)), custom);
    assert_eq!(resolve_color(TermColor::Spec(Rgb { r: 9, g: 9, b: 9 }), Some(custom)), Rgb {
        r: 9,
        g: 9,
        b: 9
    });
}

#[test]
fn test_named_defaults() {
    assert_eq!(named_colors().len(), 16);
    assert_eq!(named_color(NamedColor::Foreground, None), Rgb { r: 0xE5, g: 0xE5, b: 0xE5 });
    assert_eq!(named_color(NamedColor::Background, None), Rgb { r: 0, g: 0, b: 0 });
    assert_eq!(named_color(NamedColor::DimRed, None), dim(Rgb { r: 0xCD, g: 0, b: 0 }));
    assert_eq!(indexed_color(16, None), Rgb { r: 0, g: 0, b: 0 });
    assert_eq!(indexed_color(255, None), Rgb { r: 238, g: 238, b: 238 });
    assert_eq!(indexed_color(21, None), Rgb { r: 0, g: 0, b: 255 });
}

#[test]
fn test_window_size_clamps_to_u16() {
    let size = TerminalSize::new(100_000, 7);
    let ws = size.window_size();
    assert_eq!(ws.num_cols, u16::MAX);
    assert_eq!(ws.num_lines, 7);
}

#[test]
fn test_cell_appearance_inverse_and_hidden() {
    let red = TermColor::Named(NamedColor::Red);
    let blue = TermColor::Named(NamedColor::Blue);
    let (c, fg, bg) = cell_appearance('x', red, None, blue, None, false, false);
    assert_eq!((c, fg, bg), ('x', Rgb { r: 0xCD, g: 0, b: 0 }, Rgb { r: 0, g: 0, b: 0xEE }));
    let (c, fg, bg) = cell_appearance('x', red, None, blue, None, true, true);
    assert_eq!((c, fg, bg), (' ', Rgb { r: 0, g: 0, b: 0xEE }, Rgb { r: 0xCD, g: 0, b: 0 }));
    let custom = Rgb { r: 1, g: 2, b: 3 };
    let (_, fg, _) = cell_appearance('y', TermColor::Indexed(4), Some(custom), blue, None, false, false);
    assert_eq!(fg, custom);
}

#[test]
fn test_term_state_events() {
    let mut t = TermState::new();
    assert_eq!(t.process_event(TermEvent::Wakeup, None), TermAction::SyncAndRedraw);
    assert_eq!(t.process_event(TermEvent::Bell, None), TermAction::Nothing);
    assert_eq!(t.process_event(TermEvent::Title("a\x07b".to_string()), None), TermAction::Redraw);
    assert_eq!(t.title.as_deref(), Some("ab"));
    // OSC 52 is opt-in.
    let store = TermEvent::ClipboardStore { to_clipboard: true, text: "copied".to_string() };
    assert_eq!(t.process_event(store.clone(), None), TermAction::Nothing);
    assert_eq!(t.take_pending_clipboard(), None);
    assert_eq!(t.process_event(store, Some("1")), TermAction::Redraw);
    assert_eq!(t.take_pending_clipboard(), Some("copied".to_string()));
    assert_eq!(t.take_pending_clipboard(), None);
    // The selection buffer is never stored.
    let selection = TermEvent::ClipboardStore { to_clipboard: false, text: "sel".to_string() };
    assert_eq!(t.process_event(selection, Some("1")), TermAction::Nothing);
    assert!(t.pending_clipboard_store.is_none());
    assert_eq!(t.process_event(TermEvent::ChildExit(3), None), TermAction::Redraw);
    assert!(t.child_exited);
    assert_eq!(t.exit_code, Some(3));
    let mut u = TermState::new();
    assert_eq!(u.process_event(TermEvent::Exit, None), TermAction::Redraw);
    assert!(u.child_exited && u.exit_code.is_none());
}
