//! Tests of the terminal key encoder.
use ade::key_encode::{ctrl_byte_for_keystroke, encode_key, tilde_key, Keystroke, Modifiers};


fn no_mods() -> Modifiers {
    Modifiers::default()
}

fn shift() -> Modifiers {
    Modifiers {
        shift: true,
        ..Default::default()
    }
}

fn ctrl() -> Modifiers {
    Modifiers {
        control: true,
        ..Default::default()
    }
}

fn alt() -> Modifiers {
    Modifiers {
        alt: true,
        ..Default::default()
    }
}

// ========================================================================
// Arrow keys
// ========================================================================

#[test]
fn test_key_encode_arrow_up_normal() {
    assert_eq!(
        encode_key("up", no_mods(), false),
        Some(b"\x1b[A".to_vec())
    );
}

#[test]
fn test_key_encode_arrow_up_app_cursor() {
    assert_eq!(
        encode_key("up", no_mods(), true),
        Some(b"\x1bOA".to_vec())
    );
}

#[test]
fn test_key_encode_arrow_up_shift_overrides_app_cursor() {
    // Modifiers override app cursor mode
    assert_eq!(
        encode_key("up", shift(), true),
        Some(b"\x1b[1;2A".to_vec())
    );
}

#[test]
fn test_key_encode_arrow_down_normal() {
    assert_eq!(
        encode_key("down", no_mods(), false),
        Some(b"\x1b[B".to_vec())
    );
}

#[test]
fn test_key_encode_arrow_left_normal() {
    assert_eq!(
        encode_key("left", no_mods(), false),
        Some(b"\x1b[D".to_vec())
    );
}

#[test]
fn test_key_encode_arrow_right_normal() {
    assert_eq!(
        encode_key("right", no_mods(), false),
        Some(b"\x1b[C".to_vec())
    );
}

// ========================================================================
// Home / End
// ========================================================================

#[test]
fn test_key_encode_home_app_cursor() {
    assert_eq!(
        encode_key("home", no_mods(), true),
        Some(b"\x1bOH".to_vec())
    );
}

#[test]
fn test_key_encode_home_normal() {
    assert_eq!(
        encode_key("home", no_mods(), false),
        Some(b"\x1b[H".to_vec())
    );
}

#[test]
fn test_key_encode_end_app_cursor() {
    assert_eq!(
        encode_key("end", no_mods(), true),
        Some(b"\x1bOF".to_vec())
    );
}

#[test]
fn test_key_encode_end_normal() {
    assert_eq!(
        encode_key("end", no_mods(), false),
        Some(b"\x1b[F".to_vec())
    );
}

// ========================================================================
// Tab, Escape, Enter, Backspace
// ========================================================================

#[test]
fn test_key_encode_tab_no_mods() {
    assert_eq!(
        encode_key("tab", no_mods(), false),
        Some(b"\x09".to_vec())
    );
}

#[test]
fn test_key_encode_tab_shift() {
    assert_eq!(
        encode_key("tab", shift(), false),
        Some(b"\x1b[Z".to_vec())
    );
}

#[test]
fn test_key_encode_escape() {
    assert_eq!(
        encode_key("escape", no_mods(), false),
        Some(b"\x1b".to_vec())
    );
}

#[test]
fn test_key_encode_enter() {
    assert_eq!(
        encode_key("enter", no_mods(), false),
        Some(b"\x0d".to_vec())
    );
}

#[test]
fn test_key_encode_backspace_no_mods() {
    assert_eq!(
        encode_key("backspace", no_mods(), false),
        Some(b"\x7f".to_vec())
    );
}

#[test]
fn test_key_encode_backspace_alt() {
    assert_eq!(
        encode_key("backspace", alt(), false),
        Some(b"\x1b\x7f".to_vec())
    );
}

// ========================================================================
// Delete, Insert, PageUp, PageDown
// ========================================================================

#[test]
fn test_key_encode_delete_no_mods() {
    assert_eq!(
        encode_key("delete", no_mods(), false),
        Some(b"\x1b[3~".to_vec())
    );
}

#[test]
fn test_key_encode_delete_ctrl() {
    assert_eq!(
        encode_key("delete", ctrl(), false),
        Some(b"\x1b[3;5~".to_vec())
    );
}

#[test]
fn test_key_encode_insert_no_mods() {
    assert_eq!(
        encode_key("insert", no_mods(), false),
        Some(b"\x1b[2~".to_vec())
    );
}

#[test]
fn test_key_encode_pageup_no_mods() {
    assert_eq!(
        encode_key("pageup", no_mods(), false),
        Some(b"\x1b[5~".to_vec())
    );
}

#[test]
fn test_key_encode_pagedown_no_mods() {
    assert_eq!(
        encode_key("pagedown", no_mods(), false),
        Some(b"\x1b[6~".to_vec())
    );
}

// ========================================================================
// Function keys F1-F12
// ========================================================================

#[test]
fn test_key_encode_f1() {
    assert_eq!(
        encode_key("f1", no_mods(), false),
        Some(b"\x1bOP".to_vec())
    );
}

#[test]
fn test_key_encode_f2() {
    assert_eq!(
        encode_key("f2", no_mods(), false),
        Some(b"\x1bOQ".to_vec())
    );
}

#[test]
fn test_key_encode_f3() {
    assert_eq!(
        encode_key("f3", no_mods(), false),
        Some(b"\x1bOR".to_vec())
    );
}

#[test]
fn test_key_encode_f4() {
    assert_eq!(
        encode_key("f4", no_mods(), false),
        Some(b"\x1bOS".to_vec())
    );
}

#[test]
fn test_key_encode_f5() {
    assert_eq!(
        encode_key("f5", no_mods(), false),
        Some(b"\x1b[15~".to_vec())
    );
}

#[test]
fn test_key_encode_f6() {
    assert_eq!(
        encode_key("f6", no_mods(), false),
        Some(b"\x1b[17~".to_vec())
    );
}

#[test]
fn test_key_encode_f7() {
    assert_eq!(
        encode_key("f7", no_mods(), false),
        Some(b"\x1b[18~".to_vec())
    );
}

#[test]
fn test_key_encode_f8() {
    assert_eq!(
        encode_key("f8", no_mods(), false),
        Some(b"\x1b[19~".to_vec())
    );
}

#[test]
fn test_key_encode_f9() {
    assert_eq!(
        encode_key("f9", no_mods(), false),
        Some(b"\x1b[20~".to_vec())
    );
}

#[test]
fn test_key_encode_f10() {
    assert_eq!(
        encode_key("f10", no_mods(), false),
        Some(b"\x1b[21~".to_vec())
    );
}

#[test]
fn test_key_encode_f11() {
    assert_eq!(
        encode_key("f11", no_mods(), false),
        Some(b"\x1b[23~".to_vec())
    );
}

#[test]
fn test_key_encode_f12() {
    assert_eq!(
        encode_key("f12", no_mods(), false),
        Some(b"\x1b[24~".to_vec())
    );
}

// ========================================================================
// Unknown key
// ========================================================================

#[test]
fn test_key_encode_unknown() {
    assert_eq!(encode_key("unknown_key", no_mods(), false), None);
}

// ========================================================================
// ctrl_byte_for_keystroke tests
// ========================================================================

fn make_keystroke(key: &str, key_char: Option<&str>) -> Keystroke {
    Keystroke {
        modifiers: Modifiers::default(),
        key: key.to_string(),
        key_char: key_char.map(|s| s.to_string()),
    }
}

#[test]
fn test_ctrl_byte_c() {
    let ks = make_keystroke("c", Some("c"));
    assert_eq!(ctrl_byte_for_keystroke(&ks), Some(3)); // 0x03
}

#[test]
fn test_ctrl_byte_a() {
    let ks = make_keystroke("a", Some("a"));
    assert_eq!(ctrl_byte_for_keystroke(&ks), Some(1));
}

#[test]
fn test_ctrl_byte_z() {
    let ks = make_keystroke("z", Some("z"));
    assert_eq!(ctrl_byte_for_keystroke(&ks), Some(26));
}

#[test]
fn test_ctrl_byte_space() {
    let ks = make_keystroke("space", Some("space"));
    assert_eq!(ctrl_byte_for_keystroke(&ks), Some(0));
}

#[test]
fn test_ctrl_byte_bracket() {
    // '[' = 0x5B, in '@'..='_' range (0x40..=0x5F)
    let ks = make_keystroke("[", Some("["));
    assert_eq!(ctrl_byte_for_keystroke(&ks), Some(27)); // 0x1B
}

#[test]
fn test_ctrl_byte_multi_byte_returns_none() {
    let ks = make_keystroke("", Some("\u{00e4}")); // 'ä' is multi-byte UTF-8
    assert_eq!(ctrl_byte_for_keystroke(&ks), None);
}

#[test]
fn test_ctrl_byte_key_fallback() {
    // When key_char is None, falls back to key field
    let ks = make_keystroke("c", None);
    assert_eq!(ctrl_byte_for_keystroke(&ks), Some(3));
}

#[test]
fn test_ctrl_byte_uppercase() {
    let ks = make_keystroke("C", Some("C"));
    assert_eq!(ctrl_byte_for_keystroke(&ks), Some(3));
}

// ========================================================================
// Modifier combinations (additional coverage)
// ========================================================================

#[test]
fn test_key_encode_arrow_ctrl() {
    // Ctrl+Right: mod_param = 1 + 4 = 5
    let mods = Modifiers {
        control: true,
        ..Default::default()
    };
    assert_eq!(
        encode_key("right", mods, false),
        Some(b"\x1b[1;5C".to_vec())
    );
}

#[test]
fn test_key_encode_arrow_alt() {
    // Alt+Up: mod_param = 1 + 2 = 3
    let mods = Modifiers {
        alt: true,
        ..Default::default()
    };
    assert_eq!(
        encode_key("up", mods, false),
        Some(b"\x1b[1;3A".to_vec())
    );
}

#[test]
fn test_key_encode_f1_with_shift() {
    assert_eq!(
        encode_key("f1", shift(), false),
        Some(b"\x1b[1;2P".to_vec())
    );
}

#[test]
fn test_key_encode_pageup_shift() {
    assert_eq!(
        encode_key("pageup", shift(), false),
        Some(b"\x1b[5;2~".to_vec())
    );
}

#[test]
fn test_key_encode_home_ctrl() {
    assert_eq!(
        encode_key("home", ctrl(), false),
        Some(b"\x1b[1;5H".to_vec())
    );
}

#[test]
fn test_key_encode_end_shift() {
    assert_eq!(
        encode_key("end", shift(), false),
        Some(b"\x1b[1;2F".to_vec())
    );
}

#[test]
fn test_key_encode_insert_ctrl() {
    assert_eq!(
        encode_key("insert", ctrl(), false),
        Some(b"\x1b[2;5~".to_vec())
    );
}

#[test]
fn test_key_encode_f6_ctrl() {
    assert_eq!(
        encode_key("f6", ctrl(), false),
        Some(b"\x1b[17;5~".to_vec())
    );
}

#[test]
fn test_key_encode_f12_shift() {
    assert_eq!(
        encode_key("f12", shift(), false),
        Some(b"\x1b[24;2~".to_vec())
    );
}

// ========================================================================
// Additional cases
// ========================================================================

#[test]
fn test_tilde_key_formats_parameters() {
    assert_eq!(tilde_key(3, 1, false), Some(b"\x1b[3~".to_vec()));
    assert_eq!(tilde_key(24, 8, true), Some(b"\x1b[24;8~".to_vec()));
}

#[test]
fn test_key_encode_all_modifiers() {
    let mods = Modifiers { shift: true, alt: true, control: true };
    assert_eq!(encode_key("left", mods, true), Some(b"\x1b[1;8D".to_vec()));
    assert_eq!(encode_key("delete", mods, false), Some(b"\x1b[3;8~".to_vec()));
}

#[test]
fn test_key_encode_enter_and_escape_ignore_modifiers() {
    let mods = Modifiers { shift: true, alt: true, control: true };
    assert_eq!(encode_key("enter", mods, true), Some(b"\x0d".to_vec()));
    assert_eq!(encode_key("escape", mods, true), Some(b"\x1b".to_vec()));
}

#[test]
fn test_ctrl_byte_outside_control_range() {
    let ks = make_keystroke("1", Some("1"));
    assert_eq!(ctrl_byte_for_keystroke(&ks), None);
    let ks = make_keystroke("", Some("ab"));
    assert_eq!(ctrl_byte_for_keystroke(&ks), None);
}

#[test]
fn test_tilde_and_ss3_forms_for_every_modifier() {
    let tilde = [
        ("delete", "3"), ("insert", "2"), ("pageup", "5"), ("pagedown", "6"),
        ("f5", "15"), ("f6", "17"), ("f7", "18"), ("f8", "19"),
        ("f9", "20"), ("f10", "21"), ("f11", "23"), ("f12", "24"),
    ];
    let ss3 = [("f1", 'P'), ("f2", 'Q'), ("f3", 'R'), ("f4", 'S')];
    for bits in 0..8u8 {
        let m = Modifiers { shift: bits & 1 != 0, alt: bits & 2 != 0, control: bits & 4 != 0 };
        let p = 1 + bits;
        for app_cursor in [false, true] {
            for (name, n) in tilde {
                let want = if p > 1 { format!("\x1b[{n};{p}~") } else { format!("\x1b[{n}~") };
                assert_eq!(encode_key(name, m, app_cursor), Some(want.into_bytes()), "{name} {bits}");
            }
            for (name, s) in ss3 {
                let want = if p > 1 { format!("\x1b[1;{p}{s}") } else { format!("\x1bO{s}") };
                assert_eq!(encode_key(name, m, app_cursor), Some(want.into_bytes()), "{name} {bits}");
            }
        }
    }
}
