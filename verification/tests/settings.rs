//! Tests of the settings model: editor choices, theme modes and paths.
use ade::settings::{settings_path, Appearance, EditorChoice, Settings, ThemeMode};
use ade::theme::ThemeName;

#[test]
fn test_settings_default_returns_macos_open() {
    let settings = Settings::default();
    assert_eq!(settings.external_editor, EditorChoice::MacOsOpen);
}

#[test]
fn test_all_editor_choices_have_display_name() {
    for editor in EditorChoice::all() {
        let name = editor.display_name();
        assert!(!name.is_empty(), "Display name should not be empty");
    }
}

#[test]
fn test_all_editor_choices_represented_in_all() {
    let all = EditorChoice::all();
    assert_eq!(all.len(), 8, "Expected 8 editor variants");

    assert!(all.contains(&EditorChoice::MacOsOpen));
    assert!(all.contains(&EditorChoice::VsCode));
    assert!(all.contains(&EditorChoice::SublimeText));
    assert!(all.contains(&EditorChoice::Zed));
    assert!(all.contains(&EditorChoice::Cursor));
    assert!(all.contains(&EditorChoice::IntelliJ));
    assert!(all.contains(&EditorChoice::Nova));
    assert!(all.contains(&EditorChoice::Xcode));
}

#[test]
fn test_editor_choice_all_cli_commands_non_empty() {
    for editor in EditorChoice::all() {
        let cmd = editor.cli_command();
        assert!(!cmd.is_empty(), "CLI command should not be empty");
    }
}

#[test]
fn test_settings_default_has_system_theme() {
    let settings = Settings::default();
    assert_eq!(settings.theme_mode, ThemeMode::System);
}

#[test]
fn test_theme_mode_resolve_dark() {
    assert_eq!(ThemeMode::Dark.resolve(), ThemeName::Dark);
}

#[test]
fn test_theme_mode_resolve_light() {
    assert_eq!(ThemeMode::Light.resolve(), ThemeName::Light);
}

#[test]
fn test_theme_mode_resolve_system() {
    // System defaults to Dark where the OS appearance is not consulted.
    assert_eq!(ThemeMode::System.resolve(), ThemeName::Dark);
}

#[test]
fn test_theme_mode_all_returns_three_variants() {
    let all = ThemeMode::all();
    assert_eq!(all.len(), 3);
    assert!(all.contains(&ThemeMode::Dark));
    assert!(all.contains(&ThemeMode::Light));
    assert!(all.contains(&ThemeMode::System));
}

#[test]
fn test_theme_mode_display_names() {
    assert_eq!(ThemeMode::Dark.display_name(), "Dark");
    assert_eq!(ThemeMode::Light.display_name(), "Light");
    assert_eq!(ThemeMode::System.display_name(), "System");
}

#[test]
fn test_theme_mode_resolve_with_appearance() {
    // System mode follows OS appearance
    assert_eq!(ThemeMode::System.resolve_with_appearance(Appearance::Dark), ThemeName::Dark);
    assert_eq!(
        ThemeMode::System.resolve_with_appearance(Appearance::VibrantDark),
        ThemeName::Dark
    );
    assert_eq!(ThemeMode::System.resolve_with_appearance(Appearance::Light), ThemeName::Light);
    assert_eq!(
        ThemeMode::System.resolve_with_appearance(Appearance::VibrantLight),
        ThemeName::Light
    );

    // Explicit modes ignore system appearance
    assert_eq!(ThemeMode::Dark.resolve_with_appearance(Appearance::Light), ThemeName::Dark);
    assert_eq!(ThemeMode::Light.resolve_with_appearance(Appearance::Dark), ThemeName::Light);
}

#[test]
fn test_settings_path_ends_correctly() {
    let path = settings_path(Some("/Users/someone"));
    assert!(
        path.ends_with(".config/ade/settings.json"),
        "Expected path ending with .config/ade/settings.json, got: {}",
        path
    );
}

// ---------------------------------------------------------------------------
// Additional cases
// ---------------------------------------------------------------------------

#[test]
fn test_settings_path_joins_home() {
    assert_eq!(settings_path(Some("/Users/me")), "/Users/me/.config/ade/settings.json");
    assert_eq!(settings_path(Some("/Users/me/")), "/Users/me/.config/ade/settings.json");
    assert_eq!(settings_path(None), "/tmp/.config/ade/settings.json");
}

#[test]
fn test_explicit_mode_ignores_every_appearance() {
    let appearances =
        [Appearance::Light, Appearance::VibrantLight, Appearance::Dark, Appearance::VibrantDark];
    for a in appearances {
        assert_eq!(ThemeMode::Dark.resolve_with_appearance(a), ThemeName::Dark);
        assert_eq!(ThemeMode::Light.resolve_with_appearance(a), ThemeName::Light);
    }
}

#[test]
fn test_loaded_or_default() {
    let parsed = Settings { external_editor: EditorChoice::Zed, theme_mode: ThemeMode::Light };
    assert_eq!(Settings::loaded_or_default(Some(parsed)), parsed);
    assert_eq!(Settings::loaded_or_default(None), Settings::default());
}

#[test]
fn test_open_args() {
    assert_eq!(EditorChoice::MacOsOpen.open_args("/tmp/a.rs"), vec!["/tmp/a.rs".to_string()]);
    assert_eq!(
        EditorChoice::VsCode.open_args("/tmp/a.rs"),
        vec!["-a".to_string(), "Visual Studio Code".to_string(), "/tmp/a.rs".to_string()]
    );
    assert_eq!(EditorChoice::IntelliJ.app_name(), Some("IntelliJ IDEA"));
    assert_eq!(EditorChoice::MacOsOpen.app_name(), None);
}
