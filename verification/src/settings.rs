//! User settings: theme preference, external editor choice, and where the
//! settings file lives.
use vstd::prelude::*;
use crate::theme::ThemeName;
use crate::text::{chars_of, string_from_chars};

verus! {

/// Theme mode preference: Dark, Light, or System (follows OS appearance).
#[derive(Debug, Clone, Copy, PartialEq, Eq, Structural)]
pub enum ThemeMode {
    Dark,
    Light,
    System,
}

/// The operating system's window appearance.
#[derive(Debug, Clone, Copy, PartialEq, Eq, Structural)]
pub enum Appearance {
    Light,
    VibrantLight,
    Dark,
    VibrantDark,
}

/// What a preference resolves to without a window: System counts as Dark.
pub open spec fn resolved(mode: ThemeMode) -> ThemeName {
    match mode {
        ThemeMode::Light => ThemeName::Light,
        _ => ThemeName::Dark,
    }
}

/// What a preference resolves to under an OS appearance: System follows the
/// appearance (the dark ones give Dark).
pub open spec fn resolved_with(mode: ThemeMode, appearance: Appearance) -> ThemeName {
    match mode {
        ThemeMode::Dark => ThemeName::Dark,
        ThemeMode::Light => ThemeName::Light,
        ThemeMode::System => if appearance == Appearance::Dark || appearance
            == Appearance::VibrantDark {
            ThemeName::Dark
        } else {
            ThemeName::Light
        },
    }
}

impl ThemeMode {
    /// Returns all theme mode variants in display order.
    pub fn all() -> (r: &'static [ThemeMode])
        ensures
            r@ == seq![ThemeMode::Dark, ThemeMode::Light, ThemeMode::System],
    {
        let r: &'static [ThemeMode] = &[ThemeMode::Dark, ThemeMode::Light, ThemeMode::System];
        assert(r@ =~= seq![ThemeMode::Dark, ThemeMode::Light, ThemeMode::System]);
        r
    }

    /// Human-readable display name for the theme mode.
    pub fn display_name(&self) -> (r: &'static str)
        ensures
            r@ == match self {
                ThemeMode::Dark => "Dark"@,
                ThemeMode::Light => "Light"@,
                ThemeMode::System => "System"@,
            },
    {
        match self {
            ThemeMode::Dark => "Dark",
            ThemeMode::Light => "Light",
            ThemeMode::System => "System",
        }
    }

    /// Resolve the user's theme mode preference to a concrete ThemeName.
    /// For System mode, defaults to Dark when no window context is available.
    /// Prefer `resolve_with_appearance` when a window is accessible.
    pub fn resolve(&self) -> (r: ThemeName)
        ensures
            r == resolved(*self),
    {
        match self {
            ThemeMode::Dark => ThemeName::Dark,
            ThemeMode::Light => ThemeName::Light,
            ThemeMode::System => ThemeName::Dark,
        }
    }

    /// Resolve the user's theme mode preference to a concrete ThemeName,
    /// using the window's appearance to determine System mode mapping.
    pub fn resolve_with_appearance(&self, appearance: Appearance) -> (r: ThemeName)
        ensures
            r == resolved_with(*self, appearance),
    {
        match self {
            ThemeMode::Dark => ThemeName::Dark,
            ThemeMode::Light => ThemeName::Light,
            ThemeMode::System => match appearance {
                Appearance::Dark | Appearance::VibrantDark => ThemeName::Dark,
                _ => ThemeName::Light,
            },
        }
    }
}

/// An explicit preference resolves the same way whatever the OS appearance,
/// and the same way as without a window.
pub proof fn law_explicit_mode_ignores_appearance(mode: ThemeMode, a: Appearance)
    requires
        mode != ThemeMode::System,
    ensures
        resolved_with(mode, a) == resolved(mode),
{
}

/// The theme mode a settings file without one gets.
pub fn default_theme_mode() -> (r: ThemeMode)
    ensures
        r == ThemeMode::System,
{
    ThemeMode::System
}

/// Supported external editors for opening files from code review.
#[derive(Debug, Clone, Copy, PartialEq, Eq, Structural)]
pub enum EditorChoice {
    MacOsOpen,
    VsCode,
    SublimeText,
    Zed,
    Cursor,
    IntelliJ,
    Nova,
    Xcode,
}

/// The application bundle name of an editor (`None` for the system opener).
pub open spec fn app_name_spec(e: EditorChoice) -> Option<Seq<char>> {
    match e {
        EditorChoice::MacOsOpen => None,
        EditorChoice::VsCode => Some("Visual Studio Code"@),
        EditorChoice::SublimeText => Some("Sublime Text"@),
        EditorChoice::Zed => Some("Zed"@),
        EditorChoice::Cursor => Some("Cursor"@),
        EditorChoice::IntelliJ => Some("IntelliJ IDEA"@),
        EditorChoice::Nova => Some("Nova"@),
        EditorChoice::Xcode => Some("Xcode"@),
    }
}

impl EditorChoice {
    /// Returns all editor variants in display order (MacOsOpen first).
    pub fn all() -> (r: &'static [EditorChoice])
        ensures
            r@ == seq![
                EditorChoice::MacOsOpen,
                EditorChoice::VsCode,
                EditorChoice::SublimeText,
                EditorChoice::Zed,
                EditorChoice::Cursor,
                EditorChoice::IntelliJ,
                EditorChoice::Nova,
                EditorChoice::Xcode,
            ],
    {
        let r: &'static [EditorChoice] = &[
            EditorChoice::MacOsOpen,
            EditorChoice::VsCode,
            EditorChoice::SublimeText,
            EditorChoice::Zed,
            EditorChoice::Cursor,
            EditorChoice::IntelliJ,
            EditorChoice::Nova,
            EditorChoice::Xcode,
        ];
        assert(r@ =~= seq![
            EditorChoice::MacOsOpen,
            EditorChoice::VsCode,
            EditorChoice::SublimeText,
            EditorChoice::Zed,
            EditorChoice::Cursor,
            EditorChoice::IntelliJ,
            EditorChoice::Nova,
            EditorChoice::Xcode,
        ]);
        r
    }

    /// Human-readable display name for the editor.
    pub fn display_name(&self) -> (r: &'static str)
        ensures
            r@ == match self {
                EditorChoice::MacOsOpen => "macOS open (Default)"@,
                EditorChoice::VsCode => "VS Code"@,
                EditorChoice::SublimeText => "Sublime Text"@,
                EditorChoice::Zed => "Zed"@,
                EditorChoice::Cursor => "Cursor"@,
                EditorChoice::IntelliJ => "IntelliJ IDEA"@,
                EditorChoice::Nova => "Nova"@,
                EditorChoice::Xcode => "Xcode"@,
            },
    {
        match self {
            EditorChoice::MacOsOpen => "macOS open (Default)",
            EditorChoice::VsCode => "VS Code",
            EditorChoice::SublimeText => "Sublime Text",
            EditorChoice::Zed => "Zed",
            EditorChoice::Cursor => "Cursor",
            EditorChoice::IntelliJ => "IntelliJ IDEA",
            EditorChoice::Nova => "Nova",
            EditorChoice::Xcode => "Xcode",
        }
    }

    /// CLI command used for `which` detection (not necessarily for launch).
    pub fn cli_command(&self) -> (r: &'static str)
        ensures
            r@ == match self {
                EditorChoice::MacOsOpen => "open"@,
                EditorChoice::VsCode => "code"@,
                EditorChoice::SublimeText => "subl"@,
                EditorChoice::Zed => "zed"@,
                EditorChoice::Cursor => "cursor"@,
                EditorChoice::IntelliJ => "idea"@,
                EditorChoice::Nova => "nova"@,
                EditorChoice::Xcode => "xcode"@,
            },
    {
        match self {
            EditorChoice::MacOsOpen => "open",
            EditorChoice::VsCode => "code",
            EditorChoice::SublimeText => "subl",
            EditorChoice::Zed => "zed",
            EditorChoice::Cursor => "cursor",
            EditorChoice::IntelliJ => "idea",
            EditorChoice::Nova => "nova",
            EditorChoice::Xcode => "xcode",
        }
    }

    /// macOS application bundle name for `/Applications/<name>.app` detection.
    pub fn app_name(&self) -> (r: Option<&'static str>)
        ensures
            match r {
                Some(s) => app_name_spec(*self) == Some(s@),
                None => app_name_spec(*self) is None,
            },
    {
        match self {
            EditorChoice::MacOsOpen => None,
            EditorChoice::VsCode => Some("Visual Studio Code"),
            EditorChoice::SublimeText => Some("Sublime Text"),
            EditorChoice::Zed => Some("Zed"),
            EditorChoice::Cursor => Some("Cursor"),
            EditorChoice::IntelliJ => Some("IntelliJ IDEA"),
            EditorChoice::Nova => Some("Nova"),
            EditorChoice::Xcode => Some("Xcode"),
        }
    }

    /// The arguments of the `open` command that opens `file_path` in this
    /// editor: `open <file>` for the system opener, `open -a <App> <file>`
    /// for the others.
    pub fn open_args(&self, file_path: &str) -> (r: Vec<String>)
        ensures
            r@.map_values(|s: String| s@) == match app_name_spec(*self) {
                None => seq![file_path@],
                Some(app) => seq!["-a"@, app, file_path@],
            },
    {
        let mut r: Vec<String> = Vec::new();
        match self.app_name() {
            None => {
                r.push(file_path.to_owned());
            },
            Some(app) => {
                r.push("-a".to_owned());
                r.push(app.to_owned());
                r.push(file_path.to_owned());
            },
        }
        assert(r@.map_values(|s: String| s@) =~= match app_name_spec(*self) {
            None => seq![file_path@],
            Some(app) => seq!["-a"@, app, file_path@],
        });
        r
    }
}

/// The editor a settings file without one gets.
pub fn default_editor() -> (r: EditorChoice)
    ensures
        r == EditorChoice::MacOsOpen,
{
    EditorChoice::MacOsOpen
}

/// Application settings persisted to `~/.config/ade/settings.json`.
#[derive(Debug, Clone, Copy, PartialEq, Eq, Structural)]
pub struct Settings {
    pub external_editor: EditorChoice,
    pub theme_mode: ThemeMode,
}

impl Default for Settings {
    fn default() -> (s: Self)
        ensures
            s.external_editor == EditorChoice::MacOsOpen,
            s.theme_mode == ThemeMode::System,
    {
        Settings { external_editor: default_editor(), theme_mode: default_theme_mode() }
    }
}

impl Settings {
    /// The settings that a load yields: what was parsed from the file, or
    /// the defaults where the file could not be read or parsed.
    pub fn loaded_or_default(parsed: Option<Settings>) -> (s: Settings)
        ensures
            s == match parsed {
                Some(p) => p,
                None => Settings {
                    external_editor: EditorChoice::MacOsOpen,
                    theme_mode: ThemeMode::System,
                },
            },
    {
        match parsed {
            Some(p) => p,
            None => Settings::default(),
        }
    }
}

/// The tail of the settings path below the home directory.
pub open spec fn settings_tail() -> Seq<char> {
    ".config/ade/settings.json"@
}

/// `home` joined with the settings tail: with a separator unless `home` is
/// empty or already ends with one.
pub open spec fn settings_path_spec(home: Seq<char>) -> Seq<char> {
    if home.len() == 0 {
        settings_tail()
    } else if home.last() == '/' {
        home + settings_tail()
    } else {
        home + seq!['/'] + settings_tail()
    }
}

/// The settings file path under a home directory: `<home>/.config/ade/settings.json`.
/// Where the home directory is unknown, `/tmp` stands in for it.
pub fn settings_path(home: Option<&str>) -> (p: String)
    ensures
        p@ == settings_path_spec(match home {
            Some(h) => h@,
            None => "/tmp"@,
        }),
{
    let h = match home {
        Some(h) => h,
        None => "/tmp",
    };
    let mut v = chars_of(h);
    let tail = chars_of(".config/ade/settings.json");
    if v.len() > 0 && v[v.len() - 1] != '/' {
        v.push('/');
    }
    let ghost head = v@;
    let mut i: usize = 0;
    while i < tail.len()
        invariant
            i <= tail@.len(),
            v@ == head + tail@.take(i as int),
        decreases tail@.len() - i,
    {
        v.push(tail[i]);
        assert(tail@.take(i + 1) =~= tail@.take(i as int).push(tail@[i as int]));
        i = i + 1;
    }
    assert(tail@.take(i as int) =~= tail@);
    assert(v@ =~= settings_path_spec(h@));
    string_from_chars(&v)
}

} // verus!
