//! Terminal logic that does not touch the PTY: dimensions, the colour
//! palette, clipboard and title guards for escape sequences, and the PTY
//! environment.
use vstd::prelude::*;
use crate::text::{chars_of, string_from_chars};
use vstd::string::StringSliceAdditionalSpecFns;

verus! {

/// Scrollback history: 10,000 lines.
pub const DEFAULT_SCROLL_HISTORY: usize = 10_000;

/// Largest text (in UTF-8 bytes) that an OSC 52 clipboard write may carry.
pub const OSC52_MAX_BYTES: usize = 100_000;

/// Most characters a window title keeps.
pub const MAX_TITLE_CHARS: usize = 256;

/// The environment variables a new PTY gets, as (name, value) pairs.
pub fn pty_environment() -> (env: Vec<(String, String)>)
    ensures
        env@.map_values(|p: (String, String)| (p.0@, p.1@)) == seq![
            ("TERM"@, "xterm-256color"@),
            ("COLORTERM"@, "truecolor"@),
            ("TERM_PROGRAM"@, "Ade"@),
        ],
{
    let mut env: Vec<(String, String)> = Vec::new();
    env.push(("TERM".to_owned(), "xterm-256color".to_owned()));
    env.push(("COLORTERM".to_owned(), "truecolor".to_owned()));
    env.push(("TERM_PROGRAM".to_owned(), "Ade".to_owned()));
    assert(env@.map_values(|p: (String, String)| (p.0@, p.1@)) =~= seq![
        ("TERM"@, "xterm-256color"@),
        ("COLORTERM"@, "truecolor"@),
        ("TERM_PROGRAM"@, "Ade"@),
    ]);
    env
}

/// The PTY window size: lines and columns clamped to `u16`, and the cell
/// size in pixels.
#[derive(Debug, Clone, Copy, PartialEq, Eq, Structural)]
pub struct WindowSize {
    pub num_lines: u16,
    pub num_cols: u16,
    pub cell_width: u16,
    pub cell_height: u16,
}

/// Terminal dimensions. Cell dimensions default to 8x16 and are updated
/// after first paint with real font metrics.
#[derive(Debug, Clone, Copy, PartialEq, Eq, Structural)]
pub struct TerminalSize {
    pub columns: usize,
    pub screen_lines: usize,
    pub cell_width: u16,
    pub cell_height: u16,
}

fn clamp_u16(n: usize) -> (r: u16)
    ensures
        r == (if n < 0x10000 {
            n
        } else {
            0xffff
        }),
{
    if n < 0xffff {
        n as u16
    } else {
        0xffff
    }
}

impl TerminalSize {
    pub fn new(columns: usize, screen_lines: usize) -> (s: Self)
        ensures
            s == (TerminalSize { columns, screen_lines, cell_width: 8, cell_height: 16 }),
    {
        TerminalSize { columns, screen_lines, cell_width: 8, cell_height: 16 }
    }

    /// The PTY window size of these dimensions.
    pub fn window_size(&self) -> (w: WindowSize)
        ensures
            w.num_lines == (if self.screen_lines < 0x10000 {
                self.screen_lines
            } else {
                0xffff
            }),
            w.num_cols == (if self.columns < 0x10000 {
                self.columns
            } else {
                0xffff
            }),
            w.cell_width == self.cell_width,
            w.cell_height == self.cell_height,
    {
        WindowSize {
            num_lines: clamp_u16(self.screen_lines),
            num_cols: clamp_u16(self.columns),
            cell_width: self.cell_width,
            cell_height: self.cell_height,
        }
    }

    /// All lines the grid holds on screen.
    pub fn total_lines(&self) -> (r: usize)
        ensures
            r == self.screen_lines,
    {
        self.screen_lines
    }

    pub fn screen_lines(&self) -> (r: usize)
        ensures
            r == self.screen_lines,
    {
        self.screen_lines
    }

    pub fn columns(&self) -> (r: usize)
        ensures
            r == self.columns,
    {
        self.columns
    }
}

/// A colour as red, green and blue bytes.
#[derive(Debug, Clone, Copy, PartialEq, Eq, Structural)]
pub struct Rgb {
    pub r: u8,
    pub g: u8,
    pub b: u8,
}

/// A colour from its components.
pub open spec fn rgb(r: u8, g: u8, b: u8) -> Rgb {
    Rgb { r, g, b }
}

/// The 16 standard ANSI colours of the xterm-256color palette.
pub open spec fn named_palette() -> Seq<Rgb> {
    seq![
        rgb(0x00, 0x00, 0x00),  // Black
        rgb(0xCD, 0x00, 0x00),  // Red
        rgb(0x00, 0xCD, 0x00),  // Green
        rgb(0xCD, 0xCD, 0x00),  // Yellow
        rgb(0x00, 0x00, 0xEE),  // Blue
        rgb(0xCD, 0x00, 0xCD),  // Magenta
        rgb(0x00, 0xCD, 0xCD),  // Cyan
        rgb(0xE5, 0xE5, 0xE5),  // White
        rgb(0x7F, 0x7F, 0x7F),  // BrightBlack
        rgb(0xFF, 0x00, 0x00),  // BrightRed
        rgb(0x00, 0xFF, 0x00),  // BrightGreen
        rgb(0xFF, 0xFF, 0x00),  // BrightYellow
        rgb(0x5C, 0x5C, 0xFF),  // BrightBlue
        rgb(0xFF, 0x00, 0xFF),  // BrightMagenta
        rgb(0x00, 0xFF, 0xFF),  // BrightCyan
        rgb(0xFF, 0xFF, 0xFF),  // BrightWhite
    ]
}

fn mk(r: u8, g: u8, b: u8) -> (c: Rgb)
    ensures
        c == rgb(r, g, b),
{
    Rgb { r, g, b }
}

/// The standard ANSI colours, in palette order.
pub fn named_colors() -> (v: Vec<Rgb>)
    ensures
        v@ == named_palette(),
{
    let v = vec![
        mk(0x00, 0x00, 0x00),
        mk(0xCD, 0x00, 0x00),
        mk(0x00, 0xCD, 0x00),
        mk(0xCD, 0xCD, 0x00),
        mk(0x00, 0x00, 0xEE),
        mk(0xCD, 0x00, 0xCD),
        mk(0x00, 0xCD, 0xCD),
        mk(0xE5, 0xE5, 0xE5),
        mk(0x7F, 0x7F, 0x7F),
        mk(0xFF, 0x00, 0x00),
        mk(0x00, 0xFF, 0x00),
        mk(0xFF, 0xFF, 0x00),
        mk(0x5C, 0x5C, 0xFF),
        mk(0xFF, 0x00, 0xFF),
        mk(0x00, 0xFF, 0xFF),
        mk(0xFF, 0xFF, 0xFF),
    ];
    assert(v@ =~= named_palette());
    v
}

/// Default foreground colour (light gray).
pub open spec fn default_fg() -> Rgb {
    rgb(0xE5, 0xE5, 0xE5)
}

/// Default background colour (black).
pub open spec fn default_bg() -> Rgb {
    rgb(0x00, 0x00, 0x00)
}

/// Default cursor colour (same as the foreground).
pub open spec fn default_cursor() -> Rgb {
    rgb(0xE5, 0xE5, 0xE5)
}

/// A component scaled by 0.66, rounded down.
pub open spec fn dim_component(c: u8) -> u8 {
    (c * 66 / 100) as u8
}

/// A colour dimmed by 0.66 per component.
pub open spec fn dim_spec(c: Rgb) -> Rgb {
    rgb(dim_component(c.r), dim_component(c.g), dim_component(c.b))
}

fn dim_byte(c: u8) -> (r: u8)
    ensures
        r == dim_component(c),
{
    let x: u32 = c as u32 * 66 / 100;
    x as u8
}

/// Dim a colour by multiplying each component by 0.66 (rounded down).
pub fn dim(c: Rgb) -> (r: Rgb)
    ensures
        r == dim_spec(c),
{
    Rgb { r: dim_byte(c.r), g: dim_byte(c.g), b: dim_byte(c.b) }
}

/// One component of the 6x6x6 colour cube: 0, or 55 + 40 per step.
pub open spec fn cube_component(step: u8) -> u8 {
    if step == 0 {
        0
    } else {
        (step * 40 + 55) as u8
    }
}

/// The built-in colour of a 256-colour index: the ANSI colours, the colour
/// cube, then the gray ramp.
pub open spec fn indexed_default(idx: u8) -> Rgb {
    if idx < 16 {
        named_palette()[idx as int]
    } else if idx < 232 {
        let n = (idx - 16) as u8;
        rgb(cube_component(n / 36), cube_component((n / 6) % 6), cube_component(n % 6))
    } else {
        let v = ((idx - 232) * 10 + 8) as u8;
        rgb(v, v, v)
    }
}

fn cube(step: u8) -> (r: u8)
    requires
        step < 6,
    ensures
        r == cube_component(step),
{
    if step == 0 {
        0
    } else {
        step * 40 + 55
    }
}

/// Resolve an indexed colour (0-255): the palette's override where it has
/// one, else the built-in colour.
pub fn indexed_color(idx: u8, custom: Option<Rgb>) -> (r: Rgb)
    ensures
        r == match custom {
            Some(c) => c,
            None => indexed_default(idx),
        },
{
    if let Some(c) = custom {
        return c;
    }
    if idx < 16 {
        let palette = named_colors();
        palette[idx as usize]
    } else if idx < 232 {
        let n = idx - 16;
        Rgb { r: cube(n / 36), g: cube((n / 6) % 6), b: cube(n % 6) }
    } else {
        let v = (idx - 232) * 10 + 8;
        Rgb { r: v, g: v, b: v }
    }
}

/// The named colours of the terminal palette.
#[derive(Debug, Clone, Copy, PartialEq, Eq, Structural)]
pub enum NamedColor {
    Black,
    Red,
    Green,
    Yellow,
    Blue,
    Magenta,
    Cyan,
    White,
    BrightBlack,
    BrightRed,
    BrightGreen,
    BrightYellow,
    BrightBlue,
    BrightMagenta,
    BrightCyan,
    BrightWhite,
    Foreground,
    Background,
    Cursor,
    DimBlack,
    DimRed,
    DimGreen,
    DimYellow,
    DimBlue,
    DimMagenta,
    DimCyan,
    DimWhite,
    BrightForeground,
    DimForeground,
}

/// The palette index of an ANSI named colour (`None` for the others).
pub open spec fn ansi_index(n: NamedColor) -> Option<int> {
    match n {
        NamedColor::Black => Some(0),
        NamedColor::Red => Some(1),
        NamedColor::Green => Some(2),
        NamedColor::Yellow => Some(3),
        NamedColor::Blue => Some(4),
        NamedColor::Magenta => Some(5),
        NamedColor::Cyan => Some(6),
        NamedColor::White => Some(7),
        NamedColor::BrightBlack => Some(8),
        NamedColor::BrightRed => Some(9),
        NamedColor::BrightGreen => Some(10),
        NamedColor::BrightYellow => Some(11),
        NamedColor::BrightBlue => Some(12),
        NamedColor::BrightMagenta => Some(13),
        NamedColor::BrightCyan => Some(14),
        NamedColor::BrightWhite => Some(15),
        _ => None,
    }
}

/// The built-in colour of a named colour: the ANSI colours from the palette,
/// the dim ones dimmed, foreground, background and cursor from the defaults.
pub open spec fn named_default(n: NamedColor) -> Rgb {
    match n {
        NamedColor::Foreground => default_fg(),
        NamedColor::Background => default_bg(),
        NamedColor::Cursor => default_cursor(),
        NamedColor::BrightForeground => default_fg(),
        NamedColor::DimForeground => dim_spec(default_fg()),
        NamedColor::DimBlack => dim_spec(named_palette()[0]),
        NamedColor::DimRed => dim_spec(named_palette()[1]),
        NamedColor::DimGreen => dim_spec(named_palette()[2]),
        NamedColor::DimYellow => dim_spec(named_palette()[3]),
        NamedColor::DimBlue => dim_spec(named_palette()[4]),
        NamedColor::DimMagenta => dim_spec(named_palette()[5]),
        NamedColor::DimCyan => dim_spec(named_palette()[6]),
        NamedColor::DimWhite => dim_spec(named_palette()[7]),
        _ => named_palette()[ansi_index(n)->0],
    }
}

/// A named ANSI colour resolves to the colour of its palette index, and the
/// sixteen ANSI colours are all different (each bright colour differs from
/// its normal one).
pub proof fn law_named_colors_are_their_indexed_colors(n: NamedColor, n2: NamedColor)
    ensures
        ansi_index(n) matches Some(i) ==> resolved(TermColor::Named(n), None) == resolved(
            TermColor::Indexed(i as u8),
            None,
        ),
        (ansi_index(n) matches Some(i) && ansi_index(n2) matches Some(j) && i != j) ==> resolved(
            TermColor::Named(n),
            None,
        ) != resolved(TermColor::Named(n2), None),
{
}

fn ansi_slot(n: NamedColor) -> (r: usize)
    requires
        ansi_index(n) is Some,
    ensures
        r == ansi_index(n)->0,
{
    match n {
        NamedColor::Black => 0,
        NamedColor::Red => 1,
        NamedColor::Green => 2,
        NamedColor::Yellow => 3,
        NamedColor::Blue => 4,
        NamedColor::Magenta => 5,
        NamedColor::Cyan => 6,
        NamedColor::White => 7,
        NamedColor::BrightBlack => 8,
        NamedColor::BrightRed => 9,
        NamedColor::BrightGreen => 10,
        NamedColor::BrightYellow => 11,
        NamedColor::BrightBlue => 12,
        NamedColor::BrightMagenta => 13,
        NamedColor::BrightCyan => 14,
        _ => 15,
    }
}

/// Resolve a named colour: the palette's override where it has one, else
/// the built-in colour.
pub fn named_color(name: NamedColor, custom: Option<Rgb>) -> (r: Rgb)
    ensures
        r == match custom {
            Some(c) => c,
            None => named_default(name),
        },
{
    if let Some(c) = custom {
        return c;
    }
    let palette = named_colors();
    let fg = Rgb { r: 0xE5, g: 0xE5, b: 0xE5 };
    match name {
        NamedColor::Foreground => fg,
        NamedColor::Background => Rgb { r: 0x00, g: 0x00, b: 0x00 },
        NamedColor::Cursor => Rgb { r: 0xE5, g: 0xE5, b: 0xE5 },
        NamedColor::BrightForeground => fg,
        NamedColor::DimForeground => dim(fg),
        NamedColor::DimBlack => dim(palette[0]),
        NamedColor::DimRed => dim(palette[1]),
        NamedColor::DimGreen => dim(palette[2]),
        NamedColor::DimYellow => dim(palette[3]),
        NamedColor::DimBlue => dim(palette[4]),
        NamedColor::DimMagenta => dim(palette[5]),
        NamedColor::DimCyan => dim(palette[6]),
        NamedColor::DimWhite => dim(palette[7]),
        _ => palette[ansi_slot(name)],
    }
}

/// A cell colour as the terminal stores it.
#[derive(Debug, Clone, Copy, PartialEq, Eq, Structural)]
pub enum TermColor {
    Spec(Rgb),
    Indexed(u8),
    Named(NamedColor),
}

/// The concrete colour of a cell colour: an explicit colour as it is, an
/// index or a name by the palette's override when it has one, else by the
/// built-in colours.
pub open spec fn resolved(color: TermColor, custom: Option<Rgb>) -> Rgb {
    match color {
        TermColor::Spec(c) => c,
        TermColor::Indexed(i) => match custom {
            Some(c) => c,
            None => indexed_default(i),
        },
        TermColor::Named(n) => match custom {
            Some(c) => c,
            None => named_default(n),
        },
    }
}

/// Resolve a cell colour to a concrete colour; `custom` is the palette's
/// override for the index or name, if it has one.
pub fn resolve_color(color: TermColor, custom: Option<Rgb>) -> (r: Rgb)
    ensures
        r == resolved(color, custom),
{
    match color {
        TermColor::Spec(c) => c,
        TermColor::Indexed(i) => indexed_color(i, custom),
        TermColor::Named(n) => named_color(n, custom),
    }
}

/// Whether an OSC 52 clipboard write is accepted: only when the opt-in
/// setting (the `ADE_ALLOW_OSC52` environment variable) is exactly "1", and
/// only for text of at most 100,000 bytes.
pub fn should_accept_osc52(allow_setting: Option<&str>, text: &str) -> (r: bool)
    ensures
        r == ((match allow_setting {
            Some(v) => v@ == seq!['1'],
            None => false,
        }) && text.spec_bytes().len() <= OSC52_MAX_BYTES),
{
    let enabled = match allow_setting {
        Some(v) => {
            let c = chars_of(v);
            let one = c.len() == 1 && c[0] == '1';
            proof {
                if one {
                    assert(c@ =~= seq!['1']);
                }
            }
            one
        },
        None => false,
    };
    if !enabled {
        return false;
    }
    if text.as_bytes().len() > OSC52_MAX_BYTES {
        return false;
    }
    true
}

/// Whether a title keeps `c`: no C0 control character or DEL, no C1
/// control character, no Unicode bidi override.
pub open spec fn title_keeps(c: char) -> bool {
    &&& !(c < ' ' || c == '\x7f')
    &&& !('\u{0080}' <= c && c <= '\u{009F}')
    &&& !(c == '\u{200E}' || c == '\u{200F}' || c == '\u{202A}' || c == '\u{202B}' || c
        == '\u{202C}' || c == '\u{202D}' || c == '\u{202E}' || c == '\u{2066}' || c == '\u{2067}'
        || c == '\u{2068}' || c == '\u{2069}')
}

/// The characters of `s` that a title keeps, in order.
pub open spec fn title_kept(s: Seq<char>) -> Seq<char>
    decreases s.len(),
{
    if s.len() == 0 {
        Seq::empty()
    } else if title_keeps(s.last()) {
        title_kept(s.drop_last()).push(s.last())
    } else {
        title_kept(s.drop_last())
    }
}

/// At most the first `MAX_TITLE_CHARS` characters of `s`.
pub open spec fn title_truncated(s: Seq<char>) -> Seq<char> {
    if s.len() <= MAX_TITLE_CHARS {
        s
    } else {
        s.take(MAX_TITLE_CHARS as int)
    }
}

fn keeps(c: char) -> (r: bool)
    ensures
        r == title_keeps(c),
{
    if c < ' ' || c == '\x7f' {
        return false;
    }
    if '\u{0080}' <= c && c <= '\u{009F}' {
        return false;
    }
    if c == '\u{200E}' || c == '\u{200F}' || c == '\u{202A}' || c == '\u{202B}' || c == '\u{202C}'
        || c == '\u{202D}' || c == '\u{202E}' || c == '\u{2066}' || c == '\u{2067}' || c
        == '\u{2068}' || c == '\u{2069}' {
        return false;
    }
    true
}

/// Sanitize a window title set via OSC 0/2 escape sequences: strip control
/// characters (C0 except space, DEL, C1) and bidi overrides, then keep at
/// most 256 characters (counted in characters, not bytes).
pub fn sanitize_title(title: &str) -> (r: String)
    ensures
        r@ == title_truncated(title_kept(title@)),
{
    let cs = chars_of(title);
    let mut out: Vec<char> = Vec::new();
    let mut i: usize = 0;
    while i < cs.len()
        invariant
            i <= cs@.len(),
            cs@ == title@,
            out@ == title_truncated(title_kept(cs@.take(i as int))),
        decreases cs@.len() - i,
    {
        let c = cs[i];
        let ghost prev = title_kept(cs@.take(i as int));
        proof {
            assert(cs@.take(i + 1).drop_last() =~= cs@.take(i as int));
            assert(cs@.take(i + 1).last() == c);
        }
        if keeps(c) {
            if out.len() < MAX_TITLE_CHARS {
                out.push(c);
            } else {
                assert(prev.push(c).take(MAX_TITLE_CHARS as int) =~= prev.take(
                    MAX_TITLE_CHARS as int,
                ));
            }
        }
        i = i + 1;
    }
    assert(cs@.take(i as int) =~= cs@);
    string_from_chars(&out)
}

/// A sanitized title never holds more than 256 characters, and holds only
/// characters a title keeps.
pub proof fn law_title_is_clean(s: Seq<char>)
    ensures
        title_truncated(title_kept(s)).len() <= MAX_TITLE_CHARS,
        forall|k: int|
            0 <= k < title_truncated(title_kept(s)).len() ==> title_keeps(
                #[trigger] title_truncated(title_kept(s))[k],
            ),
{
    lemma_title_kept_clean(s);
    let kept = title_kept(s);
    assert forall|k: int| 0 <= k < title_truncated(kept).len() implies title_keeps(
        #[trigger] title_truncated(kept)[k],
    ) by {
        assert(title_truncated(kept)[k] == kept[k]);
    }
}

proof fn lemma_title_kept_clean(s: Seq<char>)
    ensures
        forall|k: int| 0 <= k < title_kept(s).len() ==> title_keeps(#[trigger] title_kept(s)[k]),
    decreases s.len(),
{
    if s.len() > 0 {
        let prev = title_kept(s.drop_last());
        lemma_title_kept_clean(s.drop_last());
        assert forall|k: int| 0 <= k < title_kept(s).len() implies title_keeps(
            #[trigger] title_kept(s)[k],
        ) by {
            if k < prev.len() {
                assert(title_kept(s)[k] == prev[k]);
            }
        }
    }
}


/// A cell as drawn: its character (a space when the cell is hidden), and
/// its foreground and background colours, swapped for inverse video. Each
/// colour is resolved with the palette's override for it, if any.
pub fn cell_appearance(
    c: char,
    fg: TermColor,
    fg_custom: Option<Rgb>,
    bg: TermColor,
    bg_custom: Option<Rgb>,
    inverse: bool,
    hidden: bool,
) -> (r: (char, Rgb, Rgb))
    ensures
        r.0 == (if hidden {
            ' '
        } else {
            c
        }),
        inverse ==> r.1 == resolved(bg, bg_custom) && r.2 == resolved(fg, fg_custom),
        !inverse ==> r.1 == resolved(fg, fg_custom) && r.2 == resolved(bg, bg_custom),
{
    let mut f = resolve_color(fg, fg_custom);
    let mut b = resolve_color(bg, bg_custom);
    if inverse {
        std::mem::swap(&mut f, &mut b);
    }
    let ch = if hidden {
        ' '
    } else {
        c
    };
    (ch, f, b)
}

/// An event of the terminal's I/O loop.
#[derive(Debug, Clone)]
pub enum TermEvent {
    /// The terminal has new content.
    Wakeup,
    /// The shell exited with this code.
    ChildExit(i32),
    /// The shell set the window title (OSC 0/2).
    Title(String),
    Bell,
    /// The shell asked to store text (OSC 52); `to_clipboard` is false for
    /// the selection buffer.
    ClipboardStore { to_clipboard: bool, text: String },
    /// The terminal's I/O loop ended.
    Exit,
    /// Any other event.
    Other,
}

/// What the terminal view does after an event.
#[derive(Debug, Clone, Copy, PartialEq, Eq, Structural)]
pub enum TermAction {
    /// Take a fresh snapshot of the grid and redraw.
    SyncAndRedraw,
    /// Redraw.
    Redraw,
    /// Nothing to do.
    Nothing,
}

/// What a terminal keeps from its events.
#[derive(Debug, Clone)]
pub struct TermState {
    /// Whether the child shell process has exited
    pub child_exited: bool,
    /// Exit code of the child process (if exited)
    pub exit_code: Option<i32>,
    /// Window/tab title set by the shell via OSC 0/2
    pub title: Option<String>,
    /// Pending clipboard text from OSC 52 (ClipboardStore event)
    pub pending_clipboard_store: Option<String>,
}

/// A terminal state as plain values.
pub open spec fn term_state_model(t: TermState) -> (bool, Option<i32>, Option<Seq<char>>, Option<Seq<char>>) {
    (
        t.child_exited,
        t.exit_code,
        match t.title {
            Some(s) => Some(s@),
            None => None,
        },
        match t.pending_clipboard_store {
            Some(s) => Some(s@),
            None => None,
        },
    )
}

/// The state and action after `event`, with the OSC 52 opt-in setting
/// `osc52`: an exit records itself, a title is sanitized, and a clipboard
/// store is kept for the view only when it targets the clipboard and OSC 52
/// accepts it (otherwise it is dropped silently).
pub open spec fn term_event_effect(
    m: (bool, Option<i32>, Option<Seq<char>>, Option<Seq<char>>),
    event: TermEvent,
    osc52: Option<Seq<char>>,
) -> ((bool, Option<i32>, Option<Seq<char>>, Option<Seq<char>>), TermAction) {
    match event {
        TermEvent::Wakeup => (m, TermAction::SyncAndRedraw),
        TermEvent::ChildExit(code) => ((true, Some(code), m.2, m.3), TermAction::Redraw),
        TermEvent::Title(t) => ((m.0, m.1, Some(title_truncated(title_kept(t@))), m.3), TermAction::Redraw),
        TermEvent::ClipboardStore { to_clipboard, text } => if to_clipboard && (match osc52 {
            Some(v) => v == seq!['1'],
            None => false,
        }) && crate::text::utf8_len(text@) <= OSC52_MAX_BYTES {
            ((m.0, m.1, m.2, Some(text@)), TermAction::Redraw)
        } else {
            (m, TermAction::Nothing)
        },
        TermEvent::Exit => ((true, m.1, m.2, m.3), TermAction::Redraw),
        _ => (m, TermAction::Nothing),
    }
}

impl TermState {
    /// A terminal whose shell runs, with no title and nothing pending.
    pub fn new() -> (t: Self)
        ensures
            term_state_model(t) == (false, None::<i32>, None::<Seq<char>>, None::<Seq<char>>),
    {
        TermState { child_exited: false, exit_code: None, title: None, pending_clipboard_store: None }
    }

    /// Process an event of the I/O loop; `osc52` is the OSC 52 opt-in
    /// setting (`ADE_ALLOW_OSC52`). Returns what the view does next.
    pub fn process_event(&mut self, event: TermEvent, osc52: Option<&str>) -> (a: TermAction)
        ensures
            (term_state_model(*final(self)), a) == term_event_effect(
                term_state_model(*old(self)),
                event,
                match osc52 {
                    Some(v) => Some(v@),
                    None => None,
                },
            ),
    {
        match event {
            TermEvent::Wakeup => TermAction::SyncAndRedraw,
            TermEvent::ChildExit(code) => {
                self.child_exited = true;
                self.exit_code = Some(code);
                TermAction::Redraw
            },
            TermEvent::Title(t) => {
                self.title = Some(sanitize_title(t.as_str()));
                TermAction::Redraw
            },
            TermEvent::ClipboardStore { to_clipboard, text } => {
                if !to_clipboard {
                    return TermAction::Nothing;
                }
                proof {
                    crate::text::lemma_utf8_len_encoding(text@);
                }
                if !should_accept_osc52(osc52, text.as_str()) {
                    return TermAction::Nothing;
                }
                self.pending_clipboard_store = Some(text);
                TermAction::Redraw
            },
            TermEvent::Exit => {
                self.child_exited = true;
                TermAction::Redraw
            },
            _ => TermAction::Nothing,
        }
    }

    /// Take pending clipboard text from an OSC 52 store: returns it once and
    /// clears it.
    pub fn take_pending_clipboard(&mut self) -> (r: Option<String>)
        ensures
            r == old(self).pending_clipboard_store,
            final(self).pending_clipboard_store is None,
            final(self).child_exited == old(self).child_exited,
            final(self).exit_code == old(self).exit_code,
            final(self).title == old(self).title,
    {
        self.pending_clipboard_store.take()
    }
}

} // verus!
