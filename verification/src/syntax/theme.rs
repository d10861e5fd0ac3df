//! Highlight capture names and the syntax colours of the dark and light
//! themes.
use vstd::prelude::*;
use crate::theme::ThemeName;

verus! {

/// Capture names recognized by the highlighting engine.
/// Order determines the index that a highlight event carries.
pub const HIGHLIGHT_NAMES: [&'static str; 14] = [
    "keyword",
    "string",
    "comment",
    "function",
    "type",
    "variable",
    "constant",
    "operator",
    "punctuation",
    "number",
    "attribute",
    "property",
    "tag",
    "escape",
];

/// A colour as hue, saturation, lightness and alpha, each in hundredths
/// (0..=100 stands for 0.0..=1.0).
#[derive(Debug, Clone, Copy, PartialEq, Eq, Structural)]
pub struct Hsla {
    pub h: u8,
    pub s: u8,
    pub l: u8,
    pub a: u8,
}

/// Number of capture names (and of colours per theme).
pub const HIGHLIGHT_COUNT: usize = 14;

/// A colour in hundredths.
pub open spec fn hsla(h: u8, s: u8, l: u8, a: u8) -> Hsla {
    Hsla { h, s, l, a }
}

/// Dark-mode syntax colors (GitHub Dark-inspired), per capture name.
pub open spec fn dark_colors() -> Seq<Hsla> {
    seq![
        hsla(83, 78, 65, 100),  // keyword: purple (#d2a8ff)
        hsla(56, 52, 67, 100),  // string: light blue (#a5d6ff)
        hsla(0, 0, 53, 100),  // comment: gray (#8b949e)
        hsla(72, 80, 76, 100),  // function: lavender
        hsla(11, 94, 72, 100),  // type: orange (#ffa657)
        hsla(0, 0, 93, 100),  // variable: near-white (#e6edf3)
        hsla(56, 65, 70, 100),  // constant: blue (#79c0ff)
        hsla(0, 90, 73, 100),  // operator: red (#ff7b72)
        hsla(0, 0, 80, 100),  // punctuation: light gray
        hsla(56, 65, 70, 100),  // number: blue (#79c0ff)
        hsla(56, 65, 70, 100),  // attribute: blue
        hsla(56, 65, 70, 100),  // property: blue (#79c0ff)
        hsla(35, 75, 60, 100),  // tag: green (#7ee787)
        hsla(56, 52, 67, 100),  // escape: light blue
    ]
}

/// Light-mode syntax colors (GitHub Light-inspired), per capture name.
pub open spec fn light_colors() -> Seq<Hsla> {
    seq![
        hsla(75, 60, 40, 100),  // keyword: purple (#8250df)
        hsla(58, 60, 35, 100),  // string: blue (#0a3069)
        hsla(0, 0, 45, 100),  // comment: gray (#6e7781)
        hsla(72, 50, 40, 100),  // function: purple (#8250df)
        hsla(8, 70, 42, 100),  // type: orange (#953800)
        hsla(0, 0, 15, 100),  // variable: near-black (#24292f)
        hsla(58, 70, 35, 100),  // constant: blue (#0550ae)
        hsla(0, 70, 45, 100),  // operator: red (#cf222e)
        hsla(0, 0, 30, 100),  // punctuation: dark gray
        hsla(58, 70, 35, 100),  // number: blue (#0550ae)
        hsla(58, 70, 35, 100),  // attribute: blue
        hsla(58, 70, 35, 100),  // property: blue (#0550ae)
        hsla(35, 60, 35, 100),  // tag: green (#116329)
        hsla(58, 60, 35, 100),  // escape: blue
    ]
}

fn color(h: u8, s: u8, l: u8, a: u8) -> (c: Hsla)
    ensures
        c == hsla(h, s, l, a),
{
    Hsla { h, s, l, a }
}

/// The dark theme's syntax colours, in capture-name order.
pub fn dark_highlight_colors() -> (r: Vec<Hsla>)
    ensures
        r@ == dark_colors(),
{
    let r = vec![
        color(83, 78, 65, 100),
        color(56, 52, 67, 100),
        color(0, 0, 53, 100),
        color(72, 80, 76, 100),
        color(11, 94, 72, 100),
        color(0, 0, 93, 100),
        color(56, 65, 70, 100),
        color(0, 90, 73, 100),
        color(0, 0, 80, 100),
        color(56, 65, 70, 100),
        color(56, 65, 70, 100),
        color(56, 65, 70, 100),
        color(35, 75, 60, 100),
        color(56, 52, 67, 100),
    ];
    assert(r@ =~= dark_colors());
    r
}

/// The light theme's syntax colours, in capture-name order.
pub fn light_highlight_colors() -> (r: Vec<Hsla>)
    ensures
        r@ == light_colors(),
{
    let r = vec![
        color(75, 60, 40, 100),
        color(58, 60, 35, 100),
        color(0, 0, 45, 100),
        color(72, 50, 40, 100),
        color(8, 70, 42, 100),
        color(0, 0, 15, 100),
        color(58, 70, 35, 100),
        color(0, 70, 45, 100),
        color(0, 0, 30, 100),
        color(58, 70, 35, 100),
        color(58, 70, 35, 100),
        color(58, 70, 35, 100),
        color(35, 60, 35, 100),
        color(58, 60, 35, 100),
    ];
    assert(r@ =~= light_colors());
    r
}

/// The foreground colour for capture `index` under `theme`; `None` for an
/// index past the capture names.
pub fn style_for_highlight(index: usize, theme: ThemeName) -> (r: Option<Hsla>)
    ensures
        r == (if index < HIGHLIGHT_COUNT {
            Some(
                match theme {
                    ThemeName::Light => light_colors()[index as int],
                    ThemeName::Dark => dark_colors()[index as int],
                },
            )
        } else {
            None
        }),
{
    if index >= HIGHLIGHT_COUNT {
        return None;
    }
    let colors = match theme {
        ThemeName::Light => light_highlight_colors(),
        ThemeName::Dark => dark_highlight_colors(),
    };
    Some(colors[index])
}

/// Every capture name has a colour in both themes.
pub proof fn law_every_capture_has_a_color()
    ensures
        dark_colors().len() == HIGHLIGHT_COUNT,
        light_colors().len() == HIGHLIGHT_COUNT,
{
}

} // verus!
