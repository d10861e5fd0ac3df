//! Key encoding: named keys and Ctrl chords to the byte sequences an
//! xterm-256color terminal expects, with modifier variants and application
//! cursor mode.
use vstd::prelude::*;
use crate::text::{chars_of, chars_equal};

verus! {

/// Modifier key state for key encoding.
#[derive(Debug, Clone, Copy)]
pub struct Modifiers {
    pub shift: bool,
    pub alt: bool,
    pub control: bool,
}

impl Default for Modifiers {
    fn default() -> (m: Self)
        ensures
            !m.shift && !m.alt && !m.control,
    {
        Modifiers { shift: false, alt: false, control: false }
    }
}

/// A keystroke as the windowing layer reports it: the key name and, when the
/// key produces text, that text.
#[derive(Debug, Clone)]
pub struct Keystroke {
    pub modifiers: Modifiers,
    pub key: String,
    pub key_char: Option<String>,
}

/// The keys that have a named escape sequence.
#[derive(Debug, Clone, Copy, PartialEq, Eq)]
pub enum NamedKey {
    Up,
    Down,
    Left,
    Right,
    Home,
    End,
    Tab,
    Escape,
    Enter,
    Backspace,
    Delete,
    Insert,
    PageUp,
    PageDown,
    F1,
    F2,
    F3,
    F4,
    F5,
    F6,
    F7,
    F8,
    F9,
    F10,
    F11,
    F12,
}

/// The escape byte that starts every sequence.
pub open spec fn ESC() -> u8 { 0x1b }

/// The xterm modifier parameter: 1 + shift(1) + alt(2) + ctrl(4).
pub open spec fn mod_param_of(m: Modifiers) -> nat {
    1 + (if m.shift { 1nat } else { 0nat }) + (if m.alt { 2nat } else { 0nat }) + (if m.control {
        4nat
    } else {
        0nat
    })
}

/// Decimal ASCII digits of `n`, most significant first.
pub open spec fn decimal(n: nat) -> Seq<u8>
    decreases n,
{
    if n < 10 {
        seq![(48 + n) as u8]
    } else {
        decimal(n / 10) + seq![(48 + n % 10) as u8]
    }
}

/// Which named key, if any, the key name designates.
pub open spec fn named_key(name: Seq<char>) -> Option<NamedKey> {
    if name == seq!['u', 'p'] {
        Some(NamedKey::Up)
    } else if name == seq!['d', 'o', 'w', 'n'] {
        Some(NamedKey::Down)
    } else if name == seq!['l', 'e', 'f', 't'] {
        Some(NamedKey::Left)
    } else if name == seq!['r', 'i', 'g', 'h', 't'] {
        Some(NamedKey::Right)
    } else if name == seq!['h', 'o', 'm', 'e'] {
        Some(NamedKey::Home)
    } else if name == seq!['e', 'n', 'd'] {
        Some(NamedKey::End)
    } else if name == seq!['t', 'a', 'b'] {
        Some(NamedKey::Tab)
    } else if name == seq!['e', 's', 'c', 'a', 'p', 'e'] {
        Some(NamedKey::Escape)
    } else if name == seq!['e', 'n', 't', 'e', 'r'] || name == seq!['r', 'e', 't', 'u', 'r', 'n'] {
        Some(NamedKey::Enter)
    } else if name == seq!['b', 'a', 'c', 'k', 's', 'p', 'a', 'c', 'e'] {
        Some(NamedKey::Backspace)
    } else if name == seq!['d', 'e', 'l', 'e', 't', 'e'] {
        Some(NamedKey::Delete)
    } else if name == seq!['i', 'n', 's', 'e', 'r', 't'] {
        Some(NamedKey::Insert)
    } else if name == seq!['p', 'a', 'g', 'e', 'u', 'p'] {
        Some(NamedKey::PageUp)
    } else if name == seq!['p', 'a', 'g', 'e', 'd', 'o', 'w', 'n'] {
        Some(NamedKey::PageDown)
    } else if name == seq!['f', '1'] {
        Some(NamedKey::F1)
    } else if name == seq!['f', '2'] {
        Some(NamedKey::F2)
    } else if name == seq!['f', '3'] {
        Some(NamedKey::F3)
    } else if name == seq!['f', '4'] {
        Some(NamedKey::F4)
    } else if name == seq!['f', '5'] {
        Some(NamedKey::F5)
    } else if name == seq!['f', '6'] {
        Some(NamedKey::F6)
    } else if name == seq!['f', '7'] {
        Some(NamedKey::F7)
    } else if name == seq!['f', '8'] {
        Some(NamedKey::F8)
    } else if name == seq!['f', '9'] {
        Some(NamedKey::F9)
    } else if name == seq!['f', '1', '0'] {
        Some(NamedKey::F10)
    } else if name == seq!['f', '1', '1'] {
        Some(NamedKey::F11)
    } else if name == seq!['f', '1', '2'] {
        Some(NamedKey::F12)
    } else {
        None
    }
}

/// `ESC [ 1 ; <mod> <final>`
pub open spec fn csi_one_mod(mod_param: nat, fin: u8) -> Seq<u8> {
    seq![ESC(), 0x5b, 0x31, 0x3b] + decimal(mod_param) + seq![fin]
}

/// `ESC [ <number> ; <mod> ~` with modifiers, `ESC [ <number> ~` without.
pub open spec fn tilde_sequence(number: nat, mod_param: nat, has_mods: bool) -> Seq<u8> {
    if has_mods {
        seq![ESC(), 0x5b] + decimal(number) + seq![0x3b] + decimal(mod_param) + seq![0x7e]
    } else {
        seq![ESC(), 0x5b] + decimal(number) + seq![0x7e]
    }
}

/// Cursor-style keys (arrows, Home, End): modifiers win over application
/// cursor mode, which wins over the normal form.
pub open spec fn cursor_sequence(fin: u8, mod_param: nat, app_cursor: bool) -> Seq<u8> {
    if mod_param > 1 {
        csi_one_mod(mod_param, fin)
    } else if app_cursor {
        seq![ESC(), 0x4f, fin]
    } else {
        seq![ESC(), 0x5b, fin]
    }
}

/// SS3-style function keys F1-F4.
pub open spec fn ss3_function_sequence(fin: u8, mod_param: nat) -> Seq<u8> {
    if mod_param > 1 {
        csi_one_mod(mod_param, fin)
    } else {
        seq![ESC(), 0x4f, fin]
    }
}

/// The byte sequence a named key produces.
pub open spec fn key_sequence(key: NamedKey, m: Modifiers, app_cursor: bool) -> Seq<u8> {
    let mp = mod_param_of(m);
    let has_mods = mp > 1;
    match key {
        NamedKey::Up => cursor_sequence(0x41, mp, app_cursor),
        NamedKey::Down => cursor_sequence(0x42, mp, app_cursor),
        NamedKey::Right => cursor_sequence(0x43, mp, app_cursor),
        NamedKey::Left => cursor_sequence(0x44, mp, app_cursor),
        NamedKey::Home => cursor_sequence(0x48, mp, app_cursor),
        NamedKey::End => cursor_sequence(0x46, mp, app_cursor),
        NamedKey::Tab => if m.shift {
            seq![ESC(), 0x5b, 0x5a]
        } else {
            seq![0x09u8]
        },
        NamedKey::Escape => seq![ESC()],
        NamedKey::Enter => seq![0x0du8],
        NamedKey::Backspace => if m.alt {
            seq![ESC(), 0x7f]
        } else {
            seq![0x7fu8]
        },
        NamedKey::Delete => tilde_sequence(3, mp, has_mods),
        NamedKey::Insert => tilde_sequence(2, mp, has_mods),
        NamedKey::PageUp => tilde_sequence(5, mp, has_mods),
        NamedKey::PageDown => tilde_sequence(6, mp, has_mods),
        NamedKey::F1 => ss3_function_sequence(0x50, mp),
        NamedKey::F2 => ss3_function_sequence(0x51, mp),
        NamedKey::F3 => ss3_function_sequence(0x52, mp),
        NamedKey::F4 => ss3_function_sequence(0x53, mp),
        NamedKey::F5 => tilde_sequence(15, mp, has_mods),
        NamedKey::F6 => tilde_sequence(17, mp, has_mods),
        NamedKey::F7 => tilde_sequence(18, mp, has_mods),
        NamedKey::F8 => tilde_sequence(19, mp, has_mods),
        NamedKey::F9 => tilde_sequence(20, mp, has_mods),
        NamedKey::F10 => tilde_sequence(21, mp, has_mods),
        NamedKey::F11 => tilde_sequence(23, mp, has_mods),
        NamedKey::F12 => tilde_sequence(24, mp, has_mods),
    }
}

/// The final byte of a cursor-style key: `A`, `B`, `C`, `D` for the arrows
/// up, down, right, left; `H` for Home and `F` for End.
pub open spec fn cursor_final(key: NamedKey) -> Option<u8> {
    match key {
        NamedKey::Up => Some(0x41u8),
        NamedKey::Down => Some(0x42u8),
        NamedKey::Right => Some(0x43u8),
        NamedKey::Left => Some(0x44u8),
        NamedKey::Home => Some(0x48u8),
        NamedKey::End => Some(0x46u8),
        _ => None,
    }
}

/// The arrows, Home and End: without modifiers, `ESC O <X>` in application
/// cursor mode and `ESC [ <X>` otherwise; with a modifier held,
/// `ESC [ 1 ; <m> <X>` (`m` = 1 + shift + 2·alt + 4·control) in either mode.
pub proof fn law_cursor_keys(key: NamedKey, m: Modifiers, app_cursor: bool)
    ensures
        cursor_final(key) matches Some(f) ==> key_sequence(key, m, app_cursor) == (if mod_param_of(m) > 1 {
            seq![ESC(), 0x5bu8, 0x31u8, 0x3bu8, (48 + mod_param_of(m)) as u8, f]
        } else if app_cursor {
            seq![ESC(), 0x4fu8, f]
        } else {
            seq![ESC(), 0x5bu8, f]
        }),
{
    let mp = mod_param_of(m);
    assert(mp <= 8);
    assert(decimal(mp) == seq![(48 + mp) as u8]);
    match cursor_final(key) {
        Some(f) => {
            assert(key_sequence(key, m, app_cursor) == cursor_sequence(f, mp, app_cursor));
            if mp > 1 {
                assert(csi_one_mod(mp, f) =~= seq![ESC(), 0x5bu8, 0x31u8, 0x3bu8, (48 + mp) as u8, f]);
            }
        },
        None => {},
    }
}

/// The ASCII digits of the number of a key sent in the `CSI <n> ~` form.
pub open spec fn tilde_digits(key: NamedKey) -> Option<Seq<u8>> {
    match key {
        NamedKey::Delete => Some(seq![0x33u8]),
        NamedKey::Insert => Some(seq![0x32u8]),
        NamedKey::PageUp => Some(seq![0x35u8]),
        NamedKey::PageDown => Some(seq![0x36u8]),
        NamedKey::F5 => Some(seq![0x31u8, 0x35u8]),
        NamedKey::F6 => Some(seq![0x31u8, 0x37u8]),
        NamedKey::F7 => Some(seq![0x31u8, 0x38u8]),
        NamedKey::F8 => Some(seq![0x31u8, 0x39u8]),
        NamedKey::F9 => Some(seq![0x32u8, 0x30u8]),
        NamedKey::F10 => Some(seq![0x32u8, 0x31u8]),
        NamedKey::F11 => Some(seq![0x32u8, 0x33u8]),
        NamedKey::F12 => Some(seq![0x32u8, 0x34u8]),
        _ => None,
    }
}

/// The final byte of a key sent in the SS3 form (F1 to F4: `P`, `Q`, `R`,
/// `S`).
pub open spec fn ss3_final(key: NamedKey) -> Option<u8> {
    match key {
        NamedKey::F1 => Some(0x50u8),
        NamedKey::F2 => Some(0x51u8),
        NamedKey::F3 => Some(0x52u8),
        NamedKey::F4 => Some(0x53u8),
        _ => None,
    }
}

/// The editing keys and F5 to F12 are sent as `ESC [ <n> ~`, or as
/// `ESC [ <n> ; <m> ~` when a modifier is held (`m` = 1 + shift + 2·alt +
/// 4·control, one digit); F1 to F4 as `ESC O <S>`, or `ESC [ 1 ; <m> <S>`
/// with a modifier. Application cursor mode changes none of them.
pub proof fn law_tilde_and_ss3_keys(key: NamedKey, m: Modifiers, app_cursor: bool)
    ensures
        tilde_digits(key) matches Some(ds) ==> key_sequence(key, m, app_cursor) == (if mod_param_of(m) > 1 {
            seq![ESC(), 0x5b] + ds + seq![0x3bu8, (48 + mod_param_of(m)) as u8, 0x7eu8]
        } else {
            seq![ESC(), 0x5b] + ds + seq![0x7eu8]
        }),
        ss3_final(key) matches Some(f) ==> key_sequence(key, m, app_cursor) == (if mod_param_of(m) > 1 {
            seq![ESC(), 0x5b, 0x31u8, 0x3bu8, (48 + mod_param_of(m)) as u8, f]
        } else {
            seq![ESC(), 0x4fu8, f]
        }),
{
    let mp = mod_param_of(m);
    assert(mp <= 8);
    assert(decimal(mp) == seq![(48 + mp) as u8]);
    reveal_with_fuel(decimal, 3);
    assert(decimal(1) == seq![0x31u8]);
    assert(decimal(2) == seq![0x32u8]);
    assert(decimal(15) == seq![0x31u8, 0x35u8]);
    assert(decimal(17) == seq![0x31u8, 0x37u8]);
    assert(decimal(18) == seq![0x31u8, 0x38u8]);
    assert(decimal(19) == seq![0x31u8, 0x39u8]);
    assert(decimal(20) == seq![0x32u8, 0x30u8]);
    assert(decimal(21) == seq![0x32u8, 0x31u8]);
    assert(decimal(23) == seq![0x32u8, 0x33u8]);
    assert(decimal(24) == seq![0x32u8, 0x34u8]);
    match tilde_digits(key) {
        Some(ds) => {
            let n: nat = match key {
                NamedKey::Delete => 3,
                NamedKey::Insert => 2,
                NamedKey::PageUp => 5,
                NamedKey::PageDown => 6,
                NamedKey::F5 => 15,
                NamedKey::F6 => 17,
                NamedKey::F7 => 18,
                NamedKey::F8 => 19,
                NamedKey::F9 => 20,
                NamedKey::F10 => 21,
                NamedKey::F11 => 23,
                _ => 24,
            };
            assert(decimal(n) == ds);
            assert(key_sequence(key, m, app_cursor) == tilde_sequence(n, mp, mp > 1));
            if mp > 1 {
                assert(tilde_sequence(n, mp, true) =~= seq![ESC(), 0x5b] + ds + seq![0x3bu8, (48 + mp) as u8, 0x7eu8]);
            } else {
                assert(tilde_sequence(n, mp, false) =~= seq![ESC(), 0x5b] + ds + seq![0x7eu8]);
            }
        },
        None => {},
    }
    match ss3_final(key) {
        Some(f) => {
            assert(key_sequence(key, m, app_cursor) == ss3_function_sequence(f, mp));
            if mp > 1 {
                assert(csi_one_mod(mp, f) =~= seq![ESC(), 0x5b, 0x31u8, 0x3bu8, (48 + mp) as u8, f]);
            }
        },
        None => {},
    }
}

/// Append the decimal digits of `n` to `out`.
fn push_decimal(out: &mut Vec<u8>, n: u8)
    ensures
        final(out)@ == old(out)@ + decimal(n as nat),
{
    if n >= 100 {
        let h = n / 100;
        let t = (n / 10) % 10;
        let u = n % 10;
        out.push(48 + h);
        out.push(48 + t);
        out.push(48 + u);
        proof {
            assert(decimal((n / 10) as nat / 10) == seq![(48 + h) as u8]);
            assert(decimal((n / 10) as nat) == seq![(48 + h) as u8] + seq![(48 + t) as u8]);
        }
        assert(out@ =~= old(out)@ + decimal(n as nat));
    } else if n >= 10 {
        let t = n / 10;
        let u = n % 10;
        out.push(48 + t);
        out.push(48 + u);
        assert(decimal((n / 10) as nat) == seq![(48 + t) as u8]);
        assert(out@ =~= old(out)@ + decimal(n as nat));
    } else {
        out.push(48 + n);
        assert(out@ =~= old(out)@ + decimal(n as nat));
    }
}

/// Resolve a key name to the named key it designates.
pub fn named_key_of(name: &str) -> (k: Option<NamedKey>)
    ensures
        k == named_key(name@),
{
    let c = chars_of(name);
    if chars_equal(&c, &['u', 'p']) {
        Some(NamedKey::Up)
    } else if chars_equal(&c, &['d', 'o', 'w', 'n']) {
        Some(NamedKey::Down)
    } else if chars_equal(&c, &['l', 'e', 'f', 't']) {
        Some(NamedKey::Left)
    } else if chars_equal(&c, &['r', 'i', 'g', 'h', 't']) {
        Some(NamedKey::Right)
    } else if chars_equal(&c, &['h', 'o', 'm', 'e']) {
        Some(NamedKey::Home)
    } else if chars_equal(&c, &['e', 'n', 'd']) {
        Some(NamedKey::End)
    } else if chars_equal(&c, &['t', 'a', 'b']) {
        Some(NamedKey::Tab)
    } else if chars_equal(&c, &['e', 's', 'c', 'a', 'p', 'e']) {
        Some(NamedKey::Escape)
    } else if chars_equal(&c, &['e', 'n', 't', 'e', 'r']) || chars_equal(
        &c,
        &['r', 'e', 't', 'u', 'r', 'n'],
    ) {
        Some(NamedKey::Enter)
    } else if chars_equal(&c, &['b', 'a', 'c', 'k', 's', 'p', 'a', 'c', 'e']) {
        Some(NamedKey::Backspace)
    } else if chars_equal(&c, &['d', 'e', 'l', 'e', 't', 'e']) {
        Some(NamedKey::Delete)
    } else if chars_equal(&c, &['i', 'n', 's', 'e', 'r', 't']) {
        Some(NamedKey::Insert)
    } else if chars_equal(&c, &['p', 'a', 'g', 'e', 'u', 'p']) {
        Some(NamedKey::PageUp)
    } else if chars_equal(&c, &['p', 'a', 'g', 'e', 'd', 'o', 'w', 'n']) {
        Some(NamedKey::PageDown)
    } else if chars_equal(&c, &['f', '1']) {
        Some(NamedKey::F1)
    } else if chars_equal(&c, &['f', '2']) {
        Some(NamedKey::F2)
    } else if chars_equal(&c, &['f', '3']) {
        Some(NamedKey::F3)
    } else if chars_equal(&c, &['f', '4']) {
        Some(NamedKey::F4)
    } else if chars_equal(&c, &['f', '5']) {
        Some(NamedKey::F5)
    } else if chars_equal(&c, &['f', '6']) {
        Some(NamedKey::F6)
    } else if chars_equal(&c, &['f', '7']) {
        Some(NamedKey::F7)
    } else if chars_equal(&c, &['f', '8']) {
        Some(NamedKey::F8)
    } else if chars_equal(&c, &['f', '9']) {
        Some(NamedKey::F9)
    } else if chars_equal(&c, &['f', '1', '0']) {
        Some(NamedKey::F10)
    } else if chars_equal(&c, &['f', '1', '1']) {
        Some(NamedKey::F11)
    } else if chars_equal(&c, &['f', '1', '2']) {
        Some(NamedKey::F12)
    } else {
        None
    }
}

/// `ESC [ 1 ; <mod> <final>` as bytes.
fn csi_one_mod_bytes(mod_param: u8, fin: u8) -> (v: Vec<u8>)
    ensures
        v@ == csi_one_mod(mod_param as nat, fin),
{
    let mut v: Vec<u8> = Vec::new();
    v.push(0x1b);
    v.push(0x5b);
    v.push(0x31);
    v.push(0x3b);
    push_decimal(&mut v, mod_param);
    v.push(fin);
    assert(v@ =~= csi_one_mod(mod_param as nat, fin));
    v
}

/// Arrow keys, Home and End.
fn cursor_key(fin: u8, mod_param: u8, app_cursor: bool) -> (v: Vec<u8>)
    ensures
        v@ == cursor_sequence(fin, mod_param as nat, app_cursor),
{
    if mod_param > 1 {
        csi_one_mod_bytes(mod_param, fin)
    } else if app_cursor {
        let v: Vec<u8> = vec![0x1b, 0x4f, fin];
        assert(v@ =~= seq![ESC(), 0x4f, fin]);
        v
    } else {
        let v: Vec<u8> = vec![0x1b, 0x5b, fin];
        assert(v@ =~= seq![ESC(), 0x5b, fin]);
        v
    }
}

/// F1 through F4.
fn ss3_function_key(fin: u8, mod_param: u8) -> (v: Vec<u8>)
    ensures
        v@ == ss3_function_sequence(fin, mod_param as nat),
{
    if mod_param > 1 {
        csi_one_mod_bytes(mod_param, fin)
    } else {
        let v: Vec<u8> = vec![0x1b, 0x4f, fin];
        assert(v@ =~= seq![ESC(), 0x4f, fin]);
        v
    }
}

/// Helper for CSI number ~ style keys (Delete, Insert, PageUp/Down, F5-F12).
pub fn tilde_key(number: u8, mod_param: u8, has_mods: bool) -> (r: Option<Vec<u8>>)
    ensures
        r is Some,
        r->0@ == tilde_sequence(number as nat, mod_param as nat, has_mods),
{
    let mut v: Vec<u8> = Vec::new();
    v.push(0x1b);
    v.push(0x5b);
    push_decimal(&mut v, number);
    if has_mods {
        v.push(0x3b);
        push_decimal(&mut v, mod_param);
    }
    v.push(0x7e);
    assert(v@ =~= tilde_sequence(number as nat, mod_param as nat, has_mods));
    Some(v)
}

/// Encode a named key to its terminal escape sequence.
///
/// Arrow keys and Home/End honour application cursor mode when no modifier
/// is held; any modifier switches to the `CSI 1 ; mod` form. Returns `None`
/// for key names it does not know.
pub fn encode_key(name: &str, modifiers: Modifiers, app_cursor: bool) -> (r: Option<Vec<u8>>)
    ensures
        match named_key(name@) {
            None => r is None,
            Some(k) => r is Some && r->0@ == key_sequence(k, modifiers, app_cursor),
        },
{
    let mod_param: u8 = 1 + (if modifiers.shift {
        1u8
    } else {
        0u8
    }) + (if modifiers.alt {
        2u8
    } else {
        0u8
    }) + (if modifiers.control {
        4u8
    } else {
        0u8
    });
    let has_mods = mod_param > 1;
    assert(mod_param as nat == mod_param_of(modifiers));
    match named_key_of(name) {
        None => None,
        Some(key) => match key {
            NamedKey::Up => Some(cursor_key(0x41, mod_param, app_cursor)),
            NamedKey::Down => Some(cursor_key(0x42, mod_param, app_cursor)),
            NamedKey::Right => Some(cursor_key(0x43, mod_param, app_cursor)),
            NamedKey::Left => Some(cursor_key(0x44, mod_param, app_cursor)),
            NamedKey::Home => Some(cursor_key(0x48, mod_param, app_cursor)),
            NamedKey::End => Some(cursor_key(0x46, mod_param, app_cursor)),
            NamedKey::Tab => {
                if modifiers.shift {
                    let v: Vec<u8> = vec![0x1b, 0x5b, 0x5a];
                    assert(v@ =~= seq![ESC(), 0x5b, 0x5a]);
                    Some(v)
                } else {
                    let v: Vec<u8> = vec![0x09];
                    assert(v@ =~= seq![0x09u8]);
                    Some(v)
                }
            },
            NamedKey::Escape => {
                let v: Vec<u8> = vec![0x1b];
                assert(v@ =~= seq![ESC()]);
                Some(v)
            },
            NamedKey::Enter => {
                let v: Vec<u8> = vec![0x0d];
                assert(v@ =~= seq![0x0du8]);
                Some(v)
            },
            NamedKey::Backspace => {
                if modifiers.alt {
                    let v: Vec<u8> = vec![0x1b, 0x7f];
                    assert(v@ =~= seq![ESC(), 0x7f]);
                    Some(v)
                } else {
                    let v: Vec<u8> = vec![0x7f];
                    assert(v@ =~= seq![0x7fu8]);
                    Some(v)
                }
            },
            NamedKey::Delete => tilde_key(3, mod_param, has_mods),
            NamedKey::Insert => tilde_key(2, mod_param, has_mods),
            NamedKey::PageUp => tilde_key(5, mod_param, has_mods),
            NamedKey::PageDown => tilde_key(6, mod_param, has_mods),
            NamedKey::F1 => Some(ss3_function_key(0x50, mod_param)),
            NamedKey::F2 => Some(ss3_function_key(0x51, mod_param)),
            NamedKey::F3 => Some(ss3_function_key(0x52, mod_param)),
            NamedKey::F4 => Some(ss3_function_key(0x53, mod_param)),
            NamedKey::F5 => tilde_key(15, mod_param, has_mods),
            NamedKey::F6 => tilde_key(17, mod_param, has_mods),
            NamedKey::F7 => tilde_key(18, mod_param, has_mods),
            NamedKey::F8 => tilde_key(19, mod_param, has_mods),
            NamedKey::F9 => tilde_key(20, mod_param, has_mods),
            NamedKey::F10 => tilde_key(21, mod_param, has_mods),
            NamedKey::F11 => tilde_key(23, mod_param, has_mods),
            NamedKey::F12 => tilde_key(24, mod_param, has_mods),
        },
    }
}

/// The text a Ctrl chord is read from: the produced text, else the key name
/// when it is not empty.
pub open spec fn ctrl_candidate(ks: Keystroke) -> Option<Seq<char>> {
    match ks.key_char {
        Some(c) => Some(c@),
        None => if ks.key@.len() > 0 {
            Some(ks.key@)
        } else {
            None
        },
    }
}

/// The control byte for a candidate text: "space" is NUL; a single byte in
/// '@'..='_' keeps its low five bits; a single ASCII letter maps to its
/// position in the alphabet; anything else has none.
pub open spec fn ctrl_byte_of_text(t: Seq<char>) -> Option<u8> {
    if t == seq!['s', 'p', 'a', 'c', 'e'] {
        Some(0u8)
    } else {
        let b = vstd::utf8::encode_utf8(t);
        if b.len() != 1 {
            None
        } else if 0x40 <= b[0] <= 0x5f {
            Some(b[0] & 0x1f)
        } else if 0x61 <= b[0] <= 0x7a {
            Some((b[0] - 0x61 + 1) as u8)
        } else if 0x41 <= b[0] <= 0x5a {
            Some((b[0] - 0x41 + 1) as u8)
        } else {
            None
        }
    }
}

/// Map a keystroke with Ctrl held to the corresponding control byte
/// (Ctrl+C = 0x03, Ctrl+Space = 0x00, Ctrl+[ = 0x1b).
pub fn ctrl_byte_for_keystroke(keystroke: &Keystroke) -> (r: Option<u8>)
    ensures
        r == (match ctrl_candidate(*keystroke) {
            None => None,
            Some(t) => ctrl_byte_of_text(t),
        }),
{
    let candidate: &str = match &keystroke.key_char {
        Some(c) => c.as_str(),
        None => {
            let k = keystroke.key.as_str();
            if k.is_empty() {
                return None;
            }
            k
        },
    };
    let cs = chars_of(candidate);
    if chars_equal(&cs, &['s', 'p', 'a', 'c', 'e']) {
        return Some(0x00);
    }
    let bytes = candidate.as_bytes();
    if bytes.len() != 1 {
        return None;
    }
    let b = bytes[0];
    if 0x40 <= b && b <= 0x5f {
        Some(b & 0x1f)
    } else if 0x61 <= b && b <= 0x7a {
        Some(b - 0x61 + 1)
    } else if 0x41 <= b && b <= 0x5a {
        Some(b - 0x41 + 1)
    } else {
        None
    }
}

} // verus!
