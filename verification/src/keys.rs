//! Key presses and their encoding into the byte sequences a terminal
//! application expects on its PTY input (xterm flavour).

use vstd::prelude::*;
use vstd::utf8::*;

use crate::text::{ascii_alnum};

verus! {

/// Which key was pressed.
#[derive(Debug, Clone, Copy, PartialEq, Eq, Structural)]
pub enum KeyCode {
    Char(char),
    Up,
    Down,
    Left,
    Right,
    Home,
    End,
    PageUp,
    PageDown,
    Insert,
    Delete,
    F(u8),
    Enter,
    Backspace,
    BackTab,
    Tab,
    Esc,
    /// Any other key (media keys, bare modifiers, ...).
    Other,
}

/// Press, auto-repeat, or release (the latter only under the kitty
/// keyboard protocol).
#[derive(Debug, Clone, Copy, PartialEq, Eq, Structural)]
pub enum KeyEventKind {
    Press,
    Repeat,
    Release,
}

/// A key event: the key, the modifiers held, and the event kind.
#[derive(Debug, Clone, Copy, PartialEq, Eq, Structural)]
pub struct KeyInput {
    pub code: KeyCode,
    pub shift: bool,
    pub ctrl: bool,
    pub alt: bool,
    pub kind: KeyEventKind,
}

impl KeyInput {
    /// A press of `code` with the given modifiers.
    pub fn press(code: KeyCode, shift: bool, ctrl: bool, alt: bool) -> (r: KeyInput)
        ensures
            r == (KeyInput { code, shift, ctrl, alt, kind: KeyEventKind::Press }),
    {
        KeyInput { code, shift, ctrl, alt, kind: KeyEventKind::Press }
    }
}

/// Decimal digits of `n` as ASCII bytes.
pub open spec fn dec_bytes(n: nat) -> Seq<u8>
    decreases n,
{
    if n < 10 {
        seq![(n + 48) as u8]
    } else {
        dec_bytes(n / 10).push(((n % 10) + 48) as u8)
    }
}

fn push_dec(v: &mut Vec<u8>, n: u8)
    ensures
        final(v)@ == old(v)@ + dec_bytes(n as nat),
    decreases n,
{
    if n >= 10 {
        push_dec(v, n / 10);
    }
    v.push(n % 10 + 48);
    proof {
        if n >= 10 {
            assert(old(v)@ + dec_bytes((n / 10) as nat) + seq![(n % 10 + 48) as u8] =~= old(v)@ + dec_bytes(
                n as nat,
            ));
        } else {
            assert(old(v)@.push((n % 10 + 48) as u8) =~= old(v)@ + dec_bytes(n as nat));
        }
    }
}

/// xterm modifier code: 1 + shift + 2*alt + 4*ctrl.
pub open spec fn spec_modifier_code(shift: bool, alt: bool, ctrl: bool) -> u8 {
    (1 + (if shift { 1int } else { 0 }) + (if alt { 2int } else { 0 }) + (if ctrl { 4int } else { 0 })) as u8
}

pub fn modifier_code(shift: bool, alt: bool, ctrl: bool) -> (r: u8)
    ensures
        r == spec_modifier_code(shift, alt, ctrl),
        1 <= r <= 8,
{
    1u8 + (if shift { 1u8 } else { 0 }) + (if alt { 2u8 } else { 0 }) + (if ctrl { 4u8 } else { 0 })
}

/// Cursor / Home / End: modified keys use `ESC [ 1 ; m X`; bare keys use
/// SS3 (`ESC O X`) in application-cursor mode and CSI (`ESC [ X`)
/// otherwise.
pub open spec fn spec_cursor_letter(letter: u8, shift: bool, alt: bool, ctrl: bool, app_cursor: bool) -> Seq<u8> {
    let m = spec_modifier_code(shift, alt, ctrl);
    if m > 1 {
        seq![0x1bu8, 0x5bu8, 0x31u8, 0x3bu8] + dec_bytes(m as nat) + seq![letter]
    } else if app_cursor {
        seq![0x1bu8, 0x4fu8, letter]
    } else {
        seq![0x1bu8, 0x5bu8, letter]
    }
}

pub fn cursor_letter(letter: u8, shift: bool, alt: bool, ctrl: bool, app_cursor: bool) -> (r: Vec<u8>)
    ensures
        r@ == spec_cursor_letter(letter, shift, alt, ctrl, app_cursor),
{
    let m = modifier_code(shift, alt, ctrl);
    let mut v: Vec<u8> = Vec::new();
    if m > 1 {
        v.push(0x1b);
        v.push(91u8);
        v.push(49u8);
        v.push(59u8);
        push_dec(&mut v, m);
        v.push(letter);
        assert(v@ =~= spec_cursor_letter(letter, shift, alt, ctrl, app_cursor));
    } else if app_cursor {
        v.push(0x1b);
        v.push(79u8);
        v.push(letter);
        assert(v@ =~= spec_cursor_letter(letter, shift, alt, ctrl, app_cursor));
    } else {
        v.push(0x1b);
        v.push(91u8);
        v.push(letter);
        assert(v@ =~= spec_cursor_letter(letter, shift, alt, ctrl, app_cursor));
    }
    v
}

/// PageUp/Down, Insert, Delete, F5+: `ESC [ N ~` bare, `ESC [ N ; m ~`
/// modified.
pub open spec fn spec_csi_tilde(n: u8, shift: bool, alt: bool, ctrl: bool) -> Seq<u8> {
    let m = spec_modifier_code(shift, alt, ctrl);
    if m > 1 {
        seq![0x1bu8, 0x5bu8] + dec_bytes(n as nat) + seq![0x3bu8] + dec_bytes(m as nat) + seq![0x7eu8]
    } else {
        seq![0x1bu8, 0x5bu8] + dec_bytes(n as nat) + seq![0x7eu8]
    }
}

pub fn csi_tilde(n: u8, shift: bool, alt: bool, ctrl: bool) -> (r: Vec<u8>)
    ensures
        r@ == spec_csi_tilde(n, shift, alt, ctrl),
{
    let m = modifier_code(shift, alt, ctrl);
    let mut v: Vec<u8> = Vec::new();
    v.push(0x1b);
    v.push(91u8);
    push_dec(&mut v, n);
    if m > 1 {
        v.push(59u8);
        push_dec(&mut v, m);
    }
    v.push(126u8);
    assert(v@ =~= spec_csi_tilde(n, shift, alt, ctrl));
    v
}

/// F1-F4: SS3 form (`ESC O P`) bare, `ESC [ 1 ; m P` modified.
pub open spec fn spec_csi_fkey(letter: u8, shift: bool, alt: bool, ctrl: bool) -> Seq<u8> {
    let m = spec_modifier_code(shift, alt, ctrl);
    if m > 1 {
        seq![0x1bu8, 0x5bu8, 0x31u8, 0x3bu8] + dec_bytes(m as nat) + seq![letter]
    } else {
        seq![0x1bu8, 0x4fu8, letter]
    }
}

pub fn csi_fkey(letter: u8, shift: bool, alt: bool, ctrl: bool) -> (r: Vec<u8>)
    ensures
        r@ == spec_csi_fkey(letter, shift, alt, ctrl),
{
    let m = modifier_code(shift, alt, ctrl);
    let mut v: Vec<u8> = Vec::new();
    v.push(0x1b);
    if m > 1 {
        v.push(91u8);
        v.push(49u8);
        v.push(59u8);
        push_dec(&mut v, m);
    } else {
        v.push(79u8);
    }
    v.push(letter);
    assert(v@ =~= spec_csi_fkey(letter, shift, alt, ctrl));
    v
}

/// `bytes`, prefixed with ESC when Alt is held.
pub open spec fn spec_esc_prefix(bytes: Seq<u8>, alt: bool) -> Seq<u8> {
    if alt { seq![0x1bu8] + bytes } else { bytes }
}

pub fn esc_prefix(bytes: &[u8], alt: bool) -> (r: Vec<u8>)
    ensures
        r@ == spec_esc_prefix(bytes@, alt),
{
    let mut v: Vec<u8> = Vec::new();
    if alt {
        v.push(0x1b);
    }
    let mut i: usize = 0;
    while i < bytes.len()
        invariant
            i <= bytes@.len(),
            v@ == spec_esc_prefix(bytes@.take(i as int), alt),
        decreases bytes@.len() - i,
    {
        v.push(bytes[i]);
        assert(v@ =~= spec_esc_prefix(bytes@.take(i + 1), alt));
        i = i + 1;
    }
    assert(bytes@.take(bytes@.len() as int) =~= bytes@);
    v
}

/// ASCII lowercase of `c`; other chars unchanged.
pub open spec fn ascii_lower(c: char) -> char {
    if 'A' <= c && c <= 'Z' { ((c as u32) + 32) as char } else { c }
}

/// The control byte `Ctrl+c` produces, if any.
pub open spec fn ctrl_byte(c: char) -> Option<u8> {
    let l = ascii_lower(c);
    if 'a' <= l && l <= 'z' {
        Some(((l as u32) - 96) as u8)
    } else if l == ' ' || l == '@' {
        Some(0x00)
    } else if l == '[' {
        Some(0x1b)
    } else if l == '\\' {
        Some(0x1c)
    } else if l == ']' {
        Some(0x1d)
    } else if l == '^' {
        Some(0x1e)
    } else if l == '_' || l == '?' {
        Some(0x1f)
    } else {
        None
    }
}

/// A character key: Ctrl folded into a control byte where one exists,
/// else the char's UTF-8; Alt adds an ESC prefix.
pub open spec fn spec_encode_char(c: char, ctrl: bool, alt: bool) -> Seq<u8> {
    let prefix: Seq<u8> = if alt { seq![0x1bu8] } else { Seq::empty() };
    if ctrl && ctrl_byte(c) is Some {
        prefix.push(ctrl_byte(c)->0)
    } else {
        prefix + encode_scalar(c as u32)
    }
}

fn ctrl_byte_of(c: char) -> (r: Option<u8>)
    ensures
        r == ctrl_byte(c),
{
    let l = if 'A' <= c && c <= 'Z' { ((c as u32) + 32) as u8 as char } else { c };
    assert(l == ascii_lower(c));
    if 'a' <= l && l <= 'z' {
        Some(((l as u32) - 96) as u8)
    } else if l == ' ' || l == '@' {
        Some(0x00)
    } else if l == '[' {
        Some(0x1b)
    } else if l == '\\' {
        Some(0x1c)
    } else if l == ']' {
        Some(0x1d)
    } else if l == '^' {
        Some(0x1e)
    } else if l == '_' || l == '?' {
        Some(0x1f)
    } else {
        None
    }
}

/// The UTF-8 encoding of one char.
pub fn push_utf8(v: &mut Vec<u8>, c: char)
    ensures
        final(v)@ == old(v)@ + encode_scalar(c as u32),
{
    let x = c as u32;
    if x <= 0x7f {
        v.push((x & 0x7f) as u8);
    } else if x <= 0x7ff {
        v.push(0xc0 | ((x >> 6) & 0x1f) as u8);
        v.push(0x80 | (x & 0x3f) as u8);
    } else if x <= 0xffff {
        v.push(0xe0 | ((x >> 12) & 0x0f) as u8);
        v.push(0x80 | ((x >> 6) & 0x3f) as u8);
        v.push(0x80 | (x & 0x3f) as u8);
    } else {
        v.push(0xf0 | ((x >> 18) & 0x7) as u8);
        v.push(0x80 | ((x >> 12) & 0x3f) as u8);
        v.push(0x80 | ((x >> 6) & 0x3f) as u8);
        v.push(0x80 | (x & 0x3f) as u8);
    }
    proof {
        broadcast use vstd::utf8::char_is_scalar;
        assert(is_scalar(c as u32));
        assert(final(v)@ =~= old(v)@ + encode_scalar(c as u32));
    }
}

pub fn encode_char(c: char, ctrl: bool, alt: bool) -> (r: Vec<u8>)
    ensures
        r@ == spec_encode_char(c, ctrl, alt),
{
    let mut out: Vec<u8> = Vec::new();
    if alt {
        out.push(0x1b);
    }
    if ctrl {
        if let Some(b) = ctrl_byte_of(c) {
            out.push(b);
            assert(out@ =~= spec_encode_char(c, ctrl, alt));
            return out;
        }
    }
    let ghost before = out@;
    push_utf8(&mut out, c);
    assert(out@ =~= spec_encode_char(c, ctrl, alt));
    out
}

/// The F-key number's `ESC [ N ~` code for F5-F12 (terminfo skips a few
/// values).
pub open spec fn fkey_tilde_code(n: u8) -> u8 {
    if n == 5 { 15 } else if n == 6 { 17 } else if n == 7 { 18 } else if n == 8 { 19 } else if n == 9 { 20 }
    else if n == 10 { 21 } else if n == 11 { 23 } else { 24 }
}

/// The bytes a key press sends to a PTY; `None` for releases and keys that
/// carry nothing to forward. `app_cursor` is the terminal's DECCKM mode.
pub open spec fn spec_encode_key(e: KeyInput, app_cursor: bool) -> Option<Seq<u8>> {
    let (s, a, c) = (e.shift, e.alt, e.ctrl);
    if e.kind == KeyEventKind::Release {
        None
    } else {
        match e.code {
            KeyCode::Char(ch) => Some(spec_encode_char(ch, c, a)),
            KeyCode::Up => Some(spec_cursor_letter(0x41, s, a, c, app_cursor)),
            KeyCode::Down => Some(spec_cursor_letter(0x42, s, a, c, app_cursor)),
            KeyCode::Right => Some(spec_cursor_letter(0x43, s, a, c, app_cursor)),
            KeyCode::Left => Some(spec_cursor_letter(0x44, s, a, c, app_cursor)),
            KeyCode::Home => Some(spec_cursor_letter(0x48, s, a, c, app_cursor)),
            KeyCode::End => Some(spec_cursor_letter(0x46, s, a, c, app_cursor)),
            KeyCode::PageUp => Some(spec_csi_tilde(5, s, a, c)),
            KeyCode::PageDown => Some(spec_csi_tilde(6, s, a, c)),
            KeyCode::Insert => Some(spec_csi_tilde(2, s, a, c)),
            KeyCode::Delete => Some(spec_csi_tilde(3, s, a, c)),
            KeyCode::F(n) => if n == 1 {
                Some(spec_csi_fkey(0x50, s, a, c))
            } else if n == 2 {
                Some(spec_csi_fkey(0x51, s, a, c))
            } else if n == 3 {
                Some(spec_csi_fkey(0x52, s, a, c))
            } else if n == 4 {
                Some(spec_csi_fkey(0x53, s, a, c))
            } else if 5 <= n <= 12 {
                Some(spec_csi_tilde(fkey_tilde_code(n), s, a, c))
            } else {
                None
            },
            KeyCode::Enter => Some(spec_esc_prefix(seq![0x0du8], a)),
            KeyCode::Backspace => Some(spec_esc_prefix(seq![0x7fu8], a)),
            KeyCode::BackTab => Some(spec_esc_prefix(seq![0x1bu8, 0x5bu8, 0x5au8], a)),
            KeyCode::Tab => Some(spec_esc_prefix(seq![0x09u8], a)),
            KeyCode::Esc => Some(spec_esc_prefix(seq![0x1bu8], a)),
            KeyCode::Other => None,
        }
    }
}

/// Encode a key press as the bytes to write to an agent's PTY.
pub fn encode_key(event: &KeyInput, app_cursor: bool) -> (r: Option<Vec<u8>>)
    ensures
        match spec_encode_key(*event, app_cursor) {
            Some(b) => r matches Some(v) && v@ == b,
            None => r is None,
        },
{
    if event.kind == KeyEventKind::Release {
        return None;
    }
    let shift = event.shift;
    let ctrl = event.ctrl;
    let alt = event.alt;
    match event.code {
        KeyCode::Char(c) => Some(encode_char(c, ctrl, alt)),
        KeyCode::Up => Some(cursor_letter(65u8, shift, alt, ctrl, app_cursor)),
        KeyCode::Down => Some(cursor_letter(66u8, shift, alt, ctrl, app_cursor)),
        KeyCode::Right => Some(cursor_letter(67u8, shift, alt, ctrl, app_cursor)),
        KeyCode::Left => Some(cursor_letter(68u8, shift, alt, ctrl, app_cursor)),
        KeyCode::Home => Some(cursor_letter(72u8, shift, alt, ctrl, app_cursor)),
        KeyCode::End => Some(cursor_letter(70u8, shift, alt, ctrl, app_cursor)),
        KeyCode::PageUp => Some(csi_tilde(5, shift, alt, ctrl)),
        KeyCode::PageDown => Some(csi_tilde(6, shift, alt, ctrl)),
        KeyCode::Insert => Some(csi_tilde(2, shift, alt, ctrl)),
        KeyCode::Delete => Some(csi_tilde(3, shift, alt, ctrl)),
        KeyCode::F(n) => {
            if n == 1 {
                Some(csi_fkey(80u8, shift, alt, ctrl))
            } else if n == 2 {
                Some(csi_fkey(81u8, shift, alt, ctrl))
            } else if n == 3 {
                Some(csi_fkey(82u8, shift, alt, ctrl))
            } else if n == 4 {
                Some(csi_fkey(83u8, shift, alt, ctrl))
            } else if 5 <= n && n <= 12 {
                let code: u8 = if n == 5 { 15 } else if n == 6 { 17 } else if n == 7 { 18 } else if n == 8 {
                    19
                } else if n == 9 { 20 } else if n == 10 { 21 } else if n == 11 { 23 } else { 24 };
                Some(csi_tilde(code, shift, alt, ctrl))
            } else {
                None
            }
        },
        KeyCode::Enter => Some(esc_prefix(&[0x0du8], alt)),
        KeyCode::Backspace => Some(esc_prefix(&[0x7fu8], alt)),
        KeyCode::BackTab => Some(esc_prefix(&[0x1bu8, 0x5bu8, 0x5au8], alt)),
        KeyCode::Tab => Some(esc_prefix(&[0x09u8], alt)),
        KeyCode::Esc => Some(esc_prefix(&[0x1bu8], alt)),
        KeyCode::Other => None,
    }
}

/// Alt only puts an ESC in front of what a character key sends without
/// it, Ctrl folding included.
pub proof fn law_alt_prefixes_esc(c: char, ctrl: bool)
    ensures
        spec_encode_char(c, ctrl, true) == seq![0x1bu8] + spec_encode_char(c, ctrl, false),
{
    assert(spec_encode_char(c, ctrl, true) =~= seq![0x1bu8] + spec_encode_char(c, ctrl, false));
}

/// Law: a cursor key (arrows, Home, End) pressed with any modifier sends
/// `ESC [ 1 ; m X`, where the xterm modifier code `m` is
/// `1 + 1*shift + 2*alt + 4*ctrl` (Shift alone 2, Alt alone 3, Ctrl
/// alone 5) and `X` is `A`/`B`/`C`/`D` for up/down/right/left, `H` for
/// Home, `F` for End; the cursor-key mode does not matter then.
pub proof fn law_modified_cursor_keys(e: KeyInput, app_cursor: bool)
    requires
        e.kind != KeyEventKind::Release,
        e.code is Up || e.code is Down || e.code is Right || e.code is Left || e.code is Home || e.code is End,
        e.shift || e.alt || e.ctrl,
    ensures
        spec_encode_key(e, app_cursor) == Some(
            seq![
                0x1bu8,
                0x5bu8,
                0x31u8,
                0x3bu8,
                (0x31 + (if e.shift { 1int } else { 0 }) + (if e.alt { 2int } else { 0 }) + (if e.ctrl { 4int } else { 0 })) as u8,
                (if e.code is Up { 0x41u8 } else if e.code is Down { 0x42u8 } else if e.code is Right { 0x43u8 } else if e.code is Left { 0x44u8 } else if e.code is Home { 0x48u8 } else { 0x46u8 }),
            ],
        ),
{
    let m = spec_modifier_code(e.shift, e.alt, e.ctrl);
    assert(2 <= m <= 8);
    assert(dec_bytes(m as nat) == seq![(m + 48) as u8]);
    let letter: u8 = if e.code is Up { 0x41u8 } else if e.code is Down { 0x42u8 } else if e.code is Right { 0x43u8 } else if e.code is Left { 0x44u8 } else if e.code is Home { 0x48u8 } else { 0x46u8 };
    assert(spec_cursor_letter(letter, e.shift, e.alt, e.ctrl, app_cursor) =~= seq![0x1bu8, 0x5bu8, 0x31u8, 0x3bu8, (m + 48) as u8, letter]);
}

/// Law: PageUp, PageDown, Insert and Delete pressed with any modifier
/// send `ESC [ n ; m ~` (`n` 5, 6, 2, 3), with the xterm modifier code
/// `m = 1 + 1*shift + 2*alt + 4*ctrl`.
pub proof fn law_modified_tilde_keys(e: KeyInput, app_cursor: bool)
    requires
        e.kind != KeyEventKind::Release,
        e.code is PageUp || e.code is PageDown || e.code is Insert || e.code is Delete,
        e.shift || e.alt || e.ctrl,
    ensures
        spec_encode_key(e, app_cursor) == Some(
            seq![
                0x1bu8,
                0x5bu8,
                (if e.code is PageUp { 0x35u8 } else if e.code is PageDown { 0x36u8 } else if e.code is Insert { 0x32u8 } else { 0x33u8 }),
                0x3bu8,
                (0x31 + (if e.shift { 1int } else { 0 }) + (if e.alt { 2int } else { 0 }) + (if e.ctrl { 4int } else { 0 })) as u8,
                0x7eu8,
            ],
        ),
{
    let m = spec_modifier_code(e.shift, e.alt, e.ctrl);
    assert(2 <= m <= 8);
    assert(dec_bytes(m as nat) == seq![(m + 48) as u8]);
    let n: u8 = if e.code is PageUp { 5 } else if e.code is PageDown { 6 } else if e.code is Insert { 2 } else { 3 };
    assert(dec_bytes(n as nat) == seq![(n + 48) as u8]);
    assert(spec_csi_tilde(n, e.shift, e.alt, e.ctrl) =~= seq![0x1bu8, 0x5bu8, (n + 48) as u8, 0x3bu8, (m + 48) as u8, 0x7eu8]);
}

/// Law: F1–F4 pressed with any modifier send `ESC [ 1 ; m X` (`X` is
/// `P`, `Q`, `R`, `S`), with `m = 1 + 1*shift + 2*alt + 4*ctrl`; bare,
/// they send `ESC O X`.
pub proof fn law_first_function_keys(e: KeyInput, app_cursor: bool)
    requires
        e.kind != KeyEventKind::Release,
        e.code matches KeyCode::F(n) && 1 <= n <= 4,
    ensures
        ({
            let x = (0x4f + e.code->F_0) as u8;
            spec_encode_key(e, app_cursor) == Some(
                if e.shift || e.alt || e.ctrl {
                    seq![
                        0x1bu8,
                        0x5bu8,
                        0x31u8,
                        0x3bu8,
                        (0x31 + (if e.shift { 1int } else { 0 }) + (if e.alt { 2int } else { 0 }) + (if e.ctrl { 4int } else { 0 })) as u8,
                        x,
                    ]
                } else {
                    seq![0x1bu8, 0x4fu8, x]
                },
            )
        }),
{
    let m = spec_modifier_code(e.shift, e.alt, e.ctrl);
    let x = (0x4f + e.code->F_0) as u8;
    if e.shift || e.alt || e.ctrl {
        assert(2 <= m <= 8);
        assert(dec_bytes(m as nat) == seq![(m + 48) as u8]);
        assert(spec_csi_fkey(x, e.shift, e.alt, e.ctrl) =~= seq![0x1bu8, 0x5bu8, 0x31u8, 0x3bu8, (m + 48) as u8, x]);
    } else {
        assert(m == 1);
    }
}

/// Law: an unmodified arrow key sends `ESC O X` in application-cursor
/// mode and `ESC [ X` otherwise.
pub proof fn law_bare_arrow_keys(e: KeyInput, app_cursor: bool)
    requires
        e.kind != KeyEventKind::Release,
        e.code is Up || e.code is Down || e.code is Right || e.code is Left,
        !e.shift && !e.alt && !e.ctrl,
    ensures
        ({
            let x: u8 = if e.code is Up { 0x41u8 } else if e.code is Down { 0x42u8 } else if e.code is Right { 0x43u8 } else { 0x44u8 };
            spec_encode_key(e, app_cursor) == Some(if app_cursor { seq![0x1bu8, 0x4fu8, x] } else { seq![0x1bu8, 0x5bu8, x] })
        }),
{
    assert(spec_modifier_code(e.shift, e.alt, e.ctrl) == 1);
}

} // verus!
