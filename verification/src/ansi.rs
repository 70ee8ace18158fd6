//! The escape-code model: cursor placement, attribute reset and 24-bit color
//! codes, each serialized to an exact control-sequence string.
//!
//! The vocabulary is fixed: cursor placement emits `CSI {row+1};{col+1}H`,
//! reset emits `CSI 0m`, and color emits `CSI 3|4 8;2;{r};{g};{b}m` (`3` for
//! foreground, `4` for background).

use vstd::prelude::*;
use crate::text::string_from_chars;

verus! {

/// A color payload: three named shorthands and a full 24-bit triple.
#[derive(Debug, Clone, Copy, Hash, PartialEq, Eq, Structural)]
pub enum ColorValue {
    Red,
    Green,
    Blue,
    Custom(u8, u8, u8),
}

/// One escape code. `SetCursor(x, y)` holds a column `x` and a row `y`,
/// both zero-based; `Color(fg, c)` colors the foreground when `fg` holds,
/// else the background.
#[derive(Debug, Clone, Copy, Hash, PartialEq, Eq, Structural)]
pub enum ANSICode {
    SetCursor(u16, u16),
    Reset,
    Color(bool, ColorValue),
}

/// The decimal digit `d` as a character, for `d < 10`.
pub open spec fn digit_char(d: nat) -> char {
    if d == 0 {
        '0'
    } else if d == 1 {
        '1'
    } else if d == 2 {
        '2'
    } else if d == 3 {
        '3'
    } else if d == 4 {
        '4'
    } else if d == 5 {
        '5'
    } else if d == 6 {
        '6'
    } else if d == 7 {
        '7'
    } else if d == 8 {
        '8'
    } else {
        '9'
    }
}

/// The shortest decimal representation of `n`, most significant digit first.
pub open spec fn dec_rep(n: nat) -> Seq<char>
    decreases n,
{
    if n < 10 {
        seq![digit_char(n)]
    } else {
        dec_rep(n / 10).push(digit_char(n % 10))
    }
}

/// The two-character control sequence introducer.
pub open spec fn csi_chars() -> Seq<char> {
    seq!['\u{1b}', '[']
}

/// The `r;g;b` component list of a color.
pub open spec fn color_chars(c: ColorValue) -> Seq<char> {
    match c {
        ColorValue::Red => dec_rep(255) + seq![';'] + dec_rep(0) + seq![';'] + dec_rep(0),
        ColorValue::Green => dec_rep(0) + seq![';'] + dec_rep(255) + seq![';'] + dec_rep(0),
        ColorValue::Blue => dec_rep(0) + seq![';'] + dec_rep(0) + seq![';'] + dec_rep(255),
        ColorValue::Custom(r, g, b) => dec_rep(r as nat) + seq![';'] + dec_rep(g as nat) + seq![';']
            + dec_rep(b as nat),
    }
}

/// The full character sequence a code serializes to.
pub open spec fn code_chars(c: ANSICode) -> Seq<char> {
    match c {
        ANSICode::Reset => csi_chars() + seq!['0', 'm'],
        ANSICode::SetCursor(x, y) => csi_chars() + dec_rep(y as nat + 1) + seq![';'] + dec_rep(
            x as nat + 1,
        ) + seq!['H'],
        ANSICode::Color(fg, cv) => csi_chars() + seq![if fg { '3' } else { '4' }] + seq![
            '8',
            ';',
            '2',
            ';',
        ] + color_chars(cv) + seq!['m'],
    }
}

/// The digit `d` as a character.
fn digit_of(d: u32) -> (c: char)
    requires
        d < 10,
    ensures
        c == digit_char(d as nat),
{
    if d == 0 {
        '0'
    } else if d == 1 {
        '1'
    } else if d == 2 {
        '2'
    } else if d == 3 {
        '3'
    } else if d == 4 {
        '4'
    } else if d == 5 {
        '5'
    } else if d == 6 {
        '6'
    } else if d == 7 {
        '7'
    } else if d == 8 {
        '8'
    } else {
        '9'
    }
}

/// Appends the decimal representation of `n` to `out`.
pub fn push_dec(out: &mut Vec<char>, n: u32)
    ensures
        final(out)@ == old(out)@ + dec_rep(n as nat),
    decreases n,
{
    if n < 10 {
        out.push(digit_of(n));
    } else {
        push_dec(out, n / 10);
        out.push(digit_of(n % 10));
    }
}

/// Appends the `r;g;b` components of a color to `out`.
fn push_color(out: &mut Vec<char>, c: ColorValue)
    ensures
        final(out)@ == old(out)@ + color_chars(c),
{
    let (r, g, b): (u8, u8, u8) = match c {
        ColorValue::Red => (255, 0, 0),
        ColorValue::Green => (0, 255, 0),
        ColorValue::Blue => (0, 0, 255),
        ColorValue::Custom(r, g, b) => (r, g, b),
    };
    push_dec(out, r as u32);
    out.push(';');
    push_dec(out, g as u32);
    out.push(';');
    push_dec(out, b as u32);
    proof {
        assert(out@ =~= old(out)@ + color_chars(c));
    }
}

/// Appends the control-sequence characters of `code` to `out`.
pub fn push_code(out: &mut Vec<char>, code: ANSICode)
    ensures
        final(out)@ == old(out)@ + code_chars(code),
{
    out.push('\u{1b}');
    out.push('[');
    match code {
        ANSICode::Reset => {
            out.push('0');
            out.push('m');
        },
        ANSICode::SetCursor(x, y) => {
            push_dec(out, y as u32 + 1);
            out.push(';');
            push_dec(out, x as u32 + 1);
            out.push('H');
        },
        ANSICode::Color(fg, cv) => {
            out.push(if fg { '3' } else { '4' });
            out.push('8');
            out.push(';');
            out.push('2');
            out.push(';');
            push_color(out, cv);
            out.push('m');
        },
    }
    proof {
        assert(out@ =~= old(out)@ + code_chars(code));
    }
}

impl ANSICode {
    /// The attribute-reset code.
    pub fn reset() -> (r: Self)
        ensures
            r == ANSICode::Reset,
    {
        ANSICode::Reset
    }

    /// A 24-bit color code from a channel triple.
    pub fn color(foreground: bool, rgb: (u8, u8, u8)) -> (r: Self)
        ensures
            r == ANSICode::Color(foreground, ColorValue::Custom(rgb.0, rgb.1, rgb.2)),
    {
        let (red, green, blue) = rgb;
        ANSICode::Color(foreground, ColorValue::Custom(red, green, blue))
    }

    /// A 24-bit foreground color code.
    pub fn fcustom(r: u8, g: u8, b: u8) -> (c: Self)
        ensures
            c == ANSICode::Color(true, ColorValue::Custom(r, g, b)),
    {
        Self::color(true, (r, g, b))
    }

    /// Serializes the code to its control-sequence string.
    pub fn conv(&self) -> (r: String)
        ensures
            r@ == code_chars(*self),
    {
        let mut out: Vec<char> = Vec::new();
        push_code(&mut out, *self);
        proof {
            assert(out@ =~= code_chars(*self));
        }
        string_from_chars(&out)
    }
}

} // verus!
