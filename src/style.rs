//! ANSI styling of terminal text.

use vstd::prelude::*;

verus! {

/// 256-colour palette index of a light gray.
pub const GRAY_LIGHT: u8 = 238;

/// 256-colour palette index of white.
pub const WHITE: u8 = 255;

/// The decimal digits of `n`, most significant first.
pub open spec fn decimal(n: nat) -> Seq<char>
    decreases n,
{
    if n < 10 {
        seq![digit_char(n)]
    } else {
        decimal(n / 10).push(digit_char(n % 10))
    }
}

pub open spec fn digit_char(d: nat) -> char {
    if d == 0 { '0' }
    else if d == 1 { '1' }
    else if d == 2 { '2' }
    else if d == 3 { '3' }
    else if d == 4 { '4' }
    else if d == 5 { '5' }
    else if d == 6 { '6' }
    else if d == 7 { '7' }
    else if d == 8 { '8' }
    else { '9' }
}

/// Escape sequence that starts bold text.
pub open spec fn bold_on() -> Seq<char> {
    seq!['\x1b', '[', '1', 'm']
}

/// Escape sequence that resets every attribute.
pub open spec fn reset() -> Seq<char> {
    seq!['\x1b', '[', 'm']
}

pub open spec fn bold_spec(text: Seq<char>) -> Seq<char> {
    bold_on() + text + reset()
}

/// `ESC[38;5;<fg>;48;5;<bg>m` followed by the text and a reset.
pub open spec fn styled_spec(fg: u8, bg: u8, text: Seq<char>) -> Seq<char> {
    seq!['\x1b', '[', '3', '8', ';', '5', ';'] + decimal(fg as nat) + seq![';', '4', '8', ';', '5', ';']
        + decimal(bg as nat) + seq!['m'] + text + reset()
}

/// Relies on `u8`'s `Display` (through `ToString`): plain decimal digits.
#[verifier::external_body]
fn u8_to_string(n: u8) -> (r: String)
    ensures
        r@ == decimal(n as nat),
{
    n.to_string()
}

/// Wraps `text` in the escape sequences for bold.
pub fn bold(text: &str) -> (r: String)
    ensures
        r@ == bold_spec(text@),
{
    let mut r = String::from_str("\x1b[1m");
    r.append(text);
    r.append("\x1b[m");
    proof {
        reveal_strlit("\x1b[1m");
        reveal_strlit("\x1b[m");
        assert(r@ =~= bold_spec(text@));
    }
    r
}

/// Colours `text` with 256-colour palette indices for foreground and background.
pub fn styled_text(foreground_color: u8, background_color: u8, text: &str) -> (r: String)
    ensures
        r@ == styled_spec(foreground_color, background_color, text@),
{
    let mut r = String::from_str("\x1b[38;5;");
    let fg = u8_to_string(foreground_color);
    r.append(fg.as_str());
    r.append(";48;5;");
    let bg = u8_to_string(background_color);
    r.append(bg.as_str());
    r.append("m");
    r.append(text);
    r.append("\x1b[m");
    proof {
        reveal_strlit("\x1b[38;5;");
        reveal_strlit(";48;5;");
        reveal_strlit("m");
        reveal_strlit("\x1b[m");
        assert(r@ =~= styled_spec(foreground_color, background_color, text@));
    }
    r
}

} // verus!
