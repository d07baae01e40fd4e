//! Paths relative to the scanned root, and the text of indexed lines.

use vstd::prelude::*;
use unicode_width::UnicodeWidthStr;

verus! {

/// Columns that `s` takes on a terminal.
pub uninterp spec fn display_width(s: Seq<char>) -> nat;

/// Bytes of `s` with its terminal escape sequences taken out.
pub uninterp spec fn ansi_stripped(s: Seq<char>) -> Seq<u8>;

/// Text of `b` as UTF-8, with each invalid sequence replaced by U+FFFD.
pub uninterp spec fn utf8_lossy(b: Seq<u8>) -> Seq<char>;

/// Relies on `UnicodeWidthStr::width` for `str`: the displayed width in columns.
#[verifier::external_body]
fn width_of(s: &str) -> (r: usize)
    ensures
        r == display_width(s@),
{
    s.width()
}

/// Relies on `strip_ansi_escapes::strip`: the bytes without escape sequences.
#[verifier::external_body]
fn strip_ansi(s: &str) -> (r: Vec<u8>)
    ensures
        r@ == ansi_stripped(s@),
        s@.len() == 0 ==> r@.len() == 0,
{
    strip_ansi_escapes::strip(s)
}

/// Relies on `String::from_utf8_lossy`: the bytes read as UTF-8, lossily.
#[verifier::external_body]
fn lossy_text(b: &[u8]) -> (r: String)
    ensures
        r@ == utf8_lossy(b@),
        b@.len() == 0 ==> r@.len() == 0,
{
    String::from_utf8_lossy(b).into_owned()
}

/// `path` without its first `width` characters and then one leading `/`.
pub open spec fn strip_prefix_spec(path: Seq<char>, width: nat) -> Seq<char> {
    let rest = if width <= path.len() { path.skip(width as int) } else { Seq::empty() };
    if rest.len() > 0 && rest[0] == '/' {
        rest.skip(1)
    } else {
        rest
    }
}

/// The stored text of a line read from a file.
pub open spec fn clean_line_spec(line: Seq<char>) -> Seq<char> {
    utf8_lossy(ansi_stripped(line))
}

/// Drops the first `width` characters of `path`, then one leading separator.
pub fn strip_prefix_width(path: &str, width: usize) -> (r: String)
    ensures
        r@ == strip_prefix_spec(path@, width as nat),
{
    let n = path.unicode_len();
    let start = if width <= n { width } else { n };
    let rest = path.substring_char(start, n);
    if rest.unicode_len() > 0 && rest.get_char(0) == '/' {
        let m = rest.unicode_len();
        String::from_str(rest.substring_char(1, m))
    } else {
        String::from_str(rest)
    }
}

/// The path of `file_name` relative to `root`: the root's width in columns is cut
/// off the front, then one leading separator.
pub fn strip_file_prefix(file_name: &str, root: &str) -> (r: String)
    ensures
        r@ == strip_prefix_spec(file_name@, display_width(root@)),
{
    let width = width_of(root);
    strip_prefix_width(file_name, width)
}

/// A line as it is stored: escape sequences taken out, decoded lossily.
pub fn clean_line(line: &str) -> (r: String)
    ensures
        r@ == clean_line_spec(line@),
{
    let stripped = strip_ansi(line);
    lossy_text(stripped.as_slice())
}

} // verus!
