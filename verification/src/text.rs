//! Plain-text helpers for the presentation layer.  They are pure: the
//! terminal's dimensions come in as arguments.

use vstd::prelude::*;
use vstd::string::{StrSliceExecFns, StringExecFns};

verus! {

/// `s` repeated `n` times.
pub open spec fn repeat_seq(s: Seq<char>, n: nat) -> Seq<char>
    decreases n,
{
    if n == 0 {
        Seq::empty()
    } else {
        repeat_seq(s, (n - 1) as nat) + s
    }
}

/// A horizontal rule: the style pattern repeated across the given width.
pub fn separator(style: &str, width: usize) -> (r: String)
    ensures
        r@ == repeat_seq(style@, width as nat),
{
    let mut out = String::new();
    let mut i: usize = 0;
    while i < width
        invariant
            i <= width,
            out@ == repeat_seq(style@, i as nat),
        decreases width - i,
    {
        out.append(style);
        i = i + 1;
    }
    out
}

/// A text with a rule of the same character length drawn under it.
pub fn underline(text: &str, style: &str) -> (r: String)
    ensures
        r@ == text@ + "\n"@ + repeat_seq(style@, text@.len()),
{
    let n = text.unicode_len();
    let line = separator(style, n);
    let mut out = String::new();
    out.append(text);
    out.append("\n");
    out.append(line.as_str());
    out
}

/// The text centered in the given width: the same padding on both sides, so
/// an odd leftover column is left to the right edge.
pub fn center(text: &str, width: usize) -> (r: String)
    requires
        text@.len() <= width,
    ensures
        r@ == repeat_seq(" "@, ((width - text@.len()) as nat) / 2) + text@ + repeat_seq(
            " "@,
            ((width - text@.len()) as nat) / 2,
        ),
{
    let n = text.unicode_len();
    let padding = (width - n) / 2;
    let pad = separator(" ", padding);
    let mut out = String::new();
    out.append(pad.as_str());
    out.append(text);
    out.append(pad.as_str());
    out
}

} // verus!
