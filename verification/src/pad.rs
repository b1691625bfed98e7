//! Column padding for the tool-versions dumper, on top of the `console`
//! crate's text-width measurement.

use vstd::prelude::*;

use crate::strutil::spec_spaces;

verus! {

/// The displayed width of a string, as `console::measure_text_width`
/// computes it: a function of the characters alone.
pub uninterp spec fn text_width(s: Seq<char>) -> nat;

/// All characters are printable ASCII (`' '` through `'~'`).
pub open spec fn printable_ascii(s: Seq<char>) -> bool {
    forall|i: int| 0 <= i < s.len() ==> 0x20 <= (#[trigger] s[i]) as u32 <= 0x7e
}

/// Executable printable-ASCII test.
pub fn is_printable_ascii(s: &str) -> (r: bool)
    ensures
        r == printable_ascii(s@),
{
    let n: usize = s.unicode_len();
    let mut i: usize = 0;
    while i < n
        invariant
            n == s@.len(),
            i <= n,
            forall|j: int| 0 <= j < i ==> 0x20 <= (#[trigger] s@[j]) as u32 <= 0x7e,
        decreases n - i,
    {
        let c = s.get_char(i);
        let u = c as u32;
        if u < 0x20 || u > 0x7e {
            return false;
        }
        i = i + 1;
    }
    true
}

/// Relies on `console::measure_text_width`: the displayed width of a
/// string, computed from its characters alone; its source returns the
/// byte length (here: the character count) for strings made of printable
/// ASCII only.
#[verifier::external_body]
pub fn measure_width(s: &str) -> (r: usize)
    ensures
        r as nat == text_width(s@),
        printable_ascii(s@) ==> r as nat == s@.len(),
{
    console::measure_text_width(s)
}

/// Relies on `console::pad_str` with left alignment and no truncation:
/// a string whose displayed width reaches `width` comes back unchanged,
/// a narrower one comes back with spaces appended up to `width`.
#[verifier::external_body]
pub fn pad_left(s: &str, width: usize) -> (r: String)
    ensures
        text_width(s@) >= width ==> r@ == s@,
        text_width(s@) < width ==> r@ == s@ + spec_spaces((width - text_width(s@)) as nat),
        printable_ascii(s@) && s@.len() >= width ==> r@ == s@,
        printable_ascii(s@) && s@.len() < width ==> r@ == s@ + spec_spaces(
            (width - s@.len()) as nat,
        ),
{
    console::pad_str(s, width, console::Alignment::Left, None).into_owned()
}

} // verus!
