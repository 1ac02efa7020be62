use unicode_segmentation::UnicodeSegmentation;
use unicode_width::UnicodeWidthStr;
use vstd::prelude::*;
use vstd::string::StrSliceExecFns;

verus! {

/// The extended grapheme clusters of a string, in order.
pub uninterp spec fn graphemes_of(s: Seq<char>) -> Seq<Seq<char>>;

/// The number of terminal columns that a string occupies.
pub uninterp spec fn display_width(s: Seq<char>) -> usize;

/// Every grapheme of `gs` occupies exactly one terminal column.
pub open spec fn all_single_column(gs: Seq<Seq<char>>) -> bool {
    forall|k: int| 0 <= k < gs.len() ==> display_width(#[trigger] gs[k]) == 1
}

/// Whether a character has the Unicode `White_Space` property.
pub uninterp spec fn white_space(c: char) -> bool;

/// Relies on `char::is_whitespace`: the answer depends on `c` alone.
#[verifier::external_body]
pub(crate) fn is_whitespace(c: char) -> (r: bool)
    ensures
        r == white_space(c),
{
    c.is_whitespace()
}

/// The characters of `s`, in order.
pub fn chars_of(s: &str) -> (r: Vec<char>)
    ensures
        r@ == s@,
{
    let n = s.unicode_len();
    let mut out: Vec<char> = Vec::new();
    let mut i: usize = 0;
    while i < n
        invariant
            i <= n,
            n == s@.len(),
            out@ == s@.take(i as int),
        decreases n - i,
    {
        out.push(s.get_char(i));
        i += 1;
        assert(out@ =~= s@.take(i as int));
    }
    assert(s@.take(n as int) =~= s@);
    out
}

/// The views of a sequence of strings.
pub open spec fn views(v: Seq<String>) -> Seq<Seq<char>> {
    v.map_values(|g: String| g@)
}

/// Relies on `UnicodeSegmentation::graphemes` (extended clusters): the
/// clusters depend on the characters of `s` alone.
#[verifier::external_body]
pub(crate) fn graphemes(s: &str) -> (r: Vec<String>)
    ensures
        views(r@) == graphemes_of(s@),
{
    s.graphemes(true).map(|g| g.to_string()).collect()
}

/// Splits each of `lines` into its graphemes.
pub fn grapheme_lines(lines: &Vec<String>) -> (r: Vec<Vec<String>>)
    ensures
        r@.len() == lines@.len(),
        forall|i: int| 0 <= i < lines@.len() ==> views((#[trigger] r@[i])@) == graphemes_of(lines@[i]@),
{
    let mut out: Vec<Vec<String>> = Vec::new();
    let mut i: usize = 0;
    while i < lines.len()
        invariant
            i <= lines@.len(),
            out@.len() == i,
            forall|k: int| 0 <= k < i ==> views((#[trigger] out@[k])@) == graphemes_of(lines@[k]@),
        decreases lines@.len() - i,
    {
        out.push(graphemes(lines[i].as_str()));
        i += 1;
    }
    out
}

/// Relies on `UnicodeWidthStr::width`: the width depends on the characters of
/// `s` alone.
#[verifier::external_body]
pub(crate) fn width(s: &str) -> (r: usize)
    ensures
        r == display_width(s@),
{
    UnicodeWidthStr::width(s)
}

} // verus!
