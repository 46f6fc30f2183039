//! How many terminal columns characters and texts take.

use vstd::prelude::*;

use crate::text;

verus! {

/// What `UnicodeWidthChar::width` answers for a character.
pub uninterp spec fn char_columns(c: char) -> Option<usize>;

/// What `UnicodeWidthStr::width` answers for a text.
pub uninterp spec fn joined_columns(s: Seq<char>) -> usize;

/// A printable character of ASCII.
pub open spec fn printable(c: char) -> bool {
    ' ' <= c && c <= '~'
}

/// A text of printable ASCII alone.
pub open spec fn plain(s: Seq<char>) -> bool {
    forall|i: int| 0 <= i < s.len() ==> printable(#[trigger] s[i])
}

/// The columns a character takes: one if it is printable ASCII, and none if it is
/// a control character.
pub open spec fn columns(c: char) -> nat {
    if printable(c) {
        1
    } else if text::control(c) {
        0
    } else {
        match char_columns(c) {
            Some(width) => width as nat,
            None => 0,
        }
    }
}

/// The columns a text takes: one for each character of printable ASCII. In any
/// other text neighbours can join.
pub open spec fn text_columns(s: Seq<char>) -> nat {
    if plain(s) {
        s.len()
    } else {
        joined_columns(s) as nat
    }
}

/// Trusted: `unicode_width::UnicodeWidthChar::width`. Printable ASCII takes one
/// column, control characters have no width, and no character takes more than
/// three columns. The width of any other character is left to the name
/// [`char_columns`].
#[verifier::external_body]
fn char_width(c: char) -> (width: Option<usize>)
    ensures
        width == char_columns(c),
        printable(c) ==> width == Some(1usize),
        text::control(c) ==> width is None,
        width matches Some(columns) ==> columns <= 3,
{
    unicode_width::UnicodeWidthChar::width(c)
}

/// Trusted: `unicode_width::UnicodeWidthStr::width`. A text of printable ASCII
/// alone takes one column for each character, and so an empty text takes none.
/// The width of any other text, in which neighbours can join, is left to the name
/// [`joined_columns`].
#[verifier::external_body]
pub(crate) fn text_width(s: &str) -> (width: usize)
    ensures
        width == joined_columns(s@),
        plain(s@) ==> width == s@.len(),
{
    unicode_width::UnicodeWidthStr::width(s)
}

/// The columns that characters take one by one.
pub open spec fn span(s: Seq<char>) -> nat
    decreases s.len(),
{
    if s.len() == 0 {
        0
    } else {
        span(s.drop_last()) + columns(s.last())
    }
}

/// The columns that `c` takes.
pub fn columns_of(c: char) -> (count: usize)
    ensures
        count == columns(c),
        count <= 3,
{
    match char_width(c) {
        Some(width) => width,
        None => 0,
    }
}

/// One more character adds its own columns.
pub proof fn lemma_span_push(s: Seq<char>, c: char)
    ensures
        span(s.push(c)) == span(s) + columns(c),
{
    assert(s.push(c).drop_last() =~= s);
}

/// A beginning takes no more columns than the whole.
pub proof fn lemma_span_of_beginning(s: Seq<char>, count: int)
    requires
        0 <= count <= s.len(),
    ensures
        span(s.take(count)) <= span(s),
    decreases s.len(),
{
    if count < s.len() {
        lemma_span_of_beginning(s.drop_last(), count);
        assert(s.drop_last().take(count) =~= s.take(count));
    } else {
        assert(s.take(count) =~= s);
    }
}

} // verus!
