//! Wrapping and indenting text, done by `textwrap`.

use vstd::prelude::*;
use crate::strings::{join, split, trimmed, trimmed_end};

verus! {

/// The text that `textwrap::fill` makes of `text` for lines of `width`
/// columns: the words of `text` in lines that are broken to fit the width.
pub uninterp spec fn filled(text: Seq<char>, width: usize) -> Seq<char>;

/// A line with `prefix` before it; before a line of nothing but white space
/// the prefix stands without the white space at its end.
pub open spec fn indented_line(line: Seq<char>, prefix: Seq<char>) -> Seq<char> {
    if trimmed(line).len() == 0 {
        trimmed_end(prefix) + line
    } else {
        prefix + line
    }
}

/// The lines of a text that are ended by a line feed, and what follows the
/// last line feed unless it is empty.
pub open spec fn ended_lines(text: Seq<char>) -> Seq<Seq<char>> {
    let parts = split(text, '\n');
    if parts.last().len() == 0 {
        parts.drop_last()
    } else {
        parts
    }
}

/// A text with `prefix` before each of its lines. The line feeds stay as
/// they are.
pub open spec fn indented(text: Seq<char>, prefix: Seq<char>) -> Seq<char> {
    let body = join(
        ended_lines(text).map_values(|line: Seq<char>| indented_line(line, prefix)),
        '\n',
    );
    if text.len() > 0 && text.last() == '\n' {
        body.push('\n')
    } else {
        body
    }
}

/// Calls `textwrap::fill` with a line width. The result is the text that
/// `filled` names; nothing more is claimed of it.
#[verifier::external_body]
pub(crate) fn fill(text: &str, width: usize) -> (res: String)
    ensures
        res@ == filled(text@, width),
{
    textwrap::fill(text, width)
}

/// Calls `textwrap::indent`, which puts the prefix before every line of the
/// text, and before a line of nothing but white space the prefix without
/// the white space at its end. A line feed at the end of the text stays
/// where it is.
#[verifier::external_body]
pub(crate) fn indent(text: &str, prefix: &str) -> (res: String)
    ensures
        res@ == indented(text@, prefix@),
{
    textwrap::indent(text, prefix)
}

/// A text that was broken into lines, indented by two spaces: how a title
/// or a comment stands below the line that it belongs to.
pub fn indented_block(wrapped: &str) -> (res: String)
    ensures
        res@ == indented(wrapped@, "  "@),
{
    indent(wrapped, "  ")
}

/// A text broken into lines of `width` columns and indented by two spaces.
pub fn wrapped_block(text: &str, width: usize) -> (res: String)
    ensures
        res@ == indented(filled(text@, width), "  "@),
{
    let wrapped = fill(text, width);
    indented_block(wrapped.as_str())
}

} // verus!
