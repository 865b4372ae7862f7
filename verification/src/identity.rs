//! Identifiers that sessions, events and attempts carry.
use crate::text::{byte_len, byte_length};
use vstd::prelude::*;
use vstd::string::*;

verus! {

/// The longest identifier, in bytes.
pub const MAX_ID_BYTES: usize = 256;

/// A control character: U+0000 to U+001F and U+007F to U+009F.
pub open spec fn is_control(c: char) -> bool {
    c <= '\u{1f}' || '\u{7f}' <= c <= '\u{9f}'
}

/// A text that may serve as an identifier.
pub open spec fn is_identifier(text: Seq<char>) -> bool {
    &&& text.len() > 0
    &&& byte_length(text) <= MAX_ID_BYTES
    &&& forall|i: int| 0 <= i < text.len() ==> !is_control(#[trigger] text[i])
}

/// Does the text hold a control character?
pub fn has_control(text: &str) -> (found: bool)
    ensures
        found == exists|i: int| 0 <= i < text@.len() && is_control(#[trigger] text@[i]),
{
    let mut found: bool = false;
    for c in it: text.chars()
        invariant
            it.seq() == text@,
            found == exists|i: int| 0 <= i < it.index() && is_control(#[trigger] text@[i]),
    {
        if c <= '\u{1f}' || ('\u{7f}' <= c && c <= '\u{9f}') {
            assert(is_control(text@[it.index() as int]));
            found = true;
        }
    }
    found
}

/// May the text serve as an identifier?
pub fn valid_identifier(text: &str) -> (valid: bool)
    ensures
        valid == is_identifier(text@),
{
    !text.is_empty() && byte_len(text) <= MAX_ID_BYTES && !has_control(text)
}

} // verus!
