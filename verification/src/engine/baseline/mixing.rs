//! Spacing at the boundary between CJK text and an ASCII completion.

use crate::text::{
    ascii_alphanumeric, cjk_ideograph, from_chars, is_alphanumeric, is_cjk, is_word_char,
    to_chars, word_char,
};
use vstd::prelude::*;

verus! {

/// Whether the text ends in a word character.
pub open spec fn ends_in_word_char(s: Seq<char>) -> bool {
    s.len() > 0 && word_char(s.last())
}

/// Whether the text ends in a CJK Unified Ideograph.
pub open spec fn ends_in_cjk(s: Seq<char>) -> bool {
    s.len() > 0 && cjk_ideograph(s.last())
}

/// The suggestion as it is inserted after `before`: where `before` ends in a
/// CJK ideograph and the suggestion begins with an ASCII letter or digit, one
/// space goes in front of it.
pub open spec fn mixed_spacing(before: Seq<char>, suggestion: Seq<char>) -> Seq<char> {
    if ends_in_cjk(before) && suggestion.len() > 0 && ascii_alphanumeric(suggestion[0]) {
        seq![' '] + suggestion
    } else {
        suggestion
    }
}

/// Whether `ch` is an ASCII letter, digit or underscore.
pub fn is_ascii_word_char(ch: char) -> (b: bool)
    ensures
        b == word_char(ch),
{
    is_word_char(ch)
}

/// Whether the text before the cursor ends in a word character.
pub fn ends_with_ascii_word(context_before_cursor: &str) -> (b: bool)
    ensures
        b == ends_in_word_char(context_before_cursor@),
{
    let chars = to_chars(context_before_cursor);
    chars.len() > 0 && is_ascii_word_char(chars[chars.len() - 1])
}

/// Whether the text before the cursor ends in a CJK Unified Ideograph.
pub fn ends_with_cjk(context_before_cursor: &str) -> (b: bool)
    ensures
        b == ends_in_cjk(context_before_cursor@),
{
    let chars = to_chars(context_before_cursor);
    chars.len() > 0 && is_cjk(chars[chars.len() - 1])
}

/// Puts a space in front of an ASCII suggestion that follows CJK text.
pub fn maybe_prepend_space_for_mixed(context_before_cursor: &str, suggestion: String) -> (r:
    String)
    ensures
        r@ == mixed_spacing(context_before_cursor@, suggestion@),
{
    if ends_with_cjk(context_before_cursor) {
        let chars = to_chars(suggestion.as_str());
        if chars.len() > 0 && is_alphanumeric(chars[0]) {
            let mut spaced: Vec<char> = Vec::new();
            spaced.push(' ');
            crate::text::extend_chars(&mut spaced, &chars);
            assert(spaced@ =~= seq![' '] + suggestion@);
            return from_chars(&spaced);
        }
    }
    suggestion
}

} // verus!
