//! Contracts for the `String` methods that build text, and the text
//! operations of std that the library calls.

use vstd::prelude::*;
use crate::crypto::hex::is_white_space;
use crate::table::string_views;

verus! {

/// `String::push` appends one character (std documentation: "Appends the
/// given char to the end of this String").
pub assume_specification[ String::push ](s: &mut String, ch: char)
    ensures
        final(s)@ == old(s)@.push(ch),
;

/// `String::push_str` appends a string slice (std documentation:
/// "Appends a given string slice onto the end of this String").
pub assume_specification[ String::push_str ](s: &mut String, string: &str)
    ensures
        final(s)@ == old(s)@ + string@,
;

/// What `str::to_lowercase` yields: the lowercase equivalent of the text
/// under Unicode's Lowercase property.
pub uninterp spec fn lowercase(s: Seq<char>) -> Seq<char>;

/// Calls `str::to_lowercase`. Claimed: the result is `lowercase` of the
/// text, a function of the text alone.
#[verifier::external_body]
pub(crate) fn to_lowercase(s: &str) -> (r: String)
    ensures
        r@ == lowercase(s@),
{
    s.to_lowercase()
}

/// The number of characters before the first white space (or the end).
pub open spec fn word_len(s: Seq<char>) -> nat
    decreases s.len(),
{
    if s.len() == 0 || is_white_space(s[0]) { 0 } else { 1 + word_len(s.drop_first()) }
}

/// A word is at most as long as the text, and at least one character
/// when the text starts with one that is not white space.
pub proof fn lemma_word_len(s: Seq<char>)
    ensures
        word_len(s) <= s.len(),
        s.len() > 0 && !is_white_space(s[0]) ==> word_len(s) >= 1,
    decreases s.len(),
{
    if s.len() > 0 && !is_white_space(s[0]) {
        lemma_word_len(s.drop_first());
    }
}

/// The words of a text: its maximal runs of characters that are not
/// white space, in order.
pub open spec fn words(s: Seq<char>) -> Seq<Seq<char>>
    decreases s.len(),
{
    if s.len() == 0 {
        Seq::empty()
    } else if is_white_space(s[0]) {
        words(s.drop_first())
    } else {
        proof { lemma_word_len(s); }
        seq![s.take(word_len(s) as int)] + words(s.skip(word_len(s) as int))
    }
}

/// Calls `str::split_whitespace` and collects the pieces. Claimed, as the
/// std documentation says: the pieces are the text's runs of characters
/// that are not Unicode White_Space, in order, with no empty piece.
#[verifier::external_body]
pub(crate) fn split_whitespace(s: &str) -> (r: Vec<String>)
    ensures
        string_views(r@) == words(s@),
{
    s.split_whitespace().map(|w| w.to_string()).collect()
}

} // verus!
