//! The few operations on text that the standard library offers and that
//! have no specification yet. What each one does is stated here and
//! trusted, not proved.

use vstd::prelude::*;

verus! {

/// What `str::to_lowercase` makes of a text: its lower-case form under
/// Unicode's case mapping. The mapping is fixed by the standard library's
/// Unicode tables and is not unfolded here.
pub uninterp spec fn lowercase(text: Seq<char>) -> Seq<char>;

/// Whether `char::is_alphanumeric` holds of a character: Unicode's
/// Alphabetic property or one of its number categories.
pub uninterp spec fn alphanumeric(c: char) -> bool;

/// `str::to_lowercase`: the result is the lower-case form of the whole text.
pub assume_specification[ str::to_lowercase ](text: &str) -> (lowered: String)
    ensures
        lowered@ == lowercase(text@),
;

/// `char::is_alphanumeric`: the result is the Unicode classification named
/// by [`alphanumeric`].
pub assume_specification[ char::is_alphanumeric ](c: char) -> (yes: bool)
    ensures
        yes == alphanumeric(c),
;

/// `String::push`: appends the one character to the end of the string.
pub assume_specification[ String::push ](text: &mut String, c: char)
    ensures
        final(text)@ == old(text)@.push(c),
;

/// `str::eq`: two string slices are equal exactly when they hold the same
/// characters in the same order.
#[verifier::external_body]
pub(crate) fn same_text(a: &str, b: &str) -> (same: bool)
    ensures
        same == (a@ == b@),
{
    a == b
}

/// `str::starts_with` with a string pattern: true exactly when the pattern
/// is a prefix of the text.
#[verifier::external_body]
pub(crate) fn has_prefix(text: &str, prefix: &str) -> (yes: bool)
    ensures
        yes == prefix@.is_prefix_of(text@),
{
    text.starts_with(prefix)
}

/// `str::ends_with` with a string pattern: true exactly when the pattern is
/// a suffix of the text.
#[verifier::external_body]
pub(crate) fn has_suffix(text: &str, suffix: &str) -> (yes: bool)
    ensures
        yes == suffix@.is_suffix_of(text@),
{
    text.ends_with(suffix)
}

/// What `str::replace` makes of a text: every match of `from`, found from
/// left to right without overlap, replaced by `to`.
pub uninterp spec fn replaced(text: Seq<char>, from: Seq<char>, to: Seq<char>) -> Seq<char>;

/// Whether `part` stands somewhere in `text`, character for character.
pub open spec fn has_part(text: Seq<char>, part: Seq<char>) -> bool {
    exists|i: int|
        0 <= i && i + part.len() <= text.len() && #[trigger] text.subrange(i, i + part.len())
            == part
}

/// `str::replace` with string patterns: the result is the text with every
/// match of `from` replaced by `to`.
#[verifier::external_body]
pub(crate) fn replace_all(text: &str, from: &str, to: &str) -> (changed: String)
    ensures
        changed@ == replaced(text@, from@, to@),
{
    text.replace(from, to)
}

/// `str::contains` with a string pattern: true exactly when the pattern
/// stands somewhere in the text.
#[verifier::external_body]
pub(crate) fn contains_text(text: &str, part: &str) -> (yes: bool)
    ensures
        yes == has_part(text@, part@),
{
    text.contains(part)
}

} // verus!
