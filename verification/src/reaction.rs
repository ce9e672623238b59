//! Emoji identifiers, as the chat platform's client library reads them.

use serenity::model::channel::ReactionType;
use vstd::prelude::*;

verus! {

/// Whether `ReactionType::try_from` reads an identifier as an emoji to
/// react with: any text that does not begin with `<` is taken as an emoji
/// of its own, and a text between `<` and `>` has to name a custom emoji by
/// its name and its number.
pub uninterp spec fn names_reaction(identifier: Seq<char>) -> bool;

/// `ReactionType::try_from` on a string slice, asked only whether it
/// succeeds. It refuses the empty text, takes any text that does not begin
/// with `<`, and refuses a text that begins with `<` and does not end with
/// `>`; what it makes of the rest is left to it.
#[verifier::external_body]
pub(crate) fn is_reaction(identifier: &str) -> (yes: bool)
    ensures
        yes == names_reaction(identifier@),
        identifier@.len() == 0 ==> !yes,
        identifier@.len() > 0 && identifier@[0] != '<' ==> yes,
        identifier@.len() > 0 && identifier@[0] == '<' && identifier@.last() != '>' ==> !yes,
{
    ReactionType::try_from(identifier).is_ok()
}

} // verus!
