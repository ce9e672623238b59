//! Nicknames that follow a user's counters and age.
//!
//! A nickname template may hold `%j` for the times the user sat on the
//! couch, `%f` for the times they flipped it, `%a` for their age in whole
//! years and `%A` for their age with a fraction.

use vstd::prelude::*;
use crate::decimal::{decimal, decimal_text};
use crate::text::{contains_text, has_part, replace_all, replaced};

verus! {

/// How many seconds pass between two rounds of nickname updates, unless
/// the configuration says otherwise.
pub const DEFAULT_INTERVAL: i64 = 600;

/// The default number of seconds between two rounds of nickname updates.
pub fn default_interval() -> (seconds: i64)
    ensures
        seconds == DEFAULT_INTERVAL,
{
    DEFAULT_INTERVAL
}

/// A template with the counters filled in: first every `%j` becomes the
/// number of sits, then every `%f` the number of flips.
pub open spec fn with_counts(template: Seq<char>, sit_count: int, flip_count: int) -> Seq<char> {
    let sat = if has_part(template, "%j"@) {
        replaced(template, "%j"@, decimal(sit_count))
    } else {
        template
    };
    if has_part(sat, "%f"@) {
        replaced(sat, "%f"@, decimal(flip_count))
    } else {
        sat
    }
}

/// Whether a nickname asks for the user's age: it holds `%a` or `%A`.
pub open spec fn asks_for_age(nick: Seq<char>) -> bool {
    has_part(nick, "%a"@) || has_part(nick, "%A"@)
}

/// A nickname with the age filled in: first every `%a` becomes the age in
/// whole years, then every `%A` the exact age as it is written in `exact`.
pub open spec fn with_age(nick: Seq<char>, years: int, exact: Seq<char>) -> Seq<char> {
    replaced(replaced(nick, "%a"@, decimal(years)), "%A"@, exact)
}

/// Fills the counters into a nickname template.
pub fn expand_counts(template: &str, sit_count: i32, flip_count: i32) -> (nick: String)
    ensures
        nick@ == with_counts(template@, sit_count as int, flip_count as int),
{
    let mut nick = template.to_owned();
    if contains_text(nick.as_str(), "%j") {
        let count = decimal_text(sit_count);
        nick = replace_all(nick.as_str(), "%j", count.as_str());
    }
    if contains_text(nick.as_str(), "%f") {
        let count = decimal_text(flip_count);
        nick = replace_all(nick.as_str(), "%f", count.as_str());
    }
    nick
}

/// Whether a nickname asks for the user's age.
pub fn uses_age(nick: &str) -> (yes: bool)
    ensures
        yes == asks_for_age(nick@),
{
    contains_text(nick, "%a") || contains_text(nick, "%A")
}

/// Fills the age into a nickname: `years` is the age in whole years and
/// `exact` the age as it is to be written with its fraction.
pub fn expand_age(nick: &str, years: i32, exact: &str) -> (aged: String)
    ensures
        aged@ == with_age(nick@, years as int, exact@),
{
    let whole = decimal_text(years);
    let first = replace_all(nick, "%a", whole.as_str());
    replace_all(first.as_str(), "%A", exact)
}

} // verus!
