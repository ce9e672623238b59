//! What the rankings say of one user.

use vstd::prelude::*;
use vstd::string::StringExecFns;
use crate::decimal::{decimal, decimal_text};

verus! {

/// The line that tells how often a user sat on the couch.
pub open spec fn sits_line(sit_count: int) -> Seq<char> {
    "Times on The Jouch: "@ + decimal(sit_count) + seq!['\n']
}

/// The line that tells how often a user flipped the couch.
pub open spec fn flips_line(flip_count: int) -> Seq<char> {
    "Flips of The Jouch: "@ + decimal(flip_count) + seq!['\n']
}

/// What the rankings say of a user: a line for the sits if there are any,
/// then a line for the flips if there are any. A user with neither is not
/// listed at all.
pub open spec fn ranking(sit_count: int, flip_count: int) -> Option<Seq<char>> {
    if sit_count <= 0 && flip_count <= 0 {
        None
    } else {
        Some(
            (if sit_count > 0 {
                sits_line(sit_count)
            } else {
                Seq::empty()
            }) + (if flip_count > 0 {
                flips_line(flip_count)
            } else {
                Seq::empty()
            }),
        )
    }
}

/// What the rankings say of a user with these counters, or `None` for a
/// user who is not listed.
pub fn ranking_text(sit_count: i32, flip_count: i32) -> (text: Option<String>)
    ensures
        match text {
            Some(lines) => ranking(sit_count as int, flip_count as int) == Some(lines@),
            None => ranking(sit_count as int, flip_count as int) is None,
        },
{
    if sit_count <= 0 && flip_count <= 0 {
        return None;
    }
    let mut lines = String::new();
    if sit_count > 0 {
        lines.append("Times on The Jouch: ");
        lines.append(decimal_text(sit_count).as_str());
        lines.push('\n');
        assert(lines@ == sits_line(sit_count as int));
    }
    let ghost first = lines@;
    if flip_count > 0 {
        lines.append("Flips of The Jouch: ");
        lines.append(decimal_text(flip_count).as_str());
        lines.push('\n');
        assert(lines@ == first + flips_line(flip_count as int));
    }
    assert(lines@ == first + (if flip_count > 0 {
        flips_line(flip_count as int)
    } else {
        Seq::empty()
    }));
    Some(lines)
}

/// By what the users of a guild are ranked.
#[derive(Clone, Copy, Debug, PartialEq, Eq, Structural)]
pub enum RankSortBy {
    /// By how often they sat on the couch.
    Sits,
    /// By how often they flipped it.
    Flips,
}

impl RankSortBy {
    /// The order that a choice stands for. Only the lowest eight bits of
    /// the choice count: 0 ranks by sits, 1 ranks by flips, and nothing
    /// else is a choice.
    pub open spec fn of_choice(choice: i64) -> Option<RankSortBy> {
        if choice as u8 == 0 {
            Some(RankSortBy::Sits)
        } else if choice as u8 == 1 {
            Some(RankSortBy::Flips)
        } else {
            None
        }
    }

    /// The order that the choice made in a command stands for, if it
    /// stands for one.
    pub fn from_choice(choice: i64) -> (order: Option<RankSortBy>)
        ensures
            order == Self::of_choice(choice),
    {
        let low = #[verifier::truncate]
        (choice as u8);
        if low == 0 {
            Some(RankSortBy::Sits)
        } else if low == 1 {
            Some(RankSortBy::Flips)
        } else {
            None
        }
    }

    /// The number that stands for this order where a command offers the
    /// choice.
    pub open spec fn number(self) -> i32 {
        match self {
            RankSortBy::Sits => 0,
            RankSortBy::Flips => 1,
        }
    }

    /// The number that stands for this order where a command offers the
    /// choice.
    pub fn choice(&self) -> (number: i32)
        ensures
            number == self.number(),
            Self::of_choice(number as i64) == Some(*self),
    {
        match self {
            RankSortBy::Sits => 0,
            RankSortBy::Flips => 1,
        }
    }

    /// The end of the query that ranks the users in this order.
    pub open spec fn clause(self) -> Seq<char> {
        match self {
            RankSortBy::Sits => "ORDER BY sit_count DESC, flip_count DESC LIMIT 10"@,
            RankSortBy::Flips => "ORDER BY flip_count DESC, sit_count DESC LIMIT 10"@,
        }
    }

    /// The end of the query that ranks the users in this order: the ten
    /// highest, ties settled by the other counter.
    pub fn order_clause(&self) -> (clause: &str)
        ensures
            clause@ == self.clause(),
    {
        match self {
            RankSortBy::Sits => "ORDER BY sit_count DESC, flip_count DESC LIMIT 10",
            RankSortBy::Flips => "ORDER BY flip_count DESC, sit_count DESC LIMIT 10",
        }
    }
}

} // verus!
