//! The ways the couch can lie, and the emotes that draw each of them.

use vstd::prelude::*;
use crate::chance::{roll_up_to, thread_rng};

verus! {

/// How the couch currently lies in a guild.
#[derive(Clone, Copy, Debug, PartialEq, Eq, Structural)]
pub enum JouchOrientation {
    Normal,
    UpsideDown,
    RotatedLeft,
    RotatedRight,
}

impl Default for JouchOrientation {
    /// The couch stands upright until someone flips it.
    fn default() -> (orientation: Self)
        ensures
            orientation == JouchOrientation::Normal,
    {
        JouchOrientation::Normal
    }
}

impl JouchOrientation {
    /// The orientation that a roll of the die stands for: 1 turns the couch
    /// upside down, 2 turns it left, 3 turns it right, and anything else
    /// leaves it upright.
    pub open spec fn of_roll(roll: int) -> JouchOrientation {
        if roll == 1 {
            JouchOrientation::UpsideDown
        } else if roll == 2 {
            JouchOrientation::RotatedLeft
        } else if roll == 3 {
            JouchOrientation::RotatedRight
        } else {
            JouchOrientation::Normal
        }
    }

    /// The orientation that a roll of the die stands for.
    pub fn from_roll(roll: i32) -> (orientation: Self)
        ensures
            orientation == Self::of_roll(roll as int),
    {
        match roll {
            1 => JouchOrientation::UpsideDown,
            2 => JouchOrientation::RotatedLeft,
            3 => JouchOrientation::RotatedRight,
            _ => JouchOrientation::Normal,
        }
    }

    /// An orientation picked at random: a die with the faces 0 to 3 is
    /// rolled and the face decides. Nothing is promised of which it is.
    pub fn random() -> (orientation: Self)
        ensures
            exists|roll: int| 0 <= roll <= 3 && orientation == #[trigger] Self::of_roll(roll),
    {
        let mut rng = thread_rng();
        let roll = roll_up_to(&mut rng, 3);
        Self::from_roll(roll)
    }

    /// The text of the two emotes that draw the couch in this orientation.
    pub open spec fn emotes(self) -> Seq<char> {
        match self {
            JouchOrientation::Normal =>
                "<:jouchup1:1117080763565879397><:jouchup2:1117080764572520449>"@,
            JouchOrientation::UpsideDown =>
                "<:jouchdn1:1117080756309721139><:jouchdn2:1117080758612410401> "@,
            JouchOrientation::RotatedLeft =>
                "<:jouchl1:1117080760185270366>\n<:jouchl2:1117080761615519814>"@,
            JouchOrientation::RotatedRight =>
                "<:jouchr1:1117079201321861150>\n<:jouchr2:1117079202890530906>"@,
        }
    }

    /// The emote text for this orientation, ready to be put in a message.
    pub fn to_emotes(&self) -> (text: &str)
        ensures
            text@ == self.emotes(),
    {
        match self {
            JouchOrientation::Normal => {
                "<:jouchup1:1117080763565879397><:jouchup2:1117080764572520449>"
            },
            JouchOrientation::UpsideDown => {
                "<:jouchdn1:1117080756309721139><:jouchdn2:1117080758612410401> "
            },
            JouchOrientation::RotatedLeft => {
                "<:jouchl1:1117080760185270366>\n<:jouchl2:1117080761615519814>"
            },
            JouchOrientation::RotatedRight => {
                "<:jouchr1:1117079201321861150>\n<:jouchr2:1117079202890530906>"
            },
        }
    }
}

} // verus!
