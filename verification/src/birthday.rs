//! Birthdays: who may see them, when one is celebrated, and how the text
//! of a date and time is taken apart before it is parsed.

use vstd::prelude::*;
use vstd::std_specs::iter::IteratorSpec;
use vstd::string::StringExecFns;
use crate::text::{contains_text, has_part};

verus! {

/// Who may see a user's birthday.
#[derive(Clone, Copy, Debug, PartialEq, Eq, Structural)]
pub enum BirthdayPrivacy {
    /// Year, month and day are public.
    PublicFull,
    /// Only month and day are public.
    PublicDay,
    /// Only the bot knows the birthday.
    Private,
}

impl BirthdayPrivacy {
    /// The format in which a birthday is shown under this setting.
    pub open spec fn format(self) -> Seq<char> {
        match self {
            BirthdayPrivacy::PublicFull => "%F"@,
            BirthdayPrivacy::PublicDay => "%m-%d"@,
            BirthdayPrivacy::Private => "private"@,
        }
    }

    /// The format in which a birthday is shown under this setting: the
    /// whole date, month and day only, or the word that hides it.
    pub fn date_format(&self) -> (format: &str)
        ensures
            format@ == self.format(),
    {
        match self {
            BirthdayPrivacy::PublicFull => "%F",
            BirthdayPrivacy::PublicDay => "%m-%d",
            BirthdayPrivacy::Private => "private",
        }
    }
}

/// A day of the calendar.
#[derive(Clone, Copy, Debug, PartialEq, Eq, Structural)]
pub struct CalendarDay {
    pub year: i32,
    pub month: u32,
    pub day: u32,
}

impl CalendarDay {
    /// Whether two days fall on the same day of the same month, whatever
    /// their years.
    pub open spec fn same_day_of_year(self, other: CalendarDay) -> bool {
        self.day == other.day && self.month == other.month
    }
}

/// The day the bot was born.
pub fn get_bot_birthday() -> (day: CalendarDay)
    ensures
        day == (CalendarDay { year: 2021, month: 7, day: 31 }),
{
    CalendarDay { year: 2021, month: 7, day: 31 }
}

/// The day on which the birth of Jesus is celebrated.
pub fn get_jesus_birthday() -> (day: CalendarDay)
    ensures
        day == (CalendarDay { year: 0, month: 12, day: 25 }),
{
    CalendarDay { year: 0, month: 12, day: 25 }
}

/// Whether `today` is to be celebrated as a user's birthday: the user has
/// told their birthday, it falls on this day of this month, and they have
/// not asked to keep it private.
pub fn birthday_date_check(
    today: CalendarDay,
    birthday: Option<CalendarDay>,
    privacy: Option<BirthdayPrivacy>,
) -> (celebrated: bool)
    ensures
        celebrated == (birthday matches Some(date) && today.same_day_of_year(date) && privacy
            != Some(BirthdayPrivacy::Private)),
{
    match birthday {
        Some(date) => {
            let private = match privacy {
                Some(BirthdayPrivacy::Private) => true,
                _ => false,
            };
            today.day == date.day && today.month == date.month && !private
        },
        None => false,
    }
}

/// Whether `today` is the birthday of the bot.
pub fn is_bot_birthday(today: CalendarDay) -> (celebrated: bool)
    ensures
        celebrated == today.same_day_of_year(CalendarDay { year: 2021, month: 7, day: 31 }),
{
    let born = get_bot_birthday();
    today.day == born.day && today.month == born.month
}

/// Whether `today` is the day on which the birth of Jesus is celebrated.
pub fn is_jesus_birthday(today: CalendarDay) -> (celebrated: bool)
    ensures
        celebrated == today.same_day_of_year(CalendarDay { year: 0, month: 12, day: 25 }),
{
    let born = get_jesus_birthday();
    today.day == born.day && today.month == born.month
}

/// Whether a birthday may be announced under a privacy setting: any
/// setting but `Private` lets it be, and so does none at all.
pub fn is_announced(privacy: Option<BirthdayPrivacy>) -> (announced: bool)
    ensures
        announced == (privacy != Some(BirthdayPrivacy::Private)),
{
    match privacy {
        Some(BirthdayPrivacy::Private) => false,
        _ => true,
    }
}

/// The names put one after the other with a comma and a blank between two
/// of them.
pub open spec fn listed(names: Seq<Seq<char>>) -> Seq<char>
    decreases names.len(),
{
    if names.len() == 0 {
        Seq::empty()
    } else if names.len() == 1 {
        names[0]
    } else {
        listed(names.drop_last()) + ", "@ + names.last()
    }
}

/// The announcement of the day's birthdays: the names of those who
/// celebrate and a wish, or the word `None` where nobody does.
pub open spec fn announcement(names: Seq<Seq<char>>) -> Seq<char> {
    "Birthdays today: "@ + listed(names) + (if names.len() == 0 {
        "None"@
    } else {
        "\nHappy Birthday!"@
    })
}

/// Writes the announcement of the day's birthdays for those who celebrate,
/// named in the order given.
pub fn birthday_announcement(names: &Vec<String>) -> (text: String)
    ensures
        text@ == announcement(names.deep_view()),
{
    let ghost all = names.deep_view();
    let mut text = String::new();
    text.append("Birthdays today: ");
    let ghost head = text@;
    let mut i: usize = 0;
    while i < names.len()
        invariant
            i <= names.len(),
            all == names.deep_view(),
            text@ == head + listed(all.take(i as int)),
        decreases names.len() - i,
    {
        if i > 0 {
            text.append(", ");
        }
        text.append(names[i].as_str());
        proof {
            assert(all.take(i + 1).drop_last() == all.take(i as int));
            assert(all.take(i + 1).last() == names[i as int]@);
            if i == 0 {
                assert(listed(all.take(0)) == Seq::<char>::empty());
                assert(text@ == head + names[0]@);
            } else {
                assert(text@ == head + (listed(all.take(i as int)) + ", "@ + names[i as int]@));
            }
        }
        i += 1;
    }
    assert(all.take(i as int) == all);
    if names.len() == 0 {
        text.append("None");
    } else {
        text.append("\nHappy Birthday!");
    }
    text
}

/// Whether the announcement of a day is sent: always where the guild asks
/// for it even on days without a birthday, and otherwise only if the
/// announcement does not hold the word `None`.
pub fn should_announce(announce_when_none: Option<bool>, announcement: &str) -> (send: bool)
    ensures
        send == (announce_when_none == Some(true) || !has_part(announcement@, "None"@)),
{
    let always = match announce_when_none {
        Some(always) => always,
        None => false,
    };
    always || !contains_text(announcement, "None")
}

/// The offset from UTC that is assumed where a text names none, in seconds
/// west of Greenwich: Central Standard Time.
pub const DEFAULT_OFFSET_WEST: i32 = 21600;

/// Whether a character parts the date from the time.
pub open spec fn parts_date_from_time(c: char) -> bool {
    c == ' ' || c == 'T'
}

/// Whether a character can begin the offset of a time zone.
pub open spec fn is_sign(c: char) -> bool {
    c == '+' || c == '-'
}

/// The place of the first character that parts the date from the time, or
/// the length of the text if there is none.
pub open spec fn first_parting(text: Seq<char>) -> int
    decreases text.len(),
{
    if text.len() == 0 || parts_date_from_time(text[0]) {
        0
    } else {
        1 + first_parting(text.drop_first())
    }
}

/// The place of the last sign in the text, or -1 if there is none.
pub open spec fn last_sign(text: Seq<char>) -> int
    decreases text.len(),
{
    if text.len() == 0 {
        -1
    } else if is_sign(text.last()) {
        text.len() - 1
    } else {
        last_sign(text.drop_last())
    }
}

/// The text in which the date is looked for: what stands before the first
/// blank or `T`, or the whole text if it has neither.
pub open spec fn date_part(text: Seq<char>) -> Seq<char> {
    text.take(first_parting(text))
}

/// What follows the date: what stands after the first blank or `T`, or the
/// whole text if it has neither.
pub open spec fn after_date(text: Seq<char>) -> Seq<char> {
    if first_parting(text) < text.len() {
        text.skip(first_parting(text) + 1)
    } else {
        text
    }
}

/// The text in which the time is looked for: what follows the date, up to
/// its last sign; all of it if it has no sign.
pub open spec fn time_part(text: Seq<char>) -> Seq<char> {
    let rest = after_date(text);
    if last_sign(rest) >= 0 {
        rest.take(last_sign(rest))
    } else {
        rest
    }
}

/// The text in which the time zone is looked for: what follows the date,
/// from its last sign on; all of it if it has no sign.
pub open spec fn zone_part(text: Seq<char>) -> Seq<char> {
    let rest = after_date(text);
    if last_sign(rest) >= 0 {
        rest.skip(last_sign(rest))
    } else {
        rest
    }
}

/// The first parting is the first: it lies in the text or at its end, no
/// character before it parts the date from the time, and if it lies in
/// the text the character there does.
pub proof fn lemma_first_parting(text: Seq<char>)
    ensures
        0 <= first_parting(text) <= text.len(),
        forall|k: int| 0 <= k < first_parting(text) ==> !parts_date_from_time(#[trigger] text[k]),
        first_parting(text) < text.len() ==> parts_date_from_time(text[first_parting(text)]),
    decreases text.len(),
{
    if text.len() > 0 && !parts_date_from_time(text[0]) {
        let rest = text.drop_first();
        lemma_first_parting(rest);
        assert forall|k: int| 0 <= k < first_parting(text) implies !parts_date_from_time(
            #[trigger] text[k],
        ) by {
            if k > 0 {
                assert(text[k] == rest[k - 1]);
            }
        }
    }
}

/// The last sign is the last: it lies in the text or is -1, no character
/// after it is a sign, and if it lies in the text the character there is.
pub proof fn lemma_last_sign(text: Seq<char>)
    ensures
        -1 <= last_sign(text) < text.len(),
        forall|k: int| last_sign(text) < k < text.len() ==> !is_sign(#[trigger] text[k]),
        last_sign(text) >= 0 ==> is_sign(text[last_sign(text)]),
    decreases text.len(),
{
    if text.len() > 0 && !is_sign(text.last()) {
        let front = text.drop_last();
        lemma_last_sign(front);
        assert forall|k: int| last_sign(text) < k < text.len() implies !is_sign(
            #[trigger] text[k],
        ) by {
            if k < front.len() {
                assert(text[k] == front[k]);
            }
        }
    }
}

/// The characters of a text, one by one.
fn chars_of(text: &str) -> (chars: Vec<char>)
    ensures
        chars@ == text@,
{
    let mut chars: Vec<char> = Vec::new();
    let mut rest = text.chars();
    loop
        invariant
            rest.remaining().len() <= text@.len(),
            rest.remaining() == text@.skip(text@.len() - rest.remaining().len()),
            chars@ == text@.take(text@.len() - rest.remaining().len()),
            rest.decrease() is Some,
        decreases rest.decrease()->0,
    {
        let ghost seen = text@.len() - rest.remaining().len();
        match rest.next() {
            None => {
                assert(text@.take(seen) == text@);
                return chars;
            },
            Some(c) => {
                assert(c == text@[seen]);
                chars.push(c);
                assert(chars@ == text@.take(seen + 1));
            },
        }
    }
}

/// The text made of the characters from place `from` up to place `to`.
fn text_between(chars: &Vec<char>, from: usize, to: usize) -> (text: String)
    requires
        from <= to <= chars.len(),
    ensures
        text@ == chars@.subrange(from as int, to as int),
{
    let mut text = String::new();
    let mut i: usize = from;
    while i < to
        invariant
            from <= i <= to <= chars.len(),
            text@ == chars@.subrange(from as int, i as int),
        decreases to - i,
    {
        text.push(chars[i]);
        assert(text@ == chars@.subrange(from as int, i + 1));
        i += 1;
    }
    text
}

/// The three texts in which the date, the time and the time zone of an
/// entry are looked for.
#[derive(Debug, PartialEq, Eq)]
pub struct DateTexts {
    pub date: String,
    pub time: String,
    pub zone: String,
}

/// Takes the text of a date and time apart. The date is looked for before
/// the first blank or `T` and the time after it; the time zone is looked
/// for from the last sign after the date on, and the time before that
/// sign. A text without blank or `T` is looked through as a whole for the
/// date and for the rest.
pub fn split_date_text(text: &str) -> (parts: DateTexts)
    ensures
        parts.date@ == date_part(text@),
        parts.time@ == time_part(text@),
        parts.zone@ == zone_part(text@),
{
    let chars = chars_of(text);
    let len = chars.len();
    proof {
        lemma_first_parting(chars@);
    }
    let mut parting: usize = 0;
    while parting < len && !(chars[parting] == ' ' || chars[parting] == 'T')
        invariant
            len == chars.len(),
            parting <= len,
            parting <= first_parting(chars@),
            0 <= first_parting(chars@) <= chars.len(),
            forall|k: int|
                0 <= k < first_parting(chars@) ==> !parts_date_from_time(#[trigger] chars@[k]),
            first_parting(chars@) < chars.len() ==> parts_date_from_time(
                chars@[first_parting(chars@)],
            ),
        decreases len - parting,
    {
        parting += 1;
    }
    assert(parting == first_parting(chars@));
    let date = text_between(&chars, 0, parting);
    let start: usize = if parting < len {
        parting + 1
    } else {
        0
    };
    let ghost rest = after_date(chars@);
    assert(rest == chars@.subrange(start as int, len as int));
    proof {
        lemma_last_sign(rest);
    }
    let mut sign: usize = len;
    while sign > start && !(chars[sign - 1] == '+' || chars[sign - 1] == '-')
        invariant
            len == chars.len(),
            start <= sign <= len,
            rest == chars@.subrange(start as int, len as int),
            last_sign(rest) < sign - start,
            -1 <= last_sign(rest) < rest.len(),
            forall|k: int| last_sign(rest) < k < rest.len() ==> !is_sign(#[trigger] rest[k]),
            last_sign(rest) >= 0 ==> is_sign(rest[last_sign(rest)]),
        decreases sign,
    {
        assert(chars@[sign - 1] == rest[sign - 1 - start]);
        sign -= 1;
    }
    if sign > start {
        assert(chars@[sign - 1] == rest[sign - 1 - start]);
        assert(last_sign(rest) == sign - 1 - start);
        let time = text_between(&chars, start, sign - 1);
        let zone = text_between(&chars, sign - 1, len);
        assert(time@ == rest.take(last_sign(rest)));
        assert(zone@ == rest.skip(last_sign(rest)));
        DateTexts { date, time, zone }
    } else {
        assert(last_sign(rest) == -1);
        let time = text_between(&chars, start, len);
        let zone = text_between(&chars, start, len);
        DateTexts { date, time, zone }
    }
}

/// What an entry was found to hold, and what the caller can fill in.
#[derive(Clone, Copy, Debug, PartialEq, Eq, Structural)]
pub struct DateFindings {
    /// A date was found in the entry.
    pub has_date: bool,
    /// A time was found in the entry.
    pub has_time: bool,
    /// The caller has a time to use where the entry names none.
    pub default_time: bool,
    /// The caller has a date to use where the entry names none.
    pub default_date: bool,
}

/// How the moment that an entry names is put together.
#[derive(Clone, Copy, Debug, PartialEq, Eq, Structural)]
pub enum DateSource {
    /// From the date of the entry and the caller's time.
    DateAtDefaultTime,
    /// From the time of the entry and the caller's date.
    TimeOnDefaultDate,
    /// From the date and the time of the entry.
    DateAndTime,
}

/// Why the moment that an entry names cannot be put together.
#[derive(Clone, Copy, Debug, PartialEq, Eq, Structural)]
pub enum DateError {
    /// The entry names no time and the caller has none to use.
    TimeRequired,
    /// The entry names no date and the caller has none to use.
    DateRequired,
}

impl DateError {
    /// The words in which the error is told to the user.
    pub open spec fn text(self) -> Seq<char> {
        match self {
            DateError::TimeRequired => "Only date passed, but time is required!"@,
            DateError::DateRequired => "Only time passed, but date is required!"@,
        }
    }

    /// The words in which the error is told to the user.
    pub fn message(&self) -> (text: &str)
        ensures
            text@ == self.text(),
    {
        match self {
            DateError::TimeRequired => "Only date passed, but time is required!",
            DateError::DateRequired => "Only time passed, but date is required!",
        }
    }
}

impl DateFindings {
    /// How the moment is put together. An entry without a time takes the
    /// caller's time, an entry with a time but without a date takes the
    /// caller's date, and an entry with both stands for itself; where the
    /// caller has nothing to fill the gap with, the entry is refused.
    pub open spec fn source(self) -> Result<DateSource, DateError> {
        if !self.has_time {
            if self.default_time {
                Ok(DateSource::DateAtDefaultTime)
            } else {
                Err(DateError::TimeRequired)
            }
        } else if !self.has_date {
            if self.default_date {
                Ok(DateSource::TimeOnDefaultDate)
            } else {
                Err(DateError::DateRequired)
            }
        } else {
            Ok(DateSource::DateAndTime)
        }
    }

    /// Decides how the moment that an entry names is put together.
    pub fn plan(&self) -> (source: Result<DateSource, DateError>)
        ensures
            source == self.source(),
    {
        if !self.has_time {
            if self.default_time {
                Ok(DateSource::DateAtDefaultTime)
            } else {
                Err(DateError::TimeRequired)
            }
        } else if !self.has_date {
            if self.default_date {
                Ok(DateSource::TimeOnDefaultDate)
            } else {
                Err(DateError::DateRequired)
            }
        } else {
            Ok(DateSource::DateAndTime)
        }
    }
}

} // verus!
