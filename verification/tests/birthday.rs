use jouch::birthday::{
    birthday_announcement, birthday_date_check, get_bot_birthday, get_jesus_birthday,
    is_announced, is_bot_birthday, is_jesus_birthday, should_announce, split_date_text,
    BirthdayPrivacy, CalendarDay, DateError, DateFindings, DateSource, DateTexts,
    DEFAULT_OFFSET_WEST,
};

fn day(year: i32, month: u32, day: u32) -> CalendarDay {
    CalendarDay { year, month, day }
}

fn texts(date: &str, time: &str, zone: &str) -> DateTexts {
    DateTexts { date: date.to_string(), time: time.to_string(), zone: zone.to_string() }
}

#[test]
fn date_format_of_each_setting() {
    assert_eq!(BirthdayPrivacy::PublicFull.date_format(), "%F");
    assert_eq!(BirthdayPrivacy::PublicDay.date_format(), "%m-%d");
    assert_eq!(BirthdayPrivacy::Private.date_format(), "private");
}

#[test]
fn known_birthdays() {
    assert_eq!(get_bot_birthday(), day(2021, 7, 31));
    assert_eq!(get_jesus_birthday(), day(0, 12, 25));
}

#[test]
fn birthday_is_celebrated_on_its_day_of_the_year() {
    let born = Some(day(1990, 1, 30));
    assert!(birthday_date_check(day(2024, 1, 30), born, None));
    assert!(birthday_date_check(day(2024, 1, 30), born, Some(BirthdayPrivacy::PublicFull)));
    assert!(birthday_date_check(day(2024, 1, 30), born, Some(BirthdayPrivacy::PublicDay)));
    assert!(!birthday_date_check(day(2024, 1, 31), born, None));
    assert!(!birthday_date_check(day(2024, 2, 30), born, None));
}

#[test]
fn private_birthday_is_not_celebrated() {
    let born = Some(day(1990, 1, 30));
    assert!(!birthday_date_check(day(2024, 1, 30), born, Some(BirthdayPrivacy::Private)));
}

#[test]
fn unknown_birthday_is_not_celebrated() {
    assert!(!birthday_date_check(day(2024, 1, 30), None, None));
    assert!(!birthday_date_check(day(2024, 1, 30), None, Some(BirthdayPrivacy::PublicFull)));
}

#[test]
fn bot_and_jesus_birthdays() {
    assert!(is_bot_birthday(day(2030, 7, 31)));
    assert!(!is_bot_birthday(day(2021, 7, 30)));
    assert!(!is_bot_birthday(day(2021, 12, 31)));
    assert!(is_jesus_birthday(day(2030, 12, 25)));
    assert!(!is_jesus_birthday(day(0, 12, 24)));
}

#[test]
fn only_private_birthdays_are_not_announced() {
    assert!(is_announced(None));
    assert!(is_announced(Some(BirthdayPrivacy::PublicFull)));
    assert!(is_announced(Some(BirthdayPrivacy::PublicDay)));
    assert!(!is_announced(Some(BirthdayPrivacy::Private)));
}

#[test]
fn announcement_names_those_who_celebrate() {
    let names = vec!["<@1>".to_string(), "<@2>".to_string(), "Jesus".to_string()];
    assert_eq!(
        birthday_announcement(&names),
        "Birthdays today: <@1>, <@2>, Jesus\nHappy Birthday!"
    );
    assert_eq!(
        birthday_announcement(&vec!["<@1>".to_string()]),
        "Birthdays today: <@1>\nHappy Birthday!"
    );
}

#[test]
fn announcement_of_a_day_without_birthdays() {
    assert_eq!(birthday_announcement(&Vec::new()), "Birthdays today: None");
}

#[test]
fn announcement_is_sent_when_somebody_celebrates() {
    let text = birthday_announcement(&vec!["<@1>".to_string()]);
    assert!(should_announce(None, &text));
    assert!(should_announce(Some(false), &text));
    assert!(should_announce(Some(true), &text));
}

#[test]
fn announcement_of_nobody_is_sent_only_on_request() {
    let text = birthday_announcement(&Vec::new());
    assert!(!should_announce(None, &text));
    assert!(!should_announce(Some(false), &text));
    assert!(should_announce(Some(true), &text));
}

#[test]
fn default_offset_is_six_hours_west() {
    assert_eq!(DEFAULT_OFFSET_WEST, 6 * 3600);
}

#[test]
fn split_date_and_time_at_the_blank() {
    assert_eq!(split_date_text("1990-01-30 12:30pm"), texts("1990-01-30", "12:30pm", "12:30pm"));
}

#[test]
fn split_date_and_time_at_the_t() {
    assert_eq!(
        split_date_text("2021-07-31T15:00-0500"),
        texts("2021-07-31", "15:00", "-0500")
    );
    assert_eq!(
        split_date_text("01/30/1990 8AM+05:30"),
        texts("01/30/1990", "8AM", "+05:30")
    );
}

#[test]
fn split_takes_the_first_parting_and_the_last_sign() {
    assert_eq!(split_date_text("a b T+c-d"), texts("a", "b T+c", "-d"));
    assert_eq!(split_date_text("TT"), texts("", "T", "T"));
    assert_eq!(split_date_text(" "), texts("", "", ""));
    assert_eq!(split_date_text("x -"), texts("x", "", "-"));
    assert_eq!(split_date_text("x +5"), texts("x", "", "+5"));
}

#[test]
fn split_of_a_date_alone_looks_through_all_of_it() {
    // Without a blank or a T the whole entry is looked through for the
    // date and for the rest, and the last hyphen of the date counts as a
    // sign.
    assert_eq!(split_date_text("1990-01-30"), texts("1990-01-30", "1990-01", "-30"));
    assert_eq!(split_date_text("01/30/1990"), texts("01/30/1990", "01/30/1990", "01/30/1990"));
    assert_eq!(split_date_text("12:30"), texts("12:30", "12:30", "12:30"));
    assert_eq!(split_date_text(""), texts("", "", ""));
}

#[test]
fn split_keeps_characters_beyond_ascii() {
    assert_eq!(
        split_date_text("\u{e9}t\u{e9} \u{3c9}+\u{4e2d}"),
        texts("\u{e9}t\u{e9}", "\u{3c9}", "+\u{4e2d}")
    );
}

#[test]
fn plan_of_a_whole_entry() {
    for default_time in [false, true] {
        for default_date in [false, true] {
            let findings = DateFindings { has_date: true, has_time: true, default_time, default_date };
            assert_eq!(findings.plan(), Ok(DateSource::DateAndTime));
        }
    }
}

#[test]
fn plan_of_an_entry_without_time() {
    for has_date in [false, true] {
        for default_date in [false, true] {
            let findings = DateFindings { has_date, has_time: false, default_time: true, default_date };
            assert_eq!(findings.plan(), Ok(DateSource::DateAtDefaultTime));
            let findings = DateFindings { has_date, has_time: false, default_time: false, default_date };
            assert_eq!(findings.plan(), Err(DateError::TimeRequired));
        }
    }
}

#[test]
fn plan_of_an_entry_without_date() {
    for default_time in [false, true] {
        let findings = DateFindings { has_date: false, has_time: true, default_time, default_date: true };
        assert_eq!(findings.plan(), Ok(DateSource::TimeOnDefaultDate));
        let findings = DateFindings { has_date: false, has_time: true, default_time, default_date: false };
        assert_eq!(findings.plan(), Err(DateError::DateRequired));
    }
}

#[test]
fn date_error_messages() {
    assert_eq!(DateError::TimeRequired.message(), "Only date passed, but time is required!");
    assert_eq!(DateError::DateRequired.message(), "Only time passed, but date is required!");
}
