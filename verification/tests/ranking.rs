use jouch::ranking::{ranking_text, RankSortBy};

#[test]
fn ranking_text_lists_sits_then_flips() {
    assert_eq!(
        ranking_text(12, 3),
        Some("Times on The Jouch: 12\nFlips of The Jouch: 3\n".to_string())
    );
}

#[test]
fn ranking_text_leaves_out_a_counter_that_is_not_positive() {
    assert_eq!(ranking_text(1, 0), Some("Times on The Jouch: 1\n".to_string()));
    assert_eq!(ranking_text(0, 250), Some("Flips of The Jouch: 250\n".to_string()));
    assert_eq!(ranking_text(-4, 2), Some("Flips of The Jouch: 2\n".to_string()));
    assert_eq!(ranking_text(i32::MAX, -1), Some("Times on The Jouch: 2147483647\n".to_string()));
}

#[test]
fn ranking_text_does_not_list_a_user_without_counters() {
    assert_eq!(ranking_text(0, 0), None);
    assert_eq!(ranking_text(-1, 0), None);
    assert_eq!(ranking_text(i32::MIN, i32::MIN), None);
}

#[test]
fn sort_choice_zero_and_one() {
    assert_eq!(RankSortBy::from_choice(0), Some(RankSortBy::Sits));
    assert_eq!(RankSortBy::from_choice(1), Some(RankSortBy::Flips));
}

#[test]
fn sort_choice_goes_by_the_low_byte() {
    assert_eq!(RankSortBy::from_choice(2), None);
    assert_eq!(RankSortBy::from_choice(255), None);
    assert_eq!(RankSortBy::from_choice(-1), None);
    assert_eq!(RankSortBy::from_choice(256), Some(RankSortBy::Sits));
    assert_eq!(RankSortBy::from_choice(257), Some(RankSortBy::Flips));
    assert_eq!(RankSortBy::from_choice(-255), Some(RankSortBy::Flips));
    assert_eq!(RankSortBy::from_choice(i64::MIN), Some(RankSortBy::Sits));
}

#[test]
fn order_clause_of_each_order() {
    assert_eq!(
        RankSortBy::Sits.order_clause(),
        "ORDER BY sit_count DESC, flip_count DESC LIMIT 10"
    );
    assert_eq!(
        RankSortBy::Flips.order_clause(),
        "ORDER BY flip_count DESC, sit_count DESC LIMIT 10"
    );
}

#[test]
fn sort_choice_numbers_read_back() {
    assert_eq!(RankSortBy::Sits.choice(), 0);
    assert_eq!(RankSortBy::Flips.choice(), 1);
    assert_eq!(RankSortBy::from_choice(RankSortBy::Sits.choice() as i64), Some(RankSortBy::Sits));
    assert_eq!(RankSortBy::from_choice(RankSortBy::Flips.choice() as i64), Some(RankSortBy::Flips));
}
