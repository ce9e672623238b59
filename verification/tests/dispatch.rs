use jouch::chance::WeightError;
use jouch::dispatch::{
    answer, delivery_of, handle_response, handle_responses, process, select_table, Delivery,
    Handled, Outcome,
};
use jouch::response::{ResolveError, Response};
use jouch::table::{ResponseData, ResponseTable};
use jouch::trigger::Trigger;

fn reply(text: &str) -> Response {
    Response::Reply(text.to_string())
}

fn outcomes(text: &str, guild: Option<&ResponseTable>, default: &ResponseTable) -> Vec<Outcome> {
    process(text, guild, default).outcomes
}

fn table_of(word: &str, responses: Vec<Response>) -> ResponseTable {
    ResponseTable::new(vec![ResponseData {
        triggers: vec![Trigger::FullMatch(word.to_string())],
        responses,
    }])
    .unwrap()
}

#[test]
fn delivery_of_each_settled_response() {
    assert_eq!(delivery_of(&reply("hi")), Ok(Delivery::Reply("hi".to_string())));
    assert_eq!(
        delivery_of(&Response::Reaction(":jouch:".to_string())),
        Ok(Delivery::Reaction(":jouch:".to_string()))
    );
    assert_eq!(delivery_of(&Response::NoResponse), Ok(Delivery::Nothing));
}

#[test]
fn delivery_of_a_custom_emoji() {
    for emoji in ["<:bythepope:881212318707482674>", "<a:dance:12345>", "<:x:1>"] {
        assert_eq!(
            delivery_of(&Response::Reaction(emoji.to_string())),
            Ok(Delivery::Reaction(emoji.to_string()))
        );
    }
}

#[test]
fn delivery_of_a_text_that_does_not_begin_a_custom_emoji() {
    for emoji in ["\u{1f34e}", ":bythepope:", "x>", "a<b"] {
        assert_eq!(
            delivery_of(&Response::Reaction(emoji.to_string())),
            Ok(Delivery::Reaction(emoji.to_string()))
        );
    }
}

#[test]
fn delivery_of_a_malformed_reaction_is_an_error() {
    for emoji in ["", "<", "<:bythepope", "<:bythepope:>", "<:x:abc>", "<:x:0>", "<x>"] {
        assert_eq!(
            delivery_of(&Response::Reaction(emoji.to_string())),
            Err(ResolveError::MalformedReaction)
        );
    }
}

#[test]
fn delivery_of_an_unresolved_chance_is_an_error() {
    let chance = Response::RandomChance(vec![(1, reply("hi"))]);
    assert_eq!(delivery_of(&chance), Err(ResolveError::StillRandom));
}

#[test]
fn handle_response_resolves_before_it_delivers() {
    let chance = Response::RandomChance(vec![(0, reply("no")), (4, reply("yes"))]);
    assert_eq!(handle_response(&chance), Ok(Delivery::Reply("yes".to_string())));
    assert_eq!(handle_response(&Response::NoResponse), Ok(Delivery::Nothing));
}

#[test]
fn handle_response_reports_what_is_wrong_with_the_weights() {
    assert_eq!(
        handle_response(&Response::RandomChance(Vec::new())),
        Err(ResolveError::Weights(WeightError::InvalidInput))
    );
    assert_eq!(
        handle_response(&Response::RandomChance(vec![(0, reply("x"))])),
        Err(ResolveError::Weights(WeightError::InsufficientNonZero))
    );
}

#[test]
fn one_failure_does_not_stop_the_others() {
    let responses = vec![
        reply("before"),
        Response::RandomChance(Vec::new()),
        Response::RandomChance(vec![(0, reply("x"))]),
        Response::Reaction("<:broken".to_string()),
        Response::Reaction(":after:".to_string()),
        Response::NoResponse,
    ];
    assert_eq!(
        handle_responses(&responses),
        vec![
            Ok(Delivery::Reply("before".to_string())),
            Err(ResolveError::Weights(WeightError::InvalidInput)),
            Err(ResolveError::Weights(WeightError::InsufficientNonZero)),
            Err(ResolveError::MalformedReaction),
            Ok(Delivery::Reaction(":after:".to_string())),
            Ok(Delivery::Nothing),
        ]
    );
}

#[test]
fn handle_response_refuses_a_malformed_reaction_that_was_drawn() {
    let chance = Response::RandomChance(vec![
        (0, reply("never")),
        (2, Response::Reaction("<:oops".to_string())),
    ]);
    assert_eq!(handle_response(&chance), Err(ResolveError::MalformedReaction));
}

#[test]
fn handle_responses_of_nothing_is_nothing() {
    assert_eq!(handle_responses(&Vec::new()), Vec::new());
}

#[test]
fn select_table_prefers_the_guild_table() {
    let guild = table_of("a", vec![reply("guild")]);
    let default = table_of("a", vec![reply("default")]);
    assert_eq!(select_table(Some(&guild), &default), &guild);
    assert_eq!(select_table(None, &default), &default);
}

#[test]
fn select_table_picks_among_tables_in_any_form() {
    assert_eq!(select_table(Some("guild"), "default"), "guild");
    assert_eq!(select_table(None, "default"), "default");
    assert_eq!(select_table(Some(1u8), 2u8), 1);
}

#[test]
fn answer_asks_the_one_table_it_is_given() {
    let table = table_of("hello", vec![reply("hi"), Response::NoResponse]);
    assert_eq!(
        answer("Hello there", &table),
        Handled {
            responses: vec![reply("hi"), Response::NoResponse],
            outcomes: vec![Ok(Delivery::Reply("hi".to_string())), Ok(Delivery::Nothing)],
        }
    );
    assert_eq!(
        answer("goodbye", &table),
        Handled { responses: Vec::new(), outcomes: Vec::new() }
    );
    assert_eq!(answer("HELLO", &table), process("HELLO", None, &table));
    assert_eq!(
        answer("hello", &table),
        process("hello", Some(&table), &ResponseTable::default())
    );
}

#[test]
fn guild_table_without_a_match_silences_the_default() {
    let guild = table_of("jouch", vec![reply("sit")]);
    let default = ResponseTable::default();
    assert_eq!(
        process("This is HERESY!", Some(&guild), &default),
        Handled { responses: Vec::new(), outcomes: Vec::new() }
    );
    assert_eq!(outcomes("This is HERESY!", None, &default).len(), 2);
}

#[test]
fn guild_table_answers_in_place_of_the_default() {
    let guild = table_of("heresy", vec![reply("guild")]);
    let default = ResponseTable::default();
    assert_eq!(
        process("heresy", Some(&guild), &default),
        Handled {
            responses: vec![reply("guild")],
            outcomes: vec![Ok(Delivery::Reply("guild".to_string()))],
        }
    );
}

#[test]
fn empty_guild_table_silences_the_default() {
    let guild = ResponseTable::new(Vec::new()).unwrap();
    assert_eq!(outcomes("heresy", Some(&guild), &ResponseTable::default()), Vec::new());
}

#[test]
fn process_answers_a_message_from_the_default_table() {
    assert_eq!(
        process("This is HERESY!", None, &ResponseTable::default()),
        Handled {
            responses: vec![
                reply("Heresy has no place on The Jouch"),
                Response::Reaction("<:bythepope:881212318707482674>".to_string()),
            ],
            outcomes: vec![
                Ok(Delivery::Reply("Heresy has no place on The Jouch".to_string())),
                Ok(Delivery::Reaction("<:bythepope:881212318707482674>".to_string())),
            ],
        }
    );
}

#[test]
fn process_is_silent_when_nothing_matches() {
    assert_eq!(outcomes("here we sit", None, &ResponseTable::default()), Vec::new());
    assert_eq!(outcomes("", None, &ResponseTable::default()), Vec::new());
}

#[test]
fn process_keeps_going_after_a_response_that_cannot_be_resolved() {
    let table = table_of(
        "hello",
        vec![Response::RandomChance(Vec::new()), reply("hi"), Response::NoResponse],
    );
    let handled = process("Hello, Jouch", None, &table);
    assert_eq!(
        handled.responses,
        vec![Response::RandomChance(Vec::new()), reply("hi"), Response::NoResponse]
    );
    assert_eq!(
        handled.outcomes,
        vec![
            Err(ResolveError::Weights(WeightError::InvalidInput)),
            Ok(Delivery::Reply("hi".to_string())),
            Ok(Delivery::Nothing),
        ]
    );
}

#[test]
fn process_matches_consecutive_words_of_the_message() {
    let table = ResponseTable::new(vec![ResponseData {
        triggers: vec![Trigger::ConsecutiveWords(vec![
            Trigger::FullMatch("the".to_string()),
            Trigger::FullMatch("jouch".to_string()),
        ])],
        responses: vec![reply("sit")],
    }])
    .unwrap();
    assert_eq!(
        outcomes("I love THE, jouch", None, &table),
        vec![Ok(Delivery::Reply("sit".to_string()))]
    );
    assert_eq!(outcomes("the big jouch", None, &table), Vec::new());
}

#[test]
fn delivery_clone_is_equal() {
    let delivery = Delivery::Reaction(":x:".to_string());
    assert_eq!(delivery.clone(), delivery);
}
