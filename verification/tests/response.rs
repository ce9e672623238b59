use jouch::chance::WeightError;
use jouch::response::{ResolveError, Response};

fn reply(text: &str) -> Response {
    Response::Reply(text.to_string())
}

#[test]
fn flatten_leaves_a_reply_as_it_is() {
    let response = reply("hi");
    assert_eq!(response.flatten(), Ok(&reply("hi")));
}

#[test]
fn flatten_leaves_a_reaction_as_it_is() {
    let response = Response::Reaction(":bythepope:".to_string());
    assert_eq!(response.flatten(), Ok(&Response::Reaction(":bythepope:".to_string())));
}

#[test]
fn flatten_leaves_no_response_as_it_is() {
    assert_eq!(Response::NoResponse.flatten(), Ok(&Response::NoResponse));
}

#[test]
fn flatten_of_no_entries_is_an_error() {
    let response = Response::RandomChance(Vec::new());
    assert_eq!(response.flatten(), Err(ResolveError::Weights(WeightError::InvalidInput)));
}

#[test]
fn flatten_of_zero_weights_is_an_error() {
    let response = Response::RandomChance(vec![(0, reply("x"))]);
    assert_eq!(
        response.flatten(),
        Err(ResolveError::Weights(WeightError::InsufficientNonZero))
    );
    let response = Response::RandomChance(vec![(0, reply("x")), (0, Response::NoResponse)]);
    assert_eq!(
        response.flatten(),
        Err(ResolveError::Weights(WeightError::InsufficientNonZero))
    );
}

#[test]
fn flatten_draws_from_weights_whose_sum_is_above_64_bits() {
    let response = Response::RandomChance(vec![(u64::MAX, reply("a")), (1, reply("b"))]);
    for _ in 0..200 {
        let resolved = response.flatten();
        assert!(resolved == Ok(&reply("a")) || resolved == Ok(&reply("b")));
    }
    let response = Response::RandomChance(vec![
        (u64::MAX, reply("x")),
        (u64::MAX, reply("x")),
        (u64::MAX, reply("x")),
    ]);
    assert_eq!(response.flatten(), Ok(&reply("x")));
}

#[test]
fn flatten_draws_both_of_two_huge_weights() {
    let response = Response::RandomChance(vec![(u64::MAX, reply("a")), (u64::MAX, reply("b"))]);
    let mut first = 0;
    let draws = 2000;
    for _ in 0..draws {
        if response.flatten() == Ok(&reply("a")) {
            first += 1;
        }
    }
    assert!(first > draws * 40 / 100 && first < draws * 60 / 100);
}

#[test]
fn flatten_of_one_entry_gives_that_entry() {
    let response = Response::RandomChance(vec![(3, reply("only"))]);
    for _ in 0..100 {
        assert_eq!(response.flatten(), Ok(&reply("only")));
    }
}

#[test]
fn flatten_never_picks_a_zero_weight() {
    let response = Response::RandomChance(vec![
        (0, reply("never")),
        (1, reply("always")),
        (0, Response::NoResponse),
    ]);
    for _ in 0..2000 {
        assert_eq!(response.flatten(), Ok(&reply("always")));
    }
}

#[test]
fn flatten_follows_nested_chances() {
    let response = Response::RandomChance(vec![(
        2,
        Response::RandomChance(vec![
            (0, Response::NoResponse),
            (5, Response::RandomChance(vec![(1, reply("deep"))])),
        ]),
    )]);
    for _ in 0..100 {
        assert_eq!(response.flatten(), Ok(&reply("deep")));
    }
}

#[test]
fn flatten_fails_on_a_nested_chance_with_nothing_to_draw() {
    let response = Response::RandomChance(vec![(1, Response::RandomChance(Vec::new()))]);
    assert_eq!(response.flatten(), Err(ResolveError::Weights(WeightError::InvalidInput)));
}

#[test]
fn flatten_does_not_look_at_entries_it_cannot_draw() {
    let response = Response::RandomChance(vec![
        (0, Response::RandomChance(Vec::new())),
        (1, reply("fine")),
    ]);
    for _ in 0..200 {
        assert_eq!(response.flatten(), Ok(&reply("fine")));
    }
}

#[test]
fn flatten_gives_only_listed_outcomes() {
    let response = Response::RandomChance(vec![
        (1, reply("a")),
        (1, Response::RandomChance(Vec::new())),
        (1, Response::NoResponse),
    ]);
    let mut seen = [false; 3];
    for _ in 0..2000 {
        match response.flatten() {
            Ok(Response::Reply(text)) => {
                assert_eq!(text, "a");
                seen[0] = true;
            }
            Err(error) => {
                assert_eq!(error, ResolveError::Weights(WeightError::InvalidInput));
                seen[1] = true;
            }
            Ok(Response::NoResponse) => seen[2] = true,
            Ok(other) => panic!("not an outcome: {:?}", other),
        }
    }
    assert_eq!(seen, [true, true, true]);
}

#[test]
fn even_chances_come_out_about_evenly() {
    let response = Response::RandomChance(vec![(1, Response::NoResponse), (1, reply("hi"))]);
    let draws = 20_000;
    let mut silent = 0;
    let mut replies = 0;
    for _ in 0..draws {
        match response.flatten() {
            Ok(Response::NoResponse) => silent += 1,
            Ok(Response::Reply(text)) => {
                assert_eq!(text, "hi");
                replies += 1;
            }
            other => panic!("not an outcome: {:?}", other),
        }
    }
    assert_eq!(silent + replies, draws);
    // Five standard deviations are about 3.5% of 10,000 at this number of draws.
    assert!(silent > draws * 45 / 100 && silent < draws * 55 / 100);
    assert!(replies > draws * 45 / 100 && replies < draws * 55 / 100);
}

#[test]
fn chances_follow_the_weights() {
    let response = Response::RandomChance(vec![(3, reply("often")), (1, reply("seldom"))]);
    let draws = 20_000;
    let mut often = 0;
    for _ in 0..draws {
        if response.flatten() == Ok(&reply("often")) {
            often += 1;
        }
    }
    assert!(often > draws * 70 / 100 && often < draws * 80 / 100);
}

#[test]
fn response_clone_is_equal() {
    let response = Response::RandomChance(vec![
        (1, reply("a")),
        (2, Response::RandomChance(vec![(3, Response::Reaction("b".to_string()))])),
        (0, Response::NoResponse),
    ]);
    assert_eq!(response.clone(), response);
}

fn nested() -> Response {
    Response::RandomChance(vec![
        (1, reply("first")),
        (0, reply("never")),
        (
            3,
            Response::RandomChance(vec![
                (2, Response::NoResponse),
                (5, Response::RandomChance(vec![(1, reply("deep"))])),
                (1, Response::RandomChance(Vec::new())),
                (1, Response::RandomChance(vec![(0, reply("x")), (0, reply("y"))])),
            ]),
        ),
    ])
}

#[test]
fn resolve_along_follows_the_places() {
    let response = nested();
    assert_eq!(response.resolve_along(&vec![0]), Ok(&reply("first")));
    assert_eq!(response.resolve_along(&vec![2, 0]), Ok(&Response::NoResponse));
    assert_eq!(response.resolve_along(&vec![2, 1, 0]), Ok(&reply("deep")));
}

#[test]
fn resolve_along_leaves_a_settled_response_as_it_is() {
    assert_eq!(reply("hi").resolve_along(&Vec::new()), Ok(&reply("hi")));
    assert_eq!(reply("hi").resolve_along(&vec![3, 1]), Ok(&reply("hi")));
    assert_eq!(nested().resolve_along(&vec![0, 7, 7]), Ok(&reply("first")));
}

#[test]
fn resolve_along_reports_weights_that_cannot_be_drawn_from() {
    let response = nested();
    assert_eq!(
        response.resolve_along(&vec![2, 2]),
        Err(ResolveError::Weights(WeightError::InvalidInput))
    );
    assert_eq!(
        response.resolve_along(&vec![2, 3, 0]),
        Err(ResolveError::Weights(WeightError::InsufficientNonZero))
    );
    assert_eq!(
        Response::RandomChance(Vec::new()).resolve_along(&vec![0]),
        Err(ResolveError::Weights(WeightError::InvalidInput))
    );
}

#[test]
fn resolve_along_stops_where_the_places_do_not_lead_on() {
    let response = nested();
    // The places run out.
    assert_eq!(response.resolve_along(&Vec::new()), Err(ResolveError::StillRandom));
    assert_eq!(response.resolve_along(&vec![2]), Err(ResolveError::StillRandom));
    assert_eq!(response.resolve_along(&vec![2, 1]), Err(ResolveError::StillRandom));
    // A place with the weight zero, and a place past the end of the list.
    assert_eq!(response.resolve_along(&vec![1]), Err(ResolveError::StillRandom));
    assert_eq!(response.resolve_along(&vec![3]), Err(ResolveError::StillRandom));
    assert_eq!(response.resolve_along(&vec![usize::MAX]), Err(ResolveError::StillRandom));
    assert_eq!(response.resolve_along(&vec![2, 1, 1]), Err(ResolveError::StillRandom));
}

#[test]
fn flatten_gives_what_some_places_give() {
    let response = Response::RandomChance(vec![
        (1, reply("a")),
        (1, Response::RandomChance(vec![(1, reply("b")), (1, Response::NoResponse)])),
    ]);
    let along: Vec<Result<&Response, ResolveError>> = vec![
        response.resolve_along(&vec![0]),
        response.resolve_along(&vec![1, 0]),
        response.resolve_along(&vec![1, 1]),
    ];
    for _ in 0..500 {
        assert!(along.contains(&response.flatten()));
    }
}
