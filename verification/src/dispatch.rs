//! From a message to what is to be delivered in answer to it.

use vstd::prelude::*;
use crate::reaction::{is_reaction, names_reaction};
use crate::response::{ResolveError, Response, ResponseView};
use crate::table::{response_views, ResponseTable, RuleView, TableView};
use crate::tokenizer::{as_words, message_words, tokenize};

verus! {

/// What is to be delivered in answer to a message.
#[derive(Debug, PartialEq, Eq)]
pub enum Delivery {
    /// Reply to the message with this text.
    Reply(String),
    /// React to the message with this emoji.
    Reaction(String),
    /// Deliver nothing.
    Nothing,
}

/// The mathematical value of a [`Delivery`].
pub enum DeliveryView {
    Reply(Seq<char>),
    Reaction(Seq<char>),
    Nothing,
}

impl View for Delivery {
    type V = DeliveryView;

    open spec fn view(&self) -> DeliveryView {
        match self {
            Delivery::Reply(text) => DeliveryView::Reply(text@),
            Delivery::Reaction(emoji) => DeliveryView::Reaction(emoji@),
            Delivery::Nothing => DeliveryView::Nothing,
        }
    }
}

impl Clone for Delivery {
    fn clone(&self) -> (copy: Self)
        ensures
            copy@ == self@,
    {
        match self {
            Delivery::Reply(text) => Delivery::Reply(text.clone()),
            Delivery::Reaction(emoji) => Delivery::Reaction(emoji.clone()),
            Delivery::Nothing => Delivery::Nothing,
        }
    }
}

/// How handling one response ended: with something to deliver, or with the
/// reason why nothing can be.
pub type Outcome = Result<Delivery, ResolveError>;

/// The mathematical value of an [`Outcome`].
pub open spec fn outcome_view(outcome: Outcome) -> Result<DeliveryView, ResolveError> {
    match outcome {
        Ok(delivery) => Ok(delivery@),
        Err(error) => Err(error),
    }
}

impl DeliveryView {
    /// The settled response that asks for this delivery.
    pub open spec fn response(self) -> ResponseView {
        match self {
            DeliveryView::Reply(text) => ResponseView::Reply(text),
            DeliveryView::Reaction(emoji) => ResponseView::Reaction(emoji),
            DeliveryView::Nothing => ResponseView::NoResponse,
        }
    }
}

impl ResponseView {
    /// What a resolved response asks to deliver. A reaction is delivered
    /// only if its text names an emoji, and a response that still leaves
    /// its answer to chance asks for nothing that can be delivered.
    pub open spec fn delivery(self) -> Result<DeliveryView, ResolveError> {
        match self {
            ResponseView::Reply(text) => Ok(DeliveryView::Reply(text)),
            ResponseView::Reaction(emoji) => if names_reaction(emoji) {
                Ok(DeliveryView::Reaction(emoji))
            } else {
                Err(ResolveError::MalformedReaction)
            },
            ResponseView::NoResponse => Ok(DeliveryView::Nothing),
            ResponseView::RandomChance(_) => Err(ResolveError::StillRandom),
        }
    }

    /// Whether handling this response ends in a delivery whatever is
    /// drawn: it always resolves, and to nothing that is refused.
    pub open spec fn always_delivers(self) -> bool {
        &&& self.always_resolves()
        &&& forall|settled: ResponseView| #[trigger]
            self.may_resolve_to(settled) ==> settled.delivery() is Ok
    }

    /// Whether handling this response ends in an error whatever is drawn:
    /// whatever it may resolve to is refused.
    pub open spec fn never_delivers(self) -> bool {
        forall|settled: ResponseView| #[trigger]
            self.may_resolve_to(settled) ==> settled.delivery() is Err
    }

    /// Whether handling this response can end in `outcome`: in the
    /// delivery of something that it can resolve to, in the refusal of a
    /// reaction that it can resolve to, or in a failure that its resolution
    /// can meet.
    pub open spec fn may_end_in(self, outcome: Result<DeliveryView, ResolveError>) -> bool {
        match outcome {
            Ok(delivery) => {
                &&& self.may_resolve_to(delivery.response())
                &&& delivery.response().delivery() == outcome
            },
            Err(ResolveError::Weights(fault)) => self.may_fail_with(fault),
            Err(ResolveError::MalformedReaction) => exists|emoji: Seq<char>| #[trigger]
                self.may_resolve_to(ResponseView::Reaction(emoji)) && !names_reaction(emoji),
            Err(ResolveError::StillRandom) => false,
        }
    }
}

/// Whether `plan` answers `responses` one for one: it has an outcome for
/// every response, in the same order, and each outcome is one that handling
/// its own response can end in, whatever becomes of the others.
pub open spec fn is_plan_for(
    plan: Seq<Result<DeliveryView, ResolveError>>,
    responses: Seq<ResponseView>,
) -> bool {
    &&& plan.len() == responses.len()
    &&& forall|i: int| 0 <= i < responses.len() ==> (#[trigger] responses[i]).may_end_in(plan[i])
}

/// The values of a list of outcomes, in their order.
pub open spec fn outcome_views(plan: Seq<Outcome>) -> Seq<Result<DeliveryView, ResolveError>> {
    plan.map_values(|outcome: Outcome| outcome_view(outcome))
}

/// What a resolved response asks to deliver.
///
/// A reaction whose text names no emoji is refused with an error.
/// Resolution never hands on a `RandomChance`; should one arrive all the
/// same, it is refused with an error and nothing is delivered.
pub fn delivery_of(resolved: &Response) -> (outcome: Outcome)
    ensures
        outcome_view(outcome) == resolved@.delivery(),
{
    match resolved {
        Response::Reply(text) => Ok(Delivery::Reply(text.clone())),
        Response::Reaction(emoji) => {
            if is_reaction(emoji.as_str()) {
                Ok(Delivery::Reaction(emoji.clone()))
            } else {
                Err(ResolveError::MalformedReaction)
            }
        },
        Response::NoResponse => Ok(Delivery::Nothing),
        Response::RandomChance(_) => {
            proof {
                resolved.lemma_view_of_entries();
            }
            Err(ResolveError::StillRandom)
        },
    }
}

/// Handles one response: resolves it and says what is to be delivered, or
/// why nothing can be.
pub fn handle_response(response: &Response) -> (outcome: Outcome)
    ensures
        response@.may_end_in(outcome_view(outcome)),
        response@.is_settled() ==> outcome_view(outcome) == response@.delivery(),
        response@.always_delivers() ==> outcome is Ok,
        response@.never_delivers() ==> outcome is Err,
{
    match response.flatten() {
        Ok(settled) => {
            let outcome = delivery_of(settled);
            proof {
                match outcome_view(outcome) {
                    Ok(delivery) => {
                        assert(delivery.response() == settled@);
                    },
                    Err(_) => {
                        assert(settled@ is Reaction);
                        assert(response@.may_resolve_to(
                            ResponseView::Reaction(settled@->Reaction_0),
                        ));
                    },
                }
            }
            outcome
        },
        Err(error) => Err(error),
    }
}

/// Handles the responses that a message called for, each on its own and in
/// their order. A response that cannot be resolved leaves an error in its
/// place and takes nothing from those before or after it.
pub fn handle_responses(responses: &Vec<Response>) -> (plan: Vec<Outcome>)
    ensures
        is_plan_for(outcome_views(plan@), response_views(responses@)),
{
    let mut plan: Vec<Outcome> = Vec::new();
    let mut i: usize = 0;
    while i < responses.len()
        invariant
            i <= responses.len(),
            plan.len() == i,
            forall|k: int|
                0 <= k < i ==> (#[trigger] responses[k])@.may_end_in(outcome_view(plan[k])),
        decreases responses.len() - i,
    {
        let outcome = handle_response(&responses[i]);
        plan.push(outcome);
        i += 1;
    }
    proof {
        let outcomes = outcome_views(plan@);
        let called = response_views(responses@);
        assert forall|k: int| 0 <= k < called.len() implies (#[trigger] called[k]).may_end_in(
            outcomes[k],
        ) by {
            assert(responses[k]@.may_end_in(outcome_view(plan[k])));
        }
    }
    plan
}

/// The table that answers for a message: the guild's own table where it
/// has one, the default table otherwise.
pub open spec fn table_for(guild_table: Option<TableView>, default_table: TableView) -> TableView {
    match guild_table {
        Some(table) => table,
        None => default_table,
    }
}

/// Picks what answers for a message: the guild's own where the message
/// comes from a guild that has one, the default otherwise. What a guild has
/// of its own stands in for the default altogether, and the default is not
/// looked at. The choice is the same for tables in any form, stored or
/// ready for use.
pub fn select_table<T>(guild_table: Option<T>, default_table: T) -> (chosen: T)
    ensures
        chosen == match guild_table {
            Some(table) => table,
            None => default_table,
        },
{
    match guild_table {
        Some(table) => table,
        None => default_table,
    }
}

/// The value of an optional table.
pub open spec fn optional_table_view(table: Option<&ResponseTable>) -> Option<TableView> {
    match table {
        Some(table) => Some(table@),
        None => None,
    }
}

/// The responses that a message calls for: those that the table that
/// answers for it gives for the words of the message.
pub open spec fn responses_called(
    text: Seq<char>,
    guild_table: Option<TableView>,
    default_table: TableView,
) -> Seq<ResponseView> {
    table_for(guild_table, default_table).process(message_words(text))
}

/// What a message called for and how handling it ended: the responses in
/// the order in which the table gave them, and for each its outcome.
#[derive(Debug, PartialEq, Eq)]
pub struct Handled {
    /// The responses that the message called for, unresolved.
    pub responses: Vec<Response>,
    /// How handling each response ended, in the same order.
    pub outcomes: Vec<Outcome>,
}

/// Answers a message from the table that answers for it: cuts the text
/// into words, asks the table which responses the words call for, and
/// handles each. The outcomes come in the order in which they are to be
/// delivered.
pub fn answer(text: &str, table: &ResponseTable) -> (handled: Handled)
    ensures
        response_views(handled.responses@) == table@.process(message_words(text@)),
        is_plan_for(outcome_views(handled.outcomes@), response_views(handled.responses@)),
{
    let tokens = tokenize(text);
    let words = as_words(&tokens);
    let responses = table.process(&words);
    let outcomes = handle_responses(&responses);
    Handled { responses, outcomes }
}

/// Answers a message: picks the table that answers for it and answers
/// from that table.
///
/// `guild_table` is the table of the guild that the message came from, if
/// it came from a guild and that guild has a table of its own. The outcomes
/// come in the order in which they are to be delivered.
pub fn process(
    text: &str,
    guild_table: Option<&ResponseTable>,
    default_table: &ResponseTable,
) -> (handled: Handled)
    ensures
        response_views(handled.responses@) == responses_called(
            text@,
            optional_table_view(guild_table),
            default_table@,
        ),
        is_plan_for(outcome_views(handled.outcomes@), response_views(handled.responses@)),
{
    let table = select_table(guild_table, default_table);
    answer(text, table)
}

/// An outcome in a plan goes by its own response alone: where the response
/// is settled the outcome is what the response asks to deliver, where it
/// always delivers the outcome is a delivery, and where it never resolves
/// or never delivers the outcome is an error, whatever the other responses
/// are and however they end.
pub proof fn lemma_outcomes_stand_alone(
    plan: Seq<Result<DeliveryView, ResolveError>>,
    responses: Seq<ResponseView>,
    i: int,
)
    requires
        is_plan_for(plan, responses),
        0 <= i < responses.len(),
    ensures
        responses[i].is_settled() ==> plan[i] == responses[i].delivery(),
        responses[i].always_delivers() ==> plan[i] is Ok,
        responses[i].never_resolves() ==> plan[i] is Err,
        responses[i].never_delivers() ==> plan[i] is Err,
{
    let response = responses[i];
    assert(response.may_end_in(plan[i]));
    match plan[i] {
        Ok(delivery) => {
            if response.never_resolves() {
                response.lemma_never_resolves_cannot_succeed(delivery.response());
            }
        },
        Err(ResolveError::Weights(fault)) => {
            if response.always_resolves() {
                response.lemma_always_resolves_cannot_fail(fault);
            }
        },
        Err(ResolveError::MalformedReaction) => {
            let emoji = choose|emoji: Seq<char>| #[trigger]
                response.may_resolve_to(ResponseView::Reaction(emoji)) && !names_reaction(emoji);
            assert(ResponseView::Reaction(emoji).delivery() is Err);
        },
        Err(ResolveError::StillRandom) => {},
    }
}

/// A table none of whose rules fires on a message calls for nothing.
pub proof fn lemma_silent_table_calls_for_nothing(table: TableView, words: Seq<Seq<char>>)
    requires
        forall|i: int| 0 <= i < table.entries.len() ==> !(#[trigger] table.entries[i]).fires(words),
    ensures
        table.process(words) == Seq::<ResponseView>::empty(),
{
    let fires = |rule: RuleView| rule.fires(words);
    table.entries.lemma_all_neg_filter_empty(fires);
}

/// A guild's table stands in for the default table altogether: what a
/// message calls for is what the guild's table gives, whatever the default
/// table holds. Where no rule of the guild's table fires, nothing is called
/// for and nothing is delivered, even if the default table would have
/// answered.
pub proof fn lemma_guild_table_replaces_default(
    text: Seq<char>,
    guild_table: TableView,
    default_table: TableView,
)
    ensures
        responses_called(text, Some(guild_table), default_table) == guild_table.process(
            message_words(text),
        ),
        (forall|i: int|
            0 <= i < guild_table.entries.len() ==> !(#[trigger] guild_table.entries[i]).fires(
                message_words(text),
            )) ==> {
            &&& responses_called(text, Some(guild_table), default_table)
                == Seq::<ResponseView>::empty()
            &&& forall|plan: Seq<Result<DeliveryView, ResolveError>>| #[trigger]
                is_plan_for(plan, responses_called(text, Some(guild_table), default_table))
                    ==> plan.len() == 0
        },
{
    if forall|i: int|
        0 <= i < guild_table.entries.len() ==> !(#[trigger] guild_table.entries[i]).fires(
            message_words(text),
        ) {
        lemma_silent_table_calls_for_nothing(guild_table, message_words(text));
    }
}

} // verus!
