//! Responses, and how a response that leaves its answer to chance is
//! resolved into one that can be delivered.

use vstd::prelude::*;
use crate::chance::{
    has_positive_weight, has_positive_wide_weight, sample_place, thread_rng, weighted_places,
    weights_fault, WeightError,
};

verus! {

/// What a rule answers with when it fires.
#[derive(Debug, PartialEq, Eq)]
pub enum Response {
    /// Reply to the message with this text.
    Reply(String),
    /// React to the message with this emoji.
    Reaction(String),
    /// Pick one of the listed responses, each with a chance in proportion
    /// to its weight, and resolve that one in turn.
    RandomChance(Vec<(u64, Response)>),
    /// Do nothing. Listed in a `RandomChance`, it gives silence a chance.
    NoResponse,
}

/// The mathematical value of a [`Response`].
pub enum ResponseView {
    Reply(Seq<char>),
    Reaction(Seq<char>),
    RandomChance(Seq<(u64, ResponseView)>),
    NoResponse,
}

impl View for Response {
    type V = ResponseView;

    open spec fn view(&self) -> ResponseView
        decreases self,
    {
        match self {
            Response::Reply(text) => ResponseView::Reply(text@),
            Response::Reaction(emoji) => ResponseView::Reaction(emoji@),
            Response::RandomChance(entries) => ResponseView::RandomChance(
                Seq::new(
                    entries.len() as nat,
                    |i: int|
                        if 0 <= i < entries.len() {
                            (entries[i].0, entries[i].1@)
                        } else {
                            (0u64, ResponseView::NoResponse)
                        },
                ),
            ),
            Response::NoResponse => ResponseView::NoResponse,
        }
    }
}

/// Why a response could not be resolved into something to deliver.
#[derive(Clone, Copy, Debug, PartialEq, Eq, Structural)]
pub enum ResolveError {
    /// A `RandomChance` on the way had weights that nothing can be drawn
    /// from.
    Weights(WeightError),
    /// What was to be delivered still leaves its answer to chance.
    StillRandom,
    /// The emoji to react with is named by a text that is no emoji
    /// identifier.
    MalformedReaction,
}

/// The weights of the entries of a `RandomChance`, in their order.
pub open spec fn entry_weights(entries: Seq<(u64, ResponseView)>) -> Seq<u64> {
    Seq::new(entries.len(), |i: int| entries[i].0)
}

impl ResponseView {
    /// Whether the response can be delivered as it is: it leaves nothing to
    /// chance.
    pub open spec fn is_settled(self) -> bool {
        !(self is RandomChance)
    }

    /// Whether resolving this response can end in `settled`.
    ///
    /// A settled response resolves to itself. A `RandomChance` whose weights
    /// can be drawn from resolves to whatever one of its entries with a
    /// positive weight resolves to.
    pub open spec fn may_resolve_to(self, settled: ResponseView) -> bool
        decreases self,
    {
        match self {
            ResponseView::RandomChance(entries) => {
                &&& weights_fault(entry_weights(entries)) is None
                &&& exists|i: int|
                    0 <= i < entries.len() && entries[i].0 > 0
                        && (#[trigger] entries[i]).1.may_resolve_to(settled)
            },
            _ => settled == self,
        }
    }

    /// Whether resolving this response can fail with `fault`.
    ///
    /// A settled response never fails. A `RandomChance` whose weights cannot
    /// be drawn from fails with what is wrong with them; any other fails
    /// with whatever one of its entries with a positive weight can fail
    /// with.
    pub open spec fn may_fail_with(self, fault: WeightError) -> bool
        decreases self,
    {
        match self {
            ResponseView::RandomChance(entries) => {
                if weights_fault(entry_weights(entries)) is Some {
                    weights_fault(entry_weights(entries)) == Some(fault)
                } else {
                    exists|i: int|
                        0 <= i < entries.len() && entries[i].0 > 0
                            && (#[trigger] entries[i]).1.may_fail_with(fault)
                }
            },
            _ => false,
        }
    }
}

impl ResponseView {
    /// The entry that a draw picks: the response at the place drawn, if
    /// this is a `RandomChance`, the place is one of its places and the
    /// weight there is not zero. No draw falls anywhere else.
    pub open spec fn drawn(self, place: int) -> Option<ResponseView> {
        match self {
            ResponseView::RandomChance(entries) => {
                if 0 <= place < entries.len() && entries[place].0 > 0 {
                    Some(entries[place].1)
                } else {
                    None
                }
            },
            _ => None,
        }
    }

    /// What resolving this response ends in when the draws fall on the
    /// given places, one after the other.
    ///
    /// A settled response is the result, whatever places are left. A
    /// `RandomChance` whose weights cannot be drawn from ends the
    /// resolution with what is wrong with them. Any other takes the next
    /// place and goes on with the entry that this draw picks; where the
    /// places have run out, or the next one is no place that a draw can
    /// fall on, the response is left to chance still.
    pub open spec fn resolved_along(self, places: Seq<int>) -> Result<ResponseView, ResolveError>
        decreases places.len(),
    {
        match self {
            ResponseView::RandomChance(entries) => match weights_fault(entry_weights(entries)) {
                Some(fault) => Err(ResolveError::Weights(fault)),
                None => {
                    if places.len() == 0 {
                        Err(ResolveError::StillRandom)
                    } else {
                        match self.drawn(places[0]) {
                            Some(next) => next.resolved_along(places.drop_first()),
                            None => Err(ResolveError::StillRandom),
                        }
                    }
                },
            },
            _ => Ok(self),
        }
    }

    /// What a resolution along given places ends in, chance can end in
    /// too: the settled response is one that this response may resolve to,
    /// and the fault is one that it may fail with.
    pub proof fn lemma_resolved_along_is_possible(self, places: Seq<int>)
        ensures
            match self.resolved_along(places) {
                Ok(settled) => self.may_resolve_to(settled) && settled.is_settled(),
                Err(ResolveError::Weights(fault)) => self.may_fail_with(fault),
                Err(ResolveError::StillRandom) => !self.is_settled(),
                Err(ResolveError::MalformedReaction) => false,
            },
        decreases places.len(),
    {
        if let ResponseView::RandomChance(entries) = self {
            if weights_fault(entry_weights(entries)) is None && places.len() > 0 {
                if let Some(next) = self.drawn(places[0]) {
                    let i = places[0];
                    next.lemma_resolved_along_is_possible(places.drop_first());
                    match next.resolved_along(places.drop_first()) {
                        Ok(settled) => {
                            assert(entries[i].0 > 0 && entries[i].1.may_resolve_to(settled));
                        },
                        Err(ResolveError::Weights(fault)) => {
                            assert(entries[i].0 > 0 && entries[i].1.may_fail_with(fault));
                        },
                        _ => {},
                    }
                }
            }
        }
    }

    /// A draw that falls on the first of the given places leaves the
    /// resolution to go on from the entry it picks, along the places that
    /// follow.
    pub proof fn lemma_resolved_along_after_a_draw(self, place: int, rest: Seq<int>)
        requires
            self is RandomChance,
            weights_fault(entry_weights(self->RandomChance_0)) is None,
            self.drawn(place) is Some,
        ensures
            self.resolved_along(seq![place] + rest) == self.drawn(place)->0.resolved_along(rest),
    {
        let places = seq![place] + rest;
        assert(places[0] == place);
        assert(places.drop_first() == rest);
    }
}

impl ResponseView {
    /// Whether resolving this response succeeds whatever is drawn: no
    /// `RandomChance` that a draw can reach has weights that cannot be drawn
    /// from.
    pub open spec fn always_resolves(self) -> bool
        decreases self,
    {
        match self {
            ResponseView::RandomChance(entries) => {
                &&& weights_fault(entry_weights(entries)) is None
                &&& forall|i: int|
                    0 <= i < entries.len() && entries[i].0 > 0
                        ==> (#[trigger] entries[i]).1.always_resolves()
            },
            _ => true,
        }
    }

    /// Whether resolving this response fails whatever is drawn: every way
    /// down ends at a `RandomChance` whose weights cannot be drawn from.
    pub open spec fn never_resolves(self) -> bool
        decreases self,
    {
        match self {
            ResponseView::RandomChance(entries) => {
                ||| weights_fault(entry_weights(entries)) is Some
                ||| forall|i: int|
                    0 <= i < entries.len() && entries[i].0 > 0
                        ==> (#[trigger] entries[i]).1.never_resolves()
            },
            _ => false,
        }
    }

    /// Whatever a response resolves to is settled: resolution never ends at
    /// a `RandomChance`.
    pub proof fn lemma_resolution_is_settled(self, settled: ResponseView)
        requires
            self.may_resolve_to(settled),
        ensures
            settled.is_settled(),
        decreases self,
    {
        if let ResponseView::RandomChance(entries) = self {
            let i = choose|i: int|
                0 <= i < entries.len() && entries[i].0 > 0
                    && (#[trigger] entries[i]).1.may_resolve_to(settled);
            entries[i].1.lemma_resolution_is_settled(settled);
        }
    }

    /// A response that always resolves cannot fail.
    pub proof fn lemma_always_resolves_cannot_fail(self, fault: WeightError)
        requires
            self.always_resolves(),
        ensures
            !self.may_fail_with(fault),
        decreases self,
    {
        if let ResponseView::RandomChance(entries) = self {
            assert forall|i: int| 0 <= i < entries.len() && entries[i].0 > 0 implies !(
            #[trigger] entries[i]).1.may_fail_with(fault) by {
                entries[i].1.lemma_always_resolves_cannot_fail(fault);
            }
        }
    }

    /// A response that never resolves cannot end in a settled one.
    pub proof fn lemma_never_resolves_cannot_succeed(self, settled: ResponseView)
        requires
            self.never_resolves(),
        ensures
            !self.may_resolve_to(settled),
        decreases self,
    {
        if let ResponseView::RandomChance(entries) = self {
            if weights_fault(entry_weights(entries)) is None {
                assert forall|i: int|
                    0 <= i < entries.len() && entries[i].0 > 0 implies !(
                #[trigger] entries[i]).1.may_resolve_to(settled) by {
                    entries[i].1.lemma_never_resolves_cannot_succeed(settled);
                }
            }
        }
    }

    /// What an entry that can be drawn resolves to or fails with, the whole
    /// `RandomChance` can resolve to or fail with.
    pub proof fn lemma_outcomes_of_entry(self, i: int)
        requires
            self is RandomChance,
            weights_fault(entry_weights(self->RandomChance_0)) is None,
            0 <= i < self->RandomChance_0.len(),
            self->RandomChance_0[i].0 > 0,
        ensures
            forall|settled: ResponseView| #[trigger]
                self->RandomChance_0[i].1.may_resolve_to(settled) ==> self.may_resolve_to(settled),
            forall|fault: WeightError| #[trigger]
                self->RandomChance_0[i].1.may_fail_with(fault) ==> self.may_fail_with(fault),
    {
        let entries = self->RandomChance_0;
        assert forall|settled: ResponseView| #[trigger]
            entries[i].1.may_resolve_to(settled) implies self.may_resolve_to(settled) by {
            assert(entries[i].0 > 0 && entries[i].1.may_resolve_to(settled));
        }
        assert forall|fault: WeightError| #[trigger]
            entries[i].1.may_fail_with(fault) implies self.may_fail_with(fault) by {
            assert(entries[i].0 > 0 && entries[i].1.may_fail_with(fault));
        }
    }
}

/// A `RandomChance` with no entries, or with no weight but zero, never
/// resolves: handling it ends in an error, and in no other way.
pub proof fn lemma_nothing_to_draw_from(entries: Seq<(u64, ResponseView)>)
    requires
        forall|i: int| 0 <= i < entries.len() ==> (#[trigger] entries[i]).0 == 0,
    ensures
        ResponseView::RandomChance(entries).never_resolves(),
        forall|settled: ResponseView|
            !(#[trigger] ResponseView::RandomChance(entries).may_resolve_to(settled)),
        forall|fault: WeightError| #[trigger]
            ResponseView::RandomChance(entries).may_fail_with(fault) <==> fault == (if entries.len()
                == 0 {
                WeightError::InvalidInput
            } else {
                WeightError::InsufficientNonZero
            }),
{
    assert(!has_positive_weight(entry_weights(entries)));
}

/// The weights of the entries of a `RandomChance`, collected in their
/// order and widened to 128 bits.
fn weights_of(entries: &Vec<(u64, Response)>) -> (weights: Vec<u128>)
    ensures
        weights@.len() == entries.len(),
        forall|i: int| 0 <= i < entries.len() ==> weights@[i] == entries[i].0,
{
    let mut weights: Vec<u128> = Vec::new();
    let mut i: usize = 0;
    while i < entries.len()
        invariant
            i <= entries.len(),
            weights@.len() == i,
            forall|k: int| 0 <= k < i ==> weights@[k] == entries[k].0,
        decreases entries.len() - i,
    {
        weights.push(entries[i].0 as u128);
        i += 1;
    }
    weights
}

/// Tests whether one of the entries has a weight that is not zero.
fn any_positive_weight(entries: &Vec<(u64, Response)>) -> (yes: bool)
    ensures
        yes == exists|i: int| 0 <= i < entries.len() && (#[trigger] entries[i]).0 > 0,
{
    let mut i: usize = 0;
    while i < entries.len()
        invariant
            i <= entries.len(),
            forall|k: int| 0 <= k < i ==> (#[trigger] entries[k]).0 == 0,
        decreases entries.len() - i,
    {
        if entries[i].0 > 0 {
            return true;
        }
        i += 1;
    }
    false
}

/// The value of what a resolution ended in.
pub open spec fn resolved_view(resolved: Result<&Response, ResolveError>) -> Result<
    ResponseView,
    ResolveError,
> {
    match resolved {
        Ok(response) => Ok(response@),
        Err(error) => Err(error),
    }
}

/// The places of a list of draws as numbers.
pub open spec fn place_numbers(places: Seq<usize>) -> Seq<int> {
    places.map_values(|place: usize| place as int)
}

impl Clone for Response {
    fn clone(&self) -> (copy: Self)
        ensures
            copy@ == self@,
        decreases self,
    {
        match self {
            Response::Reply(text) => Response::Reply(text.clone()),
            Response::Reaction(emoji) => Response::Reaction(emoji.clone()),
            Response::RandomChance(entries) => {
                let mut copies: Vec<(u64, Response)> = Vec::new();
                let mut i: usize = 0;
                while i < entries.len()
                    invariant
                        self is RandomChance,
                        self->RandomChance_0 == *entries,
                        i <= entries.len(),
                        copies.len() == i,
                        forall|k: int|
                            0 <= k < i ==> copies[k].0 == entries[k].0 && copies[k].1@
                                == entries[k].1@,
                    decreases entries.len() - i,
                {
                    copies.push((entries[i].0, entries[i].1.clone()));
                    i += 1;
                }
                let copy = Response::RandomChance(copies);
                proof {
                    self.lemma_view_of_entries();
                    copy.lemma_view_of_entries();
                    assert(copy@->RandomChance_0 =~= self@->RandomChance_0);
                }
                copy
            },
            Response::NoResponse => Response::NoResponse,
        }
    }
}

impl Response {
    /// The value of a `RandomChance` is the sequence of its entries, each
    /// weight with the value of its response.
    pub proof fn lemma_view_of_entries(self)
        requires
            self is RandomChance,
        ensures
            self@ is RandomChance,
            self@->RandomChance_0.len() == self->RandomChance_0.len(),
            forall|i: int|
                0 <= i < self->RandomChance_0.len() ==> #[trigger] self@->RandomChance_0[i] == (
                    self->RandomChance_0[i].0,
                    self->RandomChance_0[i].1@,
                ),
    {
        reveal_with_fuel(<Response as View>::view, 2);
    }

    /// Resolves the response along draws that fall on the given places,
    /// one after the other, where [`Response::flatten`] would draw them at
    /// random.
    ///
    /// A `Reply`, a `Reaction` and `NoResponse` are returned as they are. A
    /// `RandomChance` that has no entries, or no weight but zero, ends the
    /// resolution with an error. Any other takes the next place and goes on
    /// with the entry there; if the places have run out, or the next one is
    /// not a place of the list or has the weight zero, the resolution ends
    /// with `StillRandom`.
    pub fn resolve_along(&self, places: &Vec<usize>) -> (resolved: Result<&Response, ResolveError>)
        ensures
            resolved_view(resolved) == self@.resolved_along(place_numbers(places@)),
    {
        let ghost all = place_numbers(places@);
        let mut current: &Response = self;
        let mut i: usize = 0;
        proof {
            assert(all.skip(0) == all);
        }
        loop
            invariant
                i <= places.len(),
                all == place_numbers(places@),
                self@.resolved_along(all) == current@.resolved_along(all.skip(i as int)),
            decreases places.len() - i,
        {
            let ghost rest = all.skip(i as int);
            match current {
                Response::RandomChance(entries) => {
                    proof {
                        current.lemma_view_of_entries();
                        lemma_weights_of_entries(*current);
                    }
                    if entries.len() == 0 {
                        return Err(ResolveError::Weights(WeightError::InvalidInput));
                    }
                    if !any_positive_weight(entries) {
                        proof {
                            let weights = entry_weights(current@->RandomChance_0);
                            if has_positive_weight(weights) {
                                let k = choose|k: int|
                                    0 <= k < weights.len() && #[trigger] weights[k] > 0;
                                assert(entries[k].0 > 0);
                            }
                        }
                        return Err(ResolveError::Weights(WeightError::InsufficientNonZero));
                    }
                    proof {
                        let weights = entry_weights(current@->RandomChance_0);
                        let k = choose|k: int|
                            0 <= k < entries.len() && (#[trigger] entries[k]).0 > 0;
                        assert(weights[k] > 0);
                        assert(weights_fault(weights) is None);
                    }
                    if i >= places.len() {
                        return Err(ResolveError::StillRandom);
                    }
                    let place = places[i];
                    proof {
                        assert(rest[0] == place as int);
                        assert(rest.drop_first() == all.skip(i + 1));
                    }
                    if place >= entries.len() || entries[place].0 == 0 {
                        return Err(ResolveError::StillRandom);
                    }
                    current = &entries[place].1;
                    i += 1;
                },
                _ => {
                    return Ok(current);
                },
            }
        }
    }

    /// Resolves the response into one that leaves nothing to chance.
    ///
    /// A `Reply`, a `Reaction` and `NoResponse` are returned as they are.
    /// From a `RandomChance` one entry is drawn, with a chance in proportion
    /// to its weight, and resolved in turn, however deep the nesting goes.
    /// A `RandomChance` on the way that has no entries, or no weight but
    /// zero, ends the resolution with an error; no other does, however
    /// large its weights are.
    ///
    /// The draw is random: the contract says what holds of every outcome.
    /// The result is what [`Response::resolve_along`] gives for the places
    /// that were drawn.
    pub fn flatten(&self) -> (resolved: Result<&Response, ResolveError>)
        ensures
            match resolved {
                Ok(settled) => self@.may_resolve_to(settled@) && settled@.is_settled(),
                Err(ResolveError::Weights(fault)) => self@.may_fail_with(fault),
                Err(_) => false,
            },
            exists|places: Seq<int>|
                resolved_view(resolved) == #[trigger] self@.resolved_along(places),
            self@.is_settled() ==> resolved == Ok::<&Response, ResolveError>(self),
            self@.always_resolves() ==> resolved is Ok,
            self@.never_resolves() ==> resolved is Err,
    {
        let mut current: &Response = self;
        let ghost mut drawn_places: Seq<int> = Seq::empty();
        proof {
            assert forall|rest: Seq<int>| self@.resolved_along(#[trigger] (drawn_places + rest))
                == current@.resolved_along(rest) by {
                assert(drawn_places + rest == rest);
            }
        }
        loop
            invariant
                forall|settled: ResponseView| #[trigger]
                    current@.may_resolve_to(settled) ==> self@.may_resolve_to(settled),
                forall|fault: WeightError| #[trigger]
                    current@.may_fail_with(fault) ==> self@.may_fail_with(fault),
                forall|rest: Seq<int>|
                    self@.resolved_along(#[trigger] (drawn_places + rest))
                        == current@.resolved_along(rest),
                self@.is_settled() ==> current == self,
            decreases current,
        {
            proof {
                assert(drawn_places + Seq::<int>::empty() == drawn_places);
                assert(self@.resolved_along(drawn_places) == current@.resolved_along(
                    Seq::<int>::empty(),
                ));
            }
            match current {
                Response::RandomChance(entries) => {
                    let weights = weights_of(entries);
                    proof {
                        current.lemma_view_of_entries();
                        lemma_weights_of_entries(*current);
                    }
                    match weighted_places(&weights) {
                        Err(_) => {
                            let fault = if entries.len() == 0 {
                                WeightError::InvalidInput
                            } else {
                                WeightError::InsufficientNonZero
                            };
                            proof {
                                let listed = entry_weights(current@->RandomChance_0);
                                assert(!has_positive_weight(listed)) by {
                                    if has_positive_weight(listed) {
                                        let k = choose|k: int|
                                            0 <= k < listed.len() && #[trigger] listed[k] > 0;
                                        assert(weights@[k] > 0);
                                    }
                                }
                                assert(current@.may_fail_with(fault));
                                if self@.always_resolves() {
                                    self@.lemma_always_resolves_cannot_fail(fault);
                                }
                            }
                            return Err(ResolveError::Weights(fault));
                        },
                        Ok(places) => {
                            let mut rng = thread_rng();
                            let drawn = sample_place(&places, &mut rng);
                            let ghost chosen = entries[drawn as int].1@;
                            let ghost before = current@;
                            proof {
                                assert(before->RandomChance_0[drawn as int] == (
                                    entries[drawn as int].0,
                                    chosen,
                                ));
                                assert(entry_weights(before->RandomChance_0)[drawn as int] > 0);
                                assert(has_positive_weight(
                                    entry_weights(before->RandomChance_0),
                                ));
                                before.lemma_outcomes_of_entry(drawn as int);
                                assert forall|settled: ResponseView| #[trigger]
                                    chosen.may_resolve_to(settled) implies self@.may_resolve_to(
                                    settled,
                                ) by {
                                    assert(before.may_resolve_to(settled));
                                }
                                assert forall|fault: WeightError| #[trigger]
                                    chosen.may_fail_with(fault) implies self@.may_fail_with(
                                    fault,
                                ) by {
                                    assert(before.may_fail_with(fault));
                                }
                                let longer = drawn_places.push(drawn as int);
                                assert forall|rest: Seq<int>| self@.resolved_along(
                                    #[trigger] (longer + rest),
                                ) == chosen.resolved_along(rest) by {
                                    before.lemma_resolved_along_after_a_draw(drawn as int, rest);
                                    assert(longer + rest == drawn_places + (seq![drawn as int]
                                        + rest));
                                }
                                drawn_places = longer;
                            }
                            current = &entries[drawn].1;
                        },
                    }
                },
                _ => {
                    proof {
                        assert(current@.may_resolve_to(current@));
                        self@.lemma_resolution_is_settled(current@);
                        if self@.never_resolves() {
                            self@.lemma_never_resolves_cannot_succeed(current@);
                        }
                    }
                    return Ok(current);
                },
            }
        }
    }
}

/// The weights of the value of a `RandomChance` are the weights of its
/// entries, place by place.
proof fn lemma_weights_of_entries(response: Response)
    requires
        response is RandomChance,
    ensures
        response@ is RandomChance,
        entry_weights(response@->RandomChance_0).len() == response->RandomChance_0.len(),
        forall|i: int|
            0 <= i < response->RandomChance_0.len() ==> #[trigger] entry_weights(
                response@->RandomChance_0,
            )[i] == response->RandomChance_0[i].0,
        response@->RandomChance_0.len() == response->RandomChance_0.len(),
        forall|i: int|
            0 <= i < response->RandomChance_0.len() ==> (#[trigger] response@->RandomChance_0[i]).1
                == response->RandomChance_0[i].1@,
{
    response.lemma_view_of_entries();
}

} // verus!
