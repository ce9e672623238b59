//! Rules and tables of rules: which responses a message calls for.

use vstd::prelude::*;
use crate::response::{Response, ResponseView};
use crate::trigger::{Trigger, TriggerView};

verus! {

/// One rule: it fires when any of its triggers matches, and then calls for
/// all of its responses.
#[derive(Debug, PartialEq, Eq)]
pub struct ResponseData {
    pub triggers: Vec<Trigger>,
    pub responses: Vec<Response>,
}

/// The mathematical value of a rule.
pub struct RuleView {
    pub triggers: Seq<TriggerView>,
    pub responses: Seq<ResponseView>,
}

impl View for ResponseData {
    type V = RuleView;

    open spec fn view(&self) -> RuleView {
        RuleView {
            triggers: self.triggers@.map_values(|trigger: Trigger| trigger@),
            responses: self.responses@.map_values(|response: Response| response@),
        }
    }
}

impl RuleView {
    /// Whether every trigger of the rule can be matched.
    pub open spec fn is_supported(self) -> bool {
        forall|i: int| 0 <= i < self.triggers.len() ==> (#[trigger] self.triggers[i]).is_supported()
    }

    /// Whether the rule fires on a message: one of its triggers matches.
    pub open spec fn fires(self, words: Seq<Seq<char>>) -> bool {
        exists|i: int| 0 <= i < self.triggers.len() && (#[trigger] self.triggers[i]).matches(words)
    }
}

/// The mathematical value of a table: its rules in their order.
pub struct TableView {
    pub entries: Seq<RuleView>,
}

impl TableView {
    /// Whether every trigger of every rule can be matched.
    pub open spec fn is_supported(self) -> bool {
        forall|i: int| 0 <= i < self.entries.len() ==> (#[trigger] self.entries[i]).is_supported()
    }

    /// The rules that fire on a message, in table order.
    pub open spec fn fired(self, words: Seq<Seq<char>>) -> Seq<RuleView> {
        self.entries.filter(|rule: RuleView| rule.fires(words))
    }

    /// The responses that a message calls for: those of every rule that
    /// fires, rule after rule in table order, each rule's responses in their
    /// own order. Nothing is merged or left out because it occurs twice.
    pub open spec fn process(self, words: Seq<Seq<char>>) -> Seq<ResponseView> {
        self.fired(words).flat_map(|rule: RuleView| rule.responses)
    }
}

/// A table of one rule calls for all the responses of the rule when the
/// rule fires, and for nothing when it does not.
pub proof fn lemma_table_of_one_rule(rule: RuleView, words: Seq<Seq<char>>)
    ensures
        (TableView { entries: seq![rule] }).process(words) == if rule.fires(words) {
            rule.responses
        } else {
            Seq::<ResponseView>::empty()
        },
{
    let fires = |rule: RuleView| rule.fires(words);
    let answers = |rule: RuleView| rule.responses;
    let none = Seq::<RuleView>::empty();
    assert(seq![rule] == none.push(rule));
    Seq::lemma_filter_push(none, rule, fires);
    assert(none.filter(fires) == none);
    assert(none.flat_map(answers) == Seq::<ResponseView>::empty());
    none.lemma_flat_map_push(answers, rule);
}

/// The rules of a table answer each for itself: a table made of two
/// tables in a row calls for what the first calls for, followed by what the
/// second calls for.
pub proof fn lemma_tables_in_a_row(first: TableView, second: TableView, words: Seq<Seq<char>>)
    ensures
        (TableView { entries: first.entries + second.entries }).process(words) == first.process(
            words,
        ) + second.process(words),
    decreases second.entries.len(),
{
    let fires = |rule: RuleView| rule.fires(words);
    let answers = |rule: RuleView| rule.responses;
    let both = first.entries + second.entries;
    if second.entries.len() == 0 {
        assert(both == first.entries);
        assert(second.entries.filter(fires) == Seq::<RuleView>::empty());
        assert(second.process(words) == Seq::<ResponseView>::empty());
        assert(first.process(words) + second.process(words) == first.process(words));
    } else {
        let front = TableView { entries: second.entries.drop_last() };
        let last = second.entries.last();
        lemma_tables_in_a_row(first, front, words);
        assert(second.entries == front.entries.push(last));
        assert(both == (first.entries + front.entries).push(last));
        Seq::lemma_filter_push(first.entries + front.entries, last, fires);
        Seq::lemma_filter_push(front.entries, last, fires);
        if last.fires(words) {
            (first.entries + front.entries).filter(fires).lemma_flat_map_push(answers, last);
            front.entries.filter(fires).lemma_flat_map_push(answers, last);
            assert((first.process(words) + front.process(words)) + last.responses
                == first.process(words) + (front.process(words) + last.responses));
        }
    }
}

/// The values of a list of responses, in their order.
pub open spec fn response_views(responses: Seq<Response>) -> Seq<ResponseView> {
    responses.map_values(|response: Response| response@)
}

/// The values of a list of rules, in their order.
pub open spec fn rule_views(rules: Seq<ResponseData>) -> Seq<RuleView> {
    rules.map_values(|rule: ResponseData| rule@)
}

impl ResponseData {
    /// Whether every trigger of the rule can be matched: the place of the
    /// first one that cannot, if there is one.
    pub fn first_unsupported(&self) -> (found: Option<usize>)
        ensures
            match found {
                Some(at) => at < self.triggers.len() && !self@.triggers[at as int].is_supported()
                    && forall|k: int| 0 <= k < at ==> (#[trigger] self@.triggers[k]).is_supported(),
                None => self@.is_supported(),
            },
    {
        let mut i: usize = 0;
        while i < self.triggers.len()
            invariant
                i <= self.triggers.len(),
                forall|k: int| 0 <= k < i ==> (#[trigger] self@.triggers[k]).is_supported(),
            decreases self.triggers.len() - i,
        {
            if !self.triggers[i].is_supported() {
                return Some(i);
            }
            i += 1;
        }
        None
    }

    /// Whether the rule fires on a message: one of its triggers matches.
    /// Triggers are tried in their order and the first match settles it.
    pub fn fires(&self, words: &Vec<&str>) -> (fired: bool)
        requires
            self@.is_supported(),
        ensures
            fired == self@.fires(words.deep_view()),
    {
        let ghost texts = words.deep_view();
        let mut i: usize = 0;
        while i < self.triggers.len()
            invariant
                i <= self.triggers.len(),
                self@.is_supported(),
                texts == words.deep_view(),
                forall|k: int| 0 <= k < i ==> !(#[trigger] self@.triggers[k]).matches(texts),
            decreases self.triggers.len() - i,
        {
            assert(self@.triggers[i as int] == self.triggers[i as int]@);
            if self.triggers[i].process(words) {
                return true;
            }
            i += 1;
        }
        false
    }
}

impl Clone for ResponseData {
    fn clone(&self) -> (copy: Self)
        ensures
            copy@ == self@,
    {
        let mut triggers: Vec<Trigger> = Vec::new();
        let mut i: usize = 0;
        while i < self.triggers.len()
            invariant
                i <= self.triggers.len(),
                triggers.len() == i,
                forall|k: int| 0 <= k < i ==> triggers[k]@ == self.triggers[k]@,
            decreases self.triggers.len() - i,
        {
            triggers.push(self.triggers[i].clone());
            i += 1;
        }
        let mut responses: Vec<Response> = Vec::new();
        let mut k: usize = 0;
        while k < self.responses.len()
            invariant
                k <= self.responses.len(),
                responses.len() == k,
                forall|j: int| 0 <= j < k ==> responses[j]@ == self.responses[j]@,
            decreases self.responses.len() - k,
        {
            responses.push(self.responses[k].clone());
            k += 1;
        }
        let copy = ResponseData { triggers, responses };
        proof {
            assert(copy@.triggers =~= self@.triggers);
            assert(copy@.responses =~= self@.responses);
        }
        copy
    }
}

/// Where a table holds a trigger that cannot be matched: a chain of words
/// with a chain inside it.
#[derive(Clone, Copy, Debug, PartialEq, Eq, Structural)]
pub struct UnsupportedTrigger {
    /// The place of the rule in the table.
    pub rule: usize,
    /// The place of the trigger in the rule.
    pub trigger: usize,
}

/// An ordered list of rules. Every trigger in a table can be matched: a
/// table is made by [`ResponseTable::new`], which refuses any other.
#[derive(Debug, PartialEq, Eq)]
pub struct ResponseTable {
    entries: Vec<ResponseData>,
}

impl View for ResponseTable {
    type V = TableView;

    closed spec fn view(&self) -> TableView {
        TableView { entries: rule_views(self.entries@) }
    }
}

impl ResponseTable {
    #[verifier::type_invariant]
    spec fn every_trigger_is_supported(self) -> bool {
        self@.is_supported()
    }

    /// Makes a table of the given rules, in their order, or says where the
    /// first trigger stands that cannot be matched.
    pub fn new(entries: Vec<ResponseData>) -> (made: Result<ResponseTable, UnsupportedTrigger>)
        ensures
            match made {
                Ok(table) => table@.entries == rule_views(entries@) && table@.is_supported(),
                Err(at) => {
                    let rules = rule_views(entries@);
                    &&& at.rule < rules.len()
                    &&& at.trigger < rules[at.rule as int].triggers.len()
                    &&& !rules[at.rule as int].triggers[at.trigger as int].is_supported()
                    &&& forall|k: int|
                        0 <= k < at.trigger ==> (
                        #[trigger] rules[at.rule as int].triggers[k]).is_supported()
                    &&& forall|k: int| 0 <= k < at.rule ==> (#[trigger] rules[k]).is_supported()
                },
            },
    {
        let mut i: usize = 0;
        while i < entries.len()
            invariant
                i <= entries.len(),
                forall|k: int| 0 <= k < i ==> (#[trigger] rule_views(entries@)[k]).is_supported(),
            decreases entries.len() - i,
        {
            if let Some(trigger) = entries[i].first_unsupported() {
                return Err(UnsupportedTrigger { rule: i, trigger });
            }
            i += 1;
        }
        Ok(ResponseTable { entries })
    }

    /// The rules of the table, in their order.
    pub fn entries(&self) -> (entries: &Vec<ResponseData>)
        ensures
            rule_views(entries@) == self@.entries,
            self@.is_supported(),
    {
        proof {
            use_type_invariant(self);
        }
        &self.entries
    }

    /// The responses that a message calls for, given its words: those of
    /// every rule that fires, in table order and then in the rule's own
    /// order, unresolved.
    pub fn process(&self, words: &Vec<&str>) -> (responses: Vec<Response>)
        ensures
            response_views(responses@) == self@.process(words.deep_view()),
    {
        proof {
            use_type_invariant(self);
        }
        let ghost texts = words.deep_view();
        let ghost rules = self@.entries;
        let ghost fires = |rule: RuleView| rule.fires(texts);
        let ghost answers = |rule: RuleView| rule.responses;
        let mut responses: Vec<Response> = Vec::new();
        let mut i: usize = 0;
        while i < self.entries.len()
            invariant
                i <= self.entries.len(),
                texts == words.deep_view(),
                rules == rule_views(self.entries@),
                rules == self@.entries,
                self@.is_supported(),
                fires == |rule: RuleView| rule.fires(texts),
                answers == |rule: RuleView| rule.responses,
                response_views(responses@) == rules.take(i as int).filter(fires).flat_map(answers),
            decreases self.entries.len() - i,
        {
            let rule = &self.entries[i];
            let ghost before = rules.take(i as int);
            proof {
                assert(rules[i as int] == rule@);
                assert(rules.take(i + 1) == before.push(rule@));
                Seq::lemma_filter_push(before, rule@, fires);
            }
            if rule.fires(words) {
                let ghost so_far = responses@;
                let mut k: usize = 0;
                while k < rule.responses.len()
                    invariant
                        k <= rule.responses.len(),
                        response_views(responses@) == response_views(so_far)
                            + rule@.responses.take(k as int),
                    decreases rule.responses.len() - k,
                {
                    let ghost earlier = responses@;
                    let copy = rule.responses[k].clone();
                    responses.push(copy);
                    proof {
                        assert(rule@.responses[k as int] == copy@);
                        assert(response_views(responses@) =~= response_views(earlier).push(copy@));
                        assert(rule@.responses.take(k + 1) =~= rule@.responses.take(k as int).push(
                            copy@,
                        ));
                        assert(response_views(responses@) =~= response_views(so_far)
                            + rule@.responses.take(k + 1));
                    }
                    k += 1;
                }
                proof {
                    assert(rule@.responses.take(k as int) == rule@.responses);
                    before.filter(fires).lemma_flat_map_push(answers, rule@);
                }
            }
            i += 1;
        }
        proof {
            assert(rules.take(i as int) == rules);
        }
        responses
    }
}

impl Clone for ResponseTable {
    fn clone(&self) -> (copy: Self)
        ensures
            copy@ == self@,
    {
        proof {
            use_type_invariant(self);
        }
        let mut entries: Vec<ResponseData> = Vec::new();
        let mut i: usize = 0;
        while i < self.entries.len()
            invariant
                i <= self.entries.len(),
                entries.len() == i,
                forall|k: int| 0 <= k < i ==> entries[k]@ == self.entries[k]@,
            decreases self.entries.len() - i,
        {
            entries.push(self.entries[i].clone());
            i += 1;
        }
        proof {
            assert(rule_views(entries@) =~= rule_views(self.entries@));
        }
        ResponseTable { entries }
    }
}

/// The table that is used where no other is set: one rule against heresy.
pub open spec fn default_table() -> TableView {
    TableView {
        entries: seq![
            RuleView {
                triggers: seq![
                    TriggerView::FullMatch("heresy"@),
                    TriggerView::StartsWith("heretic"@),
                    TriggerView::FullMatch("heresies"@),
                ],
                responses: seq![
                    ResponseView::Reply("Heresy has no place on The Jouch"@),
                    ResponseView::Reaction("<:bythepope:881212318707482674>"@),
                ],
            },
        ],
    }
}

impl Default for ResponseTable {
    fn default() -> (table: Self)
        ensures
            table@ == default_table(),
    {
        let rule = ResponseData {
            triggers: vec![
                Trigger::FullMatch("heresy".to_owned()),
                Trigger::StartsWith("heretic".to_owned()),
                Trigger::FullMatch("heresies".to_owned()),
            ],
            responses: vec![
                Response::Reply("Heresy has no place on The Jouch".to_owned()),
                Response::Reaction("<:bythepope:881212318707482674>".to_owned()),
            ],
        };
        proof {
            assert(rule@.triggers =~= default_table().entries[0].triggers);
            assert(rule@.responses =~= default_table().entries[0].responses);
        }
        let entries = vec![rule];
        proof {
            assert(rule_views(entries@) =~= default_table().entries);
            assert(default_table().is_supported()) by {
                assert(default_table().entries[0].is_supported());
            }
        }
        ResponseTable { entries }
    }
}

} // verus!
