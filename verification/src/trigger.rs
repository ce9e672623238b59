//! Trigger patterns and how they are matched against the words of a message.

use vstd::prelude::*;
use vstd::std_specs::convert::FromSpecImpl;
use vstd::std_specs::iter::IteratorSpec;
use crate::text::{has_prefix, has_suffix, same_text};

verus! {

/// A pattern that a rule tests against the words of a message.
///
/// The first four variants look at one word at a time. `ConsecutiveWords`
/// asks for a run of adjacent words, each accepted by the pattern at the same
/// place in its chain; the chain may hold single-word patterns only.
#[derive(Debug, PartialEq, Eq)]
pub enum Trigger {
    /// The word is exactly this text.
    FullMatch(String),
    /// The word begins with this text.
    StartsWith(String),
    /// The word ends with this text.
    EndsWith(String),
    /// The word is made of this one character only and is at least this many
    /// characters long.
    RepeatedCharacter(char, usize),
    /// A chain of adjacent words, each accepted by the pattern at its place.
    ConsecutiveWords(Vec<Trigger>),
}

/// The mathematical value of a [`Trigger`]: texts are character sequences
/// and the chain is a sequence of such values.
pub enum TriggerView {
    FullMatch(Seq<char>),
    StartsWith(Seq<char>),
    EndsWith(Seq<char>),
    RepeatedCharacter(char, nat),
    ConsecutiveWords(Seq<TriggerView>),
}

impl View for Trigger {
    type V = TriggerView;

    open spec fn view(&self) -> TriggerView
        decreases self,
    {
        match self {
            Trigger::FullMatch(word) => TriggerView::FullMatch(word@),
            Trigger::StartsWith(prefix) => TriggerView::StartsWith(prefix@),
            Trigger::EndsWith(suffix) => TriggerView::EndsWith(suffix@),
            Trigger::RepeatedCharacter(c, min) => TriggerView::RepeatedCharacter(*c, *min as nat),
            Trigger::ConsecutiveWords(chain) => TriggerView::ConsecutiveWords(
                Seq::new(
                    chain.len() as nat,
                    |i: int|
                        if 0 <= i < chain.len() {
                            chain[i]@
                        } else {
                            TriggerView::ConsecutiveWords(Seq::empty())
                        },
                ),
            ),
        }
    }
}

impl Clone for Trigger {
    fn clone(&self) -> (copy: Self)
        ensures
            copy@ == self@,
        decreases self,
    {
        match self {
            Trigger::FullMatch(word) => Trigger::FullMatch(word.clone()),
            Trigger::StartsWith(prefix) => Trigger::StartsWith(prefix.clone()),
            Trigger::EndsWith(suffix) => Trigger::EndsWith(suffix.clone()),
            Trigger::RepeatedCharacter(c, min) => Trigger::RepeatedCharacter(*c, *min),
            Trigger::ConsecutiveWords(chain) => {
                let mut copies: Vec<Trigger> = Vec::new();
                let mut i: usize = 0;
                while i < chain.len()
                    invariant
                        self is ConsecutiveWords,
                        self->ConsecutiveWords_0 == *chain,
                        i <= chain.len(),
                        copies.len() == i,
                        forall|k: int| 0 <= k < i ==> copies[k]@ == chain[k]@,
                    decreases chain.len() - i,
                {
                    copies.push(chain[i].clone());
                    i += 1;
                }
                let copy = Trigger::ConsecutiveWords(copies);
                proof {
                    self.lemma_view_of_chain();
                    copy.lemma_view_of_chain();
                    assert(copy@->ConsecutiveWords_0 =~= self@->ConsecutiveWords_0);
                }
                copy
            },
        }
    }
}

impl<'a> From<&'a str> for Trigger {
    /// The trigger that matches the given word exactly.
    fn from(other: &'a str) -> (trigger: Self)
        ensures
            trigger@ == TriggerView::FullMatch(other@),
    {
        Trigger::FullMatch(other.to_owned())
    }
}

impl<'a> FromSpecImpl<&'a str> for Trigger {
    /// The conversion is stated on `from` itself, over the value of the
    /// trigger: two strings with the same characters need not be the same
    /// string.
    open spec fn obeys_from_spec() -> bool {
        false
    }

    open spec fn from_spec(other: &'a str) -> Self {
        vstd::pervasive::arbitrary()
    }
}

/// Whether every character of `word` is `c`.
pub open spec fn all_chars_are(word: Seq<char>, c: char) -> bool {
    forall|i: int| 0 <= i < word.len() ==> word[i] == c
}

impl TriggerView {
    /// Whether this is one of the four patterns that look at a single word.
    pub open spec fn is_single_word(self) -> bool {
        !(self is ConsecutiveWords)
    }

    /// Whether the pattern can be matched at all: a chain holds single-word
    /// patterns only. A chain inside a chain has no meaning and is refused.
    pub open spec fn is_supported(self) -> bool {
        match self {
            TriggerView::ConsecutiveWords(chain) => forall|i: int|
                0 <= i < chain.len() ==> (#[trigger] chain[i]).is_single_word(),
            _ => true,
        }
    }

    /// Whether a single-word pattern accepts `word`. The length that
    /// `RepeatedCharacter` asks for is the number of characters of the
    /// word. A chain is not a single-word pattern and accepts no word.
    pub open spec fn accepts(self, word: Seq<char>) -> bool {
        match self {
            TriggerView::FullMatch(text) => word == text,
            TriggerView::StartsWith(prefix) => prefix.is_prefix_of(word),
            TriggerView::EndsWith(suffix) => suffix.is_suffix_of(word),
            TriggerView::RepeatedCharacter(c, min) => word.len() >= min && all_chars_are(word, c),
            TriggerView::ConsecutiveWords(_) => false,
        }
    }

    /// One step of the scan: the pattern looks at `word` with the cursor it
    /// carried so far and says whether the whole pattern has now succeeded,
    /// and which cursor to carry on.
    ///
    /// A single-word pattern succeeds when it accepts the word and never
    /// carries a cursor. A chain tests the word against the pattern under
    /// the cursor: if that one accepts, the cursor moves on, and the chain
    /// has succeeded when it moved past the last place; if not, the cursor
    /// falls back to the start and the word is not looked at again.
    pub open spec fn step(self, word: Seq<char>, cursor: nat) -> (bool, nat) {
        match self {
            TriggerView::ConsecutiveWords(chain) => {
                if cursor < chain.len() && chain[cursor as int].accepts(word) {
                    (cursor + 1 == chain.len(), cursor + 1)
                } else {
                    (false, 0)
                }
            },
            _ => (self.accepts(word), 0),
        }
    }

    /// The scan over `words` from left to right, starting with cursor 0:
    /// `None` when some step succeeded, otherwise the cursor that is carried
    /// after the last word.
    pub open spec fn scan(self, words: Seq<Seq<char>>) -> Option<nat>
        decreases words.len(),
    {
        if words.len() == 0 {
            Some(0)
        } else {
            match self.scan(words.drop_last()) {
                None => None,
                Some(cursor) => {
                    let (done, next) = self.step(words.last(), cursor);
                    if done {
                        None
                    } else {
                        Some(next)
                    }
                },
            }
        }
    }

    /// Whether the pattern matches the words of a message: the scan reaches
    /// success before the words run out.
    pub open spec fn matches(self, words: Seq<Seq<char>>) -> bool {
        self.scan(words) is None
    }
}

impl TriggerView {
    /// Once the scan has succeeded on the first `k` words, it has succeeded
    /// on all of them: later words cannot take a match back.
    pub proof fn lemma_match_is_kept(self, words: Seq<Seq<char>>, k: int)
        requires
            0 <= k <= words.len(),
            self.matches(words.take(k)),
        ensures
            self.matches(words),
        decreases words.len() - k,
    {
        if k < words.len() {
            assert(words.take(k + 1).drop_last() == words.take(k));
            self.lemma_match_is_kept(words, k + 1);
        } else {
            assert(words.take(k) == words);
        }
    }

    /// A single-word pattern matches a message exactly when it accepts one
    /// of its words, wherever that word stands.
    pub proof fn lemma_single_word_matches(self, words: Seq<Seq<char>>)
        requires
            self.is_single_word(),
        ensures
            self.matches(words) <==> exists|i: int|
                0 <= i < words.len() && self.accepts(#[trigger] words[i]),
            !self.matches(words) ==> self.scan(words) == Some(0nat),
        decreases words.len(),
    {
        if words.len() > 0 {
            let front = words.drop_last();
            self.lemma_single_word_matches(front);
            if self.matches(front) {
                let i = choose|i: int| 0 <= i < front.len() && self.accepts(#[trigger] front[i]);
                assert(self.accepts(words[i]));
            } else if self.accepts(words.last()) {
                assert(self.accepts(words[words.len() - 1]));
            } else {
                assert forall|i: int| 0 <= i < words.len() implies !self.accepts(
                    #[trigger] words[i],
                ) by {
                    if i < front.len() {
                        assert(words[i] == front[i]);
                    }
                }
            }
        }
    }
}

impl TriggerView {
    /// Whether the words from place `start` on are accepted one by one by
    /// the patterns of this chain: an adjacent run in the chain's order.
    pub open spec fn run_at(self, words: Seq<Seq<char>>, start: int) -> bool
        recommends
            self is ConsecutiveWords,
    {
        let chain = self->ConsecutiveWords_0;
        &&& chain.len() > 0
        &&& 0 <= start
        &&& start + chain.len() <= words.len()
        &&& forall|k: int|
            0 <= k < chain.len() ==> (#[trigger] chain[k]).accepts(words[start + k])
    }

    /// What the cursor of a chain stands for: while the scan has not
    /// succeeded, a cursor `c` says that the last `c` words were accepted by
    /// the first `c` patterns of the chain; once it has succeeded, an
    /// adjacent run lies somewhere in the words.
    pub proof fn lemma_chain_cursor(self, words: Seq<Seq<char>>)
        requires
            self is ConsecutiveWords,
        ensures
            match self.scan(words) {
                Some(c) => {
                    let chain = self->ConsecutiveWords_0;
                    &&& c <= words.len()
                    &&& c == 0 || c < chain.len()
                    &&& forall|k: int|
                        0 <= k < c ==> (#[trigger] chain[k]).accepts(words[words.len() - c + k])
                },
                None => exists|start: int| self.run_at(words, start),
            },
        decreases words.len(),
    {
        let chain = self->ConsecutiveWords_0;
        if words.len() > 0 {
            let front = words.drop_last();
            self.lemma_chain_cursor(front);
            match self.scan(front) {
                None => {
                    let start = choose|start: int| self.run_at(front, start);
                    assert(self.run_at(words, start)) by {
                        assert forall|k: int| 0 <= k < chain.len() implies (
                        #[trigger] chain[k]).accepts(words[start + k]) by {
                            assert(front[start + k] == words[start + k]);
                        }
                    }
                },
                Some(c) => {
                    let (done, next) = self.step(words.last(), c);
                    if c < chain.len() && chain[c as int].accepts(words.last()) {
                        assert forall|k: int| 0 <= k < c + 1 implies (#[trigger] chain[k]).accepts(
                            words[words.len() - (c + 1) + k],
                        ) by {
                            if k < c {
                                assert(front[front.len() - c + k] == words[words.len() - (c + 1)
                                    + k]);
                            }
                        }
                        if done {
                            assert(self.run_at(words, words.len() - chain.len()));
                        }
                    }
                },
            }
        }
    }

    /// A chain that matches has found an adjacent run: somewhere in the
    /// message stand as many words as the chain is long, side by side and in
    /// the chain's order, each accepted by the pattern at its place.
    pub proof fn lemma_chain_match_is_a_run(self, words: Seq<Seq<char>>)
        requires
            self is ConsecutiveWords,
            self.matches(words),
        ensures
            exists|start: int| self.run_at(words, start),
    {
        self.lemma_chain_cursor(words);
    }

    /// While the scan walks along a run that it entered with its cursor at
    /// the start, the cursor counts the words of the run left behind.
    proof fn lemma_cursor_along_run(self, words: Seq<Seq<char>>, start: int, k: int)
        requires
            self is ConsecutiveWords,
            self.run_at(words, start),
            self.scan(words.take(start)) == Some(0nat),
            0 <= k < self->ConsecutiveWords_0.len(),
        ensures
            self.scan(words.take(start + k)) == Some(k as nat),
        decreases k,
    {
        if k > 0 {
            let chain = self->ConsecutiveWords_0;
            self.lemma_cursor_along_run(words, start, k - 1);
            assert(words.take(start + k).drop_last() == words.take(start + k - 1));
            assert(chain[k - 1].accepts(words[start + k - 1]));
        }
    }

    /// A run that the scan reaches with its cursor at the start is found:
    /// the chain matches. (A run that the scan enters in the middle of a
    /// broken attempt may be missed: the word that broke the attempt is not
    /// tried again as the first of a new one.)
    pub proof fn lemma_fresh_run_matches(self, words: Seq<Seq<char>>, start: int)
        requires
            self is ConsecutiveWords,
            self.run_at(words, start),
            self.matches(words.take(start)) || self.scan(words.take(start)) == Some(0nat),
        ensures
            self.matches(words),
    {
        let chain = self->ConsecutiveWords_0;
        if self.matches(words.take(start)) {
            self.lemma_match_is_kept(words, start);
        } else {
            let k = chain.len() - 1;
            self.lemma_cursor_along_run(words, start, k);
            assert(words.take(start + k + 1).drop_last() == words.take(start + k));
            assert(chain[k].accepts(words[start + k]));
            self.lemma_match_is_kept(words, start + k + 1);
        }
    }

    /// A chain with no pattern in it matches no message.
    pub proof fn lemma_empty_chain_never_matches(self, words: Seq<Seq<char>>)
        requires
            self is ConsecutiveWords,
            self->ConsecutiveWords_0.len() == 0,
        ensures
            !self.matches(words),
    {
        self.lemma_chain_cursor(words);
    }
}

/// Tests whether a word is made of one repeated character and holds at
/// least `min` characters. The characters are counted up to `min` only,
/// which is as far as the answer depends on their number.
fn is_repetition_of(word: &str, c: char, min: usize) -> (yes: bool)
    ensures
        yes == (word@.len() >= min && all_chars_are(word@, c)),
{
    let mut rest = word.chars();
    let mut counted: usize = 0;
    loop
        invariant
            rest.remaining().len() <= word@.len(),
            rest.remaining() == word@.skip(word@.len() - rest.remaining().len()),
            all_chars_are(word@.take(word@.len() - rest.remaining().len()), c),
            counted <= min,
            counted == min || counted == word@.len() - rest.remaining().len(),
            counted <= word@.len() - rest.remaining().len(),
            rest.decrease() is Some,
        decreases rest.decrease()->0,
    {
        let ghost seen = word@.len() - rest.remaining().len();
        match rest.next() {
            None => {
                assert(word@.take(seen) == word@);
                return counted >= min;
            },
            Some(d) => {
                assert(d == word@[seen]);
                if d != c {
                    return false;
                }
                if counted < min {
                    counted += 1;
                }
                let ghost longer = word@.take(seen + 1);
                assert(all_chars_are(longer, c)) by {
                    assert forall|i: int| 0 <= i < longer.len() implies longer[i] == c by {
                        if i < seen {
                            assert(word@.take(seen)[i] == c);
                        }
                    }
                }
            },
        }
    }
}

impl Trigger {
    /// The value of a chain is the sequence of the values of its patterns,
    /// place by place.
    pub proof fn lemma_view_of_chain(self)
        requires
            self is ConsecutiveWords,
        ensures
            self@ is ConsecutiveWords,
            self@->ConsecutiveWords_0.len() == self->ConsecutiveWords_0.len(),
            forall|i: int|
                0 <= i < self->ConsecutiveWords_0.len() ==> #[trigger] self@->ConsecutiveWords_0[i]
                    == self->ConsecutiveWords_0[i]@,
    {
        reveal_with_fuel(<Trigger as View>::view, 2);
    }

    /// Whether this is one of the four patterns that look at a single word.
    pub fn is_single_word(&self) -> (yes: bool)
        ensures
            yes == self@.is_single_word(),
    {
        match self {
            Trigger::ConsecutiveWords(_) => false,
            _ => true,
        }
    }

    /// Whether the pattern can be matched: a chain must hold single-word
    /// patterns only.
    pub fn is_supported(&self) -> (yes: bool)
        ensures
            yes == self@.is_supported(),
    {
        match self {
            Trigger::ConsecutiveWords(chain) => {
                proof {
                    self.lemma_view_of_chain();
                }
                let mut i: usize = 0;
                while i < chain.len()
                    invariant
                        i <= chain.len(),
                        self@ is ConsecutiveWords,
                        self@->ConsecutiveWords_0.len() == chain.len(),
                        forall|k: int|
                            0 <= k < chain.len() ==> #[trigger] self@->ConsecutiveWords_0[k]
                                == chain[k]@,
                        forall|k: int|
                            0 <= k < i ==> (
                            #[trigger] self@->ConsecutiveWords_0[k]).is_single_word(),
                    decreases chain.len() - i,
                {
                    if !chain[i].is_single_word() {
                        assert(!self@->ConsecutiveWords_0[i as int].is_single_word());
                        return false;
                    }
                    i += 1;
                }
                true
            },
            _ => true,
        }
    }

    /// Tests one word against a single-word pattern.
    fn accepts(&self, word: &str) -> (yes: bool)
        ensures
            yes == self@.accepts(word@),
    {
        match self {
            Trigger::FullMatch(text) => same_text(text.as_str(), word),
            Trigger::StartsWith(prefix) => has_prefix(word, prefix.as_str()),
            Trigger::EndsWith(suffix) => has_suffix(word, suffix.as_str()),
            Trigger::RepeatedCharacter(c, min) => is_repetition_of(word, *c, *min),
            Trigger::ConsecutiveWords(_) => false,
        }
    }

    /// Whether the pattern matches the words of a message, taken from left
    /// to right.
    pub fn process(&self, words: &Vec<&str>) -> (matched: bool)
        requires
            self@.is_supported(),
        ensures
            matched == self@.matches(words.deep_view()),
    {
        let ghost texts = words.deep_view();
        let mut cursor: usize = 0;
        let mut i: usize = 0;
        while i < words.len()
            invariant
                i <= words.len(),
                self@.is_supported(),
                texts == words.deep_view(),
                self@.scan(texts.take(i as int)) == Some(cursor as nat),
            decreases words.len() - i,
        {
            let (matched, next) = self.process_word(words[i], cursor);
            proof {
                assert(texts.take(i + 1).drop_last() == texts.take(i as int));
                assert(texts.take(i + 1).last() == words[i as int]@);
            }
            if matched {
                proof {
                    self@.lemma_match_is_kept(texts, i + 1);
                }
                return true;
            }
            cursor = next;
            i += 1;
        }
        assert(texts.take(i as int) == texts);
        false
    }

    /// One step of the scan over a message: tests `other` with the cursor
    /// `acc` carried from the words before it, and returns whether the
    /// pattern has now succeeded together with the cursor to carry on.
    ///
    /// A cursor that does not point into the chain is taken as a chain that
    /// was broken: the word is not accepted and the cursor falls back to
    /// the start.
    pub fn process_word(&self, other: &str, acc: usize) -> (outcome: (bool, usize))
        requires
            self@.is_supported(),
        ensures
            outcome.0 == self@.step(other@, acc as nat).0,
            outcome.1 == self@.step(other@, acc as nat).1,
    {
        match self {
            Trigger::ConsecutiveWords(chain) => {
                proof {
                    self.lemma_view_of_chain();
                }
                if acc < chain.len() && chain[acc].accepts(other) {
                    (chain.len() == acc + 1, acc + 1)
                } else {
                    (false, 0)
                }
            },
            _ => (self.accepts(other), 0),
        }
    }
}

} // verus!
