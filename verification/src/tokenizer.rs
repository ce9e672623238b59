//! Cutting the text of a message into its words.

use vstd::prelude::*;
use vstd::std_specs::iter::IteratorSpec;
use crate::text::{alphanumeric, lowercase};

verus! {

/// A text with every character marked: `true` for a character that belongs
/// to a word, `false` for one that separates words.
pub open spec fn marked(text: Seq<char>) -> Seq<(char, bool)> {
    text.map_values(|c: char| (c, alphanumeric(c)))
}

/// The pieces that the separators cut a marked text into, empty pieces
/// included: one piece more than there are separators.
pub open spec fn segments(marks: Seq<(char, bool)>) -> Seq<Seq<char>>
    decreases marks.len(),
{
    if marks.len() == 0 {
        seq![Seq::empty()]
    } else {
        let before = segments(marks.drop_last());
        if marks.last().1 {
            before.drop_last().push(before.last().push(marks.last().0))
        } else {
            before.push(Seq::empty())
        }
    }
}

/// Whether a piece holds any character.
pub open spec fn is_word(piece: Seq<char>) -> bool {
    piece.len() > 0
}

/// The words of a marked text: its pieces in their order, without the
/// empty ones.
pub open spec fn words(marks: Seq<(char, bool)>) -> Seq<Seq<char>> {
    segments(marks).filter(|piece: Seq<char>| is_word(piece))
}

/// The characters of a marked text that belong to a word, in their order.
pub open spec fn word_chars(marks: Seq<(char, bool)>) -> Seq<char> {
    marks.filter(|mark: (char, bool)| mark.1).map_values(|mark: (char, bool)| mark.0)
}

/// A marked text is always cut into at least one piece.
pub proof fn lemma_segments_not_empty(marks: Seq<(char, bool)>)
    ensures
        segments(marks).len() >= 1,
    decreases marks.len(),
{
    if marks.len() > 0 {
        lemma_segments_not_empty(marks.drop_last());
    }
}

/// No word is empty.
pub proof fn lemma_words_are_not_empty(marks: Seq<(char, bool)>)
    ensures
        forall|i: int| 0 <= i < words(marks).len() ==> (#[trigger] words(marks)[i]).len() > 0,
{
    let keep = |piece: Seq<char>| is_word(piece);
    assert forall|i: int| 0 <= i < words(marks).len() implies (#[trigger] words(marks)[i]).len()
        > 0 by {
        Seq::lemma_filter_pred(segments(marks), keep, i);
    }
}

/// Leaving the empty pieces out changes nothing in what the pieces hold
/// when they are put end to end.
proof fn lemma_empty_pieces_hold_nothing(pieces: Seq<Seq<char>>)
    ensures
        pieces.filter(|piece: Seq<char>| is_word(piece)).flatten() == pieces.flatten(),
    decreases pieces.len(),
{
    let keep = |piece: Seq<char>| is_word(piece);
    if pieces.len() == 0 {
        assert(pieces.filter(keep) == pieces);
    } else {
        let front = pieces.drop_last();
        lemma_empty_pieces_hold_nothing(front);
        assert(pieces == front.push(pieces.last()));
        Seq::lemma_filter_push(front, pieces.last(), keep);
        Seq::lemma_flatten_push(front, pieces.last());
        if is_word(pieces.last()) {
            Seq::lemma_flatten_push(front.filter(keep), pieces.last());
        } else {
            assert(front.flatten() + pieces.last() == front.flatten());
        }
    }
}

/// The pieces of a marked text, put end to end, are its word characters in
/// their order.
proof fn lemma_segments_keep_order(marks: Seq<(char, bool)>)
    ensures
        segments(marks).flatten() == word_chars(marks),
    decreases marks.len(),
{
    let in_word = |mark: (char, bool)| mark.1;
    let letter = |mark: (char, bool)| mark.0;
    if marks.len() == 0 {
        Seq::<Seq<char>>::empty().lemma_flatten_push(Seq::empty());
        assert(segments(marks) == Seq::<Seq<char>>::empty().push(Seq::empty()));
        assert(Seq::<Seq<char>>::empty().flatten() == Seq::<char>::empty());
        assert(marks.filter(in_word) == marks);
        assert(word_chars(marks) == Seq::<char>::empty());
    } else {
        let front = marks.drop_last();
        let before = segments(front);
        lemma_segments_keep_order(front);
        lemma_segments_not_empty(front);
        assert(marks == front.push(marks.last()));
        Seq::lemma_filter_push(front, marks.last(), in_word);
        assert(before == before.drop_last().push(before.last()));
        Seq::lemma_flatten_push(before.drop_last(), before.last());
        if marks.last().1 {
            let c = marks.last().0;
            Seq::lemma_flatten_push(before.drop_last(), before.last().push(c));
            assert(before.drop_last().flatten() + before.last().push(c) == (
            before.drop_last().flatten() + before.last()).push(c));
            assert(word_chars(marks) == word_chars(front).push(c));
        } else {
            Seq::lemma_flatten_push(before, Seq::empty());
            assert(before.flatten() + Seq::<char>::empty() == before.flatten());
        }
    }
}

/// Cutting a text into words keeps the order of what it keeps: the words,
/// put end to end, are the word characters of the text in their order.
pub proof fn lemma_words_keep_order(marks: Seq<(char, bool)>)
    ensures
        words(marks).flatten() == word_chars(marks),
{
    lemma_empty_pieces_hold_nothing(segments(marks));
    lemma_segments_keep_order(marks);
}

/// The pieces of two marked texts in a row: the last piece of the first
/// and the first piece of the second grow together, and all others stay as
/// they are.
proof fn lemma_segments_of_two_texts(first: Seq<(char, bool)>, second: Seq<(char, bool)>)
    ensures
        segments(first).len() >= 1,
        segments(second).len() >= 1,
        segments(first + second) == segments(first).drop_last().push(
            segments(first).last() + segments(second).first(),
        ) + segments(second).drop_first(),
    decreases second.len(),
{
    lemma_segments_not_empty(first);
    lemma_segments_not_empty(second);
    let a = segments(first);
    let b = segments(second);
    if second.len() == 0 {
        assert(first + second == first);
        assert(a.last() + b.first() == a.last());
        assert(a.drop_last().push(a.last()) == a);
        assert(a + b.drop_first() == a);
    } else {
        let front = second.drop_last();
        let c = segments(front);
        lemma_segments_of_two_texts(first, front);
        lemma_segments_not_empty(front);
        assert((first + second).drop_last() == first + front);
        assert((first + second).last() == second.last());
        let joined = a.drop_last().push(a.last() + c.first()) + c.drop_first();
        assert(segments(first + front) == joined);
        if second.last().1 {
            let x = second.last().0;
            if c.len() == 1 {
                assert(c.drop_first() == Seq::<Seq<char>>::empty());
                assert(b.drop_first() == Seq::<Seq<char>>::empty());
                assert(b.first() == c.first().push(x));
                assert((a.last() + c.first()).push(x) == a.last() + b.first());
                assert(joined.drop_last().push(joined.last().push(x)) == a.drop_last().push(
                    a.last() + b.first(),
                ) + b.drop_first());
            } else {
                assert(b.first() == c.first());
                assert(b.drop_first() == c.drop_first().drop_last().push(c.last().push(x)));
                assert(joined.last() == c.last());
                assert(joined.drop_last() == a.drop_last().push(a.last() + c.first())
                    + c.drop_first().drop_last());
                assert(joined.drop_last().push(joined.last().push(x)) == a.drop_last().push(
                    a.last() + b.first(),
                ) + b.drop_first());
            }
        } else {
            assert(b.first() == c.first());
            assert(b.drop_first() == c.drop_first().push(Seq::empty()));
            assert(joined.push(Seq::empty()) == a.drop_last().push(a.last() + b.first())
                + b.drop_first());
        }
    }
}

/// A separator parts what stands before it from what stands after it:
/// the words of two marked texts with a separator between them are the
/// words of the first followed by the words of the second.
pub proof fn lemma_words_around_a_separator(
    first: Seq<(char, bool)>,
    separator: char,
    second: Seq<(char, bool)>,
)
    ensures
        words(first.push((separator, false)) + second) == words(first) + words(second),
{
    let keep = |piece: Seq<char>| is_word(piece);
    let cut = first.push((separator, false));
    let a = segments(first);
    let b = segments(second);
    lemma_segments_of_two_texts(cut, second);
    lemma_segments_not_empty(first);
    lemma_segments_not_empty(second);
    assert(cut.drop_last() == first);
    assert(segments(cut) == a.push(Seq::empty()));
    assert(segments(cut).drop_last() == a);
    assert(Seq::<char>::empty() + b.first() == b.first());
    assert(a.push(b.first()) + b.drop_first() == a + b);
    assert(segments(cut + second) == a + b);
    Seq::filter_distributes_over_add(a, b, keep);
}

/// Whether `c` stands somewhere in the marked text as a character that
/// belongs to a word.
pub open spec fn is_word_char_of(marks: Seq<(char, bool)>, c: char) -> bool {
    exists|k: int| 0 <= k < marks.len() && (#[trigger] marks[k]).1 && marks[k].0 == c
}

/// Every character of every piece is one that is marked as belonging to a
/// word: no separator is left in a piece.
pub proof fn lemma_segments_hold_word_chars(marks: Seq<(char, bool)>)
    ensures
        forall|i: int, j: int|
            0 <= i < segments(marks).len() && 0 <= j < segments(marks)[i].len()
                ==> is_word_char_of(marks, #[trigger] segments(marks)[i][j]),
    decreases marks.len(),
{
    if marks.len() > 0 {
        let front = marks.drop_last();
        let before = segments(front);
        let after = segments(marks);
        lemma_segments_hold_word_chars(front);
        lemma_segments_not_empty(front);
        assert forall|i: int, j: int|
            0 <= i < after.len() && 0 <= j < after[i].len() implies is_word_char_of(
            marks,
            #[trigger] after[i][j],
        ) by {
            if marks.last().1 && i == after.len() - 1 && j == after[i].len() - 1 {
                assert(marks[marks.len() - 1].1);
            } else {
                assert(after[i][j] == before[i][j]);
                assert(is_word_char_of(front, before[i][j]));
                let k = choose|k: int|
                    0 <= k < front.len() && (#[trigger] front[k]).1 && front[k].0 == before[i][j];
                assert(marks[k] == front[k]);
            }
        }
    }
}

/// Every character of every word of a message is alphanumeric.
pub proof fn lemma_words_are_alphanumeric(text: Seq<char>)
    ensures
        forall|i: int, j: int|
            0 <= i < words(marked(text)).len() && 0 <= j < words(marked(text))[i].len()
                ==> alphanumeric(#[trigger] words(marked(text))[i][j]),
{
    let marks = marked(text);
    let keep = |piece: Seq<char>| is_word(piece);
    lemma_segments_hold_word_chars(marks);
    assert forall|i: int, j: int|
        0 <= i < words(marks).len() && 0 <= j < words(marks)[i].len() implies alphanumeric(
        #[trigger] words(marks)[i][j],
    ) by {
        let word = words(marks)[i];
        assert(segments(marks).filter(keep).contains(word));
        Seq::lemma_filter_contains_rev(segments(marks), keep, word);
        let at = choose|at: int| 0 <= at < segments(marks).len() && segments(marks)[at] == word;
        assert(is_word_char_of(marks, segments(marks)[at][j]));
        let k = choose|k: int|
            0 <= k < marks.len() && (#[trigger] marks[k]).1 && marks[k].0 == word[j];
        assert(marks[k] == (text[k], alphanumeric(text[k])));
    }
}

/// Marks every character of a text as part of a word or as a separator:
/// a character belongs to a word when it is alphanumeric.
pub fn mark_words(text: &str) -> (marks: Vec<(char, bool)>)
    ensures
        marks@ == marked(text@),
{
    let mut marks: Vec<(char, bool)> = Vec::new();
    let mut rest = text.chars();
    loop
        invariant
            rest.remaining().len() <= text@.len(),
            rest.remaining() == text@.skip(text@.len() - rest.remaining().len()),
            marks@ == marked(text@.take(text@.len() - rest.remaining().len())),
            rest.decrease() is Some,
        decreases rest.decrease()->0,
    {
        let ghost seen = text@.len() - rest.remaining().len();
        match rest.next() {
            None => {
                assert(text@.take(seen) == text@);
                return marks;
            },
            Some(c) => {
                assert(c == text@[seen]);
                marks.push((c, c.is_alphanumeric()));
                assert(marks@ == marked(text@.take(seen + 1))) by {
                    assert(text@.take(seen + 1) == text@.take(seen).push(c));
                }
            },
        }
    }
}

/// Cuts a marked text into its words: the longest runs of characters that
/// belong to a word, in the order in which they stand in the text.
pub fn split_words(marks: &Vec<(char, bool)>) -> (found: Vec<String>)
    ensures
        found.deep_view() == words(marks@),
        forall|i: int| 0 <= i < found.len() ==> (#[trigger] found[i])@.len() > 0,
        found.deep_view().flatten() == word_chars(marks@),
{
    let ghost keep = |piece: Seq<char>| is_word(piece);
    let mut found: Vec<String> = Vec::new();
    let mut current = String::new();
    let mut i: usize = 0;
    proof {
        assert(segments(marks@.take(0)).drop_last() == Seq::<Seq<char>>::empty());
        assert(found.deep_view() == Seq::<Seq<char>>::empty());
    }
    while i < marks.len()
        invariant
            i <= marks.len(),
            keep == |piece: Seq<char>| is_word(piece),
            segments(marks@.take(i as int)).len() >= 1,
            found.deep_view() == segments(marks@.take(i as int)).drop_last().filter(keep),
            current@ == segments(marks@.take(i as int)).last(),
        decreases marks.len() - i,
    {
        let ghost before = segments(marks@.take(i as int));
        let ghost closed = before.drop_last();
        proof {
            assert(marks@.take(i + 1).drop_last() == marks@.take(i as int));
            lemma_segments_not_empty(marks@.take(i + 1));
        }
        let (c, in_word) = marks[i];
        if in_word {
            current.push(c);
            proof {
                let after = segments(marks@.take(i + 1));
                assert(after.drop_last() == closed);
            }
        } else {
            proof {
                let after = segments(marks@.take(i + 1));
                assert(after.drop_last() == before);
                assert(before == closed.push(before.last()));
                Seq::lemma_filter_push(closed, before.last(), keep);
            }
            if !current.as_str().is_empty() {
                let ghost earlier = found.deep_view();
                found.push(current);
                proof {
                    assert(found.deep_view() == earlier.push(before.last()));
                }
            }
            current = String::new();
        }
        i += 1;
    }
    proof {
        let all = segments(marks@);
        assert(marks@.take(i as int) == marks@);
        assert(all == all.drop_last().push(all.last()));
        Seq::lemma_filter_push(all.drop_last(), all.last(), keep);
    }
    if !current.as_str().is_empty() {
        let ghost earlier = found.deep_view();
        let ghost last = current@;
        found.push(current);
        proof {
            assert(found.deep_view() == earlier.push(last));
        }
    }
    proof {
        lemma_words_are_not_empty(marks@);
        lemma_words_keep_order(marks@);
        assert forall|i: int| 0 <= i < found.len() implies (#[trigger] found[i])@.len() > 0 by {
            assert(found[i]@ == words(marks@)[i]);
        }
    }
    found
}

/// The words of a message as a sequence of characters: the words of its
/// lower-case form, cut at every character that is not alphanumeric.
pub open spec fn message_words(text: Seq<char>) -> Seq<Seq<char>> {
    words(marked(lowercase(text)))
}

/// The words of a message: the text is put in lower case and cut at every
/// character that is not alphanumeric; what is left between two cuts is a
/// word, unless it is empty. The words come in the order of the text.
pub fn tokenize(text: &str) -> (tokens: Vec<String>)
    ensures
        tokens.deep_view() == message_words(text@),
        forall|i: int| 0 <= i < tokens.len() ==> (#[trigger] tokens[i])@.len() > 0,
        forall|i: int, j: int|
            0 <= i < tokens.len() && 0 <= j < tokens[i]@.len() ==> alphanumeric(
                #[trigger] tokens[i]@[j],
            ),
        tokens.deep_view().flatten() == word_chars(marked(lowercase(text@))),
{
    let lowered = text.to_lowercase();
    let marks = mark_words(lowered.as_str());
    let tokens = split_words(&marks);
    proof {
        lemma_words_are_alphanumeric(lowercase(text@));
        assert forall|i: int, j: int|
            0 <= i < tokens.len() && 0 <= j < tokens[i]@.len() implies alphanumeric(
            #[trigger] tokens[i]@[j],
        ) by {
            assert(tokens[i]@ == message_words(text@)[i]);
        }
    }
    tokens
}

/// The same words, borrowed.
pub fn as_words(tokens: &Vec<String>) -> (borrowed: Vec<&str>)
    ensures
        borrowed.deep_view() == tokens.deep_view(),
{
    let mut borrowed: Vec<&str> = Vec::new();
    let mut i: usize = 0;
    while i < tokens.len()
        invariant
            i <= tokens.len(),
            borrowed.len() == i,
            forall|k: int| 0 <= k < i ==> borrowed[k]@ == tokens[k]@,
        decreases tokens.len() - i,
    {
        borrowed.push(tokens[i].as_str());
        i += 1;
    }
    assert(borrowed.deep_view() =~= tokens.deep_view());
    borrowed
}

} // verus!
