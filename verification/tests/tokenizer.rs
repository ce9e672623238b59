use jouch::tokenizer::{as_words, mark_words, split_words, tokenize};

fn strings(words: &[&str]) -> Vec<String> {
    words.iter().map(|w| w.to_string()).collect()
}

#[test]
fn tokenize_lowercases_and_cuts_at_punctuation() {
    assert_eq!(tokenize("This is HERESY!"), strings(&["this", "is", "heresy"]));
}

#[test]
fn tokenize_empty_text_has_no_words() {
    assert_eq!(tokenize(""), Vec::<String>::new());
}

#[test]
fn tokenize_text_of_separators_has_no_words() {
    assert_eq!(tokenize("  !!--\n\t.."), Vec::<String>::new());
}

#[test]
fn tokenize_drops_empty_pieces_between_separators() {
    assert_eq!(tokenize("a,,b;  ;c"), strings(&["a", "b", "c"]));
}

#[test]
fn tokenize_keeps_digits_in_words() {
    assert_eq!(tokenize("route66 is 2long"), strings(&["route66", "is", "2long"]));
}

#[test]
fn tokenize_cuts_at_underscore_and_apostrophe() {
    assert_eq!(tokenize("don't snake_case"), strings(&["don", "t", "snake", "case"]));
}

#[test]
fn tokenize_knows_letters_and_digits_beyond_ascii() {
    assert_eq!(
        tokenize("\u{c9}LAN vital\u{2014}na\u{ef}ve \u{663}\u{664}"),
        strings(&["\u{e9}lan", "vital", "na\u{ef}ve", "\u{663}\u{664}"])
    );
}

#[test]
fn tokenize_uses_full_lower_case_mapping() {
    // The capital sharp s has a lower-case form; a final capital sigma
    // becomes the final small sigma.
    assert_eq!(tokenize("STRA\u{1e9e}E"), strings(&["stra\u{df}e"]));
    assert_eq!(tokenize("\u{39f}\u{394}\u{39f}\u{3a3}"), strings(&["\u{3bf}\u{3b4}\u{3bf}\u{3c2}"]));
}

#[test]
fn tokenize_never_gives_an_empty_word_and_keeps_order() {
    let text = "  The quick,brown...fox!! JUMPS  over\tthe lazy-dog  ";
    let tokens = tokenize(text);
    assert!(tokens.iter().all(|t| !t.is_empty()));
    let joined: String = tokens.concat();
    let kept: String = text.to_lowercase().chars().filter(|c| c.is_alphanumeric()).collect();
    assert_eq!(joined, kept);
    assert_eq!(
        tokens,
        strings(&["the", "quick", "brown", "fox", "jumps", "over", "the", "lazy", "dog"])
    );
}

#[test]
fn mark_words_marks_each_character() {
    assert_eq!(
        mark_words("a1 -\u{e9}"),
        vec![('a', true), ('1', true), (' ', false), ('-', false), ('\u{e9}', true)]
    );
    assert_eq!(mark_words(""), Vec::<(char, bool)>::new());
}

#[test]
fn split_words_goes_by_the_marks_alone() {
    let marks = vec![('a', true), ('-', true), ('b', false), ('c', true), ('d', false)];
    assert_eq!(split_words(&marks), strings(&["a-", "c"]));
}

#[test]
fn split_words_of_nothing_is_nothing() {
    assert_eq!(split_words(&Vec::new()), Vec::<String>::new());
    assert_eq!(split_words(&vec![('x', false), ('y', false)]), Vec::<String>::new());
}

#[test]
fn split_words_keeps_a_word_at_either_end() {
    let marks = vec![('a', true), ('b', true), (' ', false), (' ', false), ('c', true)];
    assert_eq!(split_words(&marks), strings(&["ab", "c"]));
}

#[test]
fn as_words_borrows_the_same_words() {
    let tokens = strings(&["the", "jouch"]);
    assert_eq!(as_words(&tokens), vec!["the", "jouch"]);
    assert_eq!(as_words(&Vec::new()), Vec::<&str>::new());
}

#[test]
fn separator_parts_the_words_before_it_from_those_after_it() {
    let first = vec![('a', true), (' ', false), ('b', true), ('c', true)];
    let second = vec![('d', true), ('-', false), ('-', false), ('e', true)];
    let mut joined = first.clone();
    joined.push(('!', false));
    joined.extend(second.iter().cloned());
    let mut expected = split_words(&first);
    expected.extend(split_words(&second));
    assert_eq!(split_words(&joined), expected);
    assert_eq!(split_words(&joined), strings(&["a", "bc", "d", "e"]));
}

#[test]
fn words_grow_together_where_no_separator_parts_them() {
    let mut joined = vec![('a', true), ('b', true)];
    joined.extend(vec![('c', true), (' ', false), ('d', true)]);
    assert_eq!(split_words(&joined), strings(&["abc", "d"]));
}
