use lsystem::dictionary::{Dictionary, DictionaryEntry};
use lsystem::error::RewriteError;
use lsystem::letter::Letter;
use lsystem::word::Word;

#[test]
fn test_first_subword_returns_none_for_empty_word() {
    let word = Word::new();
    let first = Word::from_letter(1);
    let second = Word::from_letter(2);
    let valid_subwords = vec![&first, &second];
    let first_subword = word.first_subword(&valid_subwords);
    assert!(first_subword.is_none());
}

#[test]
fn test_first_subword_returns_none_if_valid_word_is_empty() {
    let word = Word::from_letter(1);
    let first = Word::new();
    let valid_subwords = vec![&first];
    let first_subword = word.first_subword(&valid_subwords);
    assert!(first_subword.is_none());
}

#[test]
fn test_first_subword_returns_none_if_valid_word_is_longer_than_word() {
    let word = Word::from_letter(1);
    let first = Word::from_letters(vec![1, 2]);
    let valid_subwords = vec![&first];
    let first_subword = word.first_subword(&valid_subwords);
    assert!(first_subword.is_none());
}

#[test]
fn test_first_subword_for_word_of_usize() {
    let word: Word<i32> = Word::from_letters(vec![1, 2, 3, 4, 5]);
    let valid_subword: Word<i32> = Word::from_letters(vec![1, 2]);
    let valid_subwords = vec![&valid_subword];
    let first_subword = word.first_subword(&valid_subwords);
    assert!(first_subword.is_some());
    assert_eq!(first_subword.unwrap(), valid_subword.as_slice());
}

#[test]
fn test_subwords_on_empty_word() {
    let word: Word<usize> = Word::new();
    let first = Word::from_letter(1);
    let second = Word::from_letter(2);
    let third = Word::from_letter(3);
    let valid_subwords = vec![&first, &second, &third];
    let subwords = word.subwords(&valid_subwords).unwrap();
    assert!(subwords.is_empty());
}

#[test]
fn test_subwords_with_empty_valid_word() {
    let numbers = vec![1, 2, 3];
    let word: Word<i32> = Word::from_slice(&numbers);
    let first = Word::new();
    let valid_subwords = vec![&first];
    let subwords = word.subwords(&valid_subwords);
    assert_eq!(subwords, Err(RewriteError::NoMatchAtPosition { position: 0 }));
}

#[test]
fn test_subwords_on_word_of_usize() {
    let numbers = vec![1, 2, 3, 4, 5];
    let word: Word<i32> = Word::from_slice(&numbers);
    let first = Word::from_slice(&numbers[3..]);
    let second = Word::from_slice(&numbers[..3]);
    let valid_subwords = vec![&first, &second];
    let subwords = word.subwords(&valid_subwords);
    assert_eq!(subwords, Ok(vec![&numbers[..3], &numbers[3..]]));
}

#[test]
fn test_first_subword_context_free() {
    let word_of_numbers = Word::from_letters(vec![1, 2, 3, 4, 5]);

    let first = Word::from_letters(vec![1, 2]);
    let second = Word::from_letters(vec![3]);
    let third = Word::from_letters(vec![4, 5]);
    let fourth = Word::from_letters(vec![6]);

    let dictionary: Dictionary<usize, ()> =
        Dictionary::with_words(vec![first.clone(), second, third, fourth]).unwrap();

    let valid_subwords: Vec<&Word<_>> = dictionary.keys();
    let first_valid_word = word_of_numbers.first_subword(&valid_subwords);
    assert!(first_valid_word.is_some());
    assert_eq!(first_valid_word.unwrap(), first.as_slice());
}

#[test]
fn test_first_subword_context_dependent() {
    let word_of_numbers = Word::from_letters(vec![1, 2, 3, 4, 5]);

    let first = Word::from_letters(vec![1, 2]);
    let second = Word::from_letters(vec![1, 2, 3]);

    let dictionary: Dictionary<usize, ()> = Dictionary::with_words(vec![first, second.clone()]).unwrap();

    let valid_subwords: Vec<&Word<_>> = dictionary.keys();
    let first_valid_word = word_of_numbers.first_subword(&valid_subwords);
    assert!(first_valid_word.is_some());
    assert_eq!(first_valid_word.unwrap(), second.as_slice());
}

#[test]
fn test_subwords_context_free() {
    let word_of_numbers = Word::from_letters(vec![1, 2, 3, 4, 5]);

    let first = Word::from_letters(vec![1, 2]);
    let second = Word::from_letters(vec![3]);
    let third = Word::from_letters(vec![4, 5]);
    let fourth = Word::from_letters(vec![6]);

    let dictionary: Dictionary<usize, ()> = Dictionary::with_words(vec![
        first.clone(),
        second.clone(),
        third.clone(),
        fourth.clone(),
    ])
    .unwrap();

    let valid_subwords: Vec<&Word<_>> = dictionary.keys();
    let valid_words = word_of_numbers.subwords(&valid_subwords);
    assert_eq!(valid_words, Ok(vec![first.as_slice(), second.as_slice(), third.as_slice()]));
}

#[test]
fn test_subwords_context_dependent() {
    let word_of_numbers = Word::from_letters(vec![1, 2, 3, 4, 5]);

    let first = Word::from_letters(vec![1, 2]);
    let second = Word::from_letters(vec![1, 2, 3]);
    let third = Word::from_letters(vec![4, 5]);
    let fourth = Word::from_letters(vec![6]);

    let dictionary: Dictionary<usize, ()> = Dictionary::with_words(vec![
        first.clone(),
        second.clone(),
        third.clone(),
        fourth.clone(),
    ])
    .unwrap();

    let valid_subwords: Vec<&Word<_>> = dictionary.keys();
    let valid_words = word_of_numbers.subwords(&valid_subwords);
    assert_eq!(valid_words, Ok(vec![second.as_slice(), third.as_slice()]));
}

#[test]
fn test_apply_replacements() {
    let initial: Word<char> = Word::from_text("f--f--f");
    let dictionary: Dictionary<char, ()> = Dictionary::with_words_and_entries(vec![
        (Word::from_text("f"), DictionaryEntry::new().with_replacement(Word::from_text("f+f--f+f"))),
        (Word::from_text("+"), DictionaryEntry::new()),
        (Word::from_text("-"), DictionaryEntry::new()),
    ])
    .unwrap();
    let result = initial.apply_replacements(&dictionary);
    assert_eq!(result, Ok(Word::from_text("f+f--f+f--f+f--f+f--f+f--f+f")));
}

/// A letter that is a function pointer, compared by address.
#[derive(Debug, Clone, Copy, PartialEq)]
struct Function(fn(i32) -> i32);

impl Letter for Function {
    fn same_as(&self, other: &Function) -> bool {
        self == other
    }
}

#[test]
fn test_apply_replacement_rules_functions() {
    let first = Function(|x| x + 3);
    let second = Function(|x| x + 1);
    let third = Function(|x| x * x);

    let word_of_functions: Word<Function> = Word::from_letter(first);
    let dictionary: Dictionary<Function, ()> = Dictionary::with_words_and_entries(vec![(
        Word::from_letter(first),
        DictionaryEntry::new().with_replacement(Word::from_letters(vec![second, third, first, third, second])),
    )])
    .unwrap();
    let result = word_of_functions.apply_replacements(&dictionary);
    assert_eq!(result, Ok(Word::from_letters(vec![second, third, first, third, second])));
}

#[test]
fn return_none_for_empty_word() {
    let word: Word<i32> = Word::new();
    let one = Word::from_letters(vec![1]);
    let valid_subwords = vec![&one];
    let result = word.first_subword(&valid_subwords);
    assert!(result.is_none());
}

#[test]
fn return_none_if_valid_word_is_empty() {
    let word = Word::from_letters(vec![1, 2, 3]);
    let empty: Word<i32> = Word::new();
    let valid_subwords = vec![&empty];
    let result = word.first_subword(&valid_subwords);
    assert!(result.is_none());
}

#[test]
fn word_slice_context_free() {
    let word = Word::from_letters(vec![1, 2, 3, 4, 5]);
    let one = Word::from_letters(vec![1]);
    let valid_subwords = vec![&one];
    let result = word.first_subword(&valid_subwords);
    assert!(result.is_some());
    assert_eq!(result.unwrap(), &[1][..]);
}

#[test]
fn word_slice_context_dependent() {
    let word = Word::from_letters(vec![1, 2, 3, 4, 5]);
    let one = Word::from_letters(vec![1]);
    let one_two = Word::from_letters(vec![1, 2]);
    let valid_subwords = vec![&one, &one_two];
    let result = word.first_subword(&valid_subwords);
    assert!(result.is_some());
    assert_eq!(result.unwrap(), &[1, 2][..]);
}

#[test]
fn return_no_subwords_for_empty_word() {
    let word: Word<i32> = Word::from_letters(vec![]);
    let one = Word::from_letters(vec![1]);
    let valid_subwords = vec![&one];
    let subwords = word.subwords(&valid_subwords);
    assert_eq!(subwords, Ok(vec![] as Vec<&[i32]>));
}

#[test]
fn return_no_subwords_for_empty_list_of_valid_words() {
    let word = Word::from_letters(vec![1, 2, 3, 4, 5]);
    let valid_subwords: Vec<&Word<i32>> = vec![];
    let subwords = word.subwords(&valid_subwords);
    assert_eq!(subwords, Err(RewriteError::NoMatchAtPosition { position: 0 }));
}

#[test]
fn context_free() {
    let word = Word::from_letters(vec![1, 2, 3, 4, 5]);
    let first = [1, 2];
    let second = [3];
    let third = [4, 5];
    let first_word = Word::from_slice(&first[..]);
    let second_word = Word::from_slice(&second[..]);
    let third_word = Word::from_slice(&third[..]);
    let valid_subwords = vec![&first_word, &second_word, &third_word];
    let subwords = word.subwords(&valid_subwords);
    assert_eq!(subwords, Ok(vec![&first[..], &second[..], &third[..]]));
}

#[test]
fn context_dependent() {
    let word = Word::from_letters(vec![1, 2, 3, 4, 5]);
    let first = [1, 2];
    let second = [1, 2, 3];
    let third = [4, 5];
    let first_word = Word::from_slice(&first[..]);
    let second_word = Word::from_slice(&second[..]);
    let third_word = Word::from_slice(&third[..]);
    let valid_subwords = vec![&first_word, &second_word, &third_word];
    let subwords = word.subwords(&valid_subwords);
    assert_eq!(subwords, Ok(vec![&second[..], &third[..]]));
}

#[test]
fn subwords_fail_where_nothing_matches() {
    let word = Word::from_text("xyz");
    let a = Word::from_text("a");
    assert_eq!(word.subwords(&[&a]), Err(RewriteError::NoMatchAtPosition { position: 0 }));
    let word = Word::from_text("aab");
    assert_eq!(word.subwords(&[&a]), Err(RewriteError::NoMatchAtPosition { position: 2 }));
}

#[test]
fn text_round_trip() {
    for text in ["f--f--f", "", "F+F--F+F", "[ab]ç"] {
        assert_eq!(Word::from_text(text).to_text(), text);
    }
    assert_eq!(Word::from_text("abc").len(), 3);
    assert_eq!(Word::from_text("abc").get(1), Some('b'));
    assert_eq!(Word::from_text("abc").get(3), None);
}

#[test]
fn editing_words() {
    let mut w = Word::from_text("ace");
    assert_eq!(w.insert(1, 'b'), Ok(()));
    assert_eq!(w.insert(4, 'f'), Ok(()));
    assert_eq!(w.to_text(), "abcef");
    assert_eq!(w.insert(6, 'x'), Err(RewriteError::IndexOutOfBounds { index: 6, len: 5 }));
    assert_eq!(w.remove(3), Ok('e'));
    assert_eq!(w.remove(4), Err(RewriteError::IndexOutOfBounds { index: 4, len: 4 }));
    assert_eq!(w.to_text(), "abcf");
    let tail = w.split_off(1).unwrap();
    assert_eq!(w.to_text(), "a");
    assert_eq!(tail.to_text(), "bcf");
    assert_eq!(w.split_off(2), Err(RewriteError::IndexOutOfBounds { index: 2, len: 1 }));
    w.append(tail);
    assert_eq!(w.to_text(), "abcf");
    let both = Word::concat(&w, &Word::from_text("gh"));
    assert_eq!(both.to_text(), "abcfgh");
    assert_eq!(w.to_text(), "abcf");
}

#[test]
fn slicing_words() {
    let w = Word::from_text("abcdef");
    assert_eq!(w.slice(1, 4).unwrap().to_text(), "bcd");
    assert_eq!(w.slice(6, 6).unwrap().to_text(), "");
    assert_eq!(w.slice(2, 7), Err(RewriteError::IndexOutOfBounds { index: 7, len: 6 }));
    assert_eq!(w.slice(4, 3), Err(RewriteError::IndexOutOfBounds { index: 4, len: 6 }));
}

#[test]
fn prefixes_and_occurrences() {
    let w = Word::from_text("abcabd");
    assert!(w.starts_with(&['a', 'b']));
    assert!(w.starts_with(&[]));
    assert!(!w.starts_with(&['b']));
    assert!(!w.starts_with(&['a', 'b', 'c', 'a', 'b', 'd', 'e']));
    assert!(w.contains_word(&['a', 'b', 'd']));
    assert!(w.contains_word(&['d']));
    assert!(!w.contains_word(&['b', 'd', 'x']));
    assert!(!w.contains_word(&[]));
    assert!(!Word::<char>::new().contains_word(&['a']));
    assert!(w.same_letters(&Word::from_text("abcabd")));
    assert!(!w.same_letters(&Word::from_text("abcab")));
    assert!(w.duplicate().same_letters(&w));
}
