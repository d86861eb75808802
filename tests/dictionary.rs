use lsystem::common_fractals::{DragonCurve, HilbertCurve};
use lsystem::dictionary::{Dictionary, DictionaryEntry};
use lsystem::error::RewriteError;
use lsystem::letter::{LindenmayerLetter, MyLetters, Replacement};
use lsystem::semantics::AppendChar;
use lsystem::word::Word;

fn text_pieces(pieces: Vec<&[char]>) -> Vec<String> {
    pieces.into_iter().map(|p| p.iter().collect()).collect()
}

#[test]
fn last_write_wins() {
    let mut dictionary: Dictionary<char, AppendChar> = Dictionary::new();
    let key = Word::from_text("ab");
    dictionary
        .insert(key.clone(), DictionaryEntry::new().with_replacement(Word::from_text("first")))
        .unwrap();
    dictionary
        .insert(
            key.clone(),
            DictionaryEntry::new()
                .with_replacement(Word::from_text("second"))
                .with_semantics(AppendChar { symbol: 's' }),
        )
        .unwrap();
    let entry = dictionary.get(&key).unwrap();
    assert_eq!(entry.replacement().unwrap().to_text(), "second");
    assert_eq!(entry.semantics(), Some(&AppendChar { symbol: 's' }));
    assert_eq!(dictionary.keys().len(), 1);
    assert_eq!(dictionary.len(), 1);
}

#[test]
fn later_pairs_override_earlier_ones() {
    let dictionary: Dictionary<char, ()> = Dictionary::with_words_and_entries(vec![
        (Word::from_text("a"), DictionaryEntry::new().with_replacement(Word::from_text("x"))),
        (Word::from_text("a"), DictionaryEntry::new().with_replacement(Word::from_text("y"))),
    ])
    .unwrap();
    assert_eq!(dictionary.get(&Word::from_text("a")).unwrap().replacement().unwrap().to_text(), "y");
}

#[test]
fn removing_entries() {
    let mut dictionary: Dictionary<char, ()> = Dictionary::with_words_and_entries(vec![
        (Word::from_text("a"), DictionaryEntry::new().with_replacement(Word::from_text("b"))),
        (Word::from_text("b"), DictionaryEntry::new()),
        (Word::from_text("c"), DictionaryEntry::new()),
    ])
    .unwrap();
    let removed = dictionary.remove(&Word::from_text("a")).unwrap();
    assert_eq!(removed.replacement().unwrap().to_text(), "b");
    assert!(dictionary.remove(&Word::from_text("a")).is_none());
    assert!(!dictionary.contains_key(&Word::from_text("a")));
    assert!(dictionary.contains_key(&Word::from_text("b")));
    assert!(dictionary.contains_key(&Word::from_text("c")));
    assert_eq!(dictionary.keys().len(), 2);
    assert_eq!(dictionary.len(), 2);
}

#[test]
fn empty_keys_are_rejected() {
    let mut dictionary: Dictionary<char, ()> = Dictionary::new();
    assert_eq!(dictionary.insert(Word::new(), DictionaryEntry::new()), Err(RewriteError::EmptyKeyRejected));
    assert!(dictionary.keys().is_empty());
    assert_eq!(
        Dictionary::<char, ()>::with_words(vec![Word::from_text("a"), Word::new()]).err(),
        Some(RewriteError::EmptyKeyRejected)
    );
    assert_eq!(
        Dictionary::<char, ()>::with_words_and_entries(vec![(Word::new(), DictionaryEntry::new())]).err(),
        Some(RewriteError::EmptyKeyRejected)
    );
}

#[test]
fn lookup_is_exact() {
    let dictionary: Dictionary<char, ()> =
        Dictionary::with_words(vec![Word::from_text("ab"), Word::from_text("b")]).unwrap();
    assert!(dictionary.contains_key(&Word::from_text("ab")));
    assert!(!dictionary.contains_key(&Word::from_text("a")));
    assert!(dictionary.get(&Word::from_text("abc")).is_none());
    assert!(dictionary.get(&Word::from_text("b")).is_some());
}

#[test]
fn entry_editing() {
    let mut entry: DictionaryEntry<char, AppendChar> = DictionaryEntry::new();
    assert!(entry.replacement().is_none());
    assert!(entry.semantics().is_none());
    entry.add_replacement(Word::from_text("xy"));
    entry.add_semantics(AppendChar { symbol: 'q' });
    assert_eq!(entry.replacement().unwrap().to_text(), "xy");
    assert_eq!(entry.semantics(), Some(&AppendChar { symbol: 'q' }));
    entry.clear_replacement();
    assert!(entry.replacement().is_none());
    assert!(entry.semantics().is_some());
    entry.clear_semantics();
    assert!(entry.semantics().is_none());
}

#[test]
fn no_match_failure() {
    let dictionary: Dictionary<char, ()> = Dictionary::with_words(vec![Word::from_text("a")]).unwrap();
    let text = Word::from_text("xyz");
    assert_eq!(dictionary.segment(&text), Err(RewriteError::NoMatchAtPosition { position: 0 }));
    assert_eq!(text.apply_replacements(&dictionary), Err(RewriteError::NoMatchAtPosition { position: 0 }));
    let later = Word::from_text("aax");
    assert_eq!(dictionary.segment(&later), Err(RewriteError::NoMatchAtPosition { position: 2 }));
}

#[test]
fn segmentation_takes_longest_keys() {
    let dictionary: Dictionary<char, ()> = Dictionary::with_words(vec![
        Word::from_text("a"),
        Word::from_text("ab"),
        Word::from_text("abc"),
        Word::from_text("b"),
        Word::from_text("c"),
        Word::from_text("ca"),
    ])
    .unwrap();
    let text = Word::from_text("abcabab");
    let pieces = dictionary.segment(&text).unwrap();
    assert_eq!(text_pieces(pieces), vec!["abc", "ab", "ab"]);
    let other = Word::from_text("bcab");
    assert_eq!(text_pieces(dictionary.segment(&other).unwrap()), vec!["b", "ca", "b"]);
}

#[test]
fn single_letters_cover_every_word() {
    let dictionary: Dictionary<char, ()> =
        Dictionary::with_words(vec![Word::from_text("x"), Word::from_text("y"), Word::from_text("z")]).unwrap();
    let text = Word::from_text("zyxxyz");
    let pieces = dictionary.segment(&text).unwrap();
    assert_eq!(pieces.len(), 6);
    assert_eq!(text_pieces(pieces).concat(), "zyxxyz");
    assert_eq!(dictionary.segment(&Word::new()).unwrap().len(), 0);
}

#[test]
fn identity_rewrite() {
    let dictionary: Dictionary<char, ()> =
        Dictionary::with_words(vec![Word::from_text("F"), Word::from_text("+"), Word::from_text("F+")]).unwrap();
    let word = Word::from_text("F+F++F");
    assert_eq!(word.apply_replacements(&dictionary), Ok(word.clone()));
    assert_eq!(Word::new().apply_replacements(&dictionary), Ok(Word::new()));
}

#[test]
fn multi_letter_rules() {
    let dictionary: Dictionary<char, ()> = Dictionary::with_words_and_entries(vec![
        (Word::from_text("ab"), DictionaryEntry::new().with_replacement(Word::from_text("X"))),
        (Word::from_text("a"), DictionaryEntry::new().with_replacement(Word::from_text("Y"))),
        (Word::from_text("b"), DictionaryEntry::new()),
    ])
    .unwrap();
    assert_eq!(Word::from_text("abab a b").apply_replacements(&dictionary), Err(RewriteError::NoMatchAtPosition { position: 4 }));
    assert_eq!(Word::from_text("abaab").apply_replacements(&dictionary).unwrap().to_text(), "XYX");
    assert_eq!(Word::from_text("ba").apply_replacements(&dictionary).unwrap().to_text(), "bY");
}

#[test]
fn semantics_ordering() {
    let dictionary: Dictionary<char, AppendChar> = Dictionary::with_words_and_entries(vec![
        (Word::from_text("F"), DictionaryEntry::new().with_semantics(AppendChar { symbol: 'F' })),
        (Word::from_text("+"), DictionaryEntry::new().with_semantics(AppendChar { symbol: '+' })),
        (Word::from_text("-"), DictionaryEntry::new().with_semantics(AppendChar { symbol: '-' })),
    ])
    .unwrap();
    let mut payload = String::new();
    Word::from_text("F+F--F+F").apply_semantics(&dictionary, &mut payload).unwrap();
    assert_eq!(payload, "F+F--F+F");
}

#[test]
fn semantics_skip_entries_without_actions() {
    let dictionary: Dictionary<char, AppendChar> = Dictionary::with_words_and_entries(vec![
        (Word::from_text("F"), DictionaryEntry::new().with_semantics(AppendChar { symbol: 'd' })),
        (Word::from_text("X"), DictionaryEntry::new()),
    ])
    .unwrap();
    let mut payload = String::from(">");
    Word::from_text("XFXXF").apply_semantics(&dictionary, &mut payload).unwrap();
    assert_eq!(payload, ">dd");
    let mut untouched = String::from(">");
    assert_eq!(
        Word::from_text("FFq").apply_semantics(&dictionary, &mut untouched),
        Err(RewriteError::NoMatchAtPosition { position: 2 })
    );
    assert_eq!(untouched, ">");
}

#[test]
fn letter_rules_dictionary() {
    let letters = [HilbertCurve::A, HilbertCurve::B, HilbertCurve::F, HilbertCurve::L, HilbertCurve::R];
    let dictionary: Dictionary<HilbertCurve, ()> = Dictionary::from_letter_rules(&letters);
    assert_eq!(dictionary.keys().len(), 5);
    let next = Word::from_letter(HilbertCurve::A).apply_replacements(&dictionary).unwrap();
    assert_eq!(next.as_slice(), HilbertCurve::A.replacement().unwrap().as_slice());
    let next = next.apply_replacements(&dictionary).unwrap();
    assert_eq!(next.len(), 2 * 11 + 2 * 11 + 3 * 2 + 4);
}

#[test]
fn letter_replacements() {
    assert_eq!(
        DragonCurve::F.replacement(),
        Some(vec![DragonCurve::L, DragonCurve::F, DragonCurve::R, DragonCurve::R, DragonCurve::W, DragonCurve::L])
    );
    assert_eq!(DragonCurve::L.replacement(), None);
    assert_eq!(MyLetters::Forward.replacement(), None);
    assert_eq!(LindenmayerLetter::forward(), LindenmayerLetter::F);
}
