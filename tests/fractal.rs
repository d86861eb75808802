use lsystem::dictionary::{Dictionary, DictionaryEntry};
use lsystem::error::RewriteError;
use lsystem::fractal::{Fractal, Koch};
use lsystem::semantics::AppendChar;
use lsystem::word::Word;

#[test]
fn fractal_koch() {
    let mut koch = Koch(String::new());
    koch.apply_replacements().unwrap();
    assert_eq!(
        koch.word_at(1).unwrap().as_slice(),
        &vec![
            Koch::Forward, Koch::TurnLeft, Koch::Forward, Koch::TurnRight, Koch::TurnRight, Koch::Forward, Koch::TurnLeft, Koch::Forward,
            Koch::TurnRight,
            Koch::TurnRight,
            Koch::Forward, Koch::TurnLeft, Koch::Forward, Koch::TurnRight, Koch::TurnRight, Koch::Forward, Koch::TurnLeft, Koch::Forward,
            Koch::TurnRight,
            Koch::TurnRight,
            Koch::Forward, Koch::TurnLeft, Koch::Forward, Koch::TurnRight, Koch::TurnRight, Koch::Forward, Koch::TurnLeft, Koch::Forward
        ][..]
    );
}

#[test]
fn koch() {
    let mut koch = Koch(String::new());
    koch.apply_semantics(0).unwrap();
    assert_eq!(koch.payload(), "F--F--F");
}

fn koch_curve_engine() -> Fractal<char, AppendChar, String> {
    let dictionary = Dictionary::with_words_and_entries(vec![
        (
            Word::from_text("F"),
            DictionaryEntry::new()
                .with_replacement(Word::from_text("F+F--F+F"))
                .with_semantics(AppendChar { symbol: 'F' }),
        ),
        (Word::from_text("+"), DictionaryEntry::new().with_semantics(AppendChar { symbol: '+' })),
        (Word::from_text("-"), DictionaryEntry::new().with_semantics(AppendChar { symbol: '-' })),
    ])
    .unwrap();
    let mut fractal = Fractal::new(String::new());
    fractal.with_dictionary(dictionary);
    fractal.with_starting_word(Word::from_text("F"));
    fractal
}

#[test]
fn koch_curve_generations_grow() {
    let mut fractal = koch_curve_engine();
    assert_eq!(fractal.iteration(0).unwrap().to_text(), "F");
    assert_eq!(fractal.iteration(1).unwrap().to_text(), "F+F--F+F");
    let second = fractal.iteration(2).unwrap().to_text();
    assert_eq!(second.len(), 36);
    let expected: String = "F+F--F+F"
        .chars()
        .map(|c| if c == 'F' { "F+F--F+F".to_string() } else { c.to_string() })
        .collect();
    assert_eq!(second, expected);
    assert_eq!(second, "F+F--F+F+F+F--F+F--F+F--F+F+F+F--F+F");
}

#[test]
fn generations_are_cached() {
    let mut fractal = koch_curve_engine();
    assert!(fractal.word_at(1).is_none());
    fractal.iteration(3).unwrap();
    assert_eq!(fractal.word_at(1).unwrap().to_text(), "F+F--F+F");
    assert_eq!(fractal.word_at(3).unwrap().len(), 148);
    assert!(fractal.word_at(4).is_none());
    assert_eq!(fractal.iteration(2).unwrap().len(), 36);
    assert!(fractal.word_at(4).is_none());
    fractal.apply_semantics(1).unwrap();
    assert!(fractal.word_at(3).is_some());
    assert!(fractal.word_at(4).is_none());
    assert_eq!(fractal.word_at(0).unwrap().to_text(), "F");
}

#[test]
fn semantics_run_left_to_right() {
    let mut fractal = koch_curve_engine();
    fractal.apply_semantics(1).unwrap();
    assert_eq!(fractal.payload(), "F+F--F+F");
}

#[test]
fn failing_generation_leaves_cache() {
    let dictionary = Dictionary::with_words_and_entries(vec![(
        Word::from_text("a"),
        DictionaryEntry::<char, ()>::new().with_replacement(Word::from_text("ab")),
    )])
    .unwrap();
    let mut fractal = Fractal::new(());
    fractal.with_dictionary(dictionary);
    fractal.with_starting_word(Word::from_text("aa"));
    assert_eq!(fractal.iteration(1).unwrap().to_text(), "abab");
    assert_eq!(
        fractal.iteration(3),
        Err(RewriteError::NoMatchAtPosition { position: 1 })
    );
    assert_eq!(fractal.word_at(1).unwrap().to_text(), "abab");
    assert!(fractal.word_at(2).is_none());
    assert_eq!(fractal.apply_semantics(2), Err(RewriteError::NoMatchAtPosition { position: 1 }));
}

#[test]
fn koch_symbols() {
    assert_eq!(Koch::Forward.symbol(), 'F');
    assert_eq!(Koch::TurnLeft.symbol(), '+');
    assert_eq!(Koch::TurnRight.symbol(), '-');
}
