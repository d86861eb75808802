use lsystem::alphabet::Alphabet;

#[test]
fn test_from_vector() {
    let chars = vec!['a', 'b', 'c'];
    let mut alphabet = Alphabet::from_letters(chars);
    assert!(alphabet.take(&'a').is_some());
    assert!(alphabet.take(&'b').is_some());
    assert!(alphabet.take(&'c').is_some());
}

#[test]
fn test_from_slice() {
    let chars: &[char] = &['a', 'b', 'c'];
    let mut alphabet = Alphabet::from_slice(chars);
    assert!(alphabet.take(&'a').is_some());
    assert!(alphabet.take(&'b').is_some());
    assert!(alphabet.take(&'c').is_some());
}

#[test]
fn test_from_string() {
    let text = "abc";
    let mut alphabet = Alphabet::from_text(text);
    assert!(alphabet.take(&'a').is_some());
    assert!(alphabet.take(&'b').is_some());
    assert!(alphabet.take(&'c').is_some());
}

#[test]
fn alphabet_keeps_letters_once() {
    let mut alphabet = Alphabet::from_text("abca");
    assert_eq!(alphabet.len(), 3);
    assert!(!alphabet.insert('b'));
    assert!(alphabet.insert('d'));
    assert_eq!(alphabet.len(), 4);
    assert_eq!(alphabet.take(&'a'), Some('a'));
    assert_eq!(alphabet.take(&'a'), None);
    assert!(!alphabet.contains(&'a'));
    assert!(alphabet.contains(&'d'));
    assert_eq!(alphabet.len(), 3);
}

#[test]
fn empty_alphabet() {
    let mut alphabet: Alphabet<u32> = Alphabet::new();
    assert_eq!(alphabet.len(), 0);
    assert_eq!(alphabet.take(&7), None);
}
