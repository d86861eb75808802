use vstd::prelude::*;

use crate::letter::Letter;
use crate::word::Word;

verus! {

/// A set of distinct letters.
#[derive(Clone, Debug)]
pub struct Alphabet<L> {
    container: Vec<L>,
}

impl<L> View for Alphabet<L> {
    type V = Set<L>;

    closed spec fn view(&self) -> Set<L> {
        self.container@.to_set()
    }
}

impl<L> Alphabet<L> {
    /// No letter is held twice.
    pub closed spec fn wf(&self) -> bool {
        self.container@.no_duplicates()
    }
}

impl<L: Letter> Alphabet<L> {
    /// The empty alphabet.
    pub fn new() -> (a: Self)
        ensures
            a.wf(),
            a@ == Set::<L>::empty(),
    {
        let a = Alphabet { container: Vec::new() };
        assert(a@ =~= Set::<L>::empty());
        a
    }

    fn position(&self, letter: &L) -> (r: Option<usize>)
        ensures
            match r {
                Some(i) => i < self.container@.len() && self.container@[i as int] == *letter,
                None => !self@.contains(*letter),
            },
    {
        let mut i: usize = 0;
        while i < self.container.len()
            invariant
                0 <= i <= self.container@.len(),
                forall|j: int| 0 <= j < i ==> self.container@[j] != *letter,
            decreases self.container@.len() - i,
        {
            if self.container[i].same_as(letter) {
                return Some(i);
            }
            i = i + 1;
        }
        None
    }

    pub fn contains(&self, letter: &L) -> (r: bool)
        ensures
            r == self@.contains(*letter),
    {
        match self.position(letter) {
            Some(i) => {
                assert(self.container@.contains(self.container@[i as int]));
                true
            },
            None => false,
        }
    }

    /// The number of letters.
    pub fn len(&self) -> (n: usize)
        requires
            self.wf(),
        ensures
            n == self@.len(),
    {
        proof { self.container@.unique_seq_to_set(); }
        self.container.len()
    }

    /// Adds `letter`; returns whether it was new.
    pub fn insert(&mut self, letter: L) -> (r: bool)
        requires
            old(self).wf(),
        ensures
            final(self).wf(),
            final(self)@ == old(self)@.insert(letter),
            r == !old(self)@.contains(letter),
    {
        match self.position(&letter) {
            Some(i) => {
                assert(self.container@.contains(self.container@[i as int]));
                assert(old(self)@.insert(letter) =~= old(self)@);
                false
            },
            None => {
                self.container.push(letter);
                proof {
                    assert(self.container@ == old(self).container@.push(letter));
                    old(self).container@.lemma_push_to_set_commute(letter);
                    assert forall|a: int, b: int|
                        0 <= a < self.container@.len() && 0 <= b < self.container@.len() && a != b
                        implies self.container@[a] != self.container@[b] by {
                        if a == old(self).container@.len() {
                            assert(old(self).container@.contains(self.container@[b]));
                        } else if b == old(self).container@.len() {
                            assert(old(self).container@.contains(self.container@[a]));
                        }
                    }
                }
                true
            },
        }
    }

    /// Takes `letter` out of the alphabet and returns it, if it was there.
    pub fn take(&mut self, letter: &L) -> (r: Option<L>)
        requires
            old(self).wf(),
        ensures
            final(self).wf(),
            final(self)@ == old(self)@.remove(*letter),
            r == (if old(self)@.contains(*letter) { Some(*letter) } else { None::<L> }),
    {
        match self.position(letter) {
            Some(i) => {
                let ghost before = self.container@;
                let l = self.container.remove(i);
                proof {
                    assert(before.contains(before[i as int]));
                    assert forall|x: L| #[trigger] self@.contains(x) == before.to_set().remove(*letter).contains(x) by {
                        if self.container@.contains(x) {
                            let k = choose|k: int| 0 <= k < self.container@.len() && self.container@[k] == x;
                            if k < i {
                                assert(before[k] == x);
                            } else {
                                assert(before[k + 1] == x);
                            }
                            assert(before.contains(x));
                        }
                        if before.contains(x) && x != *letter {
                            let k = choose|k: int| 0 <= k < before.len() && before[k] == x;
                            if k < i {
                                assert(self.container@[k] == x);
                            } else {
                                assert(self.container@[k - 1] == x);
                            }
                        }
                    }
                    assert(self@ =~= old(self)@.remove(*letter));
                    assert forall|a: int, b: int|
                        0 <= a < self.container@.len() && 0 <= b < self.container@.len() && a != b
                        implies self.container@[a] != self.container@[b] by {
                        let a2 = if a < i { a } else { a + 1 };
                        let b2 = if b < i { b } else { b + 1 };
                        assert(before[a2] != before[b2]);
                    }
                }
                Some(l)
            },
            None => {
                assert(old(self)@.remove(*letter) =~= old(self)@);
                None
            },
        }
    }

    /// The alphabet of the distinct letters of `letters`.
    pub fn from_letters(letters: Vec<L>) -> (a: Self)
        ensures
            a.wf(),
            a@ == letters@.to_set(),
    {
        Self::from_slice(letters.as_slice())
    }

    /// The alphabet of the distinct letters of `letters`.
    pub fn from_slice(letters: &[L]) -> (a: Self)
        ensures
            a.wf(),
            a@ == letters@.to_set(),
    {
        let mut a = Self::new();
        let mut i: usize = 0;
        while i < letters.len()
            invariant
                0 <= i <= letters@.len(),
                a.wf(),
                a@ == letters@.take(i as int).to_set(),
            decreases letters@.len() - i,
        {
            a.insert(letters[i]);
            proof {
                assert(letters@.take(i + 1) =~= letters@.take(i as int).push(letters@[i as int]));
                letters@.take(i as int).lemma_push_to_set_commute(letters@[i as int]);
            }
            i = i + 1;
        }
        assert(letters@.take(i as int) =~= letters@);
        a
    }
}

impl Alphabet<char> {
    /// The alphabet of the distinct characters of `text`.
    pub fn from_text(text: &str) -> (a: Alphabet<char>)
        ensures
            a.wf(),
            a@ == text@.to_set(),
    {
        let word = Word::from_text(text);
        Self::from_slice(word.as_slice())
    }
}

} // verus!
