use vstd::prelude::*;

use crate::dictionary::Dictionary;
use crate::error::RewriteError;
use crate::letter::Letter;
use crate::rewrite::{next_generation, perform_all, rewrite_all};
use crate::segment::{
    is_prefix, joined, lemma_longest_match, longest_match_len, munch, munch_from, segmentation,
};
use crate::semantics::{Action, Payload};

verus! {

/// An ordered, growable sequence of letters.
#[derive(Debug, PartialEq, Eq, Hash, Clone)]
pub struct Word<T> {
    letters: Vec<T>,
}

impl<T> View for Word<T> {
    type V = Seq<T>;

    closed spec fn view(&self) -> Seq<T> {
        self.letters@
    }
}

/// The set of words that `valid` points to.
pub open spec fn key_set<T>(valid: Seq<&Word<T>>) -> Set<Seq<T>> {
    Set::new(|k: Seq<T>| exists|i: int| 0 <= i < valid.len() && valid[i]@ == k)
}

impl<T: Letter> Word<T> {
    /// Whether `pattern` occurs in `text` at offset `start`.
    fn occurs_at(pattern: &[T], text: &[T], start: usize) -> (r: bool)
        requires
            start <= text@.len(),
        ensures
            r == is_prefix(pattern@, text@.skip(start as int)),
    {
        let ghost t = text@.skip(start as int);
        if pattern.len() > text.len() - start {
            return false;
        }
        let mut i: usize = 0;
        while i < pattern.len()
            invariant
                start <= text@.len(),
                t == text@.skip(start as int),
                pattern@.len() <= t.len(),
                pattern@.len() <= text@.len() - start,
                text@.len() == text.len(),
                0 <= i <= pattern@.len(),
                forall|j: int| 0 <= j < i ==> pattern@[j] == t[j],
            decreases pattern@.len() - i,
        {
            if !pattern[i].same_as(&text[start + i]) {
                assert(t.take(pattern@.len() as int)[i as int] != pattern@[i as int]);
                return false;
            }
            i = i + 1;
        }
        assert(t.take(pattern@.len() as int) =~= pattern@);
        true
    }

    /// Length of the longest non-empty word of `valid` that occurs in `text` at
    /// offset `start` (0 when none does).
    fn longest_match_at(text: &[T], start: usize, valid: &[&Word<T>]) -> (n: usize)
        requires
            start <= text@.len(),
        ensures
            n == longest_match_len(text@.skip(start as int), key_set(valid@)),
    {
        let ghost t = text@.skip(start as int);
        let ghost keys = key_set(valid@);
        let mut best: usize = 0;
        let mut i: usize = 0;
        while i < valid.len()
            invariant
                start <= text@.len(),
                t == text@.skip(start as int),
                keys == key_set(valid@),
                0 <= i <= valid@.len(),
                best <= t.len(),
                best > 0 ==> exists|j: int| 0 <= j < i && (#[trigger] valid@[j])@ == t.take(best as int),
                forall|j: int|
                    0 <= j < i && (#[trigger] valid@[j])@.len() > 0 && is_prefix(valid@[j]@, t)
                        ==> valid@[j]@.len() <= best,
            decreases valid@.len() - i,
        {
            let w: &Word<T> = valid[i];
            if w.letters.len() > best && Self::occurs_at(w.letters.as_slice(), text, start) {
                best = w.letters.len();
                assert(valid@[i as int]@ == t.take(best as int));
            }
            i = i + 1;
        }
        proof {
            lemma_longest_match(t, keys);
            let n = longest_match_len(t, keys);
            if best > 0 {
                let j = choose|j: int| 0 <= j < valid@.len() && (#[trigger] valid@[j])@ == t.take(best as int);
                assert(keys.contains(valid@[j]@));
                assert(is_prefix(t.take(best as int), t));
            }
            if n > 0 {
                assert(keys.contains(t.take(n as int)));
                let j = choose|j: int| 0 <= j < valid@.len() && (#[trigger] valid@[j])@ == t.take(n as int);
                assert(is_prefix(valid@[j]@, t));
            }
        }
        best
    }
}


/// `w` occurs somewhere in `t` as a contiguous, non-empty subword.
pub open spec fn occurs_in<T>(w: Seq<T>, t: Seq<T>) -> bool {
    w.len() > 0 && exists|i: int| 0 <= i <= t.len() && is_prefix(w, #[trigger] t.skip(i))
}

impl<T: Letter> Word<T> {
    /// The empty word.
    pub fn new() -> (w: Self)
        ensures
            w@ == Seq::<T>::empty(),
    {
        Word { letters: Vec::new() }
    }

    /// The word of one letter.
    pub fn from_letter(letter: T) -> (w: Self)
        ensures
            w@ == seq![letter],
    {
        let mut letters: Vec<T> = Vec::new();
        letters.push(letter);
        Word { letters }
    }

    /// The word that holds `letters`, in order.
    pub fn from_letters(letters: Vec<T>) -> (w: Self)
        ensures
            w@ == letters@,
    {
        Word { letters }
    }

    /// A word that holds a copy of `letters`.
    pub fn from_slice(letters: &[T]) -> (w: Self)
        ensures
            w@ == letters@,
    {
        Word { letters: vstd::slice::slice_to_vec(letters) }
    }

    /// A copy of this word.
    pub fn duplicate(&self) -> (w: Self)
        ensures
            w@ == self@,
    {
        Self::from_slice(self.letters.as_slice())
    }

    pub fn len(&self) -> (n: usize)
        ensures
            n == self@.len(),
    {
        self.letters.len()
    }

    pub fn is_empty(&self) -> (b: bool)
        ensures
            b == (self@.len() == 0),
    {
        self.letters.len() == 0
    }

    /// The letters of this word, in order.
    pub fn as_slice(&self) -> (s: &[T])
        ensures
            s@ == self@,
    {
        self.letters.as_slice()
    }

    /// The letter at `index`, if there is one.
    pub fn get(&self, index: usize) -> (r: Option<T>)
        ensures
            r == (if index < self@.len() { Some(self@[index as int]) } else { None::<T> }),
    {
        if index < self.letters.len() {
            Some(self.letters[index])
        } else {
            None
        }
    }

    /// Whether both words hold the same letters in the same order.
    pub fn same_letters(&self, other: &Word<T>) -> (r: bool)
        ensures
            r == (self@ == other@),
    {
        if self.letters.len() != other.letters.len() {
            return false;
        }
        let r = Self::occurs_at(other.letters.as_slice(), self.letters.as_slice(), 0);
        proof {
            assert(self@.skip(0) =~= self@);
            assert(self@.take(other@.len() as int) =~= self@);
        }
        r
    }

    /// Whether `pattern` is a prefix of this word.
    pub fn starts_with(&self, pattern: &[T]) -> (r: bool)
        ensures
            r == is_prefix(pattern@, self@),
    {
        assert(self@.skip(0) =~= self@);
        Self::occurs_at(pattern, self.letters.as_slice(), 0)
    }

    /// The subword of the letters at positions `start..end`.
    ///
    /// Fails when `end` lies beyond the word (the error names `end`), or when
    /// `start` lies after `end` (the error names `start`).
    pub fn slice(&self, start: usize, end: usize) -> (r: Result<Word<T>, RewriteError>)
        ensures
            end > self@.len() ==> r == Err::<Word<T>, RewriteError>(
                RewriteError::IndexOutOfBounds { index: end, len: self@.len() as usize },
            ),
            end <= self@.len() && start > end ==> r == Err::<Word<T>, RewriteError>(
                RewriteError::IndexOutOfBounds { index: start, len: self@.len() as usize },
            ),
            start <= end <= self@.len() ==> r is Ok && r->Ok_0@ == self@.subrange(
                start as int,
                end as int,
            ),
    {
        let len = self.letters.len();
        if end > len {
            return Err(RewriteError::IndexOutOfBounds { index: end, len });
        }
        if start > end {
            return Err(RewriteError::IndexOutOfBounds { index: start, len });
        }
        let part = vstd::slice::slice_subrange(self.letters.as_slice(), start, end);
        Ok(Self::from_slice(part))
    }

    /// Puts `letter` at `index`, shifting the later letters right.
    pub fn insert(&mut self, index: usize, letter: T) -> (r: Result<(), RewriteError>)
        ensures
            index <= old(self)@.len() ==> r is Ok && final(self)@ == old(self)@.insert(
                index as int,
                letter,
            ),
            index > old(self)@.len() ==> r == Err::<(), RewriteError>(
                RewriteError::IndexOutOfBounds { index, len: old(self)@.len() as usize },
            ) && final(self)@ == old(self)@,
    {
        let len = self.letters.len();
        if index > len {
            return Err(RewriteError::IndexOutOfBounds { index, len });
        }
        self.letters.insert(index, letter);
        Ok(())
    }

    /// Takes out the letter at `index`, shifting the later letters left.
    pub fn remove(&mut self, index: usize) -> (r: Result<T, RewriteError>)
        ensures
            index < old(self)@.len() ==> r == Ok::<T, RewriteError>(old(self)@[index as int])
                && final(self)@ == old(self)@.remove(index as int),
            index >= old(self)@.len() ==> r == Err::<T, RewriteError>(
                RewriteError::IndexOutOfBounds { index, len: old(self)@.len() as usize },
            ) && final(self)@ == old(self)@,
    {
        let len = self.letters.len();
        if index >= len {
            return Err(RewriteError::IndexOutOfBounds { index, len });
        }
        Ok(self.letters.remove(index))
    }

    /// Keeps the letters before `index` and returns the others as a new word.
    pub fn split_off(&mut self, index: usize) -> (r: Result<Word<T>, RewriteError>)
        ensures
            index <= old(self)@.len() ==> r is Ok && final(self)@ == old(self)@.take(index as int)
                && r->Ok_0@ == old(self)@.skip(index as int),
            index > old(self)@.len() ==> r == Err::<Word<T>, RewriteError>(
                RewriteError::IndexOutOfBounds { index, len: old(self)@.len() as usize },
            ) && final(self)@ == old(self)@,
    {
        let len = self.letters.len();
        if index > len {
            return Err(RewriteError::IndexOutOfBounds { index, len });
        }
        let rest = self.letters.split_off(index);
        proof {
            assert(old(self)@.subrange(0, index as int) =~= old(self)@.take(index as int));
            assert(old(self)@.subrange(index as int, len as int) =~= old(self)@.skip(index as int));
        }
        Ok(Word { letters: rest })
    }

    /// Moves the letters of `other` to the end of this word.
    pub fn append(&mut self, other: Word<T>)
        ensures
            final(self)@ == old(self)@ + other@,
    {
        let mut other = other;
        self.letters.append(&mut other.letters);
    }

    /// A new word: the letters of `a` followed by those of `b`.
    pub fn concat(a: &Word<T>, b: &Word<T>) -> (w: Word<T>)
        ensures
            w@ == a@ + b@,
    {
        let mut w = a.duplicate();
        w.append(b.duplicate());
        w
    }

    /// Whether `word` is non-empty and occurs somewhere in this word.
    pub fn contains_word(&self, word: &[T]) -> (r: bool)
        ensures
            r == occurs_in(word@, self@),
    {
        if self.letters.len() == 0 || word.len() == 0 {
            return false;
        }
        let text = self.letters.as_slice();
        let mut i: usize = 0;
        while i < text.len()
            invariant
                text@ == self@,
                word@.len() > 0,
                0 <= i <= text@.len(),
                forall|j: int| 0 <= j < i ==> !is_prefix(word@, #[trigger] self@.skip(j)),
            decreases text@.len() - i,
        {
            if Self::occurs_at(word, text, i) {
                return true;
            }
            i = i + 1;
        }
        assert(!is_prefix(word@, self@.skip(i as int)));
        false
    }

    /// The longest non-empty word of `valid_subwords` that prefixes this word,
    /// as a part of this word.
    pub fn first_subword<'a>(&'a self, valid_subwords: &[&Word<T>]) -> (r: Option<&'a [T]>)
        ensures
            longest_match_len(self@, key_set(valid_subwords@)) == 0 ==> r is None,
            longest_match_len(self@, key_set(valid_subwords@)) > 0 ==> r is Some && r->Some_0@
                == self@.take(longest_match_len(self@, key_set(valid_subwords@)) as int),
    {
        Self::first_subword_slice(self.letters.as_slice(), valid_subwords)
    }

    fn first_subword_slice<'a>(word: &'a [T], valid_subwords: &[&Word<T>]) -> (r: Option<&'a [T]>)
        ensures
            longest_match_len(word@, key_set(valid_subwords@)) == 0 ==> r is None,
            longest_match_len(word@, key_set(valid_subwords@)) > 0 ==> r is Some && r->Some_0@
                == word@.take(longest_match_len(word@, key_set(valid_subwords@)) as int),
    {
        assert(word@.skip(0) =~= word@);
        let n = Self::longest_match_at(word, 0, valid_subwords);
        if n == 0 {
            None
        } else {
            proof { lemma_longest_match(word@, key_set(valid_subwords@)); }
            let part = vstd::slice::slice_subrange(word, 0, n);
            assert(part@ =~= word@.take(n as int));
            Some(part)
        }
    }

    /// Decomposes this word from left to right into the longest words of
    /// `valid_subwords` that match at each position; fails at the first
    /// position where none of them matches (an empty word never matches).
    pub fn subwords<'a>(&'a self, valid_subwords: &[&Word<T>]) -> (r: Result<
        Vec<&'a [T]>,
        RewriteError,
    >)
        ensures
            match segmentation(self@, key_set(valid_subwords@)) {
                Ok(segs) => r is Ok && r->Ok_0@.map_values(|s: &[T]| s@) == segs,
                Err(p) => r == Err::<Vec<&'a [T]>, RewriteError>(
                    RewriteError::NoMatchAtPosition { position: p as usize },
                ),
            },
    {
        let (segs, end) = self.munch_with_end(valid_subwords);
        if end == self.letters.len() {
            Ok(segs)
        } else {
            Err(RewriteError::NoMatchAtPosition { position: end })
        }
    }

    /// The maximal-munch decomposition, and the position where it stopped.
    fn munch_with_end<'a>(&'a self, valid_subwords: &[&Word<T>]) -> (r: (
        Vec<&'a [T]>,
        usize,
    ))
        ensures
            r.0@.map_values(|s: &[T]| s@) == munch(self@, key_set(valid_subwords@)),
            r.1 == joined(munch(self@, key_set(valid_subwords@))).len(),
            r.1 <= self@.len(),
    {
        let ghost t = self@;
        let ghost keys = key_set(valid_subwords@);
        let text = self.letters.as_slice();
        let mut out: Vec<&'a [T]> = Vec::new();
        let mut start: usize = 0;
        let mut stuck = false;
        while start < text.len() && !stuck
            invariant
                text@ == t,
                keys == key_set(valid_subwords@),
                start <= t.len(),
                out@.map_values(|s: &[T]| s@) + munch_from(t, keys, start as int) == munch(t, keys),
                joined(out@.map_values(|s: &[T]| s@)) == t.take(start as int),
                stuck ==> munch_from(t, keys, start as int) == Seq::<Seq<T>>::empty(),
            decreases t.len() - start, if stuck { 0int } else { 1int },
        {
            let n = Self::longest_match_at(text, start, valid_subwords);
            if n == 0 {
                stuck = true;
            } else {
                proof { lemma_longest_match(t.skip(start as int), keys); }
                let part = vstd::slice::slice_subrange(text, start, start + n);
                let ghost before = out@.map_values(|s: &[T]| s@);
                out.push(part);
                proof {
                    let after = out@.map_values(|s: &[T]| s@);
                    assert(after =~= before.push(part@));
                    assert(after.drop_last() =~= before);
                    assert(munch_from(t, keys, start as int) == seq![part@] + munch_from(t, keys, start + n));
                    assert(before + munch_from(t, keys, start as int) =~= after + munch_from(t, keys, start + n));
                    assert(t.take(start + n) =~= t.take(start as int) + part@);
                }
                start = start + n;
            }
        }
        assert(munch_from(t, keys, start as int) =~= Seq::<Seq<T>>::empty());
        assert(out@.map_values(|s: &[T]| s@) =~= out@.map_values(|s: &[T]| s@) + munch_from(t, keys, start as int));
        (out, start)
    }
}


/// A word's letters, or the error that came instead.
pub open spec fn result_view<T>(r: Result<Word<T>, RewriteError>) -> Result<Seq<T>, RewriteError> {
    match r {
        Ok(w) => Ok(w@),
        Err(e) => Err(e),
    }
}

impl<T: Letter> Word<T> {
    /// Adds copies of `letters` at the end of this word.
    fn extend_from(&mut self, letters: &[T])
        ensures
            final(self)@ == old(self)@ + letters@,
    {
        let mut i: usize = 0;
        while i < letters.len()
            invariant
                0 <= i <= letters@.len(),
                self@ == old(self)@ + letters@.take(i as int),
            decreases letters@.len() - i,
        {
            self.letters.push(letters[i]);
            assert(letters@.take(i + 1) =~= letters@.take(i as int).push(letters@[i as int]));
            i = i + 1;
        }
        assert(letters@.take(i as int) =~= letters@);
    }

    /// One rewrite step: every matched subword is replaced by its entry's
    /// replacement, or kept where it has none. Fails, producing nothing, when
    /// the word cannot be segmented against the dictionary.
    pub fn apply_replacements<A>(&self, dictionary: &Dictionary<T, A>) -> (r: Result<Word<T>, RewriteError>)
        requires
            dictionary.wf(),
        ensures
            result_view(r) == next_generation(self@, dictionary@),
    {
        let segs = match dictionary.segment(self) {
            Ok(segs) => segs,
            Err(e) => return Err(e),
        };
        let ghost d = dictionary@;
        let ghost pieces = segs@.map_values(|s: &[T]| s@);
        let mut out = Word::new();
        let mut i: usize = 0;
        while i < segs.len()
            invariant
                dictionary.wf(),
                d == dictionary@,
                pieces == segs@.map_values(|s: &[T]| s@),
                0 <= i <= segs@.len(),
                out@ == rewrite_all(d, pieces.take(i as int)),
            decreases segs@.len() - i,
        {
            let piece: &[T] = segs[i];
            match dictionary.get_slice(piece) {
                Some(entry) => match entry.replacement() {
                    Some(w) => out.extend_from(w.as_slice()),
                    None => out.extend_from(piece),
                },
                None => out.extend_from(piece),
            }
            proof {
                assert(pieces.take(i + 1).drop_last() =~= pieces.take(i as int));
                assert(pieces.take(i + 1).last() == piece@);
            }
            i = i + 1;
        }
        assert(pieces.take(i as int) =~= pieces);
        Ok(out)
    }

    /// Runs, from left to right, the action of each matched subword that has
    /// one. Fails, running none, when the word cannot be segmented against the
    /// dictionary.
    pub fn apply_semantics<A: Action<T, P>, P: Payload>(
        &self,
        dictionary: &Dictionary<T, A>,
        payload: &mut P,
    ) -> (r: Result<(), RewriteError>)
        requires
            dictionary.wf(),
        ensures
            match segmentation(self@, dictionary@.dom()) {
                Ok(segs) => r is Ok && final(payload)@ == perform_all::<T, A, P>(
                    dictionary@,
                    segs,
                    old(payload)@,
                ),
                Err(p) => r == Err::<(), RewriteError>(
                    RewriteError::NoMatchAtPosition { position: p as usize },
                ) && final(payload)@ == old(payload)@,
            },
    {
        let segs = match dictionary.segment(self) {
            Ok(segs) => segs,
            Err(e) => return Err(e),
        };
        let ghost d = dictionary@;
        let ghost pieces = segs@.map_values(|s: &[T]| s@);
        let mut i: usize = 0;
        while i < segs.len()
            invariant
                dictionary.wf(),
                d == dictionary@,
                pieces == segs@.map_values(|s: &[T]| s@),
                0 <= i <= segs@.len(),
                payload@ == perform_all::<T, A, P>(d, pieces.take(i as int), old(payload)@),
            decreases segs@.len() - i,
        {
            let piece: &[T] = segs[i];
            match dictionary.get_slice(piece) {
                Some(entry) => match entry.semantics() {
                    Some(action) => action.execute(piece, payload),
                    None => {},
                },
                None => {},
            }
            proof {
                assert(pieces.take(i + 1).drop_last() =~= pieces.take(i as int));
                assert(pieces.take(i + 1).last() == piece@);
            }
            i = i + 1;
        }
        assert(pieces.take(i as int) =~= pieces);
        Ok(())
    }
}

/// Writing out the word read from a text gives back the text.
pub proof fn lemma_text_round_trip(text: &str, w: Word<char>, s: String)
    requires
        call_ensures(Word::<char>::from_text, (text,), w),
        call_ensures(Word::<char>::to_text, (&w,), s),
    ensures
        s@ == text@,
{
}

/// Relies on `String::push`: the character is added at the end.
#[verifier::external_body]
pub(crate) fn push_char(s: &mut String, c: char)
    ensures
        final(s)@ == old(s)@.push(c),
{
    s.push(c)
}

impl Word<char> {
    /// The word of the characters of `text`, one letter per character.
    pub fn from_text(text: &str) -> (w: Word<char>)
        ensures
            w@ == text@,
    {
        let mut letters: Vec<char> = Vec::new();
        for c in it: text.chars()
            invariant
                letters@ == it.seq().take(it.index() as int),
        {
            letters.push(c);
        }
        Word { letters }
    }

    /// The characters of this word, concatenated without separators.
    pub fn to_text(&self) -> (s: String)
        ensures
            s@ == self@,
    {
        let mut s = String::new();
        let mut i: usize = 0;
        while i < self.letters.len()
            invariant
                0 <= i <= self@.len(),
                s@ == self@.take(i as int),
            decreases self@.len() - i,
        {
            push_char(&mut s, self.letters[i]);
            assert(self@.take(i + 1) =~= self@.take(i as int).push(self@[i as int]));
            i = i + 1;
        }
        assert(self@.take(i as int) =~= self@);
        s
    }
}

} // verus!
