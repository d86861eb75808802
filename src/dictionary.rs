use vstd::prelude::*;

use crate::error::RewriteError;
use crate::letter::{Letter, Replacement};
use crate::segment::segmentation;
use crate::word::{key_set, Word};

verus! {

/// What a dictionary entry holds, as mathematical values.
pub struct EntryView<T, A> {
    pub replacement: Option<Seq<T>>,
    pub semantics: Option<A>,
}

/// The right-hand side of a production rule and/or an action, for one key.
#[derive(Clone)]
pub struct DictionaryEntry<T, A> {
    replacement: Option<Word<T>>,
    semantics: Option<A>,
}

impl<T, A> View for DictionaryEntry<T, A> {
    type V = EntryView<T, A>;

    closed spec fn view(&self) -> EntryView<T, A> {
        EntryView {
            replacement: match self.replacement {
                Some(w) => Some(w@),
                None => None,
            },
            semantics: self.semantics,
        }
    }
}

impl<T: Letter, A> DictionaryEntry<T, A> {
    /// An entry with neither replacement nor action.
    pub fn new() -> (e: Self)
        ensures
            e@ == (EntryView::<T, A> { replacement: None, semantics: None }),
    {
        DictionaryEntry { replacement: None, semantics: None }
    }

    pub fn with_replacement(self, replacement: Word<T>) -> (e: Self)
        ensures
            e@ == (EntryView { replacement: Some(replacement@), ..self@ }),
    {
        let mut e = self;
        e.replacement = Some(replacement);
        e
    }

    pub fn with_semantics(self, semantics: A) -> (e: Self)
        ensures
            e@ == (EntryView { semantics: Some(semantics), ..self@ }),
    {
        let mut e = self;
        e.semantics = Some(semantics);
        e
    }

    pub fn clear_replacement(&mut self)
        ensures
            final(self)@ == (EntryView { replacement: None, ..old(self)@ }),
    {
        self.replacement = None;
    }

    pub fn clear_semantics(&mut self)
        ensures
            final(self)@ == (EntryView { semantics: None, ..old(self)@ }),
    {
        self.semantics = None;
    }

    pub fn add_replacement(&mut self, replacement: Word<T>)
        ensures
            final(self)@ == (EntryView { replacement: Some(replacement@), ..old(self)@ }),
    {
        self.replacement = Some(replacement);
    }

    pub fn add_semantics(&mut self, semantics: A)
        ensures
            final(self)@ == (EntryView { semantics: Some(semantics), ..old(self)@ }),
    {
        self.semantics = Some(semantics);
    }

    pub fn semantics(&self) -> (r: Option<&A>)
        ensures
            match r {
                Some(a) => self@.semantics == Some(*a),
                None => self@.semantics is None,
            },
    {
        match &self.semantics {
            Some(a) => Some(a),
            None => None,
        }
    }

    pub fn replacement(&self) -> (r: Option<&Word<T>>)
        ensures
            match r {
                Some(w) => self@.replacement == Some(w@),
                None => self@.replacement is None,
            },
    {
        match &self.replacement {
            Some(w) => Some(w),
            None => None,
        }
    }
}

/// Maps non-empty words to entries; keys are unique by content.
#[derive(Clone)]
pub struct Dictionary<T, A> {
    entries: Vec<(Word<T>, DictionaryEntry<T, A>)>,
}

impl<T, A> View for Dictionary<T, A> {
    type V = Map<Seq<T>, EntryView<T, A>>;

    closed spec fn view(&self) -> Map<Seq<T>, EntryView<T, A>> {
        Map::new(
            |k: Seq<T>| exists|i: int| 0 <= i < self.entries@.len() && self.entries@[i].0@ == k,
            |k: Seq<T>|
                self.entries@[choose|i: int|
                    0 <= i < self.entries@.len() && self.entries@[i].0@ == k].1@,
        )
    }
}

impl<T, A> Dictionary<T, A> {
    /// Keys are non-empty and pairwise distinct.
    pub closed spec fn wf(&self) -> bool {
        &&& forall|i: int| 0 <= i < self.entries@.len() ==> (#[trigger] self.entries@[i]).0@.len() > 0
        &&& forall|i: int, j: int|
            0 <= i < j < self.entries@.len() ==> (#[trigger] self.entries@[i]).0@
                != (#[trigger] self.entries@[j]).0@
    }

    proof fn lemma_entry(&self, i: int)
        requires
            self.wf(),
            0 <= i < self.entries@.len(),
        ensures
            self@.contains_key(self.entries@[i].0@),
            self@[self.entries@[i].0@] == self.entries@[i].1@,
    {
        let k = self.entries@[i].0@;
        assert(self@.contains_key(k));
        let j = choose|j: int| 0 <= j < self.entries@.len() && self.entries@[j].0@ == k;
        if j < i {
            assert(self.entries@[j].0@ != self.entries@[i].0@);
        } else if i < j {
            assert(self.entries@[i].0@ != self.entries@[j].0@);
        }
    }
}

impl<T: Letter, A> Dictionary<T, A> {
    /// The empty dictionary.
    pub fn new() -> (d: Self)
        ensures
            d.wf(),
            d@ == Map::<Seq<T>, EntryView<T, A>>::empty(),
    {
        let d = Dictionary { entries: Vec::new() };
        assert(d@ =~= Map::<Seq<T>, EntryView<T, A>>::empty());
        d
    }

    /// The position of the entry whose key holds `key`'s letters.
    fn find(&self, key: &[T]) -> (r: Option<usize>)
        requires
            self.wf(),
        ensures
            match r {
                Some(i) => i < self.entries@.len() && self.entries@[i as int].0@ == key@,
                None => !self@.contains_key(key@),
            },
    {
        let mut i: usize = 0;
        while i < self.entries.len()
            invariant
                0 <= i <= self.entries@.len(),
                forall|j: int| 0 <= j < i ==> (#[trigger] self.entries@[j]).0@ != key@,
            decreases self.entries@.len() - i,
        {
            assert(self.entries@[i as int].0@.take(self.entries@[i as int].0@.len() as int)
                =~= self.entries@[i as int].0@);
            if self.entries[i].0.len() == key.len() && self.entries[i].0.starts_with(key) {
                return Some(i);
            }
            i = i + 1;
        }
        proof {
            if self@.contains_key(key@) {
                let j = choose|j: int| 0 <= j < self.entries@.len() && self.entries@[j].0@ == key@;
                assert(self.entries@[j].0@ != key@);
            }
        }
        None
    }

    /// The number of keys.
    pub fn len(&self) -> (n: usize)
        requires
            self.wf(),
        ensures
            n == self@.dom().len(),
            self@.dom().finite(),
    {
        let ghost keys = self.entries@.map_values(|p: (Word<T>, DictionaryEntry<T, A>)| p.0@);
        proof {
            assert forall|a: int, b: int| 0 <= a < b < keys.len() implies keys[a] != keys[b] by {
                assert(self.entries@[a].0@ != self.entries@[b].0@);
            }
            assert forall|a: int, b: int|
                0 <= a < keys.len() && 0 <= b < keys.len() && a != b implies keys[a] != keys[b] by {
                if a < b {
                    assert(self.entries@[a].0@ != self.entries@[b].0@);
                } else {
                    assert(self.entries@[b].0@ != self.entries@[a].0@);
                }
            }
            keys.unique_seq_to_set();
            assert forall|k: Seq<T>| #[trigger] self@.dom().contains(k) == keys.to_set().contains(k) by {
                if self@.dom().contains(k) {
                    let j = choose|j: int| 0 <= j < self.entries@.len() && self.entries@[j].0@ == k;
                    assert(keys[j] == k);
                }
                if keys.to_set().contains(k) {
                    let j = choose|j: int| 0 <= j < keys.len() && keys[j] == k;
                    assert(self.entries@[j].0@ == k);
                }
            }
            assert(self@.dom() =~= keys.to_set());
        }
        self.entries.len()
    }

    /// Whether `key` has an entry.
    pub fn contains_key(&self, key: &Word<T>) -> (r: bool)
        requires
            self.wf(),
        ensures
            r == self@.contains_key(key@),
    {
        match self.find(key.as_slice()) {
            Some(i) => {
                proof { self.lemma_entry(i as int); }
                true
            },
            None => false,
        }
    }

    /// The entry of exactly `key`, if there is one.
    pub fn get(&self, key: &Word<T>) -> (r: Option<&DictionaryEntry<T, A>>)
        requires
            self.wf(),
        ensures
            match r {
                Some(e) => self@.contains_key(key@) && self@[key@] == e@,
                None => !self@.contains_key(key@),
            },
    {
        self.get_slice(key.as_slice())
    }

    pub(crate) fn get_slice(&self, key: &[T]) -> (r: Option<&DictionaryEntry<T, A>>)
        requires
            self.wf(),
        ensures
            match r {
                Some(e) => self@.contains_key(key@) && self@[key@] == e@,
                None => !self@.contains_key(key@),
            },
    {
        match self.find(key) {
            Some(i) => {
                proof { self.lemma_entry(i as int); }
                Some(&self.entries[i].1)
            },
            None => None,
        }
    }

    /// Stores `entry` under `key`, replacing any entry of an equal key.
    /// An empty key is rejected and leaves the dictionary as it was.
    pub fn insert(&mut self, key: Word<T>, entry: DictionaryEntry<T, A>) -> (r: Result<(), RewriteError>)
        requires
            old(self).wf(),
        ensures
            final(self).wf(),
            key@.len() == 0 ==> r == Err::<(), RewriteError>(RewriteError::EmptyKeyRejected)
                && final(self)@ == old(self)@,
            key@.len() > 0 ==> r is Ok && final(self)@ == old(self)@.insert(key@, entry@),
    {
        if key.is_empty() {
            return Err(RewriteError::EmptyKeyRejected);
        }
        let ghost k = key@;
        let ghost e = entry@;
        let ghost before = self.entries@;
        let ghost mut at: int = 0;
        match self.find(key.as_slice()) {
            Some(i) => {
                proof { at = i as int; }
                self.entries.set(i, (key, entry));
                proof {
                    assert forall|a: int, b: int|
                        0 <= a < b < self.entries@.len() implies (#[trigger] self.entries@[a]).0@
                        != (#[trigger] self.entries@[b]).0@ by {
                        if a != i as int && b != i as int {
                            assert(before[a] == self.entries@[a]);
                            assert(before[b] == self.entries@[b]);
                        }
                    }
                    assert forall|a: int| 0 <= a < self.entries@.len() implies
                        (#[trigger] self.entries@[a]).0@.len() > 0 by {
                        if a != i as int {
                            assert(before[a] == self.entries@[a]);
                        }
                    }
                }
            },
            None => {
                proof { at = before.len() as int; }
                self.entries.push((key, entry));
            },
        }
        proof {
            let m = old(self)@.insert(k, e);
            assert forall|q: Seq<T>| #[trigger] m.contains_key(q) implies self@.contains_key(q)
                && self@[q] == m[q] by {
                if q == k {
                    self.lemma_entry(at);
                } else {
                    let j = choose|j: int| 0 <= j < before.len() && before[j].0@ == q;
                    old(self).lemma_entry(j);
                    assert(self.entries@[j] == before[j]);
                    self.lemma_entry(j);
                }
            }
            assert forall|q: Seq<T>| #[trigger] self@.contains_key(q) implies m.contains_key(q) by {
                let j = choose|j: int| 0 <= j < self.entries@.len() && self.entries@[j].0@ == q;
                if q != k {
                    assert(self.entries@[j] == before[j]);
                    old(self).lemma_entry(j);
                }
            }
            assert(self@ =~= m);
        }
        Ok(())
    }
}

impl<T: Letter, A> Dictionary<T, A> {
    /// The keys of the dictionary, in no particular order.
    pub fn keys(&self) -> (r: Vec<&Word<T>>)
        ensures
            key_set(r@) == self@.dom(),
    {
        let mut r: Vec<&Word<T>> = Vec::new();
        let mut i: usize = 0;
        while i < self.entries.len()
            invariant
                0 <= i <= self.entries@.len(),
                r@.len() == i,
                forall|j: int| 0 <= j < i ==> (#[trigger] r@[j])@ == self.entries@[j].0@,
            decreases self.entries@.len() - i,
        {
            r.push(&self.entries[i].0);
            i = i + 1;
        }
        proof {
            assert forall|k: Seq<T>| #[trigger] self@.dom().contains(k) implies key_set(r@).contains(k) by {
                let j = choose|j: int| 0 <= j < self.entries@.len() && self.entries@[j].0@ == k;
                assert(r@[j]@ == k);
            }
            assert forall|k: Seq<T>| #[trigger] key_set(r@).contains(k) implies self@.dom().contains(k) by {
                let j = choose|j: int| 0 <= j < r@.len() && r@[j]@ == k;
                assert(self.entries@[j].0@ == k);
            }
            assert(key_set(r@) =~= self@.dom());
        }
        r
    }

    /// Decomposes `text` from left to right into the longest keys that match at
    /// each position; fails at the first position where no key matches.
    pub fn segment<'a>(&self, text: &'a Word<T>) -> (r: Result<Vec<&'a [T]>, RewriteError>)
        requires
            self.wf(),
        ensures
            match segmentation(text@, self@.dom()) {
                Ok(segs) => r is Ok && r->Ok_0@.map_values(|s: &[T]| s@) == segs,
                Err(p) => r == Err::<Vec<&'a [T]>, RewriteError>(
                    RewriteError::NoMatchAtPosition { position: p as usize },
                ),
            },
    {
        let keys = self.keys();
        text.subwords(keys.as_slice())
    }
}

impl<T: Letter, A> Dictionary<T, A> {
    /// Takes out the entry of exactly `key` and returns it, if there is one.
    pub fn remove(&mut self, key: &Word<T>) -> (r: Option<DictionaryEntry<T, A>>)
        requires
            old(self).wf(),
        ensures
            final(self).wf(),
            final(self)@ == old(self)@.remove(key@),
            match r {
                Some(e) => old(self)@.contains_key(key@) && old(self)@[key@] == e@,
                None => !old(self)@.contains_key(key@),
            },
    {
        match self.find(key.as_slice()) {
            None => {
                assert(old(self)@.remove(key@) =~= old(self)@);
                None
            },
            Some(i) => {
                proof { self.lemma_entry(i as int); }
                let ghost before = self.entries@;
                let (_, entry) = self.entries.remove(i);
                proof {
                    let after = self.entries@;
                    assert forall|a: int, b: int|
                        0 <= a < b < after.len() implies (#[trigger] after[a]).0@
                        != (#[trigger] after[b]).0@ by {
                        let a2 = if a < i { a } else { a + 1 };
                        let b2 = if b < i { b } else { b + 1 };
                        assert(after[a] == before[a2]);
                        assert(after[b] == before[b2]);
                    }
                    assert forall|a: int| 0 <= a < after.len() implies (#[trigger] after[a]).0@.len()
                        > 0 by {
                        let a2 = if a < i { a } else { a + 1 };
                        assert(after[a] == before[a2]);
                    }
                    let m = old(self)@.remove(key@);
                    assert forall|q: Seq<T>| #[trigger] self@.contains_key(q) implies m.contains_key(q)
                        && self@[q] == m[q] by {
                        let j = choose|j: int| 0 <= j < after.len() && after[j].0@ == q;
                        let j2 = if j < i { j } else { j + 1 };
                        assert(after[j] == before[j2]);
                        self.lemma_entry(j);
                        old(self).lemma_entry(j2);
                    }
                    assert forall|q: Seq<T>| #[trigger] m.contains_key(q) implies self@.contains_key(q) by {
                        let j = choose|j: int| 0 <= j < before.len() && before[j].0@ == q;
                        if j < i {
                            assert(after[j] == before[j]);
                        } else {
                            assert(after[j - 1] == before[j]);
                        }
                    }
                    assert(self@ =~= m);
                }
                Some(entry)
            },
        }
    }
}

/// The entry with neither replacement nor action.
pub open spec fn empty_entry<T, A>() -> EntryView<T, A> {
    EntryView { replacement: None, semantics: None }
}

/// `m` after inserting the pairs of `pairs` one by one, in order.
pub open spec fn insert_all<T, A>(
    m: Map<Seq<T>, EntryView<T, A>>,
    pairs: Seq<(Seq<T>, EntryView<T, A>)>,
) -> Map<Seq<T>, EntryView<T, A>>
    decreases pairs.len(),
{
    if pairs.len() == 0 {
        m
    } else {
        insert_all(m, pairs.drop_last()).insert(pairs.last().0, pairs.last().1)
    }
}

proof fn lemma_insert_all_domain<T, A>(
    m: Map<Seq<T>, EntryView<T, A>>,
    pairs: Seq<(Seq<T>, EntryView<T, A>)>,
    k: Seq<T>,
)
    ensures
        insert_all(m, pairs).contains_key(k) <==> (m.contains_key(k) || exists|i: int|
            0 <= i < pairs.len() && (#[trigger] pairs[i]).0 == k),
    decreases pairs.len(),
{
    if pairs.len() > 0 {
        let rest = pairs.drop_last();
        lemma_insert_all_domain(m, rest, k);
        if exists|i: int| 0 <= i < rest.len() && (#[trigger] rest[i]).0 == k {
            let i = choose|i: int| 0 <= i < rest.len() && (#[trigger] rest[i]).0 == k;
            assert(pairs[i] == rest[i]);
        }
        if exists|i: int| 0 <= i < pairs.len() && (#[trigger] pairs[i]).0 == k {
            let i = choose|i: int| 0 <= i < pairs.len() && (#[trigger] pairs[i]).0 == k;
            if i < rest.len() {
                assert(rest[i] == pairs[i]);
            }
        }
    }
}

proof fn lemma_insert_all_last<T, A>(
    m: Map<Seq<T>, EntryView<T, A>>,
    pairs: Seq<(Seq<T>, EntryView<T, A>)>,
    j: int,
)
    requires
        0 <= j < pairs.len(),
        forall|i: int| j < i < pairs.len() ==> (#[trigger] pairs[i]).0 != pairs[j].0,
    ensures
        insert_all(m, pairs)[pairs[j].0] == pairs[j].1,
    decreases pairs.len(),
{
    let rest = pairs.drop_last();
    if j < rest.len() {
        assert(pairs[rest.len() as int].0 != pairs[j].0);
        assert forall|i: int| j < i < rest.len() implies (#[trigger] rest[i]).0 != rest[j].0 by {
            assert(rest[i] == pairs[i]);
        }
        lemma_insert_all_last(m, rest, j);
    }
}

proof fn lemma_insert_all_untouched<T, A>(
    m: Map<Seq<T>, EntryView<T, A>>,
    pairs: Seq<(Seq<T>, EntryView<T, A>)>,
    k: Seq<T>,
)
    requires
        forall|i: int| 0 <= i < pairs.len() ==> (#[trigger] pairs[i]).0 != k,
    ensures
        insert_all(m, pairs)[k] == m[k],
    decreases pairs.len(),
{
    if pairs.len() > 0 {
        let rest = pairs.drop_last();
        assert(pairs[rest.len() as int].0 != k);
        assert forall|i: int| 0 <= i < rest.len() implies (#[trigger] rest[i]).0 != k by {
            assert(rest[i] == pairs[i]);
        }
        lemma_insert_all_untouched(m, rest, k);
    }
}

/// Last write wins over any number of insertions: after inserting `pairs` in
/// order, `k` has an entry exactly when it had one before or some pair has
/// key `k`; that entry is the one of the last pair with key `k`, or the
/// earlier one where no pair has that key.
pub proof fn lemma_insert_all_last_wins<T, A>(
    m: Map<Seq<T>, EntryView<T, A>>,
    pairs: Seq<(Seq<T>, EntryView<T, A>)>,
    k: Seq<T>,
)
    ensures
        insert_all(m, pairs).contains_key(k) <==> (m.contains_key(k) || exists|i: int|
            0 <= i < pairs.len() && (#[trigger] pairs[i]).0 == k),
        forall|j: int|
            0 <= j < pairs.len() && (#[trigger] pairs[j]).0 == k && (forall|i: int|
                j < i < pairs.len() ==> (#[trigger] pairs[i]).0 != k) ==> insert_all(m, pairs)[k]
                == pairs[j].1,
        (forall|i: int| 0 <= i < pairs.len() ==> (#[trigger] pairs[i]).0 != k) ==> insert_all(
            m,
            pairs,
        )[k] == m[k],
{
    lemma_insert_all_domain(m, pairs, k);
    assert forall|j: int|
        0 <= j < pairs.len() && (#[trigger] pairs[j]).0 == k && (forall|i: int|
            j < i < pairs.len() ==> (#[trigger] pairs[i]).0 != k) implies insert_all(m, pairs)[k]
        == pairs[j].1 by {
        lemma_insert_all_last(m, pairs, j);
    }
    if forall|i: int| 0 <= i < pairs.len() ==> (#[trigger] pairs[i]).0 != k {
        lemma_insert_all_untouched(m, pairs, k);
    }
}

/// The pairs of words and entries, as mathematical values.
pub open spec fn pair_views<T, A>(pairs: Seq<(Word<T>, DictionaryEntry<T, A>)>) -> Seq<
    (Seq<T>, EntryView<T, A>),
> {
    pairs.map_values(|p: (Word<T>, DictionaryEntry<T, A>)| (p.0@, p.1@))
}

impl<T: Letter, A> Dictionary<T, A> {
    /// A dictionary whose keys are `words`, each with an empty entry; fails
    /// when one of the words is empty.
    pub fn with_words(words: Vec<Word<T>>) -> (r: Result<Self, RewriteError>)
        ensures
            (exists|i: int| 0 <= i < words@.len() && (#[trigger] words@[i])@.len() == 0) ==> r
                == Err::<Self, RewriteError>(RewriteError::EmptyKeyRejected),
            (forall|i: int| 0 <= i < words@.len() ==> (#[trigger] words@[i])@.len() > 0) ==> r is Ok
                && r->Ok_0.wf() && r->Ok_0@ == insert_all(
                Map::<Seq<T>, EntryView<T, A>>::empty(),
                words@.map_values(|w: Word<T>| (w@, empty_entry::<T, A>())),
            ),
    {
        let ghost pairs = words@.map_values(|w: Word<T>| (w@, empty_entry::<T, A>()));
        let mut dictionary = Dictionary::new();
        let ghost mut i: int = 0;
        for word in it: words.into_iter()
            invariant
                it.seq() == words@,
                pairs == words@.map_values(|w: Word<T>| (w@, empty_entry::<T, A>())),
                i == it.index(),
                dictionary.wf(),
                forall|j: int| 0 <= j < i ==> (#[trigger] words@[j])@.len() > 0,
                dictionary@ == insert_all(Map::<Seq<T>, EntryView<T, A>>::empty(), pairs.take(i as int)),
        {
            let ghost w = word@;
            match dictionary.insert(word, DictionaryEntry::new()) {
                Ok(()) => {},
                Err(e) => {
                    return Err(e);
                },
            }
            proof {
                assert(pairs.take(i + 1).drop_last() =~= pairs.take(i as int));
            }
            proof { i = i + 1; }
        }
        assert(pairs.take(i as int) =~= pairs);
        Ok(dictionary)
    }

    /// A dictionary filled by inserting `pairs` in order, a later pair
    /// overriding an earlier one of an equal key; fails when a key is empty.
    pub fn with_words_and_entries(pairs: Vec<(Word<T>, DictionaryEntry<T, A>)>) -> (r: Result<
        Self,
        RewriteError,
    >)
        ensures
            (exists|i: int| 0 <= i < pairs@.len() && (#[trigger] pairs@[i]).0@.len() == 0) ==> r
                == Err::<Self, RewriteError>(RewriteError::EmptyKeyRejected),
            (forall|i: int| 0 <= i < pairs@.len() ==> (#[trigger] pairs@[i]).0@.len() > 0) ==> r is Ok
                && r->Ok_0.wf() && r->Ok_0@ == insert_all(
                Map::<Seq<T>, EntryView<T, A>>::empty(),
                pair_views(pairs@),
            ),
    {
        let ghost views = pair_views(pairs@);
        let mut dictionary = Dictionary::new();
        let ghost mut i: int = 0;
        for pair in it: pairs.into_iter()
            invariant
                it.seq() == pairs@,
                views == pair_views(pairs@),
                i == it.index(),
                dictionary.wf(),
                forall|j: int| 0 <= j < i ==> (#[trigger] pairs@[j]).0@.len() > 0,
                dictionary@ == insert_all(Map::<Seq<T>, EntryView<T, A>>::empty(), views.take(i as int)),
        {
            let (word, entry) = pair;
            match dictionary.insert(word, entry) {
                Ok(()) => {},
                Err(e) => {
                    return Err(e);
                },
            }
            proof {
                assert(views.take(i + 1).drop_last() =~= views.take(i as int));
            }
            proof { i = i + 1; }
        }
        assert(views.take(i as int) =~= views);
        Ok(dictionary)
    }
}


/// The entry that a letter's own rule gives: its replacement, no action.
pub open spec fn letter_rule<L: Replacement, A>(l: L) -> (Seq<L>, EntryView<L, A>) {
    (seq![l], EntryView { replacement: l.replacement_spec(), semantics: None })
}

impl<L: Replacement, A> Dictionary<L, A> {
    /// A context-free dictionary: each letter of `letters` is a key of its own
    /// whose replacement is the letter's own rule, and which has no action.
    pub fn from_letter_rules(letters: &[L]) -> (d: Self)
        ensures
            d.wf(),
            d@ == insert_all(
                Map::<Seq<L>, EntryView<L, A>>::empty(),
                letters@.map_values(|l: L| letter_rule::<L, A>(l)),
            ),
    {
        let ghost rules = letters@.map_values(|l: L| letter_rule::<L, A>(l));
        let mut d = Dictionary::new();
        let mut i: usize = 0;
        while i < letters.len()
            invariant
                rules == letters@.map_values(|l: L| letter_rule::<L, A>(l)),
                0 <= i <= letters@.len(),
                d.wf(),
                d@ == insert_all(Map::<Seq<L>, EntryView<L, A>>::empty(), rules.take(i as int)),
            decreases letters@.len() - i,
        {
            let letter = letters[i];
            let entry = match letter.replacement() {
                Some(v) => DictionaryEntry::new().with_replacement(Word::from_letters(v)),
                None => DictionaryEntry::new(),
            };
            let _ = d.insert(Word::from_letter(letter), entry);
            proof {
                assert(rules.take(i + 1).drop_last() =~= rules.take(i as int));
            }
            i = i + 1;
        }
        assert(rules.take(i as int) =~= rules);
        d
    }
}

} // verus!
