use vstd::prelude::*;

use crate::dictionary::{Dictionary, DictionaryEntry, EntryView};
use crate::error::RewriteError;
use crate::letter::Letter;
use crate::rewrite::{generation, perform_all};
use crate::segment::segmentation;
use crate::semantics::{Action, AppendChar, Payload};
use crate::word::Word;

verus! {

/// A rewrite engine: a dictionary, the generations computed so far from a
/// starting word, and the payload that the dictionary's actions change.
pub struct Fractal<T, A, P> {
    word_stack: Vec<Word<T>>,
    dictionary: Dictionary<T, A>,
    payload: P,
}

/// Once a generation fails, every later one fails with the same error.
proof fn lemma_generation_fails_on<T, A>(
    d: Map<Seq<T>, EntryView<T, A>>,
    start: Seq<T>,
    k: nat,
    j: nat,
)
    requires
        generation(d, start, k) is Err,
        k <= j,
    ensures
        generation(d, start, j) == generation(d, start, k),
    decreases j - k,
{
    if k < j {
        lemma_generation_fails_on(d, start, k, (j - 1) as nat);
    }
}

impl<T, A, P> Fractal<T, A, P> {
    /// The starting word (generation 0).
    pub closed spec fn start(&self) -> Seq<T> {
        self.word_stack@[0]@
    }

    /// The rules and actions the engine applies.
    pub closed spec fn rules(&self) -> Map<Seq<T>, EntryView<T, A>> {
        self.dictionary@
    }

    /// How many generations are held, generation 0 included.
    pub closed spec fn computed(&self) -> nat {
        self.word_stack@.len()
    }

    pub closed spec fn payload_value(&self) -> P {
        self.payload
    }

    /// Every held generation is the one that the rules give.
    pub closed spec fn wf(&self) -> bool {
        &&& self.dictionary.wf()
        &&& self.word_stack@.len() >= 1
        &&& forall|i: int|
            0 <= i < self.word_stack@.len() ==> generation(self.dictionary@, self.word_stack@[0]@, i as nat)
                == Ok::<Seq<T>, RewriteError>((#[trigger] self.word_stack@[i])@)
    }
}

impl<T: Letter, A, P> Fractal<T, A, P> {
    /// An engine with no rules and the empty starting word.
    pub fn new(payload: P) -> (f: Self)
        ensures
            f.wf(),
            f.start() == Seq::<T>::empty(),
            f.rules() == Map::<Seq<T>, EntryView<T, A>>::empty(),
            f.computed() == 1,
            f.payload_value() == payload,
    {
        let mut word_stack: Vec<Word<T>> = Vec::new();
        word_stack.push(Word::new());
        Fractal { word_stack, dictionary: Dictionary::new(), payload }
    }

    /// Makes `starting_word` generation 0, dropping the generations held.
    pub fn with_starting_word(&mut self, starting_word: Word<T>)
        requires
            old(self).wf(),
        ensures
            final(self).wf(),
            final(self).start() == starting_word@,
            final(self).rules() == old(self).rules(),
            final(self).computed() == 1,
            final(self).payload_value() == old(self).payload_value(),
    {
        let mut word_stack: Vec<Word<T>> = Vec::new();
        word_stack.push(starting_word);
        self.word_stack = word_stack;
    }

    /// Makes `dictionary` the engine's rules, dropping the generations held
    /// after generation 0.
    pub fn with_dictionary(&mut self, dictionary: Dictionary<T, A>)
        requires
            old(self).wf(),
            dictionary.wf(),
        ensures
            final(self).wf(),
            final(self).start() == old(self).start(),
            final(self).rules() == dictionary@,
            final(self).computed() == 1,
            final(self).payload_value() == old(self).payload_value(),
    {
        self.word_stack.truncate(1);
        self.dictionary = dictionary;
    }

    /// Computes and holds the next generation; on failure nothing changes.
    pub fn apply_replacements(&mut self) -> (r: Result<(), RewriteError>)
        requires
            old(self).wf(),
        ensures
            final(self).wf(),
            final(self).start() == old(self).start(),
            final(self).rules() == old(self).rules(),
            final(self).payload_value() == old(self).payload_value(),
            match generation(old(self).rules(), old(self).start(), old(self).computed()) {
                Ok(_) => r is Ok && final(self).computed() == old(self).computed() + 1,
                Err(e) => r == Err::<(), RewriteError>(e) && final(self).computed()
                    == old(self).computed(),
            },
    {
        let last = self.word_stack.len() - 1;
        let next = self.word_stack[last].apply_replacements(&self.dictionary);
        assert(generation(self.dictionary@, self.word_stack@[0]@, last as nat) == Ok::<
            Seq<T>,
            RewriteError,
        >(self.word_stack@[last as int]@));
        match next {
            Ok(w) => {
                self.word_stack.push(w);
                assert(self.word_stack@[0] == old(self).word_stack@[0]);
                assert forall|i: int| 0 <= i < self.word_stack@.len() implies generation(
                    self.dictionary@,
                    self.word_stack@[0]@,
                    i as nat,
                ) == Ok::<Seq<T>, RewriteError>((#[trigger] self.word_stack@[i])@) by {
                    if i < last + 1 {
                        assert(self.word_stack@[i] == old(self).word_stack@[i]);
                    }
                }
                Ok(())
            },
            Err(e) => Err(e),
        }
    }

    /// Generation `depth`, computing and holding every generation up to it.
    /// On failure the generations computed before the failing one are kept.
    pub fn iteration(&mut self, depth: usize) -> (r: Result<&Word<T>, RewriteError>)
        requires
            old(self).wf(),
        ensures
            final(self).wf(),
            final(self).start() == old(self).start(),
            final(self).rules() == old(self).rules(),
            final(self).payload_value() == old(self).payload_value(),
            final(self).computed() >= old(self).computed(),
            old(self).computed() > depth ==> final(self).computed() == old(self).computed(),
            match generation(old(self).rules(), old(self).start(), depth as nat) {
                Ok(w) => r is Ok && r->Ok_0@ == w && final(self).computed() == if old(
                    self,
                ).computed() > depth {
                    old(self).computed() as int
                } else {
                    depth + 1
                },
                Err(e) => r == Err::<&Word<T>, RewriteError>(e),
            },
    {
        while self.word_stack.len() <= depth
            invariant
                self.wf(),
                self.start() == old(self).start(),
                self.rules() == old(self).rules(),
                self.payload_value() == old(self).payload_value(),
                self.computed() >= old(self).computed(),
                old(self).computed() > depth ==> self.computed() == old(self).computed(),
                self.computed() <= if old(self).computed() > depth {
                    old(self).computed() as int
                } else {
                    depth + 1
                },
            decreases depth + 1 - self.word_stack@.len(),
        {
            let ghost k = self.word_stack@.len();
            match self.apply_replacements() {
                Ok(()) => {},
                Err(e) => {
                    proof {
                        lemma_generation_fails_on(self.dictionary@, self.word_stack@[0]@, k as nat, depth as nat);
                    }
                    return Err(e);
                },
            }
        }
        Ok(&self.word_stack[depth])
    }

    /// The held generation `depth`, if it has been computed.
    pub fn word_at(&self, depth: usize) -> (r: Option<&Word<T>>)
        requires
            self.wf(),
        ensures
            depth < self.computed() ==> r is Some && Ok::<Seq<T>, RewriteError>(r->Some_0@)
                == generation(self.rules(), self.start(), depth as nat),
            depth >= self.computed() ==> r is None,
    {
        if depth < self.word_stack.len() {
            Some(&self.word_stack[depth])
        } else {
            None
        }
    }

    pub fn payload(&self) -> (r: &P)
        ensures
            *r == self.payload_value(),
    {
        &self.payload
    }

    pub fn dictionary(&self) -> (r: &Dictionary<T, A>)
        ensures
            r@ == self.rules(),
            self.wf() ==> r.wf(),
    {
        &self.dictionary
    }
}

impl<T: Letter, A: Action<T, P>, P: Payload> Fractal<T, A, P> {
    /// Runs the actions of generation `depth` on the payload, from left to
    /// right, computing the generation first; on failure the payload is left
    /// as it was.
    pub fn apply_semantics(&mut self, depth: usize) -> (r: Result<(), RewriteError>)
        requires
            old(self).wf(),
        ensures
            final(self).wf(),
            final(self).start() == old(self).start(),
            final(self).rules() == old(self).rules(),
            final(self).computed() >= old(self).computed(),
            depth < old(self).computed() ==> final(self).computed() == old(self).computed(),
            match generation(old(self).rules(), old(self).start(), depth as nat) {
                Ok(w) => match segmentation(w, old(self).rules().dom()) {
                    Ok(segs) => r is Ok && final(self).payload_value()@ == perform_all::<T, A, P>(
                        old(self).rules(),
                        segs,
                        old(self).payload_value()@,
                    ),
                    Err(p) => r == Err::<(), RewriteError>(
                        RewriteError::NoMatchAtPosition { position: p as usize },
                    ) && final(self).payload_value()@ == old(self).payload_value()@,
                },
                Err(e) => r == Err::<(), RewriteError>(e) && final(self).payload_value()
                    == old(self).payload_value(),
            },
    {
        match self.iteration(depth) {
            Ok(_) => {},
            Err(e) => return Err(e),
        }
        self.word_stack[depth].apply_semantics(&self.dictionary, &mut self.payload)
    }
}

/// The letters of the Koch curve.
#[derive(Debug, Clone, Copy, PartialEq, Eq, Hash, Structural)]
pub enum Koch {
    Forward,
    TurnLeft,
    TurnRight,
}

impl Letter for Koch {
    fn same_as(&self, other: &Koch) -> (r: bool) {
        *self == *other
    }
}

impl Koch {
    /// The character that stands for this letter.
    pub fn symbol(&self) -> (c: char)
        ensures
            c == match *self {
                Koch::Forward => 'F',
                Koch::TurnLeft => '+',
                Koch::TurnRight => '-',
            },
    {
        match self {
            Koch::Forward => 'F',
            Koch::TurnLeft => '+',
            Koch::TurnRight => '-',
        }
    }
}

/// The Koch snowflake: starting word `F--F--F`, rule `F -> F+F--F+F`, and
/// actions that append each letter's symbol to the text payload.
#[allow(non_snake_case)]
pub fn Koch(payload: String) -> (f: Fractal<Koch, AppendChar, String>)
    ensures
        f.wf(),
        f.computed() == 1,
        f.payload_value() == payload,
        f.start() == seq![
            Koch::Forward,
            Koch::TurnRight,
            Koch::TurnRight,
            Koch::Forward,
            Koch::TurnRight,
            Koch::TurnRight,
            Koch::Forward,
        ],
        f.rules() == Map::<Seq<Koch>, EntryView<Koch, AppendChar>>::empty().insert(
            seq![Koch::Forward],
            EntryView {
                replacement: Some(
                    seq![
                        Koch::Forward,
                        Koch::TurnLeft,
                        Koch::Forward,
                        Koch::TurnRight,
                        Koch::TurnRight,
                        Koch::Forward,
                        Koch::TurnLeft,
                        Koch::Forward,
                    ],
                ),
                semantics: Some(AppendChar { symbol: 'F' }),
            },
        ).insert(
            seq![Koch::TurnLeft],
            EntryView { replacement: None, semantics: Some(AppendChar { symbol: '+' }) },
        ).insert(
            seq![Koch::TurnRight],
            EntryView { replacement: None, semantics: Some(AppendChar { symbol: '-' }) },
        ),
{
    let start = Word::from_letters(
        vec![
            Koch::Forward,
            Koch::TurnRight,
            Koch::TurnRight,
            Koch::Forward,
            Koch::TurnRight,
            Koch::TurnRight,
            Koch::Forward,
        ],
    );
    let rule = Word::from_letters(
        vec![
            Koch::Forward,
            Koch::TurnLeft,
            Koch::Forward,
            Koch::TurnRight,
            Koch::TurnRight,
            Koch::Forward,
            Koch::TurnLeft,
            Koch::Forward,
        ],
    );
    let mut dictionary: Dictionary<Koch, AppendChar> = Dictionary::new();
    let _ = dictionary.insert(
        Word::from_letter(Koch::Forward),
        DictionaryEntry::new().with_replacement(rule).with_semantics(AppendChar { symbol: 'F' }),
    );
    let _ = dictionary.insert(
        Word::from_letter(Koch::TurnLeft),
        DictionaryEntry::new().with_semantics(AppendChar { symbol: '+' }),
    );
    let _ = dictionary.insert(
        Word::from_letter(Koch::TurnRight),
        DictionaryEntry::new().with_semantics(AppendChar { symbol: '-' }),
    );
    let mut fractal = Fractal::new(payload);
    fractal.with_dictionary(dictionary);
    fractal.with_starting_word(start);
    fractal
}

} // verus!
