use vstd::prelude::*;

use crate::word::push_char;

verus! {

/// A caller-owned value that actions change, seen through its view.
pub trait Payload: View {}

impl Payload for () {}

impl Payload for String {}

/// What a dictionary entry does to a payload when its key is matched.
pub trait Action<T, P: Payload> {
    /// The payload's view after the action ran on `word`, from its view before.
    spec fn effect(&self, word: Seq<T>, payload: P::V) -> P::V;

    fn execute(&self, word: &[T], payload: &mut P)
        ensures
            final(payload)@ == self.effect(word@, old(payload)@),
    ;
}

/// The unit action leaves every payload as it is.
impl<T, P: Payload> Action<T, P> for () {
    open spec fn effect(&self, word: Seq<T>, payload: P::V) -> P::V {
        payload
    }

    fn execute(&self, word: &[T], payload: &mut P) {
    }
}

/// Appends a fixed character to a text payload, whatever the matched word.
#[derive(Debug, Clone, Copy, PartialEq, Eq, Structural)]
pub struct AppendChar {
    pub symbol: char,
}

impl<T> Action<T, String> for AppendChar {
    open spec fn effect(&self, word: Seq<T>, payload: Seq<char>) -> Seq<char> {
        payload.push(self.symbol)
    }

    fn execute(&self, word: &[T], payload: &mut String) {
        push_char(payload, self.symbol);
    }
}

} // verus!
