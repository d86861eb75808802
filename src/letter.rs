use vstd::prelude::*;

verus! {

/// An atomic symbol of an alphabet.
///
/// Letters are plain values: they can be copied freely, and two letters can be
/// compared for equality, which must agree with mathematical equality.
pub trait Letter: Copy + Sized {
    fn same_as(&self, other: &Self) -> (r: bool)
        ensures
            r == (*self == *other),
    ;
}

impl Letter for char {
    fn same_as(&self, other: &char) -> (r: bool) {
        *self == *other
    }
}

impl Letter for u8 {
    fn same_as(&self, other: &u8) -> (r: bool) {
        *self == *other
    }
}

impl Letter for u32 {
    fn same_as(&self, other: &u32) -> (r: bool) {
        *self == *other
    }
}

impl Letter for u64 {
    fn same_as(&self, other: &u64) -> (r: bool) {
        *self == *other
    }
}

impl Letter for usize {
    fn same_as(&self, other: &usize) -> (r: bool) {
        *self == *other
    }
}

impl Letter for i32 {
    fn same_as(&self, other: &i32) -> (r: bool) {
        *self == *other
    }
}

impl Letter for i64 {
    fn same_as(&self, other: &i64) -> (r: bool) {
        *self == *other
    }
}


/// A letter that carries its own context-free production rule.
pub trait Replacement: Letter {
    /// The word this letter is rewritten to, if it has a rule.
    spec fn replacement_spec(&self) -> Option<Seq<Self>>;

    fn replacement(&self) -> (r: Option<Vec<Self>>)
        ensures
            match r {
                Some(v) => self.replacement_spec() == Some(v@),
                None => self.replacement_spec() is None,
            },
    ;
}

/// Turtle letters without production rules.
#[derive(Debug, Clone, Copy, PartialEq, Eq, Hash, Structural)]
pub enum MyLetters {
    Forward,
    TurnLeft,
    TurnRight,
}

impl Letter for MyLetters {
    fn same_as(&self, other: &MyLetters) -> (r: bool) {
        *self == *other
    }
}

impl Replacement for MyLetters {
    open spec fn replacement_spec(&self) -> Option<Seq<Self>> {
        None
    }

    fn replacement(&self) -> (r: Option<Vec<Self>>) {
        None
    }
}

/// The letters of the general-purpose Lindenmayer systems.
#[allow(clippy::upper_case_acronyms)]
#[derive(Debug, Clone, Copy, PartialEq, Eq, Hash, Structural)]
pub enum LindenmayerLetter {
    F,
    G,
    H,
    L,
    R,
    X,
    Y,
    Z,
    PUSH,
    POP,
}

impl Letter for LindenmayerLetter {
    fn same_as(&self, other: &LindenmayerLetter) -> (r: bool) {
        *self == *other
    }
}

impl LindenmayerLetter {
    /// The letter that draws a step forward.
    pub fn forward() -> (l: Self)
        ensures
            l == LindenmayerLetter::F,
    {
        LindenmayerLetter::F
    }
}

} // verus!
