use vstd::prelude::*;

use crate::letter::{Letter, Replacement};

verus! {

/// The letters of the Koch curve.
#[derive(Debug, Clone, Copy, PartialEq, Eq, Hash, Structural)]
pub enum Koch {
    F,
    L,
    R,
}

impl Letter for Koch {
    fn same_as(&self, other: &Koch) -> (r: bool) {
        *self == *other
    }
}

impl Replacement for Koch {
    open spec fn replacement_spec(&self) -> Option<Seq<Self>> {
        match *self {
            Koch::F => Some(seq![Koch::F, Koch::L, Koch::F, Koch::R, Koch::R, Koch::F, Koch::L, Koch::F]),
            _ => None,
        }
    }

    fn replacement(&self) -> (r: Option<Vec<Self>>) {
        match self {
            Koch::F => Some(vec![Koch::F, Koch::L, Koch::F, Koch::R, Koch::R, Koch::F, Koch::L, Koch::F]),
            _ => None,
        }
    }
}

/// The letters of the Lévy C curve.
#[derive(Debug, Clone, Copy, PartialEq, Eq, Hash, Structural)]
pub enum Levy {
    F,
    L,
    R,
}

impl Letter for Levy {
    fn same_as(&self, other: &Levy) -> (r: bool) {
        *self == *other
    }
}

impl Replacement for Levy {
    open spec fn replacement_spec(&self) -> Option<Seq<Self>> {
        match *self {
            Levy::F => Some(seq![Levy::L, Levy::F, Levy::R, Levy::R, Levy::F, Levy::L]),
            _ => None,
        }
    }

    fn replacement(&self) -> (r: Option<Vec<Self>>) {
        match self {
            Levy::F => Some(vec![Levy::L, Levy::F, Levy::R, Levy::R, Levy::F, Levy::L]),
            _ => None,
        }
    }
}

/// The letters of the Sierpiński carpet.
#[derive(Debug, Clone, Copy, PartialEq, Eq, Hash, Structural)]
pub enum SierTepp {
    F,
    J,
    L,
    R,
}

impl Letter for SierTepp {
    fn same_as(&self, other: &SierTepp) -> (r: bool) {
        *self == *other
    }
}

impl Replacement for SierTepp {
    open spec fn replacement_spec(&self) -> Option<Seq<Self>> {
        match *self {
            SierTepp::F => Some(seq![SierTepp::F, SierTepp::L, SierTepp::F, SierTepp::R, SierTepp::F, SierTepp::R, SierTepp::F, SierTepp::F, SierTepp::R, SierTepp::F, SierTepp::R, SierTepp::F, SierTepp::R, SierTepp::J, SierTepp::F]),
            SierTepp::J => Some(seq![SierTepp::J, SierTepp::J, SierTepp::J]),
            _ => None,
        }
    }

    fn replacement(&self) -> (r: Option<Vec<Self>>) {
        match self {
            SierTepp::F => Some(vec![SierTepp::F, SierTepp::L, SierTepp::F, SierTepp::R, SierTepp::F, SierTepp::R, SierTepp::F, SierTepp::F, SierTepp::R, SierTepp::F, SierTepp::R, SierTepp::F, SierTepp::R, SierTepp::J, SierTepp::F]),
            SierTepp::J => Some(vec![SierTepp::J, SierTepp::J, SierTepp::J]),
            _ => None,
        }
    }
}

/// The letters of the dragon curve.
#[derive(Debug, Clone, Copy, PartialEq, Eq, Hash, Structural)]
pub enum DragonCurve {
    F,
    W,
    L,
    R,
}

impl Letter for DragonCurve {
    fn same_as(&self, other: &DragonCurve) -> (r: bool) {
        *self == *other
    }
}

impl Replacement for DragonCurve {
    open spec fn replacement_spec(&self) -> Option<Seq<Self>> {
        match *self {
            DragonCurve::F => Some(seq![DragonCurve::L, DragonCurve::F, DragonCurve::R, DragonCurve::R, DragonCurve::W, DragonCurve::L]),
            DragonCurve::W => Some(seq![DragonCurve::R, DragonCurve::F, DragonCurve::L, DragonCurve::L, DragonCurve::W, DragonCurve::R]),
            _ => None,
        }
    }

    fn replacement(&self) -> (r: Option<Vec<Self>>) {
        match self {
            DragonCurve::F => Some(vec![DragonCurve::L, DragonCurve::F, DragonCurve::R, DragonCurve::R, DragonCurve::W, DragonCurve::L]),
            DragonCurve::W => Some(vec![DragonCurve::R, DragonCurve::F, DragonCurve::L, DragonCurve::L, DragonCurve::W, DragonCurve::R]),
            _ => None,
        }
    }
}

/// The letters of the Gosper curve.
#[derive(Debug, Clone, Copy, PartialEq, Eq, Hash, Structural)]
pub enum GosperCurve {
    F,
    W,
    L,
    R,
}

impl Letter for GosperCurve {
    fn same_as(&self, other: &GosperCurve) -> (r: bool) {
        *self == *other
    }
}

impl Replacement for GosperCurve {
    open spec fn replacement_spec(&self) -> Option<Seq<Self>> {
        match *self {
            GosperCurve::F => Some(seq![GosperCurve::F, GosperCurve::L, GosperCurve::W, GosperCurve::L, GosperCurve::L, GosperCurve::W, GosperCurve::R, GosperCurve::F, GosperCurve::R, GosperCurve::R, GosperCurve::F, GosperCurve::F, GosperCurve::R, GosperCurve::W, GosperCurve::L]),
            GosperCurve::W => Some(seq![GosperCurve::R, GosperCurve::F, GosperCurve::L, GosperCurve::W, GosperCurve::W, GosperCurve::L, GosperCurve::L, GosperCurve::W, GosperCurve::L, GosperCurve::F, GosperCurve::R, GosperCurve::R, GosperCurve::F, GosperCurve::R, GosperCurve::W]),
            _ => None,
        }
    }

    fn replacement(&self) -> (r: Option<Vec<Self>>) {
        match self {
            GosperCurve::F => Some(vec![GosperCurve::F, GosperCurve::L, GosperCurve::W, GosperCurve::L, GosperCurve::L, GosperCurve::W, GosperCurve::R, GosperCurve::F, GosperCurve::R, GosperCurve::R, GosperCurve::F, GosperCurve::F, GosperCurve::R, GosperCurve::W, GosperCurve::L]),
            GosperCurve::W => Some(vec![GosperCurve::R, GosperCurve::F, GosperCurve::L, GosperCurve::W, GosperCurve::W, GosperCurve::L, GosperCurve::L, GosperCurve::W, GosperCurve::L, GosperCurve::F, GosperCurve::R, GosperCurve::R, GosperCurve::F, GosperCurve::R, GosperCurve::W]),
            _ => None,
        }
    }
}

/// The letters of the Hilbert curve.
#[derive(Debug, Clone, Copy, PartialEq, Eq, Hash, Structural)]
pub enum HilbertCurve {
    F,
    A,
    B,
    L,
    R,
}

impl Letter for HilbertCurve {
    fn same_as(&self, other: &HilbertCurve) -> (r: bool) {
        *self == *other
    }
}

impl Replacement for HilbertCurve {
    open spec fn replacement_spec(&self) -> Option<Seq<Self>> {
        match *self {
            HilbertCurve::A => Some(seq![HilbertCurve::L, HilbertCurve::B, HilbertCurve::F, HilbertCurve::R, HilbertCurve::A, HilbertCurve::F, HilbertCurve::A, HilbertCurve::R, HilbertCurve::F, HilbertCurve::B, HilbertCurve::L]),
            HilbertCurve::B => Some(seq![HilbertCurve::R, HilbertCurve::A, HilbertCurve::F, HilbertCurve::L, HilbertCurve::B, HilbertCurve::F, HilbertCurve::B, HilbertCurve::L, HilbertCurve::F, HilbertCurve::A, HilbertCurve::R]),
            HilbertCurve::F => Some(seq![HilbertCurve::F, HilbertCurve::F]),
            _ => None,
        }
    }

    fn replacement(&self) -> (r: Option<Vec<Self>>) {
        match self {
            HilbertCurve::A => Some(vec![HilbertCurve::L, HilbertCurve::B, HilbertCurve::F, HilbertCurve::R, HilbertCurve::A, HilbertCurve::F, HilbertCurve::A, HilbertCurve::R, HilbertCurve::F, HilbertCurve::B, HilbertCurve::L]),
            HilbertCurve::B => Some(vec![HilbertCurve::R, HilbertCurve::A, HilbertCurve::F, HilbertCurve::L, HilbertCurve::B, HilbertCurve::F, HilbertCurve::B, HilbertCurve::L, HilbertCurve::F, HilbertCurve::A, HilbertCurve::R]),
            HilbertCurve::F => Some(vec![HilbertCurve::F, HilbertCurve::F]),
            _ => None,
        }
    }
}

/// The letters of the Penta-plexity.
#[derive(Debug, Clone, Copy, PartialEq, Eq, Hash, Structural)]
pub enum PentaPlexity {
    F,
    L,
    R,
    T,
}

impl Letter for PentaPlexity {
    fn same_as(&self, other: &PentaPlexity) -> (r: bool) {
        *self == *other
    }
}

impl Replacement for PentaPlexity {
    open spec fn replacement_spec(&self) -> Option<Seq<Self>> {
        match *self {
            PentaPlexity::F => Some(seq![PentaPlexity::F, PentaPlexity::L, PentaPlexity::L, PentaPlexity::F, PentaPlexity::L, PentaPlexity::L, PentaPlexity::F, PentaPlexity::T, PentaPlexity::F, PentaPlexity::R, PentaPlexity::F, PentaPlexity::L, PentaPlexity::L, PentaPlexity::F]),
            _ => None,
        }
    }

    fn replacement(&self) -> (r: Option<Vec<Self>>) {
        match self {
            PentaPlexity::F => Some(vec![PentaPlexity::F, PentaPlexity::L, PentaPlexity::L, PentaPlexity::F, PentaPlexity::L, PentaPlexity::L, PentaPlexity::F, PentaPlexity::T, PentaPlexity::F, PentaPlexity::R, PentaPlexity::F, PentaPlexity::L, PentaPlexity::L, PentaPlexity::F]),
            _ => None,
        }
    }
}

/// The letters of the Sierpiński arrowhead curve.
#[derive(Debug, Clone, Copy, PartialEq, Eq, Hash, Structural)]
pub enum ArrowHead {
    F,
    W,
    L,
    R,
}

impl Letter for ArrowHead {
    fn same_as(&self, other: &ArrowHead) -> (r: bool) {
        *self == *other
    }
}

impl Replacement for ArrowHead {
    open spec fn replacement_spec(&self) -> Option<Seq<Self>> {
        match *self {
            ArrowHead::F => Some(seq![ArrowHead::R, ArrowHead::W, ArrowHead::L, ArrowHead::F, ArrowHead::L, ArrowHead::W, ArrowHead::R]),
            ArrowHead::W => Some(seq![ArrowHead::L, ArrowHead::F, ArrowHead::R, ArrowHead::W, ArrowHead::R, ArrowHead::F, ArrowHead::L]),
            _ => None,
        }
    }

    fn replacement(&self) -> (r: Option<Vec<Self>>) {
        match self {
            ArrowHead::F => Some(vec![ArrowHead::R, ArrowHead::W, ArrowHead::L, ArrowHead::F, ArrowHead::L, ArrowHead::W, ArrowHead::R]),
            ArrowHead::W => Some(vec![ArrowHead::L, ArrowHead::F, ArrowHead::R, ArrowHead::W, ArrowHead::R, ArrowHead::F, ArrowHead::L]),
            _ => None,
        }
    }
}

/// The letters of the Sierpiński triangle.
#[derive(Debug, Clone, Copy, PartialEq, Eq, Hash, Structural)]
pub enum SierpinskiTriangle {
    F,
    J,
    L,
    R,
}

impl Letter for SierpinskiTriangle {
    fn same_as(&self, other: &SierpinskiTriangle) -> (r: bool) {
        *self == *other
    }
}

impl Replacement for SierpinskiTriangle {
    open spec fn replacement_spec(&self) -> Option<Seq<Self>> {
        match *self {
            SierpinskiTriangle::F => Some(seq![SierpinskiTriangle::F, SierpinskiTriangle::R, SierpinskiTriangle::R, SierpinskiTriangle::F, SierpinskiTriangle::R, SierpinskiTriangle::R, SierpinskiTriangle::F, SierpinskiTriangle::R, SierpinskiTriangle::R, SierpinskiTriangle::J, SierpinskiTriangle::J]),
            SierpinskiTriangle::J => Some(seq![SierpinskiTriangle::J, SierpinskiTriangle::J]),
            _ => None,
        }
    }

    fn replacement(&self) -> (r: Option<Vec<Self>>) {
        match self {
            SierpinskiTriangle::F => Some(vec![SierpinskiTriangle::F, SierpinskiTriangle::R, SierpinskiTriangle::R, SierpinskiTriangle::F, SierpinskiTriangle::R, SierpinskiTriangle::R, SierpinskiTriangle::F, SierpinskiTriangle::R, SierpinskiTriangle::R, SierpinskiTriangle::J, SierpinskiTriangle::J]),
            SierpinskiTriangle::J => Some(vec![SierpinskiTriangle::J, SierpinskiTriangle::J]),
            _ => None,
        }
    }
}

/// The letters of a fractal plant.
#[allow(non_camel_case_types, clippy::upper_case_acronyms)]
#[derive(Debug, Clone, Copy, PartialEq, Eq, Hash, Structural)]
pub enum FirstPlant {
    F,
    X,
    L,
    R,
    PUSH,
    POP,
}

impl Letter for FirstPlant {
    fn same_as(&self, other: &FirstPlant) -> (r: bool) {
        *self == *other
    }
}

impl Replacement for FirstPlant {
    open spec fn replacement_spec(&self) -> Option<Seq<Self>> {
        match *self {
            FirstPlant::X => Some(seq![FirstPlant::F, FirstPlant::L, FirstPlant::PUSH, FirstPlant::PUSH, FirstPlant::X, FirstPlant::POP, FirstPlant::R, FirstPlant::X, FirstPlant::POP, FirstPlant::R, FirstPlant::F, FirstPlant::PUSH, FirstPlant::R, FirstPlant::F, FirstPlant::X, FirstPlant::POP, FirstPlant::L, FirstPlant::X]),
            FirstPlant::F => Some(seq![FirstPlant::F, FirstPlant::F]),
            _ => None,
        }
    }

    fn replacement(&self) -> (r: Option<Vec<Self>>) {
        match self {
            FirstPlant::X => Some(vec![FirstPlant::F, FirstPlant::L, FirstPlant::PUSH, FirstPlant::PUSH, FirstPlant::X, FirstPlant::POP, FirstPlant::R, FirstPlant::X, FirstPlant::POP, FirstPlant::R, FirstPlant::F, FirstPlant::PUSH, FirstPlant::R, FirstPlant::F, FirstPlant::X, FirstPlant::POP, FirstPlant::L, FirstPlant::X]),
            FirstPlant::F => Some(vec![FirstPlant::F, FirstPlant::F]),
            _ => None,
        }
    }
}

/// The letters of a fractal plant.
#[allow(non_camel_case_types, clippy::upper_case_acronyms)]
#[derive(Debug, Clone, Copy, PartialEq, Eq, Hash, Structural)]
pub enum PlantOne {
    F,
    X,
    L,
    R,
    PUSH,
    POP,
}

impl Letter for PlantOne {
    fn same_as(&self, other: &PlantOne) -> (r: bool) {
        *self == *other
    }
}

impl Replacement for PlantOne {
    open spec fn replacement_spec(&self) -> Option<Seq<Self>> {
        match *self {
            PlantOne::X => Some(seq![PlantOne::F, PlantOne::L, PlantOne::PUSH, PlantOne::L, PlantOne::PUSH, PlantOne::R, PlantOne::R, PlantOne::R, PlantOne::PUSH, PlantOne::X, PlantOne::POP, PlantOne::X, PlantOne::POP, PlantOne::X, PlantOne::POP, PlantOne::F, PlantOne::X]),
            PlantOne::F => Some(seq![PlantOne::F, PlantOne::F]),
            _ => None,
        }
    }

    fn replacement(&self) -> (r: Option<Vec<Self>>) {
        match self {
            PlantOne::X => Some(vec![PlantOne::F, PlantOne::L, PlantOne::PUSH, PlantOne::L, PlantOne::PUSH, PlantOne::R, PlantOne::R, PlantOne::R, PlantOne::PUSH, PlantOne::X, PlantOne::POP, PlantOne::X, PlantOne::POP, PlantOne::X, PlantOne::POP, PlantOne::F, PlantOne::X]),
            PlantOne::F => Some(vec![PlantOne::F, PlantOne::F]),
            _ => None,
        }
    }
}

/// The letters of a fractal plant.
#[allow(non_camel_case_types, clippy::upper_case_acronyms)]
#[derive(Debug, Clone, Copy, PartialEq, Eq, Hash, Structural)]
pub enum PlantTwo {
    F,
    X,
    Y,
    L,
    R,
    PUSH,
    POP,
}

impl Letter for PlantTwo {
    fn same_as(&self, other: &PlantTwo) -> (r: bool) {
        *self == *other
    }
}

impl Replacement for PlantTwo {
    open spec fn replacement_spec(&self) -> Option<Seq<Self>> {
        match *self {
            PlantTwo::X => Some(seq![PlantTwo::F, PlantTwo::R, PlantTwo::PUSH, PlantTwo::PUSH, PlantTwo::Y, PlantTwo::POP, PlantTwo::L, PlantTwo::L, PlantTwo::X, PlantTwo::POP, PlantTwo::F, PlantTwo::Y]),
            PlantTwo::Y => Some(seq![PlantTwo::F, PlantTwo::L, PlantTwo::PUSH, PlantTwo::PUSH, PlantTwo::X, PlantTwo::POP, PlantTwo::R, PlantTwo::R, PlantTwo::Y, PlantTwo::POP, PlantTwo::F, PlantTwo::Y]),
            PlantTwo::F => Some(seq![PlantTwo::F, PlantTwo::F]),
            _ => None,
        }
    }

    fn replacement(&self) -> (r: Option<Vec<Self>>) {
        match self {
            PlantTwo::X => Some(vec![PlantTwo::F, PlantTwo::R, PlantTwo::PUSH, PlantTwo::PUSH, PlantTwo::Y, PlantTwo::POP, PlantTwo::L, PlantTwo::L, PlantTwo::X, PlantTwo::POP, PlantTwo::F, PlantTwo::Y]),
            PlantTwo::Y => Some(vec![PlantTwo::F, PlantTwo::L, PlantTwo::PUSH, PlantTwo::PUSH, PlantTwo::X, PlantTwo::POP, PlantTwo::R, PlantTwo::R, PlantTwo::Y, PlantTwo::POP, PlantTwo::F, PlantTwo::Y]),
            PlantTwo::F => Some(vec![PlantTwo::F, PlantTwo::F]),
            _ => None,
        }
    }
}

/// The letters of a fractal plant.
#[allow(non_camel_case_types, clippy::upper_case_acronyms)]
#[derive(Debug, Clone, Copy, PartialEq, Eq, Hash, Structural)]
pub enum PlantThree {
    F,
    X,
    Y,
    L,
    R,
    PUSH,
    POP,
}

impl Letter for PlantThree {
    fn same_as(&self, other: &PlantThree) -> (r: bool) {
        *self == *other
    }
}

impl Replacement for PlantThree {
    open spec fn replacement_spec(&self) -> Option<Seq<Self>> {
        match *self {
            PlantThree::X => Some(seq![PlantThree::F, PlantThree::L, PlantThree::PUSH, PlantThree::X, PlantThree::POP, PlantThree::R, PlantThree::F, PlantThree::R, PlantThree::R, PlantThree::PUSH, PlantThree::X, PlantThree::POP, PlantThree::L, PlantThree::L, PlantThree::X]),
            PlantThree::F => Some(seq![PlantThree::F, PlantThree::F]),
            _ => None,
        }
    }

    fn replacement(&self) -> (r: Option<Vec<Self>>) {
        match self {
            PlantThree::X => Some(vec![PlantThree::F, PlantThree::L, PlantThree::PUSH, PlantThree::X, PlantThree::POP, PlantThree::R, PlantThree::F, PlantThree::R, PlantThree::R, PlantThree::PUSH, PlantThree::X, PlantThree::POP, PlantThree::L, PlantThree::L, PlantThree::X]),
            PlantThree::F => Some(vec![PlantThree::F, PlantThree::F]),
            _ => None,
        }
    }
}

} // verus!
