use vstd::prelude::*;

verus! {

/// A bit-vector type tag: terms of equal width are interchangeable,
/// terms of different widths never are.
#[derive(Clone, Copy, Debug, PartialEq, Eq, Structural)]
pub struct Sort {
    /// The width in bits of the values this sort describes.
    pub bits: usize,
}

/// The type of a formula term: the backend distinguishes its boolean
/// sort from every bit-vector sort.
pub enum TermSort {
    Boolean,
    BitVector(nat),
}

} // verus!
