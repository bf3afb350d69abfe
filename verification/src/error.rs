use vstd::prelude::*;

verus! {

/// Failures surfaced by the translation and solving layer.
///
/// `Sort` reports a bit-width mismatch while building an expression,
/// `InvalidName` a variable name the backend cannot encode (it embeds a
/// NUL terminator), and `Parse` a decimal numeral string that does not
/// denote an unsigned value of the requested width.
#[derive(Clone, Copy, Debug, PartialEq, Eq, Structural)]
pub enum Error {
    Sort,
    InvalidName,
    Parse,
}

} // verus!
