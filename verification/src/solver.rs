use vstd::prelude::*;

verus! {

use crate::ast::{Ast, AstV};
use crate::context::Context;

/// Outcome of a satisfiability or optimization check. `Unknown` is a
/// legitimate verdict (resource or decidability limits) and is never
/// conflated with `Unsat`.
#[derive(Clone, Debug, Eq, PartialEq, Structural)]
pub enum Check {
    Sat,
    Unknown,
    Unsat,
}

impl Check {
    /// Map the backend's integer verdict to a `Check`: negative one
    /// means unsatisfiable, one means satisfiable, anything else is
    /// unknown.
    pub fn from_lbool(lbool: i32) -> (r: Check)
        ensures
            lbool == -1 ==> r == Check::Unsat,
            lbool == 1 ==> r == Check::Sat,
            lbool != -1 && lbool != 1 ==> r == Check::Unknown,
    {
        if lbool == -1 {
            Check::Unsat
        } else if lbool == 1 {
            Check::Sat
        } else {
            Check::Unknown
        }
    }
}

/// The abstract values of a sequence of terms.
pub open spec fn terms(v: Seq<Ast>) -> Seq<AstV> {
    v.map_values(|a: Ast| a@)
}

/// A plain satisfiability engine: an ordered accumulation of asserted
/// boolean terms, checked as a whole.
#[derive(Debug)]
pub struct Solver {
    /// The asserted terms, in assertion order.
    pub asserted: Vec<Ast>,
}

impl View for Solver {
    type V = Seq<AstV>;

    open spec fn view(&self) -> Seq<AstV> {
        terms(self.asserted@)
    }
}

impl Solver {
    /// A solver with nothing asserted, scoped to the given context.
    pub fn new(context: &Context) -> (r: Solver)
        ensures
            r@ =~= Seq::<AstV>::empty(),
    {
        Solver { asserted: Vec::new() }
    }

    /// Record one more asserted term; every later check sees the whole
    /// accumulated set.
    pub fn assert_term(&mut self, constraint: Ast)
        ensures
            final(self)@ =~= old(self)@.push(constraint@),
    {
        self.asserted.push(constraint);
    }
}

} // verus!
