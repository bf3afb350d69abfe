use vstd::prelude::*;

verus! {

use crate::ast::{Ast, AstV};
use crate::context::Context;
use crate::solver::terms;

/// An optimization engine: the assert/check protocol of the plain
/// solver, extended with direction-tagged objective terms.
#[derive(Debug)]
pub struct Optimize {
    /// The asserted terms, in assertion order.
    pub asserted: Vec<Ast>,
    /// Terms declared as objectives to maximize, in declaration order.
    pub maximize_objectives: Vec<Ast>,
    /// Terms declared as objectives to minimize, in declaration order.
    pub minimize_objectives: Vec<Ast>,
}

impl Optimize {
    /// An optimization engine with nothing asserted and no objective,
    /// scoped to the given context.
    pub fn new(context: &Context) -> (r: Optimize)
        ensures
            terms(r.asserted@) =~= Seq::<AstV>::empty(),
            r.maximize_objectives@.len() == 0,
            r.minimize_objectives@.len() == 0,
    {
        Optimize { asserted: Vec::new(), maximize_objectives: Vec::new(), minimize_objectives: Vec::new() }
    }

    /// Record one more asserted term.
    pub fn assert_term(&mut self, term: Ast)
        ensures
            terms(final(self).asserted@) =~= terms(old(self).asserted@).push(term@),
            final(self).maximize_objectives@ == old(self).maximize_objectives@,
            final(self).minimize_objectives@ == old(self).minimize_objectives@,
    {
        self.asserted.push(term);
    }

    /// Declare a term whose value a later check maximizes subject to
    /// the asserted constraints.
    pub fn maximize(&mut self, term: Ast)
        ensures
            terms(final(self).maximize_objectives@) =~= terms(old(self).maximize_objectives@)
                .push(term@),
            final(self).asserted@ == old(self).asserted@,
            final(self).minimize_objectives@ == old(self).minimize_objectives@,
    {
        self.maximize_objectives.push(term);
    }

    /// Declare a term whose value a later check minimizes subject to
    /// the asserted constraints.
    pub fn minimize(&mut self, term: Ast)
        ensures
            terms(final(self).minimize_objectives@) =~= terms(old(self).minimize_objectives@)
                .push(term@),
            final(self).asserted@ == old(self).asserted@,
            final(self).maximize_objectives@ == old(self).maximize_objectives@,
    {
        self.minimize_objectives.push(term);
    }
}

} // verus!
