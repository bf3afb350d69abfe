use vstd::prelude::*;

verus! {

use crate::ast::{Ast, AstV};
use crate::constant::Constant;
use crate::context::Context;
use crate::solver::Check;

/// The value bound to a name in a model, by value and width.
pub open spec fn model_lookup(s: Seq<(String, Constant)>, name: Seq<char>) -> Option<(nat, nat)>
    decreases s.len(),
{
    if s.len() == 0 {
        None
    } else if s[0].0@ == name {
        Some((s[0].1.value(), s[0].1.bits as nat))
    } else {
        model_lookup(s.drop_first(), name)
    }
}

/// A read-only snapshot of a satisfying assignment: concrete constants
/// for the named result variables of one successful check.
#[derive(Debug)]
pub struct Model {
    /// The witnessed values, one per bound variable name.
    pub bindings: Vec<(String, Constant)>,
}

impl Model {
    /// Every constant a model hands out is well formed.
    pub open spec fn inv(&self) -> bool {
        forall|i: int| 0 <= i < self.bindings@.len() ==> (#[trigger] self.bindings@[i]).1.inv()
    }

    /// Take a snapshot of the given witnessed values; refuses to exist
    /// unless the last check was satisfiable.
    pub fn new(context: &Context, check: &Check, bindings: Vec<(String, Constant)>) -> (r: Option<
        Model,
    >)
        requires
            forall|i: int| 0 <= i < bindings@.len() ==> (#[trigger] bindings@[i]).1.inv(),
        ensures
            r is Some <==> *check == Check::Sat,
            r matches Some(m) ==> m.bindings@ == bindings@ && m.inv(),
    {
        match check {
            Check::Sat => Some(Model { bindings }),
            _ => None,
        }
    }

    /// The model's interpretation of a term: the value bound to a free
    /// variable's name, or nothing for a term outside the model's
    /// support, which degrades to "no answer" rather than raising.
    pub fn get_const_interp(&self, t: &Ast) -> (r: Option<Constant>)
        requires
            self.inv(),
        ensures
            match t@ {
                AstV::Var(name, _) => match model_lookup(self.bindings@, name) {
                    Some((v, b)) => r matches Some(c) && c.inv() && c.value() == v && c.bits as nat
                        == b,
                    None => r is None,
                },
                _ => r is None,
            },
    {
        let name: &String = match t {
            Ast::Var { name, sort: _ } => name,
            _ => {
                return None;
            },
        };
        let n = self.bindings.len();
        let mut i: usize = 0;
        proof {
            assert(self.bindings@.skip(0) =~= self.bindings@);
        }
        while i < n
            invariant
                i <= n,
                n == self.bindings@.len(),
                self.inv(),
                t@ is Var,
                name@ == t@->Var_0,
                model_lookup(self.bindings@, name@) == model_lookup(
                    self.bindings@.skip(i as int),
                    name@,
                ),
            decreases n - i,
        {
            let pair = &self.bindings[i];
            proof {
                let s = self.bindings@.skip(i as int);
                assert(s[0] == self.bindings@[i as int]);
                assert(s.drop_first() =~= self.bindings@.skip(i + 1));
            }
            if pair.0.eq(name) {
                proof {
                    let s = self.bindings@.skip(i as int);
                    assert(s[0].0@ == name@);
                    assert(model_lookup(s, name@) == Some((s[0].1.value(), s[0].1.bits as nat)));
                    assert(self.bindings@[i as int].1.inv());
                }
                let c = &pair.1;
                let mut bytes: Vec<u8> = Vec::new();
                let m = c.bytes.len();
                let mut j: usize = 0;
                while j < m
                    invariant
                        j <= m,
                        m == c.bytes@.len(),
                        bytes@ =~= c.bytes@.take(j as int),
                    decreases m - j,
                {
                    proof {
                        assert(c.bytes@.take(j + 1) =~= c.bytes@.take(j as int).push(
                            c.bytes@[j as int],
                        ));
                    }
                    bytes.push(c.bytes[j]);
                    j += 1;
                }
                proof {
                    assert(c.bytes@.take(m as int) =~= c.bytes@);
                }
                return Some(Constant { bytes, bits: c.bits });
            }
            i += 1;
        }
        proof {
            assert(self.bindings@.skip(n as int) =~= Seq::<(String, Constant)>::empty());
        }
        None
    }
}

} // verus!
