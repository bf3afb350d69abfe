use vstd::prelude::*;

verus! {

use crate::ast::{Ast, AstV};
use crate::config::Config;
use crate::error::Error;
use crate::sort::Sort;
use vstd::string::StrSliceExecFns;

/// Whether a name embeds the backend's structural terminator, which
/// its native string form cannot represent.
pub open spec fn has_nul(s: Seq<char>) -> bool {
    exists|i: int| 0 <= i < s.len() && s[i] == '\0'
}

/// An engine handle: the factory for sorts, variables, numerals and
/// operator applications, and the session every derived object is
/// scoped to.
#[derive(Debug)]
pub struct Context {
    /// Whether a satisfying assignment may be read back after a check.
    pub model: bool,
}

impl Context {
    /// Open a session with the given configuration.
    pub fn new(config: Config) -> (r: Context)
        ensures
            r.model == config.model,
    {
        Context { model: config.model }
    }

    /// Build a `bit-vector addition` term over two equal-width bit-vector operands.
    pub fn bvadd(&self, lhs: Ast, rhs: Ast) -> (r: Ast)
        ensures
            r@ == AstV::Bvadd(Box::new(lhs@), Box::new(rhs@)),
    {
        Ast::Bvadd(Box::new(lhs), Box::new(rhs))
    }

    /// Build a `bit-vector and` term over two equal-width bit-vector operands.
    pub fn bvand(&self, lhs: Ast, rhs: Ast) -> (r: Ast)
        ensures
            r@ == AstV::Bvand(Box::new(lhs@), Box::new(rhs@)),
    {
        Ast::Bvand(Box::new(lhs), Box::new(rhs))
    }

    /// Build a `bit-vector multiplication` term over two equal-width bit-vector operands.
    pub fn bvmul(&self, lhs: Ast, rhs: Ast) -> (r: Ast)
        ensures
            r@ == AstV::Bvmul(Box::new(lhs@), Box::new(rhs@)),
    {
        Ast::Bvmul(Box::new(lhs), Box::new(rhs))
    }

    /// Build a `bit-vector or` term over two equal-width bit-vector operands.
    pub fn bvor(&self, lhs: Ast, rhs: Ast) -> (r: Ast)
        ensures
            r@ == AstV::Bvor(Box::new(lhs@), Box::new(rhs@)),
    {
        Ast::Bvor(Box::new(lhs), Box::new(rhs))
    }

    /// Build a `two's-complement truncating division` term over two equal-width bit-vector operands.
    pub fn bvsdiv(&self, lhs: Ast, rhs: Ast) -> (r: Ast)
        ensures
            r@ == AstV::Bvsdiv(Box::new(lhs@), Box::new(rhs@)),
    {
        Ast::Bvsdiv(Box::new(lhs), Box::new(rhs))
    }

    /// Build a `logical shift left` term over two equal-width bit-vector operands.
    pub fn bvshl(&self, lhs: Ast, rhs: Ast) -> (r: Ast)
        ensures
            r@ == AstV::Bvshl(Box::new(lhs@), Box::new(rhs@)),
    {
        Ast::Bvshl(Box::new(lhs), Box::new(rhs))
    }

    /// Build a `logical shift right` term over two equal-width bit-vector operands.
    pub fn bvshr(&self, lhs: Ast, rhs: Ast) -> (r: Ast)
        ensures
            r@ == AstV::Bvlshr(Box::new(lhs@), Box::new(rhs@)),
    {
        Ast::Bvlshr(Box::new(lhs), Box::new(rhs))
    }

    /// Build a `signed less-or-equal comparison` term over two equal-width bit-vector operands.
    pub fn bvsle(&self, lhs: Ast, rhs: Ast) -> (r: Ast)
        ensures
            r@ == AstV::Bvsle(Box::new(lhs@), Box::new(rhs@)),
    {
        Ast::Bvsle(Box::new(lhs), Box::new(rhs))
    }

    /// Build a `signed less-than comparison` term over two equal-width bit-vector operands.
    pub fn bvslt(&self, lhs: Ast, rhs: Ast) -> (r: Ast)
        ensures
            r@ == AstV::Bvslt(Box::new(lhs@), Box::new(rhs@)),
    {
        Ast::Bvslt(Box::new(lhs), Box::new(rhs))
    }

    /// Build a `two's-complement remainder` term over two equal-width bit-vector operands.
    pub fn bvsrem(&self, lhs: Ast, rhs: Ast) -> (r: Ast)
        ensures
            r@ == AstV::Bvsrem(Box::new(lhs@), Box::new(rhs@)),
    {
        Ast::Bvsrem(Box::new(lhs), Box::new(rhs))
    }

    /// Build a `bit-vector subtraction` term over two equal-width bit-vector operands.
    pub fn bvsub(&self, lhs: Ast, rhs: Ast) -> (r: Ast)
        ensures
            r@ == AstV::Bvsub(Box::new(lhs@), Box::new(rhs@)),
    {
        Ast::Bvsub(Box::new(lhs), Box::new(rhs))
    }

    /// Build a `unsigned division` term over two equal-width bit-vector operands.
    pub fn bvudiv(&self, lhs: Ast, rhs: Ast) -> (r: Ast)
        ensures
            r@ == AstV::Bvudiv(Box::new(lhs@), Box::new(rhs@)),
    {
        Ast::Bvudiv(Box::new(lhs), Box::new(rhs))
    }

    /// Build a `unsigned less-or-equal comparison` term over two equal-width bit-vector operands.
    pub fn bvule(&self, lhs: Ast, rhs: Ast) -> (r: Ast)
        ensures
            r@ == AstV::Bvule(Box::new(lhs@), Box::new(rhs@)),
    {
        Ast::Bvule(Box::new(lhs), Box::new(rhs))
    }

    /// Build a `unsigned less-than comparison` term over two equal-width bit-vector operands.
    pub fn bvult(&self, lhs: Ast, rhs: Ast) -> (r: Ast)
        ensures
            r@ == AstV::Bvult(Box::new(lhs@), Box::new(rhs@)),
    {
        Ast::Bvult(Box::new(lhs), Box::new(rhs))
    }

    /// Build a `unsigned remainder` term over two equal-width bit-vector operands.
    pub fn bvurem(&self, lhs: Ast, rhs: Ast) -> (r: Ast)
        ensures
            r@ == AstV::Bvurem(Box::new(lhs@), Box::new(rhs@)),
    {
        Ast::Bvurem(Box::new(lhs), Box::new(rhs))
    }

    /// Build a `bit-vector exclusive or` term over two equal-width bit-vector operands.
    pub fn bvxor(&self, lhs: Ast, rhs: Ast) -> (r: Ast)
        ensures
            r@ == AstV::Bvxor(Box::new(lhs@), Box::new(rhs@)),
    {
        Ast::Bvxor(Box::new(lhs), Box::new(rhs))
    }

    /// Concatenate two terms; the first operand occupies the
    /// most-significant bits of the result.
    pub fn concat(&self, t1: Ast, t2: Ast) -> (r: Ast)
        ensures
            r@ == AstV::Concat(Box::new(t1@), Box::new(t2@)),
    {
        Ast::Concat(Box::new(t1), Box::new(t2))
    }

    /// Select the inclusive bit range `high` down to `low` of a term.
    pub fn extract(&self, high: u32, low: u32, t1: Ast) -> (r: Ast)
        ensures
            r@ == AstV::Extract(high as nat, low as nat, Box::new(t1@)),
    {
        Ast::Extract(high, low, Box::new(t1))
    }

    /// Build a structural equality between two terms of one sort; the
    /// result carries the backend's boolean sort.
    pub fn eq(&self, lhs: Ast, rhs: Ast) -> (r: Ast)
        ensures
            r@ == AstV::Eq(Box::new(lhs@), Box::new(rhs@)),
    {
        Ast::Eq(Box::new(lhs), Box::new(rhs))
    }

    /// Widen a term by `extra_bits` zero bits.
    pub fn zero_ext(&self, extra_bits: u32, t1: Ast) -> (r: Ast)
        ensures
            r@ == AstV::ZeroExt(extra_bits as nat, Box::new(t1@)),
    {
        Ast::ZeroExt(extra_bits, Box::new(t1))
    }

    /// Widen a term by `extra_bits` copies of its sign bit.
    pub fn sign_ext(&self, extra_bits: u32, t1: Ast) -> (r: Ast)
        ensures
            r@ == AstV::SignExt(extra_bits as nat, Box::new(t1@)),
    {
        Ast::SignExt(extra_bits, Box::new(t1))
    }

    /// Select between two equal-sorted terms on a boolean condition.
    pub fn ite(&self, cond: Ast, then: Ast, else_: Ast) -> (r: Ast)
        ensures
            r@ == AstV::Ite(Box::new(cond@), Box::new(then@), Box::new(else_@)),
    {
        Ast::Ite(Box::new(cond), Box::new(then), Box::new(else_))
    }

    /// The bit-vector sort of the given width.
    pub fn mk_bv_sort(&self, bits: usize) -> (r: Sort)
        ensures
            r.bits == bits,
    {
        Sort { bits }
    }

    /// A numeral term of the given value and sort. The value's decimal
    /// rendering never embeds a terminator, so this always succeeds.
    pub fn mk_numeral(&self, n: u64, sort: &Sort) -> (r: Result<Ast, Error>)
        ensures
            r matches Ok(a) && a@ == AstV::Numeral(n as nat, sort.bits as nat),
    {
        Ok(Ast::Numeral { value: n, sort: *sort })
    }

    /// A free variable of the given name and sort; two variables with
    /// one name and sort are the same term to the backend. Fails when
    /// the name cannot be encoded for the backend.
    pub fn mk_var(&self, name: &str, sort: &Sort) -> (r: Result<Ast, Error>)
        ensures
            r is Ok <==> !has_nul(name@),
            r matches Ok(a) ==> a@ == AstV::Var(name@, sort.bits as nat),
            r is Err ==> r == Result::<Ast, Error>::Err(Error::InvalidName),
    {
        let n = name.unicode_len();
        let mut i: usize = 0;
        while i < n
            invariant
                i <= n,
                n == name@.len(),
                forall|k: int| 0 <= k < i ==> name@[k] != '\0',
            decreases n - i,
        {
            if name.get_char(i) == '\0' {
                return Err(Error::InvalidName);
            }
            i += 1;
        }
        Ok(Ast::Var { name: name.to_owned(), sort: *sort })
    }
}

} // verus!
