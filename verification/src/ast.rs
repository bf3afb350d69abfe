use vstd::prelude::*;

verus! {

use crate::decimal::dec_of;
use crate::decimal::to_decimal_string;
use crate::sort::{Sort, TermSort};
use vstd::string::StringExecFns;

/// The abstract value of a formula term: a free variable, a numeral,
/// or the application of an operator to sub-terms.
pub enum AstV {
    Var(Seq<char>, nat),
    Numeral(nat, nat),
    Bvadd(Box<AstV>, Box<AstV>),
    Bvsub(Box<AstV>, Box<AstV>),
    Bvmul(Box<AstV>, Box<AstV>),
    Bvudiv(Box<AstV>, Box<AstV>),
    Bvurem(Box<AstV>, Box<AstV>),
    Bvsdiv(Box<AstV>, Box<AstV>),
    Bvsrem(Box<AstV>, Box<AstV>),
    Bvand(Box<AstV>, Box<AstV>),
    Bvor(Box<AstV>, Box<AstV>),
    Bvxor(Box<AstV>, Box<AstV>),
    Bvshl(Box<AstV>, Box<AstV>),
    Bvlshr(Box<AstV>, Box<AstV>),
    Bvult(Box<AstV>, Box<AstV>),
    Bvule(Box<AstV>, Box<AstV>),
    Bvslt(Box<AstV>, Box<AstV>),
    Bvsle(Box<AstV>, Box<AstV>),
    Eq(Box<AstV>, Box<AstV>),
    Concat(Box<AstV>, Box<AstV>),
    Extract(nat, nat, Box<AstV>),
    ZeroExt(nat, Box<AstV>),
    SignExt(nat, Box<AstV>),
    Ite(Box<AstV>, Box<AstV>, Box<AstV>),
}

/// An opaque formula node, immutable once built; larger terms arise
/// only by composition through the context's factory methods.
#[derive(Debug)]
pub enum Ast {
    Var { name: String, sort: Sort },
    Numeral { value: u64, sort: Sort },
    Bvadd(Box<Ast>, Box<Ast>),
    Bvsub(Box<Ast>, Box<Ast>),
    Bvmul(Box<Ast>, Box<Ast>),
    Bvudiv(Box<Ast>, Box<Ast>),
    Bvurem(Box<Ast>, Box<Ast>),
    Bvsdiv(Box<Ast>, Box<Ast>),
    Bvsrem(Box<Ast>, Box<Ast>),
    Bvand(Box<Ast>, Box<Ast>),
    Bvor(Box<Ast>, Box<Ast>),
    Bvxor(Box<Ast>, Box<Ast>),
    Bvshl(Box<Ast>, Box<Ast>),
    Bvlshr(Box<Ast>, Box<Ast>),
    Bvult(Box<Ast>, Box<Ast>),
    Bvule(Box<Ast>, Box<Ast>),
    Bvslt(Box<Ast>, Box<Ast>),
    Bvsle(Box<Ast>, Box<Ast>),
    Eq(Box<Ast>, Box<Ast>),
    Concat(Box<Ast>, Box<Ast>),
    Extract(u32, u32, Box<Ast>),
    ZeroExt(u32, Box<Ast>),
    SignExt(u32, Box<Ast>),
    Ite(Box<Ast>, Box<Ast>, Box<Ast>),
}

/// The abstract value of a term tree.
pub open spec fn ast_view(t: Ast) -> AstV
    decreases t,
{
    match t {
        Ast::Var { name, sort } => AstV::Var(name@, sort.bits as nat),
        Ast::Numeral { value, sort } => AstV::Numeral(value as nat, sort.bits as nat),
        Ast::Bvadd(l, r) => AstV::Bvadd(Box::new(ast_view(*l)), Box::new(ast_view(*r))),
        Ast::Bvsub(l, r) => AstV::Bvsub(Box::new(ast_view(*l)), Box::new(ast_view(*r))),
        Ast::Bvmul(l, r) => AstV::Bvmul(Box::new(ast_view(*l)), Box::new(ast_view(*r))),
        Ast::Bvudiv(l, r) => AstV::Bvudiv(Box::new(ast_view(*l)), Box::new(ast_view(*r))),
        Ast::Bvurem(l, r) => AstV::Bvurem(Box::new(ast_view(*l)), Box::new(ast_view(*r))),
        Ast::Bvsdiv(l, r) => AstV::Bvsdiv(Box::new(ast_view(*l)), Box::new(ast_view(*r))),
        Ast::Bvsrem(l, r) => AstV::Bvsrem(Box::new(ast_view(*l)), Box::new(ast_view(*r))),
        Ast::Bvand(l, r) => AstV::Bvand(Box::new(ast_view(*l)), Box::new(ast_view(*r))),
        Ast::Bvor(l, r) => AstV::Bvor(Box::new(ast_view(*l)), Box::new(ast_view(*r))),
        Ast::Bvxor(l, r) => AstV::Bvxor(Box::new(ast_view(*l)), Box::new(ast_view(*r))),
        Ast::Bvshl(l, r) => AstV::Bvshl(Box::new(ast_view(*l)), Box::new(ast_view(*r))),
        Ast::Bvlshr(l, r) => AstV::Bvlshr(Box::new(ast_view(*l)), Box::new(ast_view(*r))),
        Ast::Bvult(l, r) => AstV::Bvult(Box::new(ast_view(*l)), Box::new(ast_view(*r))),
        Ast::Bvule(l, r) => AstV::Bvule(Box::new(ast_view(*l)), Box::new(ast_view(*r))),
        Ast::Bvslt(l, r) => AstV::Bvslt(Box::new(ast_view(*l)), Box::new(ast_view(*r))),
        Ast::Bvsle(l, r) => AstV::Bvsle(Box::new(ast_view(*l)), Box::new(ast_view(*r))),
        Ast::Eq(l, r) => AstV::Eq(Box::new(ast_view(*l)), Box::new(ast_view(*r))),
        Ast::Concat(l, r) => AstV::Concat(Box::new(ast_view(*l)), Box::new(ast_view(*r))),
        Ast::Extract(hi, lo, t1) => AstV::Extract(hi as nat, lo as nat, Box::new(ast_view(*t1))),
        Ast::ZeroExt(n, t1) => AstV::ZeroExt(n as nat, Box::new(ast_view(*t1))),
        Ast::SignExt(n, t1) => AstV::SignExt(n as nat, Box::new(ast_view(*t1))),
        Ast::Ite(c, t1, f) => AstV::Ite(
            Box::new(ast_view(*c)),
            Box::new(ast_view(*t1)),
            Box::new(ast_view(*f)),
        ),
    }
}

impl View for Ast {
    type V = AstV;

    open spec fn view(&self) -> AstV {
        ast_view(*self)
    }
}

/// The sort of a term, or nothing for a term the backend would
/// reject: operands of a bit-vector operator must share one width, a
/// comparison or equality yields the boolean sort, concatenation adds
/// widths, extraction selects an inclusive bit range, and a
/// conditional selects on a boolean between two terms of one sort.
pub open spec fn sort_of(t: AstV) -> Option<TermSort>
    decreases t,
{
    match t {
        AstV::Var(_, bits) => Some(TermSort::BitVector(bits)),
        AstV::Numeral(_, bits) => Some(TermSort::BitVector(bits)),
        AstV::Bvadd(l, r) => match (sort_of(*l), sort_of(*r)) {
            (Some(TermSort::BitVector(a)), Some(TermSort::BitVector(b))) => if a == b {
                Some(TermSort::BitVector(a))
            } else {
                None
            },
            _ => None,
        },
        AstV::Bvsub(l, r) => match (sort_of(*l), sort_of(*r)) {
            (Some(TermSort::BitVector(a)), Some(TermSort::BitVector(b))) => if a == b {
                Some(TermSort::BitVector(a))
            } else {
                None
            },
            _ => None,
        },
        AstV::Bvmul(l, r) => match (sort_of(*l), sort_of(*r)) {
            (Some(TermSort::BitVector(a)), Some(TermSort::BitVector(b))) => if a == b {
                Some(TermSort::BitVector(a))
            } else {
                None
            },
            _ => None,
        },
        AstV::Bvudiv(l, r) => match (sort_of(*l), sort_of(*r)) {
            (Some(TermSort::BitVector(a)), Some(TermSort::BitVector(b))) => if a == b {
                Some(TermSort::BitVector(a))
            } else {
                None
            },
            _ => None,
        },
        AstV::Bvurem(l, r) => match (sort_of(*l), sort_of(*r)) {
            (Some(TermSort::BitVector(a)), Some(TermSort::BitVector(b))) => if a == b {
                Some(TermSort::BitVector(a))
            } else {
                None
            },
            _ => None,
        },
        AstV::Bvsdiv(l, r) => match (sort_of(*l), sort_of(*r)) {
            (Some(TermSort::BitVector(a)), Some(TermSort::BitVector(b))) => if a == b {
                Some(TermSort::BitVector(a))
            } else {
                None
            },
            _ => None,
        },
        AstV::Bvsrem(l, r) => match (sort_of(*l), sort_of(*r)) {
            (Some(TermSort::BitVector(a)), Some(TermSort::BitVector(b))) => if a == b {
                Some(TermSort::BitVector(a))
            } else {
                None
            },
            _ => None,
        },
        AstV::Bvand(l, r) => match (sort_of(*l), sort_of(*r)) {
            (Some(TermSort::BitVector(a)), Some(TermSort::BitVector(b))) => if a == b {
                Some(TermSort::BitVector(a))
            } else {
                None
            },
            _ => None,
        },
        AstV::Bvor(l, r) => match (sort_of(*l), sort_of(*r)) {
            (Some(TermSort::BitVector(a)), Some(TermSort::BitVector(b))) => if a == b {
                Some(TermSort::BitVector(a))
            } else {
                None
            },
            _ => None,
        },
        AstV::Bvxor(l, r) => match (sort_of(*l), sort_of(*r)) {
            (Some(TermSort::BitVector(a)), Some(TermSort::BitVector(b))) => if a == b {
                Some(TermSort::BitVector(a))
            } else {
                None
            },
            _ => None,
        },
        AstV::Bvshl(l, r) => match (sort_of(*l), sort_of(*r)) {
            (Some(TermSort::BitVector(a)), Some(TermSort::BitVector(b))) => if a == b {
                Some(TermSort::BitVector(a))
            } else {
                None
            },
            _ => None,
        },
        AstV::Bvlshr(l, r) => match (sort_of(*l), sort_of(*r)) {
            (Some(TermSort::BitVector(a)), Some(TermSort::BitVector(b))) => if a == b {
                Some(TermSort::BitVector(a))
            } else {
                None
            },
            _ => None,
        },
        AstV::Bvult(l, r) => match (sort_of(*l), sort_of(*r)) {
            (Some(TermSort::BitVector(a)), Some(TermSort::BitVector(b))) => if a == b {
                Some(TermSort::Boolean)
            } else {
                None
            },
            _ => None,
        },
        AstV::Bvule(l, r) => match (sort_of(*l), sort_of(*r)) {
            (Some(TermSort::BitVector(a)), Some(TermSort::BitVector(b))) => if a == b {
                Some(TermSort::Boolean)
            } else {
                None
            },
            _ => None,
        },
        AstV::Bvslt(l, r) => match (sort_of(*l), sort_of(*r)) {
            (Some(TermSort::BitVector(a)), Some(TermSort::BitVector(b))) => if a == b {
                Some(TermSort::Boolean)
            } else {
                None
            },
            _ => None,
        },
        AstV::Bvsle(l, r) => match (sort_of(*l), sort_of(*r)) {
            (Some(TermSort::BitVector(a)), Some(TermSort::BitVector(b))) => if a == b {
                Some(TermSort::Boolean)
            } else {
                None
            },
            _ => None,
        },
        AstV::Eq(l, r) => match (sort_of(*l), sort_of(*r)) {
            (Some(a), Some(b)) => if a == b {
                Some(TermSort::Boolean)
            } else {
                None
            },
            _ => None,
        },
        AstV::Concat(l, r) => match (sort_of(*l), sort_of(*r)) {
            (Some(TermSort::BitVector(a)), Some(TermSort::BitVector(b))) => Some(
                TermSort::BitVector((a + b) as nat),
            ),
            _ => None,
        },
        AstV::Extract(hi, lo, t1) => match sort_of(*t1) {
            Some(TermSort::BitVector(w)) => if lo <= hi && hi < w {
                Some(TermSort::BitVector((hi - lo + 1) as nat))
            } else {
                None
            },
            _ => None,
        },
        AstV::ZeroExt(n, t1) => match sort_of(*t1) {
            Some(TermSort::BitVector(w)) => Some(TermSort::BitVector((w + n) as nat)),
            _ => None,
        },
        AstV::SignExt(n, t1) => match sort_of(*t1) {
            Some(TermSort::BitVector(w)) => Some(TermSort::BitVector((w + n) as nat)),
            _ => None,
        },
        AstV::Ite(c, t1, f) => match (sort_of(*c), sort_of(*t1), sort_of(*f)) {
            (Some(TermSort::Boolean), Some(a), Some(b)) => if a == b {
                Some(a)
            } else {
                None
            },
            _ => None,
        },
    }
}

impl Ast {
    /// Render a term for diagnostics: a numeral prints as its decimal
    /// value, a variable as its name; for a compound term no rendering
    /// is available, which is a capability gap and not an error.
    pub fn to_string(&self, context: &crate::context::Context) -> (r: Option<String>)
        ensures
            match self@ {
                AstV::Numeral(v, _) => r matches Some(s) && s@ == dec_of(v),
                AstV::Var(n, _) => r matches Some(s) && s@ == n,
                _ => r is None,
            },
    {
        match self {
            Ast::Numeral { value, sort: _ } => Some(to_decimal_string(*value)),
            Ast::Var { name, sort: _ } => Some(String::from_str(name.as_str())),
            _ => None,
        }
    }

    /// The decimal digit string of a numeral term's value; nothing for
    /// a term that is not a numeral.
    pub fn get_numeral_decimal_string(&self, context: &crate::context::Context) -> (r: Option<
        String,
    >)
        ensures
            match self@ {
                AstV::Numeral(v, _) => r matches Some(s) && s@ == dec_of(v),
                _ => r is None,
            },
    {
        match self {
            Ast::Numeral { value, sort: _ } => Some(to_decimal_string(*value)),
            _ => None,
        }
    }
}

} // verus!
