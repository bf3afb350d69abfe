use vstd::prelude::*;

verus! {

use crate::constant::Constant;
use crate::error::Error;
use vstd::arithmetic::power2::pow2;
use vstd::string::StrSliceExecFns;

/// A variable holding a single value of a fixed bit width.
#[derive(Clone, Debug)]
pub struct Scalar {
    /// The variable's name; two scalars with the same name and width
    /// denote the same value throughout one query.
    pub name: String,
    /// The bit width of the value the scalar holds.
    pub bits: usize,
}

impl Scalar {
    /// Create a scalar variable with the given name and width.
    pub fn new(name: &str, bits: usize) -> (r: Scalar)
        ensures
            r.name@ == name@,
            r.bits == bits,
    {
        Scalar { name: name.to_owned(), bits }
    }

    /// The name of the scalar.
    pub fn name(&self) -> (r: &str)
        ensures
            r@ == self.name@,
    {
        self.name.as_str()
    }

    /// The bit width of the scalar.
    pub fn bits(&self) -> (r: usize)
        ensures
            r == self.bits,
    {
        self.bits
    }
}

/// The mathematical shape of an expression: names, values and widths,
/// free of representation detail.
pub enum ExprV {
    Scalar(Seq<char>, nat),
    Constant(nat, nat),
    Add(Box<ExprV>, Box<ExprV>),
    Sub(Box<ExprV>, Box<ExprV>),
    Mul(Box<ExprV>, Box<ExprV>),
    Divu(Box<ExprV>, Box<ExprV>),
    Modu(Box<ExprV>, Box<ExprV>),
    Divs(Box<ExprV>, Box<ExprV>),
    Mods(Box<ExprV>, Box<ExprV>),
    And(Box<ExprV>, Box<ExprV>),
    Or(Box<ExprV>, Box<ExprV>),
    Xor(Box<ExprV>, Box<ExprV>),
    Shl(Box<ExprV>, Box<ExprV>),
    Shr(Box<ExprV>, Box<ExprV>),
    Cmpeq(Box<ExprV>, Box<ExprV>),
    Cmpneq(Box<ExprV>, Box<ExprV>),
    Cmplts(Box<ExprV>, Box<ExprV>),
    Cmpltu(Box<ExprV>, Box<ExprV>),
    Zext(nat, Box<ExprV>),
    Sext(nat, Box<ExprV>),
    Trun(nat, Box<ExprV>),
    Ite(Box<ExprV>, Box<ExprV>, Box<ExprV>),
}

/// An expression tree over fixed-width bit-vectors: the input language
/// of every solve.
#[derive(Debug)]
pub enum Expression {
    Scalar(Scalar),
    Constant(Constant),
    Add(Box<Expression>, Box<Expression>),
    Sub(Box<Expression>, Box<Expression>),
    Mul(Box<Expression>, Box<Expression>),
    Divu(Box<Expression>, Box<Expression>),
    Modu(Box<Expression>, Box<Expression>),
    Divs(Box<Expression>, Box<Expression>),
    Mods(Box<Expression>, Box<Expression>),
    And(Box<Expression>, Box<Expression>),
    Or(Box<Expression>, Box<Expression>),
    Xor(Box<Expression>, Box<Expression>),
    Shl(Box<Expression>, Box<Expression>),
    Shr(Box<Expression>, Box<Expression>),
    Cmpeq(Box<Expression>, Box<Expression>),
    Cmpneq(Box<Expression>, Box<Expression>),
    Cmplts(Box<Expression>, Box<Expression>),
    Cmpltu(Box<Expression>, Box<Expression>),
    Zext(usize, Box<Expression>),
    Sext(usize, Box<Expression>),
    Trun(usize, Box<Expression>),
    Ite(Box<Expression>, Box<Expression>, Box<Expression>),
}

/// The abstract value of an expression tree.
pub open spec fn expr_view(e: Expression) -> ExprV
    decreases e,
{
    match e {
        Expression::Scalar(s) => ExprV::Scalar(s.name@, s.bits as nat),
        Expression::Constant(c) => ExprV::Constant(c.value(), c.bits as nat),
        Expression::Add(l, r) => ExprV::Add(Box::new(expr_view(*l)), Box::new(expr_view(*r))),
        Expression::Sub(l, r) => ExprV::Sub(Box::new(expr_view(*l)), Box::new(expr_view(*r))),
        Expression::Mul(l, r) => ExprV::Mul(Box::new(expr_view(*l)), Box::new(expr_view(*r))),
        Expression::Divu(l, r) => ExprV::Divu(Box::new(expr_view(*l)), Box::new(expr_view(*r))),
        Expression::Modu(l, r) => ExprV::Modu(Box::new(expr_view(*l)), Box::new(expr_view(*r))),
        Expression::Divs(l, r) => ExprV::Divs(Box::new(expr_view(*l)), Box::new(expr_view(*r))),
        Expression::Mods(l, r) => ExprV::Mods(Box::new(expr_view(*l)), Box::new(expr_view(*r))),
        Expression::And(l, r) => ExprV::And(Box::new(expr_view(*l)), Box::new(expr_view(*r))),
        Expression::Or(l, r) => ExprV::Or(Box::new(expr_view(*l)), Box::new(expr_view(*r))),
        Expression::Xor(l, r) => ExprV::Xor(Box::new(expr_view(*l)), Box::new(expr_view(*r))),
        Expression::Shl(l, r) => ExprV::Shl(Box::new(expr_view(*l)), Box::new(expr_view(*r))),
        Expression::Shr(l, r) => ExprV::Shr(Box::new(expr_view(*l)), Box::new(expr_view(*r))),
        Expression::Cmpeq(l, r) => ExprV::Cmpeq(Box::new(expr_view(*l)), Box::new(expr_view(*r))),
        Expression::Cmpneq(l, r) => ExprV::Cmpneq(Box::new(expr_view(*l)), Box::new(expr_view(*r))),
        Expression::Cmplts(l, r) => ExprV::Cmplts(Box::new(expr_view(*l)), Box::new(expr_view(*r))),
        Expression::Cmpltu(l, r) => ExprV::Cmpltu(Box::new(expr_view(*l)), Box::new(expr_view(*r))),
        Expression::Zext(bits, src) => ExprV::Zext(bits as nat, Box::new(expr_view(*src))),
        Expression::Sext(bits, src) => ExprV::Sext(bits as nat, Box::new(expr_view(*src))),
        Expression::Trun(bits, src) => ExprV::Trun(bits as nat, Box::new(expr_view(*src))),
        Expression::Ite(c, t, f) => ExprV::Ite(
            Box::new(expr_view(*c)),
            Box::new(expr_view(*t)),
            Box::new(expr_view(*f)),
        ),
    }
}

impl View for Expression {
    type V = ExprV;

    open spec fn view(&self) -> ExprV {
        expr_view(*self)
    }
}

/// The bit width of the result of an expression: comparisons yield one
/// bit, extensions and truncations their target width.
pub open spec fn expr_bits(e: ExprV) -> nat
    decreases e,
{
    match e {
        ExprV::Scalar(_, bits) => bits,
        ExprV::Constant(_, bits) => bits,
        ExprV::Add(l, _) => expr_bits(*l),
        ExprV::Sub(l, _) => expr_bits(*l),
        ExprV::Mul(l, _) => expr_bits(*l),
        ExprV::Divu(l, _) => expr_bits(*l),
        ExprV::Modu(l, _) => expr_bits(*l),
        ExprV::Divs(l, _) => expr_bits(*l),
        ExprV::Mods(l, _) => expr_bits(*l),
        ExprV::And(l, _) => expr_bits(*l),
        ExprV::Or(l, _) => expr_bits(*l),
        ExprV::Xor(l, _) => expr_bits(*l),
        ExprV::Shl(l, _) => expr_bits(*l),
        ExprV::Shr(l, _) => expr_bits(*l),
        ExprV::Cmpeq(_, _) => 1,
        ExprV::Cmpneq(_, _) => 1,
        ExprV::Cmplts(_, _) => 1,
        ExprV::Cmpltu(_, _) => 1,
        ExprV::Zext(bits, _) => bits,
        ExprV::Sext(bits, _) => bits,
        ExprV::Trun(bits, _) => bits,
        ExprV::Ite(_, t, _) => expr_bits(*t),
    }
}

/// Width bookkeeping of a well-formed expression: operands of a binary
/// operator share one width, an extension strictly widens, a
/// truncation strictly narrows, a conditional selects on one bit, and
/// every width fits the backend's limit.
pub open spec fn expr_wf(e: ExprV) -> bool
    decreases e,
{
    match e {
        ExprV::Scalar(_, bits) => 1 <= bits <= 0xffff_ffff,
        ExprV::Constant(value, bits) => 1 <= bits <= 0xffff_ffff && value < pow2(bits),
        ExprV::Add(l, r) => expr_wf(*l) && expr_wf(*r) && expr_bits(*l) == expr_bits(*r),
        ExprV::Sub(l, r) => expr_wf(*l) && expr_wf(*r) && expr_bits(*l) == expr_bits(*r),
        ExprV::Mul(l, r) => expr_wf(*l) && expr_wf(*r) && expr_bits(*l) == expr_bits(*r),
        ExprV::Divu(l, r) => expr_wf(*l) && expr_wf(*r) && expr_bits(*l) == expr_bits(*r),
        ExprV::Modu(l, r) => expr_wf(*l) && expr_wf(*r) && expr_bits(*l) == expr_bits(*r),
        ExprV::Divs(l, r) => expr_wf(*l) && expr_wf(*r) && expr_bits(*l) == expr_bits(*r),
        ExprV::Mods(l, r) => expr_wf(*l) && expr_wf(*r) && expr_bits(*l) == expr_bits(*r),
        ExprV::And(l, r) => expr_wf(*l) && expr_wf(*r) && expr_bits(*l) == expr_bits(*r),
        ExprV::Or(l, r) => expr_wf(*l) && expr_wf(*r) && expr_bits(*l) == expr_bits(*r),
        ExprV::Xor(l, r) => expr_wf(*l) && expr_wf(*r) && expr_bits(*l) == expr_bits(*r),
        ExprV::Shl(l, r) => expr_wf(*l) && expr_wf(*r) && expr_bits(*l) == expr_bits(*r),
        ExprV::Shr(l, r) => expr_wf(*l) && expr_wf(*r) && expr_bits(*l) == expr_bits(*r),
        ExprV::Cmpeq(l, r) => expr_wf(*l) && expr_wf(*r) && expr_bits(*l) == expr_bits(*r),
        ExprV::Cmpneq(l, r) => expr_wf(*l) && expr_wf(*r) && expr_bits(*l) == expr_bits(*r),
        ExprV::Cmplts(l, r) => expr_wf(*l) && expr_wf(*r) && expr_bits(*l) == expr_bits(*r),
        ExprV::Cmpltu(l, r) => expr_wf(*l) && expr_wf(*r) && expr_bits(*l) == expr_bits(*r),
        ExprV::Zext(bits, src) => expr_wf(*src) && expr_bits(*src) < bits <= 0xffff_ffff,
        ExprV::Sext(bits, src) => expr_wf(*src) && expr_bits(*src) < bits <= 0xffff_ffff,
        ExprV::Trun(bits, src) => expr_wf(*src) && 1 <= bits < expr_bits(*src),
        ExprV::Ite(c, t, f) => expr_wf(*c) && expr_wf(*t) && expr_wf(*f) && expr_bits(*c) == 1
            && expr_bits(*t) == expr_bits(*f),
    }
}

impl Expression {
    /// The bit width of this expression's result.
    pub fn bits(&self) -> (r: usize)
        ensures
            r as nat == expr_bits(self@),
        decreases self,
    {
        match self {
            Expression::Scalar(s) => s.bits,
            Expression::Constant(c) => c.bits,
            Expression::Add(l, _) => l.bits(),
            Expression::Sub(l, _) => l.bits(),
            Expression::Mul(l, _) => l.bits(),
            Expression::Divu(l, _) => l.bits(),
            Expression::Modu(l, _) => l.bits(),
            Expression::Divs(l, _) => l.bits(),
            Expression::Mods(l, _) => l.bits(),
            Expression::And(l, _) => l.bits(),
            Expression::Or(l, _) => l.bits(),
            Expression::Xor(l, _) => l.bits(),
            Expression::Shl(l, _) => l.bits(),
            Expression::Shr(l, _) => l.bits(),
            Expression::Cmpeq(_, _) => 1,
            Expression::Cmpneq(_, _) => 1,
            Expression::Cmplts(_, _) => 1,
            Expression::Cmpltu(_, _) => 1,
            Expression::Zext(bits, _) => *bits,
            Expression::Sext(bits, _) => *bits,
            Expression::Trun(bits, _) => *bits,
            Expression::Ite(_, t, _) => t.bits(),
        }
    }

    /// Wrap a constant as an expression.
    pub fn constant(constant: Constant) -> (r: Expression)
        ensures
            r@ == ExprV::Constant(constant.value(), constant.bits as nat),
    {
        Expression::Constant(constant)
    }

    /// Wrap a scalar as an expression.
    pub fn scalar(scalar: Scalar) -> (r: Expression)
        ensures
            r@ == ExprV::Scalar(scalar.name@, scalar.bits as nat),
    {
        Expression::Scalar(scalar)
    }

    /// Build a `Add` node; the operands must share one bit width.
    pub fn add(lhs: Expression, rhs: Expression) -> (r: Result<Expression, Error>)
        ensures
            r is Ok <==> expr_bits(lhs@) == expr_bits(rhs@),
            r matches Ok(e) ==> e@ == ExprV::Add(Box::new(lhs@), Box::new(rhs@)),
            r is Err ==> r == Result::<Expression, Error>::Err(Error::Sort),
    {
        if lhs.bits() != rhs.bits() {
            Err(Error::Sort)
        } else {
            Ok(Expression::Add(Box::new(lhs), Box::new(rhs)))
        }
    }

    /// Build a `Sub` node; the operands must share one bit width.
    pub fn sub(lhs: Expression, rhs: Expression) -> (r: Result<Expression, Error>)
        ensures
            r is Ok <==> expr_bits(lhs@) == expr_bits(rhs@),
            r matches Ok(e) ==> e@ == ExprV::Sub(Box::new(lhs@), Box::new(rhs@)),
            r is Err ==> r == Result::<Expression, Error>::Err(Error::Sort),
    {
        if lhs.bits() != rhs.bits() {
            Err(Error::Sort)
        } else {
            Ok(Expression::Sub(Box::new(lhs), Box::new(rhs)))
        }
    }

    /// Build a `Mul` node; the operands must share one bit width.
    pub fn mul(lhs: Expression, rhs: Expression) -> (r: Result<Expression, Error>)
        ensures
            r is Ok <==> expr_bits(lhs@) == expr_bits(rhs@),
            r matches Ok(e) ==> e@ == ExprV::Mul(Box::new(lhs@), Box::new(rhs@)),
            r is Err ==> r == Result::<Expression, Error>::Err(Error::Sort),
    {
        if lhs.bits() != rhs.bits() {
            Err(Error::Sort)
        } else {
            Ok(Expression::Mul(Box::new(lhs), Box::new(rhs)))
        }
    }

    /// Build a `Divu` node; the operands must share one bit width.
    pub fn divu(lhs: Expression, rhs: Expression) -> (r: Result<Expression, Error>)
        ensures
            r is Ok <==> expr_bits(lhs@) == expr_bits(rhs@),
            r matches Ok(e) ==> e@ == ExprV::Divu(Box::new(lhs@), Box::new(rhs@)),
            r is Err ==> r == Result::<Expression, Error>::Err(Error::Sort),
    {
        if lhs.bits() != rhs.bits() {
            Err(Error::Sort)
        } else {
            Ok(Expression::Divu(Box::new(lhs), Box::new(rhs)))
        }
    }

    /// Build a `Modu` node; the operands must share one bit width.
    pub fn modu(lhs: Expression, rhs: Expression) -> (r: Result<Expression, Error>)
        ensures
            r is Ok <==> expr_bits(lhs@) == expr_bits(rhs@),
            r matches Ok(e) ==> e@ == ExprV::Modu(Box::new(lhs@), Box::new(rhs@)),
            r is Err ==> r == Result::<Expression, Error>::Err(Error::Sort),
    {
        if lhs.bits() != rhs.bits() {
            Err(Error::Sort)
        } else {
            Ok(Expression::Modu(Box::new(lhs), Box::new(rhs)))
        }
    }

    /// Build a `Divs` node; the operands must share one bit width.
    pub fn divs(lhs: Expression, rhs: Expression) -> (r: Result<Expression, Error>)
        ensures
            r is Ok <==> expr_bits(lhs@) == expr_bits(rhs@),
            r matches Ok(e) ==> e@ == ExprV::Divs(Box::new(lhs@), Box::new(rhs@)),
            r is Err ==> r == Result::<Expression, Error>::Err(Error::Sort),
    {
        if lhs.bits() != rhs.bits() {
            Err(Error::Sort)
        } else {
            Ok(Expression::Divs(Box::new(lhs), Box::new(rhs)))
        }
    }

    /// Build a `Mods` node; the operands must share one bit width.
    pub fn mods(lhs: Expression, rhs: Expression) -> (r: Result<Expression, Error>)
        ensures
            r is Ok <==> expr_bits(lhs@) == expr_bits(rhs@),
            r matches Ok(e) ==> e@ == ExprV::Mods(Box::new(lhs@), Box::new(rhs@)),
            r is Err ==> r == Result::<Expression, Error>::Err(Error::Sort),
    {
        if lhs.bits() != rhs.bits() {
            Err(Error::Sort)
        } else {
            Ok(Expression::Mods(Box::new(lhs), Box::new(rhs)))
        }
    }

    /// Build a `And` node; the operands must share one bit width.
    pub fn and(lhs: Expression, rhs: Expression) -> (r: Result<Expression, Error>)
        ensures
            r is Ok <==> expr_bits(lhs@) == expr_bits(rhs@),
            r matches Ok(e) ==> e@ == ExprV::And(Box::new(lhs@), Box::new(rhs@)),
            r is Err ==> r == Result::<Expression, Error>::Err(Error::Sort),
    {
        if lhs.bits() != rhs.bits() {
            Err(Error::Sort)
        } else {
            Ok(Expression::And(Box::new(lhs), Box::new(rhs)))
        }
    }

    /// Build a `Or` node; the operands must share one bit width.
    pub fn or(lhs: Expression, rhs: Expression) -> (r: Result<Expression, Error>)
        ensures
            r is Ok <==> expr_bits(lhs@) == expr_bits(rhs@),
            r matches Ok(e) ==> e@ == ExprV::Or(Box::new(lhs@), Box::new(rhs@)),
            r is Err ==> r == Result::<Expression, Error>::Err(Error::Sort),
    {
        if lhs.bits() != rhs.bits() {
            Err(Error::Sort)
        } else {
            Ok(Expression::Or(Box::new(lhs), Box::new(rhs)))
        }
    }

    /// Build a `Xor` node; the operands must share one bit width.
    pub fn xor(lhs: Expression, rhs: Expression) -> (r: Result<Expression, Error>)
        ensures
            r is Ok <==> expr_bits(lhs@) == expr_bits(rhs@),
            r matches Ok(e) ==> e@ == ExprV::Xor(Box::new(lhs@), Box::new(rhs@)),
            r is Err ==> r == Result::<Expression, Error>::Err(Error::Sort),
    {
        if lhs.bits() != rhs.bits() {
            Err(Error::Sort)
        } else {
            Ok(Expression::Xor(Box::new(lhs), Box::new(rhs)))
        }
    }

    /// Build a `Shl` node; the operands must share one bit width.
    pub fn shl(lhs: Expression, rhs: Expression) -> (r: Result<Expression, Error>)
        ensures
            r is Ok <==> expr_bits(lhs@) == expr_bits(rhs@),
            r matches Ok(e) ==> e@ == ExprV::Shl(Box::new(lhs@), Box::new(rhs@)),
            r is Err ==> r == Result::<Expression, Error>::Err(Error::Sort),
    {
        if lhs.bits() != rhs.bits() {
            Err(Error::Sort)
        } else {
            Ok(Expression::Shl(Box::new(lhs), Box::new(rhs)))
        }
    }

    /// Build a `Shr` node; the operands must share one bit width.
    pub fn shr(lhs: Expression, rhs: Expression) -> (r: Result<Expression, Error>)
        ensures
            r is Ok <==> expr_bits(lhs@) == expr_bits(rhs@),
            r matches Ok(e) ==> e@ == ExprV::Shr(Box::new(lhs@), Box::new(rhs@)),
            r is Err ==> r == Result::<Expression, Error>::Err(Error::Sort),
    {
        if lhs.bits() != rhs.bits() {
            Err(Error::Sort)
        } else {
            Ok(Expression::Shr(Box::new(lhs), Box::new(rhs)))
        }
    }

    /// Build a `Cmpeq` node; the operands must share one bit width.
    pub fn cmpeq(lhs: Expression, rhs: Expression) -> (r: Result<Expression, Error>)
        ensures
            r is Ok <==> expr_bits(lhs@) == expr_bits(rhs@),
            r matches Ok(e) ==> e@ == ExprV::Cmpeq(Box::new(lhs@), Box::new(rhs@)),
            r is Err ==> r == Result::<Expression, Error>::Err(Error::Sort),
    {
        if lhs.bits() != rhs.bits() {
            Err(Error::Sort)
        } else {
            Ok(Expression::Cmpeq(Box::new(lhs), Box::new(rhs)))
        }
    }

    /// Build a `Cmpneq` node; the operands must share one bit width.
    pub fn cmpneq(lhs: Expression, rhs: Expression) -> (r: Result<Expression, Error>)
        ensures
            r is Ok <==> expr_bits(lhs@) == expr_bits(rhs@),
            r matches Ok(e) ==> e@ == ExprV::Cmpneq(Box::new(lhs@), Box::new(rhs@)),
            r is Err ==> r == Result::<Expression, Error>::Err(Error::Sort),
    {
        if lhs.bits() != rhs.bits() {
            Err(Error::Sort)
        } else {
            Ok(Expression::Cmpneq(Box::new(lhs), Box::new(rhs)))
        }
    }

    /// Build a `Cmplts` node; the operands must share one bit width.
    pub fn cmplts(lhs: Expression, rhs: Expression) -> (r: Result<Expression, Error>)
        ensures
            r is Ok <==> expr_bits(lhs@) == expr_bits(rhs@),
            r matches Ok(e) ==> e@ == ExprV::Cmplts(Box::new(lhs@), Box::new(rhs@)),
            r is Err ==> r == Result::<Expression, Error>::Err(Error::Sort),
    {
        if lhs.bits() != rhs.bits() {
            Err(Error::Sort)
        } else {
            Ok(Expression::Cmplts(Box::new(lhs), Box::new(rhs)))
        }
    }

    /// Build a `Cmpltu` node; the operands must share one bit width.
    pub fn cmpltu(lhs: Expression, rhs: Expression) -> (r: Result<Expression, Error>)
        ensures
            r is Ok <==> expr_bits(lhs@) == expr_bits(rhs@),
            r matches Ok(e) ==> e@ == ExprV::Cmpltu(Box::new(lhs@), Box::new(rhs@)),
            r is Err ==> r == Result::<Expression, Error>::Err(Error::Sort),
    {
        if lhs.bits() != rhs.bits() {
            Err(Error::Sort)
        } else {
            Ok(Expression::Cmpltu(Box::new(lhs), Box::new(rhs)))
        }
    }

    /// Build a zero-extension to `bits`; the source must be strictly
    /// narrower.
    pub fn zext(bits: usize, src: Expression) -> (r: Result<Expression, Error>)
        ensures
            r is Ok <==> expr_bits(src@) < (bits as nat) && bits <= 0xffff_ffffusize,
            r matches Ok(e) ==> e@ == ExprV::Zext(bits as nat, Box::new(src@)),
            r is Err ==> r == Result::<Expression, Error>::Err(Error::Sort),
    {
        if src.bits() >= bits || bits > 0xffff_ffff {
            Err(Error::Sort)
        } else {
            Ok(Expression::Zext(bits, Box::new(src)))
        }
    }

    /// Build a sign-extension to `bits`; the source must be strictly
    /// narrower.
    pub fn sext(bits: usize, src: Expression) -> (r: Result<Expression, Error>)
        ensures
            r is Ok <==> expr_bits(src@) < (bits as nat) && bits <= 0xffff_ffffusize,
            r matches Ok(e) ==> e@ == ExprV::Sext(bits as nat, Box::new(src@)),
            r is Err ==> r == Result::<Expression, Error>::Err(Error::Sort),
    {
        if src.bits() >= bits || bits > 0xffff_ffff {
            Err(Error::Sort)
        } else {
            Ok(Expression::Sext(bits, Box::new(src)))
        }
    }

    /// Build a truncation to `bits`; the source must be strictly wider
    /// and the target width positive.
    pub fn trun(bits: usize, src: Expression) -> (r: Result<Expression, Error>)
        ensures
            r is Ok <==> 1 <= bits && (bits as nat) < expr_bits(src@),
            r matches Ok(e) ==> e@ == ExprV::Trun(bits as nat, Box::new(src@)),
            r is Err ==> r == Result::<Expression, Error>::Err(Error::Sort),
    {
        if src.bits() <= bits || bits == 0 {
            Err(Error::Sort)
        } else {
            Ok(Expression::Trun(bits, Box::new(src)))
        }
    }

    /// Build a conditional; the condition must be one bit wide and the
    /// branches must share one width.
    pub fn ite(cond: Expression, then: Expression, else_: Expression) -> (r: Result<
        Expression,
        Error,
    >)
        ensures
            r is Ok <==> expr_bits(cond@) == 1 && expr_bits(then@) == expr_bits(else_@),
            r matches Ok(e) ==> e@ == ExprV::Ite(
                Box::new(cond@),
                Box::new(then@),
                Box::new(else_@),
            ),
            r is Err ==> r == Result::<Expression, Error>::Err(Error::Sort),
    {
        if cond.bits() != 1 || then.bits() != else_.bits() {
            Err(Error::Sort)
        } else {
            Ok(Expression::Ite(Box::new(cond), Box::new(then), Box::new(else_)))
        }
    }
}

/// A convenience function to create a constant.
pub fn const_(value: u64, bits: usize) -> (r: Constant)
    requires
        1 <= bits <= 0xffff_ffffusize,
    ensures
        r.inv(),
        r.bits == bits,
        r.value() == value as nat % pow2(bits as nat),
{
    Constant::new(value, bits)
}

/// A convenience function to create a constant expression.
pub fn expr_const(value: u64, bits: usize) -> (r: Expression)
    requires
        1 <= bits <= 0xffff_ffffusize,
    ensures
        r@ == ExprV::Constant(value as nat % pow2(bits as nat), bits as nat),
        expr_wf(r@),
{
    Expression::Constant(Constant::new(value, bits))
}

/// A convenience function to create a scalar.
pub fn scalar(name: &str, bits: usize) -> (r: Scalar)
    ensures
        r.name@ == name@,
        r.bits == bits,
{
    Scalar::new(name, bits)
}

/// A convenience function to create a scalar expression.
pub fn expr_scalar(name: &str, bits: usize) -> (r: Expression)
    ensures
        r@ == ExprV::Scalar(name@, bits as nat),
{
    Expression::Scalar(Scalar::new(name, bits))
}

} // verus!
