use vstd::prelude::*;

verus! {

use crate::ast::{sort_of, Ast, AstV};
use crate::constant::{lemma_byte_extract, lemma_le_value_bound, Constant};
use crate::context::{has_nul, Context};
use crate::error::Error;
use crate::il::{expr_bits, expr_wf, ExprV, Expression};
use crate::config::Config;
use crate::decimal::{dec_value, is_decimal};
use crate::optimize::Optimize;
use crate::solver::{terms, Check, Solver};
use crate::sort::{Sort, TermSort};
use vstd::string::StringExecFns;
use vstd::arithmetic::div_mod::{
    lemma_fundamental_div_mod, lemma_fundamental_div_mod_converse,
};
use vstd::arithmetic::power2::{lemma2_to64, lemma2_to64_rest, lemma_pow2_strictly_increases, pow2};

/// Base-256 digit `i` of an unsigned value.
pub open spec fn nth_byte(v: nat, i: nat) -> nat {
    (v / pow2(8 * i)) % 256
}

/// The width of byte `i` of a constant of the given width: eight bits,
/// except for a partial most-significant byte.
pub open spec fn byte_width(bits: nat, i: nat) -> nat {
    if 8 * (i + 1) <= bits {
        8
    } else {
        (bits - 8 * i) as nat
    }
}

/// The number of bytes a constant of the given width occupies.
pub open spec fn nbytes(bits: nat) -> nat {
    ((bits + 7) / 8) as nat
}

/// The term materializing bytes zero through `i` of a wide constant:
/// single-byte numerals concatenated most-significant byte first.
pub open spec fn lower_bytes(v: nat, bits: nat, i: nat) -> AstV
    decreases i,
{
    if i == 0 {
        AstV::Numeral(nth_byte(v, 0), 8)
    } else {
        AstV::Concat(
            Box::new(AstV::Numeral(nth_byte(v, i), byte_width(bits, i))),
            Box::new(lower_bytes(v, bits, (i - 1) as nat)),
        )
    }
}

/// The structural lowering of an expression into a formula term, one
/// case per node kind: scalars become free variables, constants become
/// numerals (byte-wise beyond the machine-word range), operators map
/// to their bit-vector counterparts, and each backend boolean is
/// materialized as a one-bit term by a conditional.
pub open spec fn lower(e: ExprV) -> AstV
    decreases e,
{
    match e {
        ExprV::Scalar(name, bits) => AstV::Var(name, bits),
        ExprV::Constant(v, bits) => if v < pow2(64) {
            AstV::Numeral(v, bits)
        } else {
            lower_bytes(v, bits, (nbytes(bits) - 1) as nat)
        },
        ExprV::Add(l, r) => AstV::Bvadd(Box::new(lower(*l)), Box::new(lower(*r))),
        ExprV::Sub(l, r) => AstV::Bvsub(Box::new(lower(*l)), Box::new(lower(*r))),
        ExprV::Mul(l, r) => AstV::Bvmul(Box::new(lower(*l)), Box::new(lower(*r))),
        ExprV::Divu(l, r) => AstV::Bvudiv(Box::new(lower(*l)), Box::new(lower(*r))),
        ExprV::Modu(l, r) => AstV::Bvurem(Box::new(lower(*l)), Box::new(lower(*r))),
        ExprV::Divs(l, r) => AstV::Bvsdiv(Box::new(lower(*l)), Box::new(lower(*r))),
        ExprV::Mods(l, r) => AstV::Bvsrem(Box::new(lower(*l)), Box::new(lower(*r))),
        ExprV::And(l, r) => AstV::Bvand(Box::new(lower(*l)), Box::new(lower(*r))),
        ExprV::Or(l, r) => AstV::Bvor(Box::new(lower(*l)), Box::new(lower(*r))),
        ExprV::Xor(l, r) => AstV::Bvxor(Box::new(lower(*l)), Box::new(lower(*r))),
        ExprV::Shl(l, r) => AstV::Bvshl(Box::new(lower(*l)), Box::new(lower(*r))),
        ExprV::Shr(l, r) => AstV::Bvlshr(Box::new(lower(*l)), Box::new(lower(*r))),
        ExprV::Cmpeq(l, r) => AstV::Ite(
            Box::new(AstV::Eq(Box::new(lower(*l)), Box::new(lower(*r)))),
            Box::new(AstV::Numeral(1, 1)),
            Box::new(AstV::Numeral(0, 1)),
        ),
        ExprV::Cmpneq(l, r) => AstV::Ite(
            Box::new(AstV::Eq(Box::new(lower(*l)), Box::new(lower(*r)))),
            Box::new(AstV::Numeral(0, 1)),
            Box::new(AstV::Numeral(1, 1)),
        ),
        ExprV::Cmplts(l, r) => AstV::Ite(
            Box::new(AstV::Bvslt(Box::new(lower(*l)), Box::new(lower(*r)))),
            Box::new(AstV::Numeral(1, 1)),
            Box::new(AstV::Numeral(0, 1)),
        ),
        ExprV::Cmpltu(l, r) => AstV::Ite(
            Box::new(AstV::Bvult(Box::new(lower(*l)), Box::new(lower(*r)))),
            Box::new(AstV::Numeral(1, 1)),
            Box::new(AstV::Numeral(0, 1)),
        ),
        ExprV::Zext(bits, src) => AstV::ZeroExt(
            (bits - expr_bits(*src)) as nat,
            Box::new(lower(*src)),
        ),
        ExprV::Sext(bits, src) => AstV::SignExt(
            (bits - expr_bits(*src)) as nat,
            Box::new(lower(*src)),
        ),
        ExprV::Trun(bits, src) => AstV::Extract((bits - 1) as nat, 0, Box::new(lower(*src))),
        ExprV::Ite(c, t, f) => AstV::Ite(
            Box::new(AstV::Eq(Box::new(lower(*c)), Box::new(AstV::Numeral(1, 1)))),
            Box::new(lower(*t)),
            Box::new(lower(*f)),
        ),
    }
}

/// Whether every scalar name in an expression can be encoded for the
/// backend: translation fails exactly on a name that cannot.
pub open spec fn expr_no_nul(e: ExprV) -> bool
    decreases e,
{
    match e {
        ExprV::Scalar(name, _) => !has_nul(name),
        ExprV::Constant(_, _) => true,
        ExprV::Add(l, r) => expr_no_nul(*l) && expr_no_nul(*r),
        ExprV::Sub(l, r) => expr_no_nul(*l) && expr_no_nul(*r),
        ExprV::Mul(l, r) => expr_no_nul(*l) && expr_no_nul(*r),
        ExprV::Divu(l, r) => expr_no_nul(*l) && expr_no_nul(*r),
        ExprV::Modu(l, r) => expr_no_nul(*l) && expr_no_nul(*r),
        ExprV::Divs(l, r) => expr_no_nul(*l) && expr_no_nul(*r),
        ExprV::Mods(l, r) => expr_no_nul(*l) && expr_no_nul(*r),
        ExprV::And(l, r) => expr_no_nul(*l) && expr_no_nul(*r),
        ExprV::Or(l, r) => expr_no_nul(*l) && expr_no_nul(*r),
        ExprV::Xor(l, r) => expr_no_nul(*l) && expr_no_nul(*r),
        ExprV::Shl(l, r) => expr_no_nul(*l) && expr_no_nul(*r),
        ExprV::Shr(l, r) => expr_no_nul(*l) && expr_no_nul(*r),
        ExprV::Cmpeq(l, r) => expr_no_nul(*l) && expr_no_nul(*r),
        ExprV::Cmpneq(l, r) => expr_no_nul(*l) && expr_no_nul(*r),
        ExprV::Cmplts(l, r) => expr_no_nul(*l) && expr_no_nul(*r),
        ExprV::Cmpltu(l, r) => expr_no_nul(*l) && expr_no_nul(*r),
        ExprV::Zext(_, src) => expr_no_nul(*src),
        ExprV::Sext(_, src) => expr_no_nul(*src),
        ExprV::Trun(_, src) => expr_no_nul(*src),
        ExprV::Ite(c, t, f) => expr_no_nul(*c) && expr_no_nul(*t) && expr_no_nul(*f),
    }
}

/// Every constant in the tree carries its representation invariant.
pub open spec fn expr_inv(e: Expression) -> bool
    decreases e,
{
    match e {
        Expression::Scalar(_) => true,
        Expression::Constant(c) => c.inv(),
        Expression::Add(l, r) => expr_inv(*l) && expr_inv(*r),
        Expression::Sub(l, r) => expr_inv(*l) && expr_inv(*r),
        Expression::Mul(l, r) => expr_inv(*l) && expr_inv(*r),
        Expression::Divu(l, r) => expr_inv(*l) && expr_inv(*r),
        Expression::Modu(l, r) => expr_inv(*l) && expr_inv(*r),
        Expression::Divs(l, r) => expr_inv(*l) && expr_inv(*r),
        Expression::Mods(l, r) => expr_inv(*l) && expr_inv(*r),
        Expression::And(l, r) => expr_inv(*l) && expr_inv(*r),
        Expression::Or(l, r) => expr_inv(*l) && expr_inv(*r),
        Expression::Xor(l, r) => expr_inv(*l) && expr_inv(*r),
        Expression::Shl(l, r) => expr_inv(*l) && expr_inv(*r),
        Expression::Shr(l, r) => expr_inv(*l) && expr_inv(*r),
        Expression::Cmpeq(l, r) => expr_inv(*l) && expr_inv(*r),
        Expression::Cmpneq(l, r) => expr_inv(*l) && expr_inv(*r),
        Expression::Cmplts(l, r) => expr_inv(*l) && expr_inv(*r),
        Expression::Cmpltu(l, r) => expr_inv(*l) && expr_inv(*r),
        Expression::Zext(_, src) => expr_inv(*src),
        Expression::Sext(_, src) => expr_inv(*src),
        Expression::Trun(_, src) => expr_inv(*src),
        Expression::Ite(c, t, f) => expr_inv(*c) && expr_inv(*t) && expr_inv(*f),
    }
}

/// A numeral term; the factory cannot refuse one, since a decimal
/// rendering never embeds a terminator.
fn numeral(context: &Context, n: u64, bits: usize) -> (r: Ast)
    ensures
        r@ == AstV::Numeral(n as nat, bits as nat),
{
    let sort = context.mk_bv_sort(bits);
    match context.mk_numeral(n, &sort) {
        Ok(a) => a,
        Err(_) => Ast::Numeral { value: n, sort },
    }
}

/// Lower an expression tree, bottom-up, into the formula term the
/// backend will reason over. Fails exactly when some scalar's name
/// cannot be encoded.
#[verifier::rlimit(100)]
pub fn expression_to_ast(context: &Context, expression: &Expression) -> (r: Result<Ast, Error>)
    requires
        expr_inv(*expression),
        expr_wf(expression@),
    ensures
        r is Ok <==> expr_no_nul(expression@),
        r matches Ok(a) ==> a@ == lower(expression@),
        r is Err ==> r == Result::<Ast, Error>::Err(Error::InvalidName),
    decreases expression,
{
    match expression {
        Expression::Scalar(scalar) => {
            let sort = context.mk_bv_sort(scalar.bits);
            let out = context.mk_var(scalar.name.as_str(), &sort);
            proof {
                if out is Ok {
                    assert(out->Ok_0@ == lower(expression@));
                }
            }
            out
        },
        Expression::Constant(constant) => {
            let out = constant_to_ast(context, constant);
            proof {
                assert(out@ == lower(expression@));
            }
            Ok(out)
        },
        Expression::Add(l, r) => {
            let out = context.bvadd(expression_to_ast(context, l)?, expression_to_ast(context, r)?);
            proof {
                assert(out@ == lower(expression@));
            }
            Ok(out)
        },
        Expression::Sub(l, r) => {
            let out = context.bvsub(expression_to_ast(context, l)?, expression_to_ast(context, r)?);
            proof {
                assert(out@ == lower(expression@));
            }
            Ok(out)
        },
        Expression::Mul(l, r) => {
            let out = context.bvmul(expression_to_ast(context, l)?, expression_to_ast(context, r)?);
            proof {
                assert(out@ == lower(expression@));
            }
            Ok(out)
        },
        Expression::Divu(l, r) => {
            let out = context.bvudiv(expression_to_ast(context, l)?, expression_to_ast(context, r)?);
            proof {
                assert(out@ == lower(expression@));
            }
            Ok(out)
        },
        Expression::Modu(l, r) => {
            let out = context.bvurem(expression_to_ast(context, l)?, expression_to_ast(context, r)?);
            proof {
                assert(out@ == lower(expression@));
            }
            Ok(out)
        },
        Expression::Divs(l, r) => {
            let out = context.bvsdiv(expression_to_ast(context, l)?, expression_to_ast(context, r)?);
            proof {
                assert(out@ == lower(expression@));
            }
            Ok(out)
        },
        Expression::Mods(l, r) => {
            let out = context.bvsrem(expression_to_ast(context, l)?, expression_to_ast(context, r)?);
            proof {
                assert(out@ == lower(expression@));
            }
            Ok(out)
        },
        Expression::And(l, r) => {
            let out = context.bvand(expression_to_ast(context, l)?, expression_to_ast(context, r)?);
            proof {
                assert(out@ == lower(expression@));
            }
            Ok(out)
        },
        Expression::Or(l, r) => {
            let out = context.bvor(expression_to_ast(context, l)?, expression_to_ast(context, r)?);
            proof {
                assert(out@ == lower(expression@));
            }
            Ok(out)
        },
        Expression::Xor(l, r) => {
            let out = context.bvxor(expression_to_ast(context, l)?, expression_to_ast(context, r)?);
            proof {
                assert(out@ == lower(expression@));
            }
            Ok(out)
        },
        Expression::Shl(l, r) => {
            let out = context.bvshl(expression_to_ast(context, l)?, expression_to_ast(context, r)?);
            proof {
                assert(out@ == lower(expression@));
            }
            Ok(out)
        },
        Expression::Shr(l, r) => {
            let out = context.bvshr(expression_to_ast(context, l)?, expression_to_ast(context, r)?);
            proof {
                assert(out@ == lower(expression@));
            }
            Ok(out)
        },
        Expression::Cmpeq(l, r) => {
            let la = expression_to_ast(context, l)?;
            let ra = expression_to_ast(context, r)?;
            let one = numeral(context, 1, 1);
            let zero = numeral(context, 0, 1);
            let out = context.ite(context.eq(la, ra), one, zero);
            proof {
                assert(out@ == lower(expression@));
            }
            Ok(out)
        },
        Expression::Cmpneq(l, r) => {
            let la = expression_to_ast(context, l)?;
            let ra = expression_to_ast(context, r)?;
            let one = numeral(context, 1, 1);
            let zero = numeral(context, 0, 1);
            let out = context.ite(context.eq(la, ra), zero, one);
            proof {
                assert(out@ == lower(expression@));
            }
            Ok(out)
        },
        Expression::Cmplts(l, r) => {
            let la = expression_to_ast(context, l)?;
            let ra = expression_to_ast(context, r)?;
            let one = numeral(context, 1, 1);
            let zero = numeral(context, 0, 1);
            let out = context.ite(context.bvslt(la, ra), one, zero);
            proof {
                assert(out@ == lower(expression@));
            }
            Ok(out)
        },
        Expression::Cmpltu(l, r) => {
            let la = expression_to_ast(context, l)?;
            let ra = expression_to_ast(context, r)?;
            let one = numeral(context, 1, 1);
            let zero = numeral(context, 0, 1);
            let out = context.ite(context.bvult(la, ra), one, zero);
            proof {
                assert(out@ == lower(expression@));
            }
            Ok(out)
        },
        Expression::Zext(bits, src) => {
            let extra = (*bits - src.bits()) as u32;
            let out = context.zero_ext(extra, expression_to_ast(context, src)?);
            proof {
                assert(out@ == lower(expression@));
            }
            Ok(out)
        },
        Expression::Sext(bits, src) => {
            let extra = (*bits - src.bits()) as u32;
            let out = context.sign_ext(extra, expression_to_ast(context, src)?);
            proof {
                assert(out@ == lower(expression@));
            }
            Ok(out)
        },
        Expression::Trun(bits, src) => {
            proof {
                lemma_expr_bits_bound(expression@);
            }
            let high = (*bits - 1) as u32;
            let out = context.extract(high, 0, expression_to_ast(context, src)?);
            proof {
                assert(out@ == lower(expression@));
            }
            Ok(out)
        },
        Expression::Ite(c, t, f) => {
            let ca = expression_to_ast(context, c)?;
            let ta = expression_to_ast(context, t)?;
            let fa = expression_to_ast(context, f)?;
            let one = numeral(context, 1, 1);
            let out = context.ite(context.eq(ca, one), ta, fa);
            proof {
                assert(out@ == lower(expression@));
            }
            Ok(out)
        },
    }
}

/// Materialize a constant: directly as a numeral when its value fits
/// the machine-word range of the numeral factory, else byte by byte,
/// concatenated most-significant byte first, the top byte carrying the
/// width's remainder bits.
fn constant_to_ast(context: &Context, constant: &Constant) -> (r: Ast)
    requires
        constant.inv(),
    ensures
        r@ == lower(ExprV::Constant(constant.value(), constant.bits as nat)),
{
    let ghost cv = constant.value();
    let ghost bits_g = constant.bits as nat;
    match constant.value_u64() {
        Some(v) => numeral(context, v, constant.bits),
        None => {
            proof {
                lemma2_to64();
                lemma2_to64_rest();
                if bits_g < 64 {
                    lemma_pow2_strictly_increases(bits_g, 64);
                }
                assert(bits_g > 64);
                lemma_fundamental_div_mod((constant.bits + 7) as int, 8);
            }
            let nb = constant.bytes.len();
            proof {
                lemma_byte_extract(constant.bytes@, 0);
                assert(pow2(8 * 0) == 1) by {
                    lemma2_to64();
                }
                lemma_fundamental_div_mod_converse(cv as int, 1, cv as int, 0);
                assert(nth_byte(cv, 0) == constant.bytes@[0] as nat);
            }
            let mut v = numeral(context, constant.bytes[0] as u64, 8);
            let mut i: usize = 1;
            while i < nb
                invariant
                    1 <= i <= nb,
                    constant.inv(),
                    nb == constant.bytes@.len(),
                    cv == constant.value(),
                    bits_g == constant.bits as nat,
                    bits_g > 64,
                    v@ == lower_bytes(cv, bits_g, (i - 1) as nat),
                decreases nb - i,
            {
                proof {
                    lemma_fundamental_div_mod((constant.bits + 7) as int, 8);
                    assert(8 * i < bits_g);
                }
                let w8: u64 = 8 * ((i as u64) + 1);
                let width: usize = if w8 <= constant.bits as u64 {
                    8
                } else {
                    constant.bits - 8 * i
                };
                proof {
                    assert(width as nat == byte_width(bits_g, i as nat));
                    lemma_byte_extract(constant.bytes@, i as int);
                    assert(nth_byte(cv, i as nat) == constant.bytes@[i as int] as nat);
                }
                let num = numeral(context, constant.bytes[i] as u64, width);
                v = context.concat(num, v);
                i += 1;
            }
            proof {
                assert(nbytes(bits_g) == nb);
            }
            v
        },
    }
}

/// Every width a well-formed expression carries fits the backend's
/// limit.
pub proof fn lemma_expr_bits_bound(e: ExprV)
    requires
        expr_wf(e),
    ensures
        1 <= expr_bits(e) <= 0xffff_ffff,
    decreases e,
{
    match e {
        ExprV::Scalar(_, _) => {},
        ExprV::Constant(_, _) => {},
        ExprV::Add(l, _) => lemma_expr_bits_bound(*l),
        ExprV::Sub(l, _) => lemma_expr_bits_bound(*l),
        ExprV::Mul(l, _) => lemma_expr_bits_bound(*l),
        ExprV::Divu(l, _) => lemma_expr_bits_bound(*l),
        ExprV::Modu(l, _) => lemma_expr_bits_bound(*l),
        ExprV::Divs(l, _) => lemma_expr_bits_bound(*l),
        ExprV::Mods(l, _) => lemma_expr_bits_bound(*l),
        ExprV::And(l, _) => lemma_expr_bits_bound(*l),
        ExprV::Or(l, _) => lemma_expr_bits_bound(*l),
        ExprV::Xor(l, _) => lemma_expr_bits_bound(*l),
        ExprV::Shl(l, _) => lemma_expr_bits_bound(*l),
        ExprV::Shr(l, _) => lemma_expr_bits_bound(*l),
        ExprV::Cmpeq(_, _) => {},
        ExprV::Cmpneq(_, _) => {},
        ExprV::Cmplts(_, _) => {},
        ExprV::Cmpltu(_, _) => {},
        ExprV::Zext(_, _) => {},
        ExprV::Sext(_, _) => {},
        ExprV::Trun(_, src) => lemma_expr_bits_bound(*src),
        ExprV::Ite(_, t, _) => lemma_expr_bits_bound(*t),
    }
}

/// A well-formed expression lowers to a well-sorted term whose width
/// is the expression's own: the translation never hands the backend a
/// term it would reject.
#[verifier::rlimit(100)]
pub proof fn lemma_lower_sort(e: ExprV)
    requires
        expr_wf(e),
    ensures
        sort_of(lower(e)) == Some(TermSort::BitVector(expr_bits(e))),
    decreases e,
{
    match e {
        ExprV::Scalar(name, bits) => {
            assert(e == ExprV::Scalar(name, bits));
            assert(lower(e) == AstV::Var(name, bits));
            assert(expr_bits(e) == bits);
            assert(sort_of(lower(e)) == Some(TermSort::BitVector(bits)));
        },
        ExprV::Constant(v, bits) => {
            lemma_lower_sort_constant(v, bits);
            assert(sort_of(lower(e)) == Some(TermSort::BitVector(expr_bits(e))));
        },
        ExprV::Add(l, r) => {
            lemma_lower_sort(*l);
            lemma_lower_sort(*r);
            assert(sort_of(lower(e)) == Some(TermSort::BitVector(expr_bits(e))));
        },
        ExprV::Sub(l, r) => {
            lemma_lower_sort(*l);
            lemma_lower_sort(*r);
            assert(sort_of(lower(e)) == Some(TermSort::BitVector(expr_bits(e))));
        },
        ExprV::Mul(l, r) => {
            lemma_lower_sort(*l);
            lemma_lower_sort(*r);
            assert(sort_of(lower(e)) == Some(TermSort::BitVector(expr_bits(e))));
        },
        ExprV::Divu(l, r) => {
            lemma_lower_sort(*l);
            lemma_lower_sort(*r);
            assert(sort_of(lower(e)) == Some(TermSort::BitVector(expr_bits(e))));
        },
        ExprV::Modu(l, r) => {
            lemma_lower_sort(*l);
            lemma_lower_sort(*r);
            assert(sort_of(lower(e)) == Some(TermSort::BitVector(expr_bits(e))));
        },
        ExprV::Divs(l, r) => {
            lemma_lower_sort(*l);
            lemma_lower_sort(*r);
            assert(sort_of(lower(e)) == Some(TermSort::BitVector(expr_bits(e))));
        },
        ExprV::Mods(l, r) => {
            lemma_lower_sort(*l);
            lemma_lower_sort(*r);
            assert(sort_of(lower(e)) == Some(TermSort::BitVector(expr_bits(e))));
        },
        ExprV::And(l, r) => {
            lemma_lower_sort(*l);
            lemma_lower_sort(*r);
            assert(sort_of(lower(e)) == Some(TermSort::BitVector(expr_bits(e))));
        },
        ExprV::Or(l, r) => {
            lemma_lower_sort(*l);
            lemma_lower_sort(*r);
            assert(sort_of(lower(e)) == Some(TermSort::BitVector(expr_bits(e))));
        },
        ExprV::Xor(l, r) => {
            lemma_lower_sort(*l);
            lemma_lower_sort(*r);
            assert(sort_of(lower(e)) == Some(TermSort::BitVector(expr_bits(e))));
        },
        ExprV::Shl(l, r) => {
            lemma_lower_sort(*l);
            lemma_lower_sort(*r);
            assert(sort_of(lower(e)) == Some(TermSort::BitVector(expr_bits(e))));
        },
        ExprV::Shr(l, r) => {
            lemma_lower_sort(*l);
            lemma_lower_sort(*r);
            assert(sort_of(lower(e)) == Some(TermSort::BitVector(expr_bits(e))));
        },
        ExprV::Cmpeq(l, r) => {
            lemma_lower_sort(*l);
            lemma_lower_sort(*r);
            assert(sort_of(AstV::Eq(Box::new(lower(*l)), Box::new(lower(*r)))) == Some(
                TermSort::Boolean,
            ));
            assert(sort_of(AstV::Numeral(1, 1)) == Some(TermSort::BitVector(1nat)));
            assert(sort_of(AstV::Numeral(0, 1)) == Some(TermSort::BitVector(1nat)));
            assert(sort_of(lower(e)) == Some(TermSort::BitVector(expr_bits(e))));
        },
        ExprV::Cmpneq(l, r) => {
            lemma_lower_sort(*l);
            lemma_lower_sort(*r);
            assert(sort_of(AstV::Eq(Box::new(lower(*l)), Box::new(lower(*r)))) == Some(
                TermSort::Boolean,
            ));
            assert(sort_of(AstV::Numeral(1, 1)) == Some(TermSort::BitVector(1nat)));
            assert(sort_of(AstV::Numeral(0, 1)) == Some(TermSort::BitVector(1nat)));
            assert(sort_of(lower(e)) == Some(TermSort::BitVector(expr_bits(e))));
        },
        ExprV::Cmplts(l, r) => {
            lemma_lower_sort(*l);
            lemma_lower_sort(*r);
            assert(sort_of(AstV::Bvslt(Box::new(lower(*l)), Box::new(lower(*r)))) == Some(
                TermSort::Boolean,
            ));
            assert(sort_of(AstV::Numeral(1, 1)) == Some(TermSort::BitVector(1nat)));
            assert(sort_of(AstV::Numeral(0, 1)) == Some(TermSort::BitVector(1nat)));
            assert(sort_of(lower(e)) == Some(TermSort::BitVector(expr_bits(e))));
        },
        ExprV::Cmpltu(l, r) => {
            lemma_lower_sort(*l);
            lemma_lower_sort(*r);
            assert(sort_of(AstV::Bvult(Box::new(lower(*l)), Box::new(lower(*r)))) == Some(
                TermSort::Boolean,
            ));
            assert(sort_of(AstV::Numeral(1, 1)) == Some(TermSort::BitVector(1nat)));
            assert(sort_of(AstV::Numeral(0, 1)) == Some(TermSort::BitVector(1nat)));
            assert(sort_of(lower(e)) == Some(TermSort::BitVector(expr_bits(e))));
        },
        ExprV::Zext(_, src) => {
            lemma_lower_sort(*src);
            assert(sort_of(lower(e)) == Some(TermSort::BitVector(expr_bits(e))));
        },
        ExprV::Sext(_, src) => {
            lemma_lower_sort(*src);
            assert(sort_of(lower(e)) == Some(TermSort::BitVector(expr_bits(e))));
        },
        ExprV::Trun(_, src) => {
            lemma_lower_sort(*src);
            assert(sort_of(lower(e)) == Some(TermSort::BitVector(expr_bits(e))));
        },
        ExprV::Ite(c, t, f) => {
            lemma_lower_sort(*c);
            lemma_lower_sort(*t);
            lemma_lower_sort(*f);
            assert(sort_of(AstV::Numeral(1, 1)) == Some(TermSort::BitVector(1nat)));
            assert(sort_of(AstV::Eq(Box::new(lower(*c)), Box::new(AstV::Numeral(1, 1)))) == Some(
                TermSort::Boolean,
            ));
            assert(sort_of(lower(e)) == Some(TermSort::BitVector(expr_bits(e))));
        },
    }
}

/// A well-formed constant lowers to a bit-vector term of its width.
proof fn lemma_lower_sort_constant(v: nat, bits: nat)
    requires
        expr_wf(ExprV::Constant(v, bits)),
    ensures
        sort_of(lower(ExprV::Constant(v, bits))) == Some(TermSort::BitVector(bits)),
{
    if v >= pow2(64) {
        lemma2_to64();
        lemma2_to64_rest();
        if bits < 64 {
            lemma_pow2_strictly_increases(bits, 64);
        }
        lemma_fundamental_div_mod((bits + 7) as int, 8);
        let last = (nbytes(bits) - 1) as nat;
        lemma_lower_bytes_sort(v, bits, last);
        assert(8 * (last + 1) >= bits);
        assert(if 8 * (last + 1) <= bits {
            (8 * (last + 1)) as nat
        } else {
            bits
        } == bits);
    }
}

/// The byte-wise materialization of a wide constant covers exactly the
/// bits of the bytes built so far.
proof fn lemma_lower_bytes_sort(v: nat, bits: nat, i: nat)
    requires
        8 <= bits,
        8 * i < bits,
    ensures
        sort_of(lower_bytes(v, bits, i)) == Some(
            TermSort::BitVector(
                if 8 * (i + 1) <= bits {
                    (8 * (i + 1)) as nat
                } else {
                    bits
                },
            ),
        ),
    decreases i,
{
    if i == 0 {
        assert(lower_bytes(v, bits, 0) == AstV::Numeral(nth_byte(v, 0), 8));
        assert(sort_of(lower_bytes(v, bits, 0)) == Some(TermSort::BitVector(8nat)));
    } else {
        lemma_lower_bytes_sort(v, bits, (i - 1) as nat);
        let head = AstV::Numeral(nth_byte(v, i), byte_width(bits, i));
        let rest = lower_bytes(v, bits, (i - 1) as nat);
        assert(lower_bytes(v, bits, i) == AstV::Concat(Box::new(head), Box::new(rest)));
        assert(sort_of(head) == Some(TermSort::BitVector(byte_width(bits, i))));
        let low = if 8 * i <= bits {
            (8 * i) as nat
        } else {
            bits
        };
        assert(sort_of(rest) == Some(TermSort::BitVector(low)));
        assert(low == (8 * i) as nat);
        assert(byte_width(bits, i) + low == if 8 * (i + 1) <= bits {
            (8 * (i + 1)) as nat
        } else {
            bits
        });
    }
}


/// The verdict of a whole solve: no satisfying assignment, no verdict
/// within the engine's limits, or a witnessed constant.
#[derive(Debug)]
pub enum SolverResult {
    Unsat,
    Unknown,
    Sat(Constant),
}

/// The term a constraint contributes: its one-bit lowering pinned to
/// the one-bit numeral for true.
pub open spec fn constraint_term(e: ExprV) -> AstV {
    AstV::Eq(Box::new(AstV::Numeral(1, 1)), Box::new(lower(e)))
}

/// The terms a list of constraints contributes, in order.
pub open spec fn constraint_terms(cs: Seq<Expression>) -> Seq<AstV> {
    cs.map_values(|e: Expression| constraint_term(e@))
}

/// The term that binds a named result variable to an expression's
/// lowering.
pub open spec fn binding_term(name: Seq<char>, e: ExprV) -> AstV {
    AstV::Eq(Box::new(AstV::Var(name, expr_bits(e))), Box::new(lower(e)))
}

/// The binding terms of a list of named expressions, in order.
pub open spec fn binding_terms(vs: Seq<(String, Expression)>) -> Seq<AstV> {
    vs.map_values(|p: (String, Expression)| binding_term(p.0@, p.1@))
}

/// Assert every constraint into the solver as "its one-bit lowering
/// equals one". Fails exactly on a scalar name the backend cannot
/// encode.
pub fn solver_init(solver: &mut Solver, context: &Context, constraints: &Vec<Expression>) -> (r:
    Result<(), Error>)
    requires
        forall|i: int|
            0 <= i < constraints@.len() ==> expr_inv(#[trigger] constraints@[i]) && expr_wf(
                constraints@[i]@,
            ),
    ensures
        r is Ok <==> (forall|i: int|
            0 <= i < constraints@.len() ==> expr_no_nul(#[trigger] constraints@[i]@)),
        r is Ok ==> final(solver)@ == old(solver)@ + constraint_terms(constraints@),
        r is Err ==> r == Result::<(), Error>::Err(Error::InvalidName),
{
    let n = constraints.len();
    let mut j: usize = 0;
    proof {
        assert(constraint_terms(constraints@.take(0)) =~= Seq::<AstV>::empty());
        assert(solver@ + constraint_terms(constraints@.take(0)) =~= solver@);
    }
    while j < n
        invariant
            j <= n,
            n == constraints@.len(),
            forall|i: int|
                0 <= i < constraints@.len() ==> expr_inv(#[trigger] constraints@[i]) && expr_wf(
                    constraints@[i]@,
                ),
            forall|i: int| 0 <= i < j ==> expr_no_nul(#[trigger] constraints@[i]@),
            solver@ == old(solver)@ + constraint_terms(constraints@.take(j as int)),
        decreases n - j,
    {
        let c = &constraints[j];
        let t = match expression_to_ast(context, c) {
            Ok(t) => t,
            Err(e) => {
                return Err(e);
            },
        };
        let one = numeral(context, 1, 1);
        solver.assert_term(context.eq(one, t));
        proof {
            assert(constraint_terms(constraints@.take(j + 1)) =~= constraint_terms(
                constraints@.take(j as int),
            ).push(constraint_term(constraints@[j as int]@)));
            assert(old(solver)@ + constraint_terms(constraints@.take(j + 1)) =~= (old(solver)@
                + constraint_terms(constraints@.take(j as int))).push(
                constraint_term(constraints@[j as int]@),
            ));
        }
        j += 1;
    }
    proof {
        assert(constraints@.take(n as int) =~= constraints@);
    }
    Ok(())
}

/// Assert every constraint into the optimization engine, as
/// `solver_init` does for the plain solver.
pub fn optimize_init(optimize: &mut Optimize, context: &Context, constraints: &Vec<Expression>)
    -> (r: Result<(), Error>)
    requires
        forall|i: int|
            0 <= i < constraints@.len() ==> expr_inv(#[trigger] constraints@[i]) && expr_wf(
                constraints@[i]@,
            ),
    ensures
        r is Ok <==> (forall|i: int|
            0 <= i < constraints@.len() ==> expr_no_nul(#[trigger] constraints@[i]@)),
        r is Ok ==> terms(final(optimize).asserted@) == terms(old(optimize).asserted@)
            + constraint_terms(constraints@),
        final(optimize).maximize_objectives@ == old(optimize).maximize_objectives@,
        final(optimize).minimize_objectives@ == old(optimize).minimize_objectives@,
        r is Err ==> r == Result::<(), Error>::Err(Error::InvalidName),
{
    let n = constraints.len();
    let mut j: usize = 0;
    proof {
        assert(constraint_terms(constraints@.take(0)) =~= Seq::<AstV>::empty());
        assert(terms(optimize.asserted@) + constraint_terms(constraints@.take(0)) =~= terms(
            optimize.asserted@,
        ));
    }
    while j < n
        invariant
            j <= n,
            n == constraints@.len(),
            forall|i: int|
                0 <= i < constraints@.len() ==> expr_inv(#[trigger] constraints@[i]) && expr_wf(
                    constraints@[i]@,
                ),
            forall|i: int| 0 <= i < j ==> expr_no_nul(#[trigger] constraints@[i]@),
            terms(optimize.asserted@) == terms(old(optimize).asserted@) + constraint_terms(
                constraints@.take(j as int),
            ),
            optimize.maximize_objectives@ == old(optimize).maximize_objectives@,
            optimize.minimize_objectives@ == old(optimize).minimize_objectives@,
        decreases n - j,
    {
        let c = &constraints[j];
        let t = match expression_to_ast(context, c) {
            Ok(t) => t,
            Err(e) => {
                return Err(e);
            },
        };
        let one = numeral(context, 1, 1);
        optimize.assert_term(context.eq(one, t));
        proof {
            assert(constraint_terms(constraints@.take(j + 1)) =~= constraint_terms(
                constraints@.take(j as int),
            ).push(constraint_term(constraints@[j as int]@)));
            assert(terms(old(optimize).asserted@) + constraint_terms(constraints@.take(j + 1))
                =~= (terms(old(optimize).asserted@) + constraint_terms(
                constraints@.take(j as int),
            )).push(constraint_term(constraints@[j as int]@)));
        }
        j += 1;
    }
    proof {
        assert(constraints@.take(n as int) =~= constraints@);
    }
    Ok(())
}

/// A free variable bound to a query's result, readable back from a
/// model by name.
fn result_variable(name: &str, bits: usize) -> (r: Ast)
    ensures
        r@ == AstV::Var(name@, bits as nat),
{
    Ast::Var { name: String::from_str(name), sort: Sort { bits } }
}

/// Build the satisfiability query for one value: assert the
/// constraints, then bind the value's lowering to a fresh result
/// variable, which the model is later read at.
pub fn solve_query(constraints: &Vec<Expression>, value: &Expression) -> (r: Result<
    (Solver, Ast),
    Error,
>)
    requires
        forall|i: int|
            0 <= i < constraints@.len() ==> expr_inv(#[trigger] constraints@[i]) && expr_wf(
                constraints@[i]@,
            ),
        expr_inv(*value),
        expr_wf(value@),
    ensures
        r is Ok <==> (forall|i: int|
            0 <= i < constraints@.len() ==> expr_no_nul(#[trigger] constraints@[i]@))
            && expr_no_nul(value@),
        r matches Ok(q) ==> q.1@ == AstV::Var("SOLVER_RESULT"@, expr_bits(value@)) && q.0@
            == constraint_terms(constraints@).push(
            AstV::Eq(Box::new(q.1@), Box::new(lower(value@))),
        ),
        r is Err ==> r == Result::<(Solver, Ast), Error>::Err(Error::InvalidName),
{
    let config = Config::new().enable_model();
    let context = Context::new(config);
    let mut solver = Solver::new(&context);
    match solver_init(&mut solver, &context, constraints) {
        Ok(_) => {},
        Err(e) => {
            return Err(e);
        },
    }
    let vbits = value.bits();
    let bound = result_variable("SOLVER_RESULT", vbits);
    let returned = result_variable("SOLVER_RESULT", vbits);
    let t = match expression_to_ast(&context, value) {
        Ok(t) => t,
        Err(e) => {
            return Err(e);
        },
    };
    solver.assert_term(context.eq(bound, t));
    Ok((solver, returned))
}

/// Build the optimization query for one value: assert the constraints,
/// bind the value's lowering to a fresh result variable, and declare
/// that variable the objective to maximize.
pub fn maximize_query(constraints: &Vec<Expression>, value: &Expression) -> (r: Result<
    (Optimize, Ast),
    Error,
>)
    requires
        forall|i: int|
            0 <= i < constraints@.len() ==> expr_inv(#[trigger] constraints@[i]) && expr_wf(
                constraints@[i]@,
            ),
        expr_inv(*value),
        expr_wf(value@),
    ensures
        r is Ok <==> (forall|i: int|
            0 <= i < constraints@.len() ==> expr_no_nul(#[trigger] constraints@[i]@))
            && expr_no_nul(value@),
        r matches Ok(q) ==> q.1@ == AstV::Var("OPTIMIZE_RESULT"@, expr_bits(value@)) && terms(
            q.0.asserted@,
        ) == constraint_terms(constraints@).push(
            AstV::Eq(Box::new(q.1@), Box::new(lower(value@))),
        ) && terms(q.0.maximize_objectives@) =~= seq![q.1@]
            && q.0.minimize_objectives@.len() == 0,
        r is Err ==> r == Result::<(Optimize, Ast), Error>::Err(Error::InvalidName),
{
    let config = Config::new().enable_model();
    let context = Context::new(config);
    let mut optimize = Optimize::new(&context);
    match optimize_init(&mut optimize, &context, constraints) {
        Ok(_) => {},
        Err(e) => {
            return Err(e);
        },
    }
    let vbits = value.bits();
    let bound = result_variable("OPTIMIZE_RESULT", vbits);
    let objective = result_variable("OPTIMIZE_RESULT", vbits);
    let returned = result_variable("OPTIMIZE_RESULT", vbits);
    let t = match expression_to_ast(&context, value) {
        Ok(t) => t,
        Err(e) => {
            return Err(e);
        },
    };
    optimize.assert_term(context.eq(bound, t));
    optimize.maximize(objective);
    Ok((optimize, returned))
}

/// Build the optimization query that minimizes the value, as
/// `maximize_query` does for maximization.
pub fn minimize_query(constraints: &Vec<Expression>, value: &Expression) -> (r: Result<
    (Optimize, Ast),
    Error,
>)
    requires
        forall|i: int|
            0 <= i < constraints@.len() ==> expr_inv(#[trigger] constraints@[i]) && expr_wf(
                constraints@[i]@,
            ),
        expr_inv(*value),
        expr_wf(value@),
    ensures
        r is Ok <==> (forall|i: int|
            0 <= i < constraints@.len() ==> expr_no_nul(#[trigger] constraints@[i]@))
            && expr_no_nul(value@),
        r matches Ok(q) ==> q.1@ == AstV::Var("OPTIMIZE_RESULT"@, expr_bits(value@)) && terms(
            q.0.asserted@,
        ) == constraint_terms(constraints@).push(
            AstV::Eq(Box::new(q.1@), Box::new(lower(value@))),
        ) && terms(q.0.minimize_objectives@) =~= seq![q.1@]
            && q.0.maximize_objectives@.len() == 0,
        r is Err ==> r == Result::<(Optimize, Ast), Error>::Err(Error::InvalidName),
{
    let config = Config::new().enable_model();
    let context = Context::new(config);
    let mut optimize = Optimize::new(&context);
    match optimize_init(&mut optimize, &context, constraints) {
        Ok(_) => {},
        Err(e) => {
            return Err(e);
        },
    }
    let vbits = value.bits();
    let bound = result_variable("OPTIMIZE_RESULT", vbits);
    let objective = result_variable("OPTIMIZE_RESULT", vbits);
    let returned = result_variable("OPTIMIZE_RESULT", vbits);
    let t = match expression_to_ast(&context, value) {
        Ok(t) => t,
        Err(e) => {
            return Err(e);
        },
    };
    optimize.assert_term(context.eq(bound, t));
    optimize.minimize(objective);
    Ok((optimize, returned))
}

/// Build the satisfiability query that binds one fresh variable per
/// named expression; all bindings are later read from one model, so
/// the witnessed values are mutually consistent.
pub fn solve_multi_query(constraints: &Vec<Expression>, values: &Vec<(String, Expression)>) -> (r:
    Result<(Solver, Vec<Ast>), Error>)
    requires
        forall|i: int|
            0 <= i < constraints@.len() ==> expr_inv(#[trigger] constraints@[i]) && expr_wf(
                constraints@[i]@,
            ),
        forall|i: int|
            0 <= i < values@.len() ==> expr_inv((#[trigger] values@[i]).1) && expr_wf(
                values@[i].1@,
            ),
    ensures
        r is Ok <==> (forall|i: int|
            0 <= i < constraints@.len() ==> expr_no_nul(#[trigger] constraints@[i]@)) && (forall|
            i: int,
        |
            0 <= i < values@.len() ==> expr_no_nul((#[trigger] values@[i]).1@) && !has_nul(
                values@[i].0@,
            )),
        r matches Ok(q) ==> q.0@ == constraint_terms(constraints@) + binding_terms(values@)
            && q.1@.len() == values@.len() && (forall|k: int|
            0 <= k < values@.len() ==> (#[trigger] q.1@[k])@ == AstV::Var(
                values@[k].0@,
                expr_bits(values@[k].1@),
            )),
        r is Err ==> r == Result::<(Solver, Vec<Ast>), Error>::Err(Error::InvalidName),
{
    let config = Config::new().enable_model();
    let context = Context::new(config);
    let mut solver = Solver::new(&context);
    match solver_init(&mut solver, &context, constraints) {
        Ok(_) => {},
        Err(e) => {
            return Err(e);
        },
    }
    let n = values.len();
    let mut vars: Vec<Ast> = Vec::new();
    let mut j: usize = 0;
    proof {
        assert(binding_terms(values@.take(0)) =~= Seq::<AstV>::empty());
        assert(solver@ + binding_terms(values@.take(0)) =~= solver@);
    }
    while j < n
        invariant
            j <= n,
            n == values@.len(),
            forall|i: int|
                0 <= i < values@.len() ==> expr_inv((#[trigger] values@[i]).1) && expr_wf(
                    values@[i].1@,
                ),
            forall|i: int|
                0 <= i < j ==> expr_no_nul((#[trigger] values@[i]).1@) && !has_nul(values@[i].0@),
            solver@ == constraint_terms(constraints@) + binding_terms(values@.take(j as int)),
            vars@.len() == j,
            forall|k: int|
                0 <= k < j ==> (#[trigger] vars@[k])@ == AstV::Var(
                    values@[k].0@,
                    expr_bits(values@[k].1@),
                ),
        decreases n - j,
    {
        let entry = &values[j];
        let sort = context.mk_bv_sort(entry.1.bits());
        let bound = match context.mk_var(entry.0.as_str(), &sort) {
            Ok(v) => v,
            Err(e) => {
                return Err(e);
            },
        };
        let t = match expression_to_ast(&context, &entry.1) {
            Ok(t) => t,
            Err(e) => {
                return Err(e);
            },
        };
        let returned = result_variable(entry.0.as_str(), entry.1.bits());
        solver.assert_term(context.eq(bound, t));
        vars.push(returned);
        proof {
            assert(binding_terms(values@.take(j + 1)) =~= binding_terms(values@.take(j as int))
                .push(binding_term(values@[j as int].0@, values@[j as int].1@)));
            assert(constraint_terms(constraints@) + binding_terms(values@.take(j + 1)) =~= (
                constraint_terms(constraints@) + binding_terms(values@.take(j as int))).push(
                binding_term(values@[j as int].0@, values@[j as int].1@),
            ));
        }
        j += 1;
    }
    proof {
        assert(values@.take(n as int) =~= values@);
    }
    Ok((solver, vars))
}

/// Turn a check's verdict and the model's decimal read-back into the
/// final answer: no answer unless the verdict was satisfiable and the
/// read-back parses as a value of the requested width; never a
/// fabricated value.
pub fn return_solver_result(check: Check, interp: Option<String>, bits: usize) -> (r: Option<
    Constant,
>)
    requires
        1 <= bits <= 0xffff_ffffusize,
    ensures
        check != Check::Sat ==> r is None,
        check == Check::Sat ==> match interp {
            Some(s) => if is_decimal(s@) && dec_value(s@) < pow2(bits as nat) {
                r matches Some(c) && c.inv() && c.bits == bits && c.value() == dec_value(s@)
            } else {
                r is None
            },
            None => r is None,
        },
{
    match check {
        Check::Sat => match interp {
            Some(s) => match Constant::from_decimal_string(s.as_str(), bits) {
                Ok(c) => Some(c),
                Err(_) => None,
            },
            None => None,
        },
        _ => None,
    }
}

/// The optimization counterpart of `return_solver_result`: identical
/// read-back discipline against the optimizing engine's model.
pub fn return_optimize_result(check: Check, interp: Option<String>, bits: usize) -> (r: Option<
    Constant,
>)
    requires
        1 <= bits <= 0xffff_ffffusize,
    ensures
        check != Check::Sat ==> r is None,
        check == Check::Sat ==> match interp {
            Some(s) => if is_decimal(s@) && dec_value(s@) < pow2(bits as nat) {
                r matches Some(c) && c.inv() && c.bits == bits && c.value() == dec_value(s@)
            } else {
                r is None
            },
            None => r is None,
        },
{
    match check {
        Check::Sat => match interp {
            Some(s) => match Constant::from_decimal_string(s.as_str(), bits) {
                Ok(c) => Some(c),
                Err(_) => None,
            },
            None => None,
        },
        _ => None,
    }
}

/// What one entry of a multi-value answer must hold: the name carried
/// over, and the value parsed exactly when the verdict's read-back
/// denotes a value of the requested width; a missing or unusable
/// read-back degrades to no answer for that entry alone.
pub open spec fn multi_entry_ok(inp: (String, Option<String>, usize), outp: (
    String,
    Option<Constant>,
)) -> bool {
    outp.0@ == inp.0@ && match inp.1 {
        Some(s) => if is_decimal(s@) && dec_value(s@) < pow2(inp.2 as nat) {
            outp.1 matches Some(c) && c.inv() && c.bits == inp.2 && c.value() == dec_value(s@)
        } else {
            outp.1 is None
        },
        None => outp.1 is None,
    }
}

/// Turn a multi-value check's verdict and per-name decimal read-backs
/// into the final mapping; all entries come from the one model that
/// witnessed the verdict.
pub fn solve_multi_result(check: Check, interps: &Vec<(String, Option<String>, usize)>) -> (r:
    Option<Vec<(String, Option<Constant>)>>)
    requires
        forall|i: int| 0 <= i < interps@.len() ==> 1 <= (#[trigger] interps@[i]).2 <= 0xffff_ffffusize,
    ensures
        r is Some <==> check == Check::Sat,
        r matches Some(out) ==> out@.len() == interps@.len() && (forall|i: int|
            0 <= i < out@.len() ==> multi_entry_ok(interps@[i], #[trigger] out@[i])),
{
    match check {
        Check::Sat => {},
        _ => {
            return None;
        },
    }
    let n = interps.len();
    let mut out: Vec<(String, Option<Constant>)> = Vec::new();
    let mut i: usize = 0;
    while i < n
        invariant
            i <= n,
            n == interps@.len(),
            forall|k: int|
                0 <= k < interps@.len() ==> 1 <= (#[trigger] interps@[k]).2 <= 0xffff_ffffusize,
            out@.len() == i,
            forall|k: int| 0 <= k < i ==> multi_entry_ok(interps@[k], #[trigger] out@[k]),
        decreases n - i,
    {
        let entry = &interps[i];
        let name = String::from_str(entry.0.as_str());
        let value = match &entry.1 {
            Some(s) => match Constant::from_decimal_string(s.as_str(), entry.2) {
                Ok(c) => Some(c),
                Err(_) => None,
            },
            None => None,
        };
        out.push((name, value));
        i += 1;
    }
    Some(out)
}



/// Decide at run time whether an expression tree is fit for
/// translation: every constant well represented and every width
/// consistent. Callers outside verified code test this before
/// building a query.
pub fn check_expression(e: &Expression) -> (r: bool)
    ensures
        r == (expr_inv(*e) && expr_wf(e@)),
    decreases e,
{
    match e {
        Expression::Scalar(s) => 1 <= s.bits && s.bits <= 0xffff_ffff,
        Expression::Constant(c) => c.check(),
        Expression::Add(l, r) => check_expression(l) && check_expression(r) && l.bits() == r.bits(),
        Expression::Sub(l, r) => check_expression(l) && check_expression(r) && l.bits() == r.bits(),
        Expression::Mul(l, r) => check_expression(l) && check_expression(r) && l.bits() == r.bits(),
        Expression::Divu(l, r) => check_expression(l) && check_expression(r) && l.bits() == r.bits(),
        Expression::Modu(l, r) => check_expression(l) && check_expression(r) && l.bits() == r.bits(),
        Expression::Divs(l, r) => check_expression(l) && check_expression(r) && l.bits() == r.bits(),
        Expression::Mods(l, r) => check_expression(l) && check_expression(r) && l.bits() == r.bits(),
        Expression::And(l, r) => check_expression(l) && check_expression(r) && l.bits() == r.bits(),
        Expression::Or(l, r) => check_expression(l) && check_expression(r) && l.bits() == r.bits(),
        Expression::Xor(l, r) => check_expression(l) && check_expression(r) && l.bits() == r.bits(),
        Expression::Shl(l, r) => check_expression(l) && check_expression(r) && l.bits() == r.bits(),
        Expression::Shr(l, r) => check_expression(l) && check_expression(r) && l.bits() == r.bits(),
        Expression::Cmpeq(l, r) => check_expression(l) && check_expression(r) && l.bits() == r.bits(),
        Expression::Cmpneq(l, r) => check_expression(l) && check_expression(r) && l.bits() == r.bits(),
        Expression::Cmplts(l, r) => check_expression(l) && check_expression(r) && l.bits() == r.bits(),
        Expression::Cmpltu(l, r) => check_expression(l) && check_expression(r) && l.bits() == r.bits(),
        Expression::Zext(bits, src) => check_expression(src) && src.bits() < *bits
            && *bits <= 0xffff_ffff,
        Expression::Sext(bits, src) => check_expression(src) && src.bits() < *bits
            && *bits <= 0xffff_ffff,
        Expression::Trun(bits, src) => check_expression(src) && 1 <= *bits
            && *bits < src.bits(),
        Expression::Ite(c, t, f) => check_expression(c) && check_expression(t)
            && check_expression(f) && c.bits() == 1 && t.bits() == f.bits(),
    }
}

} // verus!
