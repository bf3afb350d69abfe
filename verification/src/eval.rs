use vstd::prelude::*;

verus! {

use crate::il::{expr_bits, ExprV};
use vstd::arithmetic::div_mod::{
    lemma_add_mod_noop, lemma_fundamental_div_mod, lemma_small_mod,
};
use vstd::arithmetic::power2::{lemma2_to64, lemma_pow2_pos, lemma_pow2_strictly_increases, pow2};

/// Reduce an integer into the value range of the given width.
pub open spec fn mod_w(x: int, w: nat) -> nat {
    (x % (pow2(w) as int)) as nat
}

/// The two's-complement reading of a value at the given width.
pub open spec fn signed(x: nat, w: nat) -> int {
    if x % pow2(w) < pow2((w - 1) as nat) {
        (x % pow2(w)) as int
    } else {
        x % pow2(w) - pow2(w)
    }
}

/// The magnitude of an integer.
pub open spec fn mag(x: int) -> int {
    if x < 0 {
        -x
    } else {
        x
    }
}

/// Truncating signed division: the quotient rounds toward zero.
pub open spec fn tdiv(x: int, y: int) -> int {
    if (x < 0) == (y < 0) {
        mag(x) / mag(y)
    } else {
        -(mag(x) / mag(y))
    }
}

/// Truncating signed remainder: it carries the dividend's sign.
pub open spec fn trem(x: int, y: int) -> int {
    if x < 0 {
        -(mag(x) % mag(y))
    } else {
        mag(x) % mag(y)
    }
}

/// Bitwise conjunction of unsigned values.
pub open spec fn bit_and(a: nat, b: nat) -> nat
    decreases a,
{
    if a == 0 {
        0
    } else {
        (2 * bit_and(a / 2, b / 2) + (a % 2) * (b % 2)) as nat
    }
}

/// Bitwise disjunction of unsigned values.
pub open spec fn bit_or(a: nat, b: nat) -> nat
    decreases a + b,
{
    if a == 0 && b == 0 {
        0
    } else {
        (2 * bit_or(a / 2, b / 2) + if a % 2 == 1 || b % 2 == 1 {
            1nat
        } else {
            0nat
        }) as nat
    }
}

/// Bitwise exclusive disjunction of unsigned values.
pub open spec fn bit_xor(a: nat, b: nat) -> nat
    decreases a + b,
{
    if a == 0 && b == 0 {
        0
    } else {
        (2 * bit_xor(a / 2, b / 2) + if (a % 2 == 1) != (b % 2 == 1) {
            1nat
        } else {
            0nat
        }) as nat
    }
}

/// The value an expression denotes under an assignment of scalar names
/// to values, each taken modulo its width. Unsigned operators follow
/// plain modular arithmetic; division and remainder by zero follow the
/// backend's bit-vector convention (all ones, and the dividend);
/// signed operators read their operands in two's complement; shifts
/// scale by a power of two; comparisons yield a one-bit value; and
/// extensions, truncation and the conditional reshape widths.
pub open spec fn expr_eval(e: ExprV, env: Map<Seq<char>, nat>) -> nat
    decreases e,
{
    match e {
        ExprV::Scalar(name, w) => mod_w(
            if env.dom().contains(name) {
                env[name] as int
            } else {
                0
            },
            w,
        ),
        ExprV::Constant(v, w) => mod_w(v as int, w),
        ExprV::Add(l, r) => mod_w(
            expr_eval(*l, env) + expr_eval(*r, env) as int,
            expr_bits(*l),
        ),
        ExprV::Sub(l, r) => mod_w(
            expr_eval(*l, env) - expr_eval(*r, env),
            expr_bits(*l),
        ),
        ExprV::Mul(l, r) => mod_w(
            expr_eval(*l, env) as int * expr_eval(*r, env) as int,
            expr_bits(*l),
        ),
        ExprV::Divu(l, r) => mod_w(
            if expr_eval(*r, env) == 0 {
                pow2(expr_bits(*l)) - 1
            } else {
                expr_eval(*l, env) as int / expr_eval(*r, env) as int
            },
            expr_bits(*l),
        ),
        ExprV::Modu(l, r) => mod_w(
            if expr_eval(*r, env) == 0 {
                expr_eval(*l, env) as int
            } else {
                expr_eval(*l, env) as int % expr_eval(*r, env) as int
            },
            expr_bits(*l),
        ),
        ExprV::Divs(l, r) => mod_w(
            if expr_eval(*r, env) == 0 {
                if signed(expr_eval(*l, env), expr_bits(*l)) < 0 {
                    1
                } else {
                    -1
                }
            } else {
                tdiv(
                    signed(expr_eval(*l, env), expr_bits(*l)),
                    signed(expr_eval(*r, env), expr_bits(*l)),
                )
            },
            expr_bits(*l),
        ),
        ExprV::Mods(l, r) => mod_w(
            if expr_eval(*r, env) == 0 {
                expr_eval(*l, env) as int
            } else {
                trem(
                    signed(expr_eval(*l, env), expr_bits(*l)),
                    signed(expr_eval(*r, env), expr_bits(*l)),
                )
            },
            expr_bits(*l),
        ),
        ExprV::And(l, r) => mod_w(
            bit_and(expr_eval(*l, env), expr_eval(*r, env)) as int,
            expr_bits(*l),
        ),
        ExprV::Or(l, r) => mod_w(
            bit_or(expr_eval(*l, env), expr_eval(*r, env)) as int,
            expr_bits(*l),
        ),
        ExprV::Xor(l, r) => mod_w(
            bit_xor(expr_eval(*l, env), expr_eval(*r, env)) as int,
            expr_bits(*l),
        ),
        ExprV::Shl(l, r) => mod_w(
            expr_eval(*l, env) as int * pow2(expr_eval(*r, env)) as int,
            expr_bits(*l),
        ),
        ExprV::Shr(l, r) => mod_w(
            expr_eval(*l, env) as int / pow2(expr_eval(*r, env)) as int,
            expr_bits(*l),
        ),
        ExprV::Cmpeq(l, r) => mod_w(
            if expr_eval(*l, env) == expr_eval(*r, env) {
                1
            } else {
                0
            },
            1,
        ),
        ExprV::Cmpneq(l, r) => mod_w(
            if expr_eval(*l, env) == expr_eval(*r, env) {
                0
            } else {
                1
            },
            1,
        ),
        ExprV::Cmplts(l, r) => mod_w(
            if signed(expr_eval(*l, env), expr_bits(*l)) < signed(
                expr_eval(*r, env),
                expr_bits(*l),
            ) {
                1
            } else {
                0
            },
            1,
        ),
        ExprV::Cmpltu(l, r) => mod_w(
            if expr_eval(*l, env) < expr_eval(*r, env) {
                1
            } else {
                0
            },
            1,
        ),
        ExprV::Zext(w, src) => mod_w(expr_eval(*src, env) as int, w),
        ExprV::Sext(w, src) => mod_w(signed(expr_eval(*src, env), expr_bits(*src)), w),
        ExprV::Trun(w, src) => mod_w(expr_eval(*src, env) as int, w),
        ExprV::Ite(c, t, f) => mod_w(
            if expr_eval(*c, env) == 1 {
                expr_eval(*t, env) as int
            } else {
                expr_eval(*f, env) as int
            },
            expr_bits(*t),
        ),
    }
}

/// Every expression evaluates into the value range of its width.
pub proof fn lemma_expr_eval_bound(e: ExprV, env: Map<Seq<char>, nat>)
    ensures
        expr_eval(e, env) < pow2(expr_bits(e)),
{
    lemma_pow2_pos(expr_bits(e));
    match e {
        ExprV::Scalar(_, w) => {
            lemma_pow2_pos(w);
        },
        ExprV::Constant(_, w) => {
            lemma_pow2_pos(w);
        },
        _ => {},
    }
}

/// Adding in any grouping wraps as one sum: nesting additions of one
/// width equals the natural sum modulo two to the width.
pub proof fn lemma_add_chain_wraps(a: nat, b: nat, c: nat, w: nat, env: Map<Seq<char>, nat>)
    requires
        1 <= w,
        a < pow2(w),
        b < pow2(w),
        c < pow2(w),
    ensures
        expr_eval(
            ExprV::Add(
                Box::new(ExprV::Add(
                    Box::new(ExprV::Constant(a, w)),
                    Box::new(ExprV::Constant(b, w)),
                )),
                Box::new(ExprV::Constant(c, w)),
            ),
            env,
        ) == (a as int + b as int + c as int) % (pow2(w) as int),
{
    let p = pow2(w) as int;
    lemma_pow2_pos(w);
    lemma_small_mod(a, pow2(w));
    lemma_small_mod(b, pow2(w));
    lemma_small_mod(c, pow2(w));
    let inner = ExprV::Add(Box::new(ExprV::Constant(a, w)), Box::new(ExprV::Constant(b, w)));
    assert(expr_eval(ExprV::Constant(a, w), env) == a);
    assert(expr_eval(ExprV::Constant(b, w), env) == b);
    assert(expr_eval(ExprV::Constant(c, w), env) == c);
    assert(expr_eval(inner, env) == mod_w(a as int + b as int, w));
    lemma_add_mod_noop(a as int + b as int, c as int, p);
    assert(((a as int + b as int) % p + (c as int) % p) % p == (a as int + b as int + c as int) % p);
}

/// Zero-extending and then truncating back to the original width is
/// the identity: the round trip returns the value itself.
pub proof fn lemma_zext_trun_round_trip(e: ExprV, w: nat, w2: nat, env: Map<Seq<char>, nat>)
    requires
        expr_bits(e) == w,
        1 <= w < w2,
    ensures
        expr_eval(ExprV::Trun(w, Box::new(ExprV::Zext(w2, Box::new(e)))), env) == expr_eval(
            e,
            env,
        ),
{
    lemma_expr_eval_bound(e, env);
    lemma_pow2_pos(w);
    lemma_pow2_pos(w2);
    lemma_pow2_strictly_increases(w, w2);
    let v = expr_eval(e, env);
    lemma_small_mod(v, pow2(w2));
    assert(expr_eval(ExprV::Zext(w2, Box::new(e)), env) == v);
    lemma_small_mod(v, pow2(w));
}

/// Adding the constants four-million-three-hundred-twenty-five-
/// thousand-three-hundred-seventy-six and the thirty-two-bit
/// complementary constant wraps to the documented thirty-two-bit sum.
pub proof fn lemma_add_wraps_concretely(env: Map<Seq<char>, nat>)
    ensures
        expr_eval(
            ExprV::Add(
                Box::new(ExprV::Constant(0x420000, 32)),
                Box::new(ExprV::Constant(0xffffc000, 32)),
            ),
            env,
        ) == 0x41c000,
{
    lemma2_to64();
    lemma_pow2_pos(32);
    lemma_small_mod(0x420000, pow2(32));
    lemma_small_mod(0xffffc000, pow2(32));
    assert(expr_eval(ExprV::Constant(0x420000, 32), env) == 0x420000);
    assert(expr_eval(ExprV::Constant(0xffffc000, 32), env) == 0xffffc000);
    assert((0x420000int + 0xffffc000int) % (pow2(32) as int) == 0x41c000int);
}

} // verus!
