//! Bit-vector constraint solving over an intermediate-language
//! expression tree.
//!
//! Expressions over fixed-width bit-vectors are lowered into formula
//! terms, constraints are asserted against a query engine, and a
//! satisfying assignment is read back as width-tagged constants.

mod ast;
mod config;
mod constant;
mod context;
mod decimal;
mod error;
mod eval;
mod il;
mod model;
mod solve;
mod optimize;
mod solver;
mod sort;

pub use decimal::{
    char_digit, char_to_digit, dec_of, dec_value, digit_char, is_decimal, lemma_dec_of_correct,
    lemma_dec_value_prefix, to_decimal_string,
};
pub use constant::{le_value, lemma_le_value_bound, Constant};
pub use ast::{ast_view, sort_of, Ast, AstV};
pub use config::Config;
pub use context::{has_nul, Context};
pub use error::Error;
pub use eval::{
    bit_and, bit_or, bit_xor, expr_eval, lemma_add_chain_wraps, lemma_add_wraps_concretely,
    lemma_expr_eval_bound, lemma_zext_trun_round_trip, mag, mod_w, signed, tdiv, trem,
};
pub use model::{model_lookup, Model};
pub use solve::{
    binding_term, binding_terms, byte_width, check_expression, constraint_term, constraint_terms, expr_inv,
    expr_no_nul, expression_to_ast, lemma_expr_bits_bound, lemma_lower_sort, lower, lower_bytes,
    maximize_query, minimize_query, multi_entry_ok, nbytes, nth_byte, return_optimize_result,
    return_solver_result, solve_multi_query, solve_multi_result, solve_query, solver_init,
    optimize_init, SolverResult,
};
pub use optimize::Optimize;
pub use solver::{terms, Check, Solver};
pub use sort::{Sort, TermSort};
pub use il::{
    const_, expr_bits, expr_const, expr_scalar, expr_view, expr_wf, scalar, Expression, ExprV,
    Scalar,
};

use vstd::prelude::*;

verus! {

} // verus!
