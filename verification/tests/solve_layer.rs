use falcon_z3::{
    expr_const, expr_scalar, maximize_query, minimize_query, return_optimize_result,
    return_solver_result, solve_multi_query, solve_multi_result, solve_query, Ast, Check, Config,
    Context, Expression, Model, Solver,
};

#[test]
fn solve_query_binds_a_result_variable() {
    let (solver, var) = solve_query(&vec![], &expr_const(32, 32)).unwrap();
    assert_eq!(solver.asserted.len(), 1);
    match &var {
        Ast::Var { name, sort } => {
            assert_eq!(name, "SOLVER_RESULT");
            assert_eq!(sort.bits, 32);
        }
        other => panic!("expected a variable, got {:?}", other),
    }
    match &solver.asserted[0] {
        Ast::Eq(l, r) => {
            assert!(matches!(**l, Ast::Var { .. }));
            assert!(matches!(**r, Ast::Numeral { value: 32, .. }));
        }
        other => panic!("expected an equality, got {:?}", other),
    }
}

#[test]
fn constraints_are_asserted_as_one_bit_truths() {
    let c = Expression::cmpltu(expr_scalar("rdx", 64), expr_const(27, 64)).unwrap();
    let (solver, _) = solve_query(&vec![c], &expr_scalar("rdx", 64)).unwrap();
    assert_eq!(solver.asserted.len(), 2);
    match &solver.asserted[0] {
        Ast::Eq(l, r) => {
            assert!(matches!(**l, Ast::Numeral { value: 1, sort } if sort.bits == 1));
            assert!(matches!(**r, Ast::Ite(_, _, _)));
        }
        other => panic!("expected an equality, got {:?}", other),
    }
}

#[test]
fn il_test_maximize_query_shape() {
    let c = Expression::cmpltu(expr_scalar("rdx", 64), expr_const(27, 64)).unwrap();
    let (optimize, var) = maximize_query(&vec![c], &expr_scalar("rdx", 64)).unwrap();
    assert_eq!(optimize.asserted.len(), 2);
    assert_eq!(optimize.maximize_objectives.len(), 1);
    assert_eq!(optimize.minimize_objectives.len(), 0);
    assert!(matches!(&var, Ast::Var { name, sort } if name == "OPTIMIZE_RESULT" && sort.bits == 64));
    assert!(
        matches!(&optimize.maximize_objectives[0], Ast::Var { name, .. } if name == "OPTIMIZE_RESULT")
    );
}

#[test]
fn il_test_minimize_query_shape() {
    let c = Expression::cmpltu(expr_const(27, 64), expr_scalar("rdx", 64)).unwrap();
    let (optimize, _) = minimize_query(&vec![c], &expr_scalar("rdx", 64)).unwrap();
    assert_eq!(optimize.minimize_objectives.len(), 1);
    assert_eq!(optimize.maximize_objectives.len(), 0);
}

#[test]
fn no_answer_without_a_satisfiable_verdict() {
    assert!(return_solver_result(Check::Unsat, Some("5".to_string()), 32).is_none());
    assert!(return_solver_result(Check::Unknown, Some("5".to_string()), 32).is_none());
    assert!(return_solver_result(Check::Sat, None, 32).is_none());
    assert!(return_optimize_result(Check::Unsat, Some("5".to_string()), 32).is_none());
}

#[test]
fn satisfiable_read_back_parses_the_witness() {
    let c = return_solver_result(Check::Sat, Some("26".to_string()), 64).unwrap();
    assert_eq!(c.value_u64(), Some(26));
    assert_eq!(c.bits(), 64);
    let c = return_optimize_result(Check::Sat, Some("28".to_string()), 64).unwrap();
    assert_eq!(c.value_u64(), Some(28));
}

#[test]
fn wraparound_sum_reads_back_exactly() {
    let c = return_solver_result(Check::Sat, Some("4308992".to_string()), 32).unwrap();
    assert_eq!(c.value_u64(), Some(0x41c000));
}

#[test]
fn a_witness_is_never_fabricated() {
    assert!(return_solver_result(Check::Sat, Some("999".to_string()), 8).is_none());
    assert!(return_solver_result(Check::Sat, Some("x".to_string()), 8).is_none());
}

#[test]
fn multi_query_binds_each_name() {
    let values = vec![
        ("a".to_string(), expr_const(1, 32)),
        ("b".to_string(), expr_scalar("rbx", 64)),
    ];
    let (solver, vars) = solve_multi_query(&vec![], &values).unwrap();
    assert_eq!(solver.asserted.len(), 2);
    assert_eq!(vars.len(), 2);
    assert!(matches!(&vars[0], Ast::Var { name, sort } if name == "a" && sort.bits == 32));
    assert!(matches!(&vars[1], Ast::Var { name, sort } if name == "b" && sort.bits == 64));
}

#[test]
fn multi_result_is_one_consistent_read_back() {
    let interps = vec![
        ("a".to_string(), Some("1".to_string()), 32),
        ("b".to_string(), None, 64),
    ];
    assert!(solve_multi_result(Check::Unsat, &interps).is_none());
    assert!(solve_multi_result(Check::Unknown, &interps).is_none());
    let out = solve_multi_result(Check::Sat, &interps).unwrap();
    assert_eq!(out.len(), 2);
    assert_eq!(out[0].0, "a");
    assert_eq!(out[0].1.as_ref().unwrap().value_u64(), Some(1));
    assert_eq!(out[1].0, "b");
    assert!(out[1].1.is_none());
}

#[test]
fn model_exists_only_after_sat() {
    let ctx = Context::new(Config::new().enable_model());
    assert!(Model::new(&ctx, &Check::Unsat, vec![]).is_none());
    assert!(Model::new(&ctx, &Check::Unknown, vec![]).is_none());
    let bindings = vec![("rdx".to_string(), falcon_z3::const_(26, 64))];
    let model = Model::new(&ctx, &Check::Sat, bindings).unwrap();
    let sort = ctx.mk_bv_sort(64);
    let var = ctx.mk_var("rdx", &sort).unwrap();
    let c = model.get_const_interp(&var).unwrap();
    assert_eq!(c.value_u64(), Some(26));
    let missing = ctx.mk_var("rax", &sort).unwrap();
    assert!(model.get_const_interp(&missing).is_none());
    let numeral = ctx.mk_numeral(1, &sort).unwrap();
    assert!(model.get_const_interp(&numeral).is_none());
}

#[test]
fn verdicts_decode_from_the_backend_encoding() {
    assert_eq!(Check::from_lbool(-1), Check::Unsat);
    assert_eq!(Check::from_lbool(1), Check::Sat);
    assert_eq!(Check::from_lbool(0), Check::Unknown);
}

#[test]
fn solver_accumulates_assertions_in_order() {
    let ctx = Context::new(Config::new().enable_model());
    let mut solver = Solver::new(&ctx);
    let sort = ctx.mk_bv_sort(8);
    let one = ctx.mk_numeral(1, &sort).unwrap();
    let two = ctx.mk_numeral(2, &sort).unwrap();
    solver.assert_term(one);
    solver.assert_term(two);
    assert_eq!(solver.asserted.len(), 2);
    assert!(matches!(&solver.asserted[1], Ast::Numeral { value: 2, .. }));
}
