use falcon_z3::{
    expr_const, expr_scalar, expression_to_ast, Ast, Config, Context, Error, Expression,
};

fn context() -> Context {
    Context::new(Config::new().enable_model())
}

#[test]
fn scalar_lowers_to_variable() {
    let ctx = context();
    let a = expression_to_ast(&ctx, &expr_scalar("rdx", 64)).unwrap();
    match a {
        Ast::Var { name, sort } => {
            assert_eq!(name, "rdx");
            assert_eq!(sort.bits, 64);
        }
        other => panic!("expected a variable, got {:?}", other),
    }
}

#[test]
fn small_constant_lowers_to_numeral() {
    let ctx = context();
    let a = expression_to_ast(&ctx, &expr_const(0x1000, 32)).unwrap();
    match a {
        Ast::Numeral { value, sort } => {
            assert_eq!(value, 0x1000);
            assert_eq!(sort.bits, 32);
        }
        other => panic!("expected a numeral, got {:?}", other),
    }
}

#[test]
fn addition_lowers_to_bvadd() {
    let ctx = context();
    let e = Expression::add(expr_const(0x420000, 32), expr_const(0xffffc000, 32)).unwrap();
    let a = expression_to_ast(&ctx, &e).unwrap();
    match a {
        Ast::Bvadd(l, r) => {
            assert!(matches!(*l, Ast::Numeral { value: 0x420000, .. }));
            assert!(matches!(*r, Ast::Numeral { value: 0xffffc000, .. }));
        }
        other => panic!("expected an addition, got {:?}", other),
    }
}

#[test]
fn unsigned_comparison_lowers_to_one_bit_conditional() {
    let ctx = context();
    let e = Expression::cmpltu(expr_scalar("rdx", 64), expr_const(27, 64)).unwrap();
    let a = expression_to_ast(&ctx, &e).unwrap();
    match a {
        Ast::Ite(cond, then, els) => {
            assert!(matches!(*cond, Ast::Bvult(_, _)));
            assert!(matches!(*then, Ast::Numeral { value: 1, sort } if sort.bits == 1));
            assert!(matches!(*els, Ast::Numeral { value: 0, sort } if sort.bits == 1));
        }
        other => panic!("expected a conditional, got {:?}", other),
    }
}

#[test]
fn truncation_lowers_to_extract() {
    let ctx = context();
    let e = Expression::trun(32, expr_scalar("rax", 64)).unwrap();
    let a = expression_to_ast(&ctx, &e).unwrap();
    assert!(matches!(a, Ast::Extract(31, 0, _)));
}

#[test]
fn zero_extension_lowers_to_extra_bits() {
    let ctx = context();
    let e = Expression::zext(64, expr_scalar("eax", 32)).unwrap();
    let a = expression_to_ast(&ctx, &e).unwrap();
    assert!(matches!(a, Ast::ZeroExt(32, _)));
}

#[test]
fn wide_constant_lowers_byte_by_byte() {
    let ctx = context();
    let c = falcon_z3::Constant::from_decimal_string("18446744073709551616", 72).unwrap();
    let a = expression_to_ast(&ctx, &Expression::constant(c)).unwrap();
    let mut depth = 0;
    let mut cur = &a;
    while let Ast::Concat(hi, lo) = cur {
        assert!(matches!(**hi, Ast::Numeral { .. }));
        depth += 1;
        cur = lo;
    }
    assert!(matches!(*cur, Ast::Numeral { sort, .. } if sort.bits == 8));
    assert_eq!(depth, 8);
}

#[test]
fn names_with_embedded_terminator_are_refused() {
    let ctx = context();
    let e = expression_to_ast(&ctx, &expr_scalar("a\0b", 8));
    assert_eq!(e.unwrap_err(), Error::InvalidName);
    let sort = ctx.mk_bv_sort(8);
    assert_eq!(ctx.mk_var("a\0", &sort).unwrap_err(), Error::InvalidName);
    assert!(ctx.mk_var("ok", &sort).is_ok());
}

#[test]
fn numeral_terms_render_their_decimal_value() {
    let ctx = context();
    let sort = ctx.mk_bv_sort(64);
    let n = ctx.mk_numeral(26, &sort).unwrap();
    assert_eq!(n.get_numeral_decimal_string(&ctx), Some("26".to_string()));
    assert_eq!(n.to_string(&ctx), Some("26".to_string()));
    let v = ctx.mk_var("rdx", &sort).unwrap();
    assert_eq!(v.get_numeral_decimal_string(&ctx), None);
    assert_eq!(v.to_string(&ctx), Some("rdx".to_string()));
}
