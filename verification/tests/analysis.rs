use std::rc::Rc;

use sasso::analysis::{
    body_uses_content, collect_global_var_decls, expr_has_non_calc_op, expr_has_substitution,
    media_query_has_interp, validate_declarations,
};
use sasso::ast::{
    BinOp, CallArg, Callable, Expr, MediaFeature, MediaInParens, MediaQuery, ParamList, PropertySet,
    Stmt, Stylesheet, TplPiece, UnOp, VarDecl,
};
use sasso::error::Pos;

const HERE: Pos = Pos { line: 1, col: 1 };

fn lit(s: &str) -> Vec<TplPiece> {
    vec![TplPiece::Lit(s.to_string())]
}

fn word(s: &str) -> Expr {
    Expr::Ident(lit(s))
}

fn interp() -> Vec<TplPiece> {
    vec![TplPiece::Interp(word("x"))]
}

fn property_set(body: Vec<Stmt>) -> Stmt {
    Stmt::PropertySet(PropertySet {
        property: lit("font"),
        value: None,
        important: false,
        body,
        pos: HERE,
    })
}

fn at_rule(body: Option<Vec<Stmt>>) -> Stmt {
    Stmt::InterpAtRule { name: interp(), prelude: lit(""), body }
}

fn mixin(body: Vec<Stmt>) -> Stmt {
    let params = ParamList { params: vec![], rest: None };
    Stmt::MixinDef(Rc::new(Callable { name: "m".to_string(), params, body }))
}

#[test]
fn content_is_found_in_every_block() {
    assert!(body_uses_content(&vec![Stmt::Content(vec![])]));
    assert!(body_uses_content(&vec![at_rule(Some(vec![Stmt::Content(vec![])]))]));
    assert!(body_uses_content(&vec![property_set(vec![Stmt::Content(vec![])])]));
    assert!(!body_uses_content(&vec![at_rule(None), property_set(vec![])]));
}

#[test]
fn declarations_are_checked_in_every_block() {
    let sheet = |stmts: Vec<Stmt>| Stylesheet { stmts };
    assert!(validate_declarations(&sheet(vec![at_rule(Some(vec![mixin(vec![])]))])).is_ok());
    let inner = at_rule(Some(vec![mixin(vec![])]));
    let e = validate_declarations(&sheet(vec![mixin(vec![inner])])).unwrap_err();
    assert_eq!(e.message, "Mixins may not contain mixin declarations.");
    let inner = property_set(vec![mixin(vec![])]);
    assert!(validate_declarations(&sheet(vec![mixin(vec![inner])])).is_err());
}

#[test]
fn global_declarations_of_nested_blocks() {
    let global = |name: &str| {
        Stmt::VarDecl(VarDecl {
            name: name.to_string(),
            value: word("v"),
            is_default: false,
            is_global: true,
            namespace: None,
        })
    };
    let stmts = vec![at_rule(Some(vec![global("a")])), property_set(vec![global("b")])];
    assert_eq!(collect_global_var_decls(&stmts), vec!["a", "b"]);
}

#[test]
fn substitutions_may_carry_a_vendor_prefix() {
    assert!(expr_has_substitution(&word(" VAR(--c)")));
    assert!(expr_has_substitution(&word("-moz-env(x)")));
    assert!(!expr_has_substitution(&word("--var(x)")));
    assert!(!expr_has_substitution(&word("-var(x)")));
    assert!(!expr_has_substitution(&word("-f(a-var(x))")));
    assert!(!expr_has_substitution(&word("variable")));
}

#[test]
fn boolean_logic_is_no_calculation() {
    let unary = |op: UnOp| Expr::Unary { op, operand: Box::new(word("a")) };
    assert!(expr_has_non_calc_op(&unary(UnOp::Not)));
    assert!(!expr_has_non_calc_op(&unary(UnOp::Neg)));
    let both = |op: BinOp| Expr::Binary {
        op,
        lhs: Box::new(word("a")),
        rhs: Box::new(word("b")),
        pos: HERE,
    };
    assert!(expr_has_non_calc_op(&both(BinOp::And)));
    assert!(!expr_has_non_calc_op(&both(BinOp::Add)));
}

#[test]
fn interpolation_anywhere_in_a_media_query() {
    let screen = |modifier: Option<Vec<TplPiece>>| MediaQuery::Type {
        modifier,
        mtype: lit("screen"),
        conditions: vec![],
    };
    assert!(!media_query_has_interp(&screen(None)));
    assert!(!media_query_has_interp(&screen(Some(lit("not")))));
    assert!(media_query_has_interp(&screen(Some(interp()))));
    let feature = |value: Expr| MediaQuery::Type {
        modifier: None,
        mtype: lit("screen"),
        conditions: vec![MediaInParens::Feature(Box::new(MediaFeature::Decl {
            name: word("width"),
            value: Some(value),
        }))],
    };
    let call = |value: Expr| Expr::Func {
        name: "f".to_string(),
        args: vec![CallArg { name: None, value, splat: false }],
        pos: HERE,
        length: 1,
        module: None,
    };
    assert!(!media_query_has_interp(&feature(call(word("a")))));
    assert!(media_query_has_interp(&feature(call(Expr::Ident(interp())))));
    assert!(media_query_has_interp(&feature(Expr::Calc { inner: Box::new(Expr::Ident(interp())) })));
}
