use rgep::ops::{
    Arith, Variables, add_expr, mult_expr, const_expr, var_expr, symbol_sym,
};
use rgep::symbols::Symbol;
use rgep::types::Ind;
use rgep::rgep::context::Context;

fn add(l: Arith, r: Arith) -> Arith {
    Arith::Add(Box::new(l), Box::new(r))
}

fn mult(l: Arith, r: Arith) -> Arith {
    Arith::Mult(Box::new(l), Box::new(r))
}

fn div(l: Arith, r: Arith) -> Arith {
    Arith::Div(Box::new(l), Box::new(r))
}

#[test]
fn arith_eval_uses_bindings() {
    let mut vars = Variables::new();
    vars.insert(0, 5);
    let e = add(Arith::Var(0), Arith::Const(2));
    assert_eq!(e.eval(&vars), 7);

    // a later binding shadows an earlier one
    vars.insert(0, 10);
    assert_eq!(e.eval(&vars), 12);

    // division by zero evaluates to a defined zero
    let d = div(Arith::Const(9), Arith::Const(0));
    assert_eq!(d.eval(&vars), 0);
}

#[test]
fn arith_classifiers() {
    let leaf = Arith::Const(4);
    let var = Arith::Var(1);
    let node = add(Arith::Const(1), Arith::Const(2));
    assert!(leaf.is_leaf() && var.is_leaf() && !node.is_leaf());
    assert!(node.is_node() && !leaf.is_node());
    assert!(leaf.is_const() && !var.is_const() && !node.is_const());
    assert!(leaf.is_constant(4) && !leaf.is_constant(5) && !var.is_constant(4));
}

#[test]
fn simplify_folds_and_prunes() {
    // (x0 + 0) * 1 simplifies to x0
    let e = mult(add(Arith::Var(0), Arith::Const(0)), Arith::Const(1));
    assert_eq!(e.simplify(), Arith::Var(0));

    // constants fold
    let c = add(Arith::Const(2), Arith::Const(3));
    assert_eq!(c.simplify(), Arith::Const(5));

    // multiplication by a zero constant collapses
    let z = mult(Arith::Var(1), Arith::Const(0));
    assert_eq!(z.simplify(), Arith::Const(0));

    // simplification preserves the value under bindings
    let mut vars = Variables::new();
    vars.insert(0, 11);
    vars.insert(1, 3);
    let mixed = add(mult(Arith::Var(0), Arith::Const(1)), div(Arith::Var(1), Arith::Const(0)));
    assert_eq!(mixed.simplify().eval(&vars), mixed.eval(&vars));
}

#[test]
fn infix_rendering() {
    let e = add(Arith::Var(0), mult(Arith::Const(12), Arith::Var(3)));
    assert_eq!(e.to_string_infix(), "(x0+(12*x3))");
    assert_eq!(Arith::Const(907).to_string_infix(), "907");
}

// The expression instructions build trees on the stack.
#[test]
fn expression_context_builds_trees() {
    let context: Context<rgep::ops::ArithSym> = Context {
        terminals: vec![const_expr(1), var_expr(0)],
        functions: vec![add_expr(), mult_expr()],
        default: Arith::Const(0),
    };
    // codes: 0 -> const 1, 2 -> var x0, 1 -> add
    let ind = Ind(vec![0, 2, 1]);
    let mut vars = Variables::new();
    let tree = context.eval(&ind, &mut vars);
    // add pops the variable (top) first, then the constant
    assert_eq!(tree, Arith::Add(Box::new(Arith::Var(0)), Box::new(Arith::Const(1))));

    // an empty genome yields the context's default value
    let none = context.eval(&Ind(vec![]), &mut vars);
    assert_eq!(none, Arith::Const(0));
}

#[test]
fn binding_symbol_pushes_bound_value() {
    let sym = symbol_sym(2);
    let mut vars: Variables<u32> = Variables::new();
    vars.insert(2, 77);
    let mut stack: Vec<u32> = Vec::new();
    sym.apply(&mut stack, &mut vars);
    assert_eq!(stack, vec![77]);

    // an unbound variable pushes zero instead of failing
    let unbound = symbol_sym(9);
    unbound.apply(&mut stack, &mut vars);
    assert_eq!(stack, vec![77, 0]);
    assert_eq!(sym.name(), "x2");
}

#[test]
fn variables_get_and_insert() {
    let mut vars: Variables<u32> = Variables::new();
    assert!(vars.get(4).is_none());
    vars.insert(4, 44);
    vars.insert(9, 99);
    assert_eq!(vars.get(4), Some(&44));
    assert_eq!(vars.get(9), Some(&99));
    assert!(vars.get(1).is_none());
}
