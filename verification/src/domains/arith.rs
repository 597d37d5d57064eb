use vstd::prelude::*;
use vstd::string::StringExecFns;
use crate::symbols::{Symbol, Arity};
use crate::numerals::{dec_digits, u32_to_string};
use crate::domains::generic::{WordSym, BinOp, make_const, make_binary};

verus! {

// The expression domain: instead of computing values directly, its
// instructions build arithmetic expression trees, which can later be
// evaluated against variable bindings, simplified algebraically, and
// printed in infix form — an analysis aid over the best individual found.

/// Variable bindings: an insert-ordered map from variable id to value,
/// where the most recent binding wins.
pub struct Variables<V> {
    pub entries: Vec<(u32, V)>,
}

/// The most recent binding of `name`, if any.
pub open spec fn lookup_spec<V>(entries: Seq<(u32, V)>, name: u32) -> Option<V>
    decreases entries.len(),
{
    if entries.len() == 0 {
        Option::None
    } else if entries[0].0 == name {
        Option::Some(entries[0].1)
    } else {
        lookup_spec(entries.skip(1), name)
    }
}

impl<V> Variables<V> {
    pub open spec fn spec_get(&self, name: u32) -> Option<V> {
        lookup_spec(self.entries@, name)
    }

    pub fn new() -> (r: Self)
        ensures
            r.entries@.len() == 0,
    {
        Variables { entries: Vec::new() }
    }

    /// The value bound to `name`, if any.
    pub fn get(&self, name: u32) -> (r: Option<&V>)
        ensures
            match r {
                Option::Some(v) => self.spec_get(name) == Option::Some(*v),
                Option::None => self.spec_get(name) is None,
            },
    {
        let ghost es = self.entries@;
        proof {
            assert(es.skip(0) =~= es);
        }
        let mut t: usize = 0;
        while t < self.entries.len()
            invariant
                t <= es.len(),
                es == self.entries@,
                lookup_spec(es, name) == lookup_spec(es.skip(t as int), name),
            decreases es.len() - t,
        {
            proof {
                assert(es.skip(t as int).skip(1) =~= es.skip(t as int + 1));
                assert(es.skip(t as int)[0] == es[t as int]);
            }
            if self.entries[t].0 == name {
                return Option::Some(&self.entries[t].1);
            }
            t = t + 1;
        }
        proof {
            assert(es.skip(es.len() as int) =~= Seq::<(u32, V)>::empty());
        }
        Option::None
    }

    /// Bind `name` to `value`, shadowing any earlier binding.
    pub fn insert(&mut self, name: u32, value: V)
        ensures
            final(self).spec_get(name) == Option::Some(value),
            forall|n2: u32| n2 != name ==> final(self).spec_get(n2) == old(self).spec_get(n2),
    {
        self.entries.insert(0, (name, value));
        proof {
            assert(self.entries@[0] == (name, value));
            assert(self.entries@.skip(1) =~= old(self).entries@);
        }
    }
}

/// An arithmetic expression over word values and numbered variables.
#[derive(Debug, PartialEq, Eq)]
pub enum Arith {
    Add(Box<Arith>, Box<Arith>),
    Sub(Box<Arith>, Box<Arith>),
    Mult(Box<Arith>, Box<Arith>),
    Div(Box<Arith>, Box<Arith>),
    Const(u32),
    Var(u32),
}

/// Every variable the expression mentions is bound.
pub open spec fn arith_vars_ok(e: Arith, vars: Seq<(u32, u32)>) -> bool
    decreases e,
{
    match e {
        Arith::Add(l, r) => arith_vars_ok(*l, vars) && arith_vars_ok(*r, vars),
        Arith::Sub(l, r) => arith_vars_ok(*l, vars) && arith_vars_ok(*r, vars),
        Arith::Mult(l, r) => arith_vars_ok(*l, vars) && arith_vars_ok(*r, vars),
        Arith::Div(l, r) => arith_vars_ok(*l, vars) && arith_vars_ok(*r, vars),
        Arith::Const(_) => true,
        Arith::Var(id) => lookup_spec(vars, id) is Some,
    }
}

/// The expression's value under the given bindings; arithmetic wraps, and
/// division by zero is defined as zero.
pub open spec fn arith_eval(e: Arith, vars: Seq<(u32, u32)>) -> u32
    decreases e,
{
    match e {
        Arith::Add(l, r) => vstd::wrapping::u32_specs::wrapping_add(
            arith_eval(*l, vars),
            arith_eval(*r, vars),
        ),
        Arith::Sub(l, r) => vstd::wrapping::u32_specs::wrapping_sub(
            arith_eval(*l, vars),
            arith_eval(*r, vars),
        ),
        Arith::Mult(l, r) => vstd::wrapping::u32_specs::wrapping_mul(
            arith_eval(*l, vars),
            arith_eval(*r, vars),
        ),
        Arith::Div(l, r) => {
            let denom = arith_eval(*r, vars);
            if denom == 0 {
                0u32
            } else {
                ((arith_eval(*l, vars) as int) / (denom as int)) as u32
            }
        },
        Arith::Const(c) => c,
        Arith::Var(id) => match lookup_spec(vars, id) {
            Option::Some(v) => v,
            Option::None => 0u32,
        },
    }
}

/// The expression rendered in fully parenthesized infix form.
pub open spec fn infix_spec(e: Arith) -> Seq<char>
    decreases e,
{
    match e {
        Arith::Add(l, r) => seq!['('] + infix_spec(*l) + seq!['+'] + infix_spec(*r) + seq![')'],
        Arith::Sub(l, r) => seq!['('] + infix_spec(*l) + seq!['-'] + infix_spec(*r) + seq![')'],
        Arith::Mult(l, r) => seq!['('] + infix_spec(*l) + seq!['*'] + infix_spec(*r) + seq![')'],
        Arith::Div(l, r) => seq!['('] + infix_spec(*l) + seq!['/'] + infix_spec(*r) + seq![')'],
        Arith::Const(c) => dec_digits(c as nat),
        Arith::Var(id) => seq!['x'] + dec_digits(id as nat),
    }
}

/// An exact duplicate of an expression tree.
pub fn arith_copy(e: &Arith) -> (r: Arith)
    ensures
        r == *e,
    decreases *e,
{
    match e {
        Arith::Add(l, r) => Arith::Add(Box::new(arith_copy(l)), Box::new(arith_copy(r))),
        Arith::Sub(l, r) => Arith::Sub(Box::new(arith_copy(l)), Box::new(arith_copy(r))),
        Arith::Mult(l, r) => Arith::Mult(Box::new(arith_copy(l)), Box::new(arith_copy(r))),
        Arith::Div(l, r) => Arith::Div(Box::new(arith_copy(l)), Box::new(arith_copy(r))),
        Arith::Const(c) => Arith::Const(*c),
        Arith::Var(id) => Arith::Var(*id),
    }
}

/// The simplified form changes no outcome: under any bindings that cover
/// the original expression, both evaluate to the same value.
pub open spec fn simplifies_to(orig: Arith, r: Arith) -> bool {
    forall|vars: Seq<(u32, u32)>|
        arith_vars_ok(orig, vars) ==> #[trigger] arith_vars_ok(r, vars) && arith_eval(r, vars)
            == arith_eval(orig, vars)
}

/// A fully simplified expression: nowhere in the tree an operator node
/// with two constant children, an additive zero operand, a multiplicative
/// zero or one operand, or a constant-zero divisor.
pub open spec fn simplified(e: Arith) -> bool
    decreases e,
{
    match e {
        Arith::Add(l, r) => simplified(*l) && simplified(*r) && !((*l) is Const && (*r) is Const)
            && *l != Arith::Const(0) && *r != Arith::Const(0),
        Arith::Sub(l, r) => simplified(*l) && simplified(*r) && !((*l) is Const && (*r) is Const),
        Arith::Mult(l, r) => simplified(*l) && simplified(*r) && !((*l) is Const
            && (*r) is Const) && *l != Arith::Const(0) && *r != Arith::Const(0) && *l
            != Arith::Const(1) && *r != Arith::Const(1),
        Arith::Div(l, r) => simplified(*l) && simplified(*r) && !((*l) is Const && (*r) is Const)
            && *r != Arith::Const(0),
        Arith::Const(_) => true,
        Arith::Var(_) => true,
    }
}

impl Arith {
    /// Evaluate under bindings that cover every variable mentioned.
    pub fn eval(&self, context: &Variables<u32>) -> (r: u32)
        requires
            arith_vars_ok(*self, context.entries@),
        ensures
            r == arith_eval(*self, context.entries@),
        decreases *self,
    {
        match self {
            Arith::Add(exp1, exp2) => {
                let a = exp1.eval(context);
                let b = exp2.eval(context);
                a.wrapping_add(b)
            },
            Arith::Sub(exp1, exp2) => {
                let a = exp1.eval(context);
                let b = exp2.eval(context);
                a.wrapping_sub(b)
            },
            Arith::Mult(exp1, exp2) => {
                let a = exp1.eval(context);
                let b = exp2.eval(context);
                a.wrapping_mul(b)
            },
            Arith::Div(exp1, exp2) => {
                let denom = exp2.eval(context);
                if denom == 0 {
                    0
                } else {
                    exp1.eval(context) / denom
                }
            },
            Arith::Const(constant) => *constant,
            Arith::Var(id) => {
                match context.get(*id) {
                    Option::Some(v) => *v,
                    Option::None => 0,
                }
            },
        }
    }

    /// A constant or a variable.
    pub fn is_leaf(&self) -> (r: bool)
        ensures
            r == (self is Const || self is Var),
    {
        match self {
            Arith::Const(_) => true,
            Arith::Var(_) => true,
            _ => false,
        }
    }

    /// An operator node.
    pub fn is_node(&self) -> (r: bool)
        ensures
            r == !(self is Const || self is Var),
    {
        !self.is_leaf()
    }

    /// A constant leaf.
    pub fn is_const(&self) -> (r: bool)
        ensures
            r == (self is Const),
    {
        match self {
            Arith::Const(_) => true,
            _ => false,
        }
    }

    /// The particular constant `test_constant`.
    pub fn is_constant(&self, test_constant: u32) -> (r: bool)
        ensures
            r == (*self == Arith::Const(test_constant)),
    {
        match self {
            Arith::Const(constant) => *constant == test_constant,
            _ => false,
        }
    }

    /// Algebraic simplification: fold constant subtrees, drop additive
    /// zeros and multiplicative ones, collapse multiplication by zero and
    /// division by a zero constant, and move constants leftward in
    /// commutative nodes.  The simplified expression evaluates to the same
    /// value under any bindings that cover the original.
    pub fn simplify(&self) -> (r: Arith)
        ensures
            simplifies_to(*self, r),
            simplified(r),
        decreases *self,
    {
        match self {
            Arith::Add(e1, e2) => {
                let exp1 = e1.simplify();
                let exp2 = e2.simplify();
                let ghost g1 = exp1;
                let ghost g2 = exp2;
                let res = if exp1.is_const() && exp2.is_const() {
                    match (exp1, exp2) {
                        (Arith::Const(c1), Arith::Const(c2)) => Arith::Const(c1.wrapping_add(c2)),
                        _ => {
                            proof {
                                assert(false);
                            }
                            Arith::Const(0)
                        },
                    }
                } else if exp1.is_constant(0) {
                    exp2
                } else if exp2.is_constant(0) {
                    exp1
                } else if exp2.is_const() {
                    Arith::Add(Box::new(exp2), Box::new(exp1))
                } else {
                    Arith::Add(Box::new(exp1), Box::new(exp2))
                };
                proof {
                    assert forall|vars: Seq<(u32, u32)>|
                        arith_vars_ok(*self, vars) implies #[trigger] arith_vars_ok(res, vars)
                        && arith_eval(res, vars) == arith_eval(*self, vars) by {
                        assert(arith_vars_ok(**e1, vars));
                        assert(arith_vars_ok(**e2, vars));
                        assert(arith_vars_ok(g1, vars));
                        assert(arith_eval(g1, vars) == arith_eval(**e1, vars));
                        assert(arith_vars_ok(g2, vars));
                        assert(arith_eval(g2, vars) == arith_eval(**e2, vars));
                    }
                    assert(simplifies_to(*self, res));
                    assert(simplified(res));
                }
                res
            },
            Arith::Sub(e1, e2) => {
                let exp1 = e1.simplify();
                let exp2 = e2.simplify();
                let ghost g1 = exp1;
                let ghost g2 = exp2;
                let res = if exp1.is_const() && exp2.is_const() {
                    match (exp1, exp2) {
                        (Arith::Const(c1), Arith::Const(c2)) => Arith::Const(c1.wrapping_sub(c2)),
                        _ => {
                            proof {
                                assert(false);
                            }
                            Arith::Const(0)
                        },
                    }
                } else {
                    Arith::Sub(Box::new(exp1), Box::new(exp2))
                };
                proof {
                    assert forall|vars: Seq<(u32, u32)>|
                        arith_vars_ok(*self, vars) implies #[trigger] arith_vars_ok(res, vars)
                        && arith_eval(res, vars) == arith_eval(*self, vars) by {
                        assert(arith_vars_ok(**e1, vars));
                        assert(arith_vars_ok(**e2, vars));
                        assert(arith_vars_ok(g1, vars));
                        assert(arith_eval(g1, vars) == arith_eval(**e1, vars));
                        assert(arith_vars_ok(g2, vars));
                        assert(arith_eval(g2, vars) == arith_eval(**e2, vars));
                    }
                    assert(simplifies_to(*self, res));
                    assert(simplified(res));
                }
                res
            },
            Arith::Mult(e1, e2) => {
                let exp1 = e1.simplify();
                let exp2 = e2.simplify();
                let ghost g1 = exp1;
                let ghost g2 = exp2;
                let res = if exp1.is_const() && exp2.is_const() {
                    match (exp1, exp2) {
                        (Arith::Const(c1), Arith::Const(c2)) => Arith::Const(c1.wrapping_mul(c2)),
                        _ => {
                            proof {
                                assert(false);
                            }
                            Arith::Const(0)
                        },
                    }
                } else if exp1.is_constant(0) || exp2.is_constant(0) {
                    Arith::Const(0)
                } else if exp1.is_constant(1) {
                    exp2
                } else if exp2.is_constant(1) {
                    exp1
                } else if exp2.is_const() {
                    Arith::Mult(Box::new(exp2), Box::new(exp1))
                } else {
                    Arith::Mult(Box::new(exp1), Box::new(exp2))
                };
                proof {
                    assert forall|vars: Seq<(u32, u32)>|
                        arith_vars_ok(*self, vars) implies #[trigger] arith_vars_ok(res, vars)
                        && arith_eval(res, vars) == arith_eval(*self, vars) by {
                        assert(arith_vars_ok(**e1, vars));
                        assert(arith_vars_ok(**e2, vars));
                        assert(arith_vars_ok(g1, vars));
                        assert(arith_eval(g1, vars) == arith_eval(**e1, vars));
                        assert(arith_vars_ok(g2, vars));
                        assert(arith_eval(g2, vars) == arith_eval(**e2, vars));
                        let a = arith_eval(g1, vars);
                        let b = arith_eval(g2, vars);
                        assert((a as int) * (b as int) == (b as int) * (a as int))
                            by (nonlinear_arith);
                        assert(0int * (b as int) == 0) by (nonlinear_arith);
                        assert((a as int) * 0int == 0) by (nonlinear_arith);
                        assert(1int * (b as int) == b as int) by (nonlinear_arith);
                        assert((a as int) * 1int == a as int) by (nonlinear_arith);
                    }
                    assert(simplifies_to(*self, res));
                    assert(simplified(res));
                }
                res
            },
            Arith::Div(e1, e2) => {
                let exp1 = e1.simplify();
                let exp2 = e2.simplify();
                let ghost g1 = exp1;
                let ghost g2 = exp2;
                let res = if exp2.is_constant(0) {
                    Arith::Const(0)
                } else if exp1.is_const() && exp2.is_const() {
                    match (exp1, exp2) {
                        (Arith::Const(c1), Arith::Const(c2)) => {
                            if c2 == 0 {
                                Arith::Const(0)
                            } else {
                                Arith::Const(c1 / c2)
                            }
                        },
                        _ => {
                            proof {
                                assert(false);
                            }
                            Arith::Const(0)
                        },
                    }
                } else {
                    Arith::Div(Box::new(exp1), Box::new(exp2))
                };
                proof {
                    assert forall|vars: Seq<(u32, u32)>|
                        arith_vars_ok(*self, vars) implies #[trigger] arith_vars_ok(res, vars)
                        && arith_eval(res, vars) == arith_eval(*self, vars) by {
                        assert(arith_vars_ok(**e1, vars));
                        assert(arith_vars_ok(**e2, vars));
                        assert(arith_vars_ok(g1, vars));
                        assert(arith_eval(g1, vars) == arith_eval(**e1, vars));
                        assert(arith_vars_ok(g2, vars));
                        assert(arith_eval(g2, vars) == arith_eval(**e2, vars));
                    }
                    assert(simplifies_to(*self, res));
                    assert(simplified(res));
                }
                res
            },
            Arith::Const(constant) => {
                let res = Arith::Const(*constant);
                proof {
                    assert forall|vars: Seq<(u32, u32)>|
                        arith_vars_ok(*self, vars) implies #[trigger] arith_vars_ok(res, vars)
                        && arith_eval(res, vars) == arith_eval(*self, vars) by {
                        assert(res == *self);
                    }
                    assert(simplifies_to(*self, res));
                    assert(simplified(res));
                }
                res
            },
            Arith::Var(id) => {
                let res = Arith::Var(*id);
                proof {
                    assert forall|vars: Seq<(u32, u32)>|
                        arith_vars_ok(*self, vars) implies #[trigger] arith_vars_ok(res, vars)
                        && arith_eval(res, vars) == arith_eval(*self, vars) by {
                        assert(res == *self);
                    }
                    assert(simplifies_to(*self, res));
                    assert(simplified(res));
                }
                res
            },
        }
    }

    /// Render in fully parenthesized infix form.
    pub fn to_string_infix(&self) -> (r: String)
        ensures
            r@ == infix_spec(*self),
        decreases *self,
    {
        match self {
            Arith::Add(exp1, exp2) => {
                let left = exp1.to_string_infix();
                let right = exp2.to_string_infix();
                let r = infix_join(&left, "+", &right);
                proof {
                    reveal_strlit("+");
                    assert(r@ =~= infix_spec(*self));
                }
                r
            },
            Arith::Sub(exp1, exp2) => {
                let left = exp1.to_string_infix();
                let right = exp2.to_string_infix();
                let r = infix_join(&left, "-", &right);
                proof {
                    reveal_strlit("-");
                    assert(r@ =~= infix_spec(*self));
                }
                r
            },
            Arith::Mult(exp1, exp2) => {
                let left = exp1.to_string_infix();
                let right = exp2.to_string_infix();
                let r = infix_join(&left, "*", &right);
                proof {
                    reveal_strlit("*");
                    assert(r@ =~= infix_spec(*self));
                }
                r
            },
            Arith::Div(exp1, exp2) => {
                let left = exp1.to_string_infix();
                let right = exp2.to_string_infix();
                let r = infix_join(&left, "/", &right);
                proof {
                    reveal_strlit("/");
                    assert(r@ =~= infix_spec(*self));
                }
                r
            },
            Arith::Const(constant) => u32_to_string(*constant),
            Arith::Var(id) => {
                let mut s = String::from_str("x");
                let digits = u32_to_string(*id);
                s.append(digits.as_str());
                proof {
                    reveal_strlit("x");
                    assert(s@ =~= infix_spec(*self));
                }
                s
            },
        }
    }
}

fn infix_join(left: &String, op: &str, right: &String) -> (r: String)
    ensures
        r@ == seq!['('] + left@ + op@ + right@ + seq![')'],
{
    let mut s = String::from_str("(");
    s.append(left.as_str());
    s.append(op);
    s.append(right.as_str());
    s.append(")");
    proof {
        reveal_strlit("(");
        reveal_strlit(")");
        assert(s@ =~= seq!['('] + left@ + op@ + right@ + seq![')']);
    }
    s
}

// --- the expression-building instructions --------------------------------

/// One instruction of the expression domain: builds trees on the stack.
#[derive(Debug, Clone, Copy, PartialEq, Eq, Structural)]
pub enum ArithSym {
    Add,
    Sub,
    Mult,
    Div,
    Const(u32),
    Var(u32),
}

impl Symbol for ArithSym {
    type Value = Arith;

    type State = Variables<u32>;

    open spec fn name_spec(&self) -> Seq<char> {
        match *self {
            ArithSym::Add => seq!['+'],
            ArithSym::Sub => seq!['-'],
            ArithSym::Mult => seq!['*'],
            ArithSym::Div => seq!['/'],
            ArithSym::Const(c) => dec_digits(c as nat),
            ArithSym::Var(id) => seq!['x'] + dec_digits(id as nat),
        }
    }

    open spec fn num_in(&self) -> nat {
        match *self {
            ArithSym::Add => 2,
            ArithSym::Sub => 2,
            ArithSym::Mult => 2,
            ArithSym::Div => 2,
            ArithSym::Const(_) => 0,
            ArithSym::Var(_) => 0,
        }
    }

    open spec fn num_out(&self) -> nat {
        1
    }

    open spec fn apply_spec(&self, stack: Seq<Arith>, state: Variables<u32>) -> (
        Seq<Arith>,
        Variables<u32>,
    ) {
        let top = stack.last();
        let second = stack[stack.len() - 2];
        match *self {
            ArithSym::Add => (
                stack.drop_last().drop_last().push(Arith::Add(Box::new(top), Box::new(second))),
                state,
            ),
            ArithSym::Sub => (
                stack.drop_last().drop_last().push(Arith::Sub(Box::new(top), Box::new(second))),
                state,
            ),
            ArithSym::Mult => (
                stack.drop_last().drop_last().push(Arith::Mult(Box::new(top), Box::new(second))),
                state,
            ),
            ArithSym::Div => (
                stack.drop_last().drop_last().push(Arith::Div(Box::new(top), Box::new(second))),
                state,
            ),
            ArithSym::Const(c) => (stack.push(Arith::Const(c)), state),
            ArithSym::Var(id) => (stack.push(Arith::Var(id)), state),
        }
    }

    fn name(&self) -> (r: String) {
        match *self {
            ArithSym::Add => {
                let s = String::from_str("+");
                proof {
                    reveal_strlit("+");
                    assert(s@ =~= self.name_spec());
                }
                s
            },
            ArithSym::Sub => {
                let s = String::from_str("-");
                proof {
                    reveal_strlit("-");
                    assert(s@ =~= self.name_spec());
                }
                s
            },
            ArithSym::Mult => {
                let s = String::from_str("*");
                proof {
                    reveal_strlit("*");
                    assert(s@ =~= self.name_spec());
                }
                s
            },
            ArithSym::Div => {
                let s = String::from_str("/");
                proof {
                    reveal_strlit("/");
                    assert(s@ =~= self.name_spec());
                }
                s
            },
            ArithSym::Const(c) => u32_to_string(c),
            ArithSym::Var(id) => {
                let mut s = String::from_str("x");
                let digits = u32_to_string(id);
                s.append(digits.as_str());
                proof {
                    reveal_strlit("x");
                    assert(s@ =~= self.name_spec());
                }
                s
            },
        }
    }

    fn arity(&self) -> (a: Arity) {
        match *self {
            ArithSym::Add => Arity::new(2, 1),
            ArithSym::Sub => Arity::new(2, 1),
            ArithSym::Mult => Arity::new(2, 1),
            ArithSym::Div => Arity::new(2, 1),
            ArithSym::Const(_) => Arity::new(0, 1),
            ArithSym::Var(_) => Arity::new(0, 1),
        }
    }

    fn copy_sym(&self) -> (r: Self) {
        *self
    }

    fn copy_value(v: &Arith) -> (r: Arith) {
        arith_copy(v)
    }

    fn apply(&self, stack: &mut Vec<Arith>, state: &mut Variables<u32>) {
        match *self {
            ArithSym::Add => {
                let arg1 = stack.pop().unwrap();
                let arg2 = stack.pop().unwrap();
                stack.push(Arith::Add(Box::new(arg1), Box::new(arg2)));
                proof {
                    assert(stack@ =~= self.apply_spec(old(stack)@, *old(state)).0);
                }
            },
            ArithSym::Sub => {
                let arg1 = stack.pop().unwrap();
                let arg2 = stack.pop().unwrap();
                stack.push(Arith::Sub(Box::new(arg1), Box::new(arg2)));
                proof {
                    assert(stack@ =~= self.apply_spec(old(stack)@, *old(state)).0);
                }
            },
            ArithSym::Mult => {
                let arg1 = stack.pop().unwrap();
                let arg2 = stack.pop().unwrap();
                stack.push(Arith::Mult(Box::new(arg1), Box::new(arg2)));
                proof {
                    assert(stack@ =~= self.apply_spec(old(stack)@, *old(state)).0);
                }
            },
            ArithSym::Div => {
                let arg1 = stack.pop().unwrap();
                let arg2 = stack.pop().unwrap();
                stack.push(Arith::Div(Box::new(arg1), Box::new(arg2)));
                proof {
                    assert(stack@ =~= self.apply_spec(old(stack)@, *old(state)).0);
                }
            },
            ArithSym::Const(c) => {
                stack.push(Arith::Const(c));
            },
            ArithSym::Var(id) => {
                stack.push(Arith::Var(id));
            },
        }
    }
}

/// The tree-building addition instruction.
pub fn add_expr() -> (s: ArithSym)
    ensures
        s == ArithSym::Add,
{
    ArithSym::Add
}

/// The tree-building subtraction instruction.
pub fn sub_expr() -> (s: ArithSym)
    ensures
        s == ArithSym::Sub,
{
    ArithSym::Sub
}

/// The tree-building division instruction.
pub fn div_expr() -> (s: ArithSym)
    ensures
        s == ArithSym::Div,
{
    ArithSym::Div
}

/// The tree-building multiplication instruction.
pub fn mult_expr() -> (s: ArithSym)
    ensures
        s == ArithSym::Mult,
{
    ArithSym::Mult
}

/// The tree-building constant instruction.
pub fn const_expr(constant: u32) -> (s: ArithSym)
    ensures
        s == ArithSym::Const(constant),
{
    ArithSym::Const(constant)
}

/// The tree-building variable instruction.
pub fn var_expr(name: u32) -> (s: ArithSym)
    ensures
        s == ArithSym::Var(name),
{
    ArithSym::Var(name)
}

/// An instruction that pushes the value bound to one variable: a word
/// terminal whose threaded state is the variable bindings (an unbound
/// variable pushes zero, so execution stays total).
#[derive(Debug, Clone, Copy, PartialEq, Eq, Structural)]
pub struct BindingSym(pub u32);

impl Symbol for BindingSym {
    type Value = u32;

    type State = Variables<u32>;

    open spec fn name_spec(&self) -> Seq<char> {
        seq!['x'] + dec_digits(self.0 as nat)
    }

    open spec fn num_in(&self) -> nat {
        0
    }

    open spec fn num_out(&self) -> nat {
        1
    }

    open spec fn apply_spec(&self, stack: Seq<u32>, state: Variables<u32>) -> (
        Seq<u32>,
        Variables<u32>,
    ) {
        let v = match lookup_spec(state.entries@, self.0) {
            Option::Some(v) => v,
            Option::None => 0u32,
        };
        (stack.push(v), state)
    }

    fn name(&self) -> (r: String) {
        let mut s = String::from_str("x");
        let digits = u32_to_string(self.0);
        s.append(digits.as_str());
        proof {
            reveal_strlit("x");
            assert(s@ =~= self.name_spec());
        }
        s
    }

    fn arity(&self) -> (a: Arity) {
        Arity::new(0, 1)
    }

    fn copy_sym(&self) -> (r: Self) {
        *self
    }

    fn copy_value(v: &u32) -> (r: u32) {
        *v
    }

    fn apply(&self, stack: &mut Vec<u32>, state: &mut Variables<u32>) {
        let v = match state.get(self.0) {
            Option::Some(v) => *v,
            Option::None => 0,
        };
        stack.push(v);
    }
}

/// The instruction that pushes the named variable's bound value.
pub fn symbol_sym(sym: u32) -> (s: BindingSym)
    ensures
        s == BindingSym(sym),
{
    BindingSym(sym)
}

// --- numeric word instructions -------------------------------------------

pub fn zero_sym() -> (s: WordSym)
    ensures
        s == WordSym::Const(0),
{
    make_const(0)
}

pub fn one_sym() -> (s: WordSym)
    ensures
        s == WordSym::Const(1),
{
    make_const(1)
}

pub fn two_sym() -> (s: WordSym)
    ensures
        s == WordSym::Const(2),
{
    make_const(2)
}

pub fn plus_sym() -> (s: WordSym)
    ensures
        s == WordSym::Bin(BinOp::Plus),
{
    make_binary(BinOp::Plus)
}

pub fn sub_sym() -> (s: WordSym)
    ensures
        s == WordSym::Bin(BinOp::Minus),
{
    make_binary(BinOp::Minus)
}

pub fn mult_sym() -> (s: WordSym)
    ensures
        s == WordSym::Bin(BinOp::Times),
{
    make_binary(BinOp::Times)
}

pub fn mod_sym() -> (s: WordSym)
    ensures
        s == WordSym::Bin(BinOp::Modulo),
{
    make_binary(BinOp::Modulo)
}

pub fn div_sym() -> (s: WordSym)
    ensures
        s == WordSym::Bin(BinOp::Divide),
{
    make_binary(BinOp::Divide)
}

} // verus!
