use vstd::prelude::*;
use vstd::string::StringExecFns;
use crate::symbols::{Symbol, Arity};
use crate::numerals::{dec_digits, u32_to_string};
use crate::domains::stack;

verus! {

// The scalar word domain: instructions over 32-bit words with a 32-bit
// threaded state, covering constants, arithmetic, boolean operations and
// stack manipulation.  Division-like instructions return a defined zero on
// a zero divisor instead of raising, so fitness evaluation is total over
// arbitrary evolved programs.

/// A named two-argument word operation.
#[derive(Debug, Clone, Copy, PartialEq, Eq, Structural)]
pub enum BinOp {
    Plus,
    Minus,
    Times,
    Modulo,
    Divide,
    And,
    Or,
    Xor,
}

/// A named one-argument word operation.
#[derive(Debug, Clone, Copy, PartialEq, Eq, Structural)]
pub enum UnOp {
    Not,
}

/// What a binary operation computes from the top two stack values (the
/// first argument is the value popped first, i.e. the old top).
pub open spec fn bin_op_spec(op: BinOp, a: u32, b: u32) -> u32 {
    match op {
        BinOp::Plus => vstd::wrapping::u32_specs::wrapping_add(a, b),
        BinOp::Minus => vstd::wrapping::u32_specs::wrapping_sub(a, b),
        BinOp::Times => vstd::wrapping::u32_specs::wrapping_mul(a, b),
        BinOp::Modulo => if b == 0 {
            0u32
        } else {
            (a as int % b as int) as u32
        },
        BinOp::Divide => if b == 0 {
            0u32
        } else {
            (a as int / b as int) as u32
        },
        BinOp::And => a & b,
        BinOp::Or => a | b,
        BinOp::Xor => a ^ b,
    }
}

pub open spec fn un_op_spec(op: UnOp, a: u32) -> u32 {
    match op {
        UnOp::Not => !a,
    }
}

pub open spec fn bin_op_name(op: BinOp) -> Seq<char> {
    match op {
        BinOp::Plus => seq!['+'],
        BinOp::Minus => seq!['-'],
        BinOp::Times => seq!['*'],
        BinOp::Modulo => seq!['%'],
        BinOp::Divide => seq!['/'],
        BinOp::And => seq!['&'],
        BinOp::Or => seq!['|'],
        BinOp::Xor => seq!['x'],
    }
}

/// One instruction of the scalar word domain.
#[derive(Debug, Clone, Copy, PartialEq, Eq, Structural)]
pub enum WordSym {
    /// Push a constant.
    Const(u32),
    /// Push the threaded state value.
    Ctx,
    /// Pop two values, push the operation's result.
    Bin(BinOp),
    /// Pop one value, push the operation's result.
    Un(UnOp),
    Dup,
    Swap,
    Drop,
    Rot,
    Nip,
    Tuck,
}

impl Symbol for WordSym {
    type Value = u32;

    type State = u32;

    open spec fn name_spec(&self) -> Seq<char> {
        match *self {
            WordSym::Const(c) => dec_digits(c as nat),
            WordSym::Ctx => seq!['x'],
            WordSym::Bin(op) => bin_op_name(op),
            WordSym::Un(op) => seq!['-'],
            WordSym::Dup => seq!['d', 'u', 'p'],
            WordSym::Swap => seq!['s', 'w', 'a', 'p'],
            WordSym::Drop => seq!['d', 'r', 'o', 'p'],
            WordSym::Rot => seq!['r', 'o', 't'],
            WordSym::Nip => seq!['d', 'r', 'o', 'p'],
            WordSym::Tuck => seq!['t', 'u', 'c', 'k'],
        }
    }

    open spec fn num_in(&self) -> nat {
        match *self {
            WordSym::Const(_) => 0,
            WordSym::Ctx => 0,
            WordSym::Bin(_) => 2,
            WordSym::Un(_) => 1,
            WordSym::Dup => 1,
            WordSym::Swap => 2,
            WordSym::Drop => 1,
            WordSym::Rot => 3,
            WordSym::Nip => 2,
            WordSym::Tuck => 2,
        }
    }

    open spec fn num_out(&self) -> nat {
        match *self {
            WordSym::Const(_) => 1,
            WordSym::Ctx => 1,
            WordSym::Bin(_) => 1,
            WordSym::Un(_) => 1,
            WordSym::Dup => 2,
            WordSym::Swap => 2,
            WordSym::Drop => 0,
            WordSym::Rot => 3,
            WordSym::Nip => 1,
            WordSym::Tuck => 3,
        }
    }

    open spec fn apply_spec(&self, stack: Seq<u32>, state: u32) -> (Seq<u32>, u32) {
        let top = stack.last();
        let second = stack[stack.len() - 2];
        let third = stack[stack.len() - 3];
        match *self {
            WordSym::Const(c) => (stack.push(c), state),
            WordSym::Ctx => (stack.push(state), state),
            WordSym::Bin(op) => (
                stack.drop_last().drop_last().push(bin_op_spec(op, top, second)),
                state,
            ),
            WordSym::Un(op) => (stack.drop_last().push(un_op_spec(op, top)), state),
            WordSym::Dup => (stack.push(top), state),
            WordSym::Swap => (stack.drop_last().drop_last().push(top).push(second), state),
            WordSym::Drop => (stack.drop_last(), state),
            WordSym::Rot => (
                stack.drop_last().drop_last().drop_last().push(top).push(third).push(second),
                state,
            ),
            WordSym::Nip => (stack.drop_last().drop_last().push(top), state),
            WordSym::Tuck => (
                stack.drop_last().drop_last().push(top).push(second).push(top),
                state,
            ),
        }
    }

    fn name(&self) -> (r: String) {
        match *self {
            WordSym::Const(c) => u32_to_string(c),
            WordSym::Ctx => {
                let s = String::from_str("x");
                proof {
                    reveal_strlit("x");
                    assert(s@ =~= self.name_spec());
                }
                s
            },
            WordSym::Bin(op) => {
                let s = match op {
                    BinOp::Plus => String::from_str("+"),
                    BinOp::Minus => String::from_str("-"),
                    BinOp::Times => String::from_str("*"),
                    BinOp::Modulo => String::from_str("%"),
                    BinOp::Divide => String::from_str("/"),
                    BinOp::And => String::from_str("&"),
                    BinOp::Or => String::from_str("|"),
                    BinOp::Xor => String::from_str("x"),
                };
                proof {
                    reveal_strlit("+");
                    reveal_strlit("-");
                    reveal_strlit("*");
                    reveal_strlit("%");
                    reveal_strlit("/");
                    reveal_strlit("&");
                    reveal_strlit("|");
                    reveal_strlit("x");
                    assert(s@ =~= self.name_spec());
                }
                s
            },
            WordSym::Un(op) => {
                let s = String::from_str("-");
                proof {
                    reveal_strlit("-");
                    assert(s@ =~= self.name_spec());
                }
                s
            },
            WordSym::Dup => {
                let s = String::from_str("dup");
                proof {
                    reveal_strlit("dup");
                    assert(s@ =~= self.name_spec());
                }
                s
            },
            WordSym::Swap => {
                let s = String::from_str("swap");
                proof {
                    reveal_strlit("swap");
                    assert(s@ =~= self.name_spec());
                }
                s
            },
            WordSym::Drop => {
                let s = String::from_str("drop");
                proof {
                    reveal_strlit("drop");
                    assert(s@ =~= self.name_spec());
                }
                s
            },
            WordSym::Rot => {
                let s = String::from_str("rot");
                proof {
                    reveal_strlit("rot");
                    assert(s@ =~= self.name_spec());
                }
                s
            },
            WordSym::Nip => {
                let s = String::from_str("drop");
                proof {
                    reveal_strlit("drop");
                    assert(s@ =~= self.name_spec());
                }
                s
            },
            WordSym::Tuck => {
                let s = String::from_str("tuck");
                proof {
                    reveal_strlit("tuck");
                    assert(s@ =~= self.name_spec());
                }
                s
            },
        }
    }

    fn arity(&self) -> (a: Arity) {
        match *self {
            WordSym::Const(_) => Arity::new(0, 1),
            WordSym::Ctx => Arity::new(0, 1),
            WordSym::Bin(_) => Arity::new(2, 1),
            WordSym::Un(_) => Arity::new(1, 1),
            WordSym::Dup => Arity::new(1, 2),
            WordSym::Swap => Arity::new(2, 2),
            WordSym::Drop => Arity::new(1, 0),
            WordSym::Rot => Arity::new(3, 3),
            WordSym::Nip => Arity::new(2, 1),
            WordSym::Tuck => Arity::new(2, 3),
        }
    }

    fn copy_sym(&self) -> (r: Self) {
        *self
    }

    fn copy_value(v: &u32) -> (r: u32) {
        *v
    }

    fn apply(&self, stack: &mut Vec<u32>, state: &mut u32) {
        match *self {
            WordSym::Const(c) => {
                stack.push(c);
                proof {
                    assert(stack@ =~= self.apply_spec(old(stack)@, *old(state)).0);
                    assert(*state == self.apply_spec(old(stack)@, *old(state)).1);
                }
            },
            WordSym::Ctx => {
                stack::push_context(stack, state);
                proof {
                    assert(stack@ =~= self.apply_spec(old(stack)@, *old(state)).0);
                    assert(*state == self.apply_spec(old(stack)@, *old(state)).1);
                }
            },
            WordSym::Bin(op) => {
                let arg1 = stack.pop().unwrap();
                let arg2 = stack.pop().unwrap();
                let r = match op {
                    BinOp::Plus => arg1.wrapping_add(arg2),
                    BinOp::Minus => arg1.wrapping_sub(arg2),
                    BinOp::Times => arg1.wrapping_mul(arg2),
                    BinOp::Modulo => if arg2 == 0 {
                        0
                    } else {
                        arg1 % arg2
                    },
                    BinOp::Divide => if arg2 == 0 {
                        0
                    } else {
                        arg1 / arg2
                    },
                    BinOp::And => arg1 & arg2,
                    BinOp::Or => arg1 | arg2,
                    BinOp::Xor => arg1 ^ arg2,
                };
                stack.push(r);
                proof {
                    assert(stack@ =~= self.apply_spec(old(stack)@, *old(state)).0);
                }
            },
            WordSym::Un(op) => {
                let arg = stack.pop().unwrap();
                let r = match op {
                    UnOp::Not => !arg,
                };
                stack.push(r);
                proof {
                    assert(stack@ =~= self.apply_spec(old(stack)@, *old(state)).0);
                }
            },
            WordSym::Dup => {
                stack::dup(stack, state);
                proof {
                    assert(stack@ =~= self.apply_spec(old(stack)@, *old(state)).0);
                    assert(*state == self.apply_spec(old(stack)@, *old(state)).1);
                }
            },
            WordSym::Swap => {
                stack::swap(stack, state);
                proof {
                    assert(stack@ =~= self.apply_spec(old(stack)@, *old(state)).0);
                    assert(*state == self.apply_spec(old(stack)@, *old(state)).1);
                }
            },
            WordSym::Drop => {
                stack::drop(stack, state);
                proof {
                    assert(stack@ =~= self.apply_spec(old(stack)@, *old(state)).0);
                    assert(*state == self.apply_spec(old(stack)@, *old(state)).1);
                }
            },
            WordSym::Rot => {
                stack::rot(stack, state);
                proof {
                    assert(stack@ =~= self.apply_spec(old(stack)@, *old(state)).0);
                    assert(*state == self.apply_spec(old(stack)@, *old(state)).1);
                }
            },
            WordSym::Nip => {
                stack::nip(stack, state);
                proof {
                    assert(stack@ =~= self.apply_spec(old(stack)@, *old(state)).0);
                    assert(*state == self.apply_spec(old(stack)@, *old(state)).1);
                }
            },
            WordSym::Tuck => {
                stack::tuck(stack, state);
                proof {
                    assert(stack@ =~= self.apply_spec(old(stack)@, *old(state)).0);
                    assert(*state == self.apply_spec(old(stack)@, *old(state)).1);
                }
            },
        }
    }
}

/// An instruction that pushes the given constant.
pub fn make_const(constant: u32) -> (s: WordSym)
    ensures
        s == WordSym::Const(constant),
{
    WordSym::Const(constant)
}

/// An instruction applying the named two-argument operation to the top two
/// stack values.
pub fn make_binary(op: BinOp) -> (s: WordSym)
    ensures
        s == WordSym::Bin(op),
{
    WordSym::Bin(op)
}

/// An instruction applying the named one-argument operation to the top
/// stack value.
pub fn make_unary(op: UnOp) -> (s: WordSym)
    ensures
        s == WordSym::Un(op),
{
    WordSym::Un(op)
}

/// The instruction that pushes the threaded state value.
pub fn push_context_sym() -> (s: WordSym)
    ensures
        s == WordSym::Ctx,
{
    WordSym::Ctx
}

} // verus!
