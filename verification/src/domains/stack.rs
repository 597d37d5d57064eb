use vstd::prelude::*;
use crate::domains::generic::WordSym;

verus! {

// Forth-style stack manipulation, shared by the instruction families.
// Each operation's contract gives the exact new stack.

/// Push the threaded state value itself.
pub fn push_context<A: Copy>(stack: &mut Vec<A>, b: &mut A)
    ensures
        final(stack)@ == old(stack)@.push(*old(b)),
        *final(b) == *old(b),
{
    stack.push(*b);
}

/// Duplicate the top value.
pub fn dup<A: Copy, B>(stack: &mut Vec<A>, _b: &mut B)
    requires
        old(stack)@.len() >= 1,
    ensures
        *final(_b) == *old(_b),
        final(stack)@ == old(stack)@.push(old(stack)@.last()),
{
    let head = stack[stack.len() - 1];
    stack.push(head);
    proof {
        assert(stack@ =~= old(stack)@.push(old(stack)@.last()));
    }
}

/// Exchange the top two values.
pub fn swap<A, B>(stack: &mut Vec<A>, _b: &mut B)
    requires
        old(stack)@.len() >= 2,
    ensures
        *final(_b) == *old(_b),
        final(stack)@ == old(stack)@.drop_last().drop_last().push(old(stack)@.last()).push(
            old(stack)@[old(stack)@.len() - 2],
        ),
{
    let arg1 = stack.pop().unwrap();
    let arg2 = stack.pop().unwrap();
    stack.push(arg1);
    stack.push(arg2);
    proof {
        assert(stack@ =~= old(stack)@.drop_last().drop_last().push(old(stack)@.last()).push(
            old(stack)@[old(stack)@.len() - 2],
        ));
    }
}

/// Discard the top value.
pub fn drop<A, B>(stack: &mut Vec<A>, _b: &mut B)
    requires
        old(stack)@.len() >= 1,
    ensures
        *final(_b) == *old(_b),
        final(stack)@ == old(stack)@.drop_last(),
{
    let _ = stack.pop().unwrap();
    proof {
        assert(stack@ =~= old(stack)@.drop_last());
    }
}

/// Rotate the top three values: the third from the top comes up top.
pub fn rot<A, B>(stack: &mut Vec<A>, _b: &mut B)
    requires
        old(stack)@.len() >= 3,
    ensures
        *final(_b) == *old(_b),
        final(stack)@ == old(stack)@.drop_last().drop_last().drop_last().push(
            old(stack)@.last(),
        ).push(old(stack)@[old(stack)@.len() - 3]).push(old(stack)@[old(stack)@.len() - 2]),
{
    let arg1 = stack.pop().unwrap();
    let arg2 = stack.pop().unwrap();
    let arg3 = stack.pop().unwrap();
    stack.push(arg1);
    stack.push(arg3);
    stack.push(arg2);
    proof {
        assert(stack@ =~= old(stack)@.drop_last().drop_last().drop_last().push(
            old(stack)@.last(),
        ).push(old(stack)@[old(stack)@.len() - 3]).push(old(stack)@[old(stack)@.len() - 2]));
    }
}

/// Discard the value under the top.
pub fn nip<A, B>(stack: &mut Vec<A>, _b: &mut B)
    requires
        old(stack)@.len() >= 2,
    ensures
        *final(_b) == *old(_b),
        final(stack)@ == old(stack)@.drop_last().drop_last().push(old(stack)@.last()),
{
    let arg1 = stack.pop().unwrap();
    let _arg2 = stack.pop().unwrap();
    stack.push(arg1);
    proof {
        assert(stack@ =~= old(stack)@.drop_last().drop_last().push(old(stack)@.last()));
    }
}

/// Copy the top value under the second.
pub fn tuck<A: Copy, B>(stack: &mut Vec<A>, _b: &mut B)
    requires
        old(stack)@.len() >= 2,
    ensures
        *final(_b) == *old(_b),
        final(stack)@ == old(stack)@.drop_last().drop_last().push(old(stack)@.last()).push(
            old(stack)@[old(stack)@.len() - 2],
        ).push(old(stack)@.last()),
{
    let arg1 = stack.pop().unwrap();
    let arg2 = stack.pop().unwrap();
    stack.push(arg1);
    stack.push(arg2);
    stack.push(arg1);
    proof {
        assert(stack@ =~= old(stack)@.drop_last().drop_last().push(old(stack)@.last()).push(
            old(stack)@[old(stack)@.len() - 2],
        ).push(old(stack)@.last()));
    }
}

/// The duplicate-top instruction.
pub fn dup_sym() -> (s: WordSym)
    ensures
        s == WordSym::Dup,
{
    WordSym::Dup
}

/// The exchange-top-two instruction.
pub fn swap_sym() -> (s: WordSym)
    ensures
        s == WordSym::Swap,
{
    WordSym::Swap
}

/// The discard-top instruction.
pub fn drop_sym() -> (s: WordSym)
    ensures
        s == WordSym::Drop,
{
    WordSym::Drop
}

/// The discard-under-top instruction.
pub fn nip_sym() -> (s: WordSym)
    ensures
        s == WordSym::Nip,
{
    WordSym::Nip
}

/// The copy-top-under-second instruction.
pub fn tuck_sym() -> (s: WordSym)
    ensures
        s == WordSym::Tuck,
{
    WordSym::Tuck
}

} // verus!
