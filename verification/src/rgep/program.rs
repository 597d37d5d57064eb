use vstd::prelude::*;
use vstd::string::StringExecFns;
use crate::symbols::Symbol;

verus! {

// A program is the decoded form of a genome: one symbol per code word.
// Execution is strictly linear; an instruction runs only when the stack
// holds at least `num_in` values and is silently skipped otherwise, so
// every genome is runnable however it was generated or mutated.

/// The stack and state after running a whole instruction sequence.
pub open spec fn exec_spec<S: Symbol>(
    prog: Seq<S>,
    stack: Seq<S::Value>,
    state: S::State,
) -> (Seq<S::Value>, S::State)
    decreases prog.len(),
{
    if prog.len() == 0 {
        (stack, state)
    } else {
        let sym = prog[0];
        if stack.len() >= sym.num_in() {
            let r = sym.apply_spec(stack, state);
            exec_spec(prog.skip(1), r.0, r.1)
        } else {
            exec_spec(prog.skip(1), stack, state)
        }
    }
}

/// The final value of a run: the top of the stack, or the default when the
/// stack ends empty.
pub open spec fn eval_result<S: Symbol>(
    prog: Seq<S>,
    stack: Seq<S::Value>,
    state: S::State,
    default: S::Value,
) -> S::Value {
    let r = exec_spec(prog, stack, state);
    if r.0.len() > 0 {
        r.0.last()
    } else {
        default
    }
}

/// The names of the instructions, concatenated in program order.
pub open spec fn names_spec<S: Symbol>(prog: Seq<S>) -> Seq<char>
    decreases prog.len(),
{
    if prog.len() == 0 {
        Seq::empty()
    } else {
        prog[0].name_spec() + names_spec(prog.skip(1))
    }
}

pub proof fn lemma_names_snoc<S: Symbol>(prog: Seq<S>, sym: S)
    ensures
        names_spec(prog.push(sym)) == names_spec(prog) + sym.name_spec(),
    decreases prog.len(),
{
    if prog.len() == 0 {
        let single = prog.push(sym);
        assert(single.skip(1) =~= Seq::<S>::empty());
        assert(single[0] == sym);
        assert(names_spec(single) == sym.name_spec() + names_spec(Seq::<S>::empty()));
        assert(names_spec(Seq::<S>::empty()) == Seq::<char>::empty());
        assert(sym.name_spec() + Seq::<char>::empty() =~= sym.name_spec());
        assert(names_spec(prog) == Seq::<char>::empty());
        assert(Seq::<char>::empty() + sym.name_spec() =~= sym.name_spec());
    } else {
        assert(prog.push(sym)[0] == prog[0]);
        assert(prog.push(sym).skip(1) =~= prog.skip(1).push(sym));
        lemma_names_snoc(prog.skip(1), sym);
        assert(names_spec(prog.push(sym)) == prog[0].name_spec() + (names_spec(prog.skip(1))
            + sym.name_spec()));
        assert(prog[0].name_spec() + (names_spec(prog.skip(1)) + sym.name_spec()) =~= (
        prog[0].name_spec() + names_spec(prog.skip(1))) + sym.name_spec());
    }
}

/// An executable stack program: an ordered sequence of symbols.
pub struct Program<S>(pub Vec<S>);

impl<S: Symbol> Program<S> {
    /// Run the program over an existing stack and state.
    pub fn exec_with_stack(&self, state: &mut S::State, stack: &mut Vec<S::Value>)
        ensures
            final(stack)@ == exec_spec(self.0@, old(stack)@, *old(state)).0,
            *final(state) == exec_spec(self.0@, old(stack)@, *old(state)).1,
    {
        let ghost prog = self.0@;
        let ghost s0 = stack@;
        let ghost st0 = *state;
        proof {
            assert(prog.skip(0) =~= prog);
        }
        let mut i: usize = 0;
        while i < self.0.len()
            invariant
                i <= prog.len(),
                prog == self.0@,
                exec_spec(prog, s0, st0) == exec_spec(prog.skip(i as int), stack@, *state),
            decreases prog.len() - i,
        {
            proof {
                assert(prog.skip(i as int).skip(1) =~= prog.skip(i as int + 1));
                assert(prog.skip(i as int)[0] == prog[i as int]);
            }
            let sym = &self.0[i];
            let a = sym.arity();
            if stack.len() >= a.num_in {
                sym.apply(stack, state);
            }
            i = i + 1;
        }
        proof {
            assert(prog.skip(prog.len() as int) =~= Seq::<S>::empty());
        }
    }

    /// Run the program on a fresh stack and return the whole stack.
    pub fn exec(&self, state: &mut S::State) -> (r: Vec<S::Value>)
        ensures
            r@ == exec_spec(self.0@, Seq::<S::Value>::empty(), *old(state)).0,
            *final(state) == exec_spec(self.0@, Seq::<S::Value>::empty(), *old(state)).1,
    {
        let mut stack: Vec<S::Value> = Vec::new();
        self.exec_with_stack(state, &mut stack);
        stack
    }

    /// Run the program over an existing stack and pop the result value; the
    /// default stands in when the stack ends empty.
    pub fn eval_with_stack(&self, state: &mut S::State, default: S::Value, stack: &mut Vec<
        S::Value,
    >) -> (r: S::Value)
        ensures
            r == eval_result(self.0@, old(stack)@, *old(state), default),
            *final(state) == exec_spec(self.0@, old(stack)@, *old(state)).1,
            final(stack)@ == ({
                let run = exec_spec(self.0@, old(stack)@, *old(state)).0;
                if run.len() > 0 {
                    run.drop_last()
                } else {
                    run
                }
            }),
    {
        self.exec_with_stack(state, stack);
        if stack.len() > 0 {
            match stack.pop() {
                Option::Some(v) => v,
                Option::None => default,
            }
        } else {
            default
        }
    }

    /// Run the program on a fresh stack and return the result value.
    pub fn eval(&self, state: &mut S::State, default: S::Value) -> (r: S::Value)
        ensures
            r == eval_result(self.0@, Seq::<S::Value>::empty(), *old(state), default),
            *final(state) == exec_spec(self.0@, Seq::<S::Value>::empty(), *old(state)).1,
    {
        let mut stack: Vec<S::Value> = Vec::new();
        self.eval_with_stack(state, default, &mut stack)
    }

    /// The program's instruction names, concatenated.
    pub fn to_string(&self) -> (r: String)
        ensures
            r@ == names_spec(self.0@),
    {
        let ghost prog = self.0@;
        let mut string = String::from_str("");
        proof {
            reveal_strlit("");
            assert(prog.subrange(0, 0) =~= Seq::<S>::empty());
            assert(string@ =~= names_spec(prog.subrange(0, 0)));
        }
        let mut i: usize = 0;
        while i < self.0.len()
            invariant
                i <= prog.len(),
                prog == self.0@,
                string@ == names_spec(prog.subrange(0, i as int)),
            decreases prog.len() - i,
        {
            let name = self.0[i].name();
            string.append(name.as_str());
            proof {
                assert(prog.subrange(0, i as int + 1) =~= prog.subrange(0, i as int).push(
                    prog[i as int],
                ));
                lemma_names_snoc(prog.subrange(0, i as int), prog[i as int]);
            }
            i = i + 1;
        }
        proof {
            assert(prog.subrange(0, prog.len() as int) =~= prog);
        }
        string
    }
}

} // verus!
