use vstd::prelude::*;

verus! {

// An instruction is anything with a name, a stack arity, and an `apply`
// that pops `num_in` values, performs its effect on the threaded state,
// and pushes `num_out` values.  Concrete instruction families implement
// the `Symbol` trait; the engine only relies on this interface.

/// How many values an instruction consumes and produces on the stack.
#[derive(Debug, Clone, Copy, PartialEq, Eq, Structural)]
pub struct Arity {
    pub num_in: usize,
    pub num_out: usize,
}

impl Arity {
    pub fn new(num_in: usize, num_out: usize) -> (a: Arity)
        ensures
            a.num_in == num_in,
            a.num_out == num_out,
    {
        Arity { num_in, num_out }
    }

    /// The arity of running `self` and then `other` in sequence: a
    /// producer/consumer stack-depth analysis, not simple addition.
    pub fn compose(self, other: Arity) -> (a: Arity)
        requires
            self.num_in + other.num_in <= usize::MAX,
            self.num_out + other.num_out <= usize::MAX,
        ensures
            a.num_in == self.num_in + (if other.num_in > self.num_out {
                other.num_in - self.num_out
            } else {
                0int
            }),
            a.num_out == other.num_out + (if self.num_out > other.num_in {
                self.num_out - other.num_in
            } else {
                0int
            }),
    {
        let extra_in = if other.num_in > self.num_out {
            other.num_in - self.num_out
        } else {
            0
        };
        let left_over = if self.num_out > other.num_in {
            self.num_out - other.num_in
        } else {
            0
        };
        Arity { num_in: self.num_in + extra_in, num_out: other.num_out + left_over }
    }
}

/// One instruction of a stack program.
pub trait Symbol: Sized {
    type Value;

    type State;

    /// The name shown when a program is printed.
    spec fn name_spec(&self) -> Seq<char>;

    /// How many stack values one application consumes.
    spec fn num_in(&self) -> nat;

    /// How many stack values one application produces.
    spec fn num_out(&self) -> nat;

    /// What one application does to the stack and the threaded state.
    spec fn apply_spec(&self, stack: Seq<Self::Value>, state: Self::State) -> (Seq<Self::Value>, Self::State);

    fn name(&self) -> (r: String)
        ensures
            r@ == self.name_spec(),
    ;

    fn arity(&self) -> (a: Arity)
        ensures
            a.num_in == self.num_in(),
            a.num_out == self.num_out(),
    ;

    /// An exact duplicate (compilation stores one symbol per code word).
    fn copy_sym(&self) -> (r: Self)
        ensures
            r == *self,
    ;

    /// An exact duplicate of a stack value (evaluation hands out the
    /// default value without giving it up).
    fn copy_value(v: &Self::Value) -> (r: Self::Value)
        ensures
            r == *v,
    ;

    fn apply(&self, stack: &mut Vec<Self::Value>, state: &mut Self::State)
        requires
            old(stack)@.len() >= self.num_in(),
        ensures
            final(stack)@ == self.apply_spec(old(stack)@, *old(state)).0,
            *final(state) == self.apply_spec(old(stack)@, *old(state)).1,
            final(stack)@.len() == old(stack)@.len() - self.num_in() + self.num_out(),
    ;
}

} // verus!
