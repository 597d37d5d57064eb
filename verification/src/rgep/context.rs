use vstd::prelude::*;
use vstd::string::StringExecFns;
use crate::symbols::Symbol;
use crate::types::Ind;
use crate::rgep::program::{Program, exec_spec, eval_result, names_spec, lemma_names_snoc};

verus! {

// The instruction set: ordered terminals (arity-in zero) and ordered
// functions, plus a default result value.  A genome decodes against a
// context: bit zero of each code chooses the list, the remaining bits,
// taken modulo the list's length, choose the instruction — so decoding is
// total for every possible code byte.

pub struct Context<S: Symbol> {
    pub terminals: Vec<S>,
    pub functions: Vec<S>,
    pub default: S::Value,
}

/// `2^e`, the number of codes that `e` bits can carry.
pub open spec fn two_pow(e: nat) -> nat
    decreases e,
{
    if e == 0 {
        1
    } else {
        2 * two_pow((e - 1) as nat)
    }
}

proof fn lemma_two_pow_mono(a: nat, b: nat)
    requires
        a <= b,
    ensures
        two_pow(a) <= two_pow(b),
    decreases b,
{
    if a < b {
        lemma_two_pow_mono(a, (b - 1) as nat);
    }
}

/// The least number of bits that can address `m` instructions:
/// `ceil(log2 m)`, and zero for a single instruction.
pub open spec fn min_addr_bits(m: nat) -> nat
    decreases m,
{
    if m <= 1 {
        0
    } else {
        1 + min_addr_bits(((m + 1) / 2) as nat)
    }
}

proof fn lemma_min_addr_bits(m: nat)
    requires
        m >= 1,
    ensures
        two_pow(min_addr_bits(m)) >= m,
        m >= 2 ==> two_pow((min_addr_bits(m) - 1) as nat) < m,
    decreases m,
{
    if m >= 2 {
        let half = ((m + 1) / 2) as nat;
        assert(1 <= half < m);
        lemma_min_addr_bits(half);
        let k = min_addr_bits(half);
        assert(min_addr_bits(m) == k + 1);
        assert(2 * half >= m);
        assert(two_pow((k + 1) as nat) == 2 * two_pow(k));
        if half >= 2 {
            assert(two_pow(k) == 2 * two_pow((k - 1) as nat));
            assert(2 * half - 2 <= m - 1);
        }
    }
}

/// One shifted left by a small exponent is the same power of two the spec
/// functions speak of.
pub proof fn lemma_one_shl_is_two_pow(e: u32)
    requires
        e <= 8,
    ensures
        ((1u32 << e) as nat) == two_pow(e as nat),
    decreases e,
{
    if e == 0 {
        assert(1u32 << 0u32 == 1u32) by (bit_vector);
    } else {
        let e1: u32 = (e - 1) as u32;
        lemma_one_shl_is_two_pow(e1);
        assert(1u32 << e == 2 * (1u32 << e1)) by (bit_vector)
            requires
                e == e1 + 1,
                1 <= e <= 8,
        ;
    }
}

impl<S: Symbol> Context<S> {
    /// A usable instruction set: both lists non-empty, and small enough
    /// that one byte encodes any instruction (at most eight bits per
    /// symbol, so at most 128 entries per list).
    pub open spec fn valid(&self) -> bool {
        &&& 1 <= self.terminals@.len() <= 128
        &&& 1 <= self.functions@.len() <= 128
    }

    /// The longer of the two instruction lists: what the encoding must
    /// be able to address.
    pub open spec fn syms_to_encode(&self) -> nat {
        if self.terminals@.len() >= self.functions@.len() {
            self.terminals@.len()
        } else {
            self.functions@.len()
        }
    }

    /// The number of bits of each code word the encoding uses: one
    /// selector bit plus enough bits to address the longer list.
    pub open spec fn bits_per_sym_spec(&self) -> nat {
        min_addr_bits(self.syms_to_encode()) + 1
    }

    /// The symbol a code byte decodes to.
    pub open spec fn decode_spec(&self, code: u8) -> S {
        let index = (code >> 1u8) as int;
        if code & 1 == 1 {
            self.functions@[index % (self.functions@.len() as int)]
        } else {
            self.terminals@[index % (self.terminals@.len() as int)]
        }
    }

    /// A whole genome, decoded code by code.
    pub open spec fn compiled_spec(&self, codes: Seq<u8>) -> Seq<S> {
        codes.map_values(|c: u8| self.decode_spec(c))
    }

    pub fn num_symbols(&self) -> (r: usize)
        requires
            self.valid(),
        ensures
            r == self.terminals@.len() + self.functions@.len(),
    {
        self.terminals.len() + self.functions.len()
    }

    /// The number of bits of each code word that the encoding uses: one
    /// selector bit plus enough bits to address the longer list.  The
    /// result `b` is pinned by `two_pow`: `b - 1` bits suffice and, unless
    /// `b` is one, `b - 2` bits do not.
    pub fn bits_per_sym(&self) -> (bits: usize)
        requires
            self.valid(),
        ensures
            bits == self.bits_per_sym_spec(),
            1 <= bits <= 8,
            two_pow((bits - 1) as nat) >= self.syms_to_encode(),
            bits >= 2 ==> two_pow((bits - 2) as nat) < self.syms_to_encode(),
    {
        let t = self.terminals.len();
        let f = self.functions.len();
        let m = if t >= f {
            t
        } else {
            f
        };
        let mut b: usize = 0;
        let mut p: usize = 1;
        while p < m
            invariant
                1 <= m <= 128,
                p == two_pow(b as nat),
                b >= 1 ==> two_pow((b - 1) as nat) < m,
                b <= 7,
                1 <= p <= 128,
            decreases 8 - b,
        {
            proof {
                reveal_with_fuel(two_pow, 9);
                if b >= 7 {
                    lemma_two_pow_mono(7nat, b as nat);
                    assert(false);
                }
                lemma_two_pow_mono((b + 1) as nat, 7nat);
            }
            p = p * 2;
            b = b + 1;
        }
        proof {
            lemma_min_addr_bits(m as nat);
            let k = min_addr_bits(m as nat);
            if (b as nat) < k {
                lemma_two_pow_mono(b as nat, (k - 1) as nat);
                assert(false);
            }
            if k < b as nat {
                lemma_two_pow_mono(k, (b - 1) as nat);
                assert(false);
            }
        }
        b + 1
    }

    /// The number of whole bytes one code word occupies: always one, since
    /// a valid context never needs more than eight bits.
    pub fn bytes_per_sym(&self) -> (r: usize)
        requires
            self.valid(),
        ensures
            r == 1,
    {
        let bits = self.bits_per_sym();
        (bits + 7) / 8
    }

    /// Decode one code byte; total for every byte value.
    pub fn decode(&self, code: u8) -> (sym: &S)
        requires
            self.valid(),
        ensures
            *sym == self.decode_spec(code),
    {
        let is_function = (code & 1) == 1;
        let index = (code >> 1) as usize;
        if is_function {
            &self.functions[index % self.functions.len()]
        } else {
            &self.terminals[index % self.terminals.len()]
        }
    }

    /// Decode a whole genome into an existing program buffer.
    pub fn compile_to(&self, ind: &Ind<u8>, prog: &mut Program<S>)
        requires
            self.valid(),
        ensures
            final(prog).0@ == self.compiled_spec(ind@),
    {
        let ghost codes = ind@;
        prog.0.clear();
        let mut i: usize = 0;
        while i < ind.0.len()
            invariant
                i <= codes.len(),
                codes == ind@,
                self.valid(),
                prog.0@ == self.compiled_spec(codes.subrange(0, i as int)),
            decreases codes.len() - i,
        {
            let sym = self.decode(ind.0[i]);
            let copy = sym.copy_sym();
            prog.0.push(copy);
            proof {
                assert(codes.subrange(0, i as int + 1) =~= codes.subrange(0, i as int).push(
                    codes[i as int],
                ));
                assert(prog.0@ =~= self.compiled_spec(codes.subrange(0, i as int + 1)));
            }
            i = i + 1;
        }
        proof {
            assert(codes.subrange(0, codes.len() as int) =~= codes);
        }
    }

    /// Decode a whole genome into a fresh program.
    pub fn compile(&self, ind: &Ind<u8>) -> (prog: Program<S>)
        requires
            self.valid(),
        ensures
            prog.0@ == self.compiled_spec(ind@),
    {
        let mut program = Program(Vec::new());
        self.compile_to(ind, &mut program);
        program
    }

    /// Run a genome directly over an existing stack and state.
    pub fn exec_with_stack(&self, ind: &Ind<u8>, stack: &mut Vec<S::Value>, b: &mut S::State)
        requires
            self.valid(),
        ensures
            final(stack)@ == exec_spec(self.compiled_spec(ind@), old(stack)@, *old(b)).0,
            *final(b) == exec_spec(self.compiled_spec(ind@), old(stack)@, *old(b)).1,
    {
        let ghost prog = self.compiled_spec(ind@);
        let ghost s0 = stack@;
        let ghost st0 = *b;
        proof {
            assert(prog.skip(0) =~= prog);
        }
        let mut i: usize = 0;
        while i < ind.0.len()
            invariant
                i <= prog.len(),
                prog == self.compiled_spec(ind@),
                prog.len() == ind@.len(),
                self.valid(),
                exec_spec(prog, s0, st0) == exec_spec(prog.skip(i as int), stack@, *b),
            decreases prog.len() - i,
        {
            proof {
                assert(prog.skip(i as int).skip(1) =~= prog.skip(i as int + 1));
                assert(prog.skip(i as int)[0] == prog[i as int]);
            }
            let sym = self.decode(ind.0[i]);
            let a = sym.arity();
            if stack.len() >= a.num_in {
                sym.apply(stack, b);
            }
            i = i + 1;
        }
        proof {
            assert(prog.skip(prog.len() as int) =~= Seq::<S>::empty());
        }
    }

    /// Run a genome on a fresh stack and return the whole stack.
    pub fn exec(&self, ind: &Ind<u8>, b: &mut S::State) -> (r: Vec<S::Value>)
        requires
            self.valid(),
        ensures
            r@ == exec_spec(self.compiled_spec(ind@), Seq::<S::Value>::empty(), *old(b)).0,
            *final(b) == exec_spec(self.compiled_spec(ind@), Seq::<S::Value>::empty(), *old(b)).1,
    {
        let mut stack: Vec<S::Value> = Vec::new();
        self.exec_with_stack(ind, &mut stack, b);
        stack
    }

    /// Run a genome over a caller-supplied starting stack (taken by value)
    /// and return the result: the top of the final stack, or the context's
    /// default when the stack ends empty.
    pub fn eval_with_stack(&self, ind: &Ind<u8>, stack: Vec<S::Value>, b: &mut S::State) -> (r:
        S::Value)
        requires
            self.valid(),
        ensures
            r == eval_result(self.compiled_spec(ind@), stack@, *old(b), self.default),
    {
        let mut local_stack = stack;
        self.exec_with_stack(ind, &mut local_stack, b);
        match local_stack.pop() {
            Option::Some(result) => result,
            Option::None => S::copy_value(&self.default),
        }
    }

    /// Run a genome on a fresh stack and return the result value.
    pub fn eval(&self, ind: &Ind<u8>, b: &mut S::State) -> (r: S::Value)
        requires
            self.valid(),
        ensures
            r == eval_result(
                self.compiled_spec(ind@),
                Seq::<S::Value>::empty(),
                *old(b),
                self.default,
            ),
    {
        self.eval_with_stack(ind, Vec::new(), b)
    }

    /// The decoded genome's instruction names, concatenated.
    pub fn to_string(&self, ind: &Ind<u8>) -> (r: String)
        requires
            self.valid(),
        ensures
            r@ == names_spec(self.compiled_spec(ind@)),
    {
        let ghost prog = self.compiled_spec(ind@);
        let mut string = String::from_str("");
        proof {
            reveal_strlit("");
            assert(prog.subrange(0, 0) =~= Seq::<S>::empty());
            assert(string@ =~= names_spec(prog.subrange(0, 0)));
        }
        let mut i: usize = 0;
        while i < ind.0.len()
            invariant
                i <= prog.len(),
                prog == self.compiled_spec(ind@),
                prog.len() == ind@.len(),
                self.valid(),
                string@ == names_spec(prog.subrange(0, i as int)),
            decreases prog.len() - i,
        {
            let sym = self.decode(ind.0[i]);
            let name = sym.name();
            string.append(name.as_str());
            proof {
                assert(prog.subrange(0, i as int + 1) =~= prog.subrange(0, i as int).push(
                    prog[i as int],
                ));
                lemma_names_snoc(prog.subrange(0, i as int), prog[i as int]);
            }
            i = i + 1;
        }
        proof {
            assert(prog.subrange(0, prog.len() as int) =~= prog);
        }
        string
    }
}

} // verus!
