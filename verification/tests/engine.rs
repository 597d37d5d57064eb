use rgep::types::Ind;
use rgep::symbols::{Arity, Symbol};
use rgep::rgep::context::Context;
use rgep::rgep::program::Program;
use rgep::ops::{
    zero_sym, one_sym, two_sym, plus_sym, and_sym, xor_sym, dup_sym, drop_sym, push_context_sym,
    WordSym,
};

fn arith_context() -> Context<WordSym> {
    Context {
        terminals: vec![zero_sym(), one_sym(), two_sym()],
        functions: vec![plus_sym()],
        default: 0,
    }
}

#[test]
fn test_eval_simple_equation() {
    let context = arith_context();

    let mut ind_vec = Vec::new();
    ind_vec.push(2);  // one
    ind_vec.push(4);  // two
    ind_vec.push(1);  // plus
    let ind = Ind(ind_vec);
    let mut state = 0u32;
    let result = context.eval(&ind, &mut state);
    assert!(result == 3, "result was {}", result);
}

// Arity composition models producer/consumer stack depth, not addition.
#[test]
fn arity_composition_cases() {
    let a32 = Arity::new(3, 2);
    let a22 = Arity::new(2, 2);
    let a51 = Arity::new(5, 1);

    let c1 = a32.compose(a22);
    assert_eq!((c1.num_in, c1.num_out), (3, 2));

    let c2 = a32.compose(a51);
    assert_eq!((c2.num_in, c2.num_out), (6, 1));

    let c3 = a51.compose(a32);
    assert_eq!((c3.num_in, c3.num_out), (7, 2));
}

// Decoding never goes out of range, for every possible code byte.
#[test]
fn decode_is_total_over_all_codes() {
    let context = Context {
        terminals: vec![zero_sym(), one_sym(), two_sym(), push_context_sym()],
        functions: vec![and_sym(), xor_sym(), dup_sym(), drop_sym(), plus_sym()],
        default: 0,
    };
    for code in 0..=255u8 {
        let sym = context.decode(code);
        let arity = sym.arity();
        assert!(arity.num_in <= 3);
        let expected_function = code & 1 == 1;
        if expected_function {
            assert!(context.functions.contains(sym));
        } else {
            assert!(context.terminals.contains(sym));
        }
    }
}

#[test]
fn bits_and_bytes_per_sym() {
    let context = arith_context();
    // three terminals need two bits, plus the selector bit
    assert_eq!(context.bits_per_sym(), 3);
    assert_eq!(context.bytes_per_sym(), 1);
    assert_eq!(context.num_symbols(), 4);

    let wide = Context {
        terminals: (0..100).map(|c| rgep::ops::make_const(c)).collect(),
        functions: vec![plus_sym()],
        default: 0,
    };
    assert_eq!(wide.bits_per_sym(), 8);
}

// An instruction whose inputs are missing is skipped, never an error.
#[test]
fn underflowing_instructions_are_skipped() {
    let context = arith_context();
    // plus with an empty stack, then one: the plus is skipped
    let ind = Ind(vec![1, 2]);
    let mut state = 0u32;
    assert_eq!(context.eval(&ind, &mut state), 1);

    // an empty program falls back to the default value
    let empty = Ind(vec![]);
    assert_eq!(context.eval(&empty, &mut state), 0);
}

#[test]
fn compile_and_program_eval_match_context_eval() {
    let context = arith_context();
    let ind = Ind(vec![2, 4, 1, 0]);
    let prog = context.compile(&ind);
    assert_eq!(prog.0.len(), 4);

    let mut state = 0u32;
    let direct = context.eval(&ind, &mut state);
    let mut state2 = 0u32;
    let via_program = prog.eval(&mut state2, 0);
    assert_eq!(direct, via_program);

    let mut buffer = Program(Vec::new());
    context.compile_to(&ind, &mut buffer);
    assert_eq!(buffer.0.len(), 4);
}

#[test]
fn program_and_context_render_names() {
    let context = arith_context();
    let ind = Ind(vec![2, 4, 1]);
    assert_eq!(context.to_string(&ind), "12+");
    let prog = context.compile(&ind);
    assert_eq!(prog.to_string(), "12+");
}

#[test]
fn exec_returns_whole_stack() {
    let context = arith_context();
    let ind = Ind(vec![2, 2, 4]);
    let mut state = 0u32;
    let stack = context.exec(&ind, &mut state);
    assert_eq!(stack, vec![1, 1, 2]);
}

#[test]
fn push_context_reads_state() {
    let context = Context {
        terminals: vec![push_context_sym()],
        functions: vec![plus_sym()],
        default: 0,
    };
    let ind = Ind(vec![0, 0, 1]);
    let mut state = 21u32;
    assert_eq!(context.eval(&ind, &mut state), 42);
}
