// The flat operator namespace: every instruction family's building blocks
// re-exported in one place, for callers that assemble instruction sets
// without caring which family a piece comes from.

pub use crate::domains::arith::{
    Arith, ArithSym, BindingSym, Variables, symbol_sym, add_expr, sub_expr, div_expr, mult_expr, const_expr, var_expr,
    zero_sym, one_sym, two_sym, plus_sym, sub_sym, mult_sym, mod_sym, div_sym,
};
pub use crate::domains::boolean::{and_sym, or_sym, xor_sym, not_sym};
pub use crate::domains::generic::{
    BinOp, UnOp, WordSym, make_const, make_binary, make_unary, push_context_sym,
};
pub use crate::domains::stack::{
    push_context, dup, swap, drop, rot, nip, tuck, dup_sym, swap_sym, drop_sym, nip_sym, tuck_sym,
};
