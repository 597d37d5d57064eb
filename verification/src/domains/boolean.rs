use vstd::prelude::*;
use crate::domains::generic::{WordSym, BinOp, UnOp, make_binary, make_unary};

verus! {

// Bitwise boolean instructions over whole words.

pub fn and_sym() -> (s: WordSym)
    ensures
        s == WordSym::Bin(BinOp::And),
{
    make_binary(BinOp::And)
}

pub fn or_sym() -> (s: WordSym)
    ensures
        s == WordSym::Bin(BinOp::Or),
{
    make_binary(BinOp::Or)
}

pub fn xor_sym() -> (s: WordSym)
    ensures
        s == WordSym::Bin(BinOp::Xor),
{
    make_binary(BinOp::Xor)
}

pub fn not_sym() -> (s: WordSym)
    ensures
        s == WordSym::Un(UnOp::Not),
{
    make_unary(UnOp::Not)
}

} // verus!
