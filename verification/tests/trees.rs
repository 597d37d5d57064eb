use rgep::domains::tree::Node;
use rgep::ops::{one_sym, two_sym, plus_sym, WordSym};
use rgep::symbols::Symbol;

fn sample_tree() -> Node<WordSym> {
    // plus applied to (two, one): pop order puts `two` on top
    Node::Node(plus_sym(), vec![Node::Leaf(two_sym()), Node::Leaf(one_sym())])
}

#[test]
fn tree_eval_runs_children_then_node() {
    let tree = sample_tree();
    let mut state = 0u32;
    assert_eq!(tree.eval(&mut state), 3);

    let mut state2 = 7u32;
    assert_eq!(Node::Leaf(one_sym()).eval(&mut state2), 1);
}

#[test]
fn tree_linearize_is_postfix_with_reversed_children() {
    let tree = sample_tree();
    let syms = tree.linearize();
    // later-popped child first, then the earlier one, then the node
    assert_eq!(syms, vec![one_sym(), two_sym(), plus_sym()]);
}

#[test]
fn tree_root_accessors() {
    let tree = sample_tree();
    assert!(!tree.is_leaf());
    assert_eq!(tree.sym(), plus_sym());

    let leaf: Node<WordSym> = Node::Leaf(two_sym());
    assert!(leaf.is_leaf());
    assert_eq!(leaf.sym(), two_sym());
}

#[test]
fn tree_eval_matches_its_linearization_run() {
    let tree = sample_tree();
    let mut state = 0u32;
    let direct = tree.eval(&mut state);

    // running the linearized program over an empty stack gives the same value
    let mut stack: Vec<u32> = Vec::new();
    let mut state2 = 0u32;
    for sym in tree.linearize() {
        let arity = sym.arity();
        if stack.len() >= arity.num_in {
            sym.apply(&mut stack, &mut state2);
        }
    }
    assert_eq!(stack.pop(), Some(direct));
}
