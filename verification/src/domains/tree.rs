use vstd::prelude::*;
use crate::symbols::{Symbol, Arity};

verus! {

// The tree-capture wrapper: wrapping each instruction of a family turns a
// run of the program into a call tree instead of a value, so the best
// individual found can be inspected, linearized and simplified.

/// A call tree: an instruction applied to the trees of its inputs.
pub enum Node<S> {
    Node(S, Vec<Node<S>>),
    Leaf(S),
}

/// The symbols of the tree in program order: each node's children first
/// (later-popped inputs first), then the node's own symbol.
pub open spec fn linearize_spec<S>(n: Node<S>) -> Seq<S>
    decreases n,
{
    match n {
        Node::Leaf(sym) => seq![sym],
        Node::Node(sym, children) => linearize_children(
            children@,
            children@.len() as int,
        ).push(sym),
    }
}

/// The linearization of `cs[..i]`, last child first.
pub open spec fn linearize_children<S>(cs: Seq<Node<S>>, i: int) -> Seq<S>
    decreases cs, i,
{
    if i <= 0 || i > cs.len() {
        Seq::empty()
    } else {
        linearize_spec(cs[i - 1]) + linearize_children(cs, i - 1)
    }
}

proof fn lemma_lin_child_shorter<S>(cs: Seq<Node<S>>, i: int, j: int)
    requires
        0 <= j < i <= cs.len(),
    ensures
        linearize_spec(cs[j]).len() <= linearize_children(cs, i).len(),
    decreases i,
{
    lemma_lin_children_nonneg(cs, i - 1);
    if j < i - 1 {
        lemma_lin_child_shorter(cs, i - 1, j);
    }
}

proof fn lemma_lin_children_nonneg<S>(cs: Seq<Node<S>>, i: int)
    ensures
        linearize_children(cs, i).len() >= 0,
{
}

/// A runnable tree: leaves produce exactly one value from nothing, and
/// every inner node has exactly as many children as its symbol consumes
/// and produces exactly one value.
pub open spec fn wf_node<S: Symbol>(n: Node<S>) -> bool
    decreases n,
{
    match n {
        Node::Leaf(sym) => sym.num_in() == 0 && sym.num_out() == 1,
        Node::Node(sym, children) => children@.len() == sym.num_in() && sym.num_out() == 1
            && wf_children(children@, children@.len() as int),
    }
}

pub open spec fn wf_children<S: Symbol>(cs: Seq<Node<S>>, i: int) -> bool
    decreases cs, i,
{
    if i <= 0 || i > cs.len() {
        true
    } else {
        wf_node(cs[i - 1]) && wf_children(cs, i - 1)
    }
}

proof fn lemma_wf_child<S: Symbol>(cs: Seq<Node<S>>, i: int, j: int)
    requires
        0 <= j < i <= cs.len(),
        wf_children(cs, i),
    ensures
        wf_node(cs[j]),
    decreases i,
{
    if j < i - 1 {
        lemma_wf_child(cs, i - 1, j);
    }
}

/// The value of a tree and the state after running it: children first,
/// left to right, threading the state, then the node's own instruction.
pub open spec fn node_eval_spec<S: Symbol>(n: Node<S>, state: S::State) -> (S::Value, S::State)
    decreases n,
{
    match n {
        Node::Leaf(sym) => {
            let r = sym.apply_spec(Seq::empty(), state);
            (r.0.last(), r.1)
        },
        Node::Node(sym, children) => {
            let cr = eval_children_spec(children@, children@.len() as int, state);
            let r = sym.apply_spec(cr.0, cr.1);
            (r.0.last(), r.1)
        },
    }
}

pub open spec fn eval_children_spec<S: Symbol>(cs: Seq<Node<S>>, i: int, state: S::State) -> (
    Seq<S::Value>,
    S::State,
)
    decreases cs, i,
{
    if i <= 0 || i > cs.len() {
        (Seq::empty(), state)
    } else {
        let pre = eval_children_spec(cs, i - 1, state);
        let cur = node_eval_spec(cs[i - 1], pre.1);
        (pre.0.push(cur.0), cur.1)
    }
}

proof fn lemma_eval_children_len<S: Symbol>(cs: Seq<Node<S>>, i: int, state: S::State)
    requires
        0 <= i <= cs.len(),
    ensures
        eval_children_spec(cs, i, state).0.len() == i,
    decreases i,
{
    if i > 0 {
        lemma_eval_children_len(cs, i - 1, state);
    }
}

impl<S: Symbol> Node<S> {
    /// The symbol at the root.
    pub open spec fn sym_spec(&self) -> S {
        match *self {
            Node::Leaf(sym) => sym,
            Node::Node(sym, _) => sym,
        }
    }

    /// Whether the root has no children.
    pub fn is_leaf(&self) -> (r: bool)
        ensures
            r == (self is Leaf),
    {
        match self {
            Node::Leaf(_) => true,
            _ => false,
        }
    }

    /// A copy of the root's symbol.
    pub fn sym(&self) -> (r: S)
        ensures
            r == self.sym_spec(),
    {
        match self {
            Node::Leaf(sym) => sym.copy_sym(),
            Node::Node(sym, _) => sym.copy_sym(),
        }
    }

    /// Append this tree's linearization to `syms`.
    pub fn linearize_helper(&self, syms: &mut Vec<S>)
        ensures
            final(syms)@ == old(syms)@ + linearize_spec(*self),
        decreases linearize_spec(*self).len(),
    {
        match self {
            Node::Leaf(sym) => {
                syms.push(sym.copy_sym());
                proof {
                    assert(syms@ =~= old(syms)@ + linearize_spec(*self));
                }
            },
            Node::Node(sym, children) => {
                let ghost cs = children@;
                let mut j: usize = children.len();
                while j > 0
                    invariant
                        j <= cs.len(),
                        cs == children@,
                        *self == Node::Node(*sym, *children),
                        old(syms)@ + linearize_children(cs, cs.len() as int) == syms@
                            + linearize_children(cs, j as int),
                    decreases j,
                {
                    j = j - 1;
                    let ghost before = syms@;
                    proof {
                        lemma_lin_child_shorter(cs, cs.len() as int, j as int);
                        assert(linearize_spec(*self) == linearize_children(
                            cs,
                            cs.len() as int,
                        ).push(*sym));
                    }
                    children[j].linearize_helper(syms);
                    proof {
                        assert(before + (linearize_spec(cs[j as int]) + linearize_children(
                            cs,
                            j as int,
                        )) =~= (before + linearize_spec(cs[j as int])) + linearize_children(
                            cs,
                            j as int,
                        ));
                    }
                }
                proof {
                    assert(linearize_children(cs, 0) =~= Seq::<S>::empty());
                    assert(syms@ + linearize_children(cs, 0) =~= syms@);
                }
                syms.push(sym.copy_sym());
                proof {
                    assert(syms@ =~= old(syms)@ + linearize_spec(*self));
                }
            },
        }
    }

    /// Run the tree: children left to right, state threaded throughout,
    /// then the node's instruction; the single produced value is returned.
    pub fn eval(&self, state: &mut S::State) -> (r: S::Value)
        requires
            wf_node(*self),
        ensures
            r == node_eval_spec(*self, *old(state)).0,
            *final(state) == node_eval_spec(*self, *old(state)).1,
        decreases linearize_spec(*self).len(),
    {
        let mut stack: Vec<S::Value> = Vec::new();
        match self {
            Node::Leaf(sym) => {
                sym.apply(&mut stack, state);
                match stack.pop() {
                    Option::Some(v) => v,
                    Option::None => {
                        proof {
                            assert(false);
                        }
                        vstd::pervasive::unreached()
                    },
                }
            },
            Node::Node(sym, children) => {
                let ghost cs = children@;
                let ghost st0 = *state;
                let mut i: usize = 0;
                while i < children.len()
                    invariant
                        i <= cs.len(),
                        cs == children@,
                        *self == Node::Node(*sym, *children),
                        wf_node(*self),
                        stack@ == eval_children_spec(cs, i as int, st0).0,
                        *state == eval_children_spec(cs, i as int, st0).1,
                    decreases cs.len() - i,
                {
                    proof {
                        lemma_wf_child(cs, cs.len() as int, i as int);
                        lemma_lin_child_shorter(cs, cs.len() as int, i as int);
                        assert(linearize_spec(*self) == linearize_children(
                            cs,
                            cs.len() as int,
                        ).push(*sym));
                    }
                    let v = children[i].eval(state);
                    stack.push(v);
                    i = i + 1;
                }
                proof {
                    lemma_eval_children_len(cs, cs.len() as int, st0);
                }
                sym.apply(&mut stack, state);
                match stack.pop() {
                    Option::Some(v) => v,
                    Option::None => {
                        proof {
                            assert(false);
                        }
                        vstd::pervasive::unreached()
                    },
                }
            },
        }
    }

    /// The whole tree's symbols in program order.
    pub fn linearize(&self) -> (syms: Vec<S>)
        ensures
            syms@ == linearize_spec(*self),
    {
        let mut syms = Vec::new();
        self.linearize_helper(&mut syms);
        proof {
            assert(syms@ =~= linearize_spec(*self));
        }
        syms
    }
}

} // verus!
