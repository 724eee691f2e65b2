//! Walking a written formula: its nodes in pre-order, and its variables.

use crate::grammar::grammar_bool::{Expr, Formula};
use crate::var::{lemma_with_name_order, with_name};
use vstd::prelude::*;

verus! {

/// The side of a node from which a walk has come back up to it, or goes down.
#[derive(Clone, Copy, PartialEq, Eq, Structural)]
enum ExprIteratorTreeOrientation {
    Left,
    Right,
}

/// The nodes of `f` in pre-order: a node, then all of its left or only
/// argument, then all of its right one.
pub open spec fn preorder(f: Formula) -> Seq<Formula>
    decreases f,
{
    match f {
        Formula::Var(_) => seq![f],
        Formula::Neg(inner) | Formula::Bracket(inner) => seq![f] + preorder(*inner),
        Formula::And(left, right) | Formula::Or(left, right) => seq![f] + preorder(*left)
            + preorder(*right),
    }
}

/// The names of the variables among `nodes`, each once, in the order in which
/// they first occur.
pub open spec fn names_among(nodes: Seq<Formula>) -> Seq<Seq<char>>
    decreases nodes.len(),
{
    if nodes.len() == 0 {
        Seq::empty()
    } else {
        let before = names_among(nodes.drop_last());
        match nodes.last() {
            Formula::Var(name) => with_name(before, name),
            _ => before,
        }
    }
}

/// The names of the variables of `f`.
pub open spec fn names_in(f: Formula) -> Set<Seq<char>>
    decreases f,
{
    match f {
        Formula::Var(name) => set![name],
        Formula::Neg(inner) | Formula::Bracket(inner) => names_in(*inner),
        Formula::And(left, right) | Formula::Or(left, right) => names_in(*left) + names_in(*right),
    }
}

/// What a walk still owes for one node on its way: the right argument of a
/// node that the walk left towards the left, and nothing otherwise.
spec fn owed(entry: (Expr, ExprIteratorTreeOrientation)) -> Seq<Formula> {
    match entry {
        (Expr::And(_, _, right), ExprIteratorTreeOrientation::Left) => preorder(right@),
        (Expr::Or(_, _, right), ExprIteratorTreeOrientation::Left) => preorder(right@),
        _ => Seq::empty(),
    }
}

/// What a walk still owes for the nodes on its way, the nearest first.
spec fn pending(stack: Seq<(Expr, ExprIteratorTreeOrientation)>) -> Seq<Formula>
    decreases stack.len(),
{
    if stack.len() == 0 {
        Seq::empty()
    } else {
        owed(stack.last()) + pending(stack.drop_last())
    }
}

/// A walk over the nodes of a formula in pre-order. It hands out one node at
/// a time, the whole subtree with it.
pub struct ExprIterator {
    expr_ptr: Expr,
    _stack: Vec<(Expr, ExprIteratorTreeOrientation)>,
    came_from: ExprIteratorTreeOrientation,
}

impl Expr {
    /// Whether the formula is a variable, a leaf of the tree.
    pub fn is_terminal(&self) -> (leaf: bool)
        ensures
            leaf == (self@ is Var),
    {
        match self {
            Expr::Var(_) => true,
            _ => false,
        }
    }

    /// A walk over the nodes of this formula that starts at its root.
    pub fn into_iter(&self) -> (walk: ExprIterator)
        ensures
            walk.remaining() == preorder(self@),
    {
        ExprIterator::gen(self.clone())
    }

    /// The names of the variables of the formula, each once, in the order in
    /// which a pre-order walk first meets them.
    pub fn variables(&mut self) -> (name_list: Vec<String>)
        ensures
            name_list.deep_view() == names_among(preorder(old(self)@)),
            name_list.deep_view().no_duplicates(),
            name_list.deep_view().to_set() == names_in(old(self)@),
            *final(self) == *old(self),
    {
        proof {
            lemma_names_of_walk(self@);
        }
        let mut name_list: Vec<String> = Vec::new();
        let mut walk = self.into_iter();
        let ghost nodes = preorder(self@);
        let ghost mut seen: int = 0;
        loop
            invariant
                0 <= seen <= nodes.len(),
                walk.remaining() == nodes.skip(seen),
                name_list.deep_view() == names_among(nodes.take(seen)),
            ensures
                seen == nodes.len(),
                name_list.deep_view() == names_among(nodes.take(seen)),
            decreases nodes.len() - seen,
        {
            match walk.next() {
                None => {
                    break ;
                },
                Some(expr) => {
                    proof {
                        assert(nodes.take(seen + 1).drop_last() == nodes.take(seen));
                        seen = seen + 1;
                    }
                    match expr {
                        Expr::Var(name) => {
                            if !holds_name(&name_list, &name) {
                                name_list.push(name);
                            }
                        },
                        _ => {},
                    }
                },
            }
        }
        name_list
    }
}

/// Whether `names` holds `name`.
fn holds_name(names: &Vec<String>, name: &String) -> (found: bool)
    ensures
        found == names.deep_view().contains(name@),
{
    let mut i: usize = 0;
    while i < names.len()
        invariant
            i <= names.len(),
            forall|j: int| 0 <= j < i ==> names.deep_view()[j] != name@,
        decreases names.len() - i,
    {
        if names[i] == *name {
            assert(names.deep_view()[i as int] == name@);
            return true;
        }
        i += 1;
    }
    false
}

impl Clone for ExprIterator {
    /// A walk that goes on from where this one is.
    fn clone(&self) -> (copy: Self)
        ensures
            copy.remaining() == self.remaining(),
    {
        let mut stack: Vec<(Expr, ExprIteratorTreeOrientation)> = Vec::new();
        let mut i: usize = 0;
        while i < self._stack.len()
            invariant
                i <= self._stack@.len(),
                stack@ == self._stack@.take(i as int),
            decreases self._stack@.len() - i,
        {
            let entry = &self._stack[i];
            stack.push((entry.0.clone(), entry.1));
            assert(self._stack@.take(i + 1) == self._stack@.take(i as int).push(
                self._stack@[i as int],
            ));
            i += 1;
        }
        assert(self._stack@.take(i as int) == self._stack@);
        ExprIterator { expr_ptr: self.expr_ptr.clone(), _stack: stack, came_from: self.came_from }
    }
}

impl ExprIterator {
    /// The nodes that the walk has yet to hand out, the next one first.
    pub closed spec fn remaining(&self) -> Seq<Formula> {
        if self._stack@.len() == 0 && self.came_from == ExprIteratorTreeOrientation::Right {
            Seq::empty()
        } else {
            preorder(self.expr_ptr@) + pending(self._stack@)
        }
    }

    /// A walk over `input_expr` that starts at its root.
    pub fn gen(input_expr: Expr) -> (walk: ExprIterator)
        ensures
            walk.remaining() == preorder(input_expr@),
    {
        ExprIterator {
            expr_ptr: input_expr,
            _stack: Vec::new(),
            came_from: ExprIteratorTreeOrientation::Left,
        }
    }

    /// Goes back to the node from which the walk came down, if there is one.
    fn try_go_up(&mut self) -> (went: Option<()>)
        ensures
            went is Some <==> old(self)._stack@.len() > 0,
            went is Some ==> {
                &&& final(self)._stack@ == old(self)._stack@.drop_last()
                &&& final(self).expr_ptr == old(self)._stack@.last().0
                &&& final(self).came_from == old(self)._stack@.last().1
            },
            went is None ==> {
                &&& final(self)._stack@ == old(self)._stack@
                &&& final(self).expr_ptr == old(self).expr_ptr
                &&& final(self).came_from == old(self).came_from
            },
    {
        match self._stack.pop() {
            Some((x, came_from)) => {
                self.expr_ptr = x;
                self.came_from = came_from;
                Some(())
            },
            _ => None,
        }
    }

    /// Goes down to the left or only argument, if the node has one.
    fn try_go_left(&mut self) -> (went: Option<()>)
        ensures
            went is Some <==> !(old(self).expr_ptr@ is Var),
            went is Some ==> {
                &&& final(self)._stack@ == old(self)._stack@.push(
                    (old(self).expr_ptr, ExprIteratorTreeOrientation::Left),
                )
                &&& preorder(old(self).expr_ptr@) == seq![old(self).expr_ptr@] + preorder(
                    final(self).expr_ptr@,
                ) + owed((old(self).expr_ptr, ExprIteratorTreeOrientation::Left))
                &&& final(self).came_from == old(self).came_from
            },
            went is None ==> *final(self) == *old(self),
    {
        match &self.expr_ptr {
            Expr::And(expr_left, _, _)
            | Expr::Or(expr_left, _, _)
            | Expr::Bracket(_, expr_left, _)
            | Expr::Neg(_, expr_left) => {
                let left: &Expr = &**expr_left;
                let child = left.clone();
                let node = self.expr_ptr.clone();
                self._stack.push((node, ExprIteratorTreeOrientation::Left));
                self.expr_ptr = child;
                Some(())
            },
            Expr::Var(_) => None,
        }
    }

    /// Goes down to the right argument, if the node has one.
    fn try_go_right(&mut self) -> (went: Option<()>)
        ensures
            went is Some <==> (old(self).expr_ptr@ is And || old(self).expr_ptr@ is Or),
            went is Some ==> {
                &&& final(self)._stack@ == old(self)._stack@.push(
                    (old(self).expr_ptr, ExprIteratorTreeOrientation::Right),
                )
                &&& preorder(final(self).expr_ptr@) == owed(
                    (old(self).expr_ptr, ExprIteratorTreeOrientation::Left),
                )
                &&& final(self).came_from == old(self).came_from
            },
            went is None ==> *final(self) == *old(self) && owed(
                (old(self).expr_ptr, ExprIteratorTreeOrientation::Left),
            ) == Seq::<Formula>::empty(),
    {
        match &self.expr_ptr {
            Expr::And(_, _, expr_right) | Expr::Or(_, _, expr_right) => {
                let right: &Expr = &**expr_right;
                let child = right.clone();
                let node = self.expr_ptr.clone();
                self._stack.push((node, ExprIteratorTreeOrientation::Right));
                self.expr_ptr = child;
                Some(())
            },
            _ => None,
        }
    }

    /// The next node of the walk, or `None` once every node has been handed
    /// out.
    pub fn next(&mut self) -> (node: Option<Expr>)
        ensures
            match node {
                Some(expr) => {
                    &&& old(self).remaining().len() > 0
                    &&& expr@ == old(self).remaining()[0]
                    &&& final(self).remaining() == old(self).remaining().drop_first()
                },
                None => {
                    &&& old(self).remaining().len() == 0
                    &&& final(self).remaining() == old(self).remaining()
                },
            },
    {
        if self._stack.is_empty() && self.came_from == ExprIteratorTreeOrientation::Right {
            return None;
        }
        let ret = self.expr_ptr.clone();
        let ghost rest = old(self).remaining().drop_first();
        if self.try_go_left().is_none() {
            loop
                invariant_except_break
                    rest == pending(self._stack@),
                ensures
                    self.remaining() == rest,
                decreases self._stack@.len(),
            {
                if self.try_go_up().is_none() {
                    self.came_from = ExprIteratorTreeOrientation::Right;
                    break ;
                }
                let ghost below = self._stack@;
                if self.came_from == ExprIteratorTreeOrientation::Left {
                    if self.try_go_right().is_some() {
                        assert(self._stack@.drop_last() == below);
                        break ;
                    }
                }
            }
        } else {
            assert(self._stack@.drop_last() == old(self)._stack@);
        }
        Some(ret)
    }
}

/// The names of the variables among some nodes: nothing occurs twice among
/// them, and a name is among them exactly where its variable is one of the
/// nodes.
pub proof fn lemma_names_among(nodes: Seq<Formula>)
    ensures
        names_among(nodes).no_duplicates(),
        forall|name: Seq<char>| #[trigger]
            names_among(nodes).contains(name) <==> nodes.contains(Formula::Var(name)),
    decreases nodes.len(),
{
    if nodes.len() > 0 {
        let before = names_among(nodes.drop_last());
        lemma_names_among(nodes.drop_last());
        match nodes.last() {
            Formula::Var(new) => {
                lemma_with_name_order(before, new, new);
                crate::var::lemma_with_name(before, new);
            },
            _ => {},
        }
        assert forall|name: Seq<char>| #[trigger]
            names_among(nodes).contains(name) <==> nodes.contains(Formula::Var(name)) by {
            let var = Formula::Var(name);
            if nodes.contains(var) {
                let i = choose|i: int| 0 <= i < nodes.len() && nodes[i] == var;
                if i < nodes.len() - 1 {
                    assert(nodes.drop_last()[i] == var);
                    assert(before.contains(name));
                    let j = choose|j: int| 0 <= j < before.len() && before[j] == name;
                    assert(names_among(nodes)[j] == name);
                }
            }
            if names_among(nodes).contains(name) {
                if before.contains(name) {
                    let i = choose|i: int|
                        0 <= i < nodes.drop_last().len() && nodes.drop_last()[i] == var;
                    assert(nodes[i] == var);
                } else {
                    let j = choose|j: int|
                        0 <= j < names_among(nodes).len() && names_among(nodes)[j] == name;
                    if j < before.len() {
                        assert(before[j] == name);
                    }
                    assert(nodes[nodes.len() - 1] == var);
                }
            }
        }
    }
}

/// A variable is a node of a formula exactly where its name is one of the
/// names of the formula's variables.
pub proof fn lemma_preorder_vars(f: Formula, name: Seq<char>)
    ensures
        preorder(f).contains(Formula::Var(name)) <==> names_in(f).contains(name),
    decreases f,
{
    let var = Formula::Var(name);
    let nodes = preorder(f);
    match f {
        Formula::Var(own) => {
            assert(nodes[0] == f);
        },
        Formula::Neg(inner) | Formula::Bracket(inner) => {
            lemma_preorder_vars(*inner, name);
            lemma_contains_concat(seq![f], preorder(*inner), var);
            assert(seq![f][0] == f);
        },
        Formula::And(left, right) | Formula::Or(left, right) => {
            lemma_preorder_vars(*left, name);
            lemma_preorder_vars(*right, name);
            lemma_contains_concat(seq![f], preorder(*left), var);
            lemma_contains_concat(seq![f] + preorder(*left), preorder(*right), var);
            assert(seq![f][0] == f);
        },
    }
}

/// A node is among nodes put together where it is among those of a part.
proof fn lemma_contains_concat(first: Seq<Formula>, second: Seq<Formula>, node: Formula)
    ensures
        (first + second).contains(node) <==> first.contains(node) || second.contains(node),
{
    let both = first + second;
    if first.contains(node) {
        let i = choose|i: int| 0 <= i < first.len() && first[i] == node;
        assert(both[i] == node);
    }
    if second.contains(node) {
        let i = choose|i: int| 0 <= i < second.len() && second[i] == node;
        assert(both[first.len() + i] == node);
    }
    if both.contains(node) {
        let i = choose|i: int| 0 <= i < both.len() && both[i] == node;
        if i < first.len() {
            assert(first[i] == node);
        } else {
            assert(second[i - first.len()] == node);
        }
    }
}

/// The names that a pre-order walk collects are the names of the formula's
/// variables, each once.
pub proof fn lemma_names_of_walk(f: Formula)
    ensures
        names_among(preorder(f)).no_duplicates(),
        names_among(preorder(f)).to_set() == names_in(f),
{
    lemma_names_among(preorder(f));
    assert forall|name: Seq<char>|
        names_among(preorder(f)).to_set().contains(name) == names_in(f).contains(name) by {
        lemma_preorder_vars(f, name);
        assert(names_among(preorder(f)).contains(name) <==> preorder(f).contains(
            Formula::Var(name),
        ));
    }
}

} // verus!
