//! The expression tree that the parser builds and the evaluator walks.
use vstd::prelude::*;
use crate::text::is_number_text;

verus! {

/// A binary operator.
#[derive(Clone, Copy, Debug, PartialEq, Eq, Structural)]
pub enum Operator {
    /// `+`
    Add,
    /// `-`
    Subtract,
    /// `*`
    Multiply,
    /// `/`
    Divide,
}

/// An expression. Each node owns its children, so a tree is finite and
/// nothing in it is shared.
///
/// A number holds the text of its literal: digits, and optionally a decimal
/// point followed by digits. Its numeric value is taken where the tree is
/// evaluated.
#[derive(Debug, PartialEq, Eq)]
pub enum Expr {
    /// An operator and its two operands.
    BinaryOp { operator: Operator, left: Box<Expr>, right: Box<Expr> },
    /// A call of the function `name` with the arguments `args`, in the order
    /// in which they were written.
    Call { name: String, args: Vec<Expr> },
    /// A number, by the text of its literal.
    Number { text: String },
}

/// An expression as the contracts see it.
pub ghost enum Tree {
    BinaryOp { operator: Operator, left: Box<Tree>, right: Box<Tree> },
    Call { name: Seq<char>, args: Seq<Tree> },
    Number { text: Seq<char> },
}

/// The tree that `expr` stands for.
pub open spec fn tree_of(expr: Expr) -> Tree
    decreases expr,
{
    match expr {
        Expr::BinaryOp { operator, left, right } => Tree::BinaryOp {
            operator,
            left: Box::new(tree_of(*left)),
            right: Box::new(tree_of(*right)),
        },
        Expr::Call { name, args } => Tree::Call {
            name: name@,
            args: Seq::new(
                args@.len(),
                |i: int|
                    if 0 <= i < args@.len() {
                        tree_of(args@[i])
                    } else {
                        arbitrary()
                    },
            ),
        },
        Expr::Number { text } => Tree::Number { text: text@ },
    }
}

impl View for Expr {
    type V = Tree;

    open spec fn view(&self) -> Tree {
        tree_of(*self)
    }
}

/// Every number in `tree` is a number literal.
pub open spec fn literal(tree: Tree) -> bool
    decreases tree,
{
    match tree {
        Tree::Number { text } => is_number_text(text),
        Tree::BinaryOp { left, right, .. } => literal(*left) && literal(*right),
        Tree::Call { args, .. } => forall|i: int| 0 <= i < args.len() ==> literal(#[trigger] args[i]),
    }
}

/// The trees that a list of expressions stands for.
pub open spec fn trees_of(exprs: Seq<Expr>) -> Seq<Tree> {
    Seq::new(exprs.len(), |i: int| tree_of(exprs[i]))
}

/// A call stands for its name and the trees of its arguments.
pub proof fn lemma_call_view(name: String, args: Vec<Expr>)
    ensures
        (Expr::Call { name, args })@ == (Tree::Call { name: name@, args: trees_of(args@) }),
{
    let tree = tree_of(Expr::Call { name, args });
    assert(tree->Call_args =~= trees_of(args@));
}

} // verus!
