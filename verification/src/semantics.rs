//! What an expression means, and what a program computes, on any numbers.
//!
//! The library holds no numbers of its own. The value of an expression is
//! stated here over an arithmetic that the reader may choose, and so is the
//! run of a program; the laws below say that the two agree.
use vstd::prelude::*;
use crate::ast::{Operator, Tree};
use crate::interpreter::{arity, resolved, steps, steps_of_first, Builtin, EvalFailure, Instr};

verus! {

/// An arithmetic on the numbers `N`.
#[verifier::reject_recursive_types(N)]
pub ghost struct Arithmetic<N> {
    /// The number that a literal stands for.
    pub literal: spec_fn(Seq<char>) -> N,
    /// The result of an operator on its left and its right operand.
    pub binary: spec_fn(Operator, N, N) -> N,
    /// The constant pi.
    pub pi: N,
    /// Sine, cosine and tangent, by the function that names them.
    pub unary: spec_fn(Builtin, N) -> N,
    /// The sum of no numbers.
    pub zero: N,
}

/// The sum of `values`: each is added to the sum of those before it, the
/// first one to zero.
pub open spec fn sum<N>(values: Seq<N>, ops: Arithmetic<N>) -> N
    decreases values.len(),
{
    if values.len() == 0 {
        ops.zero
    } else {
        (ops.binary)(Operator::Add, sum(values.drop_last(), ops), values.last())
    }
}

/// The result of `function` on `args`.
pub open spec fn apply<N>(function: Builtin, args: Seq<N>, ops: Arithmetic<N>) -> N
    recommends
        arity(function) <= args.len(),
{
    match function {
        Builtin::Pi => ops.pi,
        Builtin::Sin => (ops.unary)(Builtin::Sin, args[0]),
        Builtin::Cos => (ops.unary)(Builtin::Cos, args[0]),
        Builtin::Tan => (ops.unary)(Builtin::Tan, args[0]),
        Builtin::Sum => sum(args, ops),
    }
}

/// The value of `tree`, or the first error that its evaluation meets.
///
/// A number is what its literal stands for. The operands of an operator are
/// evaluated left before right. The arguments of a call are evaluated from
/// left to right; then its name is looked up and its arguments are counted.
pub open spec fn value<N>(tree: Tree, ops: Arithmetic<N>) -> Result<N, EvalFailure>
    decreases tree, 0nat,
{
    match tree {
        Tree::Number { text } => Ok((ops.literal)(text)),
        Tree::BinaryOp { operator, left, right } => match value(*left, ops) {
            Err(e) => Err(e),
            Ok(a) => match value(*right, ops) {
                Err(e) => Err(e),
                Ok(b) => Ok((ops.binary)(operator, a, b)),
            },
        },
        Tree::Call { name, args } => match values(args, args.len(), ops) {
            Err(e) => Err(e),
            Ok(found) => match resolved(name, args.len()) {
                Err(e) => Err(e),
                Ok(function) => Ok(apply(function, found, ops)),
            },
        },
    }
}

/// The values of the first `n` of `args`, or the first error among them.
pub open spec fn values<N>(args: Seq<Tree>, n: nat, ops: Arithmetic<N>) -> Result<
    Seq<N>,
    EvalFailure,
>
    decreases args, n,
{
    if n == 0 || n > args.len() {
        Ok(Seq::empty())
    } else {
        match values(args, (n - 1) as nat, ops) {
            Err(e) => Err(e),
            Ok(front) => match value(args[n - 1], ops) {
                Err(e) => Err(e),
                Ok(last) => Ok(front.push(last)),
            },
        }
    }
}

/// The stack after one step, or `None` where the step finds fewer values
/// than it takes, or a call fewer arguments than its function reads.
pub open spec fn step<N>(instr: Instr, stack: Seq<N>, ops: Arithmetic<N>) -> Option<Seq<N>> {
    match instr {
        Instr::Push { text } => Some(stack.push((ops.literal)(text))),
        Instr::Apply { operator } => if stack.len() < 2 {
            None
        } else {
            let a = stack[stack.len() - 2];
            let b = stack[stack.len() - 1];
            Some(stack.take(stack.len() - 2).push((ops.binary)(operator, a, b)))
        },
        Instr::Invoke { function, argc } => if stack.len() < argc || argc < arity(function) {
            None
        } else {
            let args = stack.skip(stack.len() - argc);
            Some(stack.take(stack.len() - argc).push(apply(function, args, ops)))
        },
    }
}

/// The stack after `code` has run on `stack`, or `None` where a step fails.
pub open spec fn stack_after<N>(code: Seq<Instr>, stack: Seq<N>, ops: Arithmetic<N>) -> Option<Seq<N>>
    decreases code.len(),
{
    if code.len() == 0 {
        Some(stack)
    } else {
        match step(code[0], stack, ops) {
            None => None,
            Some(next) => stack_after(code.drop_first(), next, ops),
        }
    }
}

/// Running one program after another: the second starts on the stack that
/// the first leaves.
pub proof fn lemma_stack_after_concat<N>(a: Seq<Instr>, b: Seq<Instr>, stack: Seq<N>, ops: Arithmetic<N>)
    ensures
        stack_after(a + b, stack, ops) == match stack_after(a, stack, ops) {
            Some(between) => stack_after(b, between, ops),
            None => None,
        },
    decreases a.len(),
{
    if a.len() == 0 {
        assert(a + b =~= b);
    } else {
        assert((a + b)[0] == a[0]);
        assert((a + b).drop_first() =~= a.drop_first() + b);
        if let Some(next) = step(a[0], stack, ops) {
            lemma_stack_after_concat(a.drop_first(), b, next, ops);
        }
    }
}

/// A program of one step runs as that step.
proof fn lemma_one_step<N>(instr: Instr, stack: Seq<N>, ops: Arithmetic<N>)
    ensures
        stack_after(seq![instr], stack, ops) == step(instr, stack, ops),
{
    reveal_with_fuel(stack_after, 2);
    assert(seq![instr].drop_first() =~= Seq::<Instr>::empty());
}

/// The program of an expression computes its value: run on any stack, it
/// fails at no step and leaves the stack with the value of the expression
/// on top.
pub proof fn lemma_program_computes_value<N>(tree: Tree, stack: Seq<N>, ops: Arithmetic<N>)
    requires
        steps(tree) is Ok,
    ensures
        value(tree, ops) is Ok,
        stack_after(steps(tree)->Ok_0, stack, ops) == Some(stack.push(value(tree, ops)->Ok_0)),
    decreases tree, 0nat,
{
    match tree {
        Tree::Number { text } => {
            lemma_one_step(Instr::Push { text }, stack, ops);
        },
        Tree::BinaryOp { operator, left, right } => {
            let first = steps(*left)->Ok_0;
            let second = steps(*right)->Ok_0;
            let last = Instr::Apply { operator };
            lemma_program_computes_value(*left, stack, ops);
            let a = value(*left, ops)->Ok_0;
            lemma_program_computes_value(*right, stack.push(a), ops);
            let b = value(*right, ops)->Ok_0;
            let both = stack.push(a).push(b);
            lemma_stack_after_concat(first, second, stack, ops);
            lemma_stack_after_concat(first + second, seq![last], stack, ops);
            lemma_one_step(last, both, ops);
            assert(both.take(both.len() - 2) =~= stack);
        },
        Tree::Call { name, args } => {
            let code = steps_of_first(args, args.len())->Ok_0;
            let function = resolved(name, args.len())->Ok_0;
            let last = Instr::Invoke { function, argc: args.len() };
            lemma_arguments_compute_values(args, args.len(), stack, ops);
            let found = values(args, args.len(), ops)->Ok_0;
            let full = stack + found;
            lemma_stack_after_concat(code, seq![last], stack, ops);
            lemma_one_step(last, full, ops);
            assert(full.skip(full.len() - args.len()) =~= found);
            assert(full.take(full.len() - args.len()) =~= stack);
        },
    }
}

/// The programs of the first `n` arguments leave their values on the stack,
/// the first one lowest.
proof fn lemma_arguments_compute_values<N>(
    args: Seq<Tree>,
    n: nat,
    stack: Seq<N>,
    ops: Arithmetic<N>,
)
    requires
        n <= args.len(),
        steps_of_first(args, n) is Ok,
    ensures
        values(args, n, ops) is Ok,
        values(args, n, ops)->Ok_0.len() == n,
        stack_after(steps_of_first(args, n)->Ok_0, stack, ops) == Some(
            stack + values(args, n, ops)->Ok_0,
        ),
    decreases args, n,
{
    if n == 0 {
        assert(stack + Seq::<N>::empty() =~= stack);
    } else {
        let front = steps_of_first(args, (n - 1) as nat)->Ok_0;
        let last = steps(args[n - 1])->Ok_0;
        lemma_arguments_compute_values(args, (n - 1) as nat, stack, ops);
        let before = values(args, (n - 1) as nat, ops)->Ok_0;
        lemma_program_computes_value(args[n - 1], stack + before, ops);
        let v = value(args[n - 1], ops)->Ok_0;
        lemma_stack_after_concat(front, last, stack, ops);
        assert((stack + before).push(v) =~= stack + before.push(v));
    }
}

/// An expression that has no program has no value, for the same reason.
pub proof fn lemma_no_program_no_value<N>(tree: Tree, ops: Arithmetic<N>)
    requires
        steps(tree) is Err,
    ensures
        value(tree, ops) == Err::<N, EvalFailure>(steps(tree)->Err_0),
    decreases tree, 0nat,
{
    match tree {
        Tree::Number { text } => {},
        Tree::BinaryOp { operator, left, right } => {
            if steps(*left) is Err {
                lemma_no_program_no_value(*left, ops);
            } else {
                lemma_program_computes_value(*left, Seq::<N>::empty(), ops);
                lemma_no_program_no_value(*right, ops);
            }
        },
        Tree::Call { name, args } => {
            if steps_of_first(args, args.len()) is Err {
                lemma_no_programs_no_values(args, args.len(), ops);
            } else {
                lemma_arguments_compute_values(args, args.len(), Seq::<N>::empty(), ops);
            }
        },
    }
}

/// Arguments that have no programs have no values, for the same reason.
proof fn lemma_no_programs_no_values<N>(args: Seq<Tree>, n: nat, ops: Arithmetic<N>)
    requires
        n <= args.len(),
        steps_of_first(args, n) is Err,
    ensures
        values(args, n, ops) == Err::<Seq<N>, EvalFailure>(steps_of_first(args, n)->Err_0),
    decreases args, n,
{
    if n > 0 {
        if steps_of_first(args, (n - 1) as nat) is Err {
            lemma_no_programs_no_values(args, (n - 1) as nat, ops);
        } else {
            lemma_arguments_compute_values(args, (n - 1) as nat, Seq::<N>::empty(), ops);
            lemma_no_program_no_value(args[n - 1], ops);
        }
    }
}

/// Planning is evaluation but for the arithmetic: an expression has a value
/// where it has a program, the program run on an empty stack leaves that
/// value and nothing else, and where it has none the error is the same.
pub proof fn lemma_plan_agrees_with_value<N>(tree: Tree, ops: Arithmetic<N>)
    ensures
        match steps(tree) {
            Ok(code) => value(tree, ops) is Ok && stack_after(code, Seq::<N>::empty(), ops) == Some(
                seq![value(tree, ops)->Ok_0],
            ),
            Err(e) => value(tree, ops) == Err::<N, EvalFailure>(e),
        },
{
    if steps(tree) is Ok {
        lemma_program_computes_value(tree, Seq::<N>::empty(), ops);
        assert(Seq::<N>::empty().push(value(tree, ops)->Ok_0) =~= seq![value(tree, ops)->Ok_0]);
    } else {
        lemma_no_program_no_value(tree, ops);
    }
}

} // verus!
