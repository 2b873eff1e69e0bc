//! What holds of every program that the planner lays out.
use vstd::prelude::*;
use crate::ast::{literal, Tree};
use crate::interpreter::{
    arity, planned, program, resolved, steps, steps_of_first, EvalError, Instr, Step,
};
use crate::text::is_number_text;

verus! {

/// How many values a step takes from the stack. Every step puts one back.
pub open spec fn pops(step: Instr) -> nat {
    match step {
        Instr::Push { .. } => 0,
        Instr::Apply { .. } => 2,
        Instr::Invoke { argc, .. } => argc,
    }
}

/// The height of the stack after `code` has run on a stack of height
/// `depth`, or `None` where a step finds fewer values than it takes.
pub open spec fn depth_after(code: Seq<Instr>, depth: nat) -> Option<nat>
    decreases code.len(),
{
    if code.len() == 0 {
        Some(depth)
    } else if depth < pops(code[0]) {
        None
    } else {
        depth_after(code.drop_first(), (depth - pops(code[0]) + 1) as nat)
    }
}

/// Every call in `code` passes its function the arguments that it reads.
pub open spec fn calls_satisfied(code: Seq<Instr>) -> bool {
    forall|i: int|
        0 <= i < code.len() ==> (#[trigger] code[i] matches Instr::Invoke { function, argc }
            ==> arity(function) <= argc)
}

/// Every number that `code` pushes is a number literal.
pub open spec fn pushes_literals(code: Seq<Instr>) -> bool {
    forall|i: int|
        0 <= i < code.len() ==> (#[trigger] code[i] matches Instr::Push { text }
            ==> is_number_text(text))
}

/// Running one program after another: the second starts on the stack that
/// the first leaves.
pub proof fn lemma_depth_after_concat(a: Seq<Instr>, b: Seq<Instr>, depth: nat)
    ensures
        depth_after(a + b, depth) == match depth_after(a, depth) {
            Some(between) => depth_after(b, between),
            None => None,
        },
    decreases a.len(),
{
    if a.len() == 0 {
        assert(a + b =~= b);
    } else {
        assert((a + b)[0] == a[0]);
        assert((a + b).drop_first() =~= a.drop_first() + b);
        if depth >= pops(a[0]) {
            lemma_depth_after_concat(a.drop_first(), b, (depth - pops(a[0]) + 1) as nat);
        }
    }
}

/// The program of an expression runs on any stack without finding it too
/// short, and leaves it one value higher: the value of the expression.
pub proof fn lemma_program_leaves_one_value(tree: Tree, depth: nat)
    requires
        steps(tree) is Ok,
    ensures
        depth_after(steps(tree)->Ok_0, depth) == Some(depth + 1),
    decreases tree, 0nat,
{
    reveal_with_fuel(depth_after, 2);
    match tree {
        Tree::Number { text } => {
            let code = seq![Instr::Push { text }];
            assert(code.drop_first() =~= Seq::<Instr>::empty());
        },
        Tree::BinaryOp { operator, left, right } => {
            let first = steps(*left)->Ok_0;
            let second = steps(*right)->Ok_0;
            let last = seq![Instr::Apply { operator }];
            lemma_program_leaves_one_value(*left, depth);
            lemma_program_leaves_one_value(*right, depth + 1);
            lemma_depth_after_concat(first, second, depth);
            lemma_depth_after_concat(first + second, last, depth);
            assert(last.drop_first() =~= Seq::<Instr>::empty());
        },
        Tree::Call { name, args } => {
            let code = steps_of_first(args, args.len())->Ok_0;
            let function = resolved(name, args.len())->Ok_0;
            let last = seq![Instr::Invoke { function, argc: args.len() }];
            lemma_arguments_leave_their_values(args, args.len(), depth);
            lemma_depth_after_concat(code, last, depth);
            assert(last.drop_first() =~= Seq::<Instr>::empty());
        },
    }
}

/// The programs of `n` arguments leave the stack `n` values higher.
proof fn lemma_arguments_leave_their_values(args: Seq<Tree>, n: nat, depth: nat)
    requires
        n <= args.len(),
        steps_of_first(args, n) is Ok,
    ensures
        depth_after(steps_of_first(args, n)->Ok_0, depth) == Some(depth + n),
    decreases args, n,
{
    if n > 0 {
        let front = steps_of_first(args, (n - 1) as nat)->Ok_0;
        let last = steps(args[n - 1])->Ok_0;
        lemma_arguments_leave_their_values(args, (n - 1) as nat, depth);
        lemma_program_leaves_one_value(args[n - 1], (depth + n - 1) as nat);
        lemma_depth_after_concat(front, last, depth);
    }
}

/// In the program of an expression every call passes its function the
/// arguments that it reads, and the numbers pushed are those of the
/// expression: literals where the expression holds literals.
pub proof fn lemma_program_is_sound(tree: Tree)
    requires
        steps(tree) is Ok,
    ensures
        calls_satisfied(steps(tree)->Ok_0),
        literal(tree) ==> pushes_literals(steps(tree)->Ok_0),
    decreases tree, 0nat,
{
    match tree {
        Tree::Number { text } => {},
        Tree::BinaryOp { operator, left, right } => {
            lemma_program_is_sound(*left);
            lemma_program_is_sound(*right);
        },
        Tree::Call { name, args } => {
            lemma_arguments_are_sound(args, args.len());
        },
    }
}

/// What [`lemma_program_is_sound`] says of a program, of the programs of the
/// first `n` arguments.
proof fn lemma_arguments_are_sound(args: Seq<Tree>, n: nat)
    requires
        n <= args.len(),
        steps_of_first(args, n) is Ok,
    ensures
        calls_satisfied(steps_of_first(args, n)->Ok_0),
        (forall|i: int| 0 <= i < n ==> literal(#[trigger] args[i])) ==> pushes_literals(
            steps_of_first(args, n)->Ok_0,
        ),
    decreases args, n,
{
    if n > 0 {
        lemma_arguments_are_sound(args, (n - 1) as nat);
        lemma_program_is_sound(args[n - 1]);
    }
}

/// Planning has no hidden state: whenever one tree is planned twice, both
/// runs succeed or both fail, with the same program or the same error.
pub proof fn lemma_planning_repeats(
    tree: Tree,
    first: Result<Vec<Step>, EvalError>,
    second: Result<Vec<Step>, EvalError>,
)
    requires
        planned(tree, first),
        planned(tree, second),
    ensures
        first is Ok <==> second is Ok,
        first is Ok ==> program(first->Ok_0@) == program(second->Ok_0@),
        first is Err ==> first->Err_0@ == second->Err_0@,
{
}

} // verus!
