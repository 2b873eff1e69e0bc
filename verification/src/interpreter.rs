//! Evaluation, as far as it is decided without arithmetic.
//!
//! An expression is laid out as a postfix program for a stack machine: the
//! order in which its parts are evaluated, the function that each call names,
//! and the first error that evaluation meets. Running the program on numbers
//! is all that is left to the caller; [`crate::semantics`] says what such a
//! run computes.
use vstd::prelude::*;
use vstd::string::StringExecFns;
use crate::ast::{trees_of, Expr, Operator, Tree};
use crate::interpreter_laws::{
    calls_satisfied, depth_after, lemma_program_is_sound, lemma_program_leaves_one_value,
};
use crate::text::{decimal_text, push_decimal, same_text};

verus! {

/// The functions of the language.
#[derive(Clone, Copy, Debug, PartialEq, Eq, Structural)]
pub enum Builtin {
    /// The constant pi.
    Pi,
    /// Sine of the first argument, in radians.
    Sin,
    /// Cosine of the first argument, in radians.
    Cos,
    /// Tangent of the first argument, in radians.
    Tan,
    /// The sum of all arguments; zero where there is none.
    Sum,
}

/// Why an expression has no value.
#[derive(Clone, Debug, PartialEq, Eq)]
pub enum EvalError {
    /// A call names no function of the language.
    UnknownFunction { name: String },
    /// A call passes `found` arguments to a function that reads `expected`.
    ArityMismatch { name: String, expected: usize, found: usize },
}

/// An evaluation error as the contracts see it.
pub ghost enum EvalFailure {
    UnknownFunction { name: Seq<char> },
    ArityMismatch { name: Seq<char>, expected: nat, found: nat },
}

impl View for EvalError {
    type V = EvalFailure;

    open spec fn view(&self) -> EvalFailure {
        match self {
            EvalError::UnknownFunction { name } => EvalFailure::UnknownFunction { name: name@ },
            EvalError::ArityMismatch { name, expected, found } => EvalFailure::ArityMismatch {
                name: name@,
                expected: *expected as nat,
                found: *found as nat,
            },
        }
    }
}

/// What an evaluation error says.
pub open spec fn eval_message(e: EvalFailure) -> Seq<char> {
    match e {
        EvalFailure::UnknownFunction { name } => "unknown function: "@ + name,
        EvalFailure::ArityMismatch { name, expected, found } => "too few arguments for "@ + name
            + ": expected "@ + decimal_text(expected) + ", found "@ + decimal_text(found),
    }
}

impl EvalError {
    /// The error in words.
    pub fn message(&self) -> (s: String)
        ensures
            s@ == eval_message(self@),
    {
        match self {
            EvalError::UnknownFunction { name } => {
                let mut s = String::from_str("unknown function: ");
                s.append(name.as_str());
                s
            },
            EvalError::ArityMismatch { name, expected, found } => {
                let mut s = String::from_str("too few arguments for ");
                s.append(name.as_str());
                s.append(": expected ");
                push_decimal(*expected, &mut s);
                s.append(", found ");
                push_decimal(*found, &mut s);
                s
            },
        }
    }
}

/// One step of a postfix program.
#[derive(Clone, Debug, PartialEq, Eq)]
pub enum Step {
    /// Push the value of the number literal `text`.
    Push { text: String },
    /// Pop the right operand, then the left one, and push the result of the
    /// operator on them.
    Apply { operator: Operator },
    /// Pop `argc` arguments, the last one first, and push the result of the
    /// function on them.
    Invoke { function: Builtin, argc: usize },
}

/// A step as the contracts see it.
pub ghost enum Instr {
    Push { text: Seq<char> },
    Apply { operator: Operator },
    Invoke { function: Builtin, argc: nat },
}

impl View for Step {
    type V = Instr;

    open spec fn view(&self) -> Instr {
        match self {
            Step::Push { text } => Instr::Push { text: text@ },
            Step::Apply { operator } => Instr::Apply { operator: *operator },
            Step::Invoke { function, argc } => Instr::Invoke {
                function: *function,
                argc: *argc as nat,
            },
        }
    }
}

/// A program as the contracts see it.
pub open spec fn program(steps: Seq<Step>) -> Seq<Instr> {
    steps.map_values(|s: Step| s@)
}

/// The function that `name` names.
pub open spec fn builtin_named(name: Seq<char>) -> Option<Builtin> {
    if name == "Pi"@ {
        Some(Builtin::Pi)
    } else if name == "Sin"@ {
        Some(Builtin::Sin)
    } else if name == "Cos"@ {
        Some(Builtin::Cos)
    } else if name == "Tan"@ {
        Some(Builtin::Tan)
    } else if name == "Sum"@ {
        Some(Builtin::Sum)
    } else {
        None
    }
}

/// How many arguments `function` reads. A call may pass more: `Sum` adds
/// them all, the others leave them unread.
pub open spec fn arity(function: Builtin) -> nat {
    match function {
        Builtin::Pi => 0,
        Builtin::Sin => 1,
        Builtin::Cos => 1,
        Builtin::Tan => 1,
        Builtin::Sum => 0,
    }
}

/// The function that a call of `name` with `found` arguments runs.
pub open spec fn resolved(name: Seq<char>, found: nat) -> Result<Builtin, EvalFailure> {
    match builtin_named(name) {
        None => Err(EvalFailure::UnknownFunction { name }),
        Some(function) => if found < arity(function) {
            Err(EvalFailure::ArityMismatch { name, expected: arity(function), found })
        } else {
            Ok(function)
        },
    }
}

/// The program of `tree`, or the first error that its evaluation meets.
///
/// Operands are evaluated left before right, and the arguments of a call
/// from left to right, before its name is looked up.
pub open spec fn steps(tree: Tree) -> Result<Seq<Instr>, EvalFailure>
    decreases tree, 0nat,
{
    match tree {
        Tree::Number { text } => Ok(seq![Instr::Push { text }]),
        Tree::BinaryOp { operator, left, right } => match steps(*left) {
            Err(e) => Err(e),
            Ok(first) => match steps(*right) {
                Err(e) => Err(e),
                Ok(second) => Ok(first + second + seq![Instr::Apply { operator }]),
            },
        },
        Tree::Call { name, args } => match steps_of_first(args, args.len()) {
            Err(e) => Err(e),
            Ok(code) => match resolved(name, args.len()) {
                Err(e) => Err(e),
                Ok(function) => Ok(code + seq![Instr::Invoke { function, argc: args.len() }]),
            },
        },
    }
}

/// The programs of the first `n` of `args`, one after the other, or the
/// first error among them.
pub open spec fn steps_of_first(args: Seq<Tree>, n: nat) -> Result<Seq<Instr>, EvalFailure>
    decreases args, n,
{
    if n == 0 || n > args.len() {
        Ok(Seq::empty())
    } else {
        match steps_of_first(args, (n - 1) as nat) {
            Err(e) => Err(e),
            Ok(front) => match steps(args[n - 1]) {
                Err(e) => Err(e),
                Ok(last) => Ok(front + last),
            },
        }
    }
}

/// `r` is what planning `tree` returns: the program of the tree, or the
/// error that its evaluation meets first.
pub open spec fn planned(tree: Tree, r: Result<Vec<Step>, EvalError>) -> bool {
    match r {
        Ok(code) => steps(tree) == Ok::<Seq<Instr>, EvalFailure>(program(code@)),
        Err(e) => steps(tree) == Err::<Seq<Instr>, EvalFailure>(e@),
    }
}

/// Looks `name` up among the functions of the language.
pub fn lookup(name: &str) -> (r: Option<Builtin>)
    ensures
        r == builtin_named(name@),
{
    if same_text(name, "Pi") {
        Some(Builtin::Pi)
    } else if same_text(name, "Sin") {
        Some(Builtin::Sin)
    } else if same_text(name, "Cos") {
        Some(Builtin::Cos)
    } else if same_text(name, "Tan") {
        Some(Builtin::Tan)
    } else if same_text(name, "Sum") {
        Some(Builtin::Sum)
    } else {
        None
    }
}

impl Builtin {
    /// How many arguments the function reads.
    pub fn arity(&self) -> (n: usize)
        ensures
            n == arity(*self),
    {
        match self {
            Builtin::Pi => 0,
            Builtin::Sin => 1,
            Builtin::Cos => 1,
            Builtin::Tan => 1,
            Builtin::Sum => 0,
        }
    }
}

/// Finds the function that a call of `name` with `found` arguments runs: the
/// name has to be known, and the arguments as many as the function reads.
pub fn resolve(name: &str, found: usize) -> (r: Result<Builtin, EvalError>)
    ensures
        match r {
            Ok(function) => resolved(name@, found as nat) == Ok::<Builtin, EvalFailure>(function),
            Err(e) => resolved(name@, found as nat) == Err::<Builtin, EvalFailure>(e@),
        },
{
    match lookup(name) {
        None => Err(EvalError::UnknownFunction { name: name.to_owned() }),
        Some(function) => {
            let expected = function.arity();
            if found < expected {
                Err(EvalError::ArityMismatch { name: name.to_owned(), expected, found })
            } else {
                Ok(function)
            }
        },
    }
}

/// Appends the program of `expr` to `out`.
fn emit(expr: &Expr, out: &mut Vec<Step>) -> (r: Result<(), EvalError>)
    ensures
        match r {
            Ok(()) => steps(expr@) is Ok && program(final(out)@) == program(old(out)@) + steps(
                expr@,
            )->Ok_0,
            Err(e) => steps(expr@) == Err::<Seq<Instr>, EvalFailure>(e@),
        },
    decreases expr,
{
    match expr {
        Expr::Number { text } => {
            out.push(Step::Push { text: text.clone() });
            assert(program(out@) =~= program(old(out)@) + seq![Instr::Push { text: text@ }]);
            Ok(())
        },
        Expr::BinaryOp { operator, left, right } => {
            match emit(left, out) {
                Ok(()) => {},
                Err(e) => {
                    return Err(e);
                },
            }
            match emit(right, out) {
                Ok(()) => {},
                Err(e) => {
                    return Err(e);
                },
            }
            let ghost before = program(out@);
            out.push(Step::Apply { operator: *operator });
            assert(program(out@) =~= before.push(Instr::Apply { operator: *operator }));
            assert(program(out@) =~= program(old(out)@) + (steps(left@)->Ok_0 + steps(
                right@,
            )->Ok_0 + seq![Instr::Apply { operator: *operator }]));
            Ok(())
        },
        Expr::Call { name, args } => {
            proof {
                crate::ast::lemma_call_view(*name, *args);
            }
            let ghost trees = trees_of(args@);
            let mut i: usize = 0;
            while i < args.len()
                invariant
                    i <= args@.len(),
                    trees == trees_of(args@),
                    expr == (Expr::Call { name: *name, args: *args }),
                    expr@ == (Tree::Call { name: name@, args: trees }),
                    steps_of_first(trees, i as nat) is Ok,
                    program(out@) == program(old(out)@) + steps_of_first(trees, i as nat)->Ok_0,
                decreases args@.len() - i,
            {
                match emit(&args[i], out) {
                    Ok(()) => {},
                    Err(e) => {
                        assert(trees[i as int] == args@[i as int]@);
                        assert(steps_of_first(trees, (i + 1) as nat) == Err::<
                            Seq<Instr>,
                            EvalFailure,
                        >(e@));
                        proof {
                            lemma_first_error(trees, (i + 1) as nat, args@.len() as nat);
                        }
                        return Err(e);
                    },
                }
                assert(program(out@) =~= program(old(out)@) + steps_of_first(
                    trees,
                    (i + 1) as nat,
                )->Ok_0);
                i += 1;
            }
            match resolve(name.as_str(), args.len()) {
                Err(e) => Err(e),
                Ok(function) => {
                    let ghost before = program(out@);
                    out.push(Step::Invoke { function, argc: args.len() });
                    assert(program(out@) =~= before.push(
                        Instr::Invoke { function, argc: args@.len() },
                    ));
                    assert(program(out@) =~= program(old(out)@) + (steps_of_first(
                        trees,
                        trees.len(),
                    )->Ok_0 + seq![Instr::Invoke { function, argc: args@.len() }]));
                    Ok(())
                },
            }
        },
    }
}

/// An error among the first `n` arguments is the error among the first `m`,
/// for every `m` from `n` on.
pub proof fn lemma_first_error(args: Seq<Tree>, n: nat, m: nat)
    requires
        n <= m <= args.len(),
        steps_of_first(args, n) is Err,
    ensures
        steps_of_first(args, m) == steps_of_first(args, n),
    decreases m,
{
    if n < m {
        lemma_first_error(args, n, (m - 1) as nat);
    }
}

/// Lays `expr` out as a postfix program: each number is pushed, and each
/// operator and each call follows its operands. An expression that names an
/// unknown function, or passes one too few arguments, has no program: the
/// error is that of the first such call in the order of evaluation.
///
/// A program runs on an empty stack without finding a value missing, and
/// leaves exactly one: the value of the expression.
pub fn plan(expr: &Expr) -> (r: Result<Vec<Step>, EvalError>)
    ensures
        planned(expr@, r),
        r matches Ok(code) ==> depth_after(program(code@), 0) == Some(1nat) && calls_satisfied(
            program(code@),
        ),
{
    let mut code: Vec<Step> = Vec::new();
    match emit(expr, &mut code) {
        Ok(()) => {
            assert(program(code@) =~= steps(expr@)->Ok_0);
            proof {
                lemma_program_leaves_one_value(expr@, 0);
                lemma_program_is_sound(expr@);
            }
            Ok(code)
        },
        Err(e) => Err(e),
    }
}

} // verus!
