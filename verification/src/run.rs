//! From a text to the program that computes its value.
use vstd::prelude::*;
use vstd::string::StringSliceAdditionalSpecFns;
use crate::interpreter::{
    eval_message, plan, program, steps, EvalError, EvalFailure, Instr, Step,
};
use crate::interpreter_laws::{
    calls_satisfied, depth_after, lemma_program_is_sound, lemma_program_leaves_one_value,
    pushes_literals,
};
use crate::lex::tokens_of;
use crate::parse::{parse, parse_message, parse_spec, ParseError, ParseFailure};
use crate::parse_laws::lemma_parsed_numbers_are_literals;
use crate::semantics::{lemma_plan_agrees_with_value, stack_after, value, Arithmetic};

verus! {

/// Why a text has no value.
#[derive(Clone, Debug, PartialEq, Eq)]
pub enum Error {
    /// The text is no expression.
    Parse(ParseError),
    /// The expression has no value.
    Eval(EvalError),
}

/// An error as the contracts see it.
pub ghost enum Failure {
    Parse(ParseFailure),
    Eval(EvalFailure),
}

impl View for Error {
    type V = Failure;

    open spec fn view(&self) -> Failure {
        match self {
            Error::Parse(e) => Failure::Parse(e@),
            Error::Eval(e) => Failure::Eval(e@),
        }
    }
}

/// What an error says.
pub open spec fn message(e: Failure) -> Seq<char> {
    match e {
        Failure::Parse(e) => parse_message(e),
        Failure::Eval(e) => eval_message(e),
    }
}

impl Error {
    /// The error in words: what the stage that failed says.
    pub fn message(&self) -> (s: String)
        ensures
            s@ == message(self@),
    {
        match self {
            Error::Parse(e) => e.message(),
            Error::Eval(e) => e.message(),
        }
    }
}

/// The program of the expression that the text starts with, or the error
/// that parsing or planning ends with.
pub open spec fn compile_spec(input: Seq<u8>) -> Result<Seq<Instr>, Failure> {
    match parse_spec(input) {
        Err(e) => Err(Failure::Parse(e)),
        Ok(tree) => match steps(tree) {
            Err(e) => Err(Failure::Eval(e)),
            Ok(code) => Ok(code),
        },
    }
}

/// A program that a stack machine can run without a check: on an empty
/// stack it never finds a value missing and leaves exactly one, every call
/// passes its function the arguments that it reads, and every number pushed
/// is a number literal.
pub open spec fn runnable(code: Seq<Instr>) -> bool {
    &&& depth_after(code, 0) == Some(1nat)
    &&& calls_satisfied(code)
    &&& pushes_literals(code)
}

/// Every program that a text compiles to is runnable.
pub proof fn lemma_compiled_is_runnable(input: Seq<u8>)
    requires
        compile_spec(input) is Ok,
    ensures
        runnable(compile_spec(input)->Ok_0),
{
    let tree = parse_spec(input)->Ok_0;
    lemma_parsed_numbers_are_literals(tokens_of(input)->Ok_0);
    lemma_program_leaves_one_value(tree, 0);
    lemma_program_is_sound(tree);
}

/// The value of the expression that the text starts with, on the arithmetic
/// `ops`, or the error that parsing or evaluation ends with.
pub open spec fn value_of<N>(input: Seq<u8>, ops: Arithmetic<N>) -> Result<N, Failure> {
    match parse_spec(input) {
        Err(e) => Err(Failure::Parse(e)),
        Ok(tree) => match value(tree, ops) {
            Err(e) => Err(Failure::Eval(e)),
            Ok(v) => Ok(v),
        },
    }
}

/// Compiling and running is evaluating: on every arithmetic, the program of
/// a text leaves the value of the text on an empty stack, and nothing else;
/// a text that has no program has no value, with the same error.
pub proof fn lemma_compiled_computes_value<N>(input: Seq<u8>, ops: Arithmetic<N>)
    ensures
        match compile_spec(input) {
            Ok(code) => value_of(input, ops) is Ok && stack_after(code, Seq::<N>::empty(), ops) == Some(
                seq![value_of(input, ops)->Ok_0],
            ),
            Err(e) => value_of(input, ops) == Err::<N, Failure>(e),
        },
{
    if let Ok(tree) = parse_spec(input) {
        lemma_plan_agrees_with_value(tree, ops);
    }
}

/// Parses `code` and lays the expression out as a program. Errors of either
/// stage come back unchanged.
pub fn compile(code: &str) -> (r: Result<Vec<Step>, Error>)
    ensures
        match r {
            Ok(steps) => compile_spec(code.spec_bytes()) == Ok::<Seq<Instr>, Failure>(
                program(steps@),
            ) && runnable(program(steps@)),
            Err(e) => compile_spec(code.spec_bytes()) == Err::<Seq<Instr>, Failure>(e@),
        },
{
    let expr = match parse(code) {
        Ok(expr) => expr,
        Err(e) => {
            return Err(Error::Parse(e));
        },
    };
    match plan(&expr) {
        Ok(steps) => {
            proof {
                lemma_compiled_is_runnable(code.spec_bytes());
            }
            Ok(steps)
        },
        Err(e) => Err(Error::Eval(e)),
    }
}

} // verus!
