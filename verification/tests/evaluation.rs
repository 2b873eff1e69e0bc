use formula::ast::{Expr, Operator};
use formula::interpreter::{lookup, plan, resolve, Builtin, EvalError, Step};
use formula::parse::{parse, ParseError};
use formula::run::{compile, Error};

/// Runs a postfix program on double-precision numbers.
fn run_steps(code: &[Step]) -> f64 {
    let mut stack: Vec<f64> = Vec::new();
    for step in code {
        match step {
            Step::Push { text } => stack.push(text.parse::<f64>().unwrap()),
            Step::Apply { operator } => {
                let b = stack.pop().unwrap();
                let a = stack.pop().unwrap();
                stack.push(match operator {
                    Operator::Add => a + b,
                    Operator::Subtract => a - b,
                    Operator::Multiply => a * b,
                    Operator::Divide => a / b,
                });
            }
            Step::Invoke { function, argc } => {
                let args = stack.split_off(stack.len() - argc);
                stack.push(match function {
                    Builtin::Pi => std::f64::consts::PI,
                    Builtin::Sin => args[0].sin(),
                    Builtin::Cos => args[0].cos(),
                    Builtin::Tan => args[0].tan(),
                    Builtin::Sum => args.iter().sum(),
                });
            }
        }
    }
    assert_eq!(stack.len(), 1);
    stack[0]
}

fn parse_and_eval(code: &str, expected: f64) {
    let expr = parse(code).unwrap();
    let value = run_steps(&plan(&expr).unwrap());
    assert!((value - expected).abs() < 1e-6, "{} gave {}", code, value);
}

#[test]
fn bin_op() {
    parse_and_eval("2 + 2", 4.0);
    parse_and_eval("2 - 3", -1.0);
    parse_and_eval("2 * 3", 6.0);
    parse_and_eval("2 / 2", 1.0);
    parse_and_eval("(2 + 2)", 4.0);
    parse_and_eval("2 + 3 - 6", -1.0);
    parse_and_eval("((2 + 3) - 6)", -1.0);
    parse_and_eval("(2 + (3 - 6))", -1.0);
    parse_and_eval("(2 - (3 - 6))", 5.0);
}

#[test]
fn fns() {
    parse_and_eval("Sum()", 0.0);
    parse_and_eval("Sum(1)", 1.0);
    parse_and_eval("Sum(1,2)", 3.0);
    parse_and_eval("Sum(1,2,3)", 6.0);

    parse_and_eval("Sin(0)", 0.0);
    parse_and_eval("Sin(Pi())", 0.0);
    parse_and_eval("Cos(0)", 1.0);
    parse_and_eval("Cos(Pi())", -1.0);
}

fn value_of(code: &str) -> f64 {
    run_steps(&compile(code).unwrap())
}

#[test]
fn round_trip_arithmetic() {
    assert_eq!(value_of("2 + 2"), 4.0);
    assert_eq!(value_of("2 - 3"), -1.0);
    assert_eq!(value_of("2 * 3"), 6.0);
    assert_eq!(value_of("2 / 2"), 1.0);
    assert_eq!(value_of("1.5 + 2.25"), 3.75);
}

#[test]
fn grouping_is_flat_and_to_the_left() {
    assert_eq!(value_of("2 + 3 - 6"), -1.0);
    assert_eq!(value_of("(2 - (3 - 6))"), 5.0);
    assert_eq!(value_of("2 + 3 * 4"), 20.0);
    assert_eq!(value_of("2 + (3 * 4)"), 14.0);
    assert_eq!(value_of("8 / 4 / 2"), 1.0);
    assert_eq!(value_of("8 / (4 / 2)"), 4.0);
}

#[test]
fn division_by_zero_follows_the_arithmetic() {
    assert_eq!(value_of("1 / 0"), f64::INFINITY);
    assert!(value_of("0 / 0").is_nan());
}

#[test]
fn sum_takes_any_number_of_arguments() {
    assert_eq!(value_of("Sum()"), 0.0);
    assert_eq!(value_of("Sum(1)"), 1.0);
    assert_eq!(value_of("Sum(1,2,3)"), 6.0);
    assert_eq!(value_of("Sum(1, Sum(2, 3), 4 * 5)"), 26.0);
}

#[test]
fn trigonometry_composes() {
    assert_eq!(value_of("Sin(0)"), 0.0);
    assert!(value_of("Sin(Pi())").abs() < 1e-6);
    assert_eq!(value_of("Cos(0)"), 1.0);
    assert!((value_of("Cos(Pi())") + 1.0).abs() < 1e-6);
    assert_eq!(value_of("Tan(0)"), 0.0);
    assert!((value_of("Tan(Pi() / 4)") - 1.0).abs() < 1e-6);
    assert_eq!(value_of("Pi()"), std::f64::consts::PI);
}

#[test]
fn arguments_behind_those_a_function_reads_are_left_unread() {
    assert_eq!(value_of("Cos(0, 5)"), 1.0);
    assert_eq!(value_of("Pi(1, 2)"), std::f64::consts::PI);
    assert_eq!(value_of("1 + Sin(0, 2, 3)"), 1.0);
}

#[test]
fn an_unknown_function_parses_and_does_not_evaluate() {
    let expr = parse("Unknown(1)").unwrap();
    assert_eq!(plan(&expr), Err(EvalError::UnknownFunction { name: "Unknown".to_string() }));
    assert_eq!(
        compile("Unknown(1)"),
        Err(Error::Eval(EvalError::UnknownFunction { name: "Unknown".to_string() }))
    );
    assert_eq!(
        compile("sin(1)"),
        Err(Error::Eval(EvalError::UnknownFunction { name: "sin".to_string() }))
    );
}

#[test]
fn a_missing_argument_is_an_arity_error() {
    for name in ["Sin", "Cos", "Tan"] {
        let code = format!("{}()", name);
        assert_eq!(
            plan(&parse(&code).unwrap()),
            Err(EvalError::ArityMismatch { name: name.to_string(), expected: 1, found: 0 })
        );
    }
}

#[test]
fn the_first_error_in_evaluation_order_is_reported() {
    assert_eq!(
        compile("Foo(1) + Bar(2)"),
        Err(Error::Eval(EvalError::UnknownFunction { name: "Foo".to_string() }))
    );
    assert_eq!(
        compile("Outer(Inner(1))"),
        Err(Error::Eval(EvalError::UnknownFunction { name: "Inner".to_string() }))
    );
    assert_eq!(
        compile("Sum(1, Sin(), Nope())"),
        Err(Error::Eval(EvalError::ArityMismatch { name: "Sin".to_string(), expected: 1, found: 0 }))
    );
    assert_eq!(
        compile("Sin(Nope())"),
        Err(Error::Eval(EvalError::UnknownFunction { name: "Nope".to_string() }))
    );
}

#[test]
fn errors_of_parsing_come_before_those_of_evaluation() {
    assert_eq!(compile("Nope(1) + @"), Err(Error::Parse(ParseError::Lex { offset: 10 })));
    assert_eq!(
        compile("Nope(1"),
        Err(Error::Parse(ParseError::Unexpected {
            expected: formula::lex::TokenTy::RParen,
            found: formula::lex::TokenTy::EOF
        }))
    );
}

#[test]
fn planning_twice_gives_the_same_program() {
    let expr = parse("Sum(1, 2 * 3) - Cos(Pi())").unwrap();
    let first = plan(&expr).unwrap();
    let second = plan(&expr).unwrap();
    assert_eq!(first, second);
    assert_eq!(run_steps(&first).to_bits(), run_steps(&second).to_bits());
}

#[test]
fn a_program_is_the_expression_in_postfix() {
    let push = |text: &str| Step::Push { text: text.to_string() };
    assert_eq!(
        compile("1 + Sum(2, 3.5) * Pi()"),
        Ok(vec![
            push("1"),
            push("2"),
            push("3.5"),
            Step::Invoke { function: Builtin::Sum, argc: 2 },
            Step::Apply { operator: Operator::Add },
            Step::Invoke { function: Builtin::Pi, argc: 0 },
            Step::Apply { operator: Operator::Multiply },
        ])
    );
}

#[test]
fn a_tree_built_by_hand_is_planned_like_a_parsed_one() {
    let expr = Expr::BinaryOp {
        operator: Operator::Divide,
        left: Box::new(Expr::Number { text: "1".to_string() }),
        right: Box::new(Expr::Call { name: "Cos".to_string(), args: vec![Expr::Number { text: "0".to_string() }] }),
    };
    assert_eq!(plan(&expr), plan(&parse("1 / Cos(0)").unwrap()));
    assert_eq!(run_steps(&plan(&expr).unwrap()), 1.0);
}

#[test]
fn names_are_looked_up_exactly() {
    assert_eq!(lookup("Pi"), Some(Builtin::Pi));
    assert_eq!(lookup("Sin"), Some(Builtin::Sin));
    assert_eq!(lookup("Cos"), Some(Builtin::Cos));
    assert_eq!(lookup("Tan"), Some(Builtin::Tan));
    assert_eq!(lookup("Sum"), Some(Builtin::Sum));
    assert_eq!(lookup("sum"), None);
    assert_eq!(lookup("Sine"), None);
    assert_eq!(lookup(""), None);
}

#[test]
fn functions_have_arities() {
    assert_eq!(Builtin::Pi.arity(), 0);
    assert_eq!(Builtin::Sin.arity(), 1);
    assert_eq!(Builtin::Cos.arity(), 1);
    assert_eq!(Builtin::Tan.arity(), 1);
    assert_eq!(Builtin::Sum.arity(), 0);
}

#[test]
fn resolve_checks_the_name_before_the_arguments() {
    assert_eq!(resolve("Tan", 1), Ok(Builtin::Tan));
    assert_eq!(resolve("Tan", 3), Ok(Builtin::Tan));
    assert_eq!(
        resolve("Tan", 0),
        Err(EvalError::ArityMismatch { name: "Tan".to_string(), expected: 1, found: 0 })
    );
    assert_eq!(resolve("Abs", 0), Err(EvalError::UnknownFunction { name: "Abs".to_string() }));
    assert_eq!(resolve("Sum", 0), Ok(Builtin::Sum));
    assert_eq!(resolve("Pi", 0), Ok(Builtin::Pi));
}

#[test]
fn evaluation_errors_have_messages() {
    assert_eq!(
        EvalError::UnknownFunction { name: "Abs".to_string() }.message(),
        "unknown function: Abs"
    );
    assert_eq!(
        EvalError::ArityMismatch { name: "Sin".to_string(), expected: 1, found: 0 }.message(),
        "too few arguments for Sin: expected 1, found 0"
    );
    assert_eq!(compile("2 + @").unwrap_err().message(), "Could not parse token at idx: 4");
    assert_eq!(compile("Abs(1)").unwrap_err().message(), "unknown function: Abs");
}
