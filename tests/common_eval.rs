use calc_engine::engine::{CalcEngine, Outcome};
use calc_engine::error::{CalcError, ErrorClass};
use calc_engine::function::Builtin;
use calc_engine::solve::{BinOp, Expr};
use calc_engine::token::Value;

fn number(v: &Value) -> f64 {
    match v {
        Value::Literal { negative, digits } => {
            let x: f64 = String::from_utf8(digits.clone()).unwrap().parse().unwrap();
            if *negative { -x } else { x }
        }
        Value::Bits(b) => f64::from_bits(*b),
    }
}

fn value_of(e: &Expr) -> f64 {
    match e {
        Expr::Leaf(v) => number(v),
        Expr::Binary(op, l, r) => {
            let (a, b) = (value_of(l), value_of(r));
            match op {
                BinOp::Pow => a.powf(b),
                BinOp::Mul => a * b,
                BinOp::Div => a / b,
                BinOp::Mod => a % b,
                BinOp::Add => a + b,
                BinOp::Sub => a - b,
            }
        }
        Expr::Call(f, radians, a) => {
            let factor = if *radians { 1.0 } else { std::f64::consts::PI / 180.0 };
            let x = value_of(a);
            match f {
                Builtin::Sin => (x * factor).sin(),
                Builtin::Cos => (x * factor).cos(),
                Builtin::Tan => (x * factor).tan(),
                Builtin::Asin => x.asin() * factor,
                Builtin::Acos => x.acos() * factor,
                Builtin::Atan => x.atan() * factor,
                Builtin::Sqrt => x.sqrt(),
                Builtin::Log => x.log10(),
                Builtin::Ln => x.ln(),
            }
        }
    }
}

/// Runs one line the way a host does: computes values and hands them back.
fn run(engine: &mut CalcEngine, text: &str) -> Result<Option<f64>, CalcError> {
    match engine.eval(&text.as_bytes().to_vec())? {
        Outcome::Value(e) => {
            let x = value_of(&e);
            engine.record_answer(x.to_bits());
            Ok(Some(x))
        }
        Outcome::Assign(name, e) => {
            let x = value_of(&e);
            engine.assign(name, x.to_bits());
            Ok(None)
        }
        Outcome::FunctionCreated(_) => Ok(None),
    }
}

fn value(engine: &mut CalcEngine, text: &str) -> f64 {
    run(engine, text).unwrap().unwrap()
}

#[test]
fn product_before_sum() {
    let mut engine = CalcEngine::new();
    assert_eq!(value(&mut engine, "2+3*4"), 14.0);
}

#[test]
fn product_before_sum_tree() {
    let mut engine = CalcEngine::new();
    match engine.eval(&b"2+3*4".to_vec()).unwrap() {
        Outcome::Value(Expr::Binary(BinOp::Add, l, r)) => {
            assert!(matches!(*l, Expr::Leaf(_)));
            assert!(matches!(*r, Expr::Binary(BinOp::Mul, _, _)));
        }
        other => panic!("unexpected {:?}", other),
    }
}

#[test]
fn exponents_group_from_the_left() {
    let mut engine = CalcEngine::new();
    assert_eq!(value(&mut engine, "2^3^2"), 64.0);
}

#[test]
fn brackets_override_precedence() {
    let mut engine = CalcEngine::new();
    assert_eq!(value(&mut engine, "(2+3)*4"), 20.0);
}

#[test]
fn variable_binding_round_trip() {
    let mut engine = CalcEngine::new();
    assert_eq!(run(&mut engine, "x=5"), Ok(None));
    assert_eq!(value(&mut engine, "x*2"), 10.0);
}

#[test]
fn function_definition_and_call() {
    let mut engine = CalcEngine::new();
    assert!(matches!(engine.eval(&b"f(a,b)=a*a+b".to_vec()), Ok(Outcome::FunctionCreated(_))));
    assert_eq!(value(&mut engine, "f(3,4)"), 13.0);
}

#[test]
fn angle_mode_affects_trig() {
    let mut engine = CalcEngine::new();
    assert_eq!(value(&mut engine, "sin(0)"), 0.0);
    engine.set_radians(false);
    assert!(value(&mut engine, "cos(90)").abs() < 1e-12);
    // inverse functions scale their result by the same factor
    let expected = std::f64::consts::FRAC_PI_2 * (std::f64::consts::PI / 180.0);
    assert!((value(&mut engine, "asin(1)") - expected).abs() < 1e-12);
}

#[test]
fn unbound_variable_fails() {
    let mut engine = CalcEngine::new();
    let e = run(&mut engine, "y+1").unwrap_err();
    assert_eq!(e, CalcError::UnknownVariable);
    assert_eq!(e.class(), ErrorClass::Resolution);
}

#[test]
fn unbalanced_brackets_fail_validation() {
    let mut engine = CalcEngine::new();
    let e = run(&mut engine, "(2+3").unwrap_err();
    assert_eq!(e, CalcError::UnmatchedParenthesis);
    assert_eq!(e.class(), ErrorClass::Grammar);
}

#[test]
fn reserved_name_protection() {
    let mut engine = CalcEngine::new();
    let e = run(&mut engine, "sin(x)=x").unwrap_err();
    assert_eq!(e, CalcError::ReservedName);
    assert_eq!(e.class(), ErrorClass::Definition);
    assert_eq!(value(&mut engine, "sin(0)"), 0.0);
}

#[test]
fn reevaluation_is_stable() {
    let mut engine = CalcEngine::new();
    run(&mut engine, "x=3").unwrap();
    run(&mut engine, "z=7").unwrap();
    let first = value(&mut engine, "x*x+1");
    let second = value(&mut engine, "x*x+1");
    assert_eq!(first, 10.0);
    assert_eq!(first, second);
    assert_eq!(value(&mut engine, "z"), 7.0);
    assert_eq!(value(&mut engine, "x"), 3.0);
}

#[test]
fn answer_is_recalled() {
    let mut engine = CalcEngine::new();
    assert_eq!(value(&mut engine, "6*7"), 42.0);
    assert_eq!(engine.prev_answer, 42.0f64.to_bits());
    assert_eq!(value(&mut engine, "ans+1"), 43.0);
}

#[test]
fn seeded_constants() {
    let mut engine = CalcEngine::new();
    assert_eq!(value(&mut engine, "pi"), std::f64::consts::PI);
    assert_eq!(value(&mut engine, "e"), std::f64::consts::E);
    assert_eq!(value(&mut engine, "tau"), std::f64::consts::TAU);
    run(&mut engine, "pi=3").unwrap();
    assert_eq!(value(&mut engine, "pi"), 3.0);
}

#[test]
fn whitespace_is_ignored() {
    let mut engine = CalcEngine::new();
    assert_eq!(value(&mut engine, " 1 +\t2 "), 3.0);
}

#[test]
fn unary_signs_fold() {
    let mut engine = CalcEngine::new();
    assert_eq!(value(&mut engine, "-5+3"), -2.0);
    assert_eq!(value(&mut engine, "2*-3"), -6.0);
    assert_eq!(value(&mut engine, "2--3"), 5.0);
    assert_eq!(value(&mut engine, "+4"), 4.0);
}

#[test]
fn products_and_sums_group_from_the_left() {
    let mut engine = CalcEngine::new();
    assert_eq!(value(&mut engine, "8/4/2"), 1.0);
    assert_eq!(value(&mut engine, "10-4-3"), 3.0);
    assert_eq!(value(&mut engine, "7%4*2"), 6.0);
}

#[test]
fn nested_calls() {
    let mut engine = CalcEngine::new();
    run(&mut engine, "g(x)=x*2").unwrap();
    run(&mut engine, "h(x,y)=g(x)+y").unwrap();
    assert_eq!(value(&mut engine, "h(g(1),3)"), 7.0);
    assert_eq!(value(&mut engine, "sqrt(16)+log(100)"), 6.0);
    assert_eq!(value(&mut engine, "ln(1)"), 0.0);
}

#[test]
fn function_body_captures_variables_at_definition() {
    let mut engine = CalcEngine::new();
    run(&mut engine, "k=10").unwrap();
    run(&mut engine, "p(a)=a+k").unwrap();
    run(&mut engine, "k=100").unwrap();
    assert_eq!(value(&mut engine, "p(1)"), 11.0);
}

#[test]
fn function_errors() {
    let mut engine = CalcEngine::new();
    assert_eq!(run(&mut engine, "q(1)"), Err(CalcError::UnknownFunction));
    run(&mut engine, "f(a)=a").unwrap();
    assert_eq!(run(&mut engine, "f(1,2)"), Err(CalcError::IncorrectArgumentCount));
    assert_eq!(run(&mut engine, "sin(1,2)"), Err(CalcError::IncorrectArgumentCount));
    assert_eq!(run(&mut engine, "g(a)=a+w"), Err(CalcError::InvalidVariables));
    assert_eq!(run(&mut engine, "r(r(1))=2"), Err(CalcError::ExpectedArg));
    assert_eq!(run(&mut engine, "2=3"), Err(CalcError::InvalidAssignmentTarget));
    assert_eq!(CalcError::IncorrectArgumentCount.class(), ErrorClass::Invocation);
}

#[test]
fn recursion_is_cut_off() {
    let mut engine = CalcEngine::new();
    run(&mut engine, "f(x)=x").unwrap();
    run(&mut engine, "f(x)=1+f(x)").unwrap();
    assert_eq!(run(&mut engine, "f(1)"), Err(CalcError::TooDeep));
}

#[test]
fn unsupported_operators_fail() {
    let mut engine = CalcEngine::new();
    assert_eq!(run(&mut engine, "5&3"), Err(CalcError::Unsupported));
    assert_eq!(run(&mut engine, "5<<1"), Err(CalcError::Unsupported));
}

#[test]
fn lexical_errors() {
    let mut engine = CalcEngine::new();
    assert_eq!(run(&mut engine, "1.2.3"), Err(CalcError::InvalidNumber));
    assert_eq!(run(&mut engine, "2$3"), Err(CalcError::InvalidOperator));
    assert_eq!(run(&mut engine, "2\u{e9}"), Err(CalcError::InvalidInput));
    assert_eq!(CalcError::InvalidInput.class(), ErrorClass::Lexical);
}

#[test]
fn failed_definition_keeps_state() {
    let mut engine = CalcEngine::new();
    run(&mut engine, "f(a)=a+1").unwrap();
    assert_eq!(run(&mut engine, "f(a)=a+nope"), Err(CalcError::InvalidVariables));
    assert_eq!(value(&mut engine, "f(1)"), 2.0);
}

#[test]
fn sign_after_right_bracket_folds() {
    let mut engine = CalcEngine::new();
    assert_eq!(run(&mut engine, "(2)-3"), Err(CalcError::InvalidSequence));
    assert_eq!(value(&mut engine, "(2)- x0".replace("x0", "(3)").as_str()), -1.0);
}

#[test]
fn arguments_are_evaluated_on_their_own() {
    let mut engine = CalcEngine::new();
    run(&mut engine, "g(a)=1").unwrap();
    assert_eq!(run(&mut engine, "g(foo(1))"), Err(CalcError::UnknownFunction));
    assert_eq!(run(&mut engine, "g(y)"), Err(CalcError::UnknownVariable));
    assert_eq!(value(&mut engine, "g(2)"), 1.0);
}

#[test]
fn nested_calls_stay_small() {
    let mut engine = CalcEngine::new();
    run(&mut engine, "d(x)=x+x").unwrap();
    assert_eq!(value(&mut engine, "d(d(d(d(d(d(d(d(d(d(1))))))))))"), 1024.0);
}

#[test]
fn error_texts() {
    assert_eq!(CalcError::UnknownVariable.message(), "Variable does not exist");
    assert_eq!(CalcError::IncorrectArgumentCount.message(), "incorrect argument count");
}
