use lisplib::evaluator::{
    eval, eval_divide, eval_minus, eval_multiply, eval_plus, eval_variable_assignment,
    eval_variable_lookup, EvalError,
};
use lisplib::parser::parse_expr;
use lisplib::types::{Atom, Environment, Expr, Instructions};

fn run(text: &str, env: &mut Environment) -> Result<Atom, EvalError> {
    let (rest, expr) = parse_expr(text).unwrap();
    assert_eq!(rest, text.len());
    eval(&expr, env)
}

fn run_fresh(text: &str) -> Result<Atom, EvalError> {
    let mut env = Environment::new();
    run(text, &mut env)
}

fn key(name: &str) -> Atom {
    Atom::Key(name.to_string())
}

fn apply(op: Instructions, operands: Vec<Expr>) -> Expr {
    Expr::Application(Box::new(Expr::Constant(Atom::Instructions(op))), operands)
}

fn num(value: i32) -> Expr {
    Expr::Constant(Atom::Int(value))
}

#[test]
fn parse_then_evaluate_arithmetic() {
    assert_eq!(run_fresh("(+ 1 2 3)"), Ok(Atom::Int(6)));
    assert_eq!(run_fresh("(- 1 2)"), Ok(Atom::Int(-1)));
    assert_eq!(run_fresh("(* 5 4)"), Ok(Atom::Int(20)));
    assert_eq!(run_fresh("(/ 10 2)"), Ok(Atom::Int(5)));
}

#[test]
fn subtraction_and_division_fold_from_the_left() {
    assert_eq!(run_fresh("(- 10 3 2)"), Ok(Atom::Int(5)));
    assert_eq!(run_fresh("(/ 100 10 2)"), Ok(Atom::Int(5)));
    assert_eq!(run_fresh("(- 7)"), Ok(Atom::Int(7)));
    assert_eq!(run_fresh("(/ 7)"), Ok(Atom::Int(7)));
}

#[test]
fn nested_applications() {
    assert_eq!(run_fresh("(+ 1 (* 2 3))"), Ok(Atom::Int(7)));
    assert_eq!(run_fresh("(- (+ 1 2) (/ 8 (- 5 1)))"), Ok(Atom::Int(1)));
}

#[test]
fn sum_and_product_of_no_operands() {
    assert_eq!(run_fresh("(+)"), Ok(Atom::Int(0)));
    assert_eq!(run_fresh("(*)"), Ok(Atom::Int(1)));
    assert_eq!(eval_plus(vec![]), Ok(Atom::Int(0)));
    assert_eq!(eval_multiply(vec![]), Ok(Atom::Int(1)));
}

#[test]
fn difference_and_quotient_need_an_operand() {
    assert_eq!(run_fresh("(-)"), Err(EvalError::ArityError(Instructions::Minus)));
    assert_eq!(run_fresh("(/)"), Err(EvalError::ArityError(Instructions::Divide)));
    assert_eq!(eval_minus(vec![]), Err(EvalError::ArityError(Instructions::Minus)));
    assert_eq!(eval_divide(vec![]), Err(EvalError::ArityError(Instructions::Divide)));
}

#[test]
fn division_by_zero() {
    assert_eq!(run_fresh("(/ 5 0)"), Err(EvalError::DivisionByZero));
    assert_eq!(run_fresh("(/ 5 1 0 2)"), Err(EvalError::DivisionByZero));
    assert_eq!(run_fresh("(/ 0 5)"), Ok(Atom::Int(0)));
}

#[test]
fn quotient_is_truncated_towards_zero() {
    assert_eq!(eval_divide(vec![Atom::Int(-7), Atom::Int(2)]), Ok(Atom::Int(-3)));
    assert_eq!(eval_divide(vec![Atom::Int(7), Atom::Int(-2)]), Ok(Atom::Int(-3)));
    assert_eq!(eval_divide(vec![Atom::Int(-7), Atom::Int(-2)]), Ok(Atom::Int(3)));
    assert_eq!(eval_divide(vec![Atom::Int(7), Atom::Int(2)]), Ok(Atom::Int(3)));
    assert_eq!(run_fresh("(/ (- 0 7) 2)"), Ok(Atom::Int(-3)));
}

#[test]
fn arithmetic_wraps_around() {
    assert_eq!(eval_plus(vec![Atom::Int(i32::MAX), Atom::Int(1)]), Ok(Atom::Int(i32::MIN)));
    assert_eq!(eval_minus(vec![Atom::Int(i32::MIN), Atom::Int(1)]), Ok(Atom::Int(i32::MAX)));
    assert_eq!(eval_multiply(vec![Atom::Int(65536), Atom::Int(65536)]), Ok(Atom::Int(0)));
    assert_eq!(eval_divide(vec![Atom::Int(i32::MIN), Atom::Int(-1)]), Ok(Atom::Int(i32::MIN)));
    assert_eq!(run_fresh("(+ 2147483647 1)"), Ok(Atom::Int(i32::MIN)));
}

#[test]
fn undefined_variable() {
    assert_eq!(run_fresh("y"), Err(EvalError::UndefinedVariable("y".to_string())));
}

#[test]
fn define_then_lookup() {
    let mut env = Environment::new();
    assert_eq!(run("(define x 42)", &mut env), Ok(key("x")));
    assert_eq!(run("x", &mut env), Ok(Atom::Int(42)));
    assert_eq!(env.get("x"), Some(Atom::Int(42)));
    assert!(env.contains_key("x"));
    assert!(!env.contains_key("y"));
}

#[test]
fn define_evaluates_its_value() {
    let mut env = Environment::new();
    assert_eq!(run("(define x (+ 1 2))", &mut env), Ok(key("x")));
    assert_eq!(run("(define y (* x x))", &mut env), Ok(key("y")));
    assert_eq!(run("(+ x y)", &mut env), Ok(Atom::Int(12)));
}

#[test]
fn redefinition_overwrites() {
    let mut env = Environment::new();
    assert_eq!(run("(define x 1)", &mut env), Ok(key("x")));
    assert_eq!(run("(define x 2)", &mut env), Ok(key("x")));
    assert_eq!(run("x", &mut env), Ok(Atom::Int(2)));
}

#[test]
fn type_mismatch_names_the_operation() {
    let mut env = Environment::new();
    env.insert("t".to_string(), Atom::Boolean(true));
    assert_eq!(run("(+ 1 t)", &mut env), Err(EvalError::TypeMismatch(Instructions::Plus)));
    assert_eq!(run("(- 1 t)", &mut env), Err(EvalError::TypeMismatch(Instructions::Minus)));
    assert_eq!(run("(* 1 t)", &mut env), Err(EvalError::TypeMismatch(Instructions::Multiply)));
    assert_eq!(run("(/ 1 t)", &mut env), Err(EvalError::TypeMismatch(Instructions::Divide)));
    let direct = apply(Instructions::Plus, vec![num(1), Expr::Constant(Atom::Boolean(true))]);
    assert_eq!(eval(&direct, &mut env), Err(EvalError::TypeMismatch(Instructions::Plus)));
}

#[test]
fn a_word_in_operand_position_is_a_variable() {
    assert_eq!(run_fresh("(+ 1 t)"), Err(EvalError::UndefinedVariable("t".to_string())));
}

#[test]
fn operand_kinds_are_checked_before_folding() {
    let operands = vec![Atom::Int(5), Atom::Int(0), Atom::Boolean(false)];
    assert_eq!(eval_divide(operands), Err(EvalError::TypeMismatch(Instructions::Divide)));
    assert_eq!(
        eval_plus(vec![Atom::Instructions(Instructions::Plus)]),
        Err(EvalError::TypeMismatch(Instructions::Plus))
    );
    assert_eq!(eval_minus(vec![key("x")]), Err(EvalError::TypeMismatch(Instructions::Minus)));
}

#[test]
fn reserved_instructions_are_unsupported() {
    assert_eq!(run_fresh("(= 1 1)"), Err(EvalError::UnsupportedInstruction));
    let mut env = Environment::new();
    for op in [Instructions::Equal, Instructions::Not, Instructions::Define] {
        let form = apply(op, vec![num(1)]);
        assert_eq!(eval(&form, &mut env), Err(EvalError::UnsupportedInstruction));
    }
}

#[test]
fn operands_of_a_reserved_instruction_are_evaluated_first() {
    assert_eq!(run_fresh("(= 1 y)"), Err(EvalError::UndefinedVariable("y".to_string())));
}

#[test]
fn other_operators_are_invalid() {
    assert_eq!(run_fresh("(x 1)"), Err(EvalError::InvalidOperator));
    assert_eq!(run_fresh("(not 1)"), Err(EvalError::InvalidOperator));
    assert_eq!(run_fresh("(1 2)"), Err(EvalError::InvalidOperator));
    assert_eq!(run_fresh("((+ 1 2) 3)"), Err(EvalError::InvalidOperator));
}

#[test]
fn reserved_forms_are_unsupported() {
    let mut env = Environment::new();
    let cond = Expr::If(Box::new(num(1)), Box::new(num(2)));
    assert_eq!(eval(&cond, &mut env), Err(EvalError::UnsupportedExpression));
    let both = Expr::IfElse(Box::new(num(1)), Box::new(num(2)), Box::new(num(3)));
    assert_eq!(eval(&both, &mut env), Err(EvalError::UnsupportedExpression));
    assert_eq!(eval(&Expr::Quote(vec![num(1)]), &mut env), Err(EvalError::UnsupportedExpression));
}

#[test]
fn define_checks_its_operands() {
    assert_eq!(run_fresh("(define x)"), Err(EvalError::ArityError(Instructions::Define)));
    assert_eq!(run_fresh("(define x 1 2)"), Err(EvalError::ArityError(Instructions::Define)));
    assert_eq!(run_fresh("(define 1 2)"), Err(EvalError::TypeMismatch(Instructions::Define)));
    assert_eq!(run_fresh("(define x y)"), Err(EvalError::UndefinedVariable("y".to_string())));
    let mut env = Environment::new();
    let operands = vec![Expr::Constant(key("n")), num(9)];
    assert_eq!(eval_variable_assignment(&operands, &mut env), Ok(key("n")));
    assert_eq!(env.get("n"), Some(Atom::Int(9)));
}

#[test]
fn bindings_made_before_a_failure_stay() {
    let mut env = Environment::new();
    assert_eq!(
        run("(+ (define z 3) q)", &mut env),
        Err(EvalError::UndefinedVariable("q".to_string()))
    );
    assert_eq!(env.get("z"), Some(Atom::Int(3)));
}

#[test]
fn operands_are_evaluated_from_left_to_right() {
    let mut env = Environment::new();
    assert_eq!(
        run("(+ y (define y 1))", &mut env),
        Err(EvalError::UndefinedVariable("y".to_string()))
    );
    assert!(!env.contains_key("y"));
    assert_eq!(
        run("(+ (define y 1) y)", &mut env),
        Err(EvalError::TypeMismatch(Instructions::Plus))
    );
    assert_eq!(env.get("y"), Some(Atom::Int(1)));
}

#[test]
fn constants_evaluate_to_themselves() {
    let env = Environment::new();
    assert_eq!(eval_variable_lookup(&Atom::Int(3), &env), Ok(Atom::Int(3)));
    assert_eq!(eval_variable_lookup(&Atom::Boolean(false), &env), Ok(Atom::Boolean(false)));
    assert_eq!(
        eval_variable_lookup(&Atom::Instructions(Instructions::Not), &env),
        Ok(Atom::Instructions(Instructions::Not))
    );
    assert_eq!(run_fresh("+"), Ok(Atom::Instructions(Instructions::Plus)));
    assert_eq!(run_fresh("7"), Ok(Atom::Int(7)));
}

#[test]
fn environment_keeps_other_bindings() {
    let mut env = Environment::new();
    env.insert("a".to_string(), Atom::Int(1));
    env.insert("b".to_string(), key("a"));
    env.insert("a".to_string(), Atom::Int(2));
    assert_eq!(env.get("a"), Some(Atom::Int(2)));
    assert_eq!(env.get("b"), Some(key("a")));
    assert_eq!(env.get("c"), None);
    assert_eq!(Atom::Int(2).duplicate(), Atom::Int(2));
    assert_eq!(key("a").duplicate(), key("a"));
}

#[test]
fn what_is_read_is_supported() {
    let texts = ["(+ 1 2)", "(f)", "((+ 1) 2)", "(define x (- 4 1))", "x", "(= 1 2)", "(/ 1 0)"];
    let mut env = Environment::new();
    for text in texts {
        assert_ne!(run(text, &mut env), Err(EvalError::UnsupportedExpression));
    }
}
