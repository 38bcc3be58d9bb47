use brim::ast::{Ast, Operation};
use brim::environment::Environment;
use brim::eval::{eval, EvalError};
use brim::prelude::make_prelude;

fn lit(i: i64) -> Ast {
    Ast::Integer(i)
}

fn sym(s: &str) -> Ast {
    Ast::Symbol(String::from(s))
}

fn binop(op: Operation, a: Ast, b: Ast) -> Ast {
    Ast::BinOp { operation: op, lhs: Box::new(a), rhs: Box::new(b) }
}

fn apply(f: Ast, args: Vec<Ast>) -> Ast {
    Ast::Apply { func: Box::new(f), args }
}

fn eval_value(ast: Ast, env: Environment) -> (Ast, Environment) {
    eval(ast, env).expect("evaluation should succeed")
}

fn expect_int(ast: Ast, env: Environment, expected: i64) -> Environment {
    let (v, env2) = eval_value(ast, env);
    match v {
        Ast::Integer(i) => assert_eq!(i, expected),
        other => panic!("expected an integer, got {:?}", other),
    }
    env2
}

fn expect_err(ast: Ast, env: Environment, expected: EvalError) {
    match eval(ast, env) {
        Err(e) => assert_eq!(e, expected),
        Ok((v, _)) => panic!("expected {:?}, got value {:?}", expected, v),
    }
}

#[test]
fn addition_yields_exact_sum() {
    expect_int(binop(Operation::Plus, lit(40), lit(2)), Environment::new(None), 42);
}

#[test]
fn subtraction_yields_exact_difference() {
    expect_int(binop(Operation::Minus, lit(50), lit(8)), Environment::new(None), 42);
}

#[test]
fn multiplication_yields_exact_product() {
    expect_int(binop(Operation::Multiply, lit(6), lit(7)), Environment::new(None), 42);
}

#[test]
fn division_truncates_toward_zero() {
    expect_int(binop(Operation::Divide, lit(85), lit(2)), Environment::new(None), 42);
    expect_int(binop(Operation::Divide, lit(-7), lit(2)), Environment::new(None), -3);
    expect_int(binop(Operation::Divide, lit(7), lit(-2)), Environment::new(None), -3);
    expect_int(binop(Operation::Divide, lit(-7), lit(-2)), Environment::new(None), 3);
}

#[test]
fn division_by_zero_is_an_error() {
    expect_err(
        binop(Operation::Divide, lit(1), lit(0)),
        Environment::new(None),
        EvalError::DivisionByZeroError,
    );
}

#[test]
fn operands_must_be_integers() {
    expect_err(
        binop(Operation::Plus, lit(1), Ast::Str(String::from("two"))),
        Environment::new(None),
        EvalError::TypeMismatchError,
    );
}

#[test]
fn literals_evaluate_to_themselves() {
    let (v, env) = eval_value(lit(7), Environment::new(None));
    assert!(matches!(v, Ast::Integer(7)));
    let (v, env) = eval_value(Ast::Str(String::from("hi")), env);
    match v {
        Ast::Str(s) => assert_eq!(s, "hi"),
        other => panic!("expected a string, got {:?}", other),
    }
    let (v, env) = eval_value(Ast::Boolean(true), env);
    assert!(matches!(v, Ast::Boolean(true)));
    let (v, _) = eval_value(Ast::Nil, env);
    assert!(matches!(v, Ast::Nil));
}

fn add_decl() -> Ast {
    Ast::Func {
        name: String::from("add"),
        params: vec![String::from("a"), String::from("b")],
        body: Box::new(binop(Operation::Plus, sym("a"), sym("b"))),
    }
}

#[test]
fn define_then_apply_preserves_behavior_across_calls() {
    let (_, env) = eval_value(add_decl(), Environment::new(None));
    let env = expect_int(apply(sym("add"), vec![lit(1), lit(2)]), env, 3);
    expect_int(apply(sym("add"), vec![lit(10), lit(20)]), env, 30);
}

#[test]
fn if_takes_the_branch_that_the_boolean_picks() {
    let env = expect_int(
        Ast::If(Box::new(Ast::Boolean(true)), Box::new(lit(1)), Some(Box::new(lit(2)))),
        Environment::new(None),
        1,
    );
    let env = expect_int(
        Ast::If(Box::new(Ast::Boolean(false)), Box::new(lit(1)), Some(Box::new(lit(2)))),
        env,
        2,
    );
    let (v, _) = eval_value(
        Ast::If(Box::new(Ast::Boolean(false)), Box::new(lit(1)), None),
        env,
    );
    assert!(matches!(v, Ast::Boolean(false)));
}

#[test]
fn truthiness_is_strictly_boolean() {
    // A nonzero integer predicate counts as false.
    expect_int(
        Ast::If(Box::new(lit(1)), Box::new(lit(2)), Some(Box::new(lit(3)))),
        Environment::new(None),
        3,
    );
}

#[test]
fn begin_yields_the_last_value() {
    expect_int(Ast::Begin(vec![lit(1), lit(2), lit(3)]), Environment::new(None), 3);
}

#[test]
fn empty_begin_is_an_error() {
    expect_err(Ast::Begin(vec![]), Environment::new(None), EvalError::EmptyBlockError);
}

#[test]
fn begin_definitions_are_visible_inside_and_dropped_after() {
    let block = Ast::Begin(vec![
        Ast::Func {
            name: String::from("double"),
            params: vec![String::from("x")],
            body: Box::new(binop(Operation::Multiply, sym("x"), lit(2))),
        },
        apply(sym("double"), vec![lit(21)]),
    ]);
    let env = expect_int(block, Environment::new(None), 42);
    expect_err(sym("double"), env, EvalError::UnboundNameError);
}

#[test]
fn undefined_symbol_is_an_error_not_a_default() {
    expect_err(sym("nope"), Environment::new(None), EvalError::UnboundNameError);
}

#[test]
fn wrong_arity_is_an_error_too_few_and_too_many() {
    let (_, env) = eval_value(add_decl(), Environment::new(None));
    match eval(apply(sym("add"), vec![lit(1)]), env) {
        Err(e) => assert_eq!(e, EvalError::ArityMismatchError),
        Ok(_) => panic!("one argument for two parameters must fail"),
    }
    let (_, env) = eval_value(add_decl(), Environment::new(None));
    expect_err(
        apply(sym("add"), vec![lit(1), lit(2), lit(3)]),
        env,
        EvalError::ArityMismatchError,
    );
}

#[test]
fn applying_a_non_function_is_an_error() {
    expect_err(apply(lit(3), vec![]), Environment::new(None), EvalError::NotCallableError);
}

#[test]
fn sequential_top_level_lines_preserve_definitions() {
    let decl = Ast::Func {
        name: String::from("double"),
        params: vec![String::from("x")],
        body: Box::new(binop(Operation::Multiply, sym("x"), lit(2))),
    };
    let (v, env) = eval_value(decl, Environment::new(None));
    assert!(matches!(v, Ast::DefFunction { .. }));
    expect_int(apply(sym("double"), vec![lit(21)]), env, 42);
}

#[test]
fn runaway_recursion_hits_the_depth_limit() {
    let decl = Ast::Func {
        name: String::from("spin"),
        params: vec![String::from("x")],
        body: Box::new(apply(sym("spin"), vec![sym("x")])),
    };
    let (_, env) = eval_value(decl, Environment::new(None));
    expect_err(apply(sym("spin"), vec![lit(1)]), env, EvalError::RecursionLimitError);
}

#[test]
fn prelude_equality_compares_integers() {
    let env = make_prelude();
    let (v, env) = eval_value(apply(sym("=="), vec![lit(4), lit(4)]), env);
    assert!(matches!(v, Ast::Boolean(true)));
    let (v, env) = eval_value(apply(sym("=="), vec![lit(4), lit(5)]), env);
    assert!(matches!(v, Ast::Boolean(false)));
    expect_err(apply(sym("=="), vec![lit(4)]), env, EvalError::ArityMismatchError);
    let env = make_prelude();
    expect_err(
        apply(sym("=="), vec![Ast::Boolean(true), Ast::Boolean(true)]),
        env,
        EvalError::TypeMismatchError,
    );
}

#[test]
fn prelude_println_counts_its_lines() {
    let env = make_prelude();
    let (v, env) = eval_value(
        apply(sym("println"), vec![Ast::Str(String::from("hello"))]),
        env,
    );
    assert!(matches!(v, Ast::Integer(1)));
    let (v, env) = eval_value(apply(sym("println"), vec![]), env);
    assert!(matches!(v, Ast::Integer(0)));
    let (v, env) = eval_value(
        apply(
            sym("println"),
            vec![Ast::Str(String::from("a")), Ast::Str(String::from("b"))],
        ),
        env,
    );
    assert!(matches!(v, Ast::Integer(2)));
    expect_err(apply(sym("println"), vec![lit(1)]), env, EvalError::TypeMismatchError);
}

#[test]
fn argument_environments_thread_left_to_right() {
    // Evaluating the first argument defines `four` as a side effect;
    // the second argument can already call it.
    let env = make_prelude();
    let define_and_call = apply(
        Ast::Func { name: String::from("four"), params: vec![], body: Box::new(lit(4)) },
        vec![],
    );
    let use_it = apply(sym("four"), vec![]);
    let both = apply(sym("=="), vec![define_and_call, use_it]);
    let (v, _) = eval_value(both, env);
    assert!(matches!(v, Ast::Boolean(true)));
}

#[test]
fn a_failed_evaluation_costs_no_definitions() {
    // The caller clones its environment before a top-level evaluation, so
    // a failure leaves the accumulated definitions untouched.
    let (_, env) = eval_value(add_decl(), Environment::new(None));
    let kept = env.clone();
    expect_err(apply(sym("add"), vec![lit(1)]), env, EvalError::ArityMismatchError);
    expect_int(apply(sym("add"), vec![lit(2), lit(3)]), kept, 5);
}

#[test]
fn wrapping_addition_on_overflow() {
    expect_int(
        binop(Operation::Plus, lit(i64::MAX), lit(1)),
        Environment::new(None),
        i64::MIN,
    );
}
