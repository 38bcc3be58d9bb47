use brim::ast::Ast;
use brim::environment::Environment;
use brim::prelude::make_prelude;

fn key(s: &str) -> String {
    String::from(s)
}

fn get_int(env: &Environment, name: &str) -> Option<i64> {
    match env.get(&key(name)) {
        Some(Ast::Integer(i)) => Some(i),
        Some(other) => panic!("expected an integer binding, got {:?}", other),
        None => None,
    }
}

#[test]
fn a_fresh_frame_is_empty() {
    let env = Environment::new(None);
    assert!(env.get(&key("x")).is_none());
}

#[test]
fn set_then_get_returns_the_value() {
    let mut env = Environment::new(None);
    env.set(key("x"), Ast::Integer(5));
    assert_eq!(get_int(&env, "x"), Some(5));
}

#[test]
fn a_later_set_overwrites() {
    let mut env = Environment::new(None);
    env.set(key("x"), Ast::Integer(5));
    env.set(key("x"), Ast::Integer(6));
    assert_eq!(get_int(&env, "x"), Some(6));
}

#[test]
fn lookup_falls_back_to_the_enclosing_frame() {
    let mut outer = Environment::new(None);
    outer.set(key("x"), Ast::Integer(1));
    outer.set(key("y"), Ast::Integer(2));
    let mut inner = Environment::new(Some(Box::new(outer)));
    inner.set(key("x"), Ast::Integer(10));
    // The inner binding shadows; the miss falls through.
    assert_eq!(get_int(&inner, "x"), Some(10));
    assert_eq!(get_int(&inner, "y"), Some(2));
    assert_eq!(get_int(&inner, "z"), None);
}

#[test]
fn set_list_binds_pairwise_in_order() {
    let mut env = Environment::new(None);
    let ok = env.set_list(
        vec![key("a"), key("b"), key("a")],
        vec![Ast::Integer(1), Ast::Integer(2), Ast::Integer(3)],
    );
    assert!(ok);
    // The later duplicate wins.
    assert_eq!(get_int(&env, "a"), Some(3));
    assert_eq!(get_int(&env, "b"), Some(2));
}

#[test]
fn set_list_with_unequal_lengths_binds_nothing() {
    let mut env = Environment::new(None);
    let ok = env.set_list(vec![key("a"), key("b")], vec![Ast::Integer(1)]);
    assert!(!ok);
    assert_eq!(get_int(&env, "a"), None);
    assert_eq!(get_int(&env, "b"), None);
}

#[test]
fn the_prelude_holds_the_two_builtins() {
    let env = make_prelude();
    assert!(matches!(env.get(&key("println")), Some(Ast::PrimFunction(_))));
    assert!(matches!(env.get(&key("==")), Some(Ast::PrimFunction(_))));
    assert!(env.get(&key("+")).is_none());
}
