use brim::ast::{Ast, Operation};
use brim::parse::to_raw_string;

fn lit(i: i64) -> Ast {
    Ast::Integer(i)
}

fn sym(s: &str) -> Ast {
    Ast::Symbol(String::from(s))
}

#[test]
fn integers_render_in_decimal() {
    assert_eq!(lit(42).to_text(), "42");
    assert_eq!(lit(0).to_text(), "0");
    assert_eq!(lit(-7).to_text(), "-7");
    assert_eq!(lit(i64::MAX).to_text(), "9223372036854775807");
    assert_eq!(lit(i64::MIN).to_text(), "-9223372036854775808");
}

#[test]
fn strings_render_quoted() {
    assert_eq!(Ast::Str(String::from("hi")).to_text(), "\"hi\"");
    assert_eq!(Ast::Str(String::new()).to_text(), "\"\"");
}

#[test]
fn booleans_and_nil_render_as_words() {
    assert_eq!(Ast::Boolean(true).to_text(), "true");
    assert_eq!(Ast::Boolean(false).to_text(), "false");
    assert_eq!(Ast::Nil.to_text(), "()");
}

#[test]
fn symbols_render_as_their_name() {
    assert_eq!(sym("foo").to_text(), "foo");
}

#[test]
fn applications_render_with_spaces() {
    let a = Ast::Apply { func: Box::new(sym("f")), args: vec![lit(1), lit(2)] };
    assert_eq!(a.to_text(), "(f 1 2)");
    let none = Ast::Apply { func: Box::new(sym("f")), args: vec![] };
    assert_eq!(none.to_text(), "(f)");
}

#[test]
fn function_declarations_render_their_parameter_list() {
    let d0 = Ast::Func { name: String::from("f"), params: vec![], body: Box::new(lit(1)) };
    assert_eq!(d0.to_text(), "(func f () 1)");
    let d1 = Ast::Func {
        name: String::from("f"),
        params: vec![String::from("x")],
        body: Box::new(lit(1)),
    };
    assert_eq!(d1.to_text(), "(func f (x) 1)");
    let d2 = Ast::Func {
        name: String::from("f"),
        params: vec![String::from("x"), String::from("y")],
        body: Box::new(lit(1)),
    };
    assert_eq!(d2.to_text(), "(func f (x y) 1)");
}

#[test]
fn function_values_render_opaquely() {
    let c = Ast::DefFunction { params: vec![String::from("x")], body: Box::new(lit(1)) };
    assert_eq!(c.to_text(), "<func>");
}

#[test]
fn begin_and_if_render_their_forms() {
    assert_eq!(Ast::Begin(vec![lit(1), lit(2)]).to_text(), "(begin 1 2)");
    let with_alt = Ast::If(Box::new(Ast::Boolean(true)), Box::new(lit(1)), Some(Box::new(lit(2))));
    assert_eq!(with_alt.to_text(), "(if true 1 2)");
    let without = Ast::If(Box::new(Ast::Boolean(false)), Box::new(lit(1)), None);
    assert_eq!(without.to_text(), "(if false 1)");
}

#[test]
fn operators_render_their_spelling() {
    assert_eq!(Operation::Plus.to_text(), "+");
    assert_eq!(Operation::Minus.to_text(), "-");
    assert_eq!(Operation::Multiply.to_text(), "*");
    assert_eq!(Operation::Divide.to_text(), "/");
    let b = Ast::BinOp {
        operation: Operation::Divide,
        lhs: Box::new(lit(8)),
        rhs: Box::new(lit(2)),
    };
    assert_eq!(b.to_text(), "(/ 8 2)");
}

#[test]
fn make_symbol_wraps_a_name() {
    let s = Ast::make_symbol(String::from("abc"));
    match *s {
        Ast::Symbol(name) => assert_eq!(name, "abc"),
        other => panic!("expected a symbol, got {:?}", other),
    }
}

#[test]
fn is_true_accepts_only_the_boolean_true() {
    assert!(Ast::Boolean(true).is_true());
    assert!(!Ast::Boolean(false).is_true());
    assert!(!lit(1).is_true());
    assert!(!Ast::Nil.is_true());
}

#[test]
fn to_raw_string_strips_the_delimiters() {
    assert_eq!(to_raw_string("\"abc\""), "abc");
    assert_eq!(to_raw_string("ab"), "");
    assert_eq!(to_raw_string("a"), "");
    assert_eq!(to_raw_string(""), "");
}
