use vstd::prelude::*;
use crate::ast::{ast_view, asts_view, lemma_asts_view_index, Ast, AstV, Primitive};
use crate::environment::{env_bind, Environment};
use crate::eval::{apply_primitive_model, EvalError};
use std::io::Write;

verus! {

/// Relies on std::io::Stdout::write_fmt (through `writeln`): prints one
/// line for the output primitive.  Output only; nothing is claimed of it.
#[verifier::external_body]
fn emit_line(s: &str) {
    let _ = writeln!(std::io::stdout(), "stdout> {}", s);
}

/// Relies on std::io::Stdout::write_fmt (through `writeln`): prints the
/// blank line that the output primitive writes when it gets no arguments.
#[verifier::external_body]
fn emit_blank_line() {
    let _ = writeln!(std::io::stdout(), "\n");
}

/// Invokes a primitive on a list of already evaluated arguments.
///
/// `println` prints each string argument as one line and returns how many
/// arguments it printed (zero arguments print a blank line and return 0);
/// any non-string argument is a type mismatch.  `==` compares exactly two
/// integers.
pub fn apply_primitive(p: Primitive, args: &Vec<Ast>) -> (r: Result<Ast, EvalError>)
    ensures
        match r {
            Ok(v) => apply_primitive_model(p, asts_view(args@)) == Ok::<AstV, EvalError>(v@),
            Err(e) => apply_primitive_model(p, asts_view(args@)) == Err::<AstV, EvalError>(e),
        },
{
    proof {
        lemma_asts_view_index(args@);
    }
    match p {
        Primitive::Equals => {
            if args.len() != 2 {
                proof {
                    assert(asts_view(args@).len() != 2);
                }
                Err(EvalError::ArityMismatchError)
            } else {
                proof {
                    assert(asts_view(args@)[0] == ast_view(args@[0]));
                    assert(asts_view(args@)[1] == ast_view(args@[1]));
                }
                match &args[0] {
                    Ast::Integer(a) => match &args[1] {
                        Ast::Integer(b) => {
                            proof {
                                assert(asts_view(args@)[0] == AstV::Integer(*a));
                                assert(asts_view(args@)[1] == AstV::Integer(*b));
                            }
                            Ok(Ast::Boolean(*a == *b))
                        },
                        _ => {
                            proof {
                                assert(!(asts_view(args@)[1] is Integer));
                            }
                            Err(EvalError::TypeMismatchError)
                        },
                    },
                    _ => {
                        proof {
                            assert(!(asts_view(args@)[0] is Integer));
                        }
                        Err(EvalError::TypeMismatchError)
                    },
                }
            }
        },
        Primitive::Println => {
            if args.len() == 0 {
                emit_blank_line();
                proof {
                    assert(asts_view(args@).len() == 0);
                }
                Ok(Ast::Integer(0))
            } else {
                let mut i: usize = 0;
                while i < args.len()
                    invariant
                        p == Primitive::Println,
                        i <= args@.len(),
                        args@.len() > 0,
                        forall|j: int| 0 <= j < i ==> ast_view(#[trigger] args@[j]) is Str,
                    decreases args@.len() - i,
                {
                    match &args[i] {
                        Ast::Str(s) => emit_line(s.as_str()),
                        _ => {
                            proof {
                                lemma_asts_view_index(args@);
                                assert(!(asts_view(args@)[i as int] is Str));
                            }
                            return Err(EvalError::TypeMismatchError);
                        },
                    }
                    i = i + 1;
                }
                proof {
                    lemma_asts_view_index(args@);
                    assert forall|k: int| 0 <= k < asts_view(args@).len() implies (#[trigger] asts_view(
                        args@,
                    )[k]) is Str by {
                        assert(asts_view(args@)[k] == ast_view(args@[k]));
                    }
                }
                let n = args.len();
                if n as u64 <= (i64::MAX as u64) {
                    Ok(Ast::Integer(n as i64))
                } else {
                    Ok(Ast::Integer(i64::MAX))
                }
            }
        },
    }
}

/// Installs a callable binding in a frame; the evaluator treats such
/// bindings opaquely.
pub fn add_primitive_function(prelude: &mut Environment, string: &str, f: Primitive)
    ensures
        final(prelude)@ == env_bind(old(prelude)@, string@, AstV::PrimFunction(f)),
{
    prelude.set(string.to_owned(), Ast::PrimFunction(f));
}

/// The global frame created once at startup: the output primitive under
/// `println` and integer equality under `==`.
pub fn make_prelude() -> (r: Environment)
    ensures
        r@ == seq![
            Map::<Seq<char>, AstV>::empty().insert(
                "println"@,
                AstV::PrimFunction(Primitive::Println),
            ).insert("=="@, AstV::PrimFunction(Primitive::Equals)),
        ],
{
    let mut prelude = Environment::new(None);
    add_primitive_function(&mut prelude, "println", Primitive::Println);
    add_primitive_function(&mut prelude, "==", Primitive::Equals);
    proof {
        assert(prelude@ =~= seq![
            Map::<Seq<char>, AstV>::empty().insert(
                "println"@,
                AstV::PrimFunction(Primitive::Println),
            ).insert("=="@, AstV::PrimFunction(Primitive::Equals)),
        ]);
    }
    prelude
}

} // verus!
