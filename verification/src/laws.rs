use vstd::prelude::*;
use crate::ast::{AstV, Operation};
use crate::environment::{bind_params, env_bind, env_lookup};
use crate::eval::{
    binop_eval_model, binop_model, eval_list_model, eval_model, lemma_eval_list_model_env_len,
    lemma_eval_model_env_len, EnvModel, EvalError,
};
use vstd::arithmetic::div_mod::{
    lemma_div_is_ordered_by_denominator, lemma_div_nonincreasing, lemma_div_pos_is_pos,
};

verus! {

/// A node that evaluates to itself: integers, strings, booleans, the empty
/// value, and the two kinds of function value.
pub open spec fn is_literal(node: AstV) -> bool {
    node is Integer || node is Str || node is Boolean || node is Nil || node is PrimFunction
        || node is DefFunction
}

/// The quotient of 64-bit division, truncated toward zero.
pub open spec fn truncated_quotient(a: int, b: int) -> int {
    if a == 0 {
        0
    } else if a > 0 && b > 0 {
        a / b
    } else if a < 0 && b < 0 {
        (a * -1) / (b * -1)
    } else if a < 0 {
        ((a * -1) / b) * -1
    } else {
        (a / (b * -1)) * -1
    }
}

/// The exact value that a binary operator owes on in-range operands.
pub open spec fn exact_binop_value(op: Operation, a: i64, b: i64) -> int {
    match op {
        Operation::Plus => a + b,
        Operation::Minus => a - b,
        Operation::Multiply => a * b,
        Operation::Divide => truncated_quotient(a as int, b as int),
    }
}

/// Re-evaluating any literal node returns that literal unchanged and
/// leaves the environment unchanged: literals have no side effect.
pub proof fn lemma_literal_identity(node: AstV, env: EnvModel, depth: nat)
    requires
        depth >= 1,
        is_literal(node),
    ensures
        eval_model(node, env, depth) == Ok::<(AstV, EnvModel), EvalError>((node, env)),
{
}

/// Evaluating `(op a b)` on integer literals yields exactly the sum,
/// difference, product or toward-zero-truncated quotient whenever that
/// value fits in 64 bits; for division the divisor must not be zero (and
/// the one overflowing quotient is left out).
pub proof fn lemma_binop_arithmetic(op: Operation, a: i64, b: i64, env: EnvModel, depth: nat)
    requires
        depth >= 2,
        op == Operation::Plus ==> i64::MIN <= a + b <= i64::MAX,
        op == Operation::Minus ==> i64::MIN <= a - b <= i64::MAX,
        op == Operation::Multiply ==> i64::MIN <= a * b <= i64::MAX,
        op == Operation::Divide ==> b != 0 && !(a == i64::MIN && b == -1),
    ensures
        eval_model(
            AstV::BinOp {
                operation: op,
                lhs: Box::new(AstV::Integer(a)),
                rhs: Box::new(AstV::Integer(b)),
            },
            env,
            depth,
        ) == Ok::<(AstV, EnvModel), EvalError>(
            (AstV::Integer(exact_binop_value(op, a, b) as i64), env),
        ),
{
    let d = (depth - 1) as nat;
    assert(eval_model(AstV::Integer(a), env, d) == Ok::<(AstV, EnvModel), EvalError>(
        (AstV::Integer(a), env),
    ));
    assert(eval_model(AstV::Integer(b), env, d) == Ok::<(AstV, EnvModel), EvalError>(
        (AstV::Integer(b), env),
    ));
    if op == Operation::Divide {
        lemma_truncated_quotient_fits(a, b);
        assert(binop_model(op, a, b) == Ok::<AstV, EvalError>(
            AstV::Integer(truncated_quotient(a as int, b as int) as i64),
        ));
    }
    assert(eval_model(
        AstV::BinOp {
            operation: op,
            lhs: Box::new(AstV::Integer(a)),
            rhs: Box::new(AstV::Integer(b)),
        },
        env,
        depth,
    ) == binop_eval_model(op, AstV::Integer(a), AstV::Integer(b), env, d));
}

/// The truncated quotient of two 64-bit integers fits in 64 bits, except
/// for the smallest value divided by minus one.
proof fn lemma_truncated_quotient_fits(a: i64, b: i64)
    requires
        b != 0,
        !(a == i64::MIN && b == -1),
    ensures
        i64::MIN <= truncated_quotient(a as int, b as int) <= i64::MAX,
        a.checked_div(b) == Some(truncated_quotient(a as int, b as int) as i64),
{
    let x = a as int;
    let d = b as int;
    if x == 0 {
    } else if x > 0 && d > 0 {
        lemma_div_pos_is_pos(x, d);
        lemma_div_nonincreasing(x, d);
    } else if x < 0 && d < 0 {
        lemma_div_pos_is_pos(x * -1, d * -1);
        if d == -1 {
            assert(x > i64::MIN);
            lemma_div_nonincreasing(x * -1, d * -1);
        } else {
            lemma_div_is_ordered_by_denominator(x * -1, 2, d * -1);
            lemma_div_nonincreasing(x * -1, 2);
            assert((x * -1) / 2 <= (i64::MIN as int * -1) / 2) by {
                vstd::arithmetic::div_mod::lemma_div_is_ordered(x * -1, i64::MIN as int * -1, 2);
            }
            assert((i64::MIN as int * -1) / 2 == 0x4000_0000_0000_0000int) by {
                vstd::arithmetic::div_mod::lemma_fundamental_div_mod(0x8000_0000_0000_0000int, 2);
            }
        }
    } else if x < 0 {
        lemma_div_pos_is_pos(x * -1, d);
        lemma_div_nonincreasing(x * -1, d);
    } else {
        lemma_div_pos_is_pos(x, d * -1);
        lemma_div_nonincreasing(x, d * -1);
    }
}

/// `(/ a 0)` always yields `DivisionByZeroError`, never a crash.
pub proof fn lemma_division_by_zero(a: i64, env: EnvModel, depth: nat)
    requires
        depth >= 2,
    ensures
        eval_model(
            AstV::BinOp {
                operation: Operation::Divide,
                lhs: Box::new(AstV::Integer(a)),
                rhs: Box::new(AstV::Integer(0)),
            },
            env,
            depth,
        ) == Err::<(AstV, EnvModel), EvalError>(EvalError::DivisionByZeroError),
{
    let d = (depth - 1) as nat;
    assert(eval_model(AstV::Integer(a), env, d) == Ok::<(AstV, EnvModel), EvalError>(
        (AstV::Integer(a), env),
    ));
    assert(eval_model(AstV::Integer(0), env, d) == Ok::<(AstV, EnvModel), EvalError>(
        (AstV::Integer(0), env),
    ));
    assert(eval_model(
        AstV::BinOp {
            operation: Operation::Divide,
            lhs: Box::new(AstV::Integer(a)),
            rhs: Box::new(AstV::Integer(0)),
        },
        env,
        depth,
    ) == binop_eval_model(Operation::Divide, AstV::Integer(a), AstV::Integer(0), env, d));
}

/// Looking up an undefined symbol always yields `UnboundNameError`, never
/// a default value.
pub proof fn lemma_unbound_symbol(name: Seq<char>, env: EnvModel, depth: nat)
    requires
        depth >= 1,
        env_lookup(env, name) is None,
    ensures
        eval_model(AstV::Symbol(name), env, depth) == Err::<(AstV, EnvModel), EvalError>(
            EvalError::UnboundNameError,
        ),
{
}

/// Applying a closure with the wrong argument count always yields
/// `ArityMismatchError`, regardless of whether the mismatch is too few or
/// too many arguments.
pub proof fn lemma_arity_mismatch(
    func: Box<AstV>,
    args: Seq<AstV>,
    env: EnvModel,
    depth: nat,
    params: Seq<Seq<char>>,
    body: Box<AstV>,
    env1: EnvModel,
    vals: Seq<AstV>,
    env2: EnvModel,
)
    requires
        depth >= 1,
        eval_model(*func, env, (depth - 1) as nat) == Ok::<(AstV, EnvModel), EvalError>(
            (AstV::DefFunction { params, body }, env1),
        ),
        eval_list_model(args, env1, (depth - 1) as nat) == Ok::<(Seq<AstV>, EnvModel), EvalError>(
            (vals, env2),
        ),
        params.len() != vals.len(),
    ensures
        eval_model(AstV::Apply { func, args }, env, depth) == Err::<(AstV, EnvModel), EvalError>(
            EvalError::ArityMismatchError,
        ),
{
}

/// `(begin)` always yields `EmptyBlockError`.
pub proof fn lemma_empty_begin(env: EnvModel, depth: nat)
    requires
        depth >= 1,
    ensures
        eval_model(AstV::Begin(Seq::empty()), env, depth) == Err::<(AstV, EnvModel), EvalError>(
            EvalError::EmptyBlockError,
        ),
{
}

/// A conditional takes its consequent exactly on the boolean `true`; on
/// any other predicate value it takes the alternative when present, and
/// yields the boolean `false` when there is none.
pub proof fn lemma_if_semantics(
    pred: Box<AstV>,
    conseq: Box<AstV>,
    alt: Option<Box<AstV>>,
    env: EnvModel,
    depth: nat,
    pv: AstV,
    env1: EnvModel,
)
    requires
        depth >= 1,
        eval_model(*pred, env, (depth - 1) as nat) == Ok::<(AstV, EnvModel), EvalError>(
            (pv, env1),
        ),
    ensures
        pv == AstV::Boolean(true) ==> eval_model(AstV::If(pred, conseq, alt), env, depth)
            == eval_model(*conseq, env1, (depth - 1) as nat),
        pv != AstV::Boolean(true) && alt is None ==> eval_model(AstV::If(pred, conseq, alt), env, depth)
            == Ok::<(AstV, EnvModel), EvalError>((AstV::Boolean(false), env1)),
        forall|a: Box<AstV>|
            pv != AstV::Boolean(true) && alt == Some(a) ==> eval_model(
                AstV::If(pred, conseq, alt),
                env,
                depth,
            ) == eval_model(*a, env1, (depth - 1) as nat),
{
}

/// A closure call computes its result in a fresh frame of the call-site
/// environment and discards that frame afterwards: the environment after
/// the call is exactly the one left by evaluating the callee and the
/// arguments, so a defined function behaves the same on every later call.
pub proof fn lemma_apply_discards_the_call_frame(
    func: Box<AstV>,
    args: Seq<AstV>,
    env: EnvModel,
    depth: nat,
    params: Seq<Seq<char>>,
    body: Box<AstV>,
    env1: EnvModel,
    vals: Seq<AstV>,
    env2: EnvModel,
    rv: AstV,
    env3: EnvModel,
)
    requires
        depth >= 1,
        env.len() >= 1,
        eval_model(*func, env, (depth - 1) as nat) == Ok::<(AstV, EnvModel), EvalError>(
            (AstV::DefFunction { params, body }, env1),
        ),
        eval_list_model(args, env1, (depth - 1) as nat) == Ok::<(Seq<AstV>, EnvModel), EvalError>(
            (vals, env2),
        ),
        params.len() == vals.len(),
        eval_model(
            *body,
            env2.push(bind_params(Map::empty(), params, vals)),
            (depth - 1) as nat,
        ) == Ok::<(AstV, EnvModel), EvalError>((rv, env3)),
    ensures
        eval_model(AstV::Apply { func, args }, env, depth) == Ok::<(AstV, EnvModel), EvalError>(
            (rv, env2),
        ),
{
    let d = (depth - 1) as nat;
    let call_env = env2.push(bind_params(Map::empty(), params, vals));
    lemma_eval_model_env_len(*func, env, d);
    lemma_eval_list_model_env_len(args, env1, d);
    lemma_eval_model_env_len(*body, call_env, d);
    assert forall|i: int| 0 <= i < env2.len() implies env3.drop_last()[i] == env2[i] by {
        assert(env3[i] == call_env[i]);
        assert(call_env[i] == env2[i]);
    }
    assert(env3.drop_last() =~= env2);
}

/// Sequential evaluations preserve definitions: defining a function binds
/// its name to the closure in the current frame, and looking the name up
/// in the returned environment yields exactly that closure, ready for a
/// later call.
pub proof fn lemma_definitions_persist(
    name: Seq<char>,
    params: Seq<Seq<char>>,
    body: Box<AstV>,
    env: EnvModel,
    d1: nat,
    d2: nat,
)
    requires
        d1 >= 1,
        d2 >= 1,
        env.len() >= 1,
    ensures
        ({
            let closure = AstV::DefFunction { params, body };
            let env1 = env_bind(env, name, closure);
            eval_model(AstV::Func { name, params, body }, env, d1) == Ok::<
                (AstV, EnvModel),
                EvalError,
            >((closure, env1)) && eval_model(AstV::Symbol(name), env1, d2) == Ok::<
                (AstV, EnvModel),
                EvalError,
            >((closure, env1))
        }),
{
    let closure = AstV::DefFunction { params, body };
    let env1 = env_bind(env, name, closure);
    assert(env1.last() == env.last().insert(name, closure));
    assert(env_lookup(env1, name) == Some(closure));
}

} // verus!
