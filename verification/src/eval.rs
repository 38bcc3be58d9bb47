use vstd::prelude::*;
use crate::ast::{
    Ast, AstV, Operation, Primitive, ast_view, asts_view, lemma_asts_view_index, strs_view,
};
use crate::environment::{bind_params, env_bind, env_lookup, lemma_env_len, Environment};

verus! {

/// The model of an environment chain: one mapping per frame, outermost
/// first.
pub type EnvModel = Seq<Map<Seq<char>, AstV>>;

/// The failures that evaluation can surface.  Each is a typed result, not a
/// crash: the caller reports it and keeps its accumulated definitions.
#[derive(Clone, Copy, PartialEq, Eq, Structural, Debug)]
pub enum EvalError {
    /// A symbol lookup missed across the whole environment chain.
    UnboundNameError,
    /// A call's argument count differs from the callee's parameter count.
    ArityMismatchError,
    /// The callee of an application is neither a closure nor a primitive.
    NotCallableError,
    /// Operand types unsupported for a binary operator or primitive.
    TypeMismatchError,
    /// Integer division by zero.
    DivisionByZeroError,
    /// A sequencing block with no expressions.
    EmptyBlockError,
    /// Evaluation exceeded the explicit recursion-depth limit.
    RecursionLimitError,
}

/// Evaluation is plain recursion over the tree and is therefore bounded by
/// an explicit depth limit, reported as `RecursionLimitError` when
/// exceeded.
pub const MAX_DEPTH: u64 = 1024;

/// What a primitive returns for a list of already evaluated arguments.
pub open spec fn apply_primitive_model(p: Primitive, vals: Seq<AstV>) -> Result<AstV, EvalError> {
    match p {
        Primitive::Equals => if vals.len() != 2 {
            Err(EvalError::ArityMismatchError)
        } else {
            match (vals[0], vals[1]) {
                (AstV::Integer(a), AstV::Integer(b)) => Ok(AstV::Boolean(a == b)),
                _ => Err(EvalError::TypeMismatchError),
            }
        },
        Primitive::Println => if vals.len() == 0 {
            Ok(AstV::Integer(0))
        } else if forall|i: int| 0 <= i < vals.len() ==> (#[trigger] vals[i]) is Str {
            Ok(AstV::Integer(count_value(vals.len())))
        } else {
            Err(EvalError::TypeMismatchError)
        },
    }
}

/// The integer that reports how many lines were printed.
pub open spec fn count_value(n: nat) -> i64 {
    if n <= i64::MAX {
        n as i64
    } else {
        i64::MAX
    }
}

/// What a binary operator yields on two integer operands.  Addition,
/// subtraction and multiplication wrap on 64-bit overflow; division
/// truncates toward zero, rejects a zero divisor, and wraps on the one
/// overflowing quotient.
pub open spec fn binop_model(op: Operation, a: i64, b: i64) -> Result<AstV, EvalError> {
    match op {
        Operation::Plus => Ok(AstV::Integer(vstd::wrapping::i64_specs::wrapping_add(a, b))),
        Operation::Minus => Ok(AstV::Integer(vstd::wrapping::i64_specs::wrapping_sub(a, b))),
        Operation::Multiply => Ok(AstV::Integer(vstd::wrapping::i64_specs::wrapping_mul(a, b))),
        Operation::Divide => if b == 0 {
            Err(EvalError::DivisionByZeroError)
        } else {
            match a.checked_div(b) {
                Some(q) => Ok(AstV::Integer(q)),
                None => Ok(AstV::Integer(i64::MIN)),
            }
        },
    }
}

/// The language's semantics: reducing a node in an environment yields a
/// value and a possibly extended or rebound environment, or an error.
///
/// Literals and function values evaluate to themselves.  A symbol is looked
/// up along the chain.  An application evaluates the callee, then each
/// argument left to right with the environment threaded through, then
/// either invokes a primitive or binds parameters in a fresh frame of the
/// call-site environment and evaluates the closure body there; the frame is
/// discarded afterwards.  A definition binds a closure in the current
/// frame.  A block evaluates its items in a fresh frame, yields the last
/// value, and discards the frame, so definitions made inside the block do
/// not outlive it.  A conditional takes its first branch exactly on the
/// boolean `true`.
pub open spec fn eval_model(node: AstV, env: EnvModel, depth: nat) -> Result<
    (AstV, EnvModel),
    EvalError,
>
    decreases depth, 1int, 0int,
{
    if depth == 0 {
        Err(EvalError::RecursionLimitError)
    } else {
        let d = (depth - 1) as nat;
        match node {
            AstV::Integer(_) => Ok((node, env)),
            AstV::Str(_) => Ok((node, env)),
            AstV::Boolean(_) => Ok((node, env)),
            AstV::Nil => Ok((node, env)),
            AstV::PrimFunction(_) => Ok((node, env)),
            AstV::DefFunction { .. } => Ok((node, env)),
            AstV::Symbol(name) => match env_lookup(env, name) {
                Some(v) => Ok((v, env)),
                None => Err(EvalError::UnboundNameError),
            },
            AstV::Func { name, params, body } => {
                let closure = AstV::DefFunction { params, body };
                Ok((closure, env_bind(env, name, closure)))
            },
            AstV::Apply { func, args } => match eval_model(*func, env, d) {
                Err(e) => Err(e),
                Ok((fv, env1)) => match eval_list_model(args, env1, d) {
                    Err(e) => Err(e),
                    Ok((vals, env2)) => match fv {
                        AstV::PrimFunction(p) => match apply_primitive_model(p, vals) {
                            Ok(v) => Ok((v, env2)),
                            Err(e) => Err(e),
                        },
                        AstV::DefFunction { params, body } => if params.len() != vals.len() {
                            Err(EvalError::ArityMismatchError)
                        } else {
                            let call_env = env2.push(
                                bind_params(Map::empty(), params, vals),
                            );
                            match eval_model(*body, call_env, d) {
                                Err(e) => Err(e),
                                Ok((rv, env3)) => Ok((rv, env3.drop_last())),
                            }
                        },
                        _ => Err(EvalError::NotCallableError),
                    },
                },
            },
            AstV::Begin(items) => if items.len() == 0 {
                Err(EvalError::EmptyBlockError)
            } else {
                match eval_list_model(items, env.push(Map::empty()), d) {
                    Err(e) => Err(e),
                    Ok((vals, env2)) => Ok((vals.last(), env2.drop_last())),
                }
            },
            AstV::If(pred, conseq, alt) => match eval_model(*pred, env, d) {
                Err(e) => Err(e),
                Ok((pv, env1)) => if pv == AstV::Boolean(true) {
                    eval_model(*conseq, env1, d)
                } else {
                    match alt {
                        Some(a) => eval_model(*a, env1, d),
                        None => Ok((AstV::Boolean(false), env1)),
                    }
                },
            },
            AstV::BinOp { operation, lhs, rhs } => binop_eval_model(operation, *lhs, *rhs, env, d),
        }
    }
}

/// The binary-operator case of evaluation: both operands are evaluated in
/// order with the environment threaded through, must both be integers, and
/// are combined by `binop_model`.
pub open spec fn binop_eval_model(
    op: Operation,
    lhs: AstV,
    rhs: AstV,
    env: EnvModel,
    d: nat,
) -> Result<(AstV, EnvModel), EvalError>
    decreases d, 2int, 0int,
{
    match eval_model(lhs, env, d) {
        Err(e) => Err(e),
        Ok((lv, env1)) => match eval_model(rhs, env1, d) {
            Err(e) => Err(e),
            Ok((rv, env2)) => match (lv, rv) {
                (AstV::Integer(a), AstV::Integer(b)) => match binop_model(op, a, b) {
                    Ok(v) => Ok((v, env2)),
                    Err(e) => Err(e),
                },
                _ => Err(EvalError::TypeMismatchError),
            },
        },
    }
}

/// Left-to-right evaluation of a list of nodes, threading the environment
/// returned by each step into the next: a definition made while evaluating
/// one element is visible while evaluating the following ones.
pub open spec fn eval_list_model(nodes: Seq<AstV>, env: EnvModel, d: nat) -> Result<
    (Seq<AstV>, EnvModel),
    EvalError,
>
    decreases d, 2int, nodes.len(),
{
    if nodes.len() == 0 {
        Ok((Seq::empty(), env))
    } else {
        match eval_model(nodes.first(), env, d) {
            Err(e) => Err(e),
            Ok((v, env1)) => match eval_list_model(nodes.drop_first(), env1, d) {
                Err(e) => Err(e),
                Ok((vs, env2)) => Ok((seq![v] + vs, env2)),
            },
        }
    }
}

/// Evaluation never changes the number of frames in the chain, never
/// touches any frame below the innermost one, and a list evaluation
/// yields one value per node.
pub proof fn lemma_eval_model_env_len(node: AstV, env: EnvModel, depth: nat)
    requires
        env.len() >= 1,
    ensures
        eval_model(node, env, depth) matches Ok(r) ==> r.1.len() == env.len() && (forall|i: int|
            0 <= i < env.len() - 1 ==> r.1[i] == env[i]),
    decreases depth, 1int, 0int,
{
    if depth == 0 {
    } else {
        let d = (depth - 1) as nat;
        match node {
            AstV::Apply { func, args } => {
                lemma_eval_model_env_len(*func, env, d);
                if let Ok((fv, env1)) = eval_model(*func, env, d) {
                    lemma_eval_list_model_env_len(args, env1, d);
                    if let Ok((vals, env2)) = eval_list_model(args, env1, d) {
                        match fv {
                            AstV::DefFunction { params, body } => {
                                if params.len() == vals.len() {
                                    let call_env = env2.push(
                                        bind_params(Map::empty(), params, vals),
                                    );
                                    lemma_eval_model_env_len(*body, call_env, d);
                                    if let Ok((rv, env3)) = eval_model(*body, call_env, d) {
                                        assert forall|i: int|
                                            0 <= i < env.len() - 1 implies env3.drop_last()[i]
                                            == env[i] by {
                                            assert(env3[i] == call_env[i]);
                                            assert(call_env[i] == env2[i]);
                                        }
                                    }
                                }
                            },
                            _ => {},
                        }
                    }
                }
            },
            AstV::Begin(items) => {
                if items.len() > 0 {
                    let block_env = env.push(Map::empty());
                    lemma_eval_list_model_env_len(items, block_env, d);
                    if let Ok((vals, env2)) = eval_list_model(items, block_env, d) {
                        assert forall|i: int|
                            0 <= i < env.len() implies env2.drop_last()[i] == env[i] by {
                            assert(env2[i] == block_env[i]);
                            assert(block_env[i] == env[i]);
                        }
                    }
                }
            },
            AstV::If(pred, conseq, alt) => {
                lemma_eval_model_env_len(*pred, env, d);
                if let Ok((pv, env1)) = eval_model(*pred, env, d) {
                    lemma_eval_model_env_len(*conseq, env1, d);
                    match alt {
                        Some(a) => lemma_eval_model_env_len(*a, env1, d),
                        None => {},
                    }
                }
            },
            AstV::BinOp { operation, lhs, rhs } => {
                assert(eval_model(node, env, depth) == binop_eval_model(
                    operation,
                    *lhs,
                    *rhs,
                    env,
                    d,
                ));
                lemma_eval_model_env_len(*lhs, env, d);
                if let Ok((lv, env1)) = eval_model(*lhs, env, d) {
                    lemma_eval_model_env_len(*rhs, env1, d);
                }
            },
            _ => {},
        }
    }
}

/// See `lemma_eval_model_env_len`.
pub proof fn lemma_eval_list_model_env_len(nodes: Seq<AstV>, env: EnvModel, d: nat)
    requires
        env.len() >= 1,
    ensures
        eval_list_model(nodes, env, d) matches Ok(r) ==> r.1.len() == env.len() && r.0.len()
            == nodes.len() && (forall|i: int| 0 <= i < env.len() - 1 ==> r.1[i] == env[i]),
    decreases d, 2int, nodes.len(),
{
    if nodes.len() == 0 {
    } else {
        lemma_eval_model_env_len(nodes.first(), env, d);
        if let Ok((v, env1)) = eval_model(nodes.first(), env, d) {
            lemma_eval_list_model_env_len(nodes.drop_first(), env1, d);
        }
    }
}

/// The model of an evaluation result.
pub open spec fn eval_result_view(r: Result<(Ast, Environment), EvalError>) -> Result<
    (AstV, EnvModel),
    EvalError,
> {
    match r {
        Ok(p) => Ok((ast_view(p.0), p.1@)),
        Err(e) => Err(e),
    }
}

/// Evaluates a tree in an environment under the default recursion-depth
/// limit, returning the value together with the threaded environment, or
/// the error that the semantics assigns.
pub fn eval(ast: Ast, env: Environment) -> (r: Result<(Ast, Environment), EvalError>)
    ensures
        eval_result_view(r) == eval_model(ast@, env@, MAX_DEPTH as nat),
{
    eval_to_depth(ast, env, MAX_DEPTH)
}

/// Evaluates a tree, allowing at most `depth` further levels of recursion.
pub fn eval_to_depth(ast: Ast, env: Environment, depth: u64) -> (r: Result<
    (Ast, Environment),
    EvalError,
>)
    ensures
        eval_result_view(r) == eval_model(ast@, env@, depth as nat),
    decreases depth as nat, 1int, 0int,
{
    proof {
        lemma_env_len(&env);
    }
    let ghost ast_model = ast@;
    let ghost env0 = env@;
    if depth == 0 {
        return Err(EvalError::RecursionLimitError);
    }
    let d = depth - 1;
    match ast {
        Ast::Integer(i) => Ok((Ast::Integer(i), env)),
        Ast::Str(s) => Ok((Ast::Str(s), env)),
        Ast::Boolean(b) => Ok((Ast::Boolean(b), env)),
        Ast::Nil => Ok((Ast::Nil, env)),
        Ast::PrimFunction(p) => Ok((Ast::PrimFunction(p), env)),
        Ast::DefFunction { params, body } => Ok((Ast::DefFunction { params, body }, env)),
        Ast::Symbol(name) => match env.get(&name) {
            Some(v) => Ok((v, env)),
            None => Err(EvalError::UnboundNameError),
        },
        Ast::Func { name, params, body } => {
            let closure = Ast::DefFunction { params, body };
            let result = closure.clone();
            let mut env2 = env;
            env2.set(name, closure);
            Ok((result, env2))
        },
        Ast::Apply { func, args } => {
            let ghost func_model = ast_view(*func);
            let ghost args_model = asts_view(args@);
            match eval_to_depth(*func, env, d) {
                Err(e) => Err(e),
                Ok((fv, env1)) => {
                    proof {
                        lemma_eval_model_env_len(func_model, env0, d as nat);
                    }
                    match eval_list_to_depth(&args, env1, d) {
                        Err(e) => Err(e),
                        Ok((vals, env2)) => match fv {
                            Ast::PrimFunction(p) => match crate::prelude::apply_primitive(
                                p,
                                &vals,
                            ) {
                                Ok(v) => Ok((v, env2)),
                                Err(e) => Err(e),
                            },
                            Ast::DefFunction { params, body } => {
                                if params.len() != vals.len() {
                                    proof {
                                        lemma_asts_view_index(vals@);
                                        assert(strs_view(params@).len() == params@.len());
                                        assert(asts_view(vals@).len() == vals@.len());
                                    }
                                    Err(EvalError::ArityMismatchError)
                                } else {
                                    let ghost env2_model = env2@;
                                    let ghost params_model = strs_view(params@);
                                    let ghost vals_model = asts_view(vals@);
                                    let ghost body_model = ast_view(*body);
                                    proof {
                                        lemma_asts_view_index(vals@);
                                        lemma_eval_list_model_env_len(
                                            args_model,
                                            env1@,
                                            d as nat,
                                        );
                                    }
                                    let mut call_env = Environment::new(Some(Box::new(env2)));
                                    let bound = call_env.set_list(params, vals);
                                    proof {
                                        assert(call_env@ =~= env2_model.push(
                                            bind_params(
                                                Map::empty(),
                                                params_model,
                                                vals_model,
                                            ),
                                        ));
                                    }
                                    match eval_to_depth(*body, call_env, d) {
                                        Err(e) => Err(e),
                                        Ok((rv, env3)) => {
                                            proof {
                                                lemma_eval_model_env_len(
                                                    body_model,
                                                    env2_model.push(
                                                        bind_params(
                                                            Map::empty(),
                                                            params_model,
                                                            vals_model,
                                                        ),
                                                    ),
                                                    d as nat,
                                                );
                                            }
                                            Ok((rv, env3.pop_frame()))
                                        },
                                    }
                                }
                            },
                            _ => Err(EvalError::NotCallableError),
                        },
                    }
                },
            }
        },
        Ast::Begin(items) => {
            if items.len() == 0 {
                Err(EvalError::EmptyBlockError)
            } else {
                let ghost items_model = asts_view(items@);
                proof {
                    lemma_asts_view_index(items@);
                }
                let block_env = Environment::new(Some(Box::new(env)));
                let ghost block_model = block_env@;
                match eval_list_to_depth(&items, block_env, d) {
                    Err(e) => Err(e),
                    Ok((vals, env2)) => {
                        proof {
                            lemma_eval_list_model_env_len(items_model, block_model, d as nat);
                            lemma_asts_view_index(vals@);
                        }
                        let v = vals[vals.len() - 1].clone();
                        proof {
                            assert(ast_view(v) == asts_view(vals@).last());
                        }
                        Ok((v, env2.pop_frame()))
                    },
                }
            }
        },
        Ast::If(pred, conseq, alt) => {
            match eval_to_depth(*pred, env, d) {
                Err(e) => Err(e),
                Ok((pv, env1)) => {
                    if pv.is_true() {
                        eval_to_depth(*conseq, env1, d)
                    } else {
                        match alt {
                            Some(a) => eval_to_depth(*a, env1, d),
                            None => Ok((Ast::Boolean(false), env1)),
                        }
                    }
                },
            }
        },
        Ast::BinOp { operation, lhs, rhs } => eval_binop(operation, lhs, rhs, env, d),
    }
}

/// Evaluates the two operands of a binary operator, left then right with
/// the environment threaded through, and combines two integer results;
/// `depth` bounds the recursion available to each operand.
pub fn eval_binop(
    operation: Operation,
    lhs: Box<Ast>,
    rhs: Box<Ast>,
    env: Environment,
    depth: u64,
) -> (r: Result<(Ast, Environment), EvalError>)
    ensures
        eval_result_view(r) == binop_eval_model(
            operation,
            ast_view(*lhs),
            ast_view(*rhs),
            env@,
            depth as nat,
        ),
    decreases depth as nat, 2int, 0int,
{
    match eval_to_depth(*lhs, env, depth) {
        Err(e) => Err(e),
        Ok((lv, env1)) => match eval_to_depth(*rhs, env1, depth) {
            Err(e) => Err(e),
            Ok((rv, env2)) => match lv {
                Ast::Integer(a) => match rv {
                    Ast::Integer(b) => match operation {
                        Operation::Plus => Ok((Ast::Integer(a.wrapping_add(b)), env2)),
                        Operation::Minus => Ok((Ast::Integer(a.wrapping_sub(b)), env2)),
                        Operation::Multiply => Ok((Ast::Integer(a.wrapping_mul(b)), env2)),
                        Operation::Divide => {
                            if b == 0 {
                                Err(EvalError::DivisionByZeroError)
                            } else {
                                match a.checked_div(b) {
                                    Some(q) => Ok((Ast::Integer(q), env2)),
                                    None => Ok((Ast::Integer(i64::MIN), env2)),
                                }
                            }
                        },
                    },
                    _ => {
                        proof {
                            assert(!(ast_view(rv) is Integer));
                        }
                        Err(EvalError::TypeMismatchError)
                    },
                },
                _ => {
                    proof {
                        assert(!(ast_view(lv) is Integer));
                    }
                    Err(EvalError::TypeMismatchError)
                },
            },
        },
    }
}

/// Evaluates a list of nodes left to right, threading the environment
/// returned by each step into the next.
fn eval_list_to_depth(nodes: &Vec<Ast>, env: Environment, d: u64) -> (r: Result<
    (Vec<Ast>, Environment),
    EvalError,
>)
    ensures
        match r {
            Ok(p) => eval_list_model(asts_view(nodes@), env@, d as nat) == Ok::<
                (Seq<AstV>, EnvModel),
                EvalError,
            >((asts_view(p.0@), p.1@)),
            Err(e) => eval_list_model(asts_view(nodes@), env@, d as nat) == Err::<
                (Seq<AstV>, EnvModel),
                EvalError,
            >(e),
        },
    decreases d as nat, 2int, 1int,
{
    let ghost nodes_model = asts_view(nodes@);
    let ghost env0 = env@;
    proof {
        lemma_asts_view_index(nodes@);
    }
    let mut vals: Vec<Ast> = Vec::new();
    let mut cur = env;
    let mut i: usize = 0;
    while i < nodes.len()
        invariant
            i <= nodes@.len(),
            nodes_model == asts_view(nodes@),
            env0 == env@,
            nodes_model.len() == nodes@.len(),
            forall|j: int| 0 <= j < nodes@.len() ==> nodes_model[j] == ast_view(
                #[trigger] nodes@[j],
            ),
            eval_list_model(nodes_model.take(i as int), env0, d as nat) == Ok::<
                (Seq<AstV>, EnvModel),
                EvalError,
            >((asts_view(vals@), cur@)),
        decreases nodes@.len() - i,
    {
        let a = nodes[i].clone();
        let ghost pre_vals = asts_view(vals@);
        let ghost pre_env = cur@;
        match eval_to_depth(a, cur, d) {
            Err(e) => {
                proof {
                    assert(nodes_model =~= nodes_model.take(i as int) + nodes_model.skip(
                        i as int,
                    ));
                    lemma_eval_list_model_append(
                        nodes_model.take(i as int),
                        nodes_model.skip(i as int),
                        env0,
                        d as nat,
                    );
                    assert(nodes_model.skip(i as int).len() > 0);
                    assert(nodes_model.skip(i as int).first() == nodes_model[i as int]);
                    assert(eval_model(nodes_model[i as int], pre_env, d as nat) == Err::<
                        (AstV, EnvModel),
                        EvalError,
                    >(e));
                    assert(eval_list_model(nodes_model.skip(i as int), pre_env, d as nat)
                        == Err::<(Seq<AstV>, EnvModel), EvalError>(e));
                }
                return Err(e);
            },
            Ok((v, env2)) => {
                let ghost v_model = ast_view(v);
                let ghost old_vals = vals@;
                vals.push(v);
                cur = env2;
                proof {
                    assert(vals@.drop_last() =~= old_vals);
                    assert(vals@.last() == v);
                    assert(asts_view(vals@) == asts_view(old_vals).push(v_model));
                    let ghost one = seq![nodes_model[i as int]];
                    assert(nodes_model.take(i + 1) =~= nodes_model.take(i as int) + one);
                    lemma_eval_list_model_append(
                        nodes_model.take(i as int),
                        one,
                        env0,
                        d as nat,
                    );
                    assert(one.first() == nodes_model[i as int]);
                    assert(one.drop_first() =~= Seq::<AstV>::empty());
                    assert(eval_list_model(Seq::<AstV>::empty(), cur@, d as nat) == Ok::<
                        (Seq<AstV>, EnvModel),
                        EvalError,
                    >((Seq::empty(), cur@)));
                    assert(eval_list_model(one, pre_env, d as nat) == Ok::<
                        (Seq<AstV>, EnvModel),
                        EvalError,
                    >((seq![v_model], cur@)));
                    assert(pre_vals + seq![v_model] =~= asts_view(vals@));
                }
                i = i + 1;
            },
        }
    }
    proof {
        assert(nodes_model.take(nodes@.len() as int) =~= nodes_model);
    }
    Ok((vals, cur))
}

/// Splitting a list evaluation: evaluating a concatenation is evaluating
/// the first part, then the second in the environment the first returned.
pub proof fn lemma_eval_list_model_append(a: Seq<AstV>, b: Seq<AstV>, env: EnvModel, d: nat)
    ensures
        eval_list_model(a + b, env, d) == match eval_list_model(a, env, d) {
            Err(e) => Err::<(Seq<AstV>, EnvModel), EvalError>(e),
            Ok((vs, env1)) => match eval_list_model(b, env1, d) {
                Err(e) => Err::<(Seq<AstV>, EnvModel), EvalError>(e),
                Ok((ws, env2)) => Ok((vs + ws, env2)),
            },
        },
    decreases a.len(),
{
    if a.len() == 0 {
        assert(a + b =~= b);
        if let Ok((ws, env2)) = eval_list_model(b, env, d) {
            assert(Seq::<AstV>::empty() + ws =~= ws);
        }
    } else {
        assert((a + b).first() == a.first());
        assert((a + b).len() > 0);
        assert((a + b).drop_first() =~= a.drop_first() + b);
        if let Ok((v, env1)) = eval_model(a.first(), env, d) {
            lemma_eval_list_model_append(a.drop_first(), b, env1, d);
            if let Ok((vs1, env2)) = eval_list_model(a.drop_first(), env1, d) {
                if let Ok((ws, env3)) = eval_list_model(b, env2, d) {
                    assert(seq![v] + (vs1 + ws) =~= (seq![v] + vs1) + ws);
                }
            }
        }
    }
}

} // verus!
