//! The evaluator: structural recursion over the expression tree, combining an
//! integer result with reads and writes of the variable environment.
//!
//! `spec_evaluate` states the semantics of every node over a
//! `Map<Seq<char>, i32>`; `evaluate_expression` and `evaluate` are the
//! verified executable forms. Arithmetic follows `i32`: a result outside its
//! range is an `IntegerOverflow`, and division truncates toward zero. Every
//! outcome, value or error, carries the bindings left behind at that point,
//! so the contracts pin the environment on both paths.

use vstd::prelude::*;

use crate::ast::{AstNode, AstView};
use crate::environment::Environment;
use crate::InterpError;

verus! {

/// The outcome of one evaluation: the value, or the error met, each together
/// with the bindings left behind at that point.
pub type EvalOutcome = Result<(i32, Map<Seq<char>, i32>), (InterpError, Map<Seq<char>, i32>)>;

/// The outcome that yields `v` under the bindings `env`.
pub open spec fn eval_ok(v: i32, env: Map<Seq<char>, i32>) -> EvalOutcome {
    Ok((v, env))
}

/// The outcome that aborts with `e`, the bindings `env` left behind.
pub open spec fn eval_err(e: InterpError, env: Map<Seq<char>, i32>) -> EvalOutcome {
    Err((e, env))
}

/// True when `v` fits in `i32`.
pub open spec fn in_i32_range(v: int) -> bool {
    i32::MIN <= v <= i32::MAX
}

/// Integer division truncated toward zero, as `/` behaves on `i32`.
pub open spec fn div_trunc(a: int, b: int) -> int
    recommends
        b != 0,
{
    if a >= 0 && b > 0 {
        a / b
    } else if a <= 0 && b < 0 {
        (-a) / (-b)
    } else if a < 0 {
        -((-a) / b)
    } else {
        -(a / (-b))
    }
}

/// `v` as the node's value when it fits in `i32`, else `IntegerOverflow`.
pub open spec fn fit_i32(v: int, env: Map<Seq<char>, i32>) -> EvalOutcome {
    if in_i32_range(v) {
        Ok((v as i32, env))
    } else {
        Err((InterpError::IntegerOverflow, env))
    }
}

/// The value of `node` under the bindings of `env`, together with the
/// bindings left behind — also on an error, whose outcome carries the
/// bindings reached before the abort. Children evaluate left before right,
/// so an assignment on the left is visible on the right; an `Assign` checks
/// its target before evaluating its right side.
pub open spec fn spec_evaluate(node: AstView, env: Map<Seq<char>, i32>) -> EvalOutcome
    decreases node,
{
    match node {
        AstView::IntLiteral(v) => Ok((v, env)),
        AstView::Identifier(name) => if env.contains_key(name) {
            Ok((env[name], env))
        } else {
            Err((InterpError::UnknownIdentifier, env))
        },
        AstView::Add(l, r) => match spec_evaluate(*l, env) {
            Err(p) => Err(p),
            Ok((lv, env1)) => match spec_evaluate(*r, env1) {
                Err(p) => Err(p),
                Ok((rv, env2)) => fit_i32(lv + rv, env2),
            },
        },
        AstView::Subtract(l, r) => match spec_evaluate(*l, env) {
            Err(p) => Err(p),
            Ok((lv, env1)) => match spec_evaluate(*r, env1) {
                Err(p) => Err(p),
                Ok((rv, env2)) => fit_i32(lv - rv, env2),
            },
        },
        AstView::Multiply(l, r) => match spec_evaluate(*l, env) {
            Err(p) => Err(p),
            Ok((lv, env1)) => match spec_evaluate(*r, env1) {
                Err(p) => Err(p),
                Ok((rv, env2)) => fit_i32(lv * rv, env2),
            },
        },
        AstView::Divide(l, r) => match spec_evaluate(*l, env) {
            Err(p) => Err(p),
            Ok((lv, env1)) => match spec_evaluate(*r, env1) {
                Err(p) => Err(p),
                Ok((rv, env2)) => if rv == 0 {
                    Err((InterpError::DivisionByZero, env2))
                } else {
                    fit_i32(div_trunc(lv as int, rv as int), env2)
                },
            },
        },
        AstView::Assign(l, r) => match *l {
            AstView::Identifier(name) => match spec_evaluate(*r, env) {
                Err(p) => Err(p),
                Ok((v, env2)) => Ok((v, env2.insert(name, v))),
            },
            _ => Err((InterpError::InvalidAssignmentTarget, env)),
        },
    }
}

/// Evaluates `node` against a caller-owned environment, so that assignments
/// persist across successive evaluations. On an error the evaluation aborts
/// with no value, and the environment holds exactly the bindings of the
/// model's error outcome: those written before the abort.
pub fn evaluate_expression(node: &AstNode, environment: &mut Environment) -> (r: Result<
    i32,
    InterpError,
>)
    ensures
        match r {
            Ok(v) => spec_evaluate(node@, old(environment)@) == eval_ok(v, final(environment)@),
            Err(e) => spec_evaluate(node@, old(environment)@) == eval_err(
                e,
                final(environment)@,
            ),
        },
    decreases *node,
{
    match node {
        AstNode::IntLiteral(v) => Ok(*v),
        AstNode::Identifier(name) => match environment.get(name) {
            Some(v) => Ok(v),
            None => Err(InterpError::UnknownIdentifier),
        },
        AstNode::Add(l, r) => {
            proof {
                assert(node@ == AstView::Add(Box::new((**l)@), Box::new((**r)@)));
            }
            let lv = match evaluate_expression(l, environment) {
                Ok(v) => v,
                Err(e) => {
                    return Err(e);
                },
            };
            let rv = match evaluate_expression(r, environment) {
                Ok(v) => v,
                Err(e) => {
                    return Err(e);
                },
            };
            match lv.checked_add(rv) {
                Some(v) => Ok(v),
                None => Err(InterpError::IntegerOverflow),
            }
        },
        AstNode::Subtract(l, r) => {
            proof {
                assert(node@ == AstView::Subtract(Box::new((**l)@), Box::new((**r)@)));
            }
            let lv = match evaluate_expression(l, environment) {
                Ok(v) => v,
                Err(e) => {
                    return Err(e);
                },
            };
            let rv = match evaluate_expression(r, environment) {
                Ok(v) => v,
                Err(e) => {
                    return Err(e);
                },
            };
            match lv.checked_sub(rv) {
                Some(v) => Ok(v),
                None => Err(InterpError::IntegerOverflow),
            }
        },
        AstNode::Multiply(l, r) => {
            proof {
                assert(node@ == AstView::Multiply(Box::new((**l)@), Box::new((**r)@)));
            }
            let lv = match evaluate_expression(l, environment) {
                Ok(v) => v,
                Err(e) => {
                    return Err(e);
                },
            };
            let rv = match evaluate_expression(r, environment) {
                Ok(v) => v,
                Err(e) => {
                    return Err(e);
                },
            };
            match lv.checked_mul(rv) {
                Some(v) => Ok(v),
                None => Err(InterpError::IntegerOverflow),
            }
        },
        AstNode::Divide(l, r) => {
            proof {
                assert(node@ == AstView::Divide(Box::new((**l)@), Box::new((**r)@)));
            }
            let lv = match evaluate_expression(l, environment) {
                Ok(v) => v,
                Err(e) => {
                    return Err(e);
                },
            };
            let rv = match evaluate_expression(r, environment) {
                Ok(v) => v,
                Err(e) => {
                    return Err(e);
                },
            };
            if rv == 0 {
                Err(InterpError::DivisionByZero)
            } else {
                match lv.checked_div(rv) {
                    Some(v) => Ok(v),
                    None => Err(InterpError::IntegerOverflow),
                }
            }
        },
        AstNode::Assign(l, r) => match &**l {
            AstNode::Identifier(name) => {
                proof {
                    assert(node@ == AstView::Assign(Box::new((**l)@), Box::new((**r)@)));
                    assert((**l)@ == AstView::Identifier(name@));
                }
                let owned = name.clone();
                let value = match evaluate_expression(r, environment) {
                    Ok(v) => v,
                    Err(e) => {
                        return Err(e);
                    },
                };
                environment.insert(owned, value);
                Ok(value)
            },
            _ => {
                proof {
                    assert(node@ == AstView::Assign(Box::new((**l)@), Box::new((**r)@)));
                }
                Err(InterpError::InvalidAssignmentTarget)
            },
        },
    }
}

/// Evaluates `node` against a fresh, empty environment and discards the
/// bindings: the stateless entry point.
pub fn evaluate(node: &AstNode) -> (r: Result<i32, InterpError>)
    ensures
        match r {
            Ok(v) => spec_evaluate(node@, Map::empty()) matches Ok(p) && p.0 == v,
            Err(e) => spec_evaluate(node@, Map::empty()) matches Err(p) && p.0 == e,
        },
{
    let mut environment = Environment::new();
    evaluate_expression(node, &mut environment)
}

/// True when no `Assign` node stands anywhere in the tree.
pub open spec fn assign_free(node: AstView) -> bool
    decreases node,
{
    match node {
        AstView::Add(l, r) => assign_free(*l) && assign_free(*r),
        AstView::Subtract(l, r) => assign_free(*l) && assign_free(*r),
        AstView::Multiply(l, r) => assign_free(*l) && assign_free(*r),
        AstView::Divide(l, r) => assign_free(*l) && assign_free(*r),
        AstView::Assign(_, _) => false,
        AstView::Identifier(_) => true,
        AstView::IntLiteral(_) => true,
    }
}

/// Law: only `Assign` nodes write the environment. A tree without one leaves
/// the bindings unchanged, whether it yields a value or an error.
pub proof fn lemma_assign_free_preserves_environment(node: AstView, env: Map<Seq<char>, i32>)
    requires
        assign_free(node),
    ensures
        match spec_evaluate(node, env) {
            Ok(p) => p.1 == env,
            Err(p) => p.1 == env,
        },
    decreases node,
{
    match node {
        AstView::Add(l, r) => {
            lemma_assign_free_preserves_environment(*l, env);
            if spec_evaluate(*l, env) is Ok {
                lemma_assign_free_preserves_environment(*r, spec_evaluate(*l, env)->Ok_0.1);
            }
        },
        AstView::Subtract(l, r) => {
            lemma_assign_free_preserves_environment(*l, env);
            if spec_evaluate(*l, env) is Ok {
                lemma_assign_free_preserves_environment(*r, spec_evaluate(*l, env)->Ok_0.1);
            }
        },
        AstView::Multiply(l, r) => {
            lemma_assign_free_preserves_environment(*l, env);
            if spec_evaluate(*l, env) is Ok {
                lemma_assign_free_preserves_environment(*r, spec_evaluate(*l, env)->Ok_0.1);
            }
        },
        AstView::Divide(l, r) => {
            lemma_assign_free_preserves_environment(*l, env);
            if spec_evaluate(*l, env) is Ok {
                lemma_assign_free_preserves_environment(*r, spec_evaluate(*l, env)->Ok_0.1);
            }
        },
        _ => {},
    }
}

/// Law: an `Add` of two integer literals evaluates to their sum, in any
/// environment, leaving it unchanged.
pub proof fn lemma_evaluate_add(a: i32, b: i32, env: Map<Seq<char>, i32>)
    requires
        in_i32_range(a + b),
    ensures
        spec_evaluate(
            AstView::Add(Box::new(AstView::IntLiteral(a)), Box::new(AstView::IntLiteral(b))),
            env,
        ) == eval_ok((a + b) as i32, env),
{
    assert(spec_evaluate(AstView::IntLiteral(a), env) == eval_ok(a, env));
    assert(spec_evaluate(AstView::IntLiteral(b), env) == eval_ok(b, env));
}

/// Law: a `Subtract` of two integer literals evaluates to their difference,
/// in any environment, leaving it unchanged.
pub proof fn lemma_evaluate_subtract(a: i32, b: i32, env: Map<Seq<char>, i32>)
    requires
        in_i32_range(a - b),
    ensures
        spec_evaluate(
            AstView::Subtract(Box::new(AstView::IntLiteral(a)), Box::new(AstView::IntLiteral(b))),
            env,
        ) == eval_ok((a - b) as i32, env),
{
    assert(spec_evaluate(AstView::IntLiteral(a), env) == eval_ok(a, env));
    assert(spec_evaluate(AstView::IntLiteral(b), env) == eval_ok(b, env));
}

/// Law: a `Multiply` of two integer literals evaluates to their product, in
/// any environment, leaving it unchanged.
pub proof fn lemma_evaluate_multiply(a: i32, b: i32, env: Map<Seq<char>, i32>)
    requires
        in_i32_range(a * b),
    ensures
        spec_evaluate(
            AstView::Multiply(Box::new(AstView::IntLiteral(a)), Box::new(AstView::IntLiteral(b))),
            env,
        ) == eval_ok((a * b) as i32, env),
{
    assert(spec_evaluate(AstView::IntLiteral(a), env) == eval_ok(a, env));
    assert(spec_evaluate(AstView::IntLiteral(b), env) == eval_ok(b, env));
}

/// Law: a `Divide` of two integer literals evaluates to their quotient,
/// truncated toward zero, in any environment, leaving it unchanged. The
/// divisor must not be zero, and the quotient must fit in `i32` (it does not
/// only for `i32::MIN / -1`).
pub proof fn lemma_evaluate_divide(a: i32, b: i32, env: Map<Seq<char>, i32>)
    requires
        b != 0,
        in_i32_range(div_trunc(a as int, b as int)),
    ensures
        spec_evaluate(
            AstView::Divide(Box::new(AstView::IntLiteral(a)), Box::new(AstView::IntLiteral(b))),
            env,
        ) == eval_ok(div_trunc(a as int, b as int) as i32, env),
{
    assert(spec_evaluate(AstView::IntLiteral(a), env) == eval_ok(a, env));
    assert(spec_evaluate(AstView::IntLiteral(b), env) == eval_ok(b, env));
}

/// Law: a `Divide` whose divisor evaluates to zero is a `DivisionByZero`,
/// leaving the bindings unchanged.
pub proof fn lemma_evaluate_divide_by_zero(a: i32, env: Map<Seq<char>, i32>)
    ensures
        spec_evaluate(
            AstView::Divide(Box::new(AstView::IntLiteral(a)), Box::new(AstView::IntLiteral(0))),
            env,
        ) == eval_err(InterpError::DivisionByZero, env),
{
    assert(spec_evaluate(AstView::IntLiteral(a), env) == eval_ok(a, env));
    assert(spec_evaluate(AstView::IntLiteral(0), env) == eval_ok(0, env));
}

/// Law: reading an identifier that the environment never bound is an
/// `UnknownIdentifier`, leaving the bindings unchanged.
pub proof fn lemma_unknown_identifier(name: Seq<char>, env: Map<Seq<char>, i32>)
    requires
        !env.contains_key(name),
    ensures
        spec_evaluate(AstView::Identifier(name), env) == eval_err(
            InterpError::UnknownIdentifier,
            env,
        ),
{
}

/// Law: an `Assign` whose target is not an identifier aborts before its right
/// side is evaluated: the bindings stay unchanged.
pub proof fn lemma_invalid_assignment_target(l: AstView, r: AstView, env: Map<Seq<char>, i32>)
    requires
        !(l is Identifier),
    ensures
        spec_evaluate(AstView::Assign(Box::new(l), Box::new(r)), env) == eval_err(
            InterpError::InvalidAssignmentTarget,
            env,
        ),
{
}

} // verus!
