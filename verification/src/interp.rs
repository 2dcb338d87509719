//! The whole pipeline: scan, parse, evaluate — once per input text, either
//! against a fresh environment or against one shared across successive
//! inputs.

use vstd::prelude::*;

use crate::environment::Environment;
use crate::eval::{eval_err, eval_ok, evaluate, evaluate_expression, spec_evaluate, EvalOutcome};
use crate::parser::{parse, spec_parse_expression};
use crate::scanner::{spec_tokenize, tokenize_all};
use crate::InterpError;

verus! {

/// The pipeline on one text under the bindings of `env`: its value and the
/// bindings left behind, or the first error of any stage. Scanning and
/// parsing touch no bindings, so their errors leave `env` as it was.
pub open spec fn spec_interpret_with(s: Seq<char>, env: Map<Seq<char>, i32>) -> EvalOutcome {
    match spec_tokenize(s) {
        Err(e) => Err((e, env)),
        Ok(toks) => match spec_parse_expression(toks, 0) {
            Err(e) => Err((e, env)),
            Ok((ast, _)) => spec_evaluate(ast, env),
        },
    }
}

/// The pipeline on a sequence of texts sharing one environment: the value of
/// the last text (or `acc` where there is none) and the bindings left behind,
/// or the first error of any text.
pub open spec fn spec_interpret_sequence(
    inputs: Seq<Seq<char>>,
    env: Map<Seq<char>, i32>,
    acc: i32,
) -> EvalOutcome
    decreases inputs.len(),
{
    if inputs.len() == 0 {
        Ok((acc, env))
    } else {
        match spec_interpret_with(inputs[0], env) {
            Err(p) => Err(p),
            Ok((v, env2)) => spec_interpret_sequence(inputs.drop_first(), env2, v),
        }
    }
}

/// Scans, parses and evaluates one text against a fresh, empty environment:
/// the stateless calculator entry point.
pub fn interpret(input: &str) -> (r: Result<i32, InterpError>)
    ensures
        match spec_interpret_with(input@, Map::empty()) {
            Ok(p) => r == Ok::<i32, InterpError>(p.0),
            Err(p) => r == Err::<i32, InterpError>(p.0),
        },
{
    let tokens = match tokenize_all(input) {
        Ok(t) => t,
        Err(e) => {
            return Err(e);
        },
    };
    let ast = match parse(tokens) {
        Ok(a) => a,
        Err(e) => {
            return Err(e);
        },
    };
    evaluate(&ast)
}

/// Scans, parses and evaluates one text against a caller-owned environment,
/// so that later inputs observe the assignments of earlier ones.
pub fn interpret_with_environment(input: &str, environment: &mut Environment) -> (r: Result<
    i32,
    InterpError,
>)
    ensures
        match r {
            Ok(v) => spec_interpret_with(input@, old(environment)@) == eval_ok(
                v,
                final(environment)@,
            ),
            Err(e) => spec_interpret_with(input@, old(environment)@) == eval_err(
                e,
                final(environment)@,
            ),
        },
{
    let tokens = match tokenize_all(input) {
        Ok(t) => t,
        Err(e) => {
            return Err(e);
        },
    };
    let ast = match parse(tokens) {
        Ok(a) => a,
        Err(e) => {
            return Err(e);
        },
    };
    evaluate_expression(&ast, environment)
}

/// Runs the pipeline over each input in order against one shared, initially
/// empty environment, returning the value of the last input (or `0` where
/// there is none): the scripting entry point.
#[verifier::loop_isolation(false)]
pub fn interpret_expressions(inputs: Vec<&str>) -> (r: Result<i32, InterpError>)
    ensures
        match spec_interpret_sequence(inputs@.map_values(|s: &str| s@), Map::empty(), 0) {
            Ok(p) => r == Ok::<i32, InterpError>(p.0),
            Err(p) => r == Err::<i32, InterpError>(p.0),
        },
{
    let ghost views = inputs@.map_values(|s: &str| s@);
    let mut result: i32 = 0;
    let mut environment = Environment::new();
    let mut idx: usize = 0;
    proof {
        assert(views.skip(0) =~= views);
    }
    while idx < inputs.len()
        invariant
            idx <= inputs@.len(),
            spec_interpret_sequence(views, Map::empty(), 0) == spec_interpret_sequence(
                views.skip(idx as int),
                environment@,
                result,
            ),
        decreases inputs@.len() - idx,
    {
        let input = inputs[idx];
        proof {
            assert(views.skip(idx as int)[0] == input@);
            assert(views.skip(idx as int).drop_first() =~= views.skip(idx as int + 1));
        }
        match interpret_with_environment(input, &mut environment) {
            Ok(v) => {
                result = v;
            },
            Err(e) => {
                return Err(e);
            },
        }
        idx = idx + 1;
    }
    proof {
        assert(views.skip(inputs@.len() as int) =~= Seq::<Seq<char>>::empty());
    }
    Ok(result)
}

} // verus!
