//! Grammar laws: precedence and associativity, stated over the parsing and
//! evaluation models and proved for every choice of operand values.

use vstd::prelude::*;

use crate::ast::AstView;
use crate::eval::{eval_ok, in_i32_range, spec_evaluate};
use crate::interp::spec_interpret_with;
use crate::scanner::{
    is_operator_char,
    lemma_scan_number_at,
    spec_next_token,
    spec_tokenize,
    spec_tokenize_from,
};
use crate::token::dec_digits;
use crate::parser::{
    spec_parse_additive,
    spec_parse_additive_rest,
    spec_parse_expression,
    spec_parse_factor,
    spec_parse_term,
    spec_parse_term_rest,
};
use crate::token::TokenView;
use crate::InterpError;

verus! {

/// The token shape `a + b * c`, followed by `EndOfInput`.
pub open spec fn add_multiply_tokens(a: i32, b: i32, c: i32) -> Seq<TokenView> {
    seq![
        TokenView::Int(a),
        TokenView::Operator('+'),
        TokenView::Int(b),
        TokenView::Operator('*'),
        TokenView::Int(c),
        TokenView::EndOfInput,
    ]
}

/// The token shape `a - b - c`, followed by `EndOfInput`.
pub open spec fn subtract_twice_tokens(a: i32, b: i32, c: i32) -> Seq<TokenView> {
    seq![
        TokenView::Int(a),
        TokenView::Operator('-'),
        TokenView::Int(b),
        TokenView::Operator('-'),
        TokenView::Int(c),
        TokenView::EndOfInput,
    ]
}


/// The text `a op1 b op2 c` for non-negative decimal literals, one space
/// around each operator.
pub open spec fn infix_text(a: i32, op1: char, b: i32, op2: char, c: i32) -> Seq<char> {
    dec_digits(a as nat) + seq![' ', op1, ' '] + dec_digits(b as nat) + seq![' ', op2, ' ']
        + dec_digits(c as nat)
}

/// Law: a text of the shape `a op1 b op2 c`, for non-negative decimal
/// literals and operator characters, scans to exactly the six tokens
/// `Int(a) Operator(op1) Int(b) Operator(op2) Int(c) EndOfInput`.
pub proof fn lemma_infix_text_scans(a: i32, op1: char, b: i32, op2: char, c: i32)
    requires
        0 <= a,
        0 <= b,
        0 <= c,
        is_operator_char(op1),
        is_operator_char(op2),
    ensures
        spec_tokenize(infix_text(a, op1, b, op2, c)) == Ok::<Seq<TokenView>, InterpError>(
            seq![
                TokenView::Int(a),
                TokenView::Operator(op1),
                TokenView::Int(b),
                TokenView::Operator(op2),
                TokenView::Int(c),
                TokenView::EndOfInput,
            ],
        ),
{
    let s = infix_text(a, op1, b, op2, c);
    let ta = dec_digits(a as nat);
    let tb = dec_digits(b as nat);
    let tc = dec_digits(c as nat);
    let la = ta.len() as int;
    let lb = tb.len() as int;
    let lc = tc.len() as int;
    let pb = la + 3;
    let q = pb + lb;
    let pc = q + 3;
    let end = pc + lc;
    assert(s.len() == end);
    assert forall|k: int| 0 <= k < la implies s[k] == ta[k] by {}
    assert(s[la] == ' ');
    assert(s[la + 1] == op1);
    assert(s[la + 2] == ' ');
    assert forall|k: int| 0 <= k < lb implies s[pb + k] == tb[k] by {}
    assert(s[q] == ' ');
    assert(s[q + 1] == op2);
    assert(s[q + 2] == ' ');
    assert forall|k: int| 0 <= k < lc implies s[pc + k] == tc[k] by {}

    lemma_scan_number_at(s, 0, a as nat);
    assert(spec_next_token(s, 0) == Ok::<(TokenView, int), InterpError>((TokenView::Int(a), la)));
    assert(spec_next_token(s, la) == spec_next_token(s, la + 1));
    assert(spec_next_token(s, la + 1) == Ok::<(TokenView, int), InterpError>(
        (TokenView::Operator(op1), la + 2),
    ));
    assert(spec_next_token(s, la + 2) == spec_next_token(s, pb));
    lemma_scan_number_at(s, pb, b as nat);
    assert(spec_next_token(s, la + 2) == Ok::<(TokenView, int), InterpError>(
        (TokenView::Int(b), q),
    ));
    assert(spec_next_token(s, q) == spec_next_token(s, q + 1));
    assert(spec_next_token(s, q + 1) == Ok::<(TokenView, int), InterpError>(
        (TokenView::Operator(op2), q + 2),
    ));
    assert(spec_next_token(s, q + 2) == spec_next_token(s, pc));
    lemma_scan_number_at(s, pc, c as nat);
    assert(spec_next_token(s, q + 2) == Ok::<(TokenView, int), InterpError>(
        (TokenView::Int(c), end),
    ));
    assert(spec_next_token(s, end) == Ok::<(TokenView, int), InterpError>(
        (TokenView::EndOfInput, end),
    ));

    assert(spec_tokenize_from(s, end) == Ok::<Seq<TokenView>, InterpError>(
        seq![TokenView::EndOfInput],
    ));
    assert(spec_tokenize_from(s, q + 2) == Ok::<Seq<TokenView>, InterpError>(
        seq![TokenView::Int(c)] + seq![TokenView::EndOfInput],
    ));
    assert(spec_tokenize_from(s, q) == Ok::<Seq<TokenView>, InterpError>(
        seq![TokenView::Operator(op2)] + (seq![TokenView::Int(c)] + seq![TokenView::EndOfInput]),
    ));
    assert(spec_tokenize_from(s, la + 2) == Ok::<Seq<TokenView>, InterpError>(
        seq![TokenView::Int(b)] + (seq![TokenView::Operator(op2)] + (seq![TokenView::Int(c)]
            + seq![TokenView::EndOfInput])),
    ));
    assert(spec_tokenize_from(s, la) == Ok::<Seq<TokenView>, InterpError>(
        seq![TokenView::Operator(op1)] + (seq![TokenView::Int(b)] + (seq![TokenView::Operator(op2)]
            + (seq![TokenView::Int(c)] + seq![TokenView::EndOfInput]))),
    ));
    assert(spec_tokenize_from(s, 0) == Ok::<Seq<TokenView>, InterpError>(
        seq![TokenView::Int(a)] + (seq![TokenView::Operator(op1)] + (seq![TokenView::Int(b)] + (
        seq![TokenView::Operator(op2)] + (seq![TokenView::Int(c)] + seq![TokenView::EndOfInput])))),
    ));
    assert(seq![TokenView::Int(a)] + (seq![TokenView::Operator(op1)] + (seq![TokenView::Int(b)] + (
    seq![TokenView::Operator(op2)] + (seq![TokenView::Int(c)] + seq![TokenView::EndOfInput]))))
        =~= seq![
        TokenView::Int(a),
        TokenView::Operator(op1),
        TokenView::Int(b),
        TokenView::Operator(op2),
        TokenView::Int(c),
        TokenView::EndOfInput,
    ]);
}

/// Law: multiplication binds tighter than addition. For all integers `a`,
/// `b`, `c`, the tokens of `a + b * c` parse as `Add(a, Multiply(b, c))` —
/// never as `Multiply(Add(a, b), c)`.
pub proof fn lemma_multiplication_binds_tighter(a: i32, b: i32, c: i32)
    ensures
        spec_parse_expression(add_multiply_tokens(a, b, c), 0) == Ok::<
            (AstView, int),
            InterpError,
        >(
            (
                AstView::Add(
                    Box::new(AstView::IntLiteral(a)),
                    Box::new(
                        AstView::Multiply(
                            Box::new(AstView::IntLiteral(b)),
                            Box::new(AstView::IntLiteral(c)),
                        ),
                    ),
                ),
                5,
            ),
        ),
{
    let toks = add_multiply_tokens(a, b, c);
    let lit_a = AstView::IntLiteral(a);
    let lit_b = AstView::IntLiteral(b);
    let lit_c = AstView::IntLiteral(c);
    let product = AstView::Multiply(Box::new(lit_b), Box::new(lit_c));
    let sum = AstView::Add(Box::new(lit_a), Box::new(product));
    assert(spec_parse_factor(toks, 0) == Ok::<(AstView, int), InterpError>((lit_a, 1)));
    assert(spec_parse_term_rest(toks, 1, lit_a) == Ok::<(AstView, int), InterpError>((lit_a, 1)));
    assert(spec_parse_term(toks, 0) == Ok::<(AstView, int), InterpError>((lit_a, 1)));
    assert(spec_parse_factor(toks, 2) == Ok::<(AstView, int), InterpError>((lit_b, 3)));
    assert(spec_parse_factor(toks, 4) == Ok::<(AstView, int), InterpError>((lit_c, 5)));
    assert(spec_parse_term_rest(toks, 5, product) == Ok::<(AstView, int), InterpError>(
        (product, 5),
    ));
    assert(spec_parse_term_rest(toks, 3, lit_b) == Ok::<(AstView, int), InterpError>(
        (product, 5),
    ));
    assert(spec_parse_term(toks, 2) == Ok::<(AstView, int), InterpError>((product, 5)));
    assert(spec_parse_additive_rest(toks, 5, sum) == Ok::<(AstView, int), InterpError>((sum, 5)));
    assert(spec_parse_additive_rest(toks, 1, lit_a) == Ok::<(AstView, int), InterpError>(
        (sum, 5),
    ));
    assert(spec_parse_additive(toks, 0) == Ok::<(AstView, int), InterpError>((sum, 5)));
}

/// Law: for all integers `a`, `b`, `c` whose product and sum stay in range,
/// the tokens of `a + b * c` evaluate to `a + (b * c)`, never `(a + b) * c`,
/// in any environment, leaving it unchanged.
pub proof fn lemma_precedence_value(a: i32, b: i32, c: i32, env: Map<Seq<char>, i32>)
    requires
        in_i32_range(b * c),
        in_i32_range(a + b * c),
    ensures
        ({
            let parsed = spec_parse_expression(add_multiply_tokens(a, b, c), 0);
            &&& parsed matches Ok(p)
            &&& spec_evaluate(p.0, env) == eval_ok((a + b * c) as i32, env)
        }),
{
    lemma_multiplication_binds_tighter(a, b, c);
    let lit_b = AstView::IntLiteral(b);
    let lit_c = AstView::IntLiteral(c);
    let product = AstView::Multiply(Box::new(lit_b), Box::new(lit_c));
    assert(spec_evaluate(lit_b, env) == eval_ok(b, env));
    assert(spec_evaluate(lit_c, env) == eval_ok(c, env));
    assert(spec_evaluate(product, env) == eval_ok((b * c) as i32, env));
    assert(spec_evaluate(AstView::IntLiteral(a), env) == eval_ok(a, env));
}

/// Law: subtraction associates to the left. For all integers `a`, `b`, `c`,
/// the tokens of `a - b - c` parse as `Subtract(Subtract(a, b), c)` — never
/// as `Subtract(a, Subtract(b, c))`.
pub proof fn lemma_subtraction_left_associative(a: i32, b: i32, c: i32)
    ensures
        spec_parse_expression(subtract_twice_tokens(a, b, c), 0) == Ok::<
            (AstView, int),
            InterpError,
        >(
            (
                AstView::Subtract(
                    Box::new(
                        AstView::Subtract(
                            Box::new(AstView::IntLiteral(a)),
                            Box::new(AstView::IntLiteral(b)),
                        ),
                    ),
                    Box::new(AstView::IntLiteral(c)),
                ),
                5,
            ),
        ),
{
    let toks = subtract_twice_tokens(a, b, c);
    let lit_a = AstView::IntLiteral(a);
    let lit_b = AstView::IntLiteral(b);
    let lit_c = AstView::IntLiteral(c);
    let first = AstView::Subtract(Box::new(lit_a), Box::new(lit_b));
    let second = AstView::Subtract(Box::new(first), Box::new(lit_c));
    assert(spec_parse_factor(toks, 0) == Ok::<(AstView, int), InterpError>((lit_a, 1)));
    assert(spec_parse_term_rest(toks, 1, lit_a) == Ok::<(AstView, int), InterpError>((lit_a, 1)));
    assert(spec_parse_term(toks, 0) == Ok::<(AstView, int), InterpError>((lit_a, 1)));
    assert(spec_parse_factor(toks, 2) == Ok::<(AstView, int), InterpError>((lit_b, 3)));
    assert(spec_parse_term_rest(toks, 3, lit_b) == Ok::<(AstView, int), InterpError>((lit_b, 3)));
    assert(spec_parse_term(toks, 2) == Ok::<(AstView, int), InterpError>((lit_b, 3)));
    assert(spec_parse_factor(toks, 4) == Ok::<(AstView, int), InterpError>((lit_c, 5)));
    assert(spec_parse_term_rest(toks, 5, lit_c) == Ok::<(AstView, int), InterpError>((lit_c, 5)));
    assert(spec_parse_term(toks, 4) == Ok::<(AstView, int), InterpError>((lit_c, 5)));
    assert(spec_parse_additive_rest(toks, 5, second) == Ok::<(AstView, int), InterpError>(
        (second, 5),
    ));
    assert(spec_parse_additive_rest(toks, 3, first) == Ok::<(AstView, int), InterpError>(
        (second, 5),
    ));
    assert(spec_parse_additive_rest(toks, 1, lit_a) == Ok::<(AstView, int), InterpError>(
        (second, 5),
    ));
    assert(spec_parse_additive(toks, 0) == Ok::<(AstView, int), InterpError>((second, 5)));
}

/// Law: for all integers `a`, `b`, `c` whose differences stay in range, the
/// tokens of `a - b - c` evaluate to `(a - b) - c`, never `a - (b - c)`, in
/// any environment, leaving it unchanged.
pub proof fn lemma_associativity_value(a: i32, b: i32, c: i32, env: Map<Seq<char>, i32>)
    requires
        in_i32_range(a - b),
        in_i32_range(a - b - c),
    ensures
        ({
            let parsed = spec_parse_expression(subtract_twice_tokens(a, b, c), 0);
            &&& parsed matches Ok(p)
            &&& spec_evaluate(p.0, env) == eval_ok((a - b - c) as i32, env)
        }),
{
    lemma_subtraction_left_associative(a, b, c);
    let lit_a = AstView::IntLiteral(a);
    let lit_b = AstView::IntLiteral(b);
    let lit_c = AstView::IntLiteral(c);
    let first = AstView::Subtract(Box::new(lit_a), Box::new(lit_b));
    assert(spec_evaluate(lit_a, env) == eval_ok(a, env));
    assert(spec_evaluate(lit_b, env) == eval_ok(b, env));
    assert(spec_evaluate(lit_c, env) == eval_ok(c, env));
    assert(spec_evaluate(first, env) == eval_ok((a - b) as i32, env));
}


/// Law: for non-negative decimal literals `a`, `b`, `c` whose product and
/// sum stay in range, interpreting the text `a + b * c` yields `a + (b * c)`
/// — never `(a + b) * c` — in any environment, leaving it unchanged.
pub proof fn lemma_precedence_of_text(a: i32, b: i32, c: i32, env: Map<Seq<char>, i32>)
    requires
        0 <= a,
        0 <= b,
        0 <= c,
        in_i32_range(b * c),
        in_i32_range(a + b * c),
    ensures
        spec_interpret_with(infix_text(a, '+', b, '*', c), env) == eval_ok(
            (a + b * c) as i32,
            env,
        ),
{
    lemma_infix_text_scans(a, '+', b, '*', c);
    assert(seq![
        TokenView::Int(a),
        TokenView::Operator('+'),
        TokenView::Int(b),
        TokenView::Operator('*'),
        TokenView::Int(c),
        TokenView::EndOfInput,
    ] =~= add_multiply_tokens(a, b, c));
    lemma_precedence_value(a, b, c, env);
}

/// Law: for non-negative decimal literals `a`, `b`, `c` whose differences
/// stay in range, interpreting the text `a - b - c` yields `(a - b) - c` —
/// never `a - (b - c)` — in any environment, leaving it unchanged.
pub proof fn lemma_associativity_of_text(a: i32, b: i32, c: i32, env: Map<Seq<char>, i32>)
    requires
        0 <= a,
        0 <= b,
        0 <= c,
        in_i32_range(a - b),
        in_i32_range(a - b - c),
    ensures
        spec_interpret_with(infix_text(a, '-', b, '-', c), env) == eval_ok(
            (a - b - c) as i32,
            env,
        ),
{
    lemma_infix_text_scans(a, '-', b, '-', c);
    assert(seq![
        TokenView::Int(a),
        TokenView::Operator('-'),
        TokenView::Int(b),
        TokenView::Operator('-'),
        TokenView::Int(c),
        TokenView::EndOfInput,
    ] =~= subtract_twice_tokens(a, b, c));
    lemma_associativity_value(a, b, c, env);
}

} // verus!
