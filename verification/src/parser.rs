//! The parser: recursive descent over a token sequence, building one
//! expression tree under the grammar
//!
//! ```text
//! expression := additive ( "=" expression )?
//! additive   := term ( ("+"|"-") term )*
//! term       := factor ( ("*"|"/") factor )*
//! factor     := INT | IDENTIFIER | "(" expression ")"
//! ```
//!
//! Assignment chains associate to the right (`a = b = c` is
//! `Assign(a, Assign(b, c))`); the additive and multiplicative layers fold to
//! the left. The spec functions `spec_parse_*` state each rule
//! mathematically; the executable functions are verified against them.
//!
//! As in the grammar above, tokens after the first complete expression are
//! never examined: `parse` does not demand that the cursor reach `EndOfInput`.
//! Whether trailing tokens ought to be rejected is a pending
//! grammar-completeness decision, preserved here as stated behaviour rather
//! than silently settled.

use vstd::prelude::*;

use crate::ast::{ast_view, AstNode, AstView};
use crate::token::{token_views, Token, TokenView};
use crate::InterpError;

verus! {

broadcast use vstd::std_specs::vec::group_vec_axioms;

/// The `expression` rule at position `i`: an `additive`, then optionally
/// `"=" expression`, folded into an `Assign` node.
pub open spec fn spec_parse_expression(toks: Seq<TokenView>, i: int) -> Result<
    (AstView, int),
    InterpError,
>
    decreases toks.len() - i, 6int,
{
    match spec_parse_additive(toks, i) {
        Err(e) => Err(e),
        Ok((node, j)) => if j < toks.len() && toks[j] == TokenView::Operator('=') {
            if i <= j {
                match spec_parse_expression(toks, j + 1) {
                    Err(e) => Err(e),
                    Ok((rhs, k)) => Ok((AstView::Assign(Box::new(node), Box::new(rhs)), k)),
                }
            } else {
                // cannot occur: parsing never moves the cursor backwards
                Err(InterpError::UnexpectedToken)
            }
        } else {
            Ok((node, j))
        },
    }
}

/// The `additive` rule at position `i`.
pub open spec fn spec_parse_additive(toks: Seq<TokenView>, i: int) -> Result<
    (AstView, int),
    InterpError,
>
    decreases toks.len() - i, 5int,
{
    match spec_parse_term(toks, i) {
        Err(e) => Err(e),
        Ok((node, j)) => if i <= j <= toks.len() {
            spec_parse_additive_rest(toks, j, node)
        } else {
            // cannot occur: parsing never moves the cursor backwards
            Err(InterpError::UnexpectedToken)
        },
    }
}

/// The left-associative fold of `( ("+"|"-") term )*` onto `left`.
pub open spec fn spec_parse_additive_rest(toks: Seq<TokenView>, i: int, left: AstView) -> Result<
    (AstView, int),
    InterpError,
>
    decreases toks.len() - i, 4int,
{
    if i < toks.len() && toks[i] == TokenView::Operator('+') {
        match spec_parse_term(toks, i + 1) {
            Err(e) => Err(e),
            Ok((rhs, j)) => if i < j <= toks.len() {
                spec_parse_additive_rest(toks, j, AstView::Add(Box::new(left), Box::new(rhs)))
            } else {
                // cannot occur: parsing never moves the cursor backwards
                Err(InterpError::UnexpectedToken)
            },
        }
    } else if i < toks.len() && toks[i] == TokenView::Operator('-') {
        match spec_parse_term(toks, i + 1) {
            Err(e) => Err(e),
            Ok((rhs, j)) => if i < j <= toks.len() {
                spec_parse_additive_rest(toks, j, AstView::Subtract(Box::new(left), Box::new(rhs)))
            } else {
                // cannot occur: parsing never moves the cursor backwards
                Err(InterpError::UnexpectedToken)
            },
        }
    } else {
        Ok((left, i))
    }
}

/// The `term` rule at position `i`.
pub open spec fn spec_parse_term(toks: Seq<TokenView>, i: int) -> Result<
    (AstView, int),
    InterpError,
>
    decreases toks.len() - i, 3int,
{
    match spec_parse_factor(toks, i) {
        Err(e) => Err(e),
        Ok((node, j)) => if i <= j <= toks.len() {
            spec_parse_term_rest(toks, j, node)
        } else {
            // cannot occur: parsing never moves the cursor backwards
            Err(InterpError::UnexpectedToken)
        },
    }
}

/// The left-associative fold of `( ("*"|"/") factor )*` onto `left`.
pub open spec fn spec_parse_term_rest(toks: Seq<TokenView>, i: int, left: AstView) -> Result<
    (AstView, int),
    InterpError,
>
    decreases toks.len() - i, 2int,
{
    if i < toks.len() && toks[i] == TokenView::Operator('*') {
        match spec_parse_factor(toks, i + 1) {
            Err(e) => Err(e),
            Ok((rhs, j)) => if i < j <= toks.len() {
                spec_parse_term_rest(toks, j, AstView::Multiply(Box::new(left), Box::new(rhs)))
            } else {
                // cannot occur: parsing never moves the cursor backwards
                Err(InterpError::UnexpectedToken)
            },
        }
    } else if i < toks.len() && toks[i] == TokenView::Operator('/') {
        match spec_parse_factor(toks, i + 1) {
            Err(e) => Err(e),
            Ok((rhs, j)) => if i < j <= toks.len() {
                spec_parse_term_rest(toks, j, AstView::Divide(Box::new(left), Box::new(rhs)))
            } else {
                // cannot occur: parsing never moves the cursor backwards
                Err(InterpError::UnexpectedToken)
            },
        }
    } else {
        Ok((left, i))
    }
}

/// The `factor` rule at position `i`: an integer literal, an identifier, or
/// a parenthesized expression that must be closed by `)`. Any other token
/// cannot start a factor.
pub open spec fn spec_parse_factor(toks: Seq<TokenView>, i: int) -> Result<
    (AstView, int),
    InterpError,
>
    decreases toks.len() - i, 1int,
{
    if i < 0 || i >= toks.len() {
        Err(InterpError::UnexpectedToken)
    } else {
        match toks[i] {
            TokenView::Int(v) => Ok((AstView::IntLiteral(v), i + 1)),
            TokenView::Identifier(name) => Ok((AstView::Identifier(name), i + 1)),
            TokenView::OpenParen => match spec_parse_expression(toks, i + 1) {
                Err(e) => Err(e),
                Ok((node, j)) => if j < toks.len() && toks[j] == TokenView::ClosedParen {
                    Ok((node, j + 1))
                } else {
                    Err(InterpError::UnexpectedToken)
                },
            },
            _ => Err(InterpError::UnexpectedToken),
        }
    }
}

/// True when `tokens[i]` exists and is the operator `op`.
fn peek_is_op(tokens: &Vec<Token>, i: usize, op: char) -> (r: bool)
    ensures
        r == (i < tokens@.len() && token_views(tokens@)[i as int] == TokenView::Operator(op)),
{
    proof {
        if i < tokens@.len() {
            assert(token_views(tokens@)[i as int] == tokens@[i as int]@);
        }
    }
    if i < tokens.len() {
        match &tokens[i] {
            Token::Operator(c) => *c == op,
            _ => false,
        }
    } else {
        false
    }
}

/// True when `tokens[i]` exists and is a closing parenthesis.
fn peek_is_closed_paren(tokens: &Vec<Token>, i: usize) -> (r: bool)
    ensures
        r == (i < tokens@.len() && token_views(tokens@)[i as int] == TokenView::ClosedParen),
{
    proof {
        if i < tokens@.len() {
            assert(token_views(tokens@)[i as int] == tokens@[i as int]@);
        }
    }
    if i < tokens.len() {
        match &tokens[i] {
            Token::ClosedParen => true,
            _ => false,
        }
    } else {
        false
    }
}

fn parse_expression(tokens: &Vec<Token>, current_index: &mut usize) -> (r: Result<
    AstNode,
    InterpError,
>)
    requires
        *old(current_index) <= tokens@.len(),
    ensures
        match r {
            Ok(node) => spec_parse_expression(token_views(tokens@), *old(current_index) as int)
                == Ok::<(AstView, int), InterpError>((node@, *final(current_index) as int))
                && *old(current_index) <= *final(current_index) <= tokens@.len(),
            Err(e) => spec_parse_expression(token_views(tokens@), *old(current_index) as int)
                == Err::<(AstView, int), InterpError>(e),
        },
    decreases tokens@.len() - *current_index, 6int,
{
    proof {
        assert(tokens@.len() == tokens.len());
    }
    let node = match parse_additive(tokens, current_index) {
        Ok(n) => n,
        Err(e) => {
            return Err(e);
        },
    };
    if peek_is_op(tokens, *current_index, '=') {
        *current_index = *current_index + 1;
        match parse_expression(tokens, current_index) {
            Ok(rhs) => Ok(AstNode::Assign(Box::new(node), Box::new(rhs))),
            Err(e) => Err(e),
        }
    } else {
        Ok(node)
    }
}

#[verifier::loop_isolation(false)]
fn parse_additive(tokens: &Vec<Token>, current_index: &mut usize) -> (r: Result<
    AstNode,
    InterpError,
>)
    requires
        *old(current_index) <= tokens@.len(),
    ensures
        match r {
            Ok(node) => spec_parse_additive(token_views(tokens@), *old(current_index) as int)
                == Ok::<(AstView, int), InterpError>((node@, *final(current_index) as int))
                && *old(current_index) <= *final(current_index) <= tokens@.len(),
            Err(e) => spec_parse_additive(token_views(tokens@), *old(current_index) as int)
                == Err::<(AstView, int), InterpError>(e),
        },
    decreases tokens@.len() - *current_index, 5int,
{
    proof {
        assert(tokens@.len() == tokens.len());
    }
    let ghost tv = token_views(tokens@);
    let ghost start = *current_index as int;
    let mut node = match parse_term(tokens, current_index) {
        Ok(n) => n,
        Err(e) => {
            return Err(e);
        },
    };
    while peek_is_op(tokens, *current_index, '+') || peek_is_op(tokens, *current_index, '-')
        invariant
            start <= *current_index <= tokens@.len(),
            spec_parse_additive(tv, start) == spec_parse_additive_rest(
                tv,
                *current_index as int,
                node@,
            ),
        decreases tokens@.len() - *current_index,
    {
        if peek_is_op(tokens, *current_index, '+') {
            *current_index = *current_index + 1;
            let rhs = match parse_term(tokens, current_index) {
                Ok(n) => n,
                Err(e) => {
                    return Err(e);
                },
            };
            node = AstNode::Add(Box::new(node), Box::new(rhs));
        } else {
            *current_index = *current_index + 1;
            let rhs = match parse_term(tokens, current_index) {
                Ok(n) => n,
                Err(e) => {
                    return Err(e);
                },
            };
            node = AstNode::Subtract(Box::new(node), Box::new(rhs));
        }
    }
    Ok(node)
}

#[verifier::loop_isolation(false)]
fn parse_term(tokens: &Vec<Token>, current_index: &mut usize) -> (r: Result<AstNode, InterpError>)
    requires
        *old(current_index) <= tokens@.len(),
    ensures
        match r {
            Ok(node) => spec_parse_term(token_views(tokens@), *old(current_index) as int) == Ok::<
                (AstView, int),
                InterpError,
            >((node@, *final(current_index) as int)) && *old(current_index) <= *final(current_index)
                <= tokens@.len(),
            Err(e) => spec_parse_term(token_views(tokens@), *old(current_index) as int) == Err::<
                (AstView, int),
                InterpError,
            >(e),
        },
    decreases tokens@.len() - *current_index, 3int,
{
    proof {
        assert(tokens@.len() == tokens.len());
    }
    let ghost tv = token_views(tokens@);
    let ghost start = *current_index as int;
    let mut node = match parse_factor(tokens, current_index) {
        Ok(n) => n,
        Err(e) => {
            return Err(e);
        },
    };
    while peek_is_op(tokens, *current_index, '*') || peek_is_op(tokens, *current_index, '/')
        invariant
            start <= *current_index <= tokens@.len(),
            spec_parse_term(tv, start) == spec_parse_term_rest(tv, *current_index as int, node@),
        decreases tokens@.len() - *current_index,
    {
        if peek_is_op(tokens, *current_index, '*') {
            *current_index = *current_index + 1;
            let rhs = match parse_factor(tokens, current_index) {
                Ok(n) => n,
                Err(e) => {
                    return Err(e);
                },
            };
            node = AstNode::Multiply(Box::new(node), Box::new(rhs));
        } else {
            *current_index = *current_index + 1;
            let rhs = match parse_factor(tokens, current_index) {
                Ok(n) => n,
                Err(e) => {
                    return Err(e);
                },
            };
            node = AstNode::Divide(Box::new(node), Box::new(rhs));
        }
    }
    Ok(node)
}

fn parse_factor(tokens: &Vec<Token>, current_index: &mut usize) -> (r: Result<
    AstNode,
    InterpError,
>)
    requires
        *old(current_index) <= tokens@.len(),
    ensures
        match r {
            Ok(node) => spec_parse_factor(token_views(tokens@), *old(current_index) as int)
                == Ok::<(AstView, int), InterpError>((node@, *final(current_index) as int))
                && *old(current_index) <= *final(current_index) <= tokens@.len(),
            Err(e) => spec_parse_factor(token_views(tokens@), *old(current_index) as int) == Err::<
                (AstView, int),
                InterpError,
            >(e),
        },
    decreases tokens@.len() - *current_index, 1int,
{
    if *current_index >= tokens.len() {
        return Err(InterpError::UnexpectedToken);
    }
    proof {
        assert(token_views(tokens@)[*current_index as int] == tokens@[*current_index as int]@);
    }
    match &tokens[*current_index] {
        Token::Int(v) => {
            let value = *v;
            *current_index = *current_index + 1;
            Ok(AstNode::IntLiteral(value))
        },
        Token::Identifier(name) => {
            let owned = name.clone();
            *current_index = *current_index + 1;
            Ok(AstNode::Identifier(owned))
        },
        Token::OpenParen => {
            *current_index = *current_index + 1;
            let node = match parse_expression(tokens, current_index) {
                Ok(n) => n,
                Err(e) => {
                    return Err(e);
                },
            };
            if peek_is_closed_paren(tokens, *current_index) {
                *current_index = *current_index + 1;
                Ok(node)
            } else {
                Err(InterpError::UnexpectedToken)
            }
        },
        _ => Err(InterpError::UnexpectedToken),
    }
}

/// Parses one complete expression from the front of the token sequence.
/// Tokens after it are never examined (see the module documentation).
pub fn parse(tokens: Vec<Token>) -> (r: Result<AstNode, InterpError>)
    ensures
        match r {
            Ok(node) => spec_parse_expression(token_views(tokens@), 0) matches Ok(p) && node@
                == p.0,
            Err(e) => spec_parse_expression(token_views(tokens@), 0) == Err::<
                (AstView, int),
                InterpError,
            >(e),
        },
{
    let mut current_index: usize = 0;
    parse_expression(&tokens, &mut current_index)
}

} // verus!
