//! The expression tree and its mathematical view.

use vstd::prelude::*;

verus! {

/// A node of the immutable expression tree built by the parser. Each binary
/// or assign node owns its two children; no node is mutated after
/// construction.
///
/// `Assign`'s left side must, at evaluation time, be an `Identifier` variant;
/// the grammar does not restrict what may appear there, so a non-identifier
/// left side is an evaluation error, not a parse error.
#[derive(Debug, PartialEq, Eq)]
pub enum AstNode {
    Add(Box<AstNode>, Box<AstNode>),
    Subtract(Box<AstNode>, Box<AstNode>),
    Multiply(Box<AstNode>, Box<AstNode>),
    Divide(Box<AstNode>, Box<AstNode>),
    Assign(Box<AstNode>, Box<AstNode>),
    Identifier(String),
    IntLiteral(i32),
}

/// The view of an `AstNode`: the same tree with identifier names as
/// `Seq<char>`. The parser's and the evaluator's specifications are stated
/// over this type.
pub enum AstView {
    Add(Box<AstView>, Box<AstView>),
    Subtract(Box<AstView>, Box<AstView>),
    Multiply(Box<AstView>, Box<AstView>),
    Divide(Box<AstView>, Box<AstView>),
    Assign(Box<AstView>, Box<AstView>),
    Identifier(Seq<char>),
    IntLiteral(i32),
}

pub open spec fn ast_view(node: AstNode) -> AstView
    decreases node,
{
    match node {
        AstNode::Add(l, r) => AstView::Add(Box::new(ast_view(*l)), Box::new(ast_view(*r))),
        AstNode::Subtract(l, r) => AstView::Subtract(
            Box::new(ast_view(*l)),
            Box::new(ast_view(*r)),
        ),
        AstNode::Multiply(l, r) => AstView::Multiply(
            Box::new(ast_view(*l)),
            Box::new(ast_view(*r)),
        ),
        AstNode::Divide(l, r) => AstView::Divide(Box::new(ast_view(*l)), Box::new(ast_view(*r))),
        AstNode::Assign(l, r) => AstView::Assign(Box::new(ast_view(*l)), Box::new(ast_view(*r))),
        AstNode::Identifier(name) => AstView::Identifier(name@),
        AstNode::IntLiteral(v) => AstView::IntLiteral(v),
    }
}

impl View for AstNode {
    type V = AstView;

    open spec fn view(&self) -> AstView {
        ast_view(*self)
    }
}

} // verus!
