//! Boolean expression shapes and the boolean operator reader.

use vstd::prelude::*;

use crate::chars::str_eq;
use crate::token::{Token, TokenList, TokenView};

verus! {

/// A boolean operation applied to two operand expressions.
pub struct OperationBoolExpression {
    op: BooleanOpType,
    a: Box<BoolExpression>,
    b: Box<BoolExpression>,
}

/// The body of a boolean expression: an operation or a constant.
pub enum BoolExpressionType {
    Operation(OperationBoolExpression),
    Constant(bool),
}

/// A boolean expression, possibly negated.
pub struct BoolExpression {
    inverted: bool,
    value: BoolExpressionType,
}

/// The boolean connectives.
#[derive(Debug, PartialEq, Eq)]
pub enum BooleanOpType {
    And,
    Or,
}

/// The boolean connective a token stands for, when it stands for one.
pub open spec fn spec_bool_op(t: TokenView) -> Option<BooleanOpType> {
    match t {
        TokenView::Operator(s) => if s == "&&"@ {
            Some(BooleanOpType::And)
        } else if s == "||"@ {
            Some(BooleanOpType::Or)
        } else {
            None
        },
        _ => None,
    }
}

impl BooleanOpType {
    /// Reads a boolean connective from the cursor: when the next token is
    /// the operator `&&` or `||`, pops it and returns the connective; any
    /// other situation returns `None` and leaves the cursor alone.
    pub fn parse(tokens: &mut TokenList) -> (r: Option<BooleanOpType>)
        ensures
            final(tokens).spec_tokens() == old(tokens).spec_tokens(),
            r == (if old(tokens).spec_ind() < old(tokens).spec_tokens().len() {
                spec_bool_op(old(tokens).spec_tokens()[old(tokens).spec_ind()]@)
            } else {
                None::<BooleanOpType>
            }),
            final(tokens).spec_ind() == old(tokens).spec_ind() + (if r is Some {
                1int
            } else {
                0int
            }),
    {
        if !tokens.available() {
            return None;
        }
        let next = tokens.peek().unwrap();
        let op_type: Option<BooleanOpType> = match next {
            Token::Operator(s) => {
                if str_eq(s.as_str(), "&&") {
                    Some(BooleanOpType::And)
                } else if str_eq(s.as_str(), "||") {
                    Some(BooleanOpType::Or)
                } else {
                    None
                }
            },
            _ => None,
        };
        match op_type {
            None => None,
            Some(op) => {
                tokens.pop();
                Some(op)
            },
        }
    }
}

} // verus!
