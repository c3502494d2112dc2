//! Numeric operator kinds and the numeric operator reader.

use vstd::prelude::*;

use crate::chars::str_eq;
use crate::token::{Token, TokenList, TokenView};

verus! {

/// The carrier a numeric expression evaluates in.
#[derive(Debug, PartialEq, Eq)]
pub enum NumericExpressionDataType {
    Float,
    Int,
}

/// The numeric operators.
#[derive(Debug, PartialEq, Eq)]
pub enum NumericOpType {
    Add,
    Subtract,
    Multiply,
    Divide,
}

/// The numeric operator a token stands for, when it stands for one.
pub open spec fn spec_numeric_op(t: TokenView) -> Option<NumericOpType> {
    match t {
        TokenView::Operator(s) => if s == "+"@ {
            Some(NumericOpType::Add)
        } else if s == "-"@ {
            Some(NumericOpType::Subtract)
        } else if s == "*"@ {
            Some(NumericOpType::Multiply)
        } else if s == "/"@ {
            Some(NumericOpType::Divide)
        } else {
            None
        },
        _ => None,
    }
}

impl NumericOpType {
    /// Reads a numeric operator from the cursor: when the next token is the
    /// operator `+`, `-`, `*` or `/`, pops it and returns the operator; any
    /// other situation returns `None` and leaves the cursor alone.
    pub fn parse(tokens: &mut TokenList) -> (r: Option<NumericOpType>)
        ensures
            final(tokens).spec_tokens() == old(tokens).spec_tokens(),
            r == (if old(tokens).spec_ind() < old(tokens).spec_tokens().len() {
                spec_numeric_op(old(tokens).spec_tokens()[old(tokens).spec_ind()]@)
            } else {
                None::<NumericOpType>
            }),
            final(tokens).spec_ind() == old(tokens).spec_ind() + (if r is Some {
                1int
            } else {
                0int
            }),
    {
        if !tokens.available() {
            return None;
        }
        let next = tokens.peek().unwrap();
        let op_type: Option<NumericOpType> = match next {
            Token::Operator(s) => {
                if str_eq(s.as_str(), "+") {
                    Some(NumericOpType::Add)
                } else if str_eq(s.as_str(), "-") {
                    Some(NumericOpType::Subtract)
                } else if str_eq(s.as_str(), "*") {
                    Some(NumericOpType::Multiply)
                } else if str_eq(s.as_str(), "/") {
                    Some(NumericOpType::Divide)
                } else {
                    None
                }
            },
            _ => None,
        };
        match op_type {
            None => None,
            Some(op) => {
                tokens.pop();
                Some(op)
            },
        }
    }
}

} // verus!
