use zbasic_lexer::lexer::boolean::BooleanOpType;
use zbasic_lexer::lexer::numeric::NumericOpType;
use zbasic_lexer::token::{Token, TokenList};

/// Reads each boolean connective and stops at anything else.
#[test]
fn boolean_op_parse() {
    let mut list = Token::tokenize("&& || +").unwrap();

    assert_eq!(BooleanOpType::parse(&mut list), Some(BooleanOpType::And));
    assert_eq!(BooleanOpType::parse(&mut list), Some(BooleanOpType::Or));

    // `+` is no boolean connective: the cursor stays put.
    assert_eq!(BooleanOpType::parse(&mut list), None);
    assert_eq!(list.peek(), Some(Token::Operator(String::from("+"))));
}

/// Reads each numeric operator and stops at anything else.
#[test]
fn numeric_op_parse() {
    let mut list = Token::tokenize("+ - * / &&").unwrap();

    assert_eq!(NumericOpType::parse(&mut list), Some(NumericOpType::Add));
    assert_eq!(
        NumericOpType::parse(&mut list),
        Some(NumericOpType::Subtract)
    );
    assert_eq!(
        NumericOpType::parse(&mut list),
        Some(NumericOpType::Multiply)
    );
    assert_eq!(NumericOpType::parse(&mut list), Some(NumericOpType::Divide));

    assert_eq!(NumericOpType::parse(&mut list), None);
    assert_eq!(list.peek(), Some(Token::Operator(String::from("&&"))));
}

/// At the end of the sequence both readers report nothing.
#[test]
fn op_parse_at_end() {
    let mut list = TokenList::new(Vec::new());
    assert_eq!(BooleanOpType::parse(&mut list), None);
    assert_eq!(NumericOpType::parse(&mut list), None);
}
