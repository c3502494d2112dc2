use zbasic_lexer::token::{Token, TokenList};

/// Tests the split works/tokens class
#[test]
fn split_tokens() -> () {
    // Define the words and expected words
    let words = Token::split_tokens("this   is(a test&&=||)====998 -13 -2.0");
    let expected_words = vec![
        "this", "is", "(", "a", "test", "&&", "=", "||", ")", "==", "==", "998", "-", "13", "-",
        "2.0",
    ];

    // Ensure that lengths match
    assert_eq!(words.len(), expected_words.len());

    // Ensure that values match
    for i in 0..words.len() {
        assert_eq!(words[i], expected_words[i]);
    }
}

/// Tests the tokenize function against valid, expected input
#[test]
fn tokenize_valid() {
    // Define the valid test input
    let token_valid_input =
        "this   is(a+test&&=||)====998 -13 a93 Z384=3.458 for if FOR If else !test != !asdf";

    // Define the expected test output
    let tokens_expected: Vec<Token> = vec![
        Token::Variable(String::from("this")),
        Token::Variable(String::from("is")),
        Token::Operator(String::from("(")),
        Token::Variable(String::from("a")),
        Token::Operator(String::from("+")),
        Token::Variable(String::from("test")),
        Token::Operator(String::from("&&")),
        Token::Operator(String::from("=")),
        Token::Operator(String::from("||")),
        Token::Operator(String::from(")")),
        Token::Operator(String::from("==")),
        Token::Operator(String::from("==")),
        Token::Int(998),
        Token::Operator(String::from("-")),
        Token::Int(13),
        Token::Variable(String::from("a93")),
        Token::Variable(String::from("Z384")),
        Token::Operator(String::from("=")),
        Token::Float(String::from("3.458")),
        Token::Keyword(String::from("for")),
        Token::Keyword(String::from("if")),
        Token::Variable(String::from("FOR")),
        Token::Variable(String::from("If")),
        Token::Keyword(String::from("else")),
        Token::Operator(String::from("!")),
        Token::Variable(String::from("test")),
        Token::Operator(String::from("!=")),
        Token::Operator(String::from("!")),
        Token::Variable(String::from("asdf")),
    ];

    let tokens_result = Token::tokenize(token_valid_input);

    assert_eq!(tokens_result.is_ok(), true);

    let mut token_list: TokenList = tokens_result.unwrap();
    let tokens = &token_list.tokens;

    assert_eq!(tokens.len(), tokens_expected.len());

    for i in 0..tokens.len() {
        assert_eq!(tokens[i], tokens_expected[i]);
    }

    // Check that the token list provides the correct outputs
    let mut curr_ind = 0usize;
    while token_list.available() {
        let t = token_list.pop().unwrap();
        assert_eq!(t, tokens_expected[curr_ind]);
        curr_ind += 1;
    }

    // Ensure that the token list is now empty
    assert_eq!(token_list.available(), false);
    assert_eq!(token_list.peek(), None);
    assert_eq!(token_list.pop(), None);

    // Reset the token list and check that the first two tokens are correct
    token_list.reset();

    assert_eq!(token_list.available(), true);
    assert_eq!(token_list.pop().unwrap(), tokens_expected[0]);
    assert_eq!(token_list.pop().unwrap(), tokens_expected[1]);
}

/// Tests the tokenize input against invalid input
#[test]
fn tokenize_invalid() {
    assert_eq!(Token::tokenize("123.345.3").is_err(), true);
    assert_eq!(Token::tokenize("234a34").is_err(), true);
    assert_eq!(Token::tokenize("[asdf]").is_err(), true);
}

/// Maximal munch: `====` splits into two `==`, never four `=`.
#[test]
fn maximal_munch() {
    let words = Token::split_tokens("====");
    assert_eq!(words, vec!["==", "=="]);
}

/// A leading minus is its own operator token, not part of the literal.
#[test]
fn negative_number_boundary() {
    let list = Token::tokenize("-13").unwrap();
    assert_eq!(
        list.tokens,
        vec![Token::Operator(String::from("-")), Token::Int(13)]
    );

    let list = Token::tokenize("-2.0").unwrap();
    assert_eq!(
        list.tokens,
        vec![
            Token::Operator(String::from("-")),
            Token::Float(String::from("2.0"))
        ]
    );
}

/// Keyword matching is exact and case-sensitive.
#[test]
fn keyword_precedence() {
    let list = Token::tokenize("if").unwrap();
    assert_eq!(list.tokens, vec![Token::Keyword(String::from("if"))]);

    let list = Token::tokenize("If").unwrap();
    assert_eq!(list.tokens, vec![Token::Variable(String::from("If"))]);
}

/// The cursor pops in order, reports exhaustion, and replays after reset.
#[test]
fn cursor_semantics() {
    let mut list = Token::tokenize("a b").unwrap();
    assert_eq!(list.tokens.len(), 2);

    let first = list.pop().unwrap();
    let second = list.pop().unwrap();
    assert_eq!(first, Token::Variable(String::from("a")));
    assert_eq!(second, Token::Variable(String::from("b")));

    assert_eq!(list.available(), false);
    assert_eq!(list.peek(), None);
    assert_eq!(list.pop(), None);

    list.reset();
    assert_eq!(list.available(), true);
    assert_eq!(list.pop().unwrap(), Token::Variable(String::from("a")));
    assert_eq!(list.pop().unwrap(), Token::Variable(String::from("b")));
}

/// With single-character operators and whitespace-separated units, one
/// token comes out per unit.
#[test]
fn round_trip_units() {
    let input = "a + b ; c = 12";
    let words = Token::split_tokens(input);
    assert_eq!(words.len(), 7);
    let list = Token::tokenize(input).unwrap();
    assert_eq!(list.tokens.len(), 7);
}

/// Operator and keyword table entries classify as themselves, never as
/// identifiers.
#[test]
fn classification_no_overlap() {
    for op in [
        ";", ",", "(", ")", "{", "}", "+", "*", "-", "/", "=", "&&", "||", "==", "!=", "!",
    ] {
        assert_eq!(
            Token::check_for_token(op).unwrap(),
            Token::Operator(String::from(op))
        );
    }
    for kw in ["if", "else", "for"] {
        assert_eq!(
            Token::check_for_token(kw).unwrap(),
            Token::Keyword(String::from(kw))
        );
    }
}

/// Boolean literals match before the identifier rule.
#[test]
fn boolean_literals() {
    let list = Token::tokenize("true false").unwrap();
    assert_eq!(list.tokens, vec![Token::Bool(true), Token::Bool(false)]);
}

/// Empty input yields an empty token sequence.
#[test]
fn empty_input() {
    assert_eq!(Token::split_tokens("").len(), 0);
    let list = Token::tokenize("").unwrap();
    assert_eq!(list.tokens.len(), 0);
    assert_eq!(list.available(), false);
}

/// A decimal point with digits on one side only is still a float.
#[test]
fn float_one_sided() {
    let list = Token::tokenize("3.").unwrap();
    assert_eq!(list.tokens, vec![Token::Float(String::from("3."))]);

    let list = Token::tokenize(".5").unwrap();
    assert_eq!(list.tokens, vec![Token::Float(String::from(".5"))]);

    assert!(Token::tokenize(".").is_err());
}

/// Integer literals at and beyond the 32-bit boundary.
#[test]
fn int_range_boundary() {
    let list = Token::tokenize("2147483647").unwrap();
    assert_eq!(list.tokens, vec![Token::Int(2147483647)]);

    let err = Token::tokenize("2147483648").unwrap_err();
    assert_eq!(err, "unable to parse token 2147483648 as int");

    let err = Token::tokenize("99999999999999999999").unwrap_err();
    assert_eq!(err, "unable to parse token 99999999999999999999 as int");
}

/// The rejection message names the offending word.
#[test]
fn rejection_messages() {
    let err = Token::tokenize("[asdf]").unwrap_err();
    assert_eq!(err, "unable to parse [asdf] as a token");

    let err = Token::tokenize("234a34").unwrap_err();
    assert_eq!(err, "unable to parse 234a34 as a token");
}

/// Tokens render as `(kind payload)`.
#[test]
fn token_to_string() {
    assert_eq!(Token::Int(5).to_string(), "(int 5)");
    assert_eq!(Token::Int(0).to_string(), "(int 0)");
    assert_eq!(Token::Int(-13).to_string(), "(int -13)");
    assert_eq!(Token::Int(i32::MIN).to_string(), "(int -2147483648)");
    assert_eq!(
        Token::Float(String::from("2.0")).to_string(),
        "(float 2.0)"
    );
    assert_eq!(Token::Bool(true).to_string(), "(bool true)");
    assert_eq!(Token::Bool(false).to_string(), "(bool false)");
    assert_eq!(
        Token::Keyword(String::from("if")).to_string(),
        "(keyword if)"
    );
    assert_eq!(
        Token::Operator(String::from("+")).to_string(),
        "(operator '+')"
    );
    assert_eq!(
        Token::Variable(String::from("x9")).to_string(),
        "(variable x9)"
    );
}
