use formula::error::ParseError;
use formula::token::Operator;
use formula::token::Token;
use formula::tokenizer::PositionedToken;
use formula::tokenizer::Tokens;
use formula::tokenizer::tokenize;

fn ok_tokens(text: &str) -> Vec<PositionedToken> {
    tokenize(String::from(text)).expect("tokenize should succeed")
}

fn lex_error(text: &str) -> ParseError {
    tokenize(String::from(text)).expect_err("tokenize should fail")
}

#[test]
fn cursor_reads_and_peeks() {
    let mut cursor = Tokens::new(String::from("ab"));
    assert_eq!(cursor.peek_char(), Some('a'));
    assert_eq!(cursor.next_char(), Some('a'));
    assert_eq!(cursor.peek_char(), Some('b'));
    assert_eq!(cursor.next_char(), Some('b'));
    assert_eq!(cursor.peek_char(), None);
    assert_eq!(cursor.next_char(), None);
}

#[test]
fn spans_reconstruct_the_matched_text() {
    let input = "  12 + x*(3.5//y) ";
    let tokens = ok_tokens(input);
    let expected: Vec<(Token, &str)> = vec![
        (Token::IntLiteral(12), "12"),
        (Token::Plus, "+"),
        (Token::Identifier(String::from("x")), "x"),
        (Token::Asterisk, "*"),
        (Token::LeftParenthesis, "("),
        (Token::FloatLiteral(String::from("3.5")), "3.5"),
        (Token::DoubleSlash, "//"),
        (Token::Identifier(String::from("y")), "y"),
        (Token::RightParenthesis, ")"),
    ];
    assert_eq!(tokens.len(), expected.len());
    for (pt, (want_token, want_text)) in tokens.iter().zip(expected.iter()) {
        assert_eq!(&pt.token, want_token);
        assert_eq!(&input[pt.start..pt.end], *want_text);
    }
    let mut covered = 0usize;
    for pt in &tokens {
        assert!(input[covered..pt.start].chars().all(char::is_whitespace));
        assert!(pt.start < pt.end);
        covered = pt.end;
    }
    assert!(input[covered..].chars().all(char::is_whitespace));
}

#[test]
fn leading_zeros_parse_as_their_value() {
    let tokens = ok_tokens("007");
    assert_eq!(tokens.len(), 1);
    assert_eq!(tokens[0].token, Token::IntLiteral(7));
    assert_eq!((tokens[0].start, tokens[0].end), (0, 3));
}

#[test]
fn float_literals_keep_their_text() {
    let tokens = ok_tokens("1.5 .5 5.");
    let texts: Vec<&Token> = tokens.iter().map(|t| &t.token).collect();
    assert_eq!(
        texts,
        vec![
            &Token::FloatLiteral(String::from("1.5")),
            &Token::FloatLiteral(String::from(".5")),
            &Token::FloatLiteral(String::from("5.")),
        ]
    );
}

#[test]
fn a_second_dot_starts_a_new_literal() {
    let tokens = ok_tokens("1.2.3");
    assert_eq!(tokens.len(), 2);
    assert_eq!(tokens[0].token, Token::FloatLiteral(String::from("1.2")));
    assert_eq!(tokens[1].token, Token::FloatLiteral(String::from(".3")));
}

#[test]
fn a_lone_dot_is_a_malformed_float() {
    assert_eq!(lex_error("."), ParseError::MalformedFloatLiteral { start: 0, end: 1 });
}

#[test]
fn an_overflowing_integer_is_malformed() {
    assert_eq!(
        lex_error("99999999999999999999"),
        ParseError::MalformedIntLiteral { start: 0, end: 20 }
    );
    let max = i64::MAX.to_string();
    let tokens = ok_tokens(&max);
    assert_eq!(tokens[0].token, Token::IntLiteral(i64::MAX));
}

#[test]
fn compound_operators_take_two_characters() {
    let tokens = ok_tokens("// ** != <= >=");
    let kinds: Vec<&Token> = tokens.iter().map(|t| &t.token).collect();
    assert_eq!(
        kinds,
        vec![
            &Token::DoubleSlash,
            &Token::DoubleAsterisk,
            &Token::NotEquals,
            &Token::LessThanOrEqual,
            &Token::GreaterThanOrEqual,
        ]
    );
    for pt in &tokens {
        assert_eq!(pt.end - pt.start, 2);
    }
}

#[test]
fn a_bare_exclamation_is_rejected() {
    assert_eq!(lex_error("1 ! 2"), ParseError::LoneExclamation { at: 2 });
}

#[test]
fn an_unassigned_punctuation_character_is_rejected() {
    assert_eq!(lex_error("x @ y"), ParseError::UnexpectedCharacter { ch: '@', at: 2 });
}

#[test]
fn reserved_words_become_boolean_literals() {
    let tokens = ok_tokens("true false truey");
    assert_eq!(tokens[0].token, Token::BoolLiteral(true));
    assert_eq!(tokens[1].token, Token::BoolLiteral(false));
    assert_eq!(tokens[2].token, Token::Identifier(String::from("truey")));
    assert_eq!(Token::from_reserved("true"), Some(Token::BoolLiteral(true)));
    assert_eq!(Token::from_reserved("x"), None);
}

#[test]
fn identifiers_may_contain_digits_after_the_first_character() {
    let tokens = ok_tokens("x1+2y");
    assert_eq!(tokens[0].token, Token::Identifier(String::from("x1")));
    assert_eq!(tokens[1].token, Token::Plus);
    assert_eq!(tokens[2].token, Token::IntLiteral(2));
    assert_eq!(tokens[3].token, Token::Identifier(String::from("y")));
}

#[test]
fn empty_and_blank_input_yield_no_tokens() {
    assert_eq!(ok_tokens("").len(), 0);
    assert_eq!(ok_tokens("   \t\n ").len(), 0);
}

#[test]
fn operator_precedence_tiers() {
    assert_eq!(Operator::Plus.binary_precedence(), Some(1));
    assert_eq!(Operator::Minus.binary_precedence(), Some(1));
    assert_eq!(Operator::Asterisk.binary_precedence(), Some(2));
    assert_eq!(Operator::Slash.binary_precedence(), Some(2));
    assert_eq!(Operator::DoubleSlash.binary_precedence(), Some(2));
    assert_eq!(Operator::Percent.binary_precedence(), Some(2));
    assert_eq!(Operator::Caret.binary_precedence(), Some(3));
    assert_eq!(Operator::DoubleAsterisk.binary_precedence(), Some(3));
    assert_eq!(Operator::Comma.binary_precedence(), None);
    assert_eq!(Operator::Equals.binary_precedence(), None);
    assert_eq!(Operator::Period.binary_precedence(), None);
    assert_eq!(Operator::Backslash.binary_precedence(), None);
}

#[test]
fn operator_spellings() {
    assert_eq!(Operator::Equals.symbol_str(), "=");
    assert_eq!(Operator::NotEquals.symbol_str(), "!=");
    assert_eq!(Operator::DoubleSlash.symbol_str(), "//");
    assert_eq!(Operator::Comma.symbol_str(), ",");
    assert_eq!(Operator::Backslash.symbol_str(), "\\");
}
