use interpreter::error::FatalError;
use interpreter::lexer::{Token, TokenType, Tokenizer};

fn kinds_and_texts(tokens: &[Token]) -> Vec<(TokenType, String)> {
    tokens
        .iter()
        .map(|t| (t.get_token_type(), t.get_value().cloned().unwrap_or_default()))
        .collect()
}

fn pair(kind: TokenType, text: &str) -> (TokenType, String) {
    (kind, text.to_string())
}

#[test]
fn tokenize_declaration() {
    let tokens = Tokenizer.tokenize("var x = 45;").unwrap();
    assert_eq!(
        kinds_and_texts(&tokens),
        vec![
            pair(TokenType::Var, "var"),
            pair(TokenType::Identifier, "x"),
            pair(TokenType::Equals, "="),
            pair(TokenType::Number, "45"),
            pair(TokenType::Semicolon, ";"),
            pair(TokenType::EOF, "EndOfFile"),
        ]
    );
}

#[test]
fn tokenize_empty_source_gives_only_end_of_file() {
    let tokens = Tokenizer.tokenize("").unwrap();
    assert_eq!(kinds_and_texts(&tokens), vec![pair(TokenType::EOF, "EndOfFile")]);
}

#[test]
fn tokenize_keywords_and_identifiers() {
    let tokens = Tokenizer
        .tokenize("const function return if else while for in iffy _a1")
        .unwrap();
    let kinds: Vec<TokenType> = tokens.iter().map(|t| t.get_token_type()).collect();
    assert_eq!(
        kinds,
        vec![
            TokenType::Const,
            TokenType::Function,
            TokenType::Return,
            TokenType::If,
            TokenType::Else,
            TokenType::While,
            TokenType::For,
            TokenType::In,
            TokenType::Identifier,
            TokenType::Identifier,
            TokenType::EOF,
        ]
    );
}

#[test]
fn tokenize_punctuation_and_operators() {
    let tokens = Tokenizer.tokenize("(){}[],.:+-*/%=<>!;").unwrap();
    let kinds: Vec<TokenType> = tokens.iter().map(|t| t.get_token_type()).collect();
    assert_eq!(
        kinds,
        vec![
            TokenType::OpenParen,
            TokenType::CloseParen,
            TokenType::OpenBrace,
            TokenType::CloseBrace,
            TokenType::OpenBracket,
            TokenType::CloseBracket,
            TokenType::Comma,
            TokenType::Dot,
            TokenType::Colon,
            TokenType::BinaryOperator,
            TokenType::BinaryOperator,
            TokenType::BinaryOperator,
            TokenType::BinaryOperator,
            TokenType::BinaryOperator,
            TokenType::Equals,
            TokenType::LeftAngleBracket,
            TokenType::RightAngleBracket,
            TokenType::Bang,
            TokenType::Semicolon,
            TokenType::EOF,
        ]
    );
}

#[test]
fn tokenize_two_character_comparison_stays_two_tokens() {
    let tokens = Tokenizer.tokenize("a==b").unwrap();
    let kinds: Vec<TokenType> = tokens.iter().map(|t| t.get_token_type()).collect();
    assert_eq!(
        kinds,
        vec![
            TokenType::Identifier,
            TokenType::Equals,
            TokenType::Equals,
            TokenType::Identifier,
            TokenType::EOF
        ]
    );
}

#[test]
fn tokenize_string_escapes() {
    let tokens = Tokenizer.tokenize(r#""a\nb\t\"c\\\'""#).unwrap();
    assert_eq!(
        kinds_and_texts(&tokens),
        vec![pair(TokenType::String, "a\nb\t\"c\\'"), pair(TokenType::EOF, "EndOfFile")]
    );
}

#[test]
fn tokenize_invalid_escape_is_fatal() {
    let r = Tokenizer.tokenize(r#""a\qb""#);
    assert!(matches!(r, Err(FatalError::InvalidEscape('q'))));
}

#[test]
fn tokenize_unterminated_string_is_fatal() {
    let r = Tokenizer.tokenize("\"abc");
    assert!(matches!(r, Err(FatalError::UnterminatedString)));
}

#[test]
fn tokenize_unknown_character_is_fatal() {
    let r = Tokenizer.tokenize("var x = @;");
    assert!(matches!(r, Err(FatalError::UnknownCharacter('@'))));
}

#[test]
fn tokenize_number_keeps_every_dot() {
    let tokens = Tokenizer.tokenize("1.2.3 4.5").unwrap();
    assert_eq!(
        kinds_and_texts(&tokens),
        vec![
            pair(TokenType::Number, "1.2.3"),
            pair(TokenType::Number, "4.5"),
            pair(TokenType::EOF, "EndOfFile"),
        ]
    );
}

#[test]
fn tokenize_has_no_comments() {
    let r = Tokenizer.tokenize("//@");
    assert!(matches!(r, Err(FatalError::UnknownCharacter('@'))));
    let tokens = Tokenizer.tokenize("1 // 4").unwrap();
    assert_eq!(
        kinds_and_texts(&tokens),
        vec![
            pair(TokenType::Number, "1"),
            pair(TokenType::BinaryOperator, "/"),
            pair(TokenType::BinaryOperator, "/"),
            pair(TokenType::Number, "4"),
            pair(TokenType::EOF, "EndOfFile"),
        ]
    );
}
