use rlox::error::RloxErrorDetail;
use rlox::scanner::Scanner;
use rlox::token::Literal;
use rlox::token::Token;
use rlox::token::TokenType;

fn scan(src: &str) -> Result<Vec<Token>, RloxErrorDetail> {
    let mut scanner = Scanner::new(src.to_string());
    match scanner.scan_tokens() {
        Ok(tokens) => Ok(tokens.clone()),
        Err(e) => Err(e),
    }
}

fn kinds(tokens: &[Token]) -> Vec<TokenType> {
    tokens.iter().map(|t| t.token_type).collect()
}

#[test]
fn punctuation_separated_by_whitespace() {
    let src = "( ) { } , . - + ; * /";
    let tokens = scan(src).unwrap();
    let expected = [
        TokenType::LeftParen,
        TokenType::RightParen,
        TokenType::LeftBrace,
        TokenType::RightBrace,
        TokenType::Comma,
        TokenType::Dot,
        TokenType::Minus,
        TokenType::Plus,
        TokenType::Semicolon,
        TokenType::Star,
        TokenType::Slash,
    ];
    // one token per non-whitespace character, plus the end-of-input token
    assert_eq!(tokens.len(), expected.len() + 1);
    let lexemes = ["(", ")", "{", "}", ",", ".", "-", "+", ";", "*", "/"];
    for (i, k) in expected.iter().enumerate() {
        assert_eq!(tokens[i].token_type, *k);
        assert_eq!(tokens[i].lexeme, lexemes[i]);
        assert!(tokens[i].literal.is_none());
    }
    assert_eq!(tokens[expected.len()].token_type, TokenType::Eof);
}

#[test]
fn bang_equal_is_one_token() {
    let tokens = scan("!=").unwrap();
    assert_eq!(tokens.len(), 2);
    assert_eq!(tokens[0].token_type, TokenType::BangEqual);
    assert_eq!(tokens[0].lexeme, "!=");
}

#[test]
fn bang_alone_is_bang() {
    let tokens = scan("!").unwrap();
    assert_eq!(tokens.len(), 2);
    assert_eq!(tokens[0].token_type, TokenType::Bang);
    assert_eq!(tokens[0].lexeme, "!");
}

#[test]
fn bang_then_space_is_bang() {
    let tokens = scan("! ").unwrap();
    assert_eq!(tokens.len(), 2);
    assert_eq!(tokens[0].token_type, TokenType::Bang);
    assert_eq!(tokens[0].lexeme, "!");
}

#[test]
fn all_operators() {
    let tokens = scan("= == < <= > >= !").unwrap();
    assert_eq!(
        kinds(&tokens),
        vec![
            TokenType::Equal,
            TokenType::EqualEqual,
            TokenType::Less,
            TokenType::LessEqual,
            TokenType::Greater,
            TokenType::GreaterEqual,
            TokenType::Bang,
            TokenType::Eof,
        ]
    );
}

#[test]
fn comment_produces_no_token() {
    let tokens = scan("// comment\n+").unwrap();
    assert_eq!(tokens.len(), 2);
    assert_eq!(tokens[0].token_type, TokenType::Plus);
    assert_eq!(tokens[0].lexeme, "+");
    assert_eq!(tokens[0].line_number, 2);
}

#[test]
fn comment_at_end_of_input() {
    let tokens = scan("+ // trailing").unwrap();
    assert_eq!(kinds(&tokens), vec![TokenType::Plus, TokenType::Eof]);
}

#[test]
fn string_literal_payload_strips_quotes() {
    let tokens = scan("\"hello\"").unwrap();
    assert_eq!(tokens.len(), 2);
    assert_eq!(tokens[0].token_type, TokenType::String);
    assert_eq!(tokens[0].lexeme, "\"hello\"");
    assert_eq!(tokens[0].literal, Some(Literal::Str("hello".to_string())));
}

#[test]
fn string_keeps_newlines_verbatim() {
    let tokens = scan("\"a\nb\"").unwrap();
    assert_eq!(tokens[0].token_type, TokenType::String);
    assert_eq!(tokens[0].literal, Some(Literal::Str("a\nb".to_string())));
    // the literal starts on line 1; the scan continues on line 2
    assert_eq!(tokens[0].line_number, 1);
    assert_eq!(tokens[1].token_type, TokenType::Eof);
    assert_eq!(tokens[1].line_number, 2);
}

#[test]
fn unterminated_string_is_an_error() {
    let err = scan("\"unterminated").unwrap_err();
    assert_eq!(err.message, "Unterminated String");
    assert_eq!(err.line_number, 1);
}

#[test]
fn unterminated_string_line_counts_consumed_newlines() {
    let err = scan("\"a\nb\nc").unwrap_err();
    assert_eq!(err.message, "Unterminated String");
    assert_eq!(err.line_number, 3);
}

#[test]
fn number_literal_integer() {
    let tokens = scan("123").unwrap();
    assert_eq!(tokens.len(), 2);
    assert_eq!(tokens[0].token_type, TokenType::Number);
    assert_eq!(tokens[0].lexeme, "123");
    match &tokens[0].literal {
        Some(Literal::Num(text)) => {
            assert_eq!(text.parse::<f64>().unwrap(), 123.0);
        }
        other => panic!("expected a number payload, got {:?}", other),
    }
}

#[test]
fn number_literal_with_fraction() {
    let tokens = scan("123.45").unwrap();
    assert_eq!(tokens[0].token_type, TokenType::Number);
    assert_eq!(tokens[0].lexeme, "123.45");
    match &tokens[0].literal {
        Some(Literal::Num(text)) => {
            assert_eq!(text.parse::<f64>().unwrap(), 123.45);
        }
        other => panic!("expected a number payload, got {:?}", other),
    }
}

#[test]
fn trailing_dot_is_not_part_of_the_number() {
    let tokens = scan("123.").unwrap();
    assert_eq!(
        kinds(&tokens),
        vec![TokenType::Number, TokenType::Dot, TokenType::Eof]
    );
    assert_eq!(tokens[0].lexeme, "123");
    assert_eq!(tokens[1].lexeme, ".");
}

#[test]
fn identifier_is_not_a_keyword_prefix_match() {
    let tokens = scan("forest").unwrap();
    assert_eq!(tokens.len(), 2);
    assert_eq!(tokens[0].token_type, TokenType::Identifier);
    assert_eq!(tokens[0].lexeme, "forest");
}

#[test]
fn keyword_for_is_recognized() {
    let tokens = scan("for").unwrap();
    assert_eq!(tokens.len(), 2);
    assert_eq!(tokens[0].token_type, TokenType::For);
    assert_eq!(tokens[0].lexeme, "for");
}

#[test]
fn all_keywords_are_recognized() {
    let src = "and class else false fun for if nil or print return super this true var while";
    let tokens = scan(src).unwrap();
    assert_eq!(
        kinds(&tokens),
        vec![
            TokenType::And,
            TokenType::Class,
            TokenType::Else,
            TokenType::False,
            TokenType::Fun,
            TokenType::For,
            TokenType::If,
            TokenType::Nil,
            TokenType::Or,
            TokenType::Print,
            TokenType::Return,
            TokenType::Super,
            TokenType::This,
            TokenType::True,
            TokenType::Var,
            TokenType::While,
            TokenType::Eof,
        ]
    );
}

#[test]
fn keyword_matching_is_case_sensitive() {
    let tokens = scan("For TRUE nilx _var").unwrap();
    assert_eq!(
        kinds(&tokens),
        vec![
            TokenType::Identifier,
            TokenType::Identifier,
            TokenType::Identifier,
            TokenType::Identifier,
            TokenType::Eof,
        ]
    );
}

#[test]
fn rescanning_the_same_source_is_identical() {
    let src = "var answer = 42; // the answer\nprint \"done\";";
    let first = scan(src).unwrap();
    let second = scan(src).unwrap();
    assert_eq!(first, second);
}

#[test]
fn end_of_input_line_counts_newlines() {
    let tokens = scan("a\nb\n\nc").unwrap();
    assert_eq!(tokens.last().unwrap().token_type, TokenType::Eof);
    assert_eq!(tokens.last().unwrap().line_number, 4);
}

#[test]
fn empty_source_yields_only_end_of_input() {
    let tokens = scan("").unwrap();
    assert_eq!(tokens.len(), 1);
    assert_eq!(tokens[0].token_type, TokenType::Eof);
    assert_eq!(tokens[0].line_number, 1);
    assert_eq!(tokens[0].lexeme, "");
}

#[test]
fn unexpected_character_is_an_error() {
    let err = scan("@").unwrap_err();
    assert_eq!(err.message, "Unexpected Token");
    assert_eq!(err.line_number, 1);
}

#[test]
fn error_line_counts_newlines_before_the_error() {
    let err = scan("\n\n@").unwrap_err();
    assert_eq!(err.message, "Unexpected Token");
    assert_eq!(err.line_number, 3);
}

#[test]
fn scan_aborts_at_the_first_error() {
    let err = scan("+ # +").unwrap_err();
    assert_eq!(err.message, "Unexpected Token");
    assert_eq!(err.line_number, 1);
}

#[test]
fn no_partial_token_sequence_after_an_error() {
    let mut scanner = Scanner::new("+ - * @".to_string());
    assert!(scanner.scan_tokens().is_err());
    // the tokens scanned before the error are not exposed
    assert!(scanner.tokens.is_empty());
}

#[test]
fn no_partial_token_sequence_after_unterminated_string() {
    let mut scanner = Scanner::new("; \"open".to_string());
    assert!(scanner.scan_tokens().is_err());
    assert!(scanner.tokens.is_empty());
}

#[test]
fn non_ascii_character_is_unexpected() {
    let err = scan("caf\u{e9}").unwrap_err();
    assert_eq!(err.message, "Unexpected Token");
}

#[test]
fn line_numbers_on_tokens() {
    let tokens = scan("+\n-\n*").unwrap();
    assert_eq!(tokens[0].line_number, 1);
    assert_eq!(tokens[1].line_number, 2);
    assert_eq!(tokens[2].line_number, 3);
    assert_eq!(tokens[3].line_number, 3);
}

#[test]
fn token_new_keeps_its_parts() {
    let t = Token::new(
        TokenType::Identifier,
        "abc".to_string(),
        None,
        7,
    );
    assert_eq!(t.token_type, TokenType::Identifier);
    assert_eq!(t.lexeme, "abc");
    assert_eq!(t.line_number, 7);
    assert!(t.literal.is_none());
}

#[test]
fn eof_token_shape() {
    let t = Token::eof(12);
    assert_eq!(t.token_type, TokenType::Eof);
    assert_eq!(t.lexeme, "");
    assert_eq!(t.line_number, 12);
    assert!(t.literal.is_none());
}

#[test]
fn plus_token_renders_for_diagnostics() {
    let tokens = scan("+").unwrap();
    assert_eq!(tokens[0].to_string(), "Plus + None");
}

#[test]
fn string_token_renders_for_diagnostics() {
    let tokens = scan("\"hi\"").unwrap();
    assert_eq!(tokens[0].to_string(), "String \"hi\" Some(Str(\"hi\"))");
}

#[test]
fn error_new_keeps_its_parts() {
    let e = RloxErrorDetail::new(3, "boom".to_string());
    assert_eq!(e.line_number, 3);
    assert_eq!(e.message, "boom");
}

#[test]
fn error_renders_with_line_and_message() {
    let e = RloxErrorDetail::new(12, "Unexpected Token".to_string());
    assert_eq!(e.render(), "[Line 12] Error: Unexpected Token");
    let e0 = RloxErrorDetail::new(107, "Unterminated String".to_string());
    assert_eq!(e0.render(), "[Line 107] Error: Unterminated String");
}

#[test]
fn mixed_source_scans_to_expected_kinds() {
    let src = "var language = \"lox\";\nvar version = 1.5;\nif (version >= 1) { print language; }";
    let tokens = scan(src).unwrap();
    assert_eq!(
        kinds(&tokens),
        vec![
            TokenType::Var,
            TokenType::Identifier,
            TokenType::Equal,
            TokenType::String,
            TokenType::Semicolon,
            TokenType::Var,
            TokenType::Identifier,
            TokenType::Equal,
            TokenType::Number,
            TokenType::Semicolon,
            TokenType::If,
            TokenType::LeftParen,
            TokenType::Identifier,
            TokenType::GreaterEqual,
            TokenType::Number,
            TokenType::RightParen,
            TokenType::LeftBrace,
            TokenType::Print,
            TokenType::Identifier,
            TokenType::Semicolon,
            TokenType::RightBrace,
            TokenType::Eof,
        ]
    );
    assert_eq!(tokens[10].line_number, 3);
}

#[test]
fn adjacent_punctuation_scans_one_token_each() {
    let tokens = scan("(){}").unwrap();
    assert_eq!(
        kinds(&tokens),
        vec![
            TokenType::LeftParen,
            TokenType::RightParen,
            TokenType::LeftBrace,
            TokenType::RightBrace,
            TokenType::Eof,
        ]
    );
}

#[test]
fn identifier_with_digits_and_underscores() {
    let tokens = scan("a1_b2 _x").unwrap();
    assert_eq!(tokens[0].token_type, TokenType::Identifier);
    assert_eq!(tokens[0].lexeme, "a1_b2");
    assert_eq!(tokens[1].token_type, TokenType::Identifier);
    assert_eq!(tokens[1].lexeme, "_x");
}

#[test]
fn dot_before_digits_is_not_a_number() {
    let tokens = scan(".5").unwrap();
    assert_eq!(
        kinds(&tokens),
        vec![TokenType::Dot, TokenType::Number, TokenType::Eof]
    );
    assert_eq!(tokens[1].lexeme, "5");
}
