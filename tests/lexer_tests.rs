use tokenizer::lexer::Lexer;
use tokenizer::token::{Token, TokenKind};

fn collect(input: &str, n: usize) -> Vec<(TokenKind, String)> {
    let mut l = Lexer::new(input);
    let mut out = Vec::new();
    for _ in 0..n {
        let tok = l.next_token().expect("next_token always yields a token");
        out.push((tok.token_type, tok.literal));
    }
    out
}

fn pairs(expected: &[(TokenKind, &str)]) -> Vec<(TokenKind, String)> {
    expected.iter().map(|(k, s)| (*k, s.to_string())).collect()
}

#[test]
fn test_next_token() {
    let input = "=+(){},;";
    let tests: [(TokenKind, &str); 9] = [
        (TokenKind::Assign, "="),
        (TokenKind::Plus, "+"),
        (TokenKind::LParen, "("),
        (TokenKind::RParen, ")"),
        (TokenKind::LBrace, "{"),
        (TokenKind::RBrace, "}"),
        (TokenKind::Comma, ","),
        (TokenKind::Semicolon, ";"),
        (TokenKind::EndOfInput, "\\"),
    ];

    let mut l = Lexer::new(input);

    for (i, (expected_token, expected_literal)) in tests.iter().enumerate() {
        if let Some(tok) = l.next_token() {
            assert_eq!(
                &tok.token_type, expected_token,
                "tests[{}] - tokentype wrong. expected={:?}, got={:?}",
                i, expected_token, tok.token_type,
            );
            assert_eq!(
                &tok.literal, expected_literal,
                "tests[{}] - literal wrong. expected={}, got={}",
                i, expected_literal, tok.literal,
            );
        }
    }
}

#[test]
fn test_next_token_2() {
    let input = "
        let five=5;
        let ten=10;
        
        let add = fn(x, y) {
            x + y;
        };
        
        let result = add(five, ten);";
    let tests: [(TokenKind, &str); 37] = [
        (TokenKind::Let, "let"),
        (TokenKind::Identifier, "five"),
        (TokenKind::Assign, "="),
        (TokenKind::Integer, "5"),
        (TokenKind::Semicolon, ";"),
        (TokenKind::Let, "let"),
        (TokenKind::Identifier, "ten"),
        (TokenKind::Assign, "="),
        (TokenKind::Integer, "10"),
        (TokenKind::Semicolon, ";"),
        (TokenKind::Let, "let"),
        (TokenKind::Identifier, "add"),
        (TokenKind::Assign, "="),
        (TokenKind::Function, "fn"),
        (TokenKind::LParen, "("),
        (TokenKind::Identifier, "x"),
        (TokenKind::Comma, ","),
        (TokenKind::Identifier, "y"),
        (TokenKind::RParen, ")"),
        (TokenKind::LBrace, "{"),
        (TokenKind::Identifier, "x"),
        (TokenKind::Plus, "+"),
        (TokenKind::Identifier, "y"),
        (TokenKind::Semicolon, ";"),
        (TokenKind::RBrace, "}"),
        (TokenKind::Semicolon, ";"),
        (TokenKind::Let, "let"),
        (TokenKind::Identifier, "result"),
        (TokenKind::Assign, "="),
        (TokenKind::Identifier, "add"),
        (TokenKind::LParen, "("),
        (TokenKind::Identifier, "five"),
        (TokenKind::Comma, ","),
        (TokenKind::Identifier, "ten"),
        (TokenKind::RParen, ")"),
        (TokenKind::Semicolon, ";"),
        (TokenKind::EndOfInput, "\\"),
    ];

    let mut l = Lexer::new(input);

    for (i, (expected_token, expected_literal)) in tests.iter().enumerate() {
        if let Some(tok) = l.next_token() {
            assert_eq!(
                &tok.token_type, expected_token,
                "tests[{}] - tokentype wrong. expected={:?}, got={:?} with value {}",
                i, expected_token, tok.token_type, tok.literal,
            );
            assert_eq!(
                &tok.literal, expected_literal,
                "tests[{}] - literal wrong. expected={}, got={}",
                i, expected_literal, tok.literal,
            );
        }
    }
}

#[test]
fn keyword_let() {
    assert_eq!(
        collect("let", 2),
        pairs(&[(TokenKind::Let, "let"), (TokenKind::EndOfInput, "\\")])
    );
}

#[test]
fn keyword_fn() {
    assert_eq!(
        collect("fn", 2),
        pairs(&[(TokenKind::Function, "fn"), (TokenKind::EndOfInput, "\\")])
    );
}

#[test]
fn plain_identifier() {
    assert_eq!(
        collect("foo", 2),
        pairs(&[(TokenKind::Identifier, "foo"), (TokenKind::EndOfInput, "\\")])
    );
}

#[test]
fn keyword_prefixes_are_identifiers() {
    assert_eq!(
        collect("lets f fnx le", 5),
        pairs(&[
            (TokenKind::Identifier, "lets"),
            (TokenKind::Identifier, "f"),
            (TokenKind::Identifier, "fnx"),
            (TokenKind::Identifier, "le"),
            (TokenKind::EndOfInput, "\\"),
        ])
    );
}

#[test]
fn integer_is_one_token() {
    assert_eq!(
        collect("12345", 2),
        pairs(&[(TokenKind::Integer, "12345"), (TokenKind::EndOfInput, "\\")])
    );
}

#[test]
fn letters_then_digits_split() {
    assert_eq!(
        collect("x1 9y", 5),
        pairs(&[
            (TokenKind::Identifier, "x"),
            (TokenKind::Integer, "1"),
            (TokenKind::Integer, "9"),
            (TokenKind::Identifier, "y"),
            (TokenKind::EndOfInput, "\\"),
        ])
    );
}

#[test]
fn whitespace_is_transparent() {
    assert_eq!(collect(" \n\t let ", 4), collect("let", 4));
    assert_eq!(
        collect("\r\n let\r\n", 2),
        pairs(&[(TokenKind::Let, "let"), (TokenKind::EndOfInput, "\\")])
    );
}

#[test]
fn end_to_end_program() {
    assert_eq!(
        collect("let five=5;\nlet add = fn(x, y) { x + y; };", 22),
        pairs(&[
            (TokenKind::Let, "let"),
            (TokenKind::Identifier, "five"),
            (TokenKind::Assign, "="),
            (TokenKind::Integer, "5"),
            (TokenKind::Semicolon, ";"),
            (TokenKind::Let, "let"),
            (TokenKind::Identifier, "add"),
            (TokenKind::Assign, "="),
            (TokenKind::Function, "fn"),
            (TokenKind::LParen, "("),
            (TokenKind::Identifier, "x"),
            (TokenKind::Comma, ","),
            (TokenKind::Identifier, "y"),
            (TokenKind::RParen, ")"),
            (TokenKind::LBrace, "{"),
            (TokenKind::Identifier, "x"),
            (TokenKind::Plus, "+"),
            (TokenKind::Identifier, "y"),
            (TokenKind::Semicolon, ";"),
            (TokenKind::RBrace, "}"),
            (TokenKind::Semicolon, ";"),
            (TokenKind::EndOfInput, "\\"),
        ])
    );
}

#[test]
fn illegal_character_passes_through() {
    assert_eq!(
        collect("@", 3),
        pairs(&[
            (TokenKind::Illegal, "@"),
            (TokenKind::EndOfInput, "\\"),
            (TokenKind::EndOfInput, "\\"),
        ])
    );
}

#[test]
fn uppercase_letters_are_illegal() {
    assert_eq!(
        collect("Ab", 3),
        pairs(&[
            (TokenKind::Illegal, "A"),
            (TokenKind::Identifier, "b"),
            (TokenKind::EndOfInput, "\\"),
        ])
    );
}

#[test]
fn non_ascii_character_is_one_illegal_token() {
    assert_eq!(
        collect("é=λ", 4),
        pairs(&[
            (TokenKind::Illegal, "é"),
            (TokenKind::Assign, "="),
            (TokenKind::Illegal, "λ"),
            (TokenKind::EndOfInput, "\\"),
        ])
    );
}

#[test]
fn backslash_in_source_is_illegal_not_end() {
    assert_eq!(
        collect("\\a", 3),
        pairs(&[
            (TokenKind::Illegal, "\\"),
            (TokenKind::Identifier, "a"),
            (TokenKind::EndOfInput, "\\"),
        ])
    );
}

#[test]
fn empty_input_ends_at_once_and_for_ever() {
    let toks = collect("", 5);
    assert!(toks
        .iter()
        .all(|t| *t == (TokenKind::EndOfInput, "\\".to_string())));
}

#[test]
fn only_whitespace_ends_at_once() {
    assert_eq!(
        collect(" \t\r\n ", 2),
        pairs(&[(TokenKind::EndOfInput, "\\"), (TokenKind::EndOfInput, "\\")])
    );
}

#[test]
fn stream_ends_within_text_length() {
    let input = "a+1 @ {}";
    let toks = collect(input, input.chars().count() + 3);
    let first_end = toks
        .iter()
        .position(|t| t.0 == TokenKind::EndOfInput)
        .unwrap();
    assert_eq!(first_end, 6);
    assert!(toks[first_end..]
        .iter()
        .all(|t| *t == (TokenKind::EndOfInput, "\\".to_string())));
}

#[test]
fn token_new_and_equality() {
    let a = Token::new(TokenKind::Let, "let".to_string());
    assert_eq!(a.token_type, TokenKind::Let);
    assert_eq!(a.literal, "let");
    assert!(a == Token::new(TokenKind::Let, "let".to_string()));
    assert!(a != Token::new(TokenKind::Identifier, "let".to_string()));
    assert!(a != Token::new(TokenKind::Let, "le".to_string()));
}
