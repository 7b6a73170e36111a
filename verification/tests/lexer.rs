use arith_expr::ast::lexer::{tokenize, Lexer, Token, TokenKind};

fn kinds(input: &str) -> Vec<TokenKind> {
    tokenize(input).iter().map(|token| token.kind).collect()
}

fn literals(tokens: &[Token]) -> Vec<String> {
    tokens.iter().map(|token| token.span.literal().to_string()).collect()
}

#[test]
fn digits_scan_as_one_number_then_end() {
    assert_eq!(kinds("12345"), vec![TokenKind::Number(12345), TokenKind::EOF]);
    assert_eq!(kinds("0"), vec![TokenKind::Number(0), TokenKind::EOF]);
    assert_eq!(kinds("007"), vec![TokenKind::Number(7), TokenKind::EOF]);
    assert_eq!(
        kinds("9223372036854775807"),
        vec![TokenKind::Number(i64::MAX), TokenKind::EOF]
    );
}

#[test]
fn empty_input_scans_as_end_only() {
    let tokens = tokenize("");
    assert_eq!(tokens.len(), 1);
    assert_eq!(tokens[0].kind, TokenKind::EOF);
    assert_eq!(tokens[0].span.start(), 0);
    assert_eq!(tokens[0].span.end(), 0);
    assert_eq!(tokens[0].span.length(), 0);
    assert_eq!(tokens[0].span.literal(), "\0");
}

#[test]
fn numeral_too_large_wraps_around() {
    assert_eq!(
        kinds("9223372036854775808"),
        vec![TokenKind::Number(i64::MIN), TokenKind::EOF]
    );
    assert_eq!(
        kinds("18446744073709551616"),
        vec![TokenKind::Number(0), TokenKind::EOF]
    );
    assert_eq!(
        kinds("18446744073709551621"),
        vec![TokenKind::Number(5), TokenKind::EOF]
    );
}

#[test]
fn whitespace_is_one_token_per_character() {
    assert_eq!(
        kinds("1  \t\n2"),
        vec![
            TokenKind::Number(1),
            TokenKind::Whitespace,
            TokenKind::Whitespace,
            TokenKind::Whitespace,
            TokenKind::Whitespace,
            TokenKind::Number(2),
            TokenKind::EOF,
        ]
    );
}

#[test]
fn punctuation_maps_to_its_kind() {
    assert_eq!(
        kinds("+-*/()"),
        vec![
            TokenKind::Plus,
            TokenKind::Minus,
            TokenKind::Asterisk,
            TokenKind::Slash,
            TokenKind::LParen,
            TokenKind::RParen,
            TokenKind::EOF,
        ]
    );
}

#[test]
fn unknown_character_is_bad_and_scanning_goes_on() {
    assert_eq!(
        kinds("1 $ 2"),
        vec![
            TokenKind::Number(1),
            TokenKind::Whitespace,
            TokenKind::Bad,
            TokenKind::Whitespace,
            TokenKind::Number(2),
            TokenKind::EOF,
        ]
    );
    let tokens = tokenize("a\u{e9}9");
    assert_eq!(
        tokens.iter().map(|token| token.kind).collect::<Vec<_>>(),
        vec![TokenKind::Bad, TokenKind::Bad, TokenKind::Number(9), TokenKind::EOF]
    );
    assert_eq!(tokens[1].span.start(), 1);
    assert_eq!(tokens[1].span.end(), 2);
    assert_eq!(tokens[1].span.literal(), "\u{e9}");
    assert_eq!(tokens[2].span.start(), 2);
    assert_eq!(tokens[2].span.end(), 3);
}

#[test]
fn spans_cover_the_literals() {
    let tokens = tokenize("12 + 345");
    assert_eq!(literals(&tokens), vec!["12", " ", "+", " ", "345", "\0"]);
    let bounds: Vec<(usize, usize)> =
        tokens.iter().map(|token| (token.span.start(), token.span.end())).collect();
    assert_eq!(bounds, vec![(0, 2), (2, 3), (3, 4), (4, 5), (5, 8), (0, 0)]);
    assert_eq!(tokens[4].span.length(), 3);
}

#[test]
fn end_comes_once_then_nothing() {
    let mut lexer = Lexer::new("7");
    assert_eq!(lexer.next_token().map(|token| token.kind), Some(TokenKind::Number(7)));
    assert_eq!(lexer.next_token().map(|token| token.kind), Some(TokenKind::EOF));
    assert!(lexer.next_token().is_none());
    assert!(lexer.next_token().is_none());
}

#[test]
fn literals_rebuild_the_text_without_whitespace() {
    for input in ["7 - (30 + 7) * 8 / 2", "  1\t+\n2  ", "", "a b\u{a0}c\u{3000}d", "12  34"] {
        let joined: String = tokenize(input)
            .iter()
            .filter(|token| token.kind != TokenKind::Whitespace && token.kind != TokenKind::EOF)
            .map(|token| token.span.literal().to_string())
            .collect();
        let expected: String = input.chars().filter(|c| !c.is_whitespace()).collect();
        assert_eq!(joined, expected);
    }
}

#[test]
fn whitespace_classes_agree_with_the_standard_library() {
    for code in 0..=0x10FFFFu32 {
        if let Some(c) = char::from_u32(code) {
            assert_eq!(Lexer::is_whitespace(&c), c.is_whitespace(), "U+{:04X}", code);
            assert_eq!(Lexer::is_number_start(&c), c.is_ascii_digit(), "U+{:04X}", code);
        }
    }
}

#[test]
fn kind_names() {
    assert_eq!(TokenKind::Number(3).to_string(), "Number");
    assert_eq!(TokenKind::Plus.to_string(), "+");
    assert_eq!(TokenKind::Minus.to_string(), "-");
    assert_eq!(TokenKind::Asterisk.to_string(), "*");
    assert_eq!(TokenKind::Slash.to_string(), "/");
    assert_eq!(TokenKind::LParen.to_string(), "(");
    assert_eq!(TokenKind::RParen.to_string(), ")");
    assert_eq!(TokenKind::EOF.to_string(), "EOF");
    assert_eq!(TokenKind::Whitespace.to_string(), "Whitespace");
    assert_eq!(TokenKind::Bad.to_string(), "Bad");
}

#[test]
fn tokens_and_spans_compare_by_value() {
    let first = tokenize("12 + 12");
    let second = tokenize("12 + 12");
    assert_eq!(first, second);
    assert_eq!(first[0].clone(), first[0]);
    assert_ne!(first[0], first[4]);
    assert_eq!(first[0].kind, first[4].kind);
    assert_ne!(first[1], first[3]);
    assert_eq!(first[1].span.literal(), first[3].span.literal());
}
