use monkey_lexer::lexer::Lexer;
use monkey_lexer::token::Token;

fn collect(input: &str) -> Vec<Token> {
    let mut lexer = Lexer::new(input);
    let mut tokens = Vec::new();
    while let Some(token) = lexer.next_token() {
        tokens.push(token);
    }
    tokens
}

#[test]
fn double_equal_is_one_token() {
    assert_eq!(collect("=="), vec![Token::Equal]);
}

#[test]
fn bang_equal_is_one_token() {
    assert_eq!(collect("!="), vec![Token::NotEqual]);
}

#[test]
fn compound_operators_split_from_neighbours() {
    assert_eq!(
        collect("!=5"),
        vec![Token::NotEqual, Token::IntegerLiteral("5".to_string())]
    );
    assert_eq!(
        collect("a==b"),
        vec![
            Token::Identifier("a".to_string()),
            Token::Equal,
            Token::Identifier("b".to_string()),
        ]
    );
    assert_eq!(collect("==="), vec![Token::Equal, Token::Assign]);
}

#[test]
fn exhaustion_is_terminal() {
    let mut lexer = Lexer::new("x");
    assert_eq!(lexer.next_token(), Some(Token::Identifier("x".to_string())));
    assert_eq!(lexer.next_token(), None);
    assert_eq!(lexer.next_token(), None);
    assert_eq!(lexer.next_token(), None);
}

#[test]
fn empty_input_is_exhausted_at_once() {
    let mut lexer = Lexer::new("");
    assert_eq!(lexer.next_token(), None);
    assert_eq!(lexer.next_token(), None);
}

#[test]
fn whitespace_only_input_is_exhausted() {
    let mut lexer = Lexer::new("  \t \r\n  ");
    assert_eq!(lexer.next_token(), None);
    assert_eq!(lexer.next_token(), None);
}

#[test]
fn keyword_resolution() {
    assert_eq!(collect("fn"), vec![Token::Function]);
    assert_eq!(collect("let"), vec![Token::Let]);
    assert_eq!(collect("letx"), vec![Token::Identifier("letx".to_string())]);
    assert_eq!(collect("fnord"), vec![Token::Identifier("fnord".to_string())]);
    assert_eq!(collect("f"), vec![Token::Identifier("f".to_string())]);
}

#[test]
fn lookup_ident_resolves_keywords() {
    assert_eq!(Token::lookup_ident("fn"), Token::Function);
    assert_eq!(Token::lookup_ident("let"), Token::Let);
    assert_eq!(
        Token::lookup_ident("lets"),
        Token::Identifier("lets".to_string())
    );
    assert_eq!(Token::lookup_ident(""), Token::Identifier("".to_string()));
}

#[test]
fn digit_runs_are_maximal() {
    assert_eq!(
        collect("123abc"),
        vec![
            Token::IntegerLiteral("123".to_string()),
            Token::Identifier("abc".to_string()),
        ]
    );
}

#[test]
fn identifiers_do_not_swallow_digits() {
    assert_eq!(
        collect("x1"),
        vec![
            Token::Identifier("x".to_string()),
            Token::IntegerLiteral("1".to_string()),
        ]
    );
    assert_eq!(
        collect("under_score"),
        vec![Token::Identifier("under_score".to_string())]
    );
}

#[test]
fn whitespace_is_never_required_and_never_seen() {
    assert_eq!(
        collect("5;"),
        vec![Token::IntegerLiteral("5".to_string()), Token::Semicolon]
    );
    assert_eq!(collect("  5  ;  "), collect("5;"));
    assert_eq!(
        collect("five;"),
        vec![Token::Identifier("five".to_string()), Token::Semicolon]
    );
}

#[test]
fn let_statement_scenario() {
    assert_eq!(
        collect("let five = 5;"),
        vec![
            Token::Let,
            Token::Identifier("five".to_string()),
            Token::Assign,
            Token::IntegerLiteral("5".to_string()),
            Token::Semicolon,
        ]
    );
    let mut lexer = Lexer::new("let five = 5;");
    for _ in 0..5 {
        assert!(lexer.next_token().is_some());
    }
    assert_eq!(lexer.next_token(), None);
}

#[test]
fn function_literal_scenario() {
    assert_eq!(
        collect("fn(x, y) { x + y; }"),
        vec![
            Token::Function,
            Token::LParen,
            Token::Identifier("x".to_string()),
            Token::Comma,
            Token::Identifier("y".to_string()),
            Token::RParen,
            Token::LBrace,
            Token::Identifier("x".to_string()),
            Token::Plus,
            Token::Identifier("y".to_string()),
            Token::Semicolon,
            Token::RBrace,
        ]
    );
}

#[test]
fn comparison_scenario() {
    assert_eq!(
        collect("5 < 10 > 5;"),
        vec![
            Token::IntegerLiteral("5".to_string()),
            Token::LessThan,
            Token::IntegerLiteral("10".to_string()),
            Token::GreaterThan,
            Token::IntegerLiteral("5".to_string()),
            Token::Semicolon,
        ]
    );
}

#[test]
fn illegal_characters_are_reported_per_token() {
    assert_eq!(collect("@"), vec![Token::Illegal]);
    assert_eq!(
        collect("a@b"),
        vec![
            Token::Identifier("a".to_string()),
            Token::Illegal,
            Token::Identifier("b".to_string()),
        ]
    );
    assert_eq!(collect("##"), vec![Token::Illegal, Token::Illegal]);
}

#[test]
fn newlines_are_stripped_at_construction() {
    // A newline is removed outright, so it joins what it separated;
    // other whitespace still separates tokens.
    assert_eq!(collect("a\nb"), vec![Token::Identifier("ab".to_string())]);
    assert_eq!(
        collect("a b"),
        vec![
            Token::Identifier("a".to_string()),
            Token::Identifier("b".to_string()),
        ]
    );
}

#[test]
fn multi_byte_characters_index_by_character() {
    assert_eq!(
        collect("caf\u{e9} = 1"),
        vec![
            Token::Identifier("caf\u{e9}".to_string()),
            Token::Assign,
            Token::IntegerLiteral("1".to_string()),
        ]
    );
    assert_eq!(collect("\u{2603}"), vec![Token::Illegal]);
}

#[test]
fn character_classes() {
    assert!(Lexer::is_char_valid_identifier('a'));
    assert!(Lexer::is_char_valid_identifier('Z'));
    assert!(Lexer::is_char_valid_identifier('_'));
    assert!(Lexer::is_char_valid_identifier('\u{e9}'));
    assert!(!Lexer::is_char_valid_identifier('1'));
    assert!(!Lexer::is_char_valid_identifier('@'));
    assert!(!Lexer::is_char_valid_identifier(' '));
    assert!(Lexer::is_char_valid_integer('0'));
    assert!(Lexer::is_char_valid_integer('9'));
    assert!(!Lexer::is_char_valid_integer('a'));
    assert!(!Lexer::is_char_valid_integer('/'));
}

#[test]
fn read_helpers_accumulate_and_stop() {
    let mut lexer = Lexer::new("abc123");
    assert_eq!(lexer.read_identifier(), "abc".to_string());
    assert_eq!(lexer.read_number(), "123".to_string());
    assert_eq!(lexer.next_token(), None);

    let mut lexer = Lexer::new("  42");
    lexer.skip_whitespace();
    assert_eq!(lexer.read_number(), "42".to_string());
}

#[test]
fn symbols_map_positionally() {
    assert_eq!(
        collect("+-!*/<>{}(),;="),
        vec![
            Token::Plus,
            Token::Minus,
            Token::Bang,
            Token::Asterisk,
            Token::Slash,
            Token::LessThan,
            Token::GreaterThan,
            Token::LBrace,
            Token::RBrace,
            Token::LParen,
            Token::RParen,
            Token::Comma,
            Token::Semicolon,
            Token::Assign,
        ]
    );
}
