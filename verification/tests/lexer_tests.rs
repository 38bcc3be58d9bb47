use brim::lexer::{Lexer, Token};

fn collect_tokens(source: &str) -> Vec<Token> {
    let mut lexer = Lexer::new(source);
    let mut tokens = Vec::new();
    while let Some(t) = lexer.next() {
        tokens.push(t);
    }
    tokens
}

#[test]
fn lexes_a_simple_application() {
    let tokens = collect_tokens("(+ 1 2)");
    assert_eq!(
        tokens,
        vec![
            Token::LParen(0, 1, 0),
            Token::Symbol(1, 2, 0),
            Token::Integer(3, 4, 0),
            Token::Integer(5, 6, 0),
            Token::RParen(6, 7, 0),
        ]
    );
}

#[test]
fn digit_runs_span_all_digits() {
    let tokens = collect_tokens("123 45");
    assert_eq!(tokens, vec![Token::Integer(0, 3, 0), Token::Integer(4, 6, 0)]);
}

#[test]
fn symbol_runs_stop_at_digits() {
    let tokens = collect_tokens("abc123");
    assert_eq!(tokens, vec![Token::Symbol(0, 3, 0), Token::Integer(3, 6, 0)]);
}

#[test]
fn newlines_increment_the_line_counter() {
    let tokens = collect_tokens("a\nb\n\nc");
    assert_eq!(
        tokens,
        vec![Token::Symbol(0, 1, 0), Token::Symbol(2, 3, 1), Token::Symbol(5, 6, 3)]
    );
}

#[test]
fn tabs_and_spaces_are_skipped() {
    let tokens = collect_tokens(" \t ( \t)");
    assert_eq!(tokens, vec![Token::LParen(3, 4, 0), Token::RParen(6, 7, 0)]);
}

#[test]
fn punctuation_symbols_lex_as_symbols() {
    let tokens = collect_tokens("<*> foo-bar? :+");
    assert_eq!(
        tokens,
        vec![Token::Symbol(0, 3, 0), Token::Symbol(4, 12, 0), Token::Symbol(13, 15, 0)]
    );
}

#[test]
fn an_unrecognised_character_is_a_sticky_error() {
    let mut lexer = Lexer::new("a[b");
    assert_eq!(lexer.next(), Some(Token::Symbol(0, 1, 0)));
    assert_eq!(lexer.next(), Some(Token::Error(1, 2, 0)));
    // Once an error token is produced the lexer is permanently exhausted.
    assert_eq!(lexer.next(), None);
    assert_eq!(lexer.next(), None);
}

#[test]
fn reset_rewinds_but_keeps_the_failure_flag() {
    let mut lexer = Lexer::new("[");
    assert_eq!(lexer.next(), Some(Token::Error(0, 1, 0)));
    // The failure flag survives a reset, so the rewound lexer stays
    // exhausted; a fresh lexer on the same text works.
    lexer.reset("x");
    assert_eq!(lexer.next(), None);
    let mut fresh = Lexer::new("x");
    assert_eq!(fresh.next(), Some(Token::Symbol(0, 1, 0)));
}

#[test]
fn reset_rewinds_position_and_line() {
    let mut lexer = Lexer::new("a\nb");
    assert_eq!(lexer.next(), Some(Token::Symbol(0, 1, 0)));
    assert_eq!(lexer.next(), Some(Token::Symbol(2, 3, 1)));
    lexer.reset("c d");
    assert_eq!(lexer.next(), Some(Token::Symbol(0, 1, 0)));
    assert_eq!(lexer.next(), Some(Token::Symbol(2, 3, 0)));
    assert_eq!(lexer.next(), None);
}

#[test]
fn empty_and_whitespace_only_inputs_yield_nothing() {
    assert_eq!(collect_tokens(""), vec![]);
    assert_eq!(collect_tokens("  \n\t "), vec![]);
}
