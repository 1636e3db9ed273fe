use lambda_calculus::{lexer, Token};

fn term(cursor: usize, text: &str) -> Token {
    Token::Term(cursor, text.to_string())
}

#[test]
fn space_separates_identifiers() {
    assert_eq!(lexer("x y "), vec![term(2, "x"), term(4, "y")]);
}

#[test]
fn the_end_of_the_input_flushes_nothing() {
    assert_eq!(lexer("x y"), vec![term(2, "x")]);
    assert_eq!(lexer("xyz"), vec![]);
    assert_eq!(lexer("(f x"), vec![Token::LeftParen(1), term(3, "f")]);
}

#[test]
fn parenthesized_identifier() {
    assert_eq!(lexer("(x)"), vec![Token::LeftParen(1), term(3, "x"), Token::RightParen(3)]);
}

#[test]
fn empty_input_has_no_tokens() {
    assert_eq!(lexer(""), Vec::<Token>::new());
}

#[test]
fn spaces_alone_give_no_tokens() {
    assert_eq!(lexer("    "), Vec::<Token>::new());
    assert_eq!(lexer(" ( ) "), vec![Token::LeftParen(2), Token::RightParen(4)]);
}

#[test]
fn both_spellings_of_lambda() {
    assert_eq!(
        lexer("λx.x "),
        vec![Token::Lambda(1), term(3, "x"), Token::Dot(3), term(5, "x")]
    );
    assert_eq!(
        lexer("\\x.x "),
        vec![Token::Lambda(1), term(3, "x"), Token::Dot(3), term(5, "x")]
    );
}

#[test]
fn cursors_count_characters() {
    assert_eq!(
        lexer("(λf. λx. (f x) y)"),
        vec![
            Token::LeftParen(1),
            Token::Lambda(2),
            term(4, "f"),
            Token::Dot(4),
            Token::Lambda(6),
            term(8, "x"),
            Token::Dot(8),
            Token::LeftParen(10),
            term(12, "f"),
            term(14, "x"),
            Token::RightParen(14),
            term(17, "y"),
            Token::RightParen(17),
        ]
    );
}

#[test]
fn other_characters_join_the_identifier() {
    assert_eq!(lexer("x:int->int "), vec![term(11, "x:int->int")]);
    assert_eq!(lexer("a\tb\nc "), vec![term(6, "a\tb\nc")]);
    assert_eq!(lexer("é1_ "), vec![term(4, "é1_")]);
}

#[test]
fn delimiters_flush_before_their_own_token() {
    assert_eq!(
        lexer("ab(cd)ef.gh\\ij "),
        vec![
            term(3, "ab"),
            Token::LeftParen(3),
            term(6, "cd"),
            Token::RightParen(6),
            term(9, "ef"),
            Token::Dot(9),
            term(12, "gh"),
            Token::Lambda(12),
            term(15, "ij"),
        ]
    );
}

#[test]
fn term_tokens_are_never_empty() {
    for text in ["", " ", "  x  y  ", "((..))", "λ λ", "a b c", ". ."] {
        for token in lexer(text) {
            if let Token::Term(_, name) = token {
                assert!(!name.is_empty());
                assert!(!name.contains(' '));
            }
        }
    }
}

#[test]
fn characters_of_a_text() {
    assert_eq!(lambda_calculus::text::chars_of(""), Vec::<char>::new());
    assert_eq!(lambda_calculus::text::chars_of("λx.é"), vec!['λ', 'x', '.', 'é']);
}
