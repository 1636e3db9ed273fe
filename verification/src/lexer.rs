//! The lexer: source characters to a flat sequence of tokens.
//!
//! Characters are read once, left to right. `λ`, `\`, `(`, `)` and `.` each
//! give a token; a space gives none. Any other character joins the pending
//! identifier, which is emitted as a `Term` token when the next delimiter is
//! read. The end of the input is no delimiter: an identifier that nothing
//! follows is dropped.

use vstd::prelude::*;
use crate::text::{chars_of, push_char};

verus! {

/// A token with the cursor at which it was emitted. The cursor counts the
/// characters read so far, the one that caused the token included, so the
/// first character of the input has cursor 1.
#[derive(Debug, PartialEq, Eq)]
pub enum Token {
    Term(usize, String),
    Lambda(usize),
    RightParen(usize),
    LeftParen(usize),
    Dot(usize),
}

/// The model of a [`Token`].
pub ghost enum TokenView {
    Term(int, Seq<char>),
    Lambda(int),
    RightParen(int),
    LeftParen(int),
    Dot(int),
}

impl View for Token {
    type V = TokenView;

    open spec fn view(&self) -> TokenView {
        match self {
            Token::Term(cursor, text) => TokenView::Term(*cursor as int, text@),
            Token::Lambda(cursor) => TokenView::Lambda(*cursor as int),
            Token::RightParen(cursor) => TokenView::RightParen(*cursor as int),
            Token::LeftParen(cursor) => TokenView::LeftParen(*cursor as int),
            Token::Dot(cursor) => TokenView::Dot(*cursor as int),
        }
    }
}

impl TokenView {
    /// The cursor recorded in the token.
    pub open spec fn cursor(self) -> int {
        match self {
            TokenView::Term(cursor, _) => cursor,
            TokenView::Lambda(cursor) => cursor,
            TokenView::RightParen(cursor) => cursor,
            TokenView::LeftParen(cursor) => cursor,
            TokenView::Dot(cursor) => cursor,
        }
    }
}

/// The models of a sequence of tokens.
pub open spec fn token_views(tokens: Seq<Token>) -> Seq<TokenView> {
    tokens.map_values(|token: Token| token@)
}

/// The token that the character `c`, read at `cursor`, stands for by itself.
pub open spec fn punctuation(c: char, cursor: int) -> Option<TokenView> {
    if c == 'λ' || c == '\\' {
        Some(TokenView::Lambda(cursor))
    } else if c == '(' {
        Some(TokenView::LeftParen(cursor))
    } else if c == ')' {
        Some(TokenView::RightParen(cursor))
    } else if c == '.' {
        Some(TokenView::Dot(cursor))
    } else {
        None
    }
}

/// The characters that end an identifier: the space and the five characters
/// that are tokens by themselves.
pub open spec fn is_delimiter(c: char) -> bool {
    c == ' ' || c == 'λ' || c == '\\' || c == '(' || c == ')' || c == '.'
}

/// What the lexer holds between two characters: the tokens emitted so far
/// and the identifier under way.
pub ghost struct LexState {
    pub tokens: Seq<TokenView>,
    pub pending: Seq<char>,
}

/// The state after reading the character `c` at `cursor` in `state`.
pub open spec fn lex_step(state: LexState, c: char, cursor: int) -> LexState {
    if is_delimiter(c) {
        let flushed = if state.pending.len() > 0 {
            state.tokens.push(TokenView::Term(cursor, state.pending))
        } else {
            state.tokens
        };
        LexState {
            tokens: match punctuation(c, cursor) {
                Some(token) => flushed.push(token),
                None => flushed,
            },
            pending: Seq::empty(),
        }
    } else {
        LexState { tokens: state.tokens, pending: state.pending.push(c) }
    }
}

/// The state after reading the first `count` characters of `input`.
pub open spec fn lex_prefix(input: Seq<char>, count: nat) -> LexState
    decreases count,
{
    if count == 0 {
        LexState { tokens: Seq::empty(), pending: Seq::empty() }
    } else {
        lex_step(lex_prefix(input, (count - 1) as nat), input[count - 1], count as int)
    }
}

/// The tokens of `input`: those emitted once every character has been read.
pub open spec fn lex(input: Seq<char>) -> Seq<TokenView> {
    lex_prefix(input, input.len()).tokens
}

/// Whether `text` can be the text of a `Term` token: not empty, and free
/// of delimiters.
pub open spec fn is_identifier(text: Seq<char>) -> bool {
    text.len() > 0 && forall|j: int| 0 <= j < text.len() ==> !is_delimiter(#[trigger] text[j])
}

/// Whether `token` says what stands in `input` at its cursor: a `Term` token
/// holds the identifier that ends just before the delimiter at its cursor;
/// any other token is the one that the character at its cursor stands for.
pub open spec fn token_in_text(input: Seq<char>, token: TokenView) -> bool {
    let cursor = token.cursor();
    &&& 1 <= cursor <= input.len()
    &&& match token {
        TokenView::Term(_, text) => {
            &&& is_identifier(text)
            &&& text.len() < cursor
            &&& input.subrange(cursor - 1 - text.len(), cursor - 1) == text
            &&& is_delimiter(input[cursor - 1])
        },
        _ => punctuation(input[cursor - 1], cursor) == Some(token),
    }
}

/// Whether every token of `tokens` says what stands in `input` at its
/// cursor, and the cursors never decrease.
pub open spec fn tokens_in_text(input: Seq<char>, tokens: Seq<TokenView>) -> bool {
    &&& forall|k: int| 0 <= k < tokens.len() ==> token_in_text(input, #[trigger] tokens[k])
    &&& forall|k: int, m: int|
        0 <= k <= m < tokens.len() ==> (#[trigger] tokens[k]).cursor() <= (
        #[trigger] tokens[m]).cursor()
}

/// The state after `count` characters: the tokens emitted say what stands in
/// the text before `count`, and the pending identifier is the delimiter-free
/// run that ends at `count`.
proof fn lemma_lex_prefix_in_text(input: Seq<char>, count: nat)
    requires
        count <= input.len(),
    ensures
        tokens_in_text(input, lex_prefix(input, count).tokens),
        forall|k: int|
            0 <= k < lex_prefix(input, count).tokens.len() ==> (#[trigger] lex_prefix(
                input,
                count,
            ).tokens[k]).cursor() <= count,
        lex_prefix(input, count).pending.len() <= count,
        lex_prefix(input, count).pending == input.subrange(
            count - lex_prefix(input, count).pending.len(),
            count as int,
        ),
        forall|j: int|
            0 <= j < lex_prefix(input, count).pending.len() ==> !is_delimiter(
                #[trigger] lex_prefix(input, count).pending[j],
            ),
    decreases count,
{
    let state = lex_prefix(input, count);
    if count == 0 {
        assert(state.pending =~= input.subrange(0, 0));
    } else {
        let before = lex_prefix(input, (count - 1) as nat);
        lemma_lex_prefix_in_text(input, (count - 1) as nat);
        let c = input[count - 1];
        if is_delimiter(c) {
            assert(state.pending =~= input.subrange(count as int, count as int));
            let flushed = if before.pending.len() > 0 {
                before.tokens.push(TokenView::Term(count as int, before.pending))
            } else {
                before.tokens
            };
            assert(tokens_in_text(input, flushed));
            assert(forall|k: int| 0 <= k < flushed.len() ==> (#[trigger] flushed[k]).cursor() <= count);
        } else {
            assert(state.pending =~= input.subrange(count - state.pending.len(), count as int));
        }
    }
}

/// Every token of a text says what stands in the text at its cursor: the
/// text of a `Term` token is a non-empty run without delimiters that ends
/// just before a delimiter, the other tokens are the characters they stand
/// for, and the cursors never decrease.
pub proof fn lemma_lex_in_text(input: Seq<char>)
    ensures
        tokens_in_text(input, lex(input)),
{
    lemma_lex_prefix_in_text(input, input.len());
}

/// Splits `input` into tokens. Lexing cannot fail.
pub fn lexer(input: &str) -> (tokens: Vec<Token>)
    ensures
        token_views(tokens@) == lex(input@),
        tokens_in_text(input@, token_views(tokens@)),
{
    proof {
        lemma_lex_in_text(input@);
    }
    let chars = chars_of(input);
    let mut tokens: Vec<Token> = Vec::new();
    let mut cursor: usize = 0;
    let mut current_term = String::new();

    assert(token_views(tokens@) =~= lex_prefix(chars@, 0).tokens);
    while cursor < chars.len()
        invariant
            cursor <= chars.len(),
            token_views(tokens@) == lex_prefix(chars@, cursor as nat).tokens,
            current_term@ == lex_prefix(chars@, cursor as nat).pending,
        decreases chars.len() - cursor,
    {
        let current_character = chars[cursor];
        cursor += 1;
        let ghost before = token_views(tokens@);
        let ghost pending = current_term@;
        let next_token = match current_character {
            'λ' | '\\' => Some(Token::Lambda(cursor)),
            '(' => Some(Token::LeftParen(cursor)),
            ')' => Some(Token::RightParen(cursor)),
            '.' => Some(Token::Dot(cursor)),
            ' ' => None,
            _ => {
                push_char(&mut current_term, current_character);
                continue ;
            },
        };

        if !current_term.as_str().is_empty() {
            tokens.push(Token::Term(cursor, current_term));
            current_term = String::new();
            assert(token_views(tokens@) =~= before.push(TokenView::Term(cursor as int, pending)));
        }
        let ghost flushed = token_views(tokens@);
        if let Some(token) = next_token {
            tokens.push(token);
            assert(token_views(tokens@) =~= flushed.push(token@));
        }
        assert(current_term@ =~= Seq::<char>::empty());
    }
    tokens
}

} // verus!
