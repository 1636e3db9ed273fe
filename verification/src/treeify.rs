//! From tokens to a term: the grammar of the parser, read off a token
//! sequence instead of the text. Tokens carry no type annotations, so the
//! terms built here have none.
//!
//! ```text
//! term := Term | Lambda Term Dot term | LeftParen term term RightParen
//! ```
//!
//! Tokens after the first complete term are not read.

use vstd::prelude::*;
use crate::lexer::{token_views, Token, TokenView};
use crate::term::{Term, TermView};

verus! {

/// Why a token sequence is no term. The number is the cursor recorded in
/// the token that the error is about.
#[derive(Clone, Copy, Debug, PartialEq, Eq, Structural)]
pub enum TreeifyError {
    /// The application opened by the `(` at this cursor is not closed: the
    /// tokens end inside it, or something other than `)` follows its two
    /// subterms.
    UnclosedParen(usize),
    /// The `)` at this cursor stands where a term must start and closes
    /// nothing.
    UnopenedParen(usize),
    /// The `λ` at this cursor is not followed by a name; or the `.` at this
    /// cursor stands where a term must start, with no `λ` and name before
    /// it.
    MissingLambdaVar(usize),
    /// The `λ` at this cursor and its name are not followed by `.` and a
    /// term.
    MissingLambdaBody(usize),
    /// There is no token at all; or an application is closed before it has
    /// its two subterms.
    EmptyExprList,
}

/// The model of a [`TreeifyError`].
pub ghost enum TreeifyFailure {
    UnclosedParen(int),
    UnopenedParen(int),
    MissingLambdaVar(int),
    MissingLambdaBody(int),
    EmptyExprList,
}

impl View for TreeifyError {
    type V = TreeifyFailure;

    open spec fn view(&self) -> TreeifyFailure {
        match self {
            TreeifyError::UnclosedParen(cursor) => TreeifyFailure::UnclosedParen(*cursor as int),
            TreeifyError::UnopenedParen(cursor) => TreeifyFailure::UnopenedParen(*cursor as int),
            TreeifyError::MissingLambdaVar(cursor) => TreeifyFailure::MissingLambdaVar(
                *cursor as int,
            ),
            TreeifyError::MissingLambdaBody(cursor) => TreeifyFailure::MissingLambdaBody(
                *cursor as int,
            ),
            TreeifyError::EmptyExprList => TreeifyFailure::EmptyExprList,
        }
    }
}

/// Whether the tokens end at `i`.
pub open spec fn at_end(tokens: Seq<TokenView>, i: int) -> bool {
    !(0 <= i < tokens.len())
}

/// Whether a `)` stands at `i`.
pub open spec fn at_right_paren(tokens: Seq<TokenView>, i: int) -> bool {
    0 <= i < tokens.len() && tokens[i] is RightParen
}

/// The term that starts at token `i` and the index of the token after it,
/// or the reason why there is none.
pub open spec fn treeify_at(tokens: Seq<TokenView>, i: int) -> Result<
    (TermView, int),
    TreeifyFailure,
>
    decreases tokens.len() - i,
{
    if at_end(tokens, i) {
        Err(TreeifyFailure::EmptyExprList)
    } else {
        match tokens[i] {
            TokenView::Term(_, name) => Ok((TermView::Variable { name, _type: None }, i + 1)),
            TokenView::RightParen(cursor) => Err(TreeifyFailure::UnopenedParen(cursor)),
            TokenView::Dot(cursor) => Err(TreeifyFailure::MissingLambdaVar(cursor)),
            TokenView::Lambda(cursor) => if at_end(tokens, i + 1) {
                Err(TreeifyFailure::MissingLambdaVar(cursor))
            } else {
                match tokens[i + 1] {
                    TokenView::Term(_, name) => if at_end(tokens, i + 2) || !(tokens[i + 2] is Dot)
                        || at_end(tokens, i + 3) || at_right_paren(tokens, i + 3) {
                        Err(TreeifyFailure::MissingLambdaBody(cursor))
                    } else {
                        match treeify_at(tokens, i + 3) {
                            Err(failure) => Err(failure),
                            Ok((body, end)) => Ok(
                                (
                                    TermView::Abstraction {
                                        variable: Box::new(
                                            TermView::Variable { name, _type: None },
                                        ),
                                        body: Box::new(body),
                                    },
                                    end,
                                ),
                            ),
                        }
                    },
                    _ => Err(TreeifyFailure::MissingLambdaVar(cursor)),
                }
            },
            TokenView::LeftParen(cursor) => if at_end(tokens, i + 1) {
                Err(TreeifyFailure::UnclosedParen(cursor))
            } else if at_right_paren(tokens, i + 1) {
                Err(TreeifyFailure::EmptyExprList)
            } else {
                match treeify_at(tokens, i + 1) {
                    Err(failure) => Err(failure),
                    Ok((function, j)) => if at_end(tokens, j) {
                        Err(TreeifyFailure::UnclosedParen(cursor))
                    } else if at_right_paren(tokens, j) {
                        Err(TreeifyFailure::EmptyExprList)
                    } else if j <= i {
                        // never taken: see `lemma_treeify_advances`
                        Err(TreeifyFailure::EmptyExprList)
                    } else {
                        match treeify_at(tokens, j) {
                            Err(failure) => Err(failure),
                            Ok((argument, k)) => if at_right_paren(tokens, k) {
                                Ok(
                                    (
                                        TermView::Application {
                                            function: Box::new(function),
                                            argument: Box::new(argument),
                                        },
                                        k + 1,
                                    ),
                                )
                            } else {
                                Err(TreeifyFailure::UnclosedParen(cursor))
                            },
                        }
                    },
                }
            },
        }
    }
}

/// The term that the tokens start with, or the reason why there is none.
pub open spec fn treeify_spec(tokens: Seq<TokenView>) -> Result<TermView, TreeifyFailure> {
    match treeify_at(tokens, 0) {
        Ok((term, _)) => Ok(term),
        Err(failure) => Err(failure),
    }
}

/// A term that is built ends after the token where it started, and within
/// the tokens; and it is well formed.
pub proof fn lemma_treeify_advances(tokens: Seq<TokenView>, i: int)
    ensures
        treeify_at(tokens, i) matches Ok((term, end)) ==> i < end <= tokens.len()
            && term.well_formed(),
    decreases tokens.len() - i,
{
    if !at_end(tokens, i) {
        match tokens[i] {
            TokenView::Lambda(_) => {
                if !at_end(tokens, i + 3) {
                    lemma_treeify_advances(tokens, i + 3);
                }
            },
            TokenView::LeftParen(_) => {
                lemma_treeify_advances(tokens, i + 1);
                if let Ok((_, j)) = treeify_at(tokens, i + 1) {
                    lemma_treeify_advances(tokens, j);
                }
            },
            _ => {},
        }
    }
}

/// Builds the term that starts at token `start`.
fn treeify_from(tokens: &[Token], start: usize) -> (result: Result<(Term, usize), TreeifyError>)
    ensures
        match result {
            Ok((term, end)) => treeify_at(token_views(tokens@), start as int) == Ok::<
                (TermView, int),
                TreeifyFailure,
            >((term@, end as int)),
            Err(error) => treeify_at(token_views(tokens@), start as int) == Err::<
                (TermView, int),
                TreeifyFailure,
            >(error@),
        },
    decreases tokens@.len() - start,
{
    let ghost views = token_views(tokens@);
    let n = tokens.len();
    if start >= n {
        return Err(TreeifyError::EmptyExprList);
    }
    assert(views[start as int] == tokens@[start as int]@);
    match &tokens[start] {
        Token::Term(_, name) => Ok((Term::Variable { name: name.clone(), _type: None }, start + 1)),
        Token::RightParen(cursor) => Err(TreeifyError::UnopenedParen(*cursor)),
        Token::Dot(cursor) => Err(TreeifyError::MissingLambdaVar(*cursor)),
        Token::Lambda(cursor) => {
            if n - start < 2 {
                return Err(TreeifyError::MissingLambdaVar(*cursor));
            }
            assert(views[start + 1] == tokens@[start + 1]@);
            match &tokens[start + 1] {
                Token::Term(_, name) => {
                    if n - start < 4 {
                        return Err(TreeifyError::MissingLambdaBody(*cursor));
                    }
                    assert(views[start + 2] == tokens@[start + 2]@);
                    assert(views[start + 3] == tokens@[start + 3]@);
                    let dotted = match &tokens[start + 2] {
                        Token::Dot(_) => true,
                        _ => false,
                    };
                    let closed = match &tokens[start + 3] {
                        Token::RightParen(_) => true,
                        _ => false,
                    };
                    if !dotted || closed {
                        return Err(TreeifyError::MissingLambdaBody(*cursor));
                    }
                    let (body, end) = treeify_from(tokens, start + 3)?;
                    let variable = Term::Variable { name: name.clone(), _type: None };
                    assert(variable@ == TermView::Variable { name: name@, _type: None });
                    Ok((Term::Abstraction { variable: Box::new(variable), body: Box::new(body) }, end))
                },
                _ => Err(TreeifyError::MissingLambdaVar(*cursor)),
            }
        },
        Token::LeftParen(cursor) => {
            if n - start < 2 {
                return Err(TreeifyError::UnclosedParen(*cursor));
            }
            if is_right_paren(tokens, start + 1) {
                return Err(TreeifyError::EmptyExprList);
            }
            let (function, j) = treeify_from(tokens, start + 1)?;
            proof {
                lemma_treeify_advances(views, start + 1);
            }
            if j >= n {
                return Err(TreeifyError::UnclosedParen(*cursor));
            }
            if is_right_paren(tokens, j) {
                return Err(TreeifyError::EmptyExprList);
            }
            let (argument, k) = treeify_from(tokens, j)?;
            proof {
                lemma_treeify_advances(views, j as int);
            }
            if is_right_paren(tokens, k) {
                Ok(
                    (
                        Term::Application {
                            function: Box::new(function),
                            argument: Box::new(argument),
                        },
                        k + 1,
                    ),
                )
            } else {
                Err(TreeifyError::UnclosedParen(*cursor))
            }
        },
    }
}

/// Whether a `)` stands at index `i` of `tokens`.
fn is_right_paren(tokens: &[Token], i: usize) -> (yes: bool)
    ensures
        yes == at_right_paren(token_views(tokens@), i as int),
{
    if i < tokens.len() {
        assert(token_views(tokens@)[i as int] == tokens@[i as int]@);
        match &tokens[i] {
            Token::RightParen(_) => true,
            _ => false,
        }
    } else {
        false
    }
}

/// Builds the term that `tokens` start with.
///
/// Succeeds exactly when a term of the token grammar starts at the first
/// token; each way to fail has its error, see [`TreeifyError`].
pub fn treeify(tokens: &[Token]) -> (result: Result<Term, TreeifyError>)
    ensures
        match result {
            Ok(term) => treeify_spec(token_views(tokens@)) == Ok::<TermView, TreeifyFailure>(
                term@,
            ) && term@.well_formed(),
            Err(error) => treeify_spec(token_views(tokens@)) == Err::<TermView, TreeifyFailure>(
                error@,
            ),
        },
        tokens@.len() == 0 ==> result == Err::<Term, TreeifyError>(TreeifyError::EmptyExprList),
{
    proof {
        lemma_treeify_advances(token_views(tokens@), 0);
    }
    match treeify_from(tokens, 0) {
        Ok((term, _)) => Ok(term),
        Err(error) => Err(error),
    }
}

} // verus!
