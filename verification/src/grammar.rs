//! The grammar of terms, as specification functions on a sequence of
//! characters and a position.
//!
//! ```text
//! term        := application | abstraction | variable
//! application := "(" term term ")"
//! abstraction := ("λ" | "\") variable "." term
//! variable    := name (":" type)?
//! type        := "(" type ("->" type)+ ")" | name
//! name        := one or more ASCII letters and digits
//! ```
//!
//! Trivia (ASCII whitespace, and comments from `//` to the end of the line)
//! may stand before a term, before any of the literals, after the name of a
//! variable and before a type. An application has exactly two subterms;
//! parentheses do not group. A chain of arrows associates to the right.
//!
//! Each function takes the text `s` and a position `i`, and gives either
//! what it read with the position after it, or the [`Failure`]: what was
//! missed, and where. The first thing missed on the way from left to right
//! is the one reported.

use vstd::prelude::*;
use crate::term::{TermView, TypeView};

verus! {

/// The literals of the grammar.
#[derive(Clone, Copy, Debug, PartialEq, Eq, Structural)]
pub enum Literal {
    /// `(`
    LeftParen,
    /// `)`
    RightParen,
    /// `λ`, also written `\`
    Lambda,
    /// `.`
    Dot,
    /// `:`
    Colon,
    /// `->`
    Arrow,
}

/// What the parser missed.
#[derive(Clone, Copy, Debug, PartialEq, Eq, Structural)]
pub enum ParseErrorKind {
    /// The literal does not stand at the position.
    ExpectedToken(Literal),
    /// No type starts at an argument or result position of a function type.
    ExpectedType,
    /// No letter or digit stands where a name must start.
    ExpectedName,
}

/// A syntax error: what was missed, and the number of characters before the
/// place where it was missed.
#[derive(Clone, Copy, Debug, PartialEq, Eq, Structural)]
pub struct ParseError {
    pub kind: ParseErrorKind,
    pub position: usize,
}

/// The model of a [`ParseError`].
pub ghost struct Failure {
    pub kind: ParseErrorKind,
    pub position: int,
}

impl View for ParseError {
    type V = Failure;

    open spec fn view(&self) -> Failure {
        Failure { kind: self.kind, position: self.position as int }
    }
}

/// ASCII whitespace: space, tab, line feed, form feed, carriage return.
pub open spec fn is_whitespace(c: char) -> bool {
    c == ' ' || c == '\t' || c == '\n' || c == '\x0C' || c == '\r'
}

/// The characters of names: ASCII letters and digits.
pub open spec fn is_name_char(c: char) -> bool {
    ('0' <= c && c <= '9') || ('a' <= c && c <= 'z') || ('A' <= c && c <= 'Z')
}

/// The first position at or after `i` that is not trivia, where
/// `in_comment` says whether `i` lies inside a line comment.
pub open spec fn trivia_end(s: Seq<char>, i: int, in_comment: bool) -> int
    decreases s.len() - i,
{
    if !(0 <= i < s.len()) {
        i
    } else if in_comment {
        trivia_end(s, i + 1, s[i] != '\n')
    } else if is_whitespace(s[i]) {
        trivia_end(s, i + 1, false)
    } else if s[i] == '/' && i + 1 < s.len() && s[i + 1] == '/' {
        trivia_end(s, i + 2, true)
    } else {
        i
    }
}

/// The first position at or after `i` that is not trivia.
pub open spec fn skip_trivia(s: Seq<char>, i: int) -> int {
    trivia_end(s, i, false)
}

impl Literal {
    /// The literal as it is written. `λ` is the one with a second spelling,
    /// `\`, which [`Literal::stands_at`] accepts too.
    pub open spec fn text(self) -> Seq<char> {
        match self {
            Literal::LeftParen => seq!['('],
            Literal::RightParen => seq![')'],
            Literal::Lambda => seq!['λ'],
            Literal::Dot => seq!['.'],
            Literal::Colon => seq![':'],
            Literal::Arrow => seq!['-', '>'],
        }
    }

    /// The literal as it is written.
    pub fn as_str(self) -> (text: &'static str)
        ensures
            text@ == self.text(),
    {
        proof {
            reveal_strlit("(");
            reveal_strlit(")");
            reveal_strlit("λ");
            reveal_strlit(".");
            reveal_strlit(":");
            reveal_strlit("->");
        }
        let text = match self {
            Literal::LeftParen => "(",
            Literal::RightParen => ")",
            Literal::Lambda => "λ",
            Literal::Dot => ".",
            Literal::Colon => ":",
            Literal::Arrow => "->",
        };
        assert(text@ =~= self.text());
        text
    }

    /// The number of characters of the literal.
    pub open spec fn width(self) -> int {
        match self {
            Literal::Arrow => 2,
            _ => 1,
        }
    }

    /// Whether the literal stands in `s` at position `i`.
    pub open spec fn stands_at(self, s: Seq<char>, i: int) -> bool {
        &&& 0 <= i
        &&& i + self.width() <= s.len()
        &&& match self {
            Literal::LeftParen => s[i] == '(',
            Literal::RightParen => s[i] == ')',
            Literal::Lambda => s[i] == 'λ' || s[i] == '\\',
            Literal::Dot => s[i] == '.',
            Literal::Colon => s[i] == ':',
            Literal::Arrow => s[i] == '-' && s[i + 1] == '>',
        }
    }
}

/// Trivia, then the literal: the position after it, or `ExpectedToken` at
/// the position after the trivia.
pub open spec fn consume_at(s: Seq<char>, i: int, literal: Literal) -> Result<int, Failure> {
    let j = skip_trivia(s, i);
    if literal.stands_at(s, j) {
        Ok(j + literal.width())
    } else {
        Err(Failure { kind: ParseErrorKind::ExpectedToken(literal), position: j })
    }
}

/// The end of the longest run of name characters that starts at `i`.
pub open spec fn name_end(s: Seq<char>, i: int) -> int
    decreases s.len() - i,
{
    if 0 <= i < s.len() && is_name_char(s[i]) {
        name_end(s, i + 1)
    } else {
        i
    }
}

/// A name at `i`: the longest run of name characters and the position after
/// it, or `ExpectedName` at `i` if the run is empty.
pub open spec fn parse_name_at(s: Seq<char>, i: int) -> Result<(Seq<char>, int), Failure> {
    let j = name_end(s, i);
    if j > i {
        Ok((s.subrange(i, j), j))
    } else {
        Err(Failure { kind: ParseErrorKind::ExpectedName, position: i })
    }
}

/// Trivia ends at or after the position where it starts, and within the
/// text if it starts there.
pub proof fn lemma_trivia_end_bounds(s: Seq<char>, i: int, in_comment: bool)
    ensures
        i <= trivia_end(s, i, in_comment),
        i <= s.len() ==> trivia_end(s, i, in_comment) <= s.len(),
    decreases s.len() - i,
{
    if 0 <= i < s.len() {
        if in_comment {
            lemma_trivia_end_bounds(s, i + 1, s[i] != '\n');
        } else if is_whitespace(s[i]) {
            lemma_trivia_end_bounds(s, i + 1, false);
        } else if s[i] == '/' && i + 1 < s.len() && s[i + 1] == '/' {
            lemma_trivia_end_bounds(s, i + 2, true);
        }
    }
}

/// A run of name characters ends at or after the position where it starts,
/// and within the text if it starts there.
pub proof fn lemma_name_end_bounds(s: Seq<char>, i: int)
    ensures
        i <= name_end(s, i),
        i <= s.len() ==> name_end(s, i) <= s.len(),
    decreases s.len() - i,
{
    if 0 <= i < s.len() && is_name_char(s[i]) {
        lemma_name_end_bounds(s, i + 1);
    }
}

/// A base type at `i`: a name.
pub open spec fn parse_base_type_at(s: Seq<char>, i: int) -> Result<(TypeView, int), Failure> {
    match parse_name_at(s, i) {
        Ok((name, j)) => Ok((TypeView::Variable { name }, j)),
        Err(failure) => Err(failure),
    }
}

/// Whether a type can start at `i`: with `(` or with a name character.
pub open spec fn starts_type(s: Seq<char>, i: int) -> bool {
    0 <= i < s.len() && (s[i] == '(' || is_name_char(s[i]))
}

/// The failure that stands in the branches of the grammar that are never
/// taken: a step that follows a parsed part always starts after the place
/// where that part started ([`lemma_parse_type_advances`],
/// [`lemma_parse_term_advances`]). The test is written out so that the
/// definitions visibly terminate.
pub open spec fn no_progress(i: int) -> Failure {
    Failure { kind: ParseErrorKind::ExpectedType, position: i }
}

/// A type at `i`: trivia, then a function type if `(` stands there, else a
/// base type.
pub open spec fn parse_type_at(s: Seq<char>, i: int) -> Result<(TypeView, int), Failure>
    decreases s.len() - i, 2nat,
{
    let j = skip_trivia(s, i);
    if Literal::LeftParen.stands_at(s, j) {
        proof {
            lemma_trivia_end_bounds(s, i, false);
        }
        parse_function_type_at(s, j)
    } else {
        parse_base_type_at(s, j)
    }
}

/// A type at an argument or result position of a function type: trivia,
/// then a type, or `ExpectedType` if none can start there.
pub open spec fn parse_type_operand_at(s: Seq<char>, i: int) -> Result<(TypeView, int), Failure>
    decreases s.len() - i, 3nat,
{
    let j = skip_trivia(s, i);
    if starts_type(s, j) {
        proof {
            lemma_trivia_end_bounds(s, i, false);
        }
        parse_type_at(s, j)
    } else {
        Err(Failure { kind: ParseErrorKind::ExpectedType, position: j })
    }
}

/// What follows the first arrow of a function type: one type, or several
/// joined by arrows, which associate to the right.
pub open spec fn parse_function_result_at(s: Seq<char>, i: int) -> Result<
    (TypeView, int),
    Failure,
>
    decreases s.len() - i, 4nat,
{
    match parse_type_operand_at(s, i) {
        Err(failure) => Err(failure),
        Ok((head, j)) => {
            let k = skip_trivia(s, j);
            if 0 <= k < s.len() && s[k] == '-' {
                match consume_at(s, k, Literal::Arrow) {
                    Err(failure) => Err(failure),
                    Ok(m) => if m > i {
                        match parse_function_result_at(s, m) {
                            Err(failure) => Err(failure),
                            Ok((rest, n)) => Ok(
                                (
                                    TypeView::Function {
                                        argument: Box::new(head),
                                        result: Box::new(rest),
                                    },
                                    n,
                                ),
                            ),
                        }
                    } else {
                        Err(no_progress(i))
                    },
                }
            } else {
                Ok((head, k))
            }
        },
    }
}

/// A function type at `i`: `(`, the argument type, `->`, the result, `)`.
pub open spec fn parse_function_type_at(s: Seq<char>, i: int) -> Result<(TypeView, int), Failure>
    decreases s.len() - i, 1nat,
{
    match consume_at(s, i, Literal::LeftParen) {
        Err(failure) => Err(failure),
        Ok(j) => {
            proof {
                lemma_trivia_end_bounds(s, i, false);
            }
            match parse_type_operand_at(s, j) {
                Err(failure) => Err(failure),
                Ok((argument, k)) => match consume_at(s, k, Literal::Arrow) {
                    Err(failure) => Err(failure),
                    Ok(m) => if m > i {
                        match parse_function_result_at(s, m) {
                            Err(failure) => Err(failure),
                            Ok((result, n)) => match consume_at(s, n, Literal::RightParen) {
                                Err(failure) => Err(failure),
                                Ok(end) => Ok(
                                    (
                                        TypeView::Function {
                                            argument: Box::new(argument),
                                            result: Box::new(result),
                                        },
                                        end,
                                    ),
                                ),
                            },
                        }
                    } else {
                        Err(no_progress(i))
                    },
                },
            }
        },
    }
}

/// A variable at `i`: a name, trivia, and, if `:` follows, a type.
pub open spec fn parse_variable_at(s: Seq<char>, i: int) -> Result<(TermView, int), Failure> {
    match parse_name_at(s, i) {
        Err(failure) => Err(failure),
        Ok((name, j)) => {
            let k = skip_trivia(s, j);
            if Literal::Colon.stands_at(s, k) {
                match parse_type_at(s, k + 1) {
                    Err(failure) => Err(failure),
                    Ok((annotation, end)) => Ok(
                        (TermView::Variable { name, _type: Some(annotation) }, end),
                    ),
                }
            } else {
                Ok((TermView::Variable { name, _type: None }, k))
            }
        },
    }
}

/// A term at `i`: trivia, then an application if `(` stands there, an
/// abstraction if `λ` or `\` stands there, else a variable.
pub open spec fn parse_term_at(s: Seq<char>, i: int) -> Result<(TermView, int), Failure>
    decreases s.len() - i, 1nat,
{
    let j = skip_trivia(s, i);
    if Literal::LeftParen.stands_at(s, j) {
        proof {
            lemma_trivia_end_bounds(s, i, false);
        }
        parse_application_at(s, j)
    } else if Literal::Lambda.stands_at(s, j) {
        proof {
            lemma_trivia_end_bounds(s, i, false);
        }
        parse_abstraction_at(s, j)
    } else {
        parse_variable_at(s, j)
    }
}

/// An application at `i`: `(`, two terms, `)`.
pub open spec fn parse_application_at(s: Seq<char>, i: int) -> Result<(TermView, int), Failure>
    decreases s.len() - i, 0nat,
{
    match consume_at(s, i, Literal::LeftParen) {
        Err(failure) => Err(failure),
        Ok(j) => {
            proof {
                lemma_trivia_end_bounds(s, i, false);
            }
            match parse_term_at(s, j) {
                Err(failure) => Err(failure),
                Ok((function, k)) => if i < k <= s.len() {
                    match parse_term_at(s, k) {
                        Err(failure) => Err(failure),
                        Ok((argument, m)) => match consume_at(s, m, Literal::RightParen) {
                            Err(failure) => Err(failure),
                            Ok(end) => Ok(
                                (
                                    TermView::Application {
                                        function: Box::new(function),
                                        argument: Box::new(argument),
                                    },
                                    end,
                                ),
                            ),
                        },
                    }
                } else {
                    Err(no_progress(i))
                },
            }
        },
    }
}

/// An abstraction at `i`: `λ` or `\`, a variable, `.`, a term.
pub open spec fn parse_abstraction_at(s: Seq<char>, i: int) -> Result<(TermView, int), Failure>
    decreases s.len() - i, 0nat,
{
    match consume_at(s, i, Literal::Lambda) {
        Err(failure) => Err(failure),
        Ok(j) => match parse_variable_at(s, j) {
            Err(failure) => Err(failure),
            Ok((variable, k)) => match consume_at(s, k, Literal::Dot) {
                Err(failure) => Err(failure),
                Ok(m) => {
                    proof {
                        lemma_trivia_end_bounds(s, i, false);
                        lemma_parse_variable_advances(s, j);
                        lemma_trivia_end_bounds(s, k, false);
                    }
                    match parse_term_at(s, m) {
                        Err(failure) => Err(failure),
                        Ok((body, end)) => Ok(
                            (
                                TermView::Abstraction {
                                    variable: Box::new(variable),
                                    body: Box::new(body),
                                },
                                end,
                            ),
                        ),
                    }
                },
            },
        },
    }
}

/// A literal that is consumed ends after the position where the search for
/// it started, and within the text.
pub proof fn lemma_consume_advances(s: Seq<char>, i: int, literal: Literal)
    ensures
        consume_at(s, i, literal) matches Ok(end) ==> i < end <= s.len(),
{
    lemma_trivia_end_bounds(s, i, false);
}

/// A name that is parsed ends after the position where it started, and
/// within the text.
pub proof fn lemma_parse_name_advances(s: Seq<char>, i: int)
    ensures
        parse_name_at(s, i) matches Ok((_, end)) ==> i < end <= s.len(),
{
    lemma_name_end_bounds(s, i);
}

proof fn lemma_function_type_advances(s: Seq<char>, i: int)
    ensures
        parse_function_type_at(s, i) matches Ok((_, end)) ==> i < end <= s.len(),
    decreases s.len() - i, 1nat,
{
    lemma_consume_advances(s, i, Literal::LeftParen);
    if let Ok(j) = consume_at(s, i, Literal::LeftParen) {
        lemma_type_operand_advances(s, j);
        if let Ok((_, k)) = parse_type_operand_at(s, j) {
            lemma_consume_advances(s, k, Literal::Arrow);
            if let Ok(m) = consume_at(s, k, Literal::Arrow) {
                lemma_function_result_advances(s, m);
                if let Ok((_, n)) = parse_function_result_at(s, m) {
                    lemma_consume_advances(s, n, Literal::RightParen);
                }
            }
        }
    }
}

proof fn lemma_type_advances(s: Seq<char>, i: int)
    ensures
        parse_type_at(s, i) matches Ok((_, end)) ==> i < end <= s.len(),
    decreases s.len() - i, 2nat,
{
    lemma_trivia_end_bounds(s, i, false);
    let j = skip_trivia(s, i);
    if Literal::LeftParen.stands_at(s, j) {
        lemma_function_type_advances(s, j);
    } else {
        lemma_parse_name_advances(s, j);
    }
}

proof fn lemma_type_operand_advances(s: Seq<char>, i: int)
    ensures
        parse_type_operand_at(s, i) matches Ok((_, end)) ==> i < end <= s.len(),
    decreases s.len() - i, 3nat,
{
    lemma_trivia_end_bounds(s, i, false);
    let j = skip_trivia(s, i);
    if starts_type(s, j) {
        lemma_type_advances(s, j);
    }
}

proof fn lemma_function_result_advances(s: Seq<char>, i: int)
    ensures
        parse_function_result_at(s, i) matches Ok((_, end)) ==> i < end <= s.len(),
    decreases s.len() - i, 4nat,
{
    lemma_type_operand_advances(s, i);
    if let Ok((_, j)) = parse_type_operand_at(s, i) {
        lemma_trivia_end_bounds(s, j, false);
        let k = skip_trivia(s, j);
        if 0 <= k < s.len() && s[k] == '-' {
            lemma_consume_advances(s, k, Literal::Arrow);
            if let Ok(m) = consume_at(s, k, Literal::Arrow) {
                lemma_function_result_advances(s, m);
            }
        }
    }
}

/// A type that is parsed ends after the position where it started, and
/// within the text; so do the parts of a function type. The branches of the
/// grammar that test for progress are therefore never taken.
pub proof fn lemma_parse_type_advances(s: Seq<char>, i: int)
    ensures
        parse_type_at(s, i) matches Ok((_, end)) ==> i < end <= s.len(),
        parse_type_operand_at(s, i) matches Ok((_, end)) ==> i < end <= s.len(),
        parse_function_result_at(s, i) matches Ok((_, end)) ==> i < end <= s.len(),
        parse_function_type_at(s, i) matches Ok((_, end)) ==> i < end <= s.len(),
{
    lemma_type_advances(s, i);
    lemma_type_operand_advances(s, i);
    lemma_function_result_advances(s, i);
    lemma_function_type_advances(s, i);
}

/// A variable that is parsed ends after the position where it started, and
/// within the text.
pub proof fn lemma_parse_variable_advances(s: Seq<char>, i: int)
    ensures
        parse_variable_at(s, i) matches Ok((_, end)) ==> i < end <= s.len(),
{
    lemma_parse_name_advances(s, i);
    if let Ok((_, j)) = parse_name_at(s, i) {
        lemma_trivia_end_bounds(s, j, false);
        lemma_type_advances(s, skip_trivia(s, j) + 1);
    }
}

proof fn lemma_application_advances(s: Seq<char>, i: int)
    ensures
        parse_application_at(s, i) matches Ok((_, end)) ==> i < end <= s.len(),
    decreases s.len() - i, 0nat,
{
    lemma_consume_advances(s, i, Literal::LeftParen);
    if let Ok(j) = consume_at(s, i, Literal::LeftParen) {
        lemma_term_advances(s, j);
        if let Ok((_, k)) = parse_term_at(s, j) {
            lemma_term_advances(s, k);
            if let Ok((_, m)) = parse_term_at(s, k) {
                lemma_consume_advances(s, m, Literal::RightParen);
            }
        }
    }
}

proof fn lemma_abstraction_advances(s: Seq<char>, i: int)
    ensures
        parse_abstraction_at(s, i) matches Ok((_, end)) ==> i < end <= s.len(),
    decreases s.len() - i, 0nat,
{
    lemma_consume_advances(s, i, Literal::Lambda);
    if let Ok(j) = consume_at(s, i, Literal::Lambda) {
        lemma_parse_variable_advances(s, j);
        if let Ok((_, k)) = parse_variable_at(s, j) {
            lemma_consume_advances(s, k, Literal::Dot);
            if let Ok(m) = consume_at(s, k, Literal::Dot) {
                lemma_term_advances(s, m);
            }
        }
    }
}

proof fn lemma_term_advances(s: Seq<char>, i: int)
    ensures
        parse_term_at(s, i) matches Ok((_, end)) ==> i < end <= s.len(),
    decreases s.len() - i, 1nat,
{
    lemma_trivia_end_bounds(s, i, false);
    let j = skip_trivia(s, i);
    if Literal::LeftParen.stands_at(s, j) {
        lemma_application_advances(s, j);
    } else if Literal::Lambda.stands_at(s, j) {
        lemma_abstraction_advances(s, j);
    } else {
        lemma_parse_variable_advances(s, j);
    }
}

/// A term that is parsed ends after the position where it started, and
/// within the text. The branch of the grammar that tests for progress is
/// therefore never taken.
pub proof fn lemma_parse_term_advances(s: Seq<char>, i: int)
    ensures
        parse_term_at(s, i) matches Ok((_, end)) ==> i < end <= s.len(),
        parse_application_at(s, i) matches Ok((_, end)) ==> i < end <= s.len(),
        parse_abstraction_at(s, i) matches Ok((_, end)) ==> i < end <= s.len(),
{
    lemma_term_advances(s, i);
    lemma_application_advances(s, i);
    lemma_abstraction_advances(s, i);
}

/// Every term that the grammar yields is well formed: what stands between
/// `λ` and `.` is a variable.
pub proof fn lemma_parse_well_formed(s: Seq<char>, i: int)
    ensures
        parse_term_at(s, i) matches Ok((term, _)) ==> term.well_formed(),
        parse_application_at(s, i) matches Ok((term, _)) ==> term.well_formed(),
        parse_abstraction_at(s, i) matches Ok((term, _)) ==> term.well_formed(),
        parse_variable_at(s, i) matches Ok((term, _)) ==> term is Variable,
    decreases s.len() - i, 2nat,
{
    lemma_trivia_end_bounds(s, i, false);
    let j = skip_trivia(s, i);
    if Literal::LeftParen.stands_at(s, j) {
        lemma_application_well_formed(s, j);
    } else if Literal::Lambda.stands_at(s, j) {
        lemma_abstraction_well_formed(s, j);
    }
    lemma_application_well_formed(s, i);
    lemma_abstraction_well_formed(s, i);
}

proof fn lemma_application_well_formed(s: Seq<char>, i: int)
    ensures
        parse_application_at(s, i) matches Ok((term, _)) ==> term.well_formed(),
    decreases s.len() - i, 1nat,
{
    lemma_consume_advances(s, i, Literal::LeftParen);
    if let Ok(j) = consume_at(s, i, Literal::LeftParen) {
        lemma_parse_well_formed(s, j);
        lemma_term_advances(s, j);
        if let Ok((_, k)) = parse_term_at(s, j) {
            lemma_parse_well_formed(s, k);
        }
    }
}

proof fn lemma_abstraction_well_formed(s: Seq<char>, i: int)
    ensures
        parse_abstraction_at(s, i) matches Ok((term, _)) ==> term.well_formed(),
    decreases s.len() - i, 1nat,
{
    lemma_consume_advances(s, i, Literal::Lambda);
    if let Ok(j) = consume_at(s, i, Literal::Lambda) {
        lemma_parse_variable_advances(s, j);
        if let Ok((_, k)) = parse_variable_at(s, j) {
            lemma_consume_advances(s, k, Literal::Dot);
            if let Ok(m) = consume_at(s, k, Literal::Dot) {
                lemma_parse_well_formed(s, m);
            }
        }
    }
}

/// Whether `name` is a name of the grammar: not empty, letters and digits
/// only.
pub open spec fn is_name(name: Seq<char>) -> bool {
    name.len() > 0 && forall|i: int| 0 <= i < name.len() ==> is_name_char(#[trigger] name[i])
}

/// In a text of name characters, the run that starts at `i` ends with the
/// text.
proof fn lemma_name_end_of_name(name: Seq<char>, i: int)
    requires
        is_name(name),
        0 <= i <= name.len(),
    ensures
        name_end(name, i) == name.len(),
    decreases name.len() - i,
{
    if i < name.len() {
        lemma_name_end_of_name(name, i + 1);
    }
}

/// A name, taken as the whole text, parses to the variable of that name
/// without annotation, and the whole text is consumed.
pub proof fn lemma_parse_name_is_variable(name: Seq<char>)
    requires
        is_name(name),
    ensures
        parse_term_at(name, 0) == Ok::<(TermView, int), Failure>(
            (TermView::Variable { name, _type: None }, name.len() as int),
        ),
{
    let first = name[0];
    assert(is_name_char(first));
    assert(skip_trivia(name, 0) == 0);
    assert(!Literal::LeftParen.stands_at(name, 0));
    assert(!Literal::Lambda.stands_at(name, 0));
    lemma_name_end_of_name(name, 0);
    assert(name.subrange(0, name.len() as int) =~= name);
    assert(skip_trivia(name, name.len() as int) == name.len());
    assert(!Literal::Colon.stands_at(name, name.len() as int));
}

} // verus!
