//! The parser: source text to a [`Term`], by recursive descent.
//!
//! Each method of [`TermParser`] computes the function of the same name in
//! [`crate::grammar`] at the cursor, moves the cursor to the position that
//! the grammar gives, and on failure leaves it where the failure is.

use vstd::prelude::*;
use crate::grammar::{
    consume_at, is_name_char, lemma_consume_advances, lemma_parse_term_advances,
    lemma_parse_type_advances, lemma_parse_variable_advances, lemma_trivia_end_bounds, name_end,
    parse_abstraction_at, parse_application_at, parse_base_type_at, parse_function_result_at,
    parse_function_type_at, parse_name_at, parse_term_at, parse_type_at, parse_type_operand_at,
    parse_variable_at, skip_trivia, trivia_end, Failure, Literal, ParseError, ParseErrorKind,
};
use crate::term::{Term, TermView, Type, TypeView};
use crate::text::{chars_of, push_char};

verus! {

/// The outcome of the grammar that the result of a method for types stands
/// for, `cursor` being where the method left the parser.
pub open spec fn type_outcome(result: Result<Type, ParseError>, cursor: int) -> Result<
    (TypeView, int),
    Failure,
> {
    match result {
        Ok(parsed) => Ok((parsed@, cursor)),
        Err(error) => Err(error@),
    }
}

/// The outcome of the grammar that the result of a method for terms stands
/// for, `cursor` being where the method left the parser.
pub open spec fn term_outcome(result: Result<Term, ParseError>, cursor: int) -> Result<
    (TermView, int),
    Failure,
> {
    match result {
        Ok(parsed) => Ok((parsed@, cursor)),
        Err(error) => Err(error@),
    }
}

/// A cursor over the characters of a source text.
pub struct TermParser {
    input: Vec<char>,
    index: usize,
}

impl TermParser {
    /// The cursor never leaves the text.
    #[verifier::type_invariant]
    spec fn within_text(&self) -> bool {
        self.index <= self.input@.len()
    }

    /// The characters of the text.
    pub closed spec fn source(&self) -> Seq<char> {
        self.input@
    }

    /// The number of characters that have been consumed.
    pub closed spec fn cursor(&self) -> int {
        self.index as int
    }

    /// A parser at the start of `input`.
    pub fn new(input: &str) -> (parser: TermParser)
        ensures
            parser.source() == input@,
            parser.cursor() == 0,
    {
        TermParser { input: chars_of(input), index: 0 }
    }

    /// The number of characters that have been consumed, which is never
    /// more than the text has.
    pub fn index(&self) -> (index: usize)
        ensures
            index == self.cursor(),
            index <= self.source().len(),
    {
        proof {
            use_type_invariant(self);
        }
        self.index
    }

    /// The next character, if any; the cursor stays.
    pub fn peek_one(&self) -> (next: Option<char>)
        ensures
            next == if 0 <= self.cursor() < self.source().len() {
                Some(self.source()[self.cursor()])
            } else {
                None
            },
    {
        if self.index < self.input.len() {
            Some(self.input[self.index])
        } else {
            None
        }
    }

    /// Moves the cursor past whitespace and line comments.
    pub fn skip_trivia(&mut self)
        ensures
            final(self).source() == old(self).source(),
            final(self).cursor() == skip_trivia(old(self).source(), old(self).cursor()),
    {
        let mut in_comment = false;
        while self.index < self.input.len()
            invariant
                self.input == old(self).input,
                trivia_end(self.input@, self.index as int, in_comment) == skip_trivia(
                    old(self).input@,
                    old(self).index as int,
                ),
            ensures
                self.input == old(self).input,
                self.index as int == skip_trivia(old(self).input@, old(self).index as int),
            decreases self.input.len() - self.index,
        {
            let c = self.input[self.index];
            if in_comment {
                in_comment = c != '\n';
                self.index += 1;
            } else if c == ' ' || c == '\t' || c == '\n' || c == '\x0C' || c == '\r' {
                self.index += 1;
            } else if c == '/' && self.index + 1 < self.input.len() && self.input[self.index + 1]
                == '/' {
                in_comment = true;
                self.index += 2;
            } else {
                break ;
            }
        }
    }

    /// Whether `literal` stands at the cursor; the cursor stays.
    pub fn starts_with(&self, literal: Literal) -> (found: bool)
        ensures
            found == literal.stands_at(self.source(), self.cursor()),
    {
        let n = self.input.len();
        let i = self.index;
        if i >= n {
            return false;
        }
        let c = self.input[i];
        match literal {
            Literal::LeftParen => c == '(',
            Literal::RightParen => c == ')',
            Literal::Lambda => c == 'λ' || c == '\\',
            Literal::Dot => c == '.',
            Literal::Colon => c == ':',
            Literal::Arrow => c == '-' && i + 1 < n && self.input[i + 1] == '>',
        }
    }

    /// Skips trivia, then consumes `literal`. If it does not stand there,
    /// the cursor rests after the trivia and the error names the literal.
    pub fn consume(&mut self, literal: Literal) -> (result: Result<(), ParseError>)
        ensures
            final(self).source() == old(self).source(),
            match result {
                Ok(_) => consume_at(old(self).source(), old(self).cursor(), literal) == Ok::<
                    int,
                    Failure,
                >(final(self).cursor()),
                Err(error) => consume_at(old(self).source(), old(self).cursor(), literal) == Err::<
                    int,
                    Failure,
                >(error@) && final(self).cursor() == error@.position,
            },
    {
        self.skip_trivia();
        if self.starts_with(literal) {
            let n = self.input.len();
            assert(self.index + literal.width() <= n);
            match literal {
                Literal::Arrow => {
                    self.index += 2;
                },
                _ => {
                    self.index += 1;
                },
            }
            Ok(())
        } else {
            Err(ParseError { kind: ParseErrorKind::ExpectedToken(literal), position: self.index })
        }
    }

    /// Consumes the longest run of letters and digits at the cursor. An
    /// empty run is an error, and the cursor stays.
    pub fn parse_name(&mut self) -> (result: Result<String, ParseError>)
        ensures
            final(self).source() == old(self).source(),
            match result {
                Ok(name) => parse_name_at(old(self).source(), old(self).cursor()) == Ok::<
                    (Seq<char>, int),
                    Failure,
                >((name@, final(self).cursor())),
                Err(error) => parse_name_at(old(self).source(), old(self).cursor()) == Err::<
                    (Seq<char>, int),
                    Failure,
                >(error@) && final(self).cursor() == error@.position,
            },
    {
        proof {
            use_type_invariant(&*self);
        }
        let start = self.index;
        let mut name = String::new();
        assert(name@ =~= self.input@.subrange(start as int, start as int));
        while self.index < self.input.len() && is_name_character(self.input[self.index])
            invariant
                self.input == old(self).input,
                start == old(self).index,
                start <= self.index <= self.input.len(),
                name_end(self.input@, self.index as int) == name_end(self.input@, start as int),
                name@ == self.input@.subrange(start as int, self.index as int),
            decreases self.input.len() - self.index,
        {
            push_char(&mut name, self.input[self.index]);
            self.index += 1;
            assert(name@ =~= self.input@.subrange(start as int, self.index as int));
        }
        if self.index > start {
            Ok(name)
        } else {
            Err(ParseError { kind: ParseErrorKind::ExpectedName, position: start })
        }
    }

    /// Parses a base type: a name.
    pub fn parse_base_type(&mut self) -> (result: Result<Type, ParseError>)
        ensures
            final(self).source() == old(self).source(),
            parse_base_type_at(old(self).source(), old(self).cursor()) == type_outcome(
                result,
                final(self).cursor(),
            ),
            result matches Err(error) ==> final(self).cursor() == error.position,
    {
        let name = self.parse_name()?;
        Ok(Type::Variable { name })
    }

    /// Parses a type: a function type if `(` follows the trivia, else a
    /// base type.
    pub fn parse_type(&mut self) -> (result: Result<Type, ParseError>)
        ensures
            final(self).source() == old(self).source(),
            parse_type_at(old(self).source(), old(self).cursor()) == type_outcome(
                result,
                final(self).cursor(),
            ),
            result matches Err(error) ==> final(self).cursor() == error.position,
        decreases old(self).source().len() - old(self).cursor(), 2nat,
    {
        proof {
            lemma_trivia_end_bounds(self.input@, self.index as int, false);
        }
        self.skip_trivia();
        if self.starts_with(Literal::LeftParen) {
            self.parse_function_type()
        } else {
            self.parse_base_type()
        }
    }

    /// Parses an argument or a result of a function type; where no type
    /// can start, the error is `ExpectedType`.
    pub fn parse_type_operand(&mut self) -> (result: Result<Type, ParseError>)
        ensures
            final(self).source() == old(self).source(),
            parse_type_operand_at(old(self).source(), old(self).cursor()) == type_outcome(
                result,
                final(self).cursor(),
            ),
            result matches Err(error) ==> final(self).cursor() == error.position,
        decreases old(self).source().len() - old(self).cursor(), 3nat,
    {
        proof {
            lemma_trivia_end_bounds(self.input@, self.index as int, false);
        }
        self.skip_trivia();
        let at_type = match self.peek_one() {
            Some(c) => c == '(' || is_name_character(c),
            None => false,
        };
        if at_type {
            self.parse_type()
        } else {
            Err(ParseError { kind: ParseErrorKind::ExpectedType, position: self.index })
        }
    }

    /// Parses what follows the first arrow of a function type, folding a
    /// chain of arrows to the right.
    pub fn parse_function_result(&mut self) -> (result: Result<Type, ParseError>)
        ensures
            final(self).source() == old(self).source(),
            parse_function_result_at(old(self).source(), old(self).cursor()) == type_outcome(
                result,
                final(self).cursor(),
            ),
            result matches Err(error) ==> final(self).cursor() == error.position,
        decreases old(self).source().len() - old(self).cursor(), 4nat,
    {
        let ghost s = self.input@;
        let ghost i = self.index as int;
        let head = self.parse_type_operand()?;
        proof {
            lemma_parse_type_advances(s, i);
            lemma_trivia_end_bounds(s, self.index as int, false);
        }
        self.skip_trivia();
        if self.peek_one() == Some('-') {
            proof {
                lemma_consume_advances(s, self.index as int, Literal::Arrow);
            }
            self.consume(Literal::Arrow)?;
            let rest = self.parse_function_result()?;
            Ok(Type::Function { argument: Box::new(head), result: Box::new(rest) })
        } else {
            Ok(head)
        }
    }

    /// Parses a function type: `(`, the argument type, `->`, the result,
    /// `)`.
    pub fn parse_function_type(&mut self) -> (result: Result<Type, ParseError>)
        ensures
            final(self).source() == old(self).source(),
            parse_function_type_at(old(self).source(), old(self).cursor()) == type_outcome(
                result,
                final(self).cursor(),
            ),
            result matches Err(error) ==> final(self).cursor() == error.position,
        decreases old(self).source().len() - old(self).cursor(), 1nat,
    {
        let ghost s = self.input@;
        let ghost i = self.index as int;
        proof {
            lemma_consume_advances(s, i, Literal::LeftParen);
        }
        self.consume(Literal::LeftParen)?;
        let ghost j = self.index as int;
        let argument = self.parse_type_operand()?;
        proof {
            lemma_parse_type_advances(s, j);
            lemma_consume_advances(s, self.index as int, Literal::Arrow);
        }
        self.consume(Literal::Arrow)?;
        let result = self.parse_function_result()?;
        self.consume(Literal::RightParen)?;
        Ok(Type::Function { argument: Box::new(argument), result: Box::new(result) })
    }

    /// Parses a variable: a name and, after `:`, its type.
    pub fn parse_variable(&mut self) -> (result: Result<Term, ParseError>)
        ensures
            final(self).source() == old(self).source(),
            parse_variable_at(old(self).source(), old(self).cursor()) == term_outcome(
                result,
                final(self).cursor(),
            ),
            result matches Err(error) ==> final(self).cursor() == error.position,
            result matches Ok(term) ==> term@ is Variable,
    {
        let name = self.parse_name()?;
        self.skip_trivia();
        if self.starts_with(Literal::Colon) {
            self.consume(Literal::Colon)?;
            let _type = Some(self.parse_type()?);
            return Ok(Term::Variable { name, _type });
        }
        Ok(Term::Variable { name, _type: None })
    }

    /// Parses an application: `(`, two terms, `)`.
    pub fn parse_application(&mut self) -> (result: Result<Term, ParseError>)
        ensures
            final(self).source() == old(self).source(),
            parse_application_at(old(self).source(), old(self).cursor()) == term_outcome(
                result,
                final(self).cursor(),
            ),
            result matches Err(error) ==> final(self).cursor() == error.position,
            result matches Ok(term) ==> term@.well_formed(),
        decreases old(self).source().len() - old(self).cursor(), 0nat,
    {
        let ghost s = self.input@;
        let ghost i = self.index as int;
        proof {
            lemma_consume_advances(s, i, Literal::LeftParen);
        }
        self.consume(Literal::LeftParen)?;
        let ghost j = self.index as int;
        let function = self.parse()?;
        proof {
            lemma_parse_term_advances(s, j);
        }
        let argument = self.parse()?;
        self.consume(Literal::RightParen)?;
        Ok(Term::Application { function: Box::new(function), argument: Box::new(argument) })
    }

    /// Parses an abstraction: `λ` or `\`, a variable, `.`, a term.
    pub fn parse_abstraction(&mut self) -> (result: Result<Term, ParseError>)
        ensures
            final(self).source() == old(self).source(),
            parse_abstraction_at(old(self).source(), old(self).cursor()) == term_outcome(
                result,
                final(self).cursor(),
            ),
            result matches Err(error) ==> final(self).cursor() == error.position,
            result matches Ok(term) ==> term@.well_formed(),
        decreases old(self).source().len() - old(self).cursor(), 0nat,
    {
        let ghost s = self.input@;
        let ghost i = self.index as int;
        proof {
            lemma_consume_advances(s, i, Literal::Lambda);
        }
        self.consume(Literal::Lambda)?;
        let ghost j = self.index as int;
        let variable = self.parse_variable()?;
        proof {
            lemma_parse_variable_advances(s, j);
            lemma_consume_advances(s, self.index as int, Literal::Dot);
        }
        self.consume(Literal::Dot)?;
        let body = self.parse()?;
        Ok(Term::Abstraction { variable: Box::new(variable), body: Box::new(body) })
    }

    /// Parses a term: an application if `(` follows the trivia, an
    /// abstraction if `λ` or `\` does, else a variable. What follows the
    /// term is left unread.
    pub fn parse(&mut self) -> (result: Result<Term, ParseError>)
        ensures
            final(self).source() == old(self).source(),
            parse_term_at(old(self).source(), old(self).cursor()) == term_outcome(
                result,
                final(self).cursor(),
            ),
            result matches Err(error) ==> final(self).cursor() == error.position,
            result matches Ok(term) ==> term@.well_formed(),
        decreases old(self).source().len() - old(self).cursor(), 1nat,
    {
        proof {
            lemma_trivia_end_bounds(self.input@, self.index as int, false);
        }
        self.skip_trivia();
        match self.peek_one() {
            Some('(') => self.parse_application(),
            Some('λ') | Some('\\') => self.parse_abstraction(),
            _ => self.parse_variable(),
        }
    }
}

/// Whether `c` is an ASCII letter or digit.
pub fn is_name_character(c: char) -> (yes: bool)
    ensures
        yes == is_name_char(c),
{
    ('0' <= c && c <= '9') || ('a' <= c && c <= 'z') || ('A' <= c && c <= 'Z')
}

} // verus!
