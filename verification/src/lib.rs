//! A small lambda-calculus front end: a lexer, a recursive-descent parser for
//! optionally annotated terms, a builder of terms from tokens, a printer and
//! a one-pass normalizer.
//!
//! Every executable function carries a contract over the mathematical model
//! of its data ([`TermView`], [`TypeView`], [`TokenView`], sequences of
//! characters), proved with Verus.
//!
//! - [`term`]: terms, types and their models.
//! - [`lexer`]: text to tokens.
//! - [`grammar`]: the grammar of terms as specification functions, and what
//!   holds of it.
//! - [`parser`]: [`TermParser`], which computes the grammar.
//! - [`treeify`]: tokens to a term.
//! - [`printer`]: a term to text.
//! - [`normalize`]: substitution and normalization.
//! - [`roundtrip`]: the text of a term parses back to the term.
//! - [`agreement`]: on the text of a term without annotations, the tokens
//!   build the term that the parser reads.
//! - [`text`]: helpers on strings.

pub mod agreement;
pub mod grammar;
pub mod lexer;
pub mod normalize;
pub mod parser;
pub mod printer;
pub mod roundtrip;
pub mod term;
pub mod text;
pub mod treeify;

pub use crate::lexer::{lexer, Token, TokenView};
pub use crate::normalize::{
    apply_abstraction, get_variable_name, normalize, normalize_abstraction,
    normalize_application, substitute,
};
pub use crate::grammar::{Literal, ParseError, ParseErrorKind};
pub use crate::parser::TermParser;
pub use crate::term::{Term, TermView, Type, TypeView};
pub use crate::treeify::{treeify, TreeifyError};
