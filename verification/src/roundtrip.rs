//! Printing and parsing agree: the text of a term parses back to the term.

use vstd::prelude::*;
use crate::grammar::{
    consume_at, is_name, is_name_char, is_whitespace, name_end, parse_abstraction_at,
    parse_application_at, parse_function_result_at, parse_function_type_at, parse_name_at,
    parse_term_at, parse_type_at, parse_type_operand_at, parse_variable_at, skip_trivia,
    starts_type, trivia_end, Failure, Literal,
};
use crate::term::{TermView, TypeView};

verus! {

impl TypeView {
    /// Whether every name in the type is a name of the grammar.
    pub open spec fn printable(self) -> bool
        decreases self,
    {
        match self {
            TypeView::Function { argument, result } => argument.printable() && result.printable(),
            TypeView::Variable { name } => is_name(name),
        }
    }
}

impl TermView {
    /// Whether the text of the term is a text of the grammar: every binder
    /// is a variable, and every name is a name of the grammar.
    pub open spec fn printable(self) -> bool
        decreases self,
    {
        match self {
            TermView::Variable { name, _type } => is_name(name) && match _type {
                Some(annotation) => annotation.printable(),
                None => true,
            },
            TermView::Application { function, argument } => function.printable()
                && argument.printable(),
            TermView::Abstraction { variable, body } => *variable is Variable
                && variable.printable() && body.printable(),
        }
    }

    /// Whether the text of the term ends with the name of a variable that
    /// has no annotation. The parser reads on past the trivia that follows
    /// such a name, to look for `:`.
    pub open spec fn ends_with_name(self) -> bool
        decreases self,
    {
        match self {
            TermView::Variable { _type, .. } => _type is None,
            TermView::Application { .. } => false,
            TermView::Abstraction { body, .. } => body.ends_with_name(),
        }
    }
}

/// Whether `text` stands in `s` at `i`.
pub open spec fn text_at(s: Seq<char>, i: int, text: Seq<char>) -> bool {
    0 <= i && i + text.len() <= s.len() && s.subrange(i, i + text.len()) == text
}

/// Whether no name character stands in `s` at `i`.
pub open spec fn name_stops(s: Seq<char>, i: int) -> bool {
    !(0 <= i < s.len()) || !is_name_char(s[i])
}

/// Where a text made of two parts stands, both parts stand.
pub proof fn lemma_text_split(s: Seq<char>, i: int, a: Seq<char>, b: Seq<char>)
    requires
        text_at(s, i, a + b),
    ensures
        text_at(s, i, a),
        text_at(s, i + a.len(), b),
{
    let whole = s.subrange(i, i + (a + b).len());
    assert(s.subrange(i, i + a.len()) =~= a) by {
        assert forall|k: int| 0 <= k < a.len() implies s.subrange(i, i + a.len())[k] == a[k] by {
            assert(whole[k] == (a + b)[k]);
        }
    }
    assert(s.subrange(i + a.len(), i + a.len() + b.len()) =~= b) by {
        assert forall|k: int| 0 <= k < b.len() implies s.subrange(
            i + a.len(),
            i + a.len() + b.len(),
        )[k] == b[k] by {
            assert(whole[a.len() + k] == (a + b)[a.len() + k]);
        }
    }
}

/// The character at offset `k` of a text that stands at `i`.
pub proof fn lemma_text_char(s: Seq<char>, i: int, text: Seq<char>, k: int)
    requires
        text_at(s, i, text),
        0 <= k < text.len(),
    ensures
        s[i + k] == text[k],
{
    assert(s.subrange(i, i + text.len())[k] == text[k]);
}

/// Trivia does not start at a character that is neither whitespace nor `/`,
/// nor at the end of the text.
proof fn lemma_no_trivia(s: Seq<char>, i: int)
    requires
        !(0 <= i < s.len()) || (!is_whitespace(s[i]) && s[i] != '/'),
    ensures
        skip_trivia(s, i) == i,
{
}

/// One space before a character that starts no trivia is skipped, and
/// nothing more.
proof fn lemma_one_space(s: Seq<char>, i: int)
    requires
        0 <= i < s.len(),
        s[i] == ' ',
        !(i + 1 < s.len()) || (!is_whitespace(s[i + 1]) && s[i + 1] != '/'),
    ensures
        skip_trivia(s, i) == i + 1,
{
    lemma_no_trivia(s, i + 1);
    assert(trivia_end(s, i, false) == trivia_end(s, i + 1, false));
}

/// Skipping trivia twice is skipping it once.
proof fn lemma_trivia_end_idempotent(s: Seq<char>, i: int, in_comment: bool)
    ensures
        skip_trivia(s, trivia_end(s, i, in_comment)) == trivia_end(s, i, in_comment),
    decreases s.len() - i,
{
    if 0 <= i < s.len() {
        if in_comment {
            lemma_trivia_end_idempotent(s, i + 1, s[i] != '\n');
        } else if is_whitespace(s[i]) {
            lemma_trivia_end_idempotent(s, i + 1, false);
        } else if s[i] == '/' && i + 1 < s.len() && s[i + 1] == '/' {
            lemma_trivia_end_idempotent(s, i + 2, true);
        }
    }
}

/// A type, a term or a literal is read the same from a position and from
/// the end of the trivia that starts there.
pub proof fn lemma_parse_after_trivia(s: Seq<char>, i: int)
    ensures
        parse_term_at(s, skip_trivia(s, i)) == parse_term_at(s, i),
        parse_type_at(s, skip_trivia(s, i)) == parse_type_at(s, i),
        parse_type_operand_at(s, skip_trivia(s, i)) == parse_type_operand_at(s, i),
        forall|literal: Literal|
            consume_at(s, skip_trivia(s, i), literal) == #[trigger] consume_at(s, i, literal),
{
    lemma_trivia_end_idempotent(s, i, false);
}

/// A name that stands at `i` and is followed by no name character is the
/// run of name characters at `i`.
proof fn lemma_name_run(s: Seq<char>, i: int, name: Seq<char>, k: int)
    requires
        is_name(name),
        text_at(s, i, name),
        name_stops(s, i + name.len()),
        0 <= k <= name.len(),
    ensures
        name_end(s, i + k) == i + name.len(),
    decreases name.len() - k,
{
    if k < name.len() {
        lemma_text_char(s, i, name, k);
        lemma_name_run(s, i, name, k + 1);
    }
}

/// A name that stands at `i` and is followed by no name character is
/// parsed as it is.
proof fn lemma_parse_rendered_name(s: Seq<char>, i: int, name: Seq<char>)
    requires
        is_name(name),
        text_at(s, i, name),
        name_stops(s, i + name.len()),
    ensures
        parse_name_at(s, i) == Ok::<(Seq<char>, int), Failure>((name, i + name.len())),
        skip_trivia(s, i) == i,
        !Literal::LeftParen.stands_at(s, i),
        !Literal::Lambda.stands_at(s, i),
        starts_type(s, i),
{
    lemma_name_run(s, i, name, 0);
    lemma_text_char(s, i, name, 0);
    assert(is_name_char(name[0]));
}

/// The text of a printable type is not empty and starts with `(` or with a
/// name character.
proof fn lemma_type_text_starts(ty: TypeView)
    requires
        ty.printable(),
    ensures
        ty.render().len() > 0,
        ty.render()[0] == '(' || is_name_char(ty.render()[0]),
{
    match ty {
        TypeView::Function { argument, result } => {
            assert(ty.render()[0] == '(');
        },
        TypeView::Variable { name } => {
            assert(is_name_char(name[0]));
        },
    }
}

/// The text of a printable term is not empty and starts with `(`, with `λ`
/// or with a name character.
proof fn lemma_term_text_starts(term: TermView)
    requires
        term.printable(),
    ensures
        term.render().len() > 0,
        term.render()[0] == '(' || term.render()[0] == 'λ' || is_name_char(term.render()[0]),
{
    match term {
        TermView::Variable { name, _type } => {
            assert(is_name_char(name[0]));
            assert(term.render()[0] == name[0]);
        },
        TermView::Application { .. } => {
            assert(term.render()[0] == '(');
        },
        TermView::Abstraction { .. } => {
            assert(term.render()[0] == 'λ');
        },
    }
}

/// The text of a printable type, followed by no name character, parses to
/// the type and is consumed whole.
#[verifier::spinoff_prover]
#[verifier::rlimit(40)]
pub proof fn lemma_parse_rendered_type_at(s: Seq<char>, i: int, ty: TypeView)
    requires
        ty.printable(),
        text_at(s, i, ty.render()),
        name_stops(s, i + ty.render().len()),
    ensures
        parse_type_at(s, i) == Ok::<(TypeView, int), Failure>((ty, i + ty.render().len())),
        skip_trivia(s, i) == i,
        starts_type(s, i),
    decreases ty,
{
    let text = ty.render();
    let end = i + text.len();
    lemma_type_text_starts(ty);
    lemma_text_char(s, i, text, 0);
    lemma_no_trivia(s, i);
    match ty {
        TypeView::Variable { name } => {
            lemma_parse_rendered_name(s, i, name);
        },
        TypeView::Function { argument, result } => {
            let a = argument.render();
            let r = result.render();
            let open = seq!['('];
            let arrow = seq![' ', '-', '>', ' '];
            let close = seq![')'];
            assert(text == open + a + arrow + r + close);
            // the five parts, each in its place
            lemma_text_split(s, i, open + a + arrow + r, close);
            lemma_text_split(s, i, open + a + arrow, r);
            lemma_text_split(s, i, open + a, arrow);
            lemma_text_split(s, i, open, a);
            let at_a = i + 1;
            let at_arrow = at_a + a.len();
            let at_r = at_arrow + 4;
            let at_close = at_r + r.len();
            assert(end == at_close + 1);
            lemma_text_char(s, i, open, 0);
            lemma_text_char(s, at_arrow, arrow, 0);
            lemma_text_char(s, at_arrow, arrow, 1);
            lemma_text_char(s, at_arrow, arrow, 2);
            lemma_text_char(s, at_arrow, arrow, 3);
            lemma_text_char(s, at_close, close, 0);
            // "(" and the argument
            assert(Literal::LeftParen.stands_at(s, i));
            assert(consume_at(s, i, Literal::LeftParen) == Ok::<int, Failure>(at_a));
            lemma_parse_rendered_type_at(s, at_a, *argument);
            assert(parse_type_operand_at(s, at_a) == Ok::<(TypeView, int), Failure>(
                (*argument, at_arrow),
            ));
            // " -> "
            lemma_one_space(s, at_arrow);
            assert(Literal::Arrow.stands_at(s, at_arrow + 1));
            assert(consume_at(s, at_arrow, Literal::Arrow) == Ok::<int, Failure>(at_arrow + 3));
            // the result and ")"
            lemma_parse_rendered_type_at(s, at_r, *result);
            lemma_one_space(s, at_arrow + 3);
            assert(parse_type_operand_at(s, at_arrow + 3) == Ok::<(TypeView, int), Failure>(
                (*result, at_close),
            ));
            lemma_no_trivia(s, at_close);
            assert(parse_function_result_at(s, at_arrow + 3) == Ok::<(TypeView, int), Failure>(
                (*result, at_close),
            ));
            assert(Literal::RightParen.stands_at(s, at_close));
            assert(consume_at(s, at_close, Literal::RightParen) == Ok::<int, Failure>(end));
            assert(parse_function_type_at(s, i) == Ok::<(TypeView, int), Failure>((ty, end)));
        },
    }
}

/// Whether the parser finds no `:` after the trivia that starts at `i`.
pub open spec fn no_annotation_follows(s: Seq<char>, i: int) -> bool {
    !Literal::Colon.stands_at(s, skip_trivia(s, i))
}

/// The text of a printable variable, followed by no name character and, if
/// it has no annotation, by no `:` after trivia, parses to the variable.
/// The parser stops after the annotation, or after the trivia that follows
/// the bare name.
#[verifier::spinoff_prover]
#[verifier::rlimit(40)]
proof fn lemma_parse_rendered_variable_at(s: Seq<char>, i: int, variable: TermView)
    requires
        variable is Variable,
        variable.printable(),
        text_at(s, i, variable.render()),
        name_stops(s, i + variable.render().len()),
        variable.ends_with_name() ==> no_annotation_follows(s, i + variable.render().len()),
    ensures
        parse_variable_at(s, i) == Ok::<(TermView, int), Failure>(
            (variable, end_of(s, i + variable.render().len(), variable)),
        ),
        skip_trivia(s, i) == i,
        !Literal::LeftParen.stands_at(s, i),
        !Literal::Lambda.stands_at(s, i),
{
    let text = variable.render();
    let end = i + text.len();
    match variable {
        TermView::Variable { name, _type: None } => {
            lemma_parse_rendered_name(s, i, name);
        },
        TermView::Variable { name, _type: Some(annotation) } => {
            let colon = seq![':', ' '];
            let t = annotation.render();
            assert(text == name + colon + t);
            lemma_text_split(s, i, name + colon, t);
            lemma_text_split(s, i, name, colon);
            let at_colon = i + name.len();
            let at_type = at_colon + 2;
            lemma_text_char(s, at_colon, colon, 0);
            lemma_text_char(s, at_colon, colon, 1);
            lemma_parse_rendered_name(s, i, name);
            lemma_no_trivia(s, at_colon);
            assert(Literal::Colon.stands_at(s, at_colon));
            lemma_parse_rendered_type_at(s, at_type, annotation);
            lemma_one_space(s, at_colon + 1);
            lemma_parse_after_trivia(s, at_colon + 1);
            assert(parse_type_at(s, at_colon + 1) == Ok::<(TypeView, int), Failure>(
                (annotation, end),
            ));
        },
        _ => {},
    }
}

/// Where the parser stops when it has read the text of `term` that ends at
/// `end`: at `end`, or after the trivia that starts there if the text ends
/// with a bare name.
pub open spec fn end_of(s: Seq<char>, end: int, term: TermView) -> int {
    if term.ends_with_name() {
        skip_trivia(s, end)
    } else {
        end
    }
}

/// The step of [`lemma_parse_rendered_at`] for an application whose parts
/// parse to themselves.
#[verifier::spinoff_prover]
#[verifier::rlimit(40)]
proof fn lemma_parse_rendered_application(
    s: Seq<char>,
    i: int,
    function: TermView,
    argument: TermView,
)
    requires
        function.printable(),
        argument.printable(),
        text_at(s, i, seq!['('] + function.render() + seq![' '] + argument.render() + seq![')']),
        forall|at: int|
            text_at(s, at, function.render()) && name_stops(s, at + function.render().len()) && (
            function.ends_with_name() ==> no_annotation_follows(s, at + function.render().len()))
                ==> #[trigger] parse_term_at(s, at) == Ok::<(TermView, int), Failure>(
                (function, end_of(s, at + function.render().len(), function)),
            ),
        forall|at: int|
            text_at(s, at, argument.render()) && name_stops(s, at + argument.render().len()) && (
            argument.ends_with_name() ==> no_annotation_follows(s, at + argument.render().len()))
                ==> #[trigger] parse_term_at(s, at) == Ok::<(TermView, int), Failure>(
                (argument, end_of(s, at + argument.render().len(), argument)),
            ),
    ensures
        parse_application_at(s, i) == Ok::<(TermView, int), Failure>(
            (
                TermView::Application {
                    function: Box::new(function),
                    argument: Box::new(argument),
                },
                i + function.render().len() + argument.render().len() + 3,
            ),
        ),
{
    let f = function.render();
    let a = argument.render();
    let open = seq!['('];
    let space = seq![' '];
    let close = seq![')'];
    lemma_text_split(s, i, open + f + space + a, close);
    lemma_text_split(s, i, open + f + space, a);
    lemma_text_split(s, i, open + f, space);
    lemma_text_split(s, i, open, f);
    let at_f = i + 1;
    let at_space = at_f + f.len();
    let at_a = at_space + 1;
    let at_close = at_a + a.len();
    lemma_text_char(s, i, open, 0);
    lemma_text_char(s, at_space, space, 0);
    lemma_text_char(s, at_close, close, 0);
    lemma_term_text_starts(argument);
    lemma_text_char(s, at_a, a, 0);
    // "(" and the function
    lemma_no_trivia(s, i);
    assert(Literal::LeftParen.stands_at(s, i));
    assert(consume_at(s, i, Literal::LeftParen) == Ok::<int, Failure>(at_f));
    lemma_one_space(s, at_space);
    let after_f = end_of(s, at_space, function);
    assert(parse_term_at(s, at_f) == Ok::<(TermView, int), Failure>((function, after_f)));
    assert(after_f == at_space || after_f == at_a);
    // the argument, read from the space or from its first character
    lemma_no_trivia(s, at_close);
    assert(parse_term_at(s, at_a) == Ok::<(TermView, int), Failure>((argument, at_close)));
    lemma_parse_after_trivia(s, at_space);
    assert(parse_term_at(s, after_f) == Ok::<(TermView, int), Failure>((argument, at_close)));
    // ")"
    assert(Literal::RightParen.stands_at(s, at_close));
    assert(consume_at(s, at_close, Literal::RightParen) == Ok::<int, Failure>(at_close + 1));
}

/// The step of [`lemma_parse_rendered_at`] for an abstraction whose body
/// parses to itself.
#[verifier::spinoff_prover]
#[verifier::rlimit(40)]
proof fn lemma_parse_rendered_abstraction(
    s: Seq<char>,
    i: int,
    variable: TermView,
    body: TermView,
    end: int,
)
    requires
        variable is Variable,
        variable.printable(),
        body.printable(),
        text_at(s, i, seq!['λ'] + variable.render() + seq!['.'] + body.render()),
        parse_term_at(s, i + variable.render().len() + 2) == Ok::<(TermView, int), Failure>(
            (body, end),
        ),
    ensures
        parse_abstraction_at(s, i) == Ok::<(TermView, int), Failure>(
            (TermView::Abstraction { variable: Box::new(variable), body: Box::new(body) }, end),
        ),
{
    let v = variable.render();
    let b = body.render();
    let lambda = seq!['λ'];
    let dot = seq!['.'];
    lemma_text_split(s, i, lambda + v + dot, b);
    lemma_text_split(s, i, lambda + v, dot);
    lemma_text_split(s, i, lambda, v);
    let at_v = i + 1;
    let at_dot = at_v + v.len();
    let at_b = at_dot + 1;
    lemma_text_char(s, i, lambda, 0);
    lemma_text_char(s, at_dot, dot, 0);
    // "λ" and the variable
    lemma_no_trivia(s, i);
    assert(Literal::Lambda.stands_at(s, i));
    assert(consume_at(s, i, Literal::Lambda) == Ok::<int, Failure>(at_v));
    lemma_no_trivia(s, at_dot);
    lemma_parse_rendered_variable_at(s, at_v, variable);
    assert(end_of(s, at_dot, variable) == at_dot);
    // "." and the body
    assert(Literal::Dot.stands_at(s, at_dot));
    assert(consume_at(s, at_dot, Literal::Dot) == Ok::<int, Failure>(at_b));
}

/// The text of a printable term parses to the term, wherever it stands in a
/// text, provided that no name character follows it and that, if it ends
/// with a bare name, no `:` follows after trivia.
#[verifier::spinoff_prover]
#[verifier::rlimit(40)]
pub proof fn lemma_parse_rendered_at(s: Seq<char>, i: int, term: TermView)
    requires
        term.printable(),
        text_at(s, i, term.render()),
        name_stops(s, i + term.render().len()),
        term.ends_with_name() ==> no_annotation_follows(s, i + term.render().len()),
    ensures
        parse_term_at(s, i) == Ok::<(TermView, int), Failure>(
            (term, end_of(s, i + term.render().len(), term)),
        ),
        skip_trivia(s, i) == i,
    decreases term,
{
    let text = term.render();
    let end = i + text.len();
    lemma_term_text_starts(term);
    lemma_text_char(s, i, text, 0);
    lemma_no_trivia(s, i);
    match term {
        TermView::Variable { .. } => {
            lemma_parse_rendered_variable_at(s, i, term);
        },
        TermView::Application { function, argument } => {
            assert forall|at: int|
                text_at(s, at, function.render()) && name_stops(s, at + function.render().len())
                    && (function.ends_with_name() ==> no_annotation_follows(
                    s,
                    at + function.render().len(),
                )) implies #[trigger] parse_term_at(s, at) == Ok::<(TermView, int), Failure>(
                (*function, end_of(s, at + function.render().len(), *function)),
            ) by {
                lemma_parse_rendered_at(s, at, *function);
            }
            assert forall|at: int|
                text_at(s, at, argument.render()) && name_stops(s, at + argument.render().len())
                    && (argument.ends_with_name() ==> no_annotation_follows(
                    s,
                    at + argument.render().len(),
                )) implies #[trigger] parse_term_at(s, at) == Ok::<(TermView, int), Failure>(
                (*argument, end_of(s, at + argument.render().len(), *argument)),
            ) by {
                lemma_parse_rendered_at(s, at, *argument);
            }
            assert(text == seq!['('] + function.render() + seq![' '] + argument.render() + seq![
                ')',
            ]);
            lemma_parse_rendered_application(s, i, *function, *argument);
            assert(Literal::LeftParen.stands_at(s, i));
        },
        TermView::Abstraction { variable, body } => {
            assert(text == seq!['λ'] + variable.render() + seq!['.'] + body.render());
            lemma_text_split(s, i, seq!['λ'] + variable.render() + seq!['.'], body.render());
            lemma_parse_rendered_at(s, i + variable.render().len() + 2, *body);
            lemma_parse_rendered_abstraction(s, i, *variable, *body, end_of(s, end, *body));
            assert(Literal::Lambda.stands_at(s, i));
            assert(!Literal::LeftParen.stands_at(s, i));
        },
    }
}

/// Printing, then parsing, gives the term back: the text of a printable
/// term parses to that term, and the parser consumes the whole text.
pub proof fn lemma_parse_render(term: TermView)
    requires
        term.printable(),
    ensures
        parse_term_at(term.render(), 0) == Ok::<(TermView, int), Failure>(
            (term, term.render().len() as int),
        ),
{
    let text = term.render();
    assert(text.subrange(0, text.len() as int) =~= text);
    lemma_no_trivia(text, text.len() as int);
    lemma_parse_rendered_at(text, 0, term);
}

} // verus!
