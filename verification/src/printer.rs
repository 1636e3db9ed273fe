//! The text of a term: names as they are, `name: type` for an annotated
//! variable, `(f a)` for an application, `λv.body` for an abstraction and
//! `(argument -> result)` for a function type.

use vstd::prelude::*;
use crate::term::{Term, TermView, Type, TypeView};
use crate::text::push_char;

verus! {

impl TypeView {
    /// The text of the type.
    pub open spec fn render(self) -> Seq<char>
        decreases self,
    {
        match self {
            TypeView::Function { argument, result } => seq!['('] + argument.render() + seq![
                ' ',
                '-',
                '>',
                ' ',
            ] + result.render() + seq![')'],
            TypeView::Variable { name } => name,
        }
    }
}

impl TermView {
    /// The text of the term.
    pub open spec fn render(self) -> Seq<char>
        decreases self,
    {
        match self {
            TermView::Variable { name, _type: None } => name,
            TermView::Variable { name, _type: Some(annotation) } => name + seq![':', ' ']
                + annotation.render(),
            TermView::Application { function, argument } => seq!['('] + function.render() + seq![
                ' ',
            ] + argument.render() + seq![')'],
            TermView::Abstraction { variable, body } => seq!['λ'] + variable.render() + seq!['.']
                + body.render(),
        }
    }
}

impl Type {
    /// Appends the text of the type to `out`.
    pub fn render_into(&self, out: &mut String)
        ensures
            final(out)@ == old(out)@ + self@.render(),
        decreases self,
    {
        match self {
            Type::Function { argument, result } => {
                let ghost start = out@;
                push_char(out, '(');
                argument.render_into(out);
                push_char(out, ' ');
                push_char(out, '-');
                push_char(out, '>');
                push_char(out, ' ');
                result.render_into(out);
                push_char(out, ')');
                assert(out@ =~= start + self@.render());
            },
            Type::Variable { name } => {
                out.append(name.as_str());
            },
        }
    }

    /// The text of the type.
    pub fn render(&self) -> (text: String)
        ensures
            text@ == self@.render(),
    {
        let mut text = String::new();
        self.render_into(&mut text);
        assert(text@ =~= self@.render());
        text
    }
}

impl Term {
    /// Appends the text of the term to `out`.
    pub fn render_into(&self, out: &mut String)
        ensures
            final(out)@ == old(out)@ + self@.render(),
        decreases self,
    {
        let ghost start = out@;
        match self {
            Term::Variable { name, _type } => {
                out.append(name.as_str());
                match _type {
                    Some(annotation) => {
                        push_char(out, ':');
                        push_char(out, ' ');
                        annotation.render_into(out);
                    },
                    None => {},
                }
            },
            Term::Application { function, argument } => {
                push_char(out, '(');
                function.render_into(out);
                push_char(out, ' ');
                argument.render_into(out);
                push_char(out, ')');
            },
            Term::Abstraction { variable, body } => {
                push_char(out, 'λ');
                variable.render_into(out);
                push_char(out, '.');
                body.render_into(out);
            },
        }
        assert(out@ =~= start + self@.render());
    }

    /// The text of the term.
    pub fn render(&self) -> (text: String)
        ensures
            text@ == self@.render(),
    {
        let mut text = String::new();
        self.render_into(&mut text);
        assert(text@ =~= self@.render());
        text
    }
}

} // verus!
