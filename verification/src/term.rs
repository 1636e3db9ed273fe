//! The abstract syntax tree: terms, their optional type annotations, and the
//! mathematical model that contracts speak of.

use vstd::prelude::*;

verus! {

/// A simple type: a named base type, or a function between two types.
#[derive(Debug, PartialEq, Eq)]
pub enum Type {
    Function { argument: Box<Type>, result: Box<Type> },
    Variable { name: String },
}

/// A lambda term.
///
/// The `variable` of an `Abstraction` is meant to be a `Variable`; see
/// [`TermView::well_formed`].
#[derive(Debug, PartialEq, Eq)]
pub enum Term {
    Variable { name: String, _type: Option<Type> },
    Application { function: Box<Term>, argument: Box<Term> },
    Abstraction { variable: Box<Term>, body: Box<Term> },
}

/// The model of a [`Type`]: the same tree with names as character sequences.
pub ghost enum TypeView {
    Function { argument: Box<TypeView>, result: Box<TypeView> },
    Variable { name: Seq<char> },
}

/// The model of a [`Term`]: the same tree with names as character sequences.
pub ghost enum TermView {
    Variable { name: Seq<char>, _type: Option<TypeView> },
    Application { function: Box<TermView>, argument: Box<TermView> },
    Abstraction { variable: Box<TermView>, body: Box<TermView> },
}

impl Type {
    /// The model of this type, computed by structural recursion.
    pub open spec fn model(self) -> TypeView
        decreases self,
    {
        match self {
            Type::Function { argument, result } => TypeView::Function {
                argument: Box::new(argument.model()),
                result: Box::new(result.model()),
            },
            Type::Variable { name } => TypeView::Variable { name: name@ },
        }
    }
}

impl View for Type {
    type V = TypeView;

    open spec fn view(&self) -> TypeView {
        self.model()
    }
}

/// The model of an optional annotation.
pub open spec fn annotation_view(annotation: Option<Type>) -> Option<TypeView> {
    match annotation {
        Some(t) => Some(t.model()),
        None => None,
    }
}

impl Term {
    /// The model of this term, computed by structural recursion.
    pub open spec fn model(self) -> TermView
        decreases self,
    {
        match self {
            Term::Variable { name, _type } => TermView::Variable {
                name: name@,
                _type: annotation_view(_type),
            },
            Term::Application { function, argument } => TermView::Application {
                function: Box::new(function.model()),
                argument: Box::new(argument.model()),
            },
            Term::Abstraction { variable, body } => TermView::Abstraction {
                variable: Box::new(variable.model()),
                body: Box::new(body.model()),
            },
        }
    }
}

impl View for Term {
    type V = TermView;

    open spec fn view(&self) -> TermView {
        self.model()
    }
}

impl TermView {
    /// Every binder is a variable: the `variable` of each `Abstraction` in
    /// the tree is a `Variable`.
    pub open spec fn well_formed(self) -> bool
        decreases self,
    {
        match self {
            TermView::Variable { .. } => true,
            TermView::Application { function, argument } => function.well_formed()
                && argument.well_formed(),
            TermView::Abstraction { variable, body } => *variable is Variable
                && body.well_formed(),
        }
    }
}

impl Clone for Type {
    fn clone(&self) -> (copy: Self)
        ensures
            copy == *self,
        decreases self,
    {
        match self {
            Type::Function { argument, result } => Type::Function {
                argument: Box::new((&**argument).clone()),
                result: Box::new((&**result).clone()),
            },
            Type::Variable { name } => Type::Variable { name: name.clone() },
        }
    }
}

impl Clone for Term {
    fn clone(&self) -> (copy: Self)
        ensures
            copy == *self,
        decreases self,
    {
        match self {
            Term::Variable { name, _type } => {
                let annotation = match _type {
                    Some(t) => Some(t.clone()),
                    None => None,
                };
                Term::Variable { name: name.clone(), _type: annotation }
            },
            Term::Application { function, argument } => Term::Application {
                function: Box::new((&**function).clone()),
                argument: Box::new((&**argument).clone()),
            },
            Term::Abstraction { variable, body } => Term::Abstraction {
                variable: Box::new((&**variable).clone()),
                body: Box::new((&**body).clone()),
            },
        }
    }
}

} // verus!
