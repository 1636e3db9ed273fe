//! One-pass normalization by substitution.
//!
//! [`normalize`] walks a term once, from the leaves up. At an application
//! whose normalized function is an abstraction it substitutes the normalized
//! argument for the bound variable and returns the outcome as it is: the
//! outcome is not normalized again, so the function always terminates, and
//! the outcome is a normal form only where the substitution creates no new
//! redex (see [`lemma_normalize_idempotent`]).
//!
//! Substitution renames nothing: a free variable of the replacement that
//! meets a binder of the same name in the target is captured.

use vstd::prelude::*;
use crate::term::{Term, TermView};
use crate::text::same_text;

verus! {

impl TermView {
    /// The name of a variable; the empty name for any other term.
    pub open spec fn variable_name(self) -> Seq<char> {
        match self {
            TermView::Variable { name, .. } => name,
            _ => Seq::empty(),
        }
    }

    /// `self` with `replacement` in place of each variable that bears the
    /// name of `variable`, down to, and not below, the abstractions that bind
    /// that name again.
    pub open spec fn substitute(self, variable: TermView, replacement: TermView) -> TermView
        decreases self,
    {
        match self {
            TermView::Variable { name, .. } => if name == variable.variable_name() {
                replacement
            } else {
                self
            },
            TermView::Application { function, argument } => TermView::Application {
                function: Box::new(function.substitute(variable, replacement)),
                argument: Box::new(argument.substitute(variable, replacement)),
            },
            TermView::Abstraction { variable: binder, body } => if binder.variable_name()
                == variable.variable_name() {
                self
            } else {
                TermView::Abstraction {
                    variable: binder,
                    body: Box::new(body.substitute(variable, replacement)),
                }
            },
        }
    }

    /// One beta step at the root: the body of the abstraction `self` with
    /// `argument` for its bound variable. A term that is no abstraction is
    /// left as it is.
    pub open spec fn apply(self, argument: TermView) -> TermView {
        match self {
            TermView::Abstraction { variable, body } => body.substitute(*variable, argument),
            _ => self,
        }
    }

    /// The outcome of one normalization pass.
    pub open spec fn normalize(self) -> TermView
        decreases self,
    {
        match self {
            TermView::Variable { .. } => self,
            TermView::Application { function, argument } => {
                let f = function.normalize();
                let a = argument.normalize();
                if f is Abstraction {
                    f.apply(a)
                } else {
                    TermView::Application { function: Box::new(f), argument: Box::new(a) }
                }
            },
            TermView::Abstraction { variable, body } => TermView::Abstraction {
                variable,
                body: Box::new(body.normalize()),
            },
        }
    }

    /// Beta-normal form: no application in the tree has an abstraction as
    /// its function.
    pub open spec fn is_normal(self) -> bool
        decreases self,
    {
        match self {
            TermView::Variable { .. } => true,
            TermView::Application { function, argument } => !(*function is Abstraction)
                && function.is_normal() && argument.is_normal(),
            TermView::Abstraction { body, .. } => body.is_normal(),
        }
    }
}

/// The name of a variable; the empty string for any other term.
pub fn get_variable_name<'a>(term: &'a Term) -> (name: &'a str)
    ensures
        name@ == term@.variable_name(),
{
    match term {
        Term::Variable { name, _type: _ } => name.as_str(),
        _ => {
            proof {
                reveal_strlit("");
            }
            assert(""@ =~= Seq::<char>::empty());
            ""
        },
    }
}

/// Builds `term` with `replacement` in place of the variables named like
/// `variable`, stopping at abstractions that bind the same name.
pub fn substitute(term: &Term, variable: &Term, replacement: &Term) -> (result: Term)
    ensures
        result@ == term@.substitute(variable@, replacement@),
        term@.well_formed() && replacement@.well_formed() ==> result@.well_formed(),
    decreases term,
{
    proof {
        if term@.well_formed() && replacement@.well_formed() {
            lemma_substitute_well_formed(term@, variable@, replacement@);
        }
    }
    match term {
        Term::Variable { name, _type } => {
            if same_text(name.as_str(), get_variable_name(variable)) {
                replacement.clone()
            } else {
                term.clone()
            }
        },
        Term::Application { function, argument } => {
            let new_function = substitute(&**function, variable, replacement);
            let new_argument = substitute(&**argument, variable, replacement);
            Term::Application {
                function: Box::new(new_function),
                argument: Box::new(new_argument),
            }
        },
        Term::Abstraction { variable: abs_variable, body } => {
            if same_text(get_variable_name(&**abs_variable), get_variable_name(variable)) {
                term.clone()
            } else {
                let new_body = substitute(&**body, variable, replacement);
                Term::Abstraction {
                    variable: Box::new((&**abs_variable).clone()),
                    body: Box::new(new_body),
                }
            }
        },
    }
}

/// Applies the abstraction `abs` to `arg` by substitution; a term that is no
/// abstraction is copied.
pub fn apply_abstraction(abs: &Term, arg: &Term) -> (result: Term)
    ensures
        result@ == abs@.apply(arg@),
{
    match abs {
        Term::Abstraction { variable, body } => substitute(&**body, &**variable, arg),
        _ => abs.clone(),
    }
}

/// Normalizes the body of an abstraction; any other term is returned as it
/// is.
pub fn normalize_abstraction(abs: Term) -> (result: Term)
    ensures
        abs@ is Abstraction ==> result@ == abs@.normalize(),
        !(abs@ is Abstraction) ==> result@ == abs@,
    decreases abs, 0nat,
{
    match abs {
        Term::Abstraction { variable, body } => {
            let new_body = normalize(*body);
            Term::Abstraction { variable, body: Box::new(new_body) }
        },
        _ => abs,
    }
}

/// Normalizes both sides of an application and takes one beta step at its
/// root where the function has become an abstraction; any other term is
/// returned as it is.
pub fn normalize_application(app: Term) -> (result: Term)
    ensures
        app@ is Application ==> result@ == app@.normalize(),
        !(app@ is Application) ==> result@ == app@,
    decreases app, 0nat,
{
    match app {
        Term::Application { function, argument } => {
            let new_function = normalize(*function);
            let new_argument = normalize(*argument);
            match new_function {
                Term::Abstraction { .. } => apply_abstraction(&new_function, &new_argument),
                _ => Term::Application {
                    function: Box::new(new_function),
                    argument: Box::new(new_argument),
                },
            }
        },
        _ => app,
    }
}

/// One normalization pass over `term`.
pub fn normalize(term: Term) -> (result: Term)
    ensures
        result@ == term@.normalize(),
        term@.well_formed() ==> result@.well_formed(),
    decreases term, 1nat,
{
    proof {
        if term@.well_formed() {
            lemma_normalize_well_formed(term@);
        }
    }
    match term {
        Term::Variable { name, _type } => Term::Variable { name, _type },
        Term::Application { function, argument } => normalize_application(
            Term::Application { function, argument },
        ),
        Term::Abstraction { variable, body } => normalize_abstraction(
            Term::Abstraction { variable, body },
        ),
    }
}

/// Substitution keeps every binder a variable: if the target and the
/// replacement are well formed, so is the outcome.
pub proof fn lemma_substitute_well_formed(
    term: TermView,
    variable: TermView,
    replacement: TermView,
)
    requires
        term.well_formed(),
        replacement.well_formed(),
    ensures
        term.substitute(variable, replacement).well_formed(),
    decreases term,
{
    match term {
        TermView::Variable { .. } => {},
        TermView::Application { function, argument } => {
            lemma_substitute_well_formed(*function, variable, replacement);
            lemma_substitute_well_formed(*argument, variable, replacement);
        },
        TermView::Abstraction { variable: binder, body } => {
            lemma_substitute_well_formed(*body, variable, replacement);
        },
    }
}

/// Normalization keeps every binder a variable.
pub proof fn lemma_normalize_well_formed(term: TermView)
    requires
        term.well_formed(),
    ensures
        term.normalize().well_formed(),
    decreases term,
{
    match term {
        TermView::Variable { .. } => {},
        TermView::Application { function, argument } => {
            lemma_normalize_well_formed(*function);
            lemma_normalize_well_formed(*argument);
            let f = function.normalize();
            let a = argument.normalize();
            match f {
                TermView::Abstraction { variable, body } => {
                    lemma_substitute_well_formed(*body, *variable, a);
                },
                _ => {},
            }
        },
        TermView::Abstraction { variable, body } => {
            lemma_normalize_well_formed(*body);
        },
    }
}

/// A term in normal form is a fixed point of normalization.
pub proof fn lemma_normalize_normal_form(term: TermView)
    requires
        term.is_normal(),
    ensures
        term.normalize() == term,
    decreases term,
{
    match term {
        TermView::Variable { .. } => {},
        TermView::Application { function, argument } => {
            lemma_normalize_normal_form(*function);
            lemma_normalize_normal_form(*argument);
        },
        TermView::Abstraction { variable, body } => {
            lemma_normalize_normal_form(*body);
        },
    }
}

/// Normalization is idempotent on the terms that one pass brings to normal
/// form: normalizing the outcome again changes nothing.
pub proof fn lemma_normalize_idempotent(term: TermView)
    requires
        term.normalize().is_normal(),
    ensures
        term.normalize().normalize() == term.normalize(),
{
    lemma_normalize_normal_form(term.normalize());
}

} // verus!
