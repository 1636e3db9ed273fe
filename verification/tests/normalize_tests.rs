use lambda_calculus::{
    apply_abstraction, get_variable_name, normalize, normalize_abstraction,
    normalize_application, substitute, Term, TermParser, Type,
};

fn var(name: &str) -> Term {
    Term::Variable { name: name.to_string(), _type: None }
}

fn app(function: Term, argument: Term) -> Term {
    Term::Application { function: Box::new(function), argument: Box::new(argument) }
}

fn lam(name: &str, body: Term) -> Term {
    Term::Abstraction { variable: Box::new(var(name)), body: Box::new(body) }
}

fn parse(text: &str) -> Term {
    TermParser::new(text).parse().unwrap()
}

#[test]
fn variables_are_normal() {
    assert_eq!(normalize(var("x")), var("x"));
    let annotated = Term::Variable {
        name: "x".to_string(),
        _type: Some(Type::Variable { name: "int".to_string() }),
    };
    assert_eq!(normalize(annotated.clone()), annotated);
}

#[test]
fn identity_is_a_fixed_point() {
    let identity = parse("λx. x");
    assert_eq!(identity, lam("x", var("x")));
    assert_eq!(normalize(identity.clone()), identity);
}

#[test]
fn identity_applied_to_a_variable() {
    assert_eq!(normalize(parse("(λx. x y)")), var("y"));
}

#[test]
fn normalization_goes_under_binders() {
    assert_eq!(normalize(parse("λz. (λx. x y)")), lam("z", var("y")));
}

#[test]
fn an_application_of_a_variable_stays() {
    assert_eq!(normalize(parse("(f (λx. x y))")), app(var("f"), var("y")));
}

#[test]
fn both_sides_are_normalized_before_the_step() {
    // ((λx. x λa. a) (λy. y z))  ->  (λa. a) applied to z  ->  z
    assert_eq!(normalize(parse("((λx. x λa. a) (λy. y z))")), var("z"));
}

#[test]
fn the_outcome_of_a_step_is_not_normalized_again() {
    let term = parse("(λx. (x x) λy. y)");
    let once = normalize(term);
    assert_eq!(once, app(lam("y", var("y")), lam("y", var("y"))));
    let twice = normalize(once.clone());
    assert_eq!(twice, lam("y", var("y")));
    assert_eq!(normalize(twice.clone()), twice);
}

#[test]
fn self_application_is_returned_unchanged() {
    let omega = parse("(λx. (x x) λx. (x x))");
    assert_eq!(normalize(omega.clone()), omega);
}

#[test]
fn normalizing_twice_changes_nothing_once_normal() {
    for text in [
        "x",
        "λx. x",
        "(λx. x y)",
        "(f a)",
        "λz. (λx. x y)",
        "(λf. λx. (f x) g)",
        "((λx. λy. x a) b)",
        "(λx. (x y) z)",
    ] {
        let once = normalize(parse(text));
        assert_eq!(normalize(once.clone()), once, "{}", text);
    }
}

#[test]
fn church_two_applied_to_church_two() {
    let outcome = normalize(parse("(λf. λx. (f (f x)) λg. λy. (g (g y)))"));
    let two = lam("g", lam("y", app(var("g"), app(var("g"), var("y")))));
    assert_eq!(outcome, lam("x", app(two.clone(), app(two, var("x")))));
}

#[test]
fn substitution_replaces_the_named_variable() {
    let target = app(var("x"), app(var("y"), var("x")));
    assert_eq!(
        substitute(&target, &var("x"), &var("z")),
        app(var("z"), app(var("y"), var("z")))
    );
    assert_eq!(substitute(&var("y"), &var("x"), &var("z")), var("y"));
    assert_eq!(substitute(&var("x"), &var("x"), &lam("a", var("a"))), lam("a", var("a")));
}

#[test]
fn substitution_compares_with_the_bound_variable() {
    // the name of the replacement plays no part
    assert_eq!(substitute(&var("y"), &var("x"), &var("y")), var("y"));
    assert_eq!(substitute(&var("x"), &var("x"), &var("y")), var("y"));
}

#[test]
fn substitution_stops_at_a_shadowing_binder() {
    let target = app(var("x"), lam("x", var("x")));
    assert_eq!(
        substitute(&target, &var("x"), &var("z")),
        app(var("z"), lam("x", var("x")))
    );
    let other = lam("y", app(var("x"), var("y")));
    assert_eq!(
        substitute(&other, &var("x"), &var("z")),
        lam("y", app(var("z"), var("y")))
    );
}

#[test]
fn substitution_can_capture() {
    // y is free in the replacement and bound in the outcome
    assert_eq!(
        substitute(&lam("y", var("x")), &var("x"), &var("y")),
        lam("y", var("y"))
    );
    assert_eq!(normalize(parse("(λx. λy. x y)")), lam("y", var("y")));
}

#[test]
fn substitution_drops_the_annotation_of_a_replaced_variable() {
    let annotated = Term::Variable {
        name: "x".to_string(),
        _type: Some(Type::Variable { name: "int".to_string() }),
    };
    assert_eq!(substitute(&annotated, &var("x"), &var("z")), var("z"));
    assert_eq!(substitute(&annotated, &var("q"), &var("z")), annotated);
}

#[test]
fn a_binder_that_is_no_variable_has_the_empty_name() {
    assert_eq!(get_variable_name(&var("abc")), "abc");
    assert_eq!(get_variable_name(&app(var("a"), var("b"))), "");
    assert_eq!(get_variable_name(&lam("a", var("a"))), "");
    let odd = Term::Abstraction {
        variable: Box::new(app(var("a"), var("b"))),
        body: Box::new(var("x")),
    };
    // the binder has the empty name, which is not the name x
    assert_eq!(apply_abstraction(&odd, &var("z")), var("x"));
}

#[test]
fn applying_an_abstraction() {
    assert_eq!(apply_abstraction(&lam("x", app(var("x"), var("x"))), &var("a")), app(var("a"), var("a")));
    assert_eq!(apply_abstraction(&var("f"), &var("a")), var("f"));
    assert_eq!(apply_abstraction(&app(var("f"), var("g")), &var("a")), app(var("f"), var("g")));
}

#[test]
fn the_two_halves_of_normalize() {
    let redex = app(lam("x", var("x")), var("y"));
    assert_eq!(normalize_application(redex.clone()), var("y"));
    assert_eq!(normalize_abstraction(redex.clone()), redex);
    let nested = lam("z", redex);
    assert_eq!(normalize_abstraction(nested.clone()), lam("z", var("y")));
    assert_eq!(normalize_application(nested.clone()), nested);
    assert_eq!(normalize_application(var("v")), var("v"));
    assert_eq!(normalize_abstraction(var("v")), var("v"));
}

#[test]
fn clones_are_equal() {
    let term = parse("(λf: (a -> b). λx: a. (f x) g)");
    assert_eq!(term.clone(), term);
}
