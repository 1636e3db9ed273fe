use lambda_calculus::{lexer, treeify, Term, TermParser, Token, TreeifyError};

fn var(name: &str) -> Term {
    Term::Variable { name: name.to_string(), _type: None }
}

fn app(function: Term, argument: Term) -> Term {
    Term::Application { function: Box::new(function), argument: Box::new(argument) }
}

fn lam(name: &str, body: Term) -> Term {
    Term::Abstraction { variable: Box::new(var(name)), body: Box::new(body) }
}

fn tree(text: &str) -> Result<Term, TreeifyError> {
    treeify(&lexer(text))
}

#[test]
fn no_tokens() {
    assert_eq!(treeify(&[]), Err(TreeifyError::EmptyExprList));
    assert_eq!(tree(""), Err(TreeifyError::EmptyExprList));
    assert_eq!(tree("   "), Err(TreeifyError::EmptyExprList));
    // the identifier is lost at the end of the input
    assert_eq!(tree("x"), Err(TreeifyError::EmptyExprList));
}

#[test]
fn a_single_identifier() {
    assert_eq!(tree("x "), Ok(var("x")));
    assert_eq!(treeify(&[Token::Term(7, "name".to_string())]), Ok(var("name")));
}

#[test]
fn abstraction_and_application() {
    assert_eq!(tree("λx. x "), Ok(lam("x", var("x"))));
    assert_eq!(tree("(f x)"), Ok(app(var("f"), var("x"))));
    assert_eq!(tree("(λx. x y)"), Ok(app(lam("x", var("x")), var("y"))));
    assert_eq!(
        tree("(λf. λx. (f (f x)) λg. λy. (g (g y)))"),
        TermParser::new("(λf. λx. (f (f x)) λg. λy. (g (g y)))").parse().map_err(|_| {
            TreeifyError::EmptyExprList
        })
    );
}

#[test]
fn unclosed_paren() {
    assert_eq!(tree("("), Err(TreeifyError::UnclosedParen(1)));
    assert_eq!(tree("(f "), Err(TreeifyError::UnclosedParen(1)));
    assert_eq!(tree("(f x "), Err(TreeifyError::UnclosedParen(1)));
    assert_eq!(tree("(f x y)"), Err(TreeifyError::UnclosedParen(1)));
    assert_eq!(tree("(f (g x)"), Err(TreeifyError::UnclosedParen(1)));
    assert_eq!(tree("(f (g x "), Err(TreeifyError::UnclosedParen(4)));
}

#[test]
fn unopened_paren() {
    assert_eq!(tree(")"), Err(TreeifyError::UnopenedParen(1)));
    assert_eq!(tree("  ) x "), Err(TreeifyError::UnopenedParen(3)));
}

#[test]
fn missing_lambda_var() {
    assert_eq!(tree("λ"), Err(TreeifyError::MissingLambdaVar(1)));
    assert_eq!(tree("λ. x "), Err(TreeifyError::MissingLambdaVar(1)));
    assert_eq!(tree("(f λ(x y))"), Err(TreeifyError::MissingLambdaVar(4)));
    assert_eq!(tree(". x "), Err(TreeifyError::MissingLambdaVar(1)));
    assert_eq!(tree("(f .)"), Err(TreeifyError::MissingLambdaVar(4)));
}

#[test]
fn missing_lambda_body() {
    assert_eq!(tree("λx."), Err(TreeifyError::MissingLambdaBody(1)));
    assert_eq!(tree("λx x "), Err(TreeifyError::MissingLambdaBody(1)));
    assert_eq!(tree("λx "), Err(TreeifyError::MissingLambdaBody(1)));
    assert_eq!(tree("(f λx.)"), Err(TreeifyError::MissingLambdaBody(4)));
    assert_eq!(tree("λx.λy."), Err(TreeifyError::MissingLambdaBody(4)));
}

#[test]
fn application_closed_too_early() {
    assert_eq!(tree("()"), Err(TreeifyError::EmptyExprList));
    assert_eq!(tree("(f)"), Err(TreeifyError::EmptyExprList));
    assert_eq!(tree("(f (g))"), Err(TreeifyError::EmptyExprList));
}

#[test]
fn tokens_after_the_term_are_not_read() {
    assert_eq!(tree("x y "), Ok(var("x")));
    assert_eq!(tree("(f x) )"), Ok(app(var("f"), var("x"))));
}

#[test]
fn lexer_and_treeify_agree_with_the_parser_on_plain_terms() {
    for text in ["x ", "(f x)", "λx. (x x)", "(λx. x (g y))", "\\a.\\b.(a b)"] {
        let parsed = TermParser::new(text).parse().unwrap();
        assert_eq!(tree(text), Ok(parsed), "{}", text);
    }
}

#[test]
fn the_tokens_of_a_rendered_term_build_the_term() {
    let terms = [
        var("x"),
        app(var("f"), var("x")),
        lam("x", var("x")),
        app(lam("x", app(var("x"), var("x"))), lam("y", var("y"))),
        lam("f", lam("x", app(var("f"), app(var("f"), var("x"))))),
        app(app(var("a"), var("b")), lam("c", app(var("c"), var("d9")))),
    ];
    for term in terms {
        let mut text = term.render();
        text.push(' ');
        assert_eq!(treeify(&lexer(&text)), Ok(term.clone()), "{}", text);
        assert_eq!(TermParser::new(&text).parse(), Ok(term));
    }
}
