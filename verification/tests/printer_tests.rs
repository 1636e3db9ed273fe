use lambda_calculus::{normalize, Term, TermParser, Type};

fn parse(text: &str) -> Term {
    TermParser::new(text).parse().unwrap()
}

#[test]
fn variables_render_as_their_name() {
    assert_eq!(parse("x").render(), "x");
    assert_eq!(parse("x:int").render(), "x: int");
}

#[test]
fn function_types_render_in_parentheses() {
    let arrow = Type::Function {
        argument: Box::new(Type::Variable { name: "a".to_string() }),
        result: Box::new(Type::Variable { name: "b".to_string() }),
    };
    assert_eq!(arrow.render(), "(a -> b)");
    assert_eq!(parse("x : (a->b->c)").render(), "x: (a -> (b -> c))");
    assert_eq!(parse("x : ((a->b)->c)").render(), "x: ((a -> b) -> c)");
}

#[test]
fn applications_and_abstractions() {
    assert_eq!(parse("( f   x )").render(), "(f x)");
    assert_eq!(parse("λx. x").render(), "λx.x");
    assert_eq!(parse("\\x. x").render(), "λx.x");
    assert_eq!(
        parse("(λf. λx. (f (f x)) λg. λy. (g (g y)))").render(),
        "(λf.λx.(f (f x)) λg.λy.(g (g y)))"
    );
    assert_eq!(parse("λf: (int -> int). λx: int. (f x)").render(), "λf: (int -> int).λx: int.(f x)");
}

#[test]
fn rendering_appends() {
    let mut out = String::from("N: ");
    normalize(parse("(λx. x y)")).render_into(&mut out);
    assert_eq!(out, "N: y");
    let mut text = String::from("T ");
    Type::Variable { name: "int".to_string() }.render_into(&mut text);
    assert_eq!(text, "T int");
}

#[test]
fn rendered_terms_parse_back() {
    for text in [
        "x",
        "(f x)",
        "λx.x",
        "(λx.x y)",
        "λf: (a -> (b -> c)).λx: a.((f x) y)",
        "(λf.λx.(f (f x)) λg.λy.(g (g y)))",
    ] {
        let term = parse(text);
        assert_eq!(term.render(), text);
        assert_eq!(parse(&term.render()), term);
    }
}

#[test]
fn the_parser_consumes_the_whole_rendered_text() {
    for text in ["x", "x: (a -> b)", "(f x)", "λx.(x x)", "(λx: t.x y)"] {
        let mut parser = TermParser::new(text);
        let term = parser.parse().unwrap();
        assert_eq!(term.render(), text);
        assert_eq!(parser.index(), text.chars().count());
    }
}
