use lambda_calculus::{Literal, ParseError, ParseErrorKind, Term, TermParser, Type};

fn var(name: &str) -> Term {
    Term::Variable { name: name.to_string(), _type: None }
}

fn typed(name: &str, annotation: Type) -> Term {
    Term::Variable { name: name.to_string(), _type: Some(annotation) }
}

fn base(name: &str) -> Type {
    Type::Variable { name: name.to_string() }
}

fn arrow(argument: Type, result: Type) -> Type {
    Type::Function { argument: Box::new(argument), result: Box::new(result) }
}

fn app(function: Term, argument: Term) -> Term {
    Term::Application { function: Box::new(function), argument: Box::new(argument) }
}

fn lam(variable: Term, body: Term) -> Term {
    Term::Abstraction { variable: Box::new(variable), body: Box::new(body) }
}

fn parse(text: &str) -> Result<Term, ParseError> {
    TermParser::new(text).parse()
}

fn fails(text: &str, kind: ParseErrorKind, position: usize) {
    assert_eq!(parse(text), Err(ParseError { kind, position }));
}

#[test]
fn a_name_parses_to_an_unannotated_variable() {
    for name in ["x", "y", "abc", "x1", "42", "CamelCase9", "a0b1c2"] {
        let mut parser = TermParser::new(name);
        assert_eq!(parser.parse(), Ok(var(name)));
        assert_eq!(parser.index(), name.chars().count());
    }
}

#[test]
fn identity_parses_to_an_abstraction() {
    assert_eq!(parse("λx. x"), Ok(lam(var("x"), var("x"))));
}

#[test]
fn backslash_stands_for_lambda() {
    assert_eq!(parse("\\x. x"), Ok(lam(var("x"), var("x"))));
    assert_eq!(parse("\\f.\\x.(f x)"), Ok(lam(var("f"), lam(var("x"), app(var("f"), var("x"))))));
}

#[test]
fn application_of_identity_parses() {
    assert_eq!(parse("(λx. x y)"), Ok(app(lam(var("x"), var("x")), var("y"))));
}

#[test]
fn church_numerals_parse() {
    let two = |f: &str, x: &str| {
        lam(var(f), lam(var(x), app(var(f), app(var(f), var(x)))))
    };
    assert_eq!(
        parse("(λf. λx. (f (f x)) λg. λy. (g (g y)))"),
        Ok(app(two("f", "x"), two("g", "y")))
    );
}

#[test]
fn annotation_with_function_type() {
    assert_eq!(
        parse("x : (int -> int)"),
        Ok(typed("x", arrow(base("int"), base("int"))))
    );
}

#[test]
fn annotation_with_base_type() {
    assert_eq!(parse("x:int"), Ok(typed("x", base("int"))));
    assert_eq!(parse("x :  int"), Ok(typed("x", base("int"))));
}

#[test]
fn annotated_binders() {
    assert_eq!(
        parse("(λf: (int -> int). λx: int. (f (f x)))"),
        Err(ParseError { kind: ParseErrorKind::ExpectedName, position: 37 })
    );
    assert_eq!(
        parse("λf: (int -> int). λx: int. (f (f x))"),
        Ok(lam(
            typed("f", arrow(base("int"), base("int"))),
            lam(typed("x", base("int")), app(var("f"), app(var("f"), var("x"))))
        ))
    );
}

#[test]
fn arrows_associate_to_the_right() {
    assert_eq!(
        parse("x : (a -> b -> c)"),
        Ok(typed("x", arrow(base("a"), arrow(base("b"), base("c")))))
    );
    assert_eq!(
        parse("x : ((a -> b) -> c)"),
        Ok(typed("x", arrow(arrow(base("a"), base("b")), base("c"))))
    );
    assert_eq!(
        parse("x:(a->(b->c)->d)"),
        Ok(typed("x", arrow(base("a"), arrow(arrow(base("b"), base("c")), base("d")))))
    );
}

#[test]
fn missing_closing_paren() {
    fails("(λx. x y", ParseErrorKind::ExpectedToken(Literal::RightParen), 8);
    fails("(x y", ParseErrorKind::ExpectedToken(Literal::RightParen), 4);
    fails("(x y z)", ParseErrorKind::ExpectedToken(Literal::RightParen), 5);
    fails("(x (y z)", ParseErrorKind::ExpectedToken(Literal::RightParen), 8);
}

#[test]
fn unclosed_application_without_argument() {
    // The second term is missed before the closing parenthesis is.
    fails("(λx. x", ParseErrorKind::ExpectedName, 6);
    fails("(x", ParseErrorKind::ExpectedName, 2);
    fails("(", ParseErrorKind::ExpectedName, 1);
}

#[test]
fn missing_dot() {
    fails("λx x", ParseErrorKind::ExpectedToken(Literal::Dot), 3);
    fails("λx", ParseErrorKind::ExpectedToken(Literal::Dot), 2);
}

#[test]
fn missing_arrow() {
    fails("x : (a)", ParseErrorKind::ExpectedToken(Literal::Arrow), 6);
    fails("x : (a -> b - c)", ParseErrorKind::ExpectedToken(Literal::Arrow), 12);
}

#[test]
fn missing_type_paren() {
    fails("x : (a -> b", ParseErrorKind::ExpectedToken(Literal::RightParen), 11);
}

#[test]
fn missing_type() {
    fails("x : ( -> int)", ParseErrorKind::ExpectedType, 6);
    fails("x : (int -> )", ParseErrorKind::ExpectedType, 12);
    fails("x : (int -> int -> .)", ParseErrorKind::ExpectedType, 19);
    fails("x : (", ParseErrorKind::ExpectedType, 5);
}

#[test]
fn missing_name() {
    fails("", ParseErrorKind::ExpectedName, 0);
    fails("   ", ParseErrorKind::ExpectedName, 3);
    fails(")", ParseErrorKind::ExpectedName, 0);
    fails("λ. x", ParseErrorKind::ExpectedName, 1);
    fails("λ x. x", ParseErrorKind::ExpectedName, 1);
    fails("x : ", ParseErrorKind::ExpectedName, 4);
    fails("(x )", ParseErrorKind::ExpectedName, 3);
    fails("()", ParseErrorKind::ExpectedName, 1);
}

#[test]
fn parentheses_do_not_group() {
    fails("(x)", ParseErrorKind::ExpectedName, 2);
    fails("((x y))", ParseErrorKind::ExpectedName, 6);
}

#[test]
fn trivia_is_skipped() {
    assert_eq!(parse("  \t\n x"), Ok(var("x")));
    assert_eq!(parse("// the identity\nλx. x"), Ok(lam(var("x"), var("x"))));
    assert_eq!(
        parse("( f // applied to\n\r x // done\n )"),
        Ok(app(var("f"), var("x")))
    );
    assert_eq!(parse("x // no newline at the end"), Ok(var("x")));
    fails("/ x", ParseErrorKind::ExpectedName, 0);
}

#[test]
fn what_follows_the_term_is_left_unread() {
    let mut parser = TermParser::new("x y");
    assert_eq!(parser.parse(), Ok(var("x")));
    assert_eq!(parser.index(), 2);
    assert_eq!(parser.parse(), Ok(var("y")));
    assert_eq!(parser.index(), 3);
    assert_eq!(parser.parse(), Err(ParseError { kind: ParseErrorKind::ExpectedName, position: 3 }));
}

#[test]
fn the_cursor_rests_at_the_error() {
    let mut parser = TermParser::new("(λx. x y  ");
    let error = parser.parse().unwrap_err();
    assert_eq!(error.position, 10);
    assert_eq!(parser.index(), 10);
}

#[test]
fn positions_count_characters_not_bytes() {
    fails("(λx. λy. x z", ParseErrorKind::ExpectedToken(Literal::RightParen), 12);
    assert_eq!("(λx. λy. x z".len(), 14);
}

#[test]
fn cursor_primitives() {
    let mut parser = TermParser::new("  -> λ");
    assert_eq!(parser.peek_one(), Some(' '));
    assert!(!parser.starts_with(Literal::Arrow));
    parser.skip_trivia();
    assert_eq!(parser.index(), 2);
    assert!(parser.starts_with(Literal::Arrow));
    assert_eq!(
        parser.consume(Literal::Dot),
        Err(ParseError { kind: ParseErrorKind::ExpectedToken(Literal::Dot), position: 2 })
    );
    assert_eq!(parser.consume(Literal::Arrow), Ok(()));
    assert_eq!(parser.index(), 4);
    assert_eq!(parser.consume(Literal::Lambda), Ok(()));
    assert_eq!(parser.index(), 6);
    assert_eq!(parser.peek_one(), None);
    assert_eq!(
        parser.consume(Literal::LeftParen),
        Err(ParseError { kind: ParseErrorKind::ExpectedToken(Literal::LeftParen), position: 6 })
    );
}

#[test]
fn names_stop_at_the_first_other_character() {
    let mut parser = TermParser::new("abc_def");
    assert_eq!(parser.parse_name(), Ok("abc".to_string()));
    assert_eq!(parser.index(), 3);
    assert_eq!(
        parser.parse_name(),
        Err(ParseError { kind: ParseErrorKind::ExpectedName, position: 3 })
    );
    let mut accented = TermParser::new("é");
    assert_eq!(
        accented.parse_name(),
        Err(ParseError { kind: ParseErrorKind::ExpectedName, position: 0 })
    );
}

#[test]
fn each_rule_can_be_entered_directly() {
    assert_eq!(
        TermParser::new("x").parse_application(),
        Err(ParseError { kind: ParseErrorKind::ExpectedToken(Literal::LeftParen), position: 0 })
    );
    assert_eq!(
        TermParser::new("  x").parse_abstraction(),
        Err(ParseError { kind: ParseErrorKind::ExpectedToken(Literal::Lambda), position: 2 })
    );
    assert_eq!(
        TermParser::new("x").consume(Literal::Colon),
        Err(ParseError { kind: ParseErrorKind::ExpectedToken(Literal::Colon), position: 0 })
    );
    assert_eq!(TermParser::new(" (f x) ").parse_application(), Ok(app(var("f"), var("x"))));
    assert_eq!(TermParser::new(" \\x.x").parse_abstraction(), Ok(lam(var("x"), var("x"))));
    assert_eq!(TermParser::new("x : t rest").parse_variable(), Ok(typed("x", base("t"))));
    assert_eq!(
        TermParser::new(" x").parse_variable(),
        Err(ParseError { kind: ParseErrorKind::ExpectedName, position: 0 })
    );
}

#[test]
fn each_type_rule_can_be_entered_directly() {
    assert_eq!(TermParser::new("  int").parse_type(), Ok(base("int")));
    assert_eq!(
        TermParser::new(" int").parse_base_type(),
        Err(ParseError { kind: ParseErrorKind::ExpectedName, position: 0 })
    );
    assert_eq!(TermParser::new("int").parse_base_type(), Ok(base("int")));
    assert_eq!(
        TermParser::new("int").parse_function_type(),
        Err(ParseError { kind: ParseErrorKind::ExpectedToken(Literal::LeftParen), position: 0 })
    );
    assert_eq!(
        TermParser::new("(a -> b)").parse_function_type(),
        Ok(arrow(base("a"), base("b")))
    );
    assert_eq!(
        TermParser::new(" )").parse_type_operand(),
        Err(ParseError { kind: ParseErrorKind::ExpectedType, position: 1 })
    );
    assert_eq!(TermParser::new(" (a->b)").parse_type_operand(), Ok(arrow(base("a"), base("b"))));
    let mut chain = TermParser::new("a -> b -> c )");
    assert_eq!(chain.parse_function_result(), Ok(arrow(base("a"), arrow(base("b"), base("c")))));
    assert_eq!(chain.index(), 12);
    let mut single = TermParser::new("a  )");
    assert_eq!(single.parse_function_result(), Ok(base("a")));
    assert_eq!(single.index(), 3);
}

#[test]
fn literals_as_text() {
    assert_eq!(Literal::LeftParen.as_str(), "(");
    assert_eq!(Literal::RightParen.as_str(), ")");
    assert_eq!(Literal::Lambda.as_str(), "λ");
    assert_eq!(Literal::Dot.as_str(), ".");
    assert_eq!(Literal::Colon.as_str(), ":");
    assert_eq!(Literal::Arrow.as_str(), "->");
}

#[test]
fn parsed_terms_bind_variables_only() {
    fn well_formed(term: &Term) -> bool {
        match term {
            Term::Variable { .. } => true,
            Term::Application { function, argument } => well_formed(function) && well_formed(argument),
            Term::Abstraction { variable, body } => {
                matches!(**variable, Term::Variable { .. }) && well_formed(body)
            }
        }
    }
    for text in ["x", "λx. x", "(λx: t. x λy. (y y))", "λa. λb. λc. ((a b) c)"] {
        assert!(well_formed(&parse(text).unwrap()), "{}", text);
    }
    fails("λ(x y). x", ParseErrorKind::ExpectedName, 1);
    fails("λλx. x. x", ParseErrorKind::ExpectedName, 1);
}
