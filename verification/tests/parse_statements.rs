use zlang::{
    parse_ast, parse_call, parse_constant, parse_declare, parse_expr, parse_function,
    parse_statements, Atom, Expr, Failure, ParseError, ParseErrorKind,
};

fn symbol(name: &str) -> Atom {
    Atom::Symbol(name.to_string())
}

fn constant(name: &str) -> Expr {
    Expr::Constant(symbol(name))
}

fn function(name: &str, args: Vec<Atom>, body: Vec<Expr>) -> Expr {
    Expr::Function { name: name.to_string(), args, body }
}

fn unexpected(offset: usize) -> ParseError {
    ParseError { kind: ParseErrorKind::UnexpectedInput, offset }
}

#[test]
fn constant_wraps_an_atom() {
    assert_eq!(parse_constant("42 x"), Ok((" x", Expr::Constant(Atom::Number(42)))));
    assert_eq!(parse_constant("}"), Err(Failure::NoMatch));
}

#[test]
fn declare_binds_one_atom() {
    assert_eq!(
        parse_declare("name := \"World\" rest"),
        Ok((
            " rest",
            Expr::Declare { name: "name".to_string(), value: Atom::String("World".to_string()) }
        ))
    );
    assert_eq!(
        parse_declare("x:=7"),
        Ok(("", Expr::Declare { name: "x".to_string(), value: Atom::Number(7) }))
    );
    assert_eq!(
        parse_declare("x \t:=\n y z"),
        Ok((" z", Expr::Declare { name: "x".to_string(), value: symbol("y") }))
    );
}

#[test]
fn declare_needs_name_sign_and_atom() {
    assert_eq!(parse_declare(":= 1"), Err(Failure::NoMatch));
    assert_eq!(parse_declare("x = 1"), Err(Failure::NoMatch));
    assert_eq!(parse_declare("x : = 1"), Err(Failure::NoMatch));
    assert_eq!(parse_declare("x :="), Err(Failure::NoMatch));
    assert_eq!(parse_declare("x := (1)"), Err(Failure::NoMatch));
    assert_eq!(parse_declare("x(1)"), Err(Failure::NoMatch));
}

#[test]
fn declare_passes_on_a_number_out_of_range() {
    assert_eq!(
        parse_declare("x := 99999999999999999999 y"),
        Err(Failure::OutOfRange { remaining: 22 })
    );
}

#[test]
fn call_reads_arguments_in_order() {
    assert_eq!(
        parse_call("printf(name)"),
        Ok(("", Expr::Call { name: "printf".to_string(), args: vec![constant("name")] }))
    );
    assert_eq!(
        parse_call("f( a ,\"b\",\n-3 ) g"),
        Ok((
            " g",
            Expr::Call {
                name: "f".to_string(),
                args: vec![
                    constant("a"),
                    Expr::Constant(Atom::String("b".to_string())),
                    Expr::Constant(Atom::Number(-3)),
                ],
            }
        ))
    );
    assert_eq!(parse_call("f()"), Ok(("", Expr::Call { name: "f".to_string(), args: vec![] })));
}

#[test]
fn call_needs_the_bracket_directly_after_the_name() {
    assert_eq!(parse_call("f (a)"), Err(Failure::NoMatch));
    assert_eq!(parse_call("f"), Err(Failure::NoMatch));
    assert_eq!(parse_call("(a)"), Err(Failure::NoMatch));
}

#[test]
fn call_takes_no_whitespace_in_an_empty_list() {
    assert_eq!(parse_call("f( )"), Err(Failure::NoMatch));
}

#[test]
fn call_takes_no_comma_without_an_atom_after_it() {
    assert_eq!(parse_call("f(a,)"), Err(Failure::NoMatch));
    assert_eq!(parse_call("f(,a)"), Err(Failure::NoMatch));
    assert_eq!(parse_call("f(a b)"), Err(Failure::NoMatch));
    assert_eq!(parse_call("f(a"), Err(Failure::NoMatch));
    assert_eq!(parse_call("f(g(a))"), Err(Failure::NoMatch));
}

#[test]
fn call_passes_on_a_number_out_of_range() {
    assert_eq!(
        parse_call("f(a, 9223372036854775808)"),
        Err(Failure::OutOfRange { remaining: 20 })
    );
}

#[test]
fn function_reads_head_and_body() {
    assert_eq!(parse_function("fn main() { }"), Ok(("", function("main", vec![], vec![]))));
    assert_eq!(parse_function("fn main(){}x"), Ok(("x", function("main", vec![], vec![]))));
    assert_eq!(
        parse_function("fn\tadd ( a , b )\n{\n  c := a\n  print(c)\n}\n"),
        Ok((
            "\n",
            function(
                "add",
                vec![symbol("a"), symbol("b")],
                vec![
                    Expr::Declare { name: "c".to_string(), value: symbol("a") },
                    Expr::Call { name: "print".to_string(), args: vec![constant("c")] },
                ]
            )
        ))
    );
}

#[test]
fn function_takes_any_atoms_as_parameters() {
    assert_eq!(
        parse_function("fn f(1, \"s\") {}"),
        Ok((
            "",
            function("f", vec![Atom::Number(1), Atom::String("s".to_string())], vec![])
        ))
    );
}

#[test]
fn function_may_hold_functions() {
    assert_eq!(
        parse_function("fn outer() { fn inner() { x } y }"),
        Ok((
            "",
            function(
                "outer",
                vec![],
                vec![function("inner", vec![], vec![constant("x")]), constant("y")]
            )
        ))
    );
}

#[test]
fn function_needs_whitespace_after_the_keyword() {
    assert_eq!(parse_function("fnmain() { }"), Err(Failure::NoMatch));
    assert_eq!(parse_function("fn"), Err(Failure::NoMatch));
    assert_eq!(parse_function("fn "), Err(Failure::NoMatch));
    assert_eq!(parse_function("f n() {}"), Err(Failure::NoMatch));
}

#[test]
fn function_needs_list_and_both_brackets() {
    assert_eq!(parse_function("fn main { }"), Err(Failure::NoMatch));
    assert_eq!(parse_function("fn main() "), Err(Failure::NoMatch));
    assert_eq!(parse_function("fn main() {"), Err(Failure::NoMatch));
    assert_eq!(parse_function("fn main() { x := }"), Err(Failure::NoMatch));
    assert_eq!(parse_function("fn main() { ) }"), Err(Failure::NoMatch));
}

#[test]
fn function_passes_on_a_number_out_of_range_in_its_body() {
    assert_eq!(
        parse_function("fn main() { x := 9223372036854775808 }"),
        Err(Failure::OutOfRange { remaining: 21 })
    );
}

#[test]
fn statement_tries_function_declare_call_constant_in_order() {
    assert_eq!(parse_expr("fn f() {}"), Ok(("", function("f", vec![], vec![]))));
    assert_eq!(
        parse_expr("x := 1"),
        Ok(("", Expr::Declare { name: "x".to_string(), value: Atom::Number(1) }))
    );
    assert_eq!(parse_expr("x(1)"), Ok((
        "",
        Expr::Call { name: "x".to_string(), args: vec![Expr::Constant(Atom::Number(1))] }
    )));
    assert_eq!(parse_expr("x 1"), Ok((" 1", constant("x"))));
    assert_eq!(parse_expr("\"s\""), Ok(("", Expr::Constant(Atom::String("s".to_string())))));
}

#[test]
fn bare_name_is_a_symbol() {
    assert_eq!(parse_expr("abc"), Ok(("", constant("abc"))));
    assert_eq!(parse_expr("abc def"), Ok((" def", constant("abc"))));
    assert_eq!(parse_expr("abc)"), Ok((")", constant("abc"))));
    assert_eq!(parse_expr("abc = 1"), Ok((" = 1", constant("abc"))));
    assert_eq!(parse_expr("abc (1)"), Ok((" (1)", constant("abc"))));
}

#[test]
fn keyword_without_a_function_after_it_is_a_symbol() {
    assert_eq!(parse_expr("fn"), Ok(("", constant("fn"))));
    assert_eq!(parse_expr("fn x"), Ok((" x", constant("fn"))));
    assert_eq!(parse_expr("fnord()"), Ok((
        "",
        Expr::Call { name: "fnord".to_string(), args: vec![] }
    )));
}

#[test]
fn statement_does_not_skip_whitespace() {
    assert_eq!(parse_expr(" x"), Err(Failure::NoMatch));
    assert_eq!(parse_expr(""), Err(Failure::NoMatch));
}

#[test]
fn statements_stop_before_what_is_no_statement() {
    assert_eq!(
        parse_statements(" a b } c"),
        Ok((" } c", vec![constant("a"), constant("b")]))
    );
    assert_eq!(parse_statements("  }"), Ok(("  }", vec![])));
    assert_eq!(parse_statements(""), Ok(("", vec![])));
}

#[test]
fn program_of_nothing_is_empty() {
    assert_eq!(parse_ast(""), Ok(vec![]));
    assert_eq!(parse_ast(" \n\t\r "), Ok(vec![]));
}

#[test]
fn program_holds_statements_in_order() {
    assert_eq!(
        parse_ast("fn a() { }\nfn b() { }\n"),
        Ok(vec![function("a", vec![], vec![]), function("b", vec![], vec![])])
    );
    assert_eq!(
        parse_ast("x := 1 f(x) y"),
        Ok(vec![
            Expr::Declare { name: "x".to_string(), value: Atom::Number(1) },
            Expr::Call { name: "f".to_string(), args: vec![constant("x")] },
            constant("y"),
        ])
    );
}

#[test]
fn unterminated_string_is_a_parse_error() {
    assert_eq!(parse_ast("\"unterminated"), Err(unexpected(0)));
}

#[test]
fn negative_float_is_read_as_number_and_fails_at_the_dot() {
    assert_eq!(parse_ast("x := -1.5"), Err(unexpected(7)));
    assert_eq!(parse_ast("x := 1.5"), Err(unexpected(6)));
}

#[test]
fn float_with_a_plus_sign_is_read() {
    assert_eq!(
        parse_ast("x := +1.5"),
        Ok(vec![Expr::Declare {
            name: "x".to_string(),
            value: Atom::Float(1.5f64.to_bits()),
        }])
    );
}

#[test]
fn fault_gives_no_tree_whatever_stands_before_it() {
    assert_eq!(parse_ast("fn main() { } }"), Err(unexpected(14)));
    assert_eq!(parse_ast("a b ) c"), Err(unexpected(4)));
    assert_eq!(parse_ast("f( )"), Err(unexpected(1)));
    assert_eq!(parse_ast("f (x)"), Err(unexpected(2)));
    assert_eq!(parse_ast("fnmain() { }"), Err(unexpected(9)));
    assert_eq!(parse_ast("fn main() { "), Err(unexpected(10)));
}

#[test]
fn number_out_of_range_is_a_parse_error_at_the_number() {
    assert_eq!(
        parse_ast("x := 99999999999999999999"),
        Err(ParseError { kind: ParseErrorKind::NumberOutOfRange, offset: 5 })
    );
    assert_eq!(
        parse_ast("fn main() {\n  f(1, -9223372036854775809)\n}\n"),
        Err(ParseError { kind: ParseErrorKind::NumberOutOfRange, offset: 19 })
    );
}

#[test]
fn text_of_several_bytes_per_character_is_cut_at_characters() {
    assert_eq!(
        parse_ast("s := \"žluťoučký kůň\" f(s)"),
        Ok(vec![
            Expr::Declare {
                name: "s".to_string(),
                value: Atom::String("žluťoučký kůň".to_string()),
            },
            Expr::Call { name: "f".to_string(), args: vec![constant("s")] },
        ])
    );
    assert_eq!(parse_ast("a é"), Err(unexpected(2)));
}
