use zlang::{
    parse_atom, parse_float, parse_name, parse_number, parse_string, parse_symbol, skip_space,
    Atom, Failure,
};

#[test]
fn name_takes_leading_letters() {
    assert_eq!(parse_name("abc def"), Ok((" def", "abc".to_string())));
    assert_eq!(parse_name("Az9"), Ok(("9", "Az".to_string())));
}

#[test]
fn name_needs_a_letter() {
    assert_eq!(parse_name(""), Err(Failure::NoMatch));
    assert_eq!(parse_name("1a"), Err(Failure::NoMatch));
    assert_eq!(parse_name("_a"), Err(Failure::NoMatch));
    assert_eq!(parse_name("éa"), Err(Failure::NoMatch));
}

#[test]
fn name_stops_before_a_character_of_several_bytes() {
    assert_eq!(parse_name("abé"), Ok(("é", "ab".to_string())));
}

#[test]
fn symbol_wraps_a_name() {
    assert_eq!(parse_symbol("printf(x)"), Ok(("(x)", Atom::Symbol("printf".to_string()))));
}

#[test]
fn string_takes_raw_text_up_to_next_quote() {
    assert_eq!(
        parse_string("\"World\" rest"),
        Ok((" rest", Atom::String("World".to_string())))
    );
    assert_eq!(parse_string("\"\""), Ok(("", Atom::String(String::new()))));
    assert_eq!(
        parse_string("\"a\\\"b\""),
        Ok(("b\"", Atom::String("a\\".to_string())))
    );
    assert_eq!(
        parse_string("\"héllo wörld\"!"),
        Ok(("!", Atom::String("héllo wörld".to_string())))
    );
}

#[test]
fn string_without_closing_quote_does_not_match() {
    assert_eq!(parse_string("\"unterminated"), Err(Failure::NoMatch));
    assert_eq!(parse_string("\""), Err(Failure::NoMatch));
    assert_eq!(parse_string("x\"a\""), Err(Failure::NoMatch));
}

#[test]
fn number_reads_signed_decimal() {
    assert_eq!(parse_number("42"), Ok(("", Atom::Number(42))));
    assert_eq!(parse_number("-17,"), Ok((",", Atom::Number(-17))));
    assert_eq!(parse_number("007"), Ok(("", Atom::Number(7))));
    assert_eq!(parse_number("-0"), Ok(("", Atom::Number(0))));
    assert_eq!(parse_number("-1.5"), Ok((".5", Atom::Number(-1))));
}

#[test]
fn number_reads_the_ends_of_its_range() {
    assert_eq!(
        parse_number("9223372036854775807"),
        Ok(("", Atom::Number(i64::MAX)))
    );
    assert_eq!(
        parse_number("-9223372036854775808"),
        Ok(("", Atom::Number(i64::MIN)))
    );
}

#[test]
fn number_out_of_range_is_a_fault() {
    assert_eq!(
        parse_number("9223372036854775808"),
        Err(Failure::OutOfRange { remaining: 19 })
    );
    assert_eq!(
        parse_number("-9223372036854775809 x"),
        Err(Failure::OutOfRange { remaining: 22 })
    );
    assert_eq!(
        parse_number("99999999999999999999999999999999"),
        Err(Failure::OutOfRange { remaining: 32 })
    );
}

#[test]
fn number_needs_a_digit() {
    assert_eq!(parse_number(""), Err(Failure::NoMatch));
    assert_eq!(parse_number("-"), Err(Failure::NoMatch));
    assert_eq!(parse_number("- 1"), Err(Failure::NoMatch));
    assert_eq!(parse_number("+1"), Err(Failure::NoMatch));
    assert_eq!(parse_number("a1"), Err(Failure::NoMatch));
}

fn float_of(r: Result<(&str, Atom), Failure>) -> (String, f64) {
    match r {
        Ok((rest, Atom::Float(bits))) => (rest.to_string(), f64::from_bits(bits)),
        other => panic!("no float: {:?}", other),
    }
}

#[test]
fn float_reads_the_value_of_the_literal() {
    assert_eq!(float_of(parse_float("-1.5")), (String::new(), -1.5));
    assert_eq!(float_of(parse_float("+2.25 x")), (" x".to_string(), 2.25));
    assert_eq!(float_of(parse_float("11e-1")), (String::new(), 1.1));
    assert_eq!(float_of(parse_float("123E+02,")), (",".to_string(), 12300.0));
    assert_eq!(float_of(parse_float("7")), (String::new(), 7.0));
    assert_eq!(float_of(parse_float("5.")), (String::new(), 5.0));
    assert_eq!(float_of(parse_float("1.e2")), (String::new(), 100.0));
}

#[test]
fn float_leaves_an_exponent_without_digits() {
    assert_eq!(float_of(parse_float("1e")), ("e".to_string(), 1.0));
    assert_eq!(float_of(parse_float("2.5e+")), ("e+".to_string(), 2.5));
    assert_eq!(float_of(parse_float("3ex")), ("ex".to_string(), 3.0));
}

#[test]
fn float_needs_a_digit_before_the_dot() {
    assert_eq!(parse_float(".5"), Err(Failure::NoMatch));
    assert_eq!(parse_float("-.5"), Err(Failure::NoMatch));
    assert_eq!(parse_float("+"), Err(Failure::NoMatch));
    assert_eq!(parse_float("inf"), Err(Failure::NoMatch));
    assert_eq!(parse_float("nan"), Err(Failure::NoMatch));
    assert_eq!(parse_float(""), Err(Failure::NoMatch));
}

#[test]
fn atom_tries_symbol_string_number_float_in_order() {
    assert_eq!(parse_atom("name)"), Ok((")", Atom::Symbol("name".to_string()))));
    assert_eq!(parse_atom("\"s\""), Ok(("", Atom::String("s".to_string()))));
    assert_eq!(parse_atom("12.5"), Ok((".5", Atom::Number(12))));
    assert_eq!(parse_atom("-3"), Ok(("", Atom::Number(-3))));
    assert_eq!(float_of(parse_atom("+1.5")), (String::new(), 1.5));
    assert_eq!(parse_atom("inf"), Ok(("", Atom::Symbol("inf".to_string()))));
    assert_eq!(parse_atom("e5"), Ok(("5", Atom::Symbol("e".to_string()))));
}

#[test]
fn atom_fails_without_consuming() {
    assert_eq!(parse_atom(""), Err(Failure::NoMatch));
    assert_eq!(parse_atom(" x"), Err(Failure::NoMatch));
    assert_eq!(parse_atom(".5"), Err(Failure::NoMatch));
    assert_eq!(parse_atom("(x)"), Err(Failure::NoMatch));
    assert_eq!(parse_atom("\"open"), Err(Failure::NoMatch));
}

#[test]
fn atom_passes_on_a_number_out_of_range() {
    assert_eq!(
        parse_atom("18446744073709551616"),
        Err(Failure::OutOfRange { remaining: 20 })
    );
}

#[test]
fn skip_space_drops_spaces_tabs_and_line_ends() {
    assert_eq!(skip_space(" \t\r\n x "), "x ");
    assert_eq!(skip_space("x"), "x");
    assert_eq!(skip_space("  "), "");
    assert_eq!(skip_space("\u{a0}x"), "\u{a0}x");
}
