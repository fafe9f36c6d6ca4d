//! The parser: each construct of the grammar read from the head of a `&str`,
//! by ordered alternatives that leave the text untouched where they fail.

use crate::ast::{atom_views, views, Atom, AtomView, Expr, ExprView};
use crate::float::literal_bits;
use crate::grammar::{
    after_space, atom, atom_list, atoms, call, constant, constants, declare, exponent_len, float,
    float_len, fraction_len, function, function_head, head_is, lemma_after_space_is_tail,
    lemma_atom_fits, lemma_function_head_fits, lemma_statement_fits, lemma_statements_fits,
    more_atoms, name, number, program, sign_len, signature, statement, statements, string,
    symbol,
    with_front, Failure, ParseError, ParseErrorKind, Reading, CLOSE_BRACE, CLOSE_PAREN, COLON,
    COMMA, DOT, EQUALS, LOWER_E, LOWER_F, LOWER_N, MINUS, OPEN_BRACE, OPEN_PAREN, PLUS, QUOTE,
    UPPER_E,
};
use crate::number::{digits_value, lemma_digits_value_grows, lemma_digits_value_step};
use crate::text::{lemma_run_shape, scan, split, Class};
use vstd::prelude::*;
use vstd::string::StringSliceAdditionalSpecFns;

verus! {

/// What a parser gave, as a reading of the grammar: the bytes of the text
/// that it left, and the view of the value.
pub open spec fn reading<T: View>(r: Result<(&str, T), Failure>) -> Reading<T::V> {
    match r {
        Ok((rest, value)) => Ok((rest.spec_bytes(), value@)),
        Err(f) => Err(f),
    }
}

/// What a parser of atoms between brackets gave, as a reading of the grammar.
pub open spec fn atoms_reading(r: Result<(&str, Vec<Atom>), Failure>) -> Reading<Seq<AtomView>> {
    match r {
        Ok((rest, values)) => Ok((rest.spec_bytes(), atom_views(values@))),
        Err(f) => Err(f),
    }
}

/// What a parser of statements gave, as a reading of the grammar.
pub open spec fn nodes_reading(r: Result<(&str, Vec<Expr>), Failure>) -> Reading<Seq<ExprView>> {
    match r {
        Ok((rest, nodes)) => Ok((rest.spec_bytes(), views(nodes@))),
        Err(f) => Err(f),
    }
}

/// Whether `bytes` starts with the byte `b`.
fn starts_with(bytes: &[u8], b: u8) -> (r: bool)
    ensures
        r == head_is(bytes@, b),
{
    bytes.len() > 0 && bytes[0] == b
}

/// Whether the byte at offset `at` of `bytes` is `b`.
fn byte_at_is(bytes: &[u8], at: usize, b: u8) -> (r: bool)
    requires
        at <= bytes@.len(),
    ensures
        r == head_is(bytes@.skip(at as int), b),
{
    at < bytes.len() && bytes[at] == b
}

/// Drops the whitespace at the head of the text.
pub fn skip_space(input: &str) -> (rest: &str)
    ensures
        rest.spec_bytes() == after_space(input.spec_bytes()),
{
    let bytes = input.as_bytes();
    let n = scan(bytes, 0, Class::Space);
    proof {
        assert(bytes@.skip(0) =~= bytes@);
        lemma_run_shape(bytes@, Class::Space);
    }
    split(input, n).1
}

/// Reads a name: one or more letters.
pub fn parse_name(input: &str) -> (r: Result<(&str, String), Failure>)
    ensures
        reading(r) == name(input.spec_bytes()),
{
    let bytes = input.as_bytes();
    let n = scan(bytes, 0, Class::Letter);
    proof {
        assert(bytes@.skip(0) =~= bytes@);
        lemma_run_shape(bytes@, Class::Letter);
    }
    if n == 0 {
        return Err(Failure::NoMatch);
    }
    let (letters, rest) = split(input, n);
    Ok((rest, letters.to_owned()))
}

/// Reads a name as a symbol.
pub fn parse_symbol(input: &str) -> (r: Result<(&str, Atom), Failure>)
    ensures
        reading(r) == symbol(input.spec_bytes()),
{
    match parse_name(input) {
        Ok((rest, letters)) => Ok((rest, Atom::Symbol(letters))),
        Err(f) => Err(f),
    }
}

/// Reads a string: the text between two double quotes, taken as it stands.
pub fn parse_string(input: &str) -> (r: Result<(&str, Atom), Failure>)
    ensures
        reading(r) == string(input.spec_bytes()),
{
    let bytes = input.as_bytes();
    if !starts_with(bytes, QUOTE) {
        return Err(Failure::NoMatch);
    }
    let n = scan(bytes, 1, Class::Unquoted);
    proof {
        lemma_run_shape(bytes@.skip(1), Class::Unquoted);
    }
    if n == bytes.len() - 1 {
        return Err(Failure::NoMatch);
    }
    let inner = split(input, 1).1;
    let raw = split(inner, n).0;
    let rest = split(inner, n + 1).1;
    Ok((rest, Atom::String(raw.to_owned())))
}

/// Computes the number that the `n` digits from offset `from` on write, if it
/// is at most 2^63.
fn magnitude(bytes: &[u8], from: usize, n: usize) -> (r: Option<u64>)
    requires
        from + n <= bytes@.len(),
        forall|i: int| from <= i < from + n ==> Class::Digit.holds(#[trigger] bytes@[i]),
    ensures
        match r {
            Some(m) => m == digits_value(bytes@.subrange(from as int, from + n)) && m
                <= 0x8000_0000_0000_0000,
            None => digits_value(bytes@.subrange(from as int, from + n)) > 0x8000_0000_0000_0000,
        },
{
    let ghost digits = bytes@.subrange(from as int, from + n);
    let len = bytes.len();
    let mut acc: u64 = 0;
    let mut i: usize = 0;
    while i < n
        invariant
            i <= n,
            from + n <= bytes@.len() == len,
            digits == bytes@.subrange(from as int, from + n),
            forall|j: int| from <= j < from + n ==> Class::Digit.holds(#[trigger] bytes@[j]),
            acc == digits_value(digits.take(i as int)),
            acc <= 0x8000_0000_0000_0000,
        decreases n - i,
    {
        let d: u64 = (bytes[from + i] - 0x30) as u64;
        proof {
            assert(digits[i as int] == bytes@[from + i]);
            lemma_digits_value_step(digits, i as int);
        }
        if acc > 922337203685477580 || 10 * acc + d > 0x8000_0000_0000_0000 {
            proof {
                lemma_digits_value_grows(digits, i + 1);
            }
            return None;
        }
        acc = 10 * acc + d;
        i += 1;
    }
    assert(digits.take(n as int) =~= digits);
    Some(acc)
}

/// Reads a number: an optional minus sign and digits, as a 64-bit signed
/// integer.
pub fn parse_number(input: &str) -> (r: Result<(&str, Atom), Failure>)
    ensures
        reading(r) == number(input.spec_bytes()),
{
    let bytes = input.as_bytes();
    let len = bytes.len();
    let sign: usize = if starts_with(bytes, MINUS) {
        1
    } else {
        0
    };
    let n = scan(bytes, sign, Class::Digit);
    proof {
        lemma_run_shape(bytes@.skip(sign as int), Class::Digit);
        assert(bytes@.skip(sign as int).take(n as int) =~= bytes@.subrange(
            sign as int,
            sign + n,
        ));
        assert forall|i: int| sign <= i < sign + n implies Class::Digit.holds(
            #[trigger] bytes@[i],
        ) by {
            assert(bytes@[i] == bytes@.skip(sign as int)[i - sign]);
        }
        assert(bytes@.skip(sign as int).skip(n as int) =~= bytes@.skip(sign + n));
    }
    if n == 0 {
        return Err(Failure::NoMatch);
    }
    let value: i64 = match magnitude(bytes, sign, n) {
        None => {
            return Err(Failure::OutOfRange { remaining: len });
        },
        Some(m) => {
            if sign == 1 {
                if m == 0x8000_0000_0000_0000 {
                    i64::MIN
                } else {
                    -(m as i64)
                }
            } else {
                if m == 0x8000_0000_0000_0000 {
                    return Err(Failure::OutOfRange { remaining: len });
                }
                m as i64
            }
        },
    };
    proof {
        assert(bytes@[sign + n - 1] == bytes@.skip(sign as int)[n - 1]);
    }
    let rest = split(input, sign + n).1;
    Ok((rest, Atom::Number(value)))
}

/// Measures the sign at offset `at` of `bytes`.
fn sign_length(bytes: &[u8], at: usize) -> (n: usize)
    requires
        at <= bytes@.len(),
    ensures
        n == sign_len(bytes@.skip(at as int)),
        at + n <= bytes@.len(),
{
    if byte_at_is(bytes, at, PLUS) || byte_at_is(bytes, at, MINUS) {
        1
    } else {
        0
    }
}

/// Measures the fraction at offset `at` of `bytes`.
fn fraction_length(bytes: &[u8], at: usize) -> (n: usize)
    requires
        at <= bytes@.len(),
    ensures
        n == fraction_len(bytes@.skip(at as int)),
        at + n <= bytes@.len(),
        n > 0 ==> bytes@[at + n - 1] < 0x80,
{
    let len = bytes.len();
    if !byte_at_is(bytes, at, DOT) {
        return 0;
    }
    let digits = scan(bytes, at + 1, Class::Digit);
    proof {
        let tail = bytes@.skip(at + 1);
        assert(bytes@.skip(at as int).skip(1) =~= tail);
        lemma_run_shape(tail, Class::Digit);
        if digits > 0 {
            assert(bytes@[at + digits] == tail[digits - 1]);
        } else {
            assert(bytes@[at as int] == bytes@.skip(at as int)[0]);
        }
    }
    1 + digits
}

/// Measures the exponent at offset `at` of `bytes`.
fn exponent_length(bytes: &[u8], at: usize) -> (n: usize)
    requires
        at <= bytes@.len(),
    ensures
        n == exponent_len(bytes@.skip(at as int)),
        at + n <= bytes@.len(),
        n > 0 ==> bytes@[at + n - 1] < 0x80,
{
    let len = bytes.len();
    if !(byte_at_is(bytes, at, LOWER_E) || byte_at_is(bytes, at, UPPER_E)) {
        return 0;
    }
    let sign = sign_length(bytes, at + 1);
    let digits = scan(bytes, at + 1 + sign, Class::Digit);
    proof {
        let tail = bytes@.skip(at + 1 + sign);
        assert(bytes@.skip(at as int).skip(1) =~= bytes@.skip(at + 1));
        assert(bytes@.skip(at as int).skip(1 + sign) =~= tail);
        lemma_run_shape(tail, Class::Digit);
        if digits > 0 {
            assert(bytes@[at + sign + digits] == tail[digits - 1]);
        }
    }
    if digits == 0 {
        0
    } else {
        1 + sign + digits
    }
}

/// Measures the float literal at the head of `bytes`.
fn float_length(bytes: &[u8]) -> (n: usize)
    ensures
        n == float_len(bytes@),
        n <= bytes@.len(),
        n > 0 ==> bytes@[n - 1] < 0x80,
{
    let len = bytes.len();
    let sign = sign_length(bytes, 0);
    let whole = scan(bytes, sign, Class::Digit);
    proof {
        assert(bytes@.skip(0) =~= bytes@);
        lemma_run_shape(bytes@.skip(sign as int), Class::Digit);
    }
    if whole == 0 {
        return 0;
    }
    assert(bytes@[sign + whole - 1] == bytes@.skip(sign as int)[whole - 1]);
    let fraction = fraction_length(bytes, sign + whole);
    let exponent = exponent_length(bytes, sign + whole + fraction);
    sign + whole + fraction + exponent
}

/// Reads a float: a float literal, as the bits of its value.
pub fn parse_float(input: &str) -> (r: Result<(&str, Atom), Failure>)
    ensures
        reading(r) == float(input.spec_bytes()),
{
    let n = float_length(input.as_bytes());
    if n == 0 {
        return Err(Failure::NoMatch);
    }
    let (literal, rest) = split(input, n);
    match literal_bits(literal) {
        Some(bits) => Ok((rest, Atom::Float(bits))),
        None => Err(Failure::NoMatch),
    }
}

/// Reads an atom: a symbol, else a string, else a number, else a float.
pub fn parse_atom(input: &str) -> (r: Result<(&str, Atom), Failure>)
    ensures
        reading(r) == atom(input.spec_bytes()),
{
    match parse_symbol(input) {
        Err(Failure::NoMatch) => {},
        other => {
            return other;
        },
    }
    match parse_string(input) {
        Err(Failure::NoMatch) => {},
        other => {
            return other;
        },
    }
    match parse_number(input) {
        Err(Failure::NoMatch) => {},
        other => {
            return other;
        },
    }
    parse_float(input)
}

/// Reads an atom as a constant node.
pub fn parse_constant(input: &str) -> (r: Result<(&str, Expr), Failure>)
    ensures
        reading(r) == constant(input.spec_bytes()),
{
    match parse_atom(input) {
        Ok((rest, value)) => Ok((rest, Expr::Constant(value))),
        Err(f) => Err(f),
    }
}

/// Reads a declaration: a name, `:=` and an atom.
pub fn parse_declare(input: &str) -> (r: Result<(&str, Expr), Failure>)
    ensures
        reading(r) == declare(input.spec_bytes()),
{
    let (after_name, letters) = match parse_name(input) {
        Ok(read) => read,
        Err(f) => {
            return Err(f);
        },
    };
    let sign = skip_space(after_name);
    let bytes = sign.as_bytes();
    if !(bytes.len() > 1 && bytes[0] == COLON && bytes[1] == EQUALS) {
        return Err(Failure::NoMatch);
    }
    let value_at = skip_space(split(sign, 2).1);
    match parse_atom(value_at) {
        Ok((rest, value)) => Ok((rest, Expr::Declare { name: letters, value })),
        Err(f) => Err(f),
    }
}

/// Putting an item before a reading that already has a front is putting it
/// at the end of that front.
proof fn lemma_with_front_push<V>(front: Seq<V>, item: V, reading: Reading<Seq<V>>)
    ensures
        with_front(front, with_front(seq![item], reading)) == with_front(front.push(item), reading),
{
    if let Ok((rest, items)) = reading {
        assert(front + (seq![item] + items) =~= front.push(item) + items);
    }
}

/// A reading with an empty front is that reading.
proof fn lemma_with_empty_front<V>(reading: Reading<Seq<V>>)
    ensures
        with_front(Seq::empty(), reading) == reading,
{
    if let Ok((rest, items)) = reading {
        assert(Seq::<V>::empty() + items =~= items);
    }
}

/// Reads the atoms of a list, separated by commas.
fn parse_atoms(input: &str) -> (r: Result<(&str, Vec<Atom>), Failure>)
    ensures
        atoms_reading(r) == atoms(input.spec_bytes()),
{
    let mut values: Vec<Atom> = Vec::new();
    let mut rest = match parse_atom(skip_space(input)) {
        Ok((after, value)) => {
            values.push(value);
            skip_space(after)
        },
        Err(Failure::NoMatch) => {
            assert(atom_views(values@) =~= Seq::<AtomView>::empty());
            return Ok((input, values));
        },
        Err(f) => {
            return Err(f);
        },
    };
    proof {
        assert(atom_views(values@) =~= seq![values@[0]@]);
    }
    loop
        invariant
            atoms(input.spec_bytes()) == with_front(
                atom_views(values@),
                more_atoms(rest.spec_bytes()),
            ),
        decreases rest.spec_bytes().len(),
    {
        let ghost here = rest.spec_bytes();
        let ghost front = atom_views(values@);
        if !starts_with(rest.as_bytes(), COMMA) {
            proof {
                assert(front + Seq::<AtomView>::empty() =~= front);
            }
            return Ok((rest, values));
        }
        proof {
            lemma_after_space_is_tail(here.skip(1));
            lemma_atom_fits(after_space(here.skip(1)));
        }
        match parse_atom(skip_space(split(rest, 1).1)) {
            Ok((after, value)) => {
                proof {
                    lemma_after_space_is_tail(after.spec_bytes());
                    lemma_with_front_push(
                        front,
                        value@,
                        more_atoms(after_space(after.spec_bytes())),
                    );
                }
                values.push(value);
                assert(atom_views(values@) =~= front.push(value@));
                rest = skip_space(after);
            },
            Err(Failure::NoMatch) => {
                proof {
                    assert(front + Seq::<AtomView>::empty() =~= front);
                }
                return Ok((rest, values));
            },
            Err(f) => {
                return Err(f);
            },
        }
    }
}

/// Reads a list of atoms between round brackets.
fn parse_atom_list(input: &str) -> (r: Result<(&str, Vec<Atom>), Failure>)
    ensures
        atoms_reading(r) == atom_list(input.spec_bytes()),
{
    if !starts_with(input.as_bytes(), OPEN_PAREN) {
        return Err(Failure::NoMatch);
    }
    match parse_atoms(split(input, 1).1) {
        Ok((rest, values)) => {
            if !starts_with(rest.as_bytes(), CLOSE_PAREN) {
                return Err(Failure::NoMatch);
            }
            Ok((split(rest, 1).1, values))
        },
        Err(f) => Err(f),
    }
}

/// Makes each atom a constant node.
fn constants_of(values: Vec<Atom>) -> (nodes: Vec<Expr>)
    ensures
        views(nodes@) == constants(atom_views(values@)),
{
    let mut nodes: Vec<Expr> = Vec::new();
    let ghost all = values@;
    for value in it: values.into_iter()
        invariant
            it.seq() == all,
            nodes@.len() == it.index(),
            forall|j: int| 0 <= j < nodes@.len() ==> nodes@[j]@ == ExprView::Constant(all[j]@),
    {
        nodes.push(Expr::Constant(value));
    }
    assert(views(nodes@) =~= constants(atom_views(all)));
    nodes
}

/// Reads a call: a name and, directly after it, the arguments between round
/// brackets.
pub fn parse_call(input: &str) -> (r: Result<(&str, Expr), Failure>)
    ensures
        reading(r) == call(input.spec_bytes()),
{
    let (after_name, letters) = match parse_name(input) {
        Ok(read) => read,
        Err(f) => {
            return Err(f);
        },
    };
    match parse_atom_list(after_name) {
        Ok((rest, values)) => Ok((rest, Expr::Call { name: letters, args: constants_of(values) })),
        Err(f) => Err(f),
    }
}

/// What a parser of a signature gave, as a reading of the grammar.
pub open spec fn signature_reading(r: Result<(&str, (String, Vec<Atom>)), Failure>) -> Reading<
    (Seq<char>, Seq<AtomView>),
> {
    match r {
        Ok((rest, (letters, params))) => Ok((rest.spec_bytes(), (letters@, atom_views(params@)))),
        Err(f) => Err(f),
    }
}

/// Reads the name and the parameters of a function.
fn parse_signature(input: &str) -> (r: Result<(&str, (String, Vec<Atom>)), Failure>)
    ensures
        signature_reading(r) == signature(input.spec_bytes()),
{
    let (after_name, letters) = match parse_name(input) {
        Ok(read) => read,
        Err(f) => {
            return Err(f);
        },
    };
    match parse_atom_list(skip_space(after_name)) {
        Ok((rest, params)) => Ok((rest, (letters, params))),
        Err(f) => Err(f),
    }
}

/// Reads the head of a function: `fn`, whitespace, and the signature.
fn parse_function_head(input: &str) -> (r: Result<(&str, (String, Vec<Atom>)), Failure>)
    ensures
        signature_reading(r) == function_head(input.spec_bytes()),
{
    let bytes = input.as_bytes();
    if !(bytes.len() > 1 && bytes[0] == LOWER_F && bytes[1] == LOWER_N) {
        return Err(Failure::NoMatch);
    }
    let gap = scan(bytes, 2, Class::Space);
    if gap == 0 {
        return Err(Failure::NoMatch);
    }
    proof {
        lemma_run_shape(bytes@.skip(2), Class::Space);
        assert(bytes@[2 + gap - 1] == bytes@.skip(2)[gap - 1]);
    }
    parse_signature(split(input, 2 + gap).1)
}

/// Reads a function: its head and its body between curly brackets.
pub fn parse_function(input: &str) -> (r: Result<(&str, Expr), Failure>)
    ensures
        reading(r) == function(input.spec_bytes()),
    decreases input.spec_bytes().len(), 0int,
{
    let (after_head, (letters, params)) = match parse_function_head(input) {
        Ok(read) => read,
        Err(f) => {
            return Err(f);
        },
    };
    let open = skip_space(after_head);
    if !starts_with(open.as_bytes(), OPEN_BRACE) {
        return Err(Failure::NoMatch);
    }
    proof {
        lemma_function_head_fits(input.spec_bytes());
        lemma_after_space_is_tail(after_head.spec_bytes());
    }
    let (after_body, body) = match parse_statements(split(open, 1).1) {
        Ok(read) => read,
        Err(f) => {
            return Err(f);
        },
    };
    let close = skip_space(after_body);
    if !starts_with(close.as_bytes(), CLOSE_BRACE) {
        return Err(Failure::NoMatch);
    }
    Ok((split(close, 1).1, Expr::Function { name: letters, args: params, body }))
}

/// Reads a statement: a function, else a declaration, else a call, else a
/// bare atom.
pub fn parse_expr(input: &str) -> (r: Result<(&str, Expr), Failure>)
    ensures
        reading(r) == statement(input.spec_bytes()),
    decreases input.spec_bytes().len(), 1int,
{
    match parse_function(input) {
        Err(Failure::NoMatch) => {},
        other => {
            return other;
        },
    }
    match parse_declare(input) {
        Err(Failure::NoMatch) => {},
        other => {
            return other;
        },
    }
    match parse_call(input) {
        Err(Failure::NoMatch) => {},
        other => {
            return other;
        },
    }
    parse_constant(input)
}

/// Reads the statements at the head of the text, as many as follow one
/// another.
pub fn parse_statements(input: &str) -> (r: Result<(&str, Vec<Expr>), Failure>)
    ensures
        nodes_reading(r) == statements(input.spec_bytes()),
    decreases input.spec_bytes().len(), 2int,
{
    let mut nodes: Vec<Expr> = Vec::new();
    let mut rest = input;
    proof {
        assert(views(nodes@) =~= Seq::<ExprView>::empty());
        lemma_with_empty_front(statements(input.spec_bytes()));
    }
    loop
        invariant
            rest.spec_bytes().len() <= input.spec_bytes().len(),
            statements(input.spec_bytes()) == with_front(
                views(nodes@),
                statements(rest.spec_bytes()),
            ),
        decreases rest.spec_bytes().len(),
    {
        let ghost here = rest.spec_bytes();
        let ghost front = views(nodes@);
        proof {
            lemma_after_space_is_tail(here);
            lemma_statement_fits(after_space(here));
        }
        match parse_expr(skip_space(rest)) {
            Ok((after, node)) => {
                proof {
                    lemma_with_front_push(front, node@, statements(after.spec_bytes()));
                }
                nodes.push(node);
                assert(views(nodes@) =~= front.push(node@));
                rest = after;
            },
            Err(Failure::NoMatch) => {
                proof {
                    assert(front + Seq::<ExprView>::empty() =~= front);
                }
                return Ok((rest, nodes));
            },
            Err(f) => {
                return Err(f);
            },
        }
    }
}

/// Parses a whole text. The tree is given only if statements and whitespace
/// make up all of the text; else the first fault is.
pub fn parse_ast(input: &str) -> (r: Result<Vec<Expr>, ParseError>)
    ensures
        match r {
            Ok(nodes) => program(input.spec_bytes()) == Ok::<_, ParseError>(views(nodes@)),
            Err(e) => program(input.spec_bytes()) == Err::<Seq<ExprView>, _>(e),
        },
{
    let len = input.as_bytes().len();
    proof {
        lemma_statements_fits(input.spec_bytes());
    }
    match parse_statements(input) {
        Ok((rest, nodes)) => {
            let left = skip_space(rest).as_bytes().len();
            proof {
                lemma_after_space_is_tail(rest.spec_bytes());
            }
            if left == 0 {
                Ok(nodes)
            } else {
                Err(ParseError { kind: ParseErrorKind::UnexpectedInput, offset: len - left })
            }
        },
        Err(Failure::OutOfRange { remaining }) => {
            Err(ParseError { kind: ParseErrorKind::NumberOutOfRange, offset: len - remaining })
        },
        Err(Failure::NoMatch) => Err(
            ParseError { kind: ParseErrorKind::UnexpectedInput, offset: 0 },
        ),
    }
}

} // verus!
