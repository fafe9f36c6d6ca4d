//! The grammar of the language, as functions on the bytes of a text.
//!
//! ```text
//! atom       := symbol | string | number | float
//! symbol     := letter+
//! string     := '"' [^"]* '"'
//! number     := '-'? digit+
//! float      := [+-]? digit+ ('.' digit*)? ([eE] [+-]? digit+)?
//! declare    := symbol ws* ":=" ws* atom
//! call       := symbol '(' (ws* atom ws* (',' ws* atom ws*)*)? ')'
//! function   := "fn" ws+ symbol ws* '(' (ws* atom ws* (',' ws* atom ws*)*)? ')'
//!               ws* '{' (ws* statement)* ws* '}'
//! statement  := function | declare | call | atom
//! program    := (ws* statement)* ws*
//! ```
//!
//! Alternatives are tried in the order written and the first that matches is
//! taken; a repetition takes as many items as match. An alternative that does
//! not match leaves the text where it was. Because `number` stands before
//! `float`, a literal such as `-1.5` is read as the number `-1`, and what
//! follows it starts with the dot, which opens no statement: the ordering is
//! kept, and such a text is a parse error. A float is read only where no
//! number starts, that is after a plus sign.
//!
//! Each function takes the text that is left and gives the value it read
//! with the text after it, or the reason why it read nothing.

use crate::ast::{AtomView, ExprView};
use crate::float::{double_reading, fully_read};
use crate::number::{decimal, decimal_text, digits_value};
use crate::text::{lemma_run_shape, run, text, Class};
use vstd::prelude::*;
use vstd::string::StringExecFns;

verus! {

/// The double quote that opens and closes a string.
pub const QUOTE: u8 = 0x22;

/// The round bracket that opens a list.
pub const OPEN_PAREN: u8 = 0x28;

/// The round bracket that closes a list.
pub const CLOSE_PAREN: u8 = 0x29;

/// The plus sign of a float.
pub const PLUS: u8 = 0x2b;

/// The comma between the atoms of a list.
pub const COMMA: u8 = 0x2c;

/// The minus sign of a number or a float.
pub const MINUS: u8 = 0x2d;

/// The dot of a fraction.
pub const DOT: u8 = 0x2e;

/// The first byte of `:=`.
pub const COLON: u8 = 0x3a;

/// The second byte of `:=`.
pub const EQUALS: u8 = 0x3d;

/// `E`, which opens an exponent.
pub const UPPER_E: u8 = 0x45;

/// `e`, which opens an exponent.
pub const LOWER_E: u8 = 0x65;

/// The first byte of `fn`.
pub const LOWER_F: u8 = 0x66;

/// The second byte of `fn`.
pub const LOWER_N: u8 = 0x6e;

/// The curly bracket that opens a body.
pub const OPEN_BRACE: u8 = 0x7b;

/// The curly bracket that closes a body.
pub const CLOSE_BRACE: u8 = 0x7d;

/// Why a construct was not read.
#[derive(Clone, Copy, Debug, PartialEq, Eq)]
pub enum Failure {
    /// The text does not start with the construct. Another alternative may
    /// be tried at the same place.
    NoMatch,
    /// The text starts with a number that a 64-bit signed integer cannot
    /// hold. No alternative is tried; `remaining` is the length of the text
    /// from the number on.
    OutOfRange { remaining: usize },
}

/// A value read at the head of a text, with the text that follows it.
pub type Reading<V> = Result<(Seq<u8>, V), Failure>;

/// `first`, unless it did not match; then `second`.
pub open spec fn either<V>(first: Reading<V>, second: Reading<V>) -> Reading<V> {
    if first == Err::<(Seq<u8>, V), Failure>(Failure::NoMatch) {
        second
    } else {
        first
    }
}

/// `reading` with `front` put before the items it read.
pub open spec fn with_front<V>(front: Seq<V>, reading: Reading<Seq<V>>) -> Reading<Seq<V>> {
    match reading {
        Ok((rest, items)) => Ok((rest, front + items)),
        Err(f) => Err(f),
    }
}

/// Whether the text starts with the byte `b`.
pub open spec fn head_is(s: Seq<u8>, b: u8) -> bool {
    s.len() > 0 && s[0] == b
}

/// Whether the text starts with the bytes `a`, `b`.
pub open spec fn head_is_pair(s: Seq<u8>, a: u8, b: u8) -> bool {
    s.len() > 1 && s[0] == a && s[1] == b
}

/// The text after its leading whitespace.
pub open spec fn after_space(s: Seq<u8>) -> Seq<u8> {
    s.skip(run(s, Class::Space) as int)
}

/// One or more letters.
pub open spec fn name(s: Seq<u8>) -> Reading<Seq<char>> {
    let n = run(s, Class::Letter) as int;
    if n == 0 {
        Err(Failure::NoMatch)
    } else {
        Ok((s.skip(n), text(s.take(n))))
    }
}

/// A name, as an atom.
pub open spec fn symbol(s: Seq<u8>) -> Reading<AtomView> {
    match name(s) {
        Ok((rest, letters)) => Ok((rest, AtomView::Symbol(letters))),
        Err(f) => Err(f),
    }
}

/// A double quote, the text up to the next double quote, and that quote. No
/// escape is known, so the text read holds no double quote.
pub open spec fn string(s: Seq<u8>) -> Reading<AtomView> {
    let inner = s.skip(1);
    let n = run(inner, Class::Unquoted) as int;
    if head_is(s, QUOTE) && n < inner.len() {
        Ok((inner.skip(n + 1), AtomView::String(text(inner.take(n)))))
    } else {
        Err(Failure::NoMatch)
    }
}

/// An optional minus sign and one or more digits, as a 64-bit signed
/// integer. Digits that write a number outside its range are `OutOfRange`.
pub open spec fn number(s: Seq<u8>) -> Reading<AtomView> {
    let sign: int = if head_is(s, MINUS) {
        1
    } else {
        0
    };
    let digits = s.skip(sign);
    let n = run(digits, Class::Digit) as int;
    let magnitude = digits_value(digits.take(n)) as int;
    let value = if sign == 1 {
        -magnitude
    } else {
        magnitude
    };
    if n == 0 {
        Err(Failure::NoMatch)
    } else if i64::MIN <= value <= i64::MAX {
        Ok((digits.skip(n), AtomView::Number(value as i64)))
    } else {
        Err(Failure::OutOfRange { remaining: s.len() as usize })
    }
}

/// Length of an optional sign at the head of the text.
pub open spec fn sign_len(s: Seq<u8>) -> int {
    if head_is(s, PLUS) || head_is(s, MINUS) {
        1
    } else {
        0
    }
}

/// Length of a fraction at the head of the text: a dot and the digits after
/// it, if any. Zero where there is no dot.
pub open spec fn fraction_len(s: Seq<u8>) -> int {
    if head_is(s, DOT) {
        1 + run(s.skip(1), Class::Digit) as int
    } else {
        0
    }
}

/// Length of an exponent at the head of the text: `e` or `E`, an optional
/// sign, and one or more digits. Zero where there is none.
pub open spec fn exponent_len(s: Seq<u8>) -> int {
    let sign = sign_len(s.skip(1));
    let digits = run(s.skip(1 + sign), Class::Digit) as int;
    if (head_is(s, LOWER_E) || head_is(s, UPPER_E)) && digits > 0 {
        1 + sign + digits
    } else {
        0
    }
}

/// Length of the float literal at the head of the text: an optional sign,
/// one or more digits, an optional fraction, an optional exponent. Zero
/// where there is none.
pub open spec fn float_len(s: Seq<u8>) -> int {
    let sign = sign_len(s);
    let whole = run(s.skip(sign), Class::Digit) as int;
    let fraction = fraction_len(s.skip(sign + whole));
    let exponent = exponent_len(s.skip(sign + whole + fraction));
    if whole == 0 {
        0
    } else {
        sign + whole + fraction + exponent
    }
}

/// A float literal, as the bits of the value that the float reader gives for
/// its text.
pub open spec fn float(s: Seq<u8>) -> Reading<AtomView> {
    let n = float_len(s);
    if n == 0 {
        Err(Failure::NoMatch)
    } else {
        match fully_read(double_reading(text(s.take(n)))) {
            Some(bits) => Ok((s.skip(n), AtomView::Float(bits))),
            None => Err(Failure::NoMatch),
        }
    }
}

/// A symbol, else a string, else a number, else a float.
pub open spec fn atom(s: Seq<u8>) -> Reading<AtomView> {
    either(symbol(s), either(string(s), either(number(s), float(s))))
}

/// An atom, as a node.
pub open spec fn constant(s: Seq<u8>) -> Reading<ExprView> {
    match atom(s) {
        Ok((rest, value)) => Ok((rest, ExprView::Constant(value))),
        Err(f) => Err(f),
    }
}

/// A name, `:=` and an atom, with optional whitespace around the `:=`.
pub open spec fn declare(s: Seq<u8>) -> Reading<ExprView> {
    match name(s) {
        Ok((after_name, letters)) => {
            let sign = after_space(after_name);
            if head_is_pair(sign, COLON, EQUALS) {
                match atom(after_space(sign.skip(2))) {
                    Ok((rest, value)) => Ok((rest, ExprView::Declare { name: letters, value })),
                    Err(f) => Err(f),
                }
            } else {
                Err(Failure::NoMatch)
            }
        },
        Err(f) => Err(f),
    }
}

/// The atoms of a list after its first: as often as a comma and an atom
/// follow, that atom, with optional whitespace before and after it. A comma
/// that no atom follows is not taken.
pub open spec fn more_atoms(s: Seq<u8>) -> Reading<Seq<AtomView>>
    decreases s.len(),
{
    if head_is(s, COMMA) {
        match atom(after_space(s.skip(1))) {
            Ok((rest, value)) => {
                proof {
                    lemma_after_space_is_tail(s.skip(1));
                    lemma_atom_fits(after_space(s.skip(1)));
                    lemma_after_space_is_tail(rest);
                }
                with_front(seq![value], more_atoms(after_space(rest)))
            },
            Err(Failure::NoMatch) => Ok((s, Seq::empty())),
            Err(f) => Err(f),
        }
    } else {
        Ok((s, Seq::empty()))
    }
}

/// Atoms separated by commas, with optional whitespace around each atom. An
/// empty list takes nothing, not even whitespace.
pub open spec fn atoms(s: Seq<u8>) -> Reading<Seq<AtomView>> {
    match atom(after_space(s)) {
        Ok((rest, value)) => with_front(seq![value], more_atoms(after_space(rest))),
        Err(Failure::NoMatch) => Ok((s, Seq::empty())),
        Err(f) => Err(f),
    }
}

/// A list of atoms between round brackets.
pub open spec fn atom_list(s: Seq<u8>) -> Reading<Seq<AtomView>> {
    if head_is(s, OPEN_PAREN) {
        match atoms(s.skip(1)) {
            Ok((rest, values)) => if head_is(rest, CLOSE_PAREN) {
                Ok((rest.skip(1), values))
            } else {
                Err(Failure::NoMatch)
            },
            Err(f) => Err(f),
        }
    } else {
        Err(Failure::NoMatch)
    }
}

/// Each atom as a constant node.
pub open spec fn constants(values: Seq<AtomView>) -> Seq<ExprView> {
    Seq::new(values.len(), |i: int| ExprView::Constant(values[i]))
}

/// A name and, directly after it, a list of atoms between round brackets.
pub open spec fn call(s: Seq<u8>) -> Reading<ExprView> {
    match name(s) {
        Ok((after_name, letters)) => match atom_list(after_name) {
            Ok((rest, values)) => Ok(
                (rest, ExprView::Call { name: letters, args: constants(values) }),
            ),
            Err(f) => Err(f),
        },
        Err(f) => Err(f),
    }
}

/// The name and the parameters of a function: a name and a list of atoms
/// between round brackets, with optional whitespace before the list.
pub open spec fn signature(s: Seq<u8>) -> Reading<(Seq<char>, Seq<AtomView>)> {
    match name(s) {
        Ok((after_name, letters)) => match atom_list(after_space(after_name)) {
            Ok((rest, params)) => Ok((rest, (letters, params))),
            Err(f) => Err(f),
        },
        Err(f) => Err(f),
    }
}

/// The head of a function: `fn`, whitespace, and the signature.
pub open spec fn function_head(s: Seq<u8>) -> Reading<(Seq<char>, Seq<AtomView>)> {
    let gap = run(s.skip(2), Class::Space) as int;
    if head_is_pair(s, LOWER_F, LOWER_N) && gap > 0 {
        signature(s.skip(2 + gap))
    } else {
        Err(Failure::NoMatch)
    }
}

/// A function: its head and, between curly brackets, the statements of its
/// body, with optional whitespace before each bracket.
pub open spec fn function(s: Seq<u8>) -> Reading<ExprView>
    decreases s.len(), 0int,
{
    match function_head(s) {
        Ok((after_head, (letters, params))) => {
            let open = after_space(after_head);
            if head_is(open, OPEN_BRACE) {
                proof {
                    lemma_function_head_fits(s);
                    lemma_after_space_is_tail(after_head);
                }
                match statements(open.skip(1)) {
                    Ok((after_body, body)) => {
                        let close = after_space(after_body);
                        if head_is(close, CLOSE_BRACE) {
                            Ok(
                                (
                                    close.skip(1),
                                    ExprView::Function { name: letters, args: params, body },
                                ),
                            )
                        } else {
                            Err(Failure::NoMatch)
                        }
                    },
                    Err(f) => Err(f),
                }
            } else {
                Err(Failure::NoMatch)
            }
        },
        Err(f) => Err(f),
    }
}

/// A function, else a declaration, else a call, else a bare atom.
pub open spec fn statement(s: Seq<u8>) -> Reading<ExprView>
    decreases s.len(), 1int,
{
    either(function(s), either(declare(s), either(call(s), constant(s))))
}

/// As many statements as follow one another, with optional whitespace before
/// each. The whitespace before something that is no statement is not taken.
///
/// A statement takes one byte or more (`lemma_statement_fits`), so the test
/// of the lengths always passes: it is there to show that the definition
/// comes to an end.
pub open spec fn statements(s: Seq<u8>) -> Reading<Seq<ExprView>>
    decreases s.len(), 2int,
{
    proof {
        lemma_after_space_is_tail(s);
    }
    match statement(after_space(s)) {
        Ok((rest, node)) => {
            if rest.len() < s.len() {
                with_front(seq![node], statements(rest))
            } else {
                Ok((s, Seq::empty()))
            }
        },
        Err(Failure::NoMatch) => Ok((s, Seq::empty())),
        Err(f) => Err(f),
    }
}

/// Whether `rest` is what is left of `s` after some of its first bytes.
pub open spec fn is_tail(rest: Seq<u8>, s: Seq<u8>) -> bool {
    rest.len() <= s.len() && rest == s.skip(s.len() - rest.len())
}

/// Whether a reading fits the text it was made on: what it left is a tail of
/// the text, shorter than the text where `strictly` is set, and a number out
/// of range starts inside the text.
pub open spec fn fits<V>(reading: Reading<V>, s: Seq<u8>, strictly: bool) -> bool {
    match reading {
        Ok((rest, _)) => is_tail(rest, s) && (strictly ==> rest.len() < s.len()),
        Err(Failure::NoMatch) => true,
        Err(Failure::OutOfRange { remaining }) => s.len() <= usize::MAX ==> remaining <= s.len(),
    }
}

/// Every text is a tail of itself.
pub proof fn lemma_tail_of_itself(s: Seq<u8>)
    ensures
        is_tail(s, s),
{
    assert(s.skip(0) =~= s);
}

/// A tail of a tail of a text is a tail of that text.
pub proof fn lemma_tail_of_tail(a: Seq<u8>, b: Seq<u8>, c: Seq<u8>)
    requires
        is_tail(a, b),
        is_tail(b, c),
    ensures
        is_tail(a, c),
{
    assert(a =~= c.skip(c.len() - a.len()));
}

/// A reading that fits a tail of a text fits the text.
pub proof fn lemma_fits_tail<V>(reading: Reading<V>, t: Seq<u8>, s: Seq<u8>, strictly: bool)
    requires
        fits(reading, t, strictly),
        is_tail(t, s),
    ensures
        fits(reading, s, strictly),
        t.len() < s.len() ==> fits(reading, s, true),
{
    if let Ok((rest, _)) = reading {
        lemma_tail_of_tail(rest, t, s);
    }
}

/// Skipping bytes of a text leaves a tail of it.
pub proof fn lemma_skip_is_tail(s: Seq<u8>, n: int)
    requires
        0 <= n <= s.len(),
    ensures
        is_tail(s.skip(n), s),
{
}

/// Skipping whitespace leaves a tail of the text.
pub proof fn lemma_after_space_is_tail(s: Seq<u8>)
    ensures
        is_tail(after_space(s), s),
{
    lemma_run_shape(s, Class::Space);
}

/// A name takes one byte or more, and is never out of range.
pub proof fn lemma_name_fits(s: Seq<u8>)
    ensures
        fits(name(s), s, true),
        name(s) is Err ==> name(s) == Err::<(Seq<u8>, Seq<char>), _>(Failure::NoMatch),
{
    lemma_run_shape(s, Class::Letter);
}

/// The length of a float literal lies inside the text.
pub proof fn lemma_float_len_bounds(s: Seq<u8>)
    ensures
        0 <= float_len(s) <= s.len(),
{
    let sign = sign_len(s);
    lemma_run_shape(s.skip(sign), Class::Digit);
    let whole = run(s.skip(sign), Class::Digit) as int;
    let after_whole = s.skip(sign + whole);
    if head_is(after_whole, DOT) {
        lemma_run_shape(after_whole.skip(1), Class::Digit);
    }
    let fraction = fraction_len(after_whole);
    let after_fraction = s.skip(sign + whole + fraction);
    if whole > 0 {
        assert(after_fraction.len() == s.len() - (sign + whole + fraction));
        if head_is(after_fraction, LOWER_E) || head_is(after_fraction, UPPER_E) {
            let inner = sign_len(after_fraction.skip(1));
            lemma_run_shape(after_fraction.skip(1 + inner), Class::Digit);
        }
    }
}

/// An atom takes one byte or more.
pub proof fn lemma_atom_fits(s: Seq<u8>)
    ensures
        fits(atom(s), s, true),
{
    lemma_name_fits(s);
    lemma_run_shape(s.skip(1), Class::Unquoted);
    if head_is(s, QUOTE) {
        let inner = s.skip(1);
        let n = run(inner, Class::Unquoted) as int;
        if n < inner.len() {
            assert(inner.skip(n + 1) =~= s.skip(n + 2));
        }
    }
    let sign: int = if head_is(s, MINUS) {
        1
    } else {
        0
    };
    lemma_run_shape(s.skip(sign), Class::Digit);
    let n = run(s.skip(sign), Class::Digit) as int;
    assert(s.skip(sign).skip(n) =~= s.skip(sign + n));
    lemma_float_len_bounds(s);
}

/// A declaration takes one byte or more.
pub proof fn lemma_declare_fits(s: Seq<u8>)
    ensures
        fits(declare(s), s, true),
{
    lemma_name_fits(s);
    if let Ok((after_name, _)) = name(s) {
        let sign = after_space(after_name);
        lemma_after_space_is_tail(after_name);
        lemma_tail_of_tail(sign, after_name, s);
        if head_is_pair(sign, COLON, EQUALS) {
            let value_at = after_space(sign.skip(2));
            lemma_skip_is_tail(sign, 2);
            lemma_after_space_is_tail(sign.skip(2));
            lemma_tail_of_tail(value_at, sign.skip(2), sign);
            lemma_tail_of_tail(value_at, sign, s);
            lemma_atom_fits(value_at);
            lemma_fits_tail(atom(value_at), value_at, s, true);
        }
    }
}

/// The atoms after the first leave a tail of the text.
pub proof fn lemma_more_atoms_fits(s: Seq<u8>)
    ensures
        fits(more_atoms(s), s, false),
    decreases s.len(),
{
    lemma_tail_of_itself(s);
    if head_is(s, COMMA) {
        let first = after_space(s.skip(1));
        lemma_skip_is_tail(s, 1);
        lemma_after_space_is_tail(s.skip(1));
        lemma_tail_of_tail(first, s.skip(1), s);
        lemma_atom_fits(first);
        lemma_fits_tail(atom(first), first, s, true);
        if let Ok((rest, value)) = atom(first) {
            let next = after_space(rest);
            lemma_after_space_is_tail(rest);
            lemma_tail_of_tail(next, rest, s);
            lemma_more_atoms_fits(next);
            lemma_fits_tail(more_atoms(next), next, s, false);
        }
    }
}

/// The atoms of a list leave a tail of the text.
pub proof fn lemma_atoms_fits(s: Seq<u8>)
    ensures
        fits(atoms(s), s, false),
{
    lemma_tail_of_itself(s);
    let first = after_space(s);
    lemma_after_space_is_tail(s);
    lemma_atom_fits(first);
    lemma_fits_tail(atom(first), first, s, true);
    if let Ok((rest, value)) = atom(first) {
        let next = after_space(rest);
        lemma_after_space_is_tail(rest);
        lemma_tail_of_tail(next, rest, s);
        lemma_more_atoms_fits(next);
        lemma_fits_tail(more_atoms(next), next, s, false);
    }
}

/// A list of atoms between round brackets takes one byte or more.
pub proof fn lemma_atom_list_fits(s: Seq<u8>)
    ensures
        fits(atom_list(s), s, true),
{
    if head_is(s, OPEN_PAREN) {
        let inner = s.skip(1);
        lemma_skip_is_tail(s, 1);
        lemma_atoms_fits(inner);
        lemma_fits_tail(atoms(inner), inner, s, false);
        if let Ok((rest, values)) = atoms(inner) {
            if head_is(rest, CLOSE_PAREN) {
                lemma_skip_is_tail(rest, 1);
                lemma_tail_of_tail(rest.skip(1), rest, s);
            }
        }
    }
}

/// A call takes one byte or more.
pub proof fn lemma_call_fits(s: Seq<u8>)
    ensures
        fits(call(s), s, true),
{
    lemma_name_fits(s);
    if let Ok((after_name, _)) = name(s) {
        lemma_atom_list_fits(after_name);
        lemma_fits_tail(atom_list(after_name), after_name, s, true);
    }
}

/// A signature takes one byte or more.
pub proof fn lemma_signature_fits(s: Seq<u8>)
    ensures
        fits(signature(s), s, true),
{
    lemma_name_fits(s);
    if let Ok((after_name, _)) = name(s) {
        let at_list = after_space(after_name);
        lemma_after_space_is_tail(after_name);
        lemma_tail_of_tail(at_list, after_name, s);
        lemma_atom_list_fits(at_list);
        lemma_fits_tail(atom_list(at_list), at_list, s, true);
    }
}

/// The head of a function takes one byte or more.
pub proof fn lemma_function_head_fits(s: Seq<u8>)
    ensures
        fits(function_head(s), s, true),
{
    let gap = run(s.skip(2), Class::Space) as int;
    if head_is_pair(s, LOWER_F, LOWER_N) && gap > 0 {
        lemma_run_shape(s.skip(2), Class::Space);
        let at_name = s.skip(2 + gap);
        lemma_skip_is_tail(s, 2 + gap);
        lemma_signature_fits(at_name);
        lemma_fits_tail(signature(at_name), at_name, s, true);
    }
}

/// A function takes one byte or more.
pub proof fn lemma_function_fits(s: Seq<u8>)
    ensures
        fits(function(s), s, true),
    decreases s.len(), 0int,
{
    lemma_function_head_fits(s);
    if let Ok((after_head, _)) = function_head(s) {
        let open = after_space(after_head);
        lemma_after_space_is_tail(after_head);
        lemma_tail_of_tail(open, after_head, s);
        if head_is(open, OPEN_BRACE) {
            let inner = open.skip(1);
            lemma_skip_is_tail(open, 1);
            lemma_tail_of_tail(inner, open, s);
            lemma_statements_fits(inner);
            lemma_fits_tail(statements(inner), inner, s, false);
            if let Ok((after_body, _)) = statements(inner) {
                let close = after_space(after_body);
                lemma_after_space_is_tail(after_body);
                lemma_tail_of_tail(close, after_body, s);
                if head_is(close, CLOSE_BRACE) {
                    lemma_skip_is_tail(close, 1);
                    lemma_tail_of_tail(close.skip(1), close, s);
                }
            }
        }
    }
}

/// A statement takes one byte or more.
pub proof fn lemma_statement_fits(s: Seq<u8>)
    ensures
        fits(statement(s), s, true),
    decreases s.len(), 1int,
{
    lemma_function_fits(s);
    lemma_declare_fits(s);
    lemma_call_fits(s);
    lemma_atom_fits(s);
}

/// Statements leave a tail of the text, and never fail to match: a text
/// without a statement at its head has the empty sequence of statements.
pub proof fn lemma_statements_fits(s: Seq<u8>)
    ensures
        fits(statements(s), s, false),
        statements(s) != Err::<(Seq<u8>, Seq<ExprView>), _>(Failure::NoMatch),
    decreases s.len(), 2int,
{
    lemma_tail_of_itself(s);
    let start = after_space(s);
    lemma_after_space_is_tail(s);
    lemma_statement_fits(start);
    lemma_fits_tail(statement(start), start, s, true);
    if let Ok((rest, _)) = statement(start) {
        lemma_statements_fits(rest);
        lemma_fits_tail(statements(rest), rest, s, false);
    }
}

/// A name that is not the start of a function, and that neither a round
/// bracket nor, after optional whitespace, `:=` follows, is a statement of
/// its own: the bare symbol of that name, never a call or a declaration. No
/// text is the start of a function unless it starts with `fn` and
/// whitespace.
pub proof fn lemma_bare_name_is_symbol(s: Seq<u8>)
    requires
        name(s) is Ok,
        !head_is(name(s).unwrap().0, OPEN_PAREN),
        !head_is_pair(after_space(name(s).unwrap().0), COLON, EQUALS),
        function(s) == Err::<(Seq<u8>, ExprView), _>(Failure::NoMatch),
    ensures
        statement(s) == Ok::<_, Failure>(
            (name(s).unwrap().0, ExprView::Constant(AtomView::Symbol(name(s).unwrap().1))),
        ),
        !(head_is_pair(s, LOWER_F, LOWER_N) && run(s.skip(2), Class::Space) > 0) ==> function(s)
            == Err::<(Seq<u8>, ExprView), _>(Failure::NoMatch),
{
}

/// What is wrong with a text that is no program.
#[derive(Clone, Copy, Debug, PartialEq, Eq)]
pub enum ParseErrorKind {
    /// No statement starts at the offset.
    UnexpectedInput,
    /// The number at the offset does not fit a 64-bit signed integer.
    NumberOutOfRange,
}

impl ParseErrorKind {
    /// The kind in words.
    pub open spec fn words(self) -> Seq<char> {
        match self {
            ParseErrorKind::UnexpectedInput => "unexpected input"@,
            ParseErrorKind::NumberOutOfRange => "number out of range"@,
        }
    }
}

/// The first fault of a text, with its offset in bytes from the start.
#[derive(Clone, Copy, Debug, PartialEq, Eq)]
pub struct ParseError {
    pub kind: ParseErrorKind,
    pub offset: usize,
}

impl ParseError {
    /// The fault in words: `Failed to parse file: `, the kind, ` at byte `
    /// and the offset in decimal.
    pub open spec fn words(self) -> Seq<char> {
        "Failed to parse file: "@ + self.kind.words() + " at byte "@ + decimal(self.offset as nat)
    }

    /// Writes the fault in words.
    pub fn message(&self) -> (r: String)
        ensures
            r@ == self.words(),
    {
        let kind = match self.kind {
            ParseErrorKind::UnexpectedInput => "unexpected input",
            ParseErrorKind::NumberOutOfRange => "number out of range",
        };
        String::from_str("Failed to parse file: ").concat(kind).concat(" at byte ").concat(
            decimal_text(self.offset).as_str(),
        )
    }
}

/// A program: the statements of the text, which they and the whitespace
/// around them make up entirely. No tree is given for a text with a fault,
/// whatever stands before the fault.
pub open spec fn program(s: Seq<u8>) -> Result<Seq<ExprView>, ParseError> {
    match statements(s) {
        Ok((rest, nodes)) => {
            let end = after_space(rest);
            if end.len() == 0 {
                Ok(nodes)
            } else {
                Err(
                    ParseError {
                        kind: ParseErrorKind::UnexpectedInput,
                        offset: (s.len() - end.len()) as usize,
                    },
                )
            }
        },
        Err(Failure::OutOfRange { remaining }) => Err(
            ParseError {
                kind: ParseErrorKind::NumberOutOfRange,
                offset: (s.len() - remaining) as usize,
            },
        ),
        Err(Failure::NoMatch) => Err(
            ParseError { kind: ParseErrorKind::UnexpectedInput, offset: 0 },
        ),
    }
}

} // verus!
