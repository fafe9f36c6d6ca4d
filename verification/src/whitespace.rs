//! Whitespace between the parts of a program does not matter.
//!
//! A run of whitespace that stands outside every string may be made longer
//! or shorter, as long as one byte of it stays; whitespace may be put before
//! a program or after it, or taken away there; and whitespace may be put
//! between two bytes, or taken away from between them, where the two are
//! `loose`. The tree stays the same.
//!
//! Two bytes are not loose where whitespace between them may tell: inside a
//! name or a number (`ab` is one name where `a b` is two), before a round
//! bracket (`f()` is a call and `f ()` is not), inside an empty list (`f( )`
//! is no call at all), and inside `:=`.

use crate::ast::{AtomView, ExprView};
use crate::grammar::{
    after_space, atom, atom_list, atoms, call, declare, exponent_len, float, float_len,
    fraction_len, function, function_head, head_is, head_is_pair, lemma_after_space_is_tail,
    lemma_atom_fits, lemma_function_head_fits, lemma_name_fits, lemma_statement_fits,
    lemma_statements_fits, more_atoms, name, number, program, sign_len, signature, statement,
    statements, string, with_front, Failure, Reading, CLOSE_BRACE, CLOSE_PAREN, COLON, COMMA,
    DOT, EQUALS, LOWER_E, LOWER_F, LOWER_N, MINUS, OPEN_BRACE, OPEN_PAREN, PLUS, QUOTE, UPPER_E,
};
use crate::text::{lemma_run_is, lemma_run_shape, run, Class};
use vstd::prelude::*;

verus! {

/// Whether every byte of `w` is whitespace.
pub open spec fn is_space(w: Seq<u8>) -> bool {
    forall|i: int| 0 <= i < w.len() ==> Class::Space.holds(#[trigger] w[i])
}

/// The number of double quotes in a text.
pub open spec fn quotes(s: Seq<u8>) -> nat
    decreases s.len(),
{
    if s.len() == 0 {
        0
    } else {
        quotes(s.drop_last()) + if s.last() == QUOTE {
            1nat
        } else {
            0nat
        }
    }
}

/// Whether the end of `s` lies outside every string, given that its start
/// does: the double quotes in `s` come in pairs.
pub open spec fn outside_strings(s: Seq<u8>) -> bool {
    quotes(s) % 2 == 0
}

/// Whether `c` may stand in a name or in a number: a letter, a digit, a
/// sign or a dot.
pub open spec fn is_word(c: u8) -> bool {
    Class::Letter.holds(c) || Class::Digit.holds(c) || c == PLUS || c == MINUS || c == DOT
}

/// Whether whitespace between a byte `x` and a byte `y` after it tells
/// nothing. It may tell between two bytes of a name or a number, before an
/// opening round bracket, between the two brackets of an empty list, and
/// between the colon and the equals sign of `:=`.
pub open spec fn loose(x: u8, y: u8) -> bool {
    &&& !(is_word(x) && is_word(y))
    &&& y != OPEN_PAREN
    &&& !(x == OPEN_PAREN && y == CLOSE_PAREN)
    &&& !(x == COLON && y == EQUALS)
}

/// A place in a text where whitespace is changed: the byte before the
/// place, the whitespace there in the one text and in the other, and what
/// follows it in both.
struct Gap {
    before: u8,
    w1: Seq<u8>,
    w2: Seq<u8>,
    after: Seq<u8>,
}

impl Gap {
    /// Whether both texts have whitespace at the place, or end there: then
    /// nothing that ends before the place runs on after it.
    spec fn firm(self) -> bool {
        (self.w1.len() > 0 && self.w2.len() > 0) || self.after.len() == 0
    }

    /// Whether the change is one that the tree does not tell: whitespace in
    /// both texts, and a firm place or loose bytes around it.
    spec fn ok(self) -> bool {
        &&& is_space(self.w1)
        &&& is_space(self.w2)
        &&& self.firm() || loose(self.before, self.after[0])
    }
}

/// The length of what stands before the place in a text that goes on to it.
spec fn front_len(t1: Seq<u8>, g: Gap) -> int {
    t1.len() - g.w1.len() - g.after.len()
}

/// Whether two texts are in step: they are the same, or they are one front,
/// which ends outside every string and in the byte before the place, with
/// `w1` and what follows after it in the first and `w2` and what follows
/// after it in the second.
spec fn in_step(t1: Seq<u8>, t2: Seq<u8>, g: Gap) -> bool {
    let n = front_len(t1, g);
    ||| t1 == t2
    ||| {
        &&& n >= 0
        &&& outside_strings(t1.take(n))
        &&& t1 == t1.take(n) + g.w1 + g.after
        &&& t2 == t1.take(n) + g.w2 + g.after
        &&& n > 0 ==> t1[n - 1] == g.before
    }
}

/// Whether two texts in step start at a place that is not firm: one starts
/// with what follows the place, the other with whitespace.
spec fn pending(t1: Seq<u8>, t2: Seq<u8>, g: Gap) -> bool {
    t1 != t2 && front_len(t1, g) == 0 && !g.firm()
}

/// Whether two texts are in step and do not start at a place that is not
/// firm.
spec fn settled(t1: Seq<u8>, t2: Seq<u8>, g: Gap) -> bool {
    in_step(t1, t2, g) && !pending(t1, t2, g)
}

/// Whether two readings are alike: the same value with the rests in step, or
/// the same kind of failure.
spec fn alike<V>(r1: Reading<V>, r2: Reading<V>, g: Gap) -> bool {
    match (r1, r2) {
        (Ok((rest1, v1)), Ok((rest2, v2))) => v1 == v2 && in_step(rest1, rest2, g),
        (Err(Failure::NoMatch), Err(Failure::NoMatch)) => true,
        (Err(Failure::OutOfRange { .. }), Err(Failure::OutOfRange { .. })) => true,
        _ => false,
    }
}

/// A run of `x` that ends inside `x` is the run of `x + y`; one that takes
/// all of `x` goes on with the run of `y`.
proof fn lemma_run_concat(x: Seq<u8>, y: Seq<u8>, class: Class)
    ensures
        run(x + y, class) == if run(x, class) < x.len() {
            run(x, class)
        } else {
            x.len() + run(y, class)
        },
    decreases x.len(),
{
    if x.len() == 0 {
        assert(x + y =~= y);
    } else {
        assert((x + y).skip(1) =~= x.skip(1) + y);
        assert((x + y)[0] == x[0]);
        lemma_run_concat(x.skip(1), y, class);
    }
}

/// The double quotes of two texts joined are those of the one and those of
/// the other.
proof fn lemma_quotes_concat(x: Seq<u8>, y: Seq<u8>)
    ensures
        quotes(x + y) == quotes(x) + quotes(y),
    decreases y.len(),
{
    if y.len() == 0 {
        assert(x + y =~= x);
    } else {
        assert((x + y).drop_last() =~= x + y.drop_last());
        lemma_quotes_concat(x, y.drop_last());
    }
}

/// A text without a double quote has none.
proof fn lemma_no_quotes(x: Seq<u8>)
    requires
        forall|i: int| 0 <= i < x.len() ==> #[trigger] x[i] != QUOTE,
    ensures
        quotes(x) == 0,
    decreases x.len(),
{
    if x.len() > 0 {
        assert forall|i: int| 0 <= i < x.drop_last().len() implies #[trigger] x.drop_last()[i]
            != QUOTE by {
            assert(x.drop_last()[i] == x[i]);
        }
        lemma_no_quotes(x.drop_last());
    }
}

/// A text with a double quote in it has an unquoted run that ends inside it.
proof fn lemma_quote_ends_run(x: Seq<u8>)
    requires
        quotes(x) > 0,
    ensures
        run(x, Class::Unquoted) < x.len(),
{
    lemma_run_shape(x, Class::Unquoted);
    if run(x, Class::Unquoted) >= x.len() {
        lemma_no_quotes(x);
    }
}

/// What two different texts in step look like: the first is a front with
/// `w1` and what follows after it, the second is that front with `w2` and
/// what follows after it.
proof fn lemma_in_step_parts(t1: Seq<u8>, t2: Seq<u8>, g: Gap)
    requires
        in_step(t1, t2, g),
        t1 != t2,
    ensures
        front_len(t1, g) >= 0,
        t1 == t1.take(front_len(t1, g)) + (g.w1 + g.after),
        t2 == t1.take(front_len(t1, g)) + (g.w2 + g.after),
        t2.len() - g.w2.len() - g.after.len() == front_len(t1, g),
{
    let a = t1.take(front_len(t1, g));
    assert(a + g.w1 + g.after =~= a + (g.w1 + g.after));
    assert(a + g.w2 + g.after =~= a + (g.w2 + g.after));
}

/// Taking `n` bytes off two texts in step, all of them from the front and
/// with their double quotes in pairs, leaves the texts in step. They are
/// settled while some of the front is left; where none is left, the last
/// byte taken is the byte before the place.
#[verifier::rlimit(50)]
proof fn lemma_front_taken(t1: Seq<u8>, t2: Seq<u8>, g: Gap, n: int)
    requires
        in_step(t1, t2, g),
        t1 != t2,
        0 <= n <= front_len(t1, g),
        outside_strings(t1.take(n)),
    ensures
        in_step(t1.skip(n), t2.skip(n), g),
        t1.take(n) == t2.take(n),
        n < front_len(t1, g) ==> settled(t1.skip(n), t2.skip(n), g),
        n > 0 && pending(t1.skip(n), t2.skip(n), g) ==> t1[n - 1] == g.before,
        n == 0 ==> pending(t1.skip(n), t2.skip(n), g) == pending(t1, t2, g),
{
    let m = front_len(t1, g);
    let a = t1.take(m);
    let left = front_len(t1.skip(n), g);
    assert(left == m - n);
    assert(t1.skip(n).take(left) =~= a.skip(n));
    assert(t1.skip(n) =~= a.skip(n) + g.w1 + g.after);
    assert(t2.skip(n) =~= a.skip(n) + g.w2 + g.after);
    assert(t1.take(n) =~= a.take(n));
    assert(t2.take(n) =~= a.take(n));
    assert(a =~= a.take(n) + a.skip(n));
    lemma_quotes_concat(a.take(n), a.skip(n));
    if n == 0 {
        assert(t1.skip(0) =~= t1);
        assert(t2.skip(0) =~= t2);
    }
    if left > 0 {
        assert(t1.skip(n)[left - 1] == t1[m - 1]);
    }
}

/// What stands at the head of a text that is made of whitespace and of what
/// follows it.
proof fn lemma_head_of_tail(w: Seq<u8>, b: Seq<u8>)
    requires
        is_space(w),
    ensures
        w.len() > 0 ==> (w + b).len() > 0 && Class::Space.holds((w + b)[0]),
        w.len() == 0 ==> w + b == b,
{
    if w.len() > 0 {
        assert((w + b)[0] == w[0]);
    } else {
        assert(w + b =~= b);
    }
}

/// Skipping whitespace takes all of a run of whitespace and goes on in what
/// follows it.
proof fn lemma_space_through(w: Seq<u8>, b: Seq<u8>)
    requires
        is_space(w),
    ensures
        after_space(w + b) == after_space(b),
        run(w + b, Class::Space) == w.len() + run(b, Class::Space),
{
    lemma_run_concat(w, b, Class::Space);
    lemma_run_is(w, Class::Space, w.len() as int);
    lemma_run_shape(b, Class::Space);
    assert(after_space(w + b) =~= after_space(b));
}

/// Whitespace is skipped alike in two texts in step, and the texts after it
/// are settled. It is there in both or in neither, unless the texts after it
/// are the same; and then no name starts them where the byte before the
/// place may stand in a name.
#[verifier::rlimit(50)]
proof fn lemma_space_in_step(t1: Seq<u8>, t2: Seq<u8>, g: Gap)
    requires
        in_step(t1, t2, g),
        g.ok(),
    ensures
        settled(after_space(t1), after_space(t2), g),
        (run(t1, Class::Space) > 0) == (run(t2, Class::Space) > 0) || {
            &&& after_space(t1) == after_space(t2)
            &&& front_len(t1, g) == 0
            &&& pending(t1, t2, g) && is_word(g.before) ==> name(after_space(t1)) is Err
            &&& !pending(t1, t2, g) ==> after_space(t1).len() == 0
        },
{
    if t1 != t2 {
        lemma_in_step_parts(t1, t2, g);
        let a = t1.take(front_len(t1, g));
        let n = run(a, Class::Space) as int;
        lemma_run_shape(a, Class::Space);
        lemma_run_concat(a, g.w1 + g.after, Class::Space);
        lemma_run_concat(a, g.w2 + g.after, Class::Space);
        if n < a.len() {
            assert forall|i: int| 0 <= i < a.take(n).len() implies #[trigger] a.take(n)[i]
                != QUOTE by {
                assert(Class::Space.holds(a[i]));
            }
            lemma_no_quotes(a.take(n));
            assert(t1.take(n) =~= a.take(n));
            lemma_front_taken(t1, t2, g, n);
        } else {
            lemma_space_through(g.w1, g.after);
            lemma_space_through(g.w2, g.after);
            lemma_run_shape(g.after, Class::Space);
            let r = run(g.after, Class::Space) as int;
            assert(after_space(t1) =~= g.after.skip(r));
            assert(after_space(t2) =~= g.after.skip(r));
            if a.len() == 0 {
                assert(t1 =~= g.w1 + g.after);
                assert(t2 =~= g.w2 + g.after);
                if pending(t1, t2, g) && is_word(g.before) && r == 0 {
                    assert(g.after.skip(0) =~= g.after);
                    lemma_run_shape(g.after, Class::Letter);
                }
                if pending(t1, t2, g) && is_word(g.before) && r > 0 {
                    lemma_run_shape(g.after.skip(r), Class::Letter);
                    if g.after.skip(r).len() > 0 {
                        assert(!Class::Space.holds(g.after.skip(r)[0]));
                    }
                }
            }
        }
    }
}

/// A byte that is no whitespace and no double quote stands at the head of
/// both texts in step or of neither, unless it is the byte that follows a
/// place that is not firm, at which the texts start. The texts after the
/// byte are in step; where they start at such a place, the byte is the byte
/// before the place.
proof fn lemma_head_in_step(t1: Seq<u8>, t2: Seq<u8>, g: Gap, c: u8)
    requires
        in_step(t1, t2, g),
        g.ok(),
        !Class::Space.holds(c),
        c != QUOTE,
        pending(t1, t2, g) ==> g.after[0] != c,
    ensures
        head_is(t1, c) == head_is(t2, c),
        head_is(t1, c) ==> in_step(t1.skip(1), t2.skip(1), g) && t1.take(1) == t2.take(1),
        head_is(t1, c) && pending(t1.skip(1), t2.skip(1), g) ==> g.before == c,
{
    if t1 != t2 {
        lemma_in_step_parts(t1, t2, g);
        let a = t1.take(front_len(t1, g));
        if a.len() > 0 {
            assert(t1[0] == a[0] && t2[0] == a[0]);
            if a[0] == c {
                assert(t1.take(1) =~= seq![c]);
                assert(t2.take(1) =~= seq![c]);
                lemma_no_quotes(seq![c]);
                lemma_front_taken(t1, t2, g, 1);
            }
        } else {
            assert(t1 =~= g.w1 + g.after);
            assert(t2 =~= g.w2 + g.after);
            lemma_head_of_tail(g.w1, g.after);
            lemma_head_of_tail(g.w2, g.after);
        }
    }
}

/// Two bytes between which whitespace tells stand at the head of both
/// settled texts or of neither. The texts after them are in step; where
/// they start at a place that is not firm, the second byte is the byte
/// before the place.
#[verifier::rlimit(50)]
proof fn lemma_pair_in_step(t1: Seq<u8>, t2: Seq<u8>, g: Gap, c: u8, d: u8)
    requires
        settled(t1, t2, g),
        g.ok(),
        !Class::Space.holds(c),
        !Class::Space.holds(d),
        c != QUOTE,
        d != QUOTE,
        !loose(c, d),
    ensures
        head_is_pair(t1, c, d) == head_is_pair(t2, c, d),
        head_is_pair(t1, c, d) ==> in_step(t1.skip(2), t2.skip(2), g),
        head_is_pair(t1, c, d) && pending(t1.skip(2), t2.skip(2), g) ==> g.before == d,
{
    lemma_head_in_step(t1, t2, g, c);
    if head_is(t1, c) {
        lemma_head_in_step(t1.skip(1), t2.skip(1), g, d);
        assert(t1.len() > 1 ==> t1.skip(1)[0] == t1[1]);
        assert(t2.len() > 1 ==> t2.skip(1)[0] == t2[1]);
        if head_is(t1.skip(1), d) {
            assert(t1.skip(1).skip(1) =~= t1.skip(2));
            assert(t2.skip(1).skip(1) =~= t2.skip(2));
        }
    }
}

/// Whether two texts are in step inside a name or a number: where they
/// start at a place that is not firm, the byte before the place may stand in
/// a name or a number, so that the byte after it may not.
spec fn word_step(t1: Seq<u8>, t2: Seq<u8>, g: Gap) -> bool {
    in_step(t1, t2, g) && (pending(t1, t2, g) ==> is_word(g.before))
}

/// Whether the first `n` bytes of two texts are the same and the texts
/// after them are in step inside a name or a number.
spec fn cut_alike(t1: Seq<u8>, t2: Seq<u8>, n: int, g: Gap) -> bool {
    &&& 0 <= n <= t1.len()
    &&& n <= t2.len()
    &&& t1.take(n) == t2.take(n)
    &&& word_step(t1.skip(n), t2.skip(n), g)
}

/// Two cuts one after the other are one cut.
#[verifier::rlimit(50)]
proof fn lemma_cut_twice(t1: Seq<u8>, t2: Seq<u8>, n: int, m: int, g: Gap)
    requires
        cut_alike(t1, t2, n, g),
        cut_alike(t1.skip(n), t2.skip(n), m, g),
    ensures
        cut_alike(t1, t2, n + m, g),
{
    assert(t1.skip(n).skip(m) =~= t1.skip(n + m));
    assert(t2.skip(n).skip(m) =~= t2.skip(n + m));
    assert(t1.take(n + m) =~= t1.take(n) + t1.skip(n).take(m));
    assert(t2.take(n + m) =~= t2.take(n) + t2.skip(n).take(m));
}

/// Nothing cut off leaves two texts as they are.
proof fn lemma_cut_nothing(t1: Seq<u8>, t2: Seq<u8>, g: Gap)
    requires
        word_step(t1, t2, g),
    ensures
        cut_alike(t1, t2, 0, g),
{
    assert(t1.skip(0) =~= t1);
    assert(t2.skip(0) =~= t2);
    assert(t1.take(0) =~= t2.take(0));
}

/// A run of letters or of digits is the same at the head of two texts in
/// step inside a name or a number.
proof fn lemma_run_in_step(t1: Seq<u8>, t2: Seq<u8>, g: Gap, class: Class)
    requires
        word_step(t1, t2, g),
        g.ok(),
        class == Class::Letter || class == Class::Digit,
    ensures
        run(t1, class) == run(t2, class),
        cut_alike(t1, t2, run(t1, class) as int, g),
{
    lemma_run_shape(t1, class);
    if t1 != t2 {
        lemma_in_step_parts(t1, t2, g);
        let a = t1.take(front_len(t1, g));
        let n = run(a, class) as int;
        lemma_run_shape(a, class);
        lemma_run_concat(a, g.w1 + g.after, class);
        lemma_run_concat(a, g.w2 + g.after, class);
        lemma_head_of_tail(g.w1, g.after);
        lemma_head_of_tail(g.w2, g.after);
        // Where the run takes all of the front, the byte before the place is
        // of the class, so the byte after the place is not.
        if n == a.len() {
            if a.len() > 0 {
                assert(class.holds(a[n - 1]));
                assert(a[n - 1] == t1[n - 1]);
            }
            assert(is_word(g.before) || g.firm());
            assert(run(g.w1 + g.after, class) == 0);
            assert(run(g.w2 + g.after, class) == 0);
        }
        assert(t1.take(n) =~= a.take(n));
        assert forall|i: int| 0 <= i < a.take(n).len() implies #[trigger] a.take(n)[i]
            != QUOTE by {
            assert(class.holds(a[i]));
        }
        lemma_no_quotes(a.take(n));
        lemma_front_taken(t1, t2, g, n);
    }
}

/// A sign, a dot or a letter, where it stands at the head, is cut off two
/// texts in step inside a name or a number alike.
proof fn lemma_head_cut(t1: Seq<u8>, t2: Seq<u8>, g: Gap, c: u8)
    requires
        word_step(t1, t2, g),
        g.ok(),
        is_word(c),
    ensures
        head_is(t1, c) == head_is(t2, c),
        head_is(t1, c) ==> cut_alike(t1, t2, 1, g),
{
    lemma_head_in_step(t1, t2, g, c);
}

/// A name is read alike from two settled texts.
proof fn lemma_name_in_step(t1: Seq<u8>, t2: Seq<u8>, g: Gap)
    requires
        settled(t1, t2, g),
        g.ok(),
    ensures
        alike(name(t1), name(t2), g),
        name(t1) matches Ok((rest1, _)) ==> name(t2) matches Ok((rest2, _)) ==> (pending(
            rest1,
            rest2,
            g,
        ) ==> is_word(g.before)),
{
    lemma_run_in_step(t1, t2, g, Class::Letter);
}

/// A front that starts with a double quote and ends outside every string
/// holds the whole string: the quote, a text without quotes that ends inside
/// the front, and the closing quote.
proof fn lemma_string_in_front(a: Seq<u8>)
    requires
        a.len() > 0,
        a[0] == QUOTE,
        outside_strings(a),
    ensures
        run(a.skip(1), Class::Unquoted) + 2 <= a.len(),
        outside_strings(a.take(run(a.skip(1), Class::Unquoted) as int + 2)),
{
    let inner = a.skip(1);
    assert(a =~= seq![QUOTE] + inner);
    lemma_quotes_concat(seq![QUOTE], inner);
    assert(quotes(seq![QUOTE]) == 1) by {
        assert(seq![QUOTE].drop_last() =~= Seq::<u8>::empty());
        assert(quotes(Seq::<u8>::empty()) == 0);
    }
    lemma_quote_ends_run(inner);
    let m = run(inner, Class::Unquoted) as int;
    lemma_run_shape(inner, Class::Unquoted);
    // The string is a quote, a text without quotes, and a quote: two quotes
    // in all.
    let taken = a.take(m + 2);
    assert(taken =~= seq![QUOTE] + inner.take(m) + seq![QUOTE]) by {
        assert(inner[m] == QUOTE);
        assert(a[m + 1] == inner[m]);
    }
    assert forall|i: int| 0 <= i < inner.take(m).len() implies #[trigger] inner.take(m)[i]
        != QUOTE by {
        assert(Class::Unquoted.holds(inner[i]));
    }
    lemma_no_quotes(inner.take(m));
    lemma_quotes_concat(seq![QUOTE], inner.take(m));
    lemma_quotes_concat(seq![QUOTE] + inner.take(m), seq![QUOTE]);
}

/// A string is read alike from two settled texts.
#[verifier::rlimit(50)]
proof fn lemma_string_in_step(t1: Seq<u8>, t2: Seq<u8>, g: Gap)
    requires
        settled(t1, t2, g),
        g.ok(),
    ensures
        alike(string(t1), string(t2), g),
{
    if t1 != t2 {
        lemma_in_step_parts(t1, t2, g);
        let a = t1.take(front_len(t1, g));
        if a.len() == 0 {
            assert(t1 =~= g.w1 + g.after);
            assert(t2 =~= g.w2 + g.after);
            lemma_head_of_tail(g.w1, g.after);
            lemma_head_of_tail(g.w2, g.after);
            assert(!head_is(t1, QUOTE) && !head_is(t2, QUOTE));
        } else {
            assert(t1[0] == a[0] && t2[0] == a[0]);
            if a[0] == QUOTE {
                lemma_string_in_front(a);
                let inner = a.skip(1);
                let m = run(inner, Class::Unquoted) as int;
                assert(t1.skip(1) =~= inner + (g.w1 + g.after));
                assert(t2.skip(1) =~= inner + (g.w2 + g.after));
                lemma_run_concat(inner, g.w1 + g.after, Class::Unquoted);
                lemma_run_concat(inner, g.w2 + g.after, Class::Unquoted);
                assert(run(t1.skip(1), Class::Unquoted) == m);
                assert(run(t2.skip(1), Class::Unquoted) == m);
                assert(t1.skip(1).take(m) =~= inner.take(m));
                assert(t2.skip(1).take(m) =~= inner.take(m));
                assert(t1.skip(1).skip(m + 1) =~= t1.skip(m + 2));
                assert(t2.skip(1).skip(m + 1) =~= t2.skip(m + 2));
                assert(t1.take(m + 2) =~= a.take(m + 2));
                lemma_front_taken(t1, t2, g, m + 2);
            } else {
                assert(!head_is(t1, QUOTE) && !head_is(t2, QUOTE));
            }
        }
    }
}

/// The digits of a number are the same at the head of two texts in step
/// inside a number, and so is what they are read as.
proof fn lemma_digits_in_step(d1: Seq<u8>, d2: Seq<u8>, g: Gap)
    requires
        word_step(d1, d2, g),
        g.ok(),
    ensures
        run(d1, Class::Digit) == run(d2, Class::Digit),
        d1.take(run(d1, Class::Digit) as int) == d2.take(run(d1, Class::Digit) as int),
        in_step(d1.skip(run(d1, Class::Digit) as int), d2.skip(run(d1, Class::Digit) as int), g),
{
    lemma_run_in_step(d1, d2, g, Class::Digit);
}

/// A number is read alike from two settled texts.
#[verifier::rlimit(50)]
proof fn lemma_number_in_step(t1: Seq<u8>, t2: Seq<u8>, g: Gap)
    requires
        settled(t1, t2, g),
        g.ok(),
    ensures
        alike(number(t1), number(t2), g),
{
    lemma_head_cut(t1, t2, g, MINUS);
    if head_is(t1, MINUS) {
        lemma_digits_in_step(t1.skip(1), t2.skip(1), g);
    } else {
        assert(t1.skip(0) =~= t1);
        assert(t2.skip(0) =~= t2);
        lemma_digits_in_step(t1, t2, g);
    }
}

/// The sign of a float literal is the same in two texts in step inside a
/// number.
proof fn lemma_sign_in_step(t1: Seq<u8>, t2: Seq<u8>, g: Gap)
    requires
        word_step(t1, t2, g),
        g.ok(),
    ensures
        sign_len(t1) == sign_len(t2),
        cut_alike(t1, t2, sign_len(t1), g),
{
    lemma_head_cut(t1, t2, g, PLUS);
    lemma_head_cut(t1, t2, g, MINUS);
    lemma_cut_nothing(t1, t2, g);
}

/// The fraction of a float literal is the same in two texts in step inside
/// a number.
proof fn lemma_fraction_in_step(t1: Seq<u8>, t2: Seq<u8>, g: Gap)
    requires
        word_step(t1, t2, g),
        g.ok(),
    ensures
        fraction_len(t1) == fraction_len(t2),
        cut_alike(t1, t2, fraction_len(t1), g),
{
    lemma_head_cut(t1, t2, g, DOT);
    lemma_cut_nothing(t1, t2, g);
    if head_is(t1, DOT) {
        lemma_run_in_step(t1.skip(1), t2.skip(1), g, Class::Digit);
        lemma_cut_twice(t1, t2, 1, run(t1.skip(1), Class::Digit) as int, g);
    }
}

/// The exponent of a float literal is the same in two texts in step inside
/// a number.
proof fn lemma_exponent_in_step(t1: Seq<u8>, t2: Seq<u8>, g: Gap)
    requires
        word_step(t1, t2, g),
        g.ok(),
    ensures
        exponent_len(t1) == exponent_len(t2),
        cut_alike(t1, t2, exponent_len(t1), g),
{
    lemma_head_cut(t1, t2, g, LOWER_E);
    lemma_head_cut(t1, t2, g, UPPER_E);
    lemma_cut_nothing(t1, t2, g);
    if head_is(t1, LOWER_E) || head_is(t1, UPPER_E) {
        lemma_sign_in_step(t1.skip(1), t2.skip(1), g);
        let sign = sign_len(t1.skip(1));
        lemma_cut_twice(t1, t2, 1, sign, g);
        lemma_run_in_step(t1.skip(1 + sign), t2.skip(1 + sign), g, Class::Digit);
        let digits = run(t1.skip(1 + sign), Class::Digit) as int;
        lemma_cut_twice(t1, t2, 1 + sign, digits, g);
    }
}

/// A float literal has the same length in two settled texts.
proof fn lemma_float_len_in_step(t1: Seq<u8>, t2: Seq<u8>, g: Gap)
    requires
        settled(t1, t2, g),
        g.ok(),
    ensures
        float_len(t1) == float_len(t2),
        cut_alike(t1, t2, float_len(t1), g),
{
    lemma_cut_nothing(t1, t2, g);
    lemma_sign_in_step(t1, t2, g);
    let sign = sign_len(t1);
    lemma_run_in_step(t1.skip(sign), t2.skip(sign), g, Class::Digit);
    let whole = run(t1.skip(sign), Class::Digit) as int;
    if whole > 0 {
        lemma_cut_twice(t1, t2, sign, whole, g);
        lemma_fraction_in_step(t1.skip(sign + whole), t2.skip(sign + whole), g);
        let fraction = fraction_len(t1.skip(sign + whole));
        lemma_cut_twice(t1, t2, sign + whole, fraction, g);
        lemma_exponent_in_step(
            t1.skip(sign + whole + fraction),
            t2.skip(sign + whole + fraction),
            g,
        );
        let exponent = exponent_len(t1.skip(sign + whole + fraction));
        lemma_cut_twice(t1, t2, sign + whole + fraction, exponent, g);
    }
}

/// A float is read alike from two settled texts.
proof fn lemma_float_in_step(t1: Seq<u8>, t2: Seq<u8>, g: Gap)
    requires
        settled(t1, t2, g),
        g.ok(),
    ensures
        alike(float(t1), float(t2), g),
{
    lemma_float_len_in_step(t1, t2, g);
}

/// An atom is read alike from two settled texts.
proof fn lemma_atom_in_step(t1: Seq<u8>, t2: Seq<u8>, g: Gap)
    requires
        settled(t1, t2, g),
        g.ok(),
    ensures
        alike(atom(t1), atom(t2), g),
{
    lemma_name_in_step(t1, t2, g);
    lemma_string_in_step(t1, t2, g);
    lemma_number_in_step(t1, t2, g);
    lemma_float_in_step(t1, t2, g);
}

/// A declaration is read alike from two settled texts.
proof fn lemma_declare_in_step(t1: Seq<u8>, t2: Seq<u8>, g: Gap)
    requires
        settled(t1, t2, g),
        g.ok(),
    ensures
        alike(declare(t1), declare(t2), g),
{
    lemma_name_in_step(t1, t2, g);
    if let (Ok((after1, _)), Ok((after2, _))) = (name(t1), name(t2)) {
        lemma_space_in_step(after1, after2, g);
        let sign1 = after_space(after1);
        let sign2 = after_space(after2);
        lemma_pair_in_step(sign1, sign2, g, COLON, EQUALS);
        if head_is_pair(sign1, COLON, EQUALS) {
            lemma_space_in_step(sign1.skip(2), sign2.skip(2), g);
            lemma_atom_in_step(after_space(sign1.skip(2)), after_space(sign2.skip(2)), g);
        }
    }
}

/// Whether two readings are alike and what they left is settled.
spec fn alike_settled<V>(r1: Reading<V>, r2: Reading<V>, g: Gap) -> bool {
    &&& alike(r1, r2, g)
    &&& r1 matches Ok((rest1, _)) ==> r2 matches Ok((rest2, _)) ==> settled(rest1, rest2, g)
}

/// Readings that are alike stay alike with the same front put before them.
proof fn lemma_with_front_alike<V>(
    front: Seq<V>,
    r1: Reading<Seq<V>>,
    r2: Reading<Seq<V>>,
    g: Gap,
)
    requires
        alike(r1, r2, g),
    ensures
        alike(with_front(front, r1), with_front(front, r2), g),
        alike_settled(r1, r2, g) ==> alike_settled(with_front(front, r1), with_front(front, r2), g),
{
}

/// The atoms after the first are read alike from two settled texts, and
/// what is left after them is settled.
#[verifier::rlimit(50)]
proof fn lemma_more_atoms_in_step(t1: Seq<u8>, t2: Seq<u8>, g: Gap)
    requires
        settled(t1, t2, g),
        g.ok(),
    ensures
        alike_settled(more_atoms(t1), more_atoms(t2), g),
    decreases t1.len(),
{
    lemma_head_in_step(t1, t2, g, COMMA);
    if head_is(t1, COMMA) {
        lemma_space_in_step(t1.skip(1), t2.skip(1), g);
        let first1 = after_space(t1.skip(1));
        let first2 = after_space(t2.skip(1));
        lemma_atom_in_step(first1, first2, g);
        if let (Ok((rest1, value)), Ok((rest2, _))) = (atom(first1), atom(first2)) {
            lemma_space_in_step(rest1, rest2, g);
            lemma_after_space_is_tail(t1.skip(1));
            lemma_atom_fits(first1);
            lemma_after_space_is_tail(rest1);
            lemma_more_atoms_in_step(after_space(rest1), after_space(rest2), g);
            lemma_with_front_alike(
                seq![value],
                more_atoms(after_space(rest1)),
                more_atoms(after_space(rest2)),
                g,
            );
        }
    }
}

/// The atoms of a list are read alike from two texts in step. What is left
/// after them is settled, or it is the texts as they were, where the list is
/// empty.
proof fn lemma_atoms_in_step(t1: Seq<u8>, t2: Seq<u8>, g: Gap)
    requires
        in_step(t1, t2, g),
        g.ok(),
    ensures
        alike(atoms(t1), atoms(t2), g),
        atoms(t1) matches Ok((rest1, _)) ==> atoms(t2) matches Ok((rest2, _)) ==> settled(
            rest1,
            rest2,
            g,
        ) || (rest1 == t1 && rest2 == t2),
{
    lemma_space_in_step(t1, t2, g);
    let first1 = after_space(t1);
    let first2 = after_space(t2);
    lemma_atom_in_step(first1, first2, g);
    if let (Ok((rest1, value)), Ok((rest2, _))) = (atom(first1), atom(first2)) {
        lemma_space_in_step(rest1, rest2, g);
        lemma_more_atoms_in_step(after_space(rest1), after_space(rest2), g);
        lemma_with_front_alike(
            seq![value],
            more_atoms(after_space(rest1)),
            more_atoms(after_space(rest2)),
            g,
        );
    }
}

/// A list of atoms between round brackets is read alike from two texts in
/// step.
#[verifier::rlimit(50)]
proof fn lemma_atom_list_in_step(t1: Seq<u8>, t2: Seq<u8>, g: Gap)
    requires
        in_step(t1, t2, g),
        g.ok(),
    ensures
        alike(atom_list(t1), atom_list(t2), g),
{
    lemma_head_in_step(t1, t2, g, OPEN_PAREN);
    if head_is(t1, OPEN_PAREN) {
        let inner1 = t1.skip(1);
        let inner2 = t2.skip(1);
        lemma_atoms_in_step(inner1, inner2, g);
        if let (Ok((close1, _)), Ok((close2, _))) = (atoms(inner1), atoms(inner2)) {
            // An empty list leaves the texts where they were, right after the
            // bracket; then a closing bracket does not follow the place.
            assert(pending(close1, close2, g) ==> g.before == OPEN_PAREN);
            lemma_head_in_step(close1, close2, g, CLOSE_PAREN);
        }
    }
}

/// A call is read alike from two settled texts.
proof fn lemma_call_in_step(t1: Seq<u8>, t2: Seq<u8>, g: Gap)
    requires
        settled(t1, t2, g),
        g.ok(),
    ensures
        alike(call(t1), call(t2), g),
{
    lemma_name_in_step(t1, t2, g);
    if let (Ok((after1, _)), Ok((after2, _))) = (name(t1), name(t2)) {
        lemma_atom_list_in_step(after1, after2, g);
    }
}

/// The whitespace after the keyword of a function is there in both texts in
/// step, with the texts after it settled, or it is not there in one of
/// them; and then no name follows in the other.
proof fn lemma_keyword_gap(s1: Seq<u8>, s2: Seq<u8>, g: Gap)
    requires
        in_step(s1, s2, g),
        g.ok(),
        pending(s1, s2, g) ==> is_word(g.before),
    ensures
        settled(after_space(s1), after_space(s2), g),
        (run(s1, Class::Space) > 0) != (run(s2, Class::Space) > 0) ==> name(after_space(s1)) is Err
            && name(after_space(s2)) is Err,
{
    lemma_space_in_step(s1, s2, g);
    if (run(s1, Class::Space) > 0) != (run(s2, Class::Space) > 0) {
        assert(after_space(s1) == after_space(s2));
        if !pending(s1, s2, g) {
            assert(after_space(s1).len() == 0);
            lemma_run_shape(after_space(s1), Class::Letter);
        }
    }
}

/// A signature is read alike from two settled texts.
proof fn lemma_signature_in_step(t1: Seq<u8>, t2: Seq<u8>, g: Gap)
    requires
        settled(t1, t2, g),
        g.ok(),
    ensures
        alike(signature(t1), signature(t2), g),
{
    lemma_name_in_step(t1, t2, g);
    if let (Ok((after1, _)), Ok((after2, _))) = (name(t1), name(t2)) {
        lemma_space_in_step(after1, after2, g);
        lemma_atom_list_in_step(after_space(after1), after_space(after2), g);
    }
}

/// The head of a function is read alike from two settled texts.
#[verifier::rlimit(50)]
proof fn lemma_function_head_in_step(t1: Seq<u8>, t2: Seq<u8>, g: Gap)
    requires
        settled(t1, t2, g),
        g.ok(),
    ensures
        alike(function_head(t1), function_head(t2), g),
{
    lemma_pair_in_step(t1, t2, g, LOWER_F, LOWER_N);
    if head_is_pair(t1, LOWER_F, LOWER_N) {
        let s1 = t1.skip(2);
        let s2 = t2.skip(2);
        let gap1 = run(s1, Class::Space) as int;
        let gap2 = run(s2, Class::Space) as int;
        let at1 = after_space(s1);
        let at2 = after_space(s2);
        lemma_keyword_gap(s1, s2, g);
        lemma_run_shape(s1, Class::Space);
        lemma_run_shape(s2, Class::Space);
        assert(t1.skip(2 + gap1) =~= at1);
        assert(t2.skip(2 + gap2) =~= at2);
        if gap1 > 0 && gap2 > 0 {
            lemma_signature_in_step(at1, at2, g);
        } else if gap1 > 0 {
            assert(signature(at1) == Err::<(Seq<u8>, (Seq<char>, Seq<AtomView>)), _>(
                Failure::NoMatch,
            )) by {
                lemma_name_fits(at1);
            }
        } else if gap2 > 0 {
            assert(signature(at2) == Err::<(Seq<u8>, (Seq<char>, Seq<AtomView>)), _>(
                Failure::NoMatch,
            )) by {
                lemma_name_fits(at2);
            }
        }
    }
}

/// A function is read alike from two settled texts.
#[verifier::rlimit(50)]
proof fn lemma_function_in_step(t1: Seq<u8>, t2: Seq<u8>, g: Gap)
    requires
        settled(t1, t2, g),
        g.ok(),
    ensures
        alike(function(t1), function(t2), g),
    decreases t1.len(), 0int,
{
    lemma_function_head_in_step(t1, t2, g);
    if let (Ok((after1, _)), Ok((after2, _))) = (function_head(t1), function_head(t2)) {
        lemma_space_in_step(after1, after2, g);
        let open1 = after_space(after1);
        let open2 = after_space(after2);
        lemma_head_in_step(open1, open2, g, OPEN_BRACE);
        if head_is(open1, OPEN_BRACE) {
            lemma_function_head_fits(t1);
            lemma_after_space_is_tail(after1);
            lemma_statements_in_step(open1.skip(1), open2.skip(1), g);
            if let (Ok((body1, _)), Ok((body2, _))) = (
                statements(open1.skip(1)),
                statements(open2.skip(1)),
            ) {
                lemma_space_in_step(body1, body2, g);
                lemma_head_in_step(after_space(body1), after_space(body2), g, CLOSE_BRACE);
            }
        }
    }
}

/// A statement is read alike from two settled texts.
proof fn lemma_statement_in_step(t1: Seq<u8>, t2: Seq<u8>, g: Gap)
    requires
        settled(t1, t2, g),
        g.ok(),
    ensures
        alike(statement(t1), statement(t2), g),
    decreases t1.len(), 1int,
{
    lemma_function_in_step(t1, t2, g);
    lemma_declare_in_step(t1, t2, g);
    lemma_call_in_step(t1, t2, g);
    lemma_atom_in_step(t1, t2, g);
}

/// Statements are read alike from two texts in step.
#[verifier::rlimit(50)]
proof fn lemma_statements_in_step(t1: Seq<u8>, t2: Seq<u8>, g: Gap)
    requires
        in_step(t1, t2, g),
        g.ok(),
    ensures
        alike(statements(t1), statements(t2), g),
    decreases t1.len(), 2int,
{
    lemma_space_in_step(t1, t2, g);
    let start1 = after_space(t1);
    let start2 = after_space(t2);
    lemma_after_space_is_tail(t1);
    lemma_after_space_is_tail(t2);
    lemma_statement_in_step(start1, start2, g);
    lemma_statement_fits(start1);
    lemma_statement_fits(start2);
    if let (Ok((rest1, node)), Ok((rest2, _))) = (statement(start1), statement(start2)) {
        lemma_statements_in_step(rest1, rest2, g);
        lemma_with_front_alike(seq![node], statements(rest1), statements(rest2), g);
    }
}

/// What is left after skipping whitespace does not start with whitespace.
proof fn lemma_after_space_head(s: Seq<u8>)
    ensures
        after_space(s).len() > 0 ==> !Class::Space.holds(after_space(s)[0]),
{
    lemma_run_shape(s, Class::Space);
}

/// The tree of a text, where it is a program.
pub open spec fn tree(s: Seq<u8>) -> Option<Seq<ExprView>> {
    match program(s) {
        Ok(nodes) => Some(nodes),
        Err(_) => None,
    }
}

/// Whether two texts are the same to the parser: both are programs with
/// the same tree, or neither is one, for the same kind of fault.
pub open spec fn same_outcome(s1: Seq<u8>, s2: Seq<u8>) -> bool {
    match (program(s1), program(s2)) {
        (Ok(nodes1), Ok(nodes2)) => nodes1 == nodes2,
        (Err(e1), Err(e2)) => e1.kind == e2.kind,
        _ => false,
    }
}

/// Two texts in step are the same to the parser.
proof fn lemma_program_in_step(t1: Seq<u8>, t2: Seq<u8>, g: Gap)
    requires
        in_step(t1, t2, g),
        g.ok(),
    ensures
        same_outcome(t1, t2),
{
    lemma_statements_in_step(t1, t2, g);
    lemma_statements_fits(t1);
    lemma_statements_fits(t2);
    if let (Ok((rest1, _)), Ok((rest2, _))) = (statements(t1), statements(t2)) {
        lemma_space_in_step(rest1, rest2, g);
        let end1 = after_space(rest1);
        let end2 = after_space(rest2);
        if end1 != end2 {
            lemma_in_step_parts(end1, end2, g);
            if front_len(end1, g) == 0 {
                // Both texts end in whitespace, which was skipped.
                lemma_after_space_head(rest1);
                lemma_after_space_head(rest2);
                assert(end1 =~= g.w1 + g.after);
                assert(end2 =~= g.w2 + g.after);
                lemma_head_of_tail(g.w1, g.after);
                lemma_head_of_tail(g.w2, g.after);
            }
        }
    }
}

/// Whitespace before a program does not matter: with it and without it the
/// text is the same to the parser.
pub proof fn lemma_leading_whitespace(w: Seq<u8>, s: Seq<u8>)
    requires
        is_space(w),
    ensures
        same_outcome(w + s, s),
        tree(w + s) == tree(s),
{
    lemma_space_through(w, s);
    lemma_after_space_is_tail(s);
    lemma_after_space_is_tail(w + s);
    lemma_statement_fits(after_space(s));
    lemma_statements_fits(s);
    lemma_statements_fits(w + s);
    if let Err(Failure::NoMatch) = statement(after_space(s)) {
        lemma_space_through(w, s);
    }
}

/// Whitespace between the parts of a program may be changed.
///
/// Take a text `a + w1 + b` in which `w1` is whitespace, empty or not, and
/// `a` ends outside every string, and put the whitespace `w2` in the place
/// of `w1`. The two texts are the same to the parser, that is they have the
/// same tree or are both no program, if one of these holds: neither `w1` nor
/// `w2` is empty; or nothing stands before them, or nothing after them; or
/// the byte before them and the byte after them are `loose`.
pub proof fn lemma_whitespace_may_vary(a: Seq<u8>, w1: Seq<u8>, w2: Seq<u8>, b: Seq<u8>)
    requires
        outside_strings(a),
        is_space(w1),
        is_space(w2),
        (w1.len() > 0 && w2.len() > 0) || a.len() == 0 || b.len() == 0 || loose(a.last(), b[0]),
    ensures
        same_outcome(a + w1 + b, a + w2 + b),
        tree(a + w1 + b) == tree(a + w2 + b),
{
    let t1 = a + w1 + b;
    let t2 = a + w2 + b;
    if a.len() == 0 {
        assert(t1 =~= w1 + b);
        assert(t2 =~= w2 + b);
        lemma_leading_whitespace(w1, b);
        lemma_leading_whitespace(w2, b);
    } else {
        let g = Gap { before: a.last(), w1, w2, after: b };
        assert(t1.take(front_len(t1, g)) =~= a);
        assert(in_step(t1, t2, g));
        lemma_program_in_step(t1, t2, g);
    }
}

} // verus!
