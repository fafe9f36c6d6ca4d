//! Bytes of a source text: character classes, runs of one class, and cutting a
//! `&str` at a byte offset next to an ASCII byte.

use vstd::prelude::*;
use vstd::string::StringSliceAdditionalSpecFns;
use vstd::utf8::*;

verus! {

/// A class of bytes that the grammar scans runs of.
#[derive(Clone, Copy, Debug)]
pub enum Class {
    /// Space, tab, line feed, carriage return.
    Space,
    /// `A`..=`Z` and `a`..=`z`.
    Letter,
    /// `0`..=`9`.
    Digit,
    /// Every byte but the double quote.
    Unquoted,
}

impl Class {
    /// Whether `b` belongs to the class.
    pub open spec fn holds(self, b: u8) -> bool {
        match self {
            Class::Space => b == 0x20 || b == 0x09 || b == 0x0a || b == 0x0d,
            Class::Letter => (0x41 <= b <= 0x5a) || (0x61 <= b <= 0x7a),
            Class::Digit => 0x30 <= b <= 0x39,
            Class::Unquoted => b != 0x22,
        }
    }

    /// Tests whether `b` belongs to the class.
    pub fn admits(self, b: u8) -> (r: bool)
        ensures
            r == self.holds(b),
    {
        match self {
            Class::Space => b == 0x20 || b == 0x09 || b == 0x0a || b == 0x0d,
            Class::Letter => (0x41 <= b && b <= 0x5a) || (0x61 <= b && b <= 0x7a),
            Class::Digit => 0x30 <= b && b <= 0x39,
            Class::Unquoted => b != 0x22,
        }
    }
}

/// Length of the longest prefix of `s` whose bytes all belong to `class`.
pub open spec fn run(s: Seq<u8>, class: Class) -> nat
    decreases s.len(),
{
    if s.len() > 0 && class.holds(s[0]) {
        1 + run(s.skip(1), class)
    } else {
        0
    }
}

/// A run lies inside the text, holds only bytes of the class, and ends at the
/// end of the text or before a byte outside the class.
pub proof fn lemma_run_shape(s: Seq<u8>, class: Class)
    ensures
        run(s, class) <= s.len(),
        forall|i: int| 0 <= i < run(s, class) ==> class.holds(#[trigger] s[i]),
        run(s, class) < s.len() ==> !class.holds(s[run(s, class) as int]),
    decreases s.len(),
{
    if s.len() > 0 && class.holds(s[0]) {
        let t = s.skip(1);
        lemma_run_shape(t, class);
        assert forall|i: int| 0 <= i < run(s, class) implies class.holds(#[trigger] s[i]) by {
            if i > 0 {
                assert(s[i] == t[i - 1]);
            }
        }
        if run(s, class) < s.len() {
            assert(s[run(s, class) as int] == t[run(t, class) as int]);
        }
    }
}

/// The run is the only length with the shape that `lemma_run_shape` states.
pub proof fn lemma_run_is(s: Seq<u8>, class: Class, n: int)
    requires
        0 <= n <= s.len(),
        forall|i: int| 0 <= i < n ==> class.holds(#[trigger] s[i]),
        n < s.len() ==> !class.holds(s[n]),
    ensures
        run(s, class) == n,
    decreases s.len(),
{
    if n > 0 {
        let t = s.skip(1);
        assert forall|i: int| 0 <= i < n - 1 implies class.holds(#[trigger] t[i]) by {
            assert(t[i] == s[i + 1]);
        }
        lemma_run_is(t, class, n - 1);
    }
}

/// Counts the bytes of `class` that stand in `bytes` from offset `from` on.
pub(crate) fn scan(bytes: &[u8], from: usize, class: Class) -> (n: usize)
    requires
        from <= bytes@.len(),
    ensures
        n == run(bytes@.skip(from as int), class),
        from + n <= bytes@.len(),
{
    let mut i: usize = from;
    while i < bytes.len() && class.admits(bytes[i])
        invariant
            from <= i <= bytes@.len(),
            forall|j: int| from <= j < i ==> class.holds(#[trigger] bytes@[j]),
        decreases bytes@.len() - i,
    {
        i += 1;
    }
    proof {
        lemma_run_is(bytes@.skip(from as int), class, i - from);
    }
    i - from
}

/// The text that a sequence of bytes encodes.
pub open spec fn text(bytes: Seq<u8>) -> Seq<char> {
    decode_utf8(bytes)
}

/// Whether offset `n` of `bytes` is an end of the text or has an ASCII byte on
/// one side.
pub open spec fn ascii_edge(bytes: Seq<u8>, n: int) -> bool {
    &&& 0 <= n <= bytes.len()
    &&& (n == 0 || n == bytes.len() || bytes[n - 1] < 0x80 || bytes[n] < 0x80)
}

/// In well-formed UTF-8 a character starts after every ASCII byte.
proof fn lemma_boundary_after_ascii(bytes: Seq<u8>, n: int)
    requires
        valid_utf8(bytes),
        0 < n <= bytes.len(),
        bytes[n - 1] < 0x80,
    ensures
        is_char_boundary(bytes, n),
    decreases bytes.len(),
{
    let k = length_of_first_scalar(bytes);
    let tail = pop_first_scalar(bytes);
    assert(valid_first_scalar(bytes) && valid_utf8(tail));
    assert(valid_leading_and_continuation_bytes_first_codepoint(bytes));
    assert(1 <= k <= 4 && k <= bytes.len());
    assert(tail.len() == bytes.len() - k);
    if n < k {
        // The byte before `n` would be a leading byte of one byte, or a
        // continuation byte: an ASCII byte is neither inside a longer scalar.
        if n == 1 {
            assert(is_leading_byte_width_1(bytes[0]));
        } else {
            assert(is_continuation_byte(bytes[n - 1]));
        }
        assert(false);
    } else if n == k {
        assert(is_char_boundary(tail, 0));
        assert(is_char_boundary(bytes, n));
    } else {
        assert(tail[n - k - 1] == bytes[n - 1]);
        lemma_boundary_after_ascii(tail, n - k);
        assert(is_char_boundary(bytes, n));
    }
}

/// A `&str` may be cut at every offset that is an `ascii_edge` of its bytes.
pub proof fn lemma_ascii_edge_is_boundary(bytes: Seq<u8>, n: int)
    requires
        valid_utf8(bytes),
        ascii_edge(bytes, n),
    ensures
        is_char_boundary(bytes, n),
{
    if n == 0 {
    } else if n == bytes.len() {
        is_char_boundary_start_end_of_seq(bytes);
    } else if bytes[n - 1] < 0x80 {
        lemma_boundary_after_ascii(bytes, n);
    } else {
        is_char_boundary_iff_is_leading_byte(bytes, n);
    }
}

/// Cuts `input` after its first `n` bytes.
pub(crate) fn split(input: &str, n: usize) -> (parts: (&str, &str))
    requires
        ascii_edge(input.spec_bytes(), n as int),
    ensures
        parts.0.spec_bytes() == input.spec_bytes().take(n as int),
        parts.1.spec_bytes() == input.spec_bytes().skip(n as int),
        parts.0@ == text(input.spec_bytes().take(n as int)),
{
    proof {
        encode_utf8_valid_utf8(input@);
        lemma_ascii_edge_is_boundary(input.spec_bytes(), n as int);
    }
    let parts = input.split_at(n);
    proof {
        encode_utf8_decode_utf8(parts.0@);
    }
    parts
}

} // verus!
