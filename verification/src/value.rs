//! Coercion of a group's value.
//!
//! A value is either numeric, a run of decimal digits of a width that its
//! label fixes, or text, which is taken as it stands once the control
//! characters at its ends are trimmed.

use vstd::prelude::*;

verus! {

/// Whether `b` is an ASCII decimal digit.
pub open spec fn is_digit(b: u8) -> bool {
    '0' as u8 <= b <= '9' as u8
}

/// Whether every byte of `s` is a decimal digit.
pub open spec fn is_digits(s: Seq<u8>) -> bool {
    forall|i: int| 0 <= i < s.len() ==> is_digit(#[trigger] s[i])
}

/// The number that the decimal digits `s` write, most significant digit first.
pub open spec fn decimal_value(s: Seq<u8>) -> nat
    decreases s.len(),
{
    if s.len() == 0 {
        0
    } else {
        decimal_value(s.drop_last()) * 10 + (s.last() - '0' as u8) as nat
    }
}

/// Ten to the power `n`.
pub open spec fn pow10(n: nat) -> nat
    decreases n,
{
    if n == 0 {
        1
    } else {
        10 * pow10((n - 1) as nat)
    }
}

/// The number that a numeric value of the given width holds: `value` must be
/// exactly `width` decimal digits.
pub open spec fn number_of(value: Seq<u8>, width: nat) -> Option<nat> {
    if value.len() == width && is_digits(value) {
        Some(decimal_value(value))
    } else {
        None
    }
}

/// A number written with `n` digits is below ten to the `n`.
pub proof fn lemma_decimal_value_bound(s: Seq<u8>)
    requires
        is_digits(s),
    ensures
        decimal_value(s) < pow10(s.len()),
    decreases s.len(),
{
    if s.len() > 0 {
        assert(is_digit(s[s.len() - 1]));
        lemma_decimal_value_bound(s.drop_last());
    }
}

/// `pow10` grows with its argument.
pub proof fn lemma_pow10_monotonic(m: nat, n: nat)
    requires
        m <= n,
    ensures
        pow10(m) <= pow10(n),
        pow10(m) >= 1,
    decreases n,
{
    if m < n {
        lemma_pow10_monotonic(m, (n - 1) as nat);
    } else if n > 0 {
        lemma_pow10_monotonic((m - 1) as nat, (n - 1) as nat);
    }
}

/// Whether `b` is an ASCII decimal digit.
pub fn is_digit_byte(b: u8) -> (r: bool)
    ensures
        r == is_digit(b),
{
    '0' as u8 <= b && b <= '9' as u8
}

/// Whether every byte of `s` is a decimal digit.
pub fn all_digits(s: &[u8]) -> (r: bool)
    ensures
        r == is_digits(s@),
{
    let mut i: usize = 0;
    while i < s.len()
        invariant
            i <= s.len(),
            forall|j: int| 0 <= j < i ==> is_digit(#[trigger] s@[j]),
        decreases s.len() - i,
    {
        if !is_digit_byte(s[i]) {
            return false;
        }
        i += 1;
    }
    true
}

/// Parses a numeric value of a fixed digit width.
///
/// Returns the number if `value` is exactly `width` decimal digits, and
/// `None` on any other length or on a byte that is not a digit. The width is
/// at most 19, so that every such number fits 64 bits.
pub fn parse_number(value: &[u8], width: usize) -> (r: Option<u64>)
    requires
        width <= 19,
    ensures
        match r {
            Some(n) => number_of(value@, width as nat) == Some(n as nat) && n < pow10(width as nat),
            None => number_of(value@, width as nat) is None,
        },
{
    if value.len() != width {
        return None;
    }
    let mut acc: u64 = 0;
    let mut i: usize = 0;
    while i < value.len()
        invariant
            i <= value.len(),
            value.len() == width,
            width <= 19,
            is_digits(value@.take(i as int)),
            acc as nat == decimal_value(value@.take(i as int)),
            acc < pow10(i as nat),
        decreases value.len() - i,
    {
        let b: u8 = value[i];
        if !is_digit_byte(b) {
            return None;
        }
        proof {
            let next = value@.take(i + 1);
            assert(next.drop_last() == value@.take(i as int));
            assert(next.last() == b);
            assert forall|j: int| 0 <= j < next.len() implies is_digit(#[trigger] next[j]) by {
                if j < i {
                    assert(value@.take(i as int)[j] == next[j]);
                }
            }
            lemma_pow10_monotonic((i + 1) as nat, 19);
            assert(pow10(19) == 10_000_000_000_000_000_000) by {
                reveal_with_fuel(pow10, 20);
            }
        }
        acc = acc * 10 + (b - '0' as u8) as u64;
        i += 1;
    }
    assert(value@.take(value.len() as int) == value@);
    Some(acc)
}

/// Whether `b` is an ASCII control character.
pub open spec fn is_control(b: u8) -> bool {
    b < 0x20 || b == 0x7F
}

/// `s` without the control characters at its start.
pub open spec fn trim_start(s: Seq<u8>) -> Seq<u8>
    decreases s.len(),
{
    if s.len() > 0 && is_control(s.first()) {
        trim_start(s.drop_first())
    } else {
        s
    }
}

/// `s` without the control characters at its end.
pub open spec fn trim_end(s: Seq<u8>) -> Seq<u8>
    decreases s.len(),
{
    if s.len() > 0 && is_control(s.last()) {
        trim_end(s.drop_last())
    } else {
        s
    }
}

/// `s` without the control characters at either end. Those inside stay.
pub open spec fn trim_control(s: Seq<u8>) -> Seq<u8> {
    trim_end(trim_start(s))
}

/// The text that a text value holds: the value with its ends trimmed, which
/// must leave at least one byte.
pub open spec fn text_of(value: Seq<u8>) -> Option<Seq<u8>> {
    let t = trim_control(value);
    if t.len() > 0 {
        Some(t)
    } else {
        None
    }
}

/// Whether `s` is non-empty text with no control character at either end.
pub open spec fn is_trimmed(s: Seq<u8>) -> bool {
    s.len() > 0 && !is_control(s.first()) && !is_control(s.last())
}

/// Trimming the end leaves a prefix, which does not end in a control
/// character.
pub proof fn lemma_trim_end(s: Seq<u8>)
    ensures
        trim_end(s).len() <= s.len(),
        trim_end(s) == s.take(trim_end(s).len() as int),
        trim_end(s).len() > 0 ==> !is_control(trim_end(s).last()),
    decreases s.len(),
{
    if s.len() > 0 && is_control(s.last()) {
        lemma_trim_end(s.drop_last());
        assert(s.drop_last().take(trim_end(s).len() as int) == s.take(trim_end(s).len() as int));
    } else {
        assert(s.take(s.len() as int) == s);
    }
}

/// Trimming the start leaves text that does not start with a control
/// character.
pub proof fn lemma_trim_start(s: Seq<u8>)
    ensures
        trim_start(s).len() > 0 ==> !is_control(trim_start(s).first()),
    decreases s.len(),
{
    if s.len() > 0 && is_control(s.first()) {
        lemma_trim_start(s.drop_first());
    }
}

/// The text of a value is trimmed.
pub proof fn lemma_text_is_trimmed(value: Seq<u8>)
    ensures
        text_of(value) matches Some(t) ==> is_trimmed(t),
{
    lemma_trim_start(value);
    lemma_trim_end(trim_start(value));
}

/// Whether `b` is an ASCII control character.
pub fn is_control_byte(b: u8) -> (r: bool)
    ensures
        r == is_control(b),
{
    b < 0x20 || b == 0x7F
}

/// Trims the control characters at both ends of `value`.
pub fn trim(value: &[u8]) -> (r: &[u8])
    ensures
        r@ == trim_control(value@),
{
    let n: usize = value.len();
    let mut i: usize = 0;
    assert(value@.skip(0) == value@);
    while i < n && is_control_byte(value[i])
        invariant
            i <= n,
            n == value.len(),
            trim_start(value@) == trim_start(value@.skip(i as int)),
        decreases n - i,
    {
        assert(value@.skip(i as int).drop_first() == value@.skip(i + 1));
        i += 1;
    }
    let mut j: usize = n;
    while j > i && is_control_byte(value[j - 1])
        invariant
            i <= j <= n,
            n == value.len(),
            trim_start(value@) == value@.subrange(i as int, n as int),
            trim_control(value@) == trim_end(value@.subrange(i as int, j as int)),
        decreases j,
    {
        assert(value@.subrange(i as int, j as int).drop_last() == value@.subrange(
            i as int,
            j - 1,
        ));
        j -= 1;
    }
    vstd::slice::slice_subrange(value, i, j)
}

/// Reads a text value: trims it and copies what is left.
///
/// Returns `None` if nothing is left.
pub fn parse_text(value: &[u8]) -> (r: Option<Vec<u8>>)
    ensures
        match r {
            Some(t) => text_of(value@) == Some(t@),
            None => text_of(value@) is None,
        },
{
    let t = trim(value);
    if t.len() > 0 {
        Some(vstd::slice::slice_to_vec(t))
    } else {
        None
    }
}

} // verus!
