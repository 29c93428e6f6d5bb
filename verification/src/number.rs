//! Decimal numbers as text, and rounding.

use crate::text::chars_of;
use vstd::prelude::*;

verus! {

/// The character that writes the digit `d`.
pub open spec fn digit(d: int) -> char {
    (0x30 + d) as char
}

/// The decimal digits of `n`, without leading zeros.
pub open spec fn decimal(n: nat) -> Seq<char>
    decreases n,
{
    if n < 10 {
        seq![digit(n as int)]
    } else {
        decimal(n / 10).push(digit((n % 10) as int))
    }
}

/// `n` in decimal, with a minus sign in front if it is negative.
pub open spec fn signed_decimal(n: int) -> Seq<char> {
    if n < 0 {
        seq!['-'] + decimal((-n) as nat)
    } else {
        decimal(n as nat)
    }
}

fn digit_char(d: u8) -> (c: char)
    requires
        d < 10,
    ensures
        c == digit(d as int),
{
    (0x30 + d) as char
}

/// Appends `n` in decimal.
pub fn push_decimal(out: &mut String, n: u64)
    ensures
        final(out)@ == old(out)@ + decimal(n as nat),
    decreases n,
{
    if n >= 10 {
        push_decimal(out, n / 10);
    }
    out.push(digit_char((n % 10) as u8));
    assert(out@ =~= old(out)@ + decimal(n as nat));
}

/// `n` in decimal, with a minus sign in front if it is negative.
pub fn signed_text(n: i64) -> (r: String)
    ensures
        r@ == signed_decimal(n as int),
{
    let mut out = String::new();
    if n < 0 {
        out.push('-');
        push_decimal(&mut out, (-(n as i128)) as u64);
        assert(out@ =~= signed_decimal(n as int));
    } else {
        push_decimal(&mut out, n as u64);
        assert(out@ =~= signed_decimal(n as int));
    }
    out
}

/// Whether `c` is one of the ten ASCII digits.
pub open spec fn is_digit(c: char) -> bool {
    '0' <= c <= '9'
}

/// Whether `s` is one or more digits.
pub open spec fn all_digits(s: Seq<char>) -> bool {
    s.len() > 0 && forall|i: int| 0 <= i < s.len() ==> is_digit(#[trigger] s[i])
}

/// The number that a sequence of digits writes in decimal.
pub open spec fn digits_value(s: Seq<char>) -> int
    decreases s.len(),
{
    if s.len() == 0 {
        0
    } else {
        digits_value(s.drop_last()) * 10 + (s.last() as int - 0x30)
    }
}

/// The digits of a signed number: the text behind a leading sign.
pub open spec fn magnitude(s: Seq<char>) -> Seq<char> {
    if s.len() > 0 && (s[0] == '-' || s[0] == '+') {
        s.drop_first()
    } else {
        s
    }
}

/// The number that `s` writes, as an optional sign and decimal digits; nothing if `s` is
/// anything else or the number does not fit 64 bits.
pub open spec fn parsed_signed(s: Seq<char>) -> Option<i64> {
    let m = magnitude(s);
    let v = if s.len() > 0 && s[0] == '-' {
        -digits_value(m)
    } else {
        digits_value(m)
    };
    if all_digits(m) && i64::MIN <= v <= i64::MAX {
        Some(v as i64)
    } else {
        None
    }
}

proof fn lemma_digits_value_grows(s: Seq<char>, k: int)
    requires
        0 <= k <= s.len(),
        all_digits(s),
    ensures
        0 <= digits_value(s.take(k)) <= digits_value(s),
    decreases s.len(),
{
    assert(forall|i: int| 0 <= i < s.len() ==> 0x30 <= (#[trigger] s[i]) as int <= 0x39);
    if k == s.len() {
        assert(s.take(k) =~= s);
        if s.len() > 1 {
            let t = s.drop_last();
            assert(forall|i: int| 0 <= i < t.len() ==> #[trigger] t[i] == s[i]);
            lemma_digits_value_grows(t, t.len() as int);
            assert(t.take(t.len() as int) =~= t);
        } else {
            assert(digits_value(s.drop_last()) == 0);
        }
    } else if s.len() == 1 {
        assert(s.take(k) =~= Seq::<char>::empty());
        assert(digits_value(s.drop_last()) == 0);
    } else {
        let t = s.drop_last();
        assert(forall|i: int| 0 <= i < t.len() ==> #[trigger] t[i] == s[i]);
        lemma_digits_value_grows(t, k);
        assert(t.take(k) =~= s.take(k));
    }
}

/// The number that `s` writes; nothing if it writes none that fits 64 bits.
pub fn parse_signed(s: &str) -> (r: Option<i64>)
    ensures
        r == parsed_signed(s@),
{
    let cs = chars_of(s);
    let n: usize = cs.len();
    let negative: bool = n > 0 && cs[0] == '-';
    let start: usize = if n > 0 && (cs[0] == '-' || cs[0] == '+') {
        1
    } else {
        0
    };
    let ghost m = magnitude(s@);
    assert(m =~= cs@.skip(start as int));
    if start == n {
        return None;
    }
    let mut value: i128 = 0;
    let mut i: usize = start;
    assert(m.take(0) =~= Seq::<char>::empty());
    while i < n
        invariant
            start <= i <= n == cs@.len(),
            m == cs@.skip(start as int),
            m == magnitude(s@),
            start < n,
            forall|j: int| 0 <= j < i - start ==> is_digit(#[trigger] m[j]),
            value == digits_value(m.take(i - start)),
            0 <= value <= 0x8000_0000_0000_0000,
        decreases n - i,
    {
        let c = cs[i];
        let ghost k = i - start;
        assert(m[k] == c);
        if !('0' <= c && c <= '9') {
            return None;
        }
        let d: i128 = (c as u32 - 0x30) as i128;
        assert(m.take(k + 1).drop_last() =~= m.take(k));
        value = value * 10 + d;
        assert(value == digits_value(m.take(k + 1)));
        if value > 0x8000_0000_0000_0000 {
            proof {
                if all_digits(m) {
                    lemma_digits_value_grows(m, k + 1);
                }
            }
            return None;
        }
        i += 1;
    }
    assert(m.take(m.len() as int) =~= m);
    if negative {
        Some((-value) as i64)
    } else if value <= 0x7fff_ffff_ffff_ffff {
        Some(value as i64)
    } else {
        None
    }
}

/// Reading what was written gives the number back.
pub proof fn law_signed_text_round_trip(n: i64)
    ensures
        parsed_signed(signed_decimal(n as int)) == Some(n),
{
    let abs = if n < 0 {
        (-n) as nat
    } else {
        n as nat
    };
    lemma_decimal_value(abs);
    let s = signed_decimal(n as int);
    if n < 0 {
        assert(s.drop_first() =~= decimal(abs));
    } else {
        assert(is_digit(decimal(abs)[0]));
    }
}

proof fn lemma_decimal_value(n: nat)
    ensures
        all_digits(decimal(n)),
        digits_value(decimal(n)) == n,
    decreases n,
{
    let last = (n % 10) as int;
    assert(digit(last) as int == 0x30 + last);
    assert(is_digit(digit(last)));
    if n < 10 {
        let s = decimal(n);
        assert(s.drop_last() =~= Seq::<char>::empty());
        assert(digits_value(s.drop_last()) == 0);
    } else {
        lemma_decimal_value(n / 10);
        let s = decimal(n);
        assert(s.drop_last() =~= decimal(n / 10));
    }
}

/// A number is written by its digits, the last one last.
pub proof fn law_numbers_are_written_by_their_digits(n: nat, d: nat)
    requires
        d < 10,
    ensures
        decimal(d) == seq![(0x30 + d) as char],
        n > 0 ==> decimal(10 * n + d) == decimal(n).push((0x30 + d) as char),
{
    if n > 0 {
        assert((10 * n + d) / 10 == n && (10 * n + d) % 10 == d);
    }
}

proof fn lemma_leading_zero(s: Seq<char>)
    ensures
        digits_value(seq!['0'] + s) == digits_value(s),
    decreases s.len(),
{
    let z = seq!['0'] + s;
    if s.len() == 0 {
        assert(z.drop_last() =~= Seq::<char>::empty());
        assert(digits_value(z.drop_last()) == 0);
    } else {
        lemma_leading_zero(s.drop_last());
        assert(z.drop_last() =~= seq!['0'] + s.drop_last());
    }
}

/// Digits are read as a number, with leading zeros or without; a plus sign before them changes
/// nothing and a minus sign makes the number negative.
pub proof fn law_signs_and_leading_zeros(digits: Seq<char>)
    requires
        digits.len() > 0,
        forall|i: int| 0 <= i < digits.len() ==> '0' <= #[trigger] digits[i] <= '9',
    ensures
        parsed_signed(seq!['+'] + digits) == parsed_signed(digits),
        parsed_signed(seq!['0'] + digits) == parsed_signed(digits),
        parsed_signed(seq!['-'] + (seq!['0'] + digits)) == parsed_signed(seq!['-'] + digits),
        parsed_signed(digits) matches Some(v) ==> v >= 0 && parsed_signed(seq!['-'] + digits)
            == Some((-v) as i64),
{
    let zero = seq!['0'] + digits;
    lemma_leading_zero(digits);
    assert(is_digit(digits[0]));
    assert(magnitude(digits) == digits);
    assert(magnitude(zero) == zero);
    assert((seq!['+'] + digits).drop_first() =~= digits);
    assert((seq!['-'] + digits).drop_first() =~= digits);
    assert((seq!['-'] + zero).drop_first() =~= zero);
    assert(all_digits(digits));
    assert(all_digits(zero)) by {
        assert forall|i: int| 0 <= i < zero.len() implies is_digit(#[trigger] zero[i]) by {
            if i > 0 {
                assert(zero[i] == digits[i - 1]);
            }
        }
    }
    lemma_digits_value_grows(digits, 0);
    assert(digits.take(0) =~= Seq::<char>::empty());
}

/// What holds anything but digits and a leading sign is no number, and neither is a sign alone.
pub proof fn law_other_texts_are_no_numbers(s: Seq<char>, i: int)
    requires
        0 <= i < s.len(),
        !('0' <= s[i] <= '9'),
        i > 0 || (s[0] != '+' && s[0] != '-') || s.len() == 1,
    ensures
        parsed_signed(s) is None,
        parsed_signed(Seq::empty()) is None,
{
    let m = magnitude(s);
    if m == s {
        assert(!is_digit(m[i]));
    } else if i > 0 {
        assert(m[i - 1] == s[i]);
        assert(!is_digit(m[i - 1]));
    }
}

/// A number that does not fit is not read.
pub proof fn law_large_numbers_are_not_read(n: nat)
    ensures
        n > i64::MAX ==> parsed_signed(decimal(n)) is None,
        n > 0x8000_0000_0000_0000 ==> parsed_signed(seq!['-'] + decimal(n)) is None,
{
    lemma_decimal_value(n);
    assert(is_digit(decimal(n)[0]));
    assert(magnitude(decimal(n)) == decimal(n));
    assert((seq!['-'] + decimal(n)).drop_first() =~= decimal(n));
}

} // verus!
