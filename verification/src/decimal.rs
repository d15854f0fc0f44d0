//! Decimal numerals in ASCII: writing them, reading them back, and how their
//! order as byte strings relates to the order of the numbers.

use vstd::prelude::*;
use crate::text::bytes_lt;

verus! {

/// The ASCII digit for `d`, where `d` is below ten.
pub open spec fn digit_byte(d: nat) -> u8 {
    (48 + d) as u8
}

/// Whether a byte is an ASCII digit.
pub open spec fn is_digit(b: u8) -> bool {
    48 <= b <= 57
}

/// Whether every byte is an ASCII digit.
pub open spec fn all_digits(s: Seq<u8>) -> bool {
    forall|i: int| 0 <= i < s.len() ==> is_digit(#[trigger] s[i])
}

/// The shortest decimal numeral of `n`: no leading zero, but `0` for zero.
pub open spec fn decimal_digits(n: nat) -> Seq<u8>
    decreases n,
{
    if n < 10 {
        seq![digit_byte(n)]
    } else {
        decimal_digits(n / 10).push(digit_byte(n % 10))
    }
}

/// `count` zero digits.
pub open spec fn zeros(count: nat) -> Seq<u8> {
    Seq::new(count, |i: int| 48u8)
}

/// The decimal numeral of `n`, filled with leading zeros up to `width`
/// digits; a longer numeral is left as it is.
pub open spec fn zero_padded(n: nat, width: nat) -> Seq<u8> {
    let digits = decimal_digits(n);
    if digits.len() >= width {
        digits
    } else {
        zeros((width - digits.len()) as nat) + digits
    }
}

/// The number that a string of digits stands for.
pub open spec fn digits_value(s: Seq<u8>) -> nat
    decreases s.len(),
{
    if s.len() == 0 {
        0
    } else {
        digits_value(s.drop_last()) * 10 + (s.last() - 48) as nat
    }
}

/// The number that a text stands for in 64 bits: an optional `+`, then one
/// digit or more and nothing else, the value no more than `u64::MAX`.
pub open spec fn parsed_u64(s: Seq<u8>) -> Option<u64> {
    let digits = if s.len() > 0 && s[0] == 43 {
        s.drop_first()
    } else {
        s
    };
    if digits.len() > 0 && all_digits(digits) && digits_value(digits) <= u64::MAX {
        Some(digits_value(digits) as u64)
    } else {
        None
    }
}

/// The characters of an ASCII byte string.
pub open spec fn ascii_text(bytes: Seq<u8>) -> Seq<char> {
    Seq::new(bytes.len(), |i: int| bytes[i] as char)
}

/// The shortest decimal numeral of `n`, as text.
pub open spec fn decimal_text(n: nat) -> Seq<char> {
    ascii_text(decimal_digits(n))
}

/// Ten to the power `k`.
pub open spec fn pow10(k: nat) -> nat
    decreases k,
{
    if k == 0 {
        1
    } else {
        10 * pow10((k - 1) as nat)
    }
}

/// A numeral is made of digits and stands for its number.
pub proof fn lemma_decimal_digits_value(n: nat)
    ensures
        decimal_digits(n).len() >= 1,
        all_digits(decimal_digits(n)),
        digits_value(decimal_digits(n)) == n,
    decreases n,
{
    if n < 10 {
        let s = decimal_digits(n);
        assert(s.drop_last() =~= Seq::<u8>::empty());
        assert(digits_value(s.drop_last()) == 0);
    } else {
        lemma_decimal_digits_value(n / 10);
        let head = decimal_digits(n / 10);
        let s = head.push(digit_byte(n % 10));
        assert(s.drop_last() =~= head);
        assert(s.last() == digit_byte(n % 10));
    }
}

/// A number below ten to the `k` has at most `k` digits.
pub proof fn lemma_decimal_digits_len(n: nat, k: nat)
    requires
        k >= 1,
        n < pow10(k),
    ensures
        decimal_digits(n).len() <= k,
    decreases k,
{
    if n >= 10 {
        if k == 1 {
            assert(pow10(1) == 10) by {
                reveal_with_fuel(pow10, 2);
            }
        } else {
            lemma_decimal_digits_len(n / 10, (k - 1) as nat);
        }
    }
}

/// A number of 64 bits has at most twenty digits.
pub proof fn lemma_decimal_digits_u64(n: u64)
    ensures
        1 <= decimal_digits(n as nat).len() <= 20,
{
    assert(pow10(20) == 100000000000000000000) by {
        reveal_with_fuel(pow10, 21);
    }
    lemma_decimal_digits_len(n as nat, 20);
    lemma_decimal_digits_value(n as nat);
}

/// Digits put behind a string of digits extend its value.
pub proof fn lemma_digits_value_concat(a: Seq<u8>, b: Seq<u8>)
    ensures
        digits_value(a + b) == digits_value(a) * pow10(b.len()) + digits_value(b),
    decreases b.len(),
{
    if b.len() == 0 {
        assert(a + b =~= a);
        assert(pow10(0) == 1);
        assert(digits_value(a) * 1 == digits_value(a));
    } else {
        assert((a + b).drop_last() =~= a + b.drop_last());
        assert((a + b).last() == b.last());
        lemma_digits_value_concat(a, b.drop_last());
        let head = digits_value(a);
        let tail = digits_value(b.drop_last());
        let unit = pow10((b.len() - 1) as nat);
        assert(pow10(b.len()) == 10 * unit);
        assert(digits_value(a + b) == (head * unit + tail) * 10 + (b.last() - 48) as nat);
        assert(digits_value(b) == tail * 10 + (b.last() - 48) as nat);
        assert((head * unit + tail) * 10 == head * (10 * unit) + tail * 10) by (nonlinear_arith);
        assert(head * pow10(b.len()) == head * (10 * unit));
    }
}

/// Zeros stand for zero.
pub proof fn lemma_zeros_value(count: nat)
    ensures
        all_digits(zeros(count)),
        digits_value(zeros(count)) == 0,
    decreases count,
{
    if count > 0 {
        assert(zeros(count).drop_last() =~= zeros((count - 1) as nat));
        lemma_zeros_value((count - 1) as nat);
    }
}

/// A padded numeral is made of digits, stands for its number, and is exactly
/// as wide as it was padded when the number fits.
pub proof fn lemma_zero_padded(n: nat, width: nat)
    ensures
        all_digits(zero_padded(n, width)),
        digits_value(zero_padded(n, width)) == n,
        zero_padded(n, width).len() >= width,
        decimal_digits(n).len() <= width ==> zero_padded(n, width).len() == width,
{
    lemma_decimal_digits_value(n);
    let digits = decimal_digits(n);
    if digits.len() < width {
        let fill = zeros((width - digits.len()) as nat);
        lemma_zeros_value((width - digits.len()) as nat);
        lemma_digits_value_concat(fill, digits);
        assert(0 * pow10(digits.len()) == 0);
    }
}

/// Behind prefixes of one length, the order of two byte strings is that of
/// the prefixes, and that of the rests where the prefixes are equal.
pub proof fn lemma_bytes_lt_concat(p: Seq<u8>, r: Seq<u8>, q: Seq<u8>, t: Seq<u8>)
    requires
        p.len() == q.len(),
    ensures
        bytes_lt(p + r, q + t) == (if p == q {
            bytes_lt(r, t)
        } else {
            bytes_lt(p, q)
        }),
    decreases p.len(),
{
    if p.len() == 0 {
        assert(p =~= q);
        assert(p + r =~= r);
        assert(q + t =~= t);
    } else {
        assert((p + r).first() == p.first());
        assert((q + t).first() == q.first());
        assert((p + r).drop_first() =~= p.drop_first() + r);
        assert((q + t).drop_first() =~= q.drop_first() + t);
        lemma_bytes_lt_concat(p.drop_first(), r, q.drop_first(), t);
        if p.first() == q.first() {
            if p.drop_first() == q.drop_first() {
                assert(p =~= seq![p.first()] + p.drop_first());
                assert(q =~= seq![q.first()] + q.drop_first());
            }
        }
    }
}

/// Two strings of digits of one length are ordered as their numbers are.
pub proof fn lemma_digits_order(a: Seq<u8>, b: Seq<u8>)
    requires
        a.len() == b.len(),
        all_digits(a),
        all_digits(b),
    ensures
        bytes_lt(a, b) <==> digits_value(a) < digits_value(b),
        a == b <==> digits_value(a) == digits_value(b),
    decreases a.len(),
{
    if a.len() == 0 {
        assert(a =~= b);
    } else {
        let a0 = a.drop_last();
        let b0 = b.drop_last();
        assert(all_digits(a0)) by {
            assert forall|i: int| 0 <= i < a0.len() implies is_digit(#[trigger] a0[i]) by {
                assert(a0[i] == a[i]);
            }
        }
        assert(all_digits(b0)) by {
            assert forall|i: int| 0 <= i < b0.len() implies is_digit(#[trigger] b0[i]) by {
                assert(b0[i] == b[i]);
            }
        }
        lemma_digits_order(a0, b0);
        assert(a =~= a0 + seq![a.last()]);
        assert(b =~= b0 + seq![b.last()]);
        lemma_bytes_lt_concat(a0, seq![a.last()], b0, seq![b.last()]);
        assert(is_digit(a[a.len() - 1]));
        assert(is_digit(b[b.len() - 1]));
        let x = seq![a.last()];
        let y = seq![b.last()];
        assert(bytes_lt(x, y) == (a.last() < b.last())) by {
            assert(x.drop_first() =~= Seq::<u8>::empty());
            assert(y.drop_first() =~= Seq::<u8>::empty());
            assert(!bytes_lt(Seq::<u8>::empty(), Seq::<u8>::empty()));
        }
        if a0 == b0 {
            if a.last() == b.last() {
                assert(a =~= b);
            }
        }
    }
}

/// Appends the shortest decimal numeral of `n` to `out`.
pub fn push_decimal(out: &mut Vec<u8>, n: u64)
    ensures
        final(out)@ == old(out)@ + decimal_digits(n as nat),
    decreases n,
{
    if n >= 10 {
        push_decimal(out, n / 10);
    }
    let digit: u8 = (n % 10) as u8;
    out.push(48 + digit);
    proof {
        if n >= 10 {
            assert(old(out)@ + decimal_digits((n / 10) as nat).push(digit_byte((n % 10) as nat))
                =~= (old(out)@ + decimal_digits((n / 10) as nat)).push(
                digit_byte((n % 10) as nat),
            ));
        } else {
            assert(old(out)@ + seq![digit_byte(n as nat)] =~= old(out)@.push(
                digit_byte(n as nat),
            ));
        }
    }
}

/// The number of digits of the shortest decimal numeral of `n`.
pub fn decimal_width(n: u64) -> (width: usize)
    ensures
        width == decimal_digits(n as nat).len(),
        1 <= width <= 20,
    decreases n,
{
    proof {
        lemma_decimal_digits_u64(n);
    }
    if n >= 10 {
        decimal_width(n / 10) + 1
    } else {
        1
    }
}

/// Appends the decimal numeral of `n` to `out`, filled with leading zeros up
/// to `width` digits.
pub fn push_zero_padded(out: &mut Vec<u8>, n: u64, width: usize)
    ensures
        final(out)@ == old(out)@ + zero_padded(n as nat, width as nat),
{
    let used = decimal_width(n);
    let mut filled: usize = used;
    while filled < width
        invariant
            used <= filled,
            filled <= width || filled == used,
            out@ == old(out)@ + zeros((filled - used) as nat),
        decreases width - filled,
    {
        out.push(48);
        assert(zeros((filled + 1 - used) as nat) =~= zeros((filled - used) as nat).push(48u8));
        assert(out@ =~= old(out)@ + zeros((filled + 1 - used) as nat));
        filled += 1;
    }
    push_decimal(out, n);
    assert(out@ =~= old(out)@ + zero_padded(n as nat, width as nat)) by {
        if used >= width {
            assert(zeros(0) =~= Seq::<u8>::empty());
        }
    }
}

/// A longer string of digits does not stand for less than its beginning.
proof fn lemma_digits_value_prefix(s: Seq<u8>, n: int)
    requires
        0 <= n <= s.len(),
    ensures
        digits_value(s.take(n)) <= digits_value(s),
    decreases s.len() - n,
{
    if n < s.len() {
        lemma_digits_value_prefix(s, n + 1);
        assert(s.take(n + 1).drop_last() =~= s.take(n));
    } else {
        assert(s.take(n) =~= s);
    }
}

/// Reads a number of 64 bits: an optional `+`, then one digit or more and
/// nothing else. Any other text, and a value above `u64::MAX`, gives `None`.
pub fn parse_u64(text: &[u8]) -> (value: Option<u64>)
    ensures
        value == parsed_u64(text@),
{
    let start: usize = if text.len() > 0 && text[0] == 43 {
        1
    } else {
        0
    };
    let ghost digits = text@.skip(start as int);
    assert(digits =~= if text@.len() > 0 && text@[0] == 43 {
        text@.drop_first()
    } else {
        text@
    });
    if start == text.len() {
        return None;
    }
    let mut acc: u64 = 0;
    let mut i: usize = start;
    assert(digits.take(0) =~= Seq::<u8>::empty());
    while i < text.len()
        invariant
            start <= i <= text.len(),
            digits == text@.skip(start as int),
            digits == (if text@.len() > 0 && text@[0] == 43 {
                text@.drop_first()
            } else {
                text@
            }),
            all_digits(digits.take(i - start)),
            acc == digits_value(digits.take(i - start)),
        decreases text.len() - i,
    {
        let b = text[i];
        assert(digits[i - start] == b);
        assert(digits.take(i - start + 1).drop_last() =~= digits.take(i - start));
        if b < 48 || b > 57 {
            assert(!is_digit(digits[i - start]));
            return None;
        }
        let d: u64 = (b - 48) as u64;
        assert(digits_value(digits.take(i - start + 1)) == acc * 10 + d) by {
            assert(digits.take(i - start + 1).last() == b);
        }
        let next = match acc.checked_mul(10) {
            Some(tens) => tens.checked_add(d),
            None => None,
        };
        match next {
            Some(v) => {
                acc = v;
            },
            None => {
                proof {
                    lemma_digits_value_prefix(digits, i - start + 1);
                }
                return None;
            },
        }
        assert(all_digits(digits.take(i - start + 1))) by {
            assert forall|j: int| 0 <= j < i - start + 1 implies is_digit(
                #[trigger] digits.take(i - start + 1)[j],
            ) by {
                if j < i - start {
                    assert(digits.take(i - start)[j] == digits[j]);
                }
            }
        }
        i += 1;
    }
    assert(digits.take(i - start) =~= digits);
    Some(acc)
}

} // verus!
