//! Decimal numbers as they are written in text.

use vstd::prelude::*;

verus! {

/// Whether `b` is one of the digits `0` to `9`.
pub open spec fn is_digit(b: u8) -> bool {
    48 <= b && b <= 57
}

/// The number that the digits `d` write in base ten.
pub open spec fn digits_value(d: Seq<u8>) -> nat
    decreases d.len(),
{
    if d.len() == 0 {
        0
    } else {
        (digits_value(d.drop_last()) * 10 + (d.last() - 48)) as nat
    }
}

/// The digits of a decimal number: `w` without a plus sign in front.
pub open spec fn unsigned_part(w: Seq<u8>) -> Seq<u8> {
    if w.len() > 0 && w[0] == 43u8 {
        w.skip(1)
    } else {
        w
    }
}

/// The number that `w` writes: one or more digits, a plus sign allowed in
/// front, and a value that fits in `usize`. Anything else is no number.
pub open spec fn decimal(w: Seq<u8>) -> Option<nat> {
    let d = unsigned_part(w);
    if all_digits(d) && digits_value(d) <= usize::MAX {
        Some(digits_value(d))
    } else {
        None
    }
}

/// The digits read so far write no more than all the digits do.
proof fn lemma_digits_prefix(d: Seq<u8>, k: int)
    requires
        0 <= k <= d.len(),
        forall|i: int| 0 <= i < d.len() ==> is_digit(d[i]),
    ensures
        digits_value(d.take(k)) <= digits_value(d),
    decreases d.len() - k,
{
    if k < d.len() {
        lemma_digits_prefix(d, k + 1);
        assert(d.take(k + 1).drop_last() =~= d.take(k));
    } else {
        assert(d.take(k) =~= d);
    }
}

/// Whether `d` is one or more digits.
pub open spec fn all_digits(d: Seq<u8>) -> bool {
    d.len() > 0 && forall|i: int| 0 <= i < d.len() ==> is_digit(d[i])
}

/// Reads a run of digits: their value, if they are one or more digits that
/// write a number no greater than `u64::MAX`.
pub fn parse_digits(d: &[u8]) -> (r: Option<u64>)
    ensures
        match r {
            Some(v) => all_digits(d@) && digits_value(d@) == v,
            None => !all_digits(d@) || digits_value(d@) > u64::MAX,
        },
{
    let n: usize = d.len();
    if n == 0 {
        return None;
    }
    let mut value: u64 = 0;
    let mut i: usize = 0;
    assert(d@.take(0) =~= Seq::<u8>::empty());
    while i < n
        invariant
            n == d@.len(),
            i <= n,
            n > 0,
            forall|k: int| 0 <= k < i ==> is_digit(d@[k]),
            value == digits_value(d@.take(i as int)),
        decreases n - i,
    {
        let b: u8 = d[i];
        if !(48 <= b && b <= 57) {
            assert(!is_digit(d@[i as int]));
            return None;
        }
        let ghost next = d@.take(i + 1);
        assert(next.drop_last() =~= d@.take(i as int));
        assert(next.last() == b);
        let digit: u64 = (b - 48) as u64;
        let scaled: Option<u64> = value.checked_mul(10);
        let sum: Option<u64> = match scaled {
            Some(v) => v.checked_add(digit),
            None => None,
        };
        match sum {
            Some(v) => {
                value = v;
            },
            None => {
                proof {
                    assert(digits_value(next) > u64::MAX);
                    if forall|k: int| 0 <= k < d@.len() ==> is_digit(d@[k]) {
                        lemma_digits_prefix(d@, i + 1);
                    }
                }
                return None;
            },
        }
        i += 1;
    }
    assert(d@.take(n as int) =~= d@);
    Some(value)
}

/// Reads a decimal number.
pub fn parse_decimal(w: &[u8]) -> (r: Option<usize>)
    ensures
        match r {
            Some(v) => decimal(w@) == Some(v as nat),
            None => decimal(w@) is None,
        },
{
    let n: usize = w.len();
    let start: usize = if n > 0 && w[0] == 43 { 1 } else { 0 };
    let digits: &[u8] = &w[start..n];
    assert(digits@ =~= unsigned_part(w@));
    match parse_digits(digits) {
        Some(v) => {
            if v <= usize::MAX as u64 {
                Some(v as usize)
            } else {
                None
            }
        },
        None => None,
    }
}

/// The integer that `w` writes: one or more digits, a plus or a minus sign
/// allowed in front, and a value that fits in `i64`. Anything else is no
/// integer.
pub open spec fn integer(w: Seq<u8>) -> Option<int> {
    let negative = w.len() > 0 && w[0] == 45u8;
    let d = if negative {
        w.skip(1)
    } else {
        unsigned_part(w)
    };
    let v = if negative {
        -(digits_value(d) as int)
    } else {
        digits_value(d) as int
    };
    if all_digits(d) && i64::MIN <= v && v <= i64::MAX {
        Some(v)
    } else {
        None
    }
}

/// Reads an integer.
pub fn parse_integer(w: &[u8]) -> (r: Option<i64>)
    ensures
        match r {
            Some(v) => integer(w@) == Some(v as int),
            None => integer(w@) is None,
        },
{
    let n: usize = w.len();
    let negative: bool = n > 0 && w[0] == 45;
    let start: usize = if n > 0 && (w[0] == 45 || w[0] == 43) { 1 } else { 0 };
    let digits: &[u8] = &w[start..n];
    assert(digits@ =~= w@.skip(start as int));
    assert(w@.skip(0) =~= w@);
    match parse_digits(digits) {
        None => None,
        Some(v) => {
            if negative {
                if v <= 9223372036854775807 {
                    Some(-(v as i64))
                } else if v == 9223372036854775808 {
                    Some(i64::MIN)
                } else {
                    None
                }
            } else if v <= 9223372036854775807 {
                Some(v as i64)
            } else {
                None
            }
        },
    }
}

/// The digits that write `n` in base ten, without zeros in front.
pub open spec fn digits_of(n: nat) -> Seq<u8>
    decreases n,
{
    if n < 10 {
        seq![(48 + n) as u8]
    } else {
        digits_of(n / 10).push((48 + n % 10) as u8)
    }
}

/// The text that writes the integer `n` in base ten: a minus sign in front
/// of a negative number.
pub open spec fn integer_text(n: int) -> Seq<u8> {
    if n < 0 {
        seq![45u8] + digits_of((-n) as nat)
    } else {
        digits_of(n as nat)
    }
}

/// The digits of a number are digits, and they write that number.
pub proof fn lemma_digits_of(n: nat)
    ensures
        digits_of(n).len() >= 1,
        forall|i: int| 0 <= i < digits_of(n).len() ==> is_digit(#[trigger] digits_of(n)[i]),
        digits_value(digits_of(n)) == n,
    decreases n,
{
    let d = digits_of(n);
    if n < 10 {
        assert(d.drop_last() =~= Seq::<u8>::empty());
        assert(digits_value(d.drop_last()) == 0);
        assert(d.last() == 48 + n);
        assert(digits_value(d) == (digits_value(d.drop_last()) * 10 + (d.last() - 48)) as nat);
    } else {
        lemma_digits_of(n / 10);
        assert(d.drop_last() =~= digits_of(n / 10));
        assert(d.last() == 48 + n % 10);
        assert(digits_value(d) == (digits_value(d.drop_last()) * 10 + (d.last() - 48)) as nat);
    }
}

/// A number that is written out and read again is the same number.
pub proof fn lemma_decimal_of_digits(n: nat)
    requires
        n <= usize::MAX,
    ensures
        decimal(digits_of(n)) == Some(n),
{
    lemma_digits_of(n);
    assert(is_digit(digits_of(n)[0]));
}

/// An integer that is written out and read again is the same integer.
pub proof fn lemma_integer_of_text(n: int)
    requires
        i64::MIN <= n <= i64::MAX,
    ensures
        integer(integer_text(n)) == Some(n),
{
    if n < 0 {
        let d = digits_of((-n) as nat);
        lemma_digits_of((-n) as nat);
        let w = seq![45u8] + d;
        assert(w.skip(1) =~= d);
        assert(w[0] == 45u8);
    } else {
        let d = digits_of(n as nat);
        lemma_digits_of(n as nat);
        assert(is_digit(d[0]));
    }
}

/// Appends the digits of `n` to `out`.
pub fn push_decimal(out: &mut Vec<u8>, n: u64)
    ensures
        final(out)@ == old(out)@ + digits_of(n as nat),
    decreases n,
{
    if n >= 10 {
        push_decimal(out, n / 10);
    }
    let digit: u8 = (n % 10) as u8;
    out.push(48 + digit);
    assert(out@ =~= old(out)@ + digits_of(n as nat));
}

/// The digits of `n`.
pub fn print_decimal(n: u64) -> (out: Vec<u8>)
    ensures
        out@ == digits_of(n as nat),
{
    let mut out: Vec<u8> = Vec::new();
    push_decimal(&mut out, n);
    assert(out@ =~= digits_of(n as nat));
    out
}

/// Appends the text of the integer `n` to `out`.
pub fn push_integer(out: &mut Vec<u8>, n: i64)
    ensures
        final(out)@ == old(out)@ + integer_text(n as int),
{
    if n < 0 {
        out.push(45);
        let magnitude: u64 = (-(n + 1)) as u64 + 1;
        push_decimal(out, magnitude);
        assert(out@ =~= old(out)@ + integer_text(n as int));
    } else {
        push_decimal(out, n as u64);
    }
}

} // verus!
