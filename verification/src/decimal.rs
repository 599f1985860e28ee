//! Decimal digits: formatting integers and parsing them back, with the
//! acceptance rules of `str::parse` for `usize` and `isize`.

use vstd::prelude::*;

verus! {

/// `b` is an ASCII decimal digit.
pub open spec fn is_digit(b: u8) -> bool {
    48 <= b && b <= 57
}

/// Every byte of `s` is an ASCII decimal digit.
pub open spec fn all_digits(s: Seq<u8>) -> bool {
    forall|i: int| 0 <= i < s.len() ==> #[trigger] is_digit(s[i])
}

/// The number that a string of decimal digits denotes.
pub open spec fn digits_value(s: Seq<u8>) -> nat
    decreases s.len(),
{
    if s.len() == 0 {
        0
    } else {
        digits_value(s.drop_last()) * 10 + (s.last() - 48) as nat
    }
}

/// The shortest decimal representation of `n` (no sign, no leading zeros).
pub open spec fn decimal(n: nat) -> Seq<u8>
    decreases n,
{
    if n < 10 {
        seq![(n + 48) as u8]
    } else {
        decimal(n / 10).push((n % 10 + 48) as u8)
    }
}

/// Decimal representation of a signed number: a `-` in front of negative ones.
pub open spec fn signed_decimal(n: int) -> Seq<u8> {
    if n < 0 {
        seq![45u8] + decimal((-n) as nat)
    } else {
        decimal(n as nat)
    }
}

/// What `str::parse::<usize>` accepts: an optional `+`, then one or more digits,
/// of a value that fits in `usize`.
pub open spec fn parse_usize_spec(s: Seq<u8>) -> Option<usize> {
    let d = if s.len() > 0 && s[0] == 43u8 { s.drop_first() } else { s };
    if d.len() > 0 && all_digits(d) && digits_value(d) <= usize::MAX {
        Some(digits_value(d) as usize)
    } else {
        None
    }
}

/// What `str::parse::<isize>` accepts: an optional `+` or `-`, then one or
/// more digits, of a value in the range of `isize`.
pub open spec fn parse_isize_spec(s: Seq<u8>) -> Option<isize> {
    let signed = s.len() > 0 && (s[0] == 43u8 || s[0] == 45u8);
    let neg = s.len() > 0 && s[0] == 45u8;
    let d = if signed { s.drop_first() } else { s };
    let v: int = if neg { -digits_value(d) } else { digits_value(d) as int };
    if d.len() > 0 && all_digits(d) && isize::MIN <= v && v <= isize::MAX {
        Some(v as isize)
    } else {
        None
    }
}

/// Every digit string is at least as large as its prefixes.
pub proof fn lemma_digits_value_prefix(s: Seq<u8>, k: int)
    requires
        all_digits(s),
        0 <= k <= s.len(),
    ensures
        digits_value(s.take(k)) <= digits_value(s),
    decreases s.len(),
{
    if k == s.len() {
        assert(s.take(k) =~= s);
    } else {
        let t = s.drop_last();
        assert(all_digits(t)) by {
            assert forall|i: int| 0 <= i < t.len() implies #[trigger] is_digit(t[i]) by {
                assert(is_digit(s[i]));
            }
        }
        lemma_digits_value_prefix(t, k);
        assert(t.take(k) =~= s.take(k));
    }
}

/// The decimal representation consists of digits only.
pub proof fn lemma_decimal_digits(n: nat)
    ensures
        all_digits(decimal(n)),
        decimal(n).len() >= 1,
        decimal(n)[0] == 48u8 <==> n == 0,
    decreases n,
{
    if n < 10 {
        assert(is_digit(decimal(n)[0]));
    } else {
        lemma_decimal_digits(n / 10);
        let p = decimal(n / 10);
        assert(decimal(n) =~= p.push((n % 10 + 48) as u8));
        assert forall|i: int| 0 <= i < decimal(n).len() implies #[trigger] is_digit(decimal(n)[i]) by {
            if i < p.len() {
                assert(is_digit(p[i]));
            }
        }
    }
}

/// Reading back a decimal representation gives the number.
pub proof fn lemma_decimal_value(n: nat)
    ensures
        digits_value(decimal(n)) == n,
    decreases n,
{
    if n < 10 {
        assert(decimal(n).drop_last() =~= Seq::<u8>::empty());
        assert(((n + 48) as u8) as int == n + 48);
        assert(decimal(n).last() == (n + 48) as u8);
        assert(digits_value(Seq::<u8>::empty()) == 0);
        assert(digits_value(decimal(n)) == digits_value(decimal(n).drop_last()) * 10 + (decimal(n).last() - 48) as nat);
    } else {
        lemma_decimal_value(n / 10);
        let p = decimal(n / 10);
        assert(decimal(n).drop_last() =~= p);
        assert(((n % 10 + 48) as u8) as int == n % 10 + 48);
        assert(decimal(n).last() == (n % 10 + 48) as u8);
        assert(digits_value(decimal(n)) == digits_value(decimal(n).drop_last()) * 10 + (decimal(n).last() - 48) as nat);
        assert((n / 10) * 10 + n % 10 == n) by (nonlinear_arith);
    }
}

/// Value of digits `s[start..]`, if they are one or more digits of a value at most `cap`.
fn bounded_digits_value(s: &[u8], start: usize, cap: u128) -> (r: Option<u128>)
    requires
        start <= s@.len(),
        cap <= u64::MAX,
    ensures
        ({
            let d = s@.subrange(start as int, s@.len() as int);
            match r {
                Some(v) => d.len() > 0 && all_digits(d) && v == digits_value(d) && v <= cap,
                None => !(d.len() > 0 && all_digits(d) && digits_value(d) <= cap),
            }
        }),
{
    let ghost d = s@.subrange(start as int, s@.len() as int);
    if start >= s.len() {
        return None;
    }
    let mut i = start;
    while i < s.len()
        invariant
            start <= i <= s@.len(),
            d == s@.subrange(start as int, s@.len() as int),
            forall|j: int| start <= j < i ==> #[trigger] is_digit(s@[j]),
        decreases s@.len() - i,
    {
        if !(48 <= s[i] && s[i] <= 57) {
            assert(!is_digit(d[i - start]));
            return None;
        }
        i += 1;
    }
    assert(all_digits(d)) by {
        assert forall|j: int| 0 <= j < d.len() implies #[trigger] is_digit(d[j]) by {
            assert(is_digit(s@[j + start]));
        }
    }
    let mut acc: u128 = 0;
    let mut k = start;
    while k < s.len()
        invariant
            start <= k <= s@.len(),
            d == s@.subrange(start as int, s@.len() as int),
            all_digits(d),
            acc <= cap,
            cap <= u64::MAX,
            acc == digits_value(d.take(k - start)),
        decreases s@.len() - k,
    {
        assert(is_digit(d[k - start]));
        assert(d[k - start] == s@[k as int]);
        let digit = s[k] - 48;
        assert(d.take(k - start + 1).drop_last() =~= d.take(k - start));
        let next = acc * 10 + digit as u128;
        if next > cap {
            proof {
                lemma_digits_value_prefix(d, k - start + 1);
            }
            return None;
        }
        acc = next;
        k += 1;
    }
    assert(d.take(d.len() as int) =~= d);
    Some(acc)
}

/// Parses decimal digits like `str::parse::<usize>`.
pub fn parse_usize(s: &[u8]) -> (r: Option<usize>)
    ensures
        r == parse_usize_spec(s@),
{
    let start: usize = if s.len() > 0 && s[0] == 43u8 { 1 } else { 0 };
    let ghost d = if s@.len() > 0 && s@[0] == 43u8 { s@.drop_first() } else { s@ };
    assert(d =~= s@.subrange(start as int, s@.len() as int));
    match bounded_digits_value(s, start, usize::MAX as u128) {
        Some(v) => Some(v as usize),
        None => None,
    }
}

/// Parses a signed decimal number like `str::parse::<isize>`.
pub fn parse_isize(s: &[u8]) -> (r: Option<isize>)
    ensures
        r == parse_isize_spec(s@),
{
    let signed = s.len() > 0 && (s[0] == 43u8 || s[0] == 45u8);
    let neg = s.len() > 0 && s[0] == 45u8;
    let start: usize = if signed { 1 } else { 0 };
    let ghost d = if signed { s@.drop_first() } else { s@ };
    assert(d =~= s@.subrange(start as int, s@.len() as int));
    let cap: u128 = if neg { isize::MAX as u128 + 1 } else { isize::MAX as u128 };
    match bounded_digits_value(s, start, cap) {
        Some(v) => {
            if neg {
                if v == isize::MAX as u128 + 1 {
                    Some(isize::MIN)
                } else {
                    Some(-(v as isize))
                }
            } else {
                Some(v as isize)
            }
        },
        None => None,
    }
}

/// Decimal digits of `n` (most significant first), without leading zeros.
pub fn u128_to_decimal(n: u128) -> (r: Vec<u8>)
    ensures
        r@ == decimal(n as nat),
{
    let mut out: Vec<u8> = Vec::new();
    let mut m = n;
    while m >= 10
        invariant
            decimal(n as nat) == decimal(m as nat) + out@,
        decreases m,
    {
        let digit = (m % 10) as u8 + 48;
        let ghost old_out = out@;
        out.insert(0, digit);
        assert(out@ =~= seq![digit] + old_out);
        assert(decimal(m as nat) =~= decimal((m / 10) as nat).push(digit));
        assert(decimal(m as nat) + old_out =~= decimal((m / 10) as nat) + out@);
        m = m / 10;
    }
    let digit = m as u8 + 48;
    let ghost old_out = out@;
    out.insert(0, digit);
    assert(decimal(m as nat) =~= seq![digit]);
    assert(out@ =~= decimal(m as nat) + old_out);
    out
}

/// Decimal digits of a signed number, with a leading `-` when negative.
pub fn i128_to_decimal(n: i128) -> (r: Vec<u8>)
    requires
        n > i128::MIN,
    ensures
        r@ == signed_decimal(n as int),
{
    if n < 0 {
        let digits = u128_to_decimal((-n) as u128);
        let mut out: Vec<u8> = Vec::new();
        out.push(45u8);
        let mut i: usize = 0;
        while i < digits.len()
            invariant
                0 <= i <= digits@.len(),
                out@ == seq![45u8] + digits@.take(i as int),
            decreases digits@.len() - i,
        {
            out.push(digits[i]);
            i += 1;
            assert(out@ =~= seq![45u8] + digits@.take(i as int));
        }
        assert(digits@.take(digits@.len() as int) =~= digits@);
        out
    } else {
        u128_to_decimal(n as u128)
    }
}

} // verus!

verus! {

/// Reading the decimal text of a number as `usize` gives the number back.
pub proof fn lemma_parse_decimal_usize(n: usize)
    ensures
        parse_usize_spec(decimal(n as nat)) == Some(n),
{
    lemma_decimal_digits(n as nat);
    lemma_decimal_value(n as nat);
    assert(is_digit(decimal(n as nat)[0]));
}

} // verus!
