//! Range requests (RFC 9110): byte ranges, range units, and the `Range` and
//! `Content-Range` header values.

use vstd::prelude::*;
use vstd::string::StringSliceAdditionalSpecFns;

use crate::decimal::{
    decimal, i128_to_decimal, parse_isize, parse_isize_spec, parse_usize, parse_usize_spec,
    signed_decimal, u128_to_decimal,
};
use crate::text::{
    append_bytes, find_byte, first_word, first_word_range, lemma_find_byte_is,
    lemma_find_byte_props,
};

verus! {

broadcast use vstd::string::is_ascii_spec_bytes;

/// Byte range as specified in RFC 9110.
#[derive(Clone, Copy, Debug, Eq, PartialEq, Structural)]
pub struct ByteRange {
    /// Complete length, relevant in a `Content-Range`
    pub complete_length: Option<usize>,
    /// First inclusive position
    pub first_pos: Option<isize>,
    /// `true` for a range that cannot be satisfied (status 416)
    pub is_unsatisfied: bool,
    /// Last inclusive position
    pub last_pos: Option<isize>,
}

impl ByteRange {
    /// The range from `first_pos` to `last_pos`, both inclusive.
    pub fn new(first_pos: isize, last_pos: isize) -> (r: ByteRange)
        ensures
            r == (ByteRange {
                complete_length: None,
                first_pos: Some(first_pos),
                is_unsatisfied: false,
                last_pos: Some(last_pos),
            }),
    {
        ByteRange {
            complete_length: None,
            first_pos: Some(first_pos),
            is_unsatisfied: false,
            last_pos: Some(last_pos),
        }
    }

    /// Sets the complete length (`None` for an unknown length).
    pub fn set_complete_length(&mut self, length: Option<usize>)
        ensures
            *final(self) == (ByteRange { complete_length: length, ..*old(self) }),
    {
        self.complete_length = length;
    }

    /// Marks the range as not satisfiable.
    pub fn set_unsatisfied(&mut self)
        ensures
            *final(self) == (ByteRange { is_unsatisfied: true, ..*old(self) }),
    {
        self.is_unsatisfied = true;
    }

    /// The range with nothing set.
    pub open spec fn empty_spec() -> ByteRange {
        ByteRange { complete_length: None, first_pos: None, is_unsatisfied: false, last_pos: None }
    }

    /// The range used for a part that cannot be read: unsatisfied, nothing else set.
    pub open spec fn unreadable_spec() -> ByteRange {
        ByteRange { complete_length: None, first_pos: None, is_unsatisfied: true, last_pos: None }
    }
}

/// What reading the positions part of a byte range (`first-last`) gives;
/// `None` where the reading would overflow.
///
/// The part is cut at its first `-`; each side is reduced to its first word.
/// An empty left side makes a suffix range: the right side, negated, is the
/// last position (`-1` when there is no right side). A left side starting
/// with `*` marks the range unsatisfied and ends the reading.
pub open spec fn positions_spec(p: Seq<u8>) -> Option<Result<ByteRange, ()>> {
    let d = find_byte(p, 45u8);
    let has_right = d < p.len();
    let w0 = first_word(p.take(d));
    let w1 = first_word(p.skip(d + 1));
    let e = ByteRange::empty_spec();
    if w0.len() == 0 {
        if has_right {
            match parse_isize_spec(w1) {
                None => Some(Err(())),
                Some(v) => if v == isize::MIN {
                    None
                } else {
                    Some(Ok(ByteRange { last_pos: Some((-v) as isize), ..e }))
                },
            }
        } else {
            Some(Ok(ByteRange { last_pos: Some(-1isize), ..e }))
        }
    } else if w0[0] == 42u8 {
        Some(Ok(ByteRange { is_unsatisfied: true, ..e }))
    } else {
        match parse_isize_spec(w0) {
            None => Some(Err(())),
            Some(f) => if has_right && w1.len() > 0 {
                match parse_isize_spec(w1) {
                    None => Some(Err(())),
                    Some(l) => Some(Ok(ByteRange { first_pos: Some(f), last_pos: Some(l), ..e })),
                }
            } else {
                Some(Ok(ByteRange { first_pos: Some(f), ..e }))
            },
        }
    }
}

/// What reading a byte range `first-last[/complete]` gives; `None` where the
/// reading would fail on an empty complete length or an overflow.
///
/// The text is cut at its first `/`; after it, the first word is `*` or the
/// complete length.
pub open spec fn byte_range_spec(s: Seq<u8>) -> Option<Result<ByteRange, ()>> {
    let slash = find_byte(s, 47u8);
    match positions_spec(s.take(slash)) {
        None => None,
        Some(Err(())) => Some(Err(())),
        Some(Ok(r)) => if slash < s.len() {
            let cl = first_word(s.skip(slash + 1));
            if cl.len() == 0 {
                None
            } else if cl[0] == 42u8 {
                Some(Ok(r))
            } else {
                match parse_usize_spec(cl) {
                    None => Some(Err(())),
                    Some(n) => Some(Ok(ByteRange { complete_length: Some(n), ..r })),
                }
            }
        } else {
            Some(Ok(r))
        },
    }
}

/// Reads the positions part `s[from..to]` of a byte range.
fn parse_positions(s: &[u8], from: usize, to: usize) -> (r: Result<ByteRange, ()>)
    requires
        from <= to <= s@.len(),
        positions_spec(s@.subrange(from as int, to as int)) is Some,
    ensures
        Some(r) == positions_spec(s@.subrange(from as int, to as int)),
{
    let ghost p = s@.subrange(from as int, to as int);
    let mut d = from;
    while d < to && s[d] != 45u8
        invariant
            from <= d <= to <= s@.len(),
            forall|j: int| from <= j < d ==> #[trigger] s@[j] != 45u8,
        decreases to - d,
    {
        d += 1;
    }
    proof {
        assert forall|j: int| 0 <= j < d - from implies #[trigger] p[j] != 45u8 by {
            assert(s@[j + from] == p[j]);
        }
        lemma_find_byte_is(p, 45u8, d - from);
    }
    let has_right = d < to;
    let (a0, b0) = first_word_range(s, from, d);
    assert(s@.subrange(from as int, d as int) =~= p.take(d - from));
    let (a1, b1) = if has_right {
        first_word_range(s, d + 1, to)
    } else {
        (to, to)
    };
    assert(has_right ==> s@.subrange(d + 1, to as int) =~= p.skip(d - from + 1));
    let w0 = &s[a0..b0];
    let w1 = &s[a1..b1];
    if w0.len() == 0 {
        if has_right {
            match parse_isize(w1) {
                None => Err(()),
                Some(v) => Ok(ByteRange {
                    complete_length: None,
                    first_pos: None,
                    is_unsatisfied: false,
                    last_pos: Some(-v),
                }),
            }
        } else {
            Ok(ByteRange { complete_length: None, first_pos: None, is_unsatisfied: false, last_pos: Some(-1) })
        }
    } else if w0[0] == 42u8 {
        Ok(ByteRange { complete_length: None, first_pos: None, is_unsatisfied: true, last_pos: None })
    } else {
        match parse_isize(w0) {
            None => Err(()),
            Some(f) => {
                if has_right && w1.len() > 0 {
                    match parse_isize(w1) {
                        None => Err(()),
                        Some(l) => Ok(ByteRange {
                            complete_length: None,
                            first_pos: Some(f),
                            is_unsatisfied: false,
                            last_pos: Some(l),
                        }),
                    }
                } else {
                    Ok(ByteRange {
                        complete_length: None,
                        first_pos: Some(f),
                        is_unsatisfied: false,
                        last_pos: None,
                    })
                }
            },
        }
    }
}

/// Reads the byte range `s[from..to]`.
fn parse_byte_range_in(s: &[u8], from: usize, to: usize) -> (r: Result<ByteRange, ()>)
    requires
        from <= to <= s@.len(),
        byte_range_spec(s@.subrange(from as int, to as int)) is Some,
    ensures
        Some(r) == byte_range_spec(s@.subrange(from as int, to as int)),
{
    let ghost t = s@.subrange(from as int, to as int);
    let mut slash = from;
    while slash < to && s[slash] != 47u8
        invariant
            from <= slash <= to <= s@.len(),
            forall|j: int| from <= j < slash ==> #[trigger] s@[j] != 47u8,
        decreases to - slash,
    {
        slash += 1;
    }
    proof {
        assert forall|j: int| 0 <= j < slash - from implies #[trigger] t[j] != 47u8 by {
            assert(s@[j + from] == t[j]);
        }
        lemma_find_byte_is(t, 47u8, slash - from);
    }
    assert(s@.subrange(from as int, slash as int) =~= t.take(slash - from));
    let r = parse_positions(s, from, slash)?;
    if slash < to {
        let (a, b) = first_word_range(s, slash + 1, to);
        assert(s@.subrange(slash + 1, to as int) =~= t.skip(slash - from + 1));
        let cl = &s[a..b];
        if cl[0] == 42u8 {
            Ok(r)
        } else {
            match parse_usize(cl) {
                None => Err(()),
                Some(n) => Ok(ByteRange { complete_length: Some(n), ..r }),
            }
        }
    } else {
        Ok(r)
    }
}

impl ByteRange {
    /// Reads a byte range such as `0-499`, `-500`, `9500-`, `500-999/31923` or `*/34738`.
    pub fn parse(bytes: &[u8]) -> (r: Result<ByteRange, ()>)
        requires
            byte_range_spec(bytes@) is Some,
        ensures
            Some(r) == byte_range_spec(bytes@),
    {
        assert(bytes@.subrange(0, bytes@.len() as int) =~= bytes@);
        parse_byte_range_in(bytes, 0, bytes.len())
    }
}

} // verus!

verus! {

/// The text of a byte range as used in `Content-Range`.
pub open spec fn byte_range_text(r: ByteRange) -> Seq<u8> {
    if r.is_unsatisfied {
        match r.complete_length {
            Some(n) => seq![42u8, 47u8] + decimal(n as nat),
            None => seq![42u8, 47u8, 42u8],
        }
    } else {
        match (r.first_pos, r.last_pos) {
            (Some(f), Some(l)) => match r.complete_length {
                Some(n) => signed_decimal(f as int) + seq![45u8] + signed_decimal(l as int) + seq![47u8]
                    + decimal(n as nat),
                None => signed_decimal(f as int) + seq![45u8] + signed_decimal(l as int),
            },
            (Some(f), None) => match r.complete_length {
                Some(n) => signed_decimal(f as int) + seq![45u8] + decimal((n - 1) as nat) + seq![47u8]
                    + decimal(n as nat),
                None => signed_decimal(f as int) + seq![45u8],
            },
            (None, Some(l)) => match r.complete_length {
                Some(n) => seq![48u8, 45u8] + signed_decimal(l as int) + seq![47u8] + decimal(n as nat),
                None => signed_decimal(l as int),
            },
            (None, None) => seq![],
        }
    }
}

/// Formatting a range with a start but no end subtracts one from its complete length.
pub open spec fn byte_range_text_defined(r: ByteRange) -> bool {
    !(!r.is_unsatisfied && r.first_pos is Some && r.last_pos is None && r.complete_length
        == Some(0usize))
}

/// Appends the decimal digits of an unsigned number.
fn push_unsigned(out: &mut Vec<u8>, n: usize)
    ensures
        final(out)@ == old(out)@ + decimal(n as nat),
{
    let d = u128_to_decimal(n as u128);
    append_bytes(out, d.as_slice());
}

/// Appends the decimal digits of a signed number.
fn push_signed(out: &mut Vec<u8>, n: isize)
    ensures
        final(out)@ == old(out)@ + signed_decimal(n as int),
{
    let d = i128_to_decimal(n as i128);
    append_bytes(out, d.as_slice());
}

impl ByteRange {
    /// The range as text (`0-499`, `-500`, `9500-`, `500-999/31923`, `*/34738`, ...).
    pub fn to_bytes(&self) -> (r: Vec<u8>)
        requires
            byte_range_text_defined(*self),
        ensures
            r@ == byte_range_text(*self),
    {
        let mut out: Vec<u8> = Vec::new();
        if self.is_unsatisfied {
            out.push(42u8);
            out.push(47u8);
            match self.complete_length {
                Some(n) => push_unsigned(&mut out, n),
                None => out.push(42u8),
            }
        } else {
            match (self.first_pos, self.last_pos) {
                (Some(f), Some(l)) => {
                    push_signed(&mut out, f);
                    out.push(45u8);
                    push_signed(&mut out, l);
                    if let Some(n) = self.complete_length {
                        out.push(47u8);
                        push_unsigned(&mut out, n);
                    }
                },
                (Some(f), None) => {
                    push_signed(&mut out, f);
                    out.push(45u8);
                    if let Some(n) = self.complete_length {
                        push_unsigned(&mut out, n - 1);
                        out.push(47u8);
                        push_unsigned(&mut out, n);
                    }
                },
                (None, Some(l)) => {
                    if let Some(n) = self.complete_length {
                        out.push(48u8);
                        out.push(45u8);
                        push_signed(&mut out, l);
                        out.push(47u8);
                        push_unsigned(&mut out, n);
                    } else {
                        push_signed(&mut out, l);
                    }
                },
                (None, None) => {},
            }
        }
        assert(out@ =~= byte_range_text(*self));
        out
    }

    /// The range as text.
    pub fn to_string(&self) -> (r: String)
        requires
            byte_range_text_defined(*self),
        ensures
            r@ == crate::text::ascii_chars(byte_range_text(*self)),
    {
        let bytes = self.to_bytes();
        proof {
            lemma_byte_range_text_ascii(*self);
        }
        crate::text::ascii_as_str(bytes.as_slice()).to_owned()
    }
}

/// Decimal text is ASCII.
proof fn lemma_decimal_ascii(n: nat)
    ensures
        crate::text::is_ascii_bytes(decimal(n)),
        crate::common::header::value_bytes_ok(decimal(n)),
{
    crate::decimal::lemma_decimal_digits(n);
    assert forall|i: int| 0 <= i < decimal(n).len() implies #[trigger] decimal(n)[i] < 128 && crate::common::header::is_value_byte(decimal(n)[i]) by {
        assert(crate::decimal::is_digit(decimal(n)[i]));
    }
}

/// Signed decimal text is ASCII.
proof fn lemma_signed_decimal_ascii(n: int)
    ensures
        crate::text::is_ascii_bytes(signed_decimal(n)),
        crate::common::header::value_bytes_ok(signed_decimal(n)),
{
    if n < 0 {
        lemma_decimal_ascii((-n) as nat);
        let d = decimal((-n) as nat);
        let s = signed_decimal(n);
        assert forall|i: int| 0 <= i < s.len() implies #[trigger] s[i] < 128 && crate::common::header::is_value_byte(s[i]) by {
            if i > 0 {
                assert(s[i] == d[i - 1]);
            }
        }
    } else {
        lemma_decimal_ascii(n as nat);
    }
}

/// Bytes that are all ASCII and allowed in header values.
pub open spec fn plain_text(s: Seq<u8>) -> bool {
    crate::text::is_ascii_bytes(s) && crate::common::header::value_bytes_ok(s)
}

/// Joining plain text gives plain text.
proof fn lemma_plain_concat(a: Seq<u8>, b: Seq<u8>)
    requires
        plain_text(a),
        plain_text(b),
    ensures
        plain_text(a + b),
{
    assert forall|i: int| 0 <= i < (a + b).len() implies #[trigger] (a + b)[i] < 128 && crate::common::header::is_value_byte((a + b)[i]) by {
        if i < a.len() {
            assert((a + b)[i] == a[i]);
        } else {
            assert((a + b)[i] == b[i - a.len()]);
        }
    }
}

/// The text of a range is ASCII and allowed in header values.
pub proof fn lemma_byte_range_text_ascii(r: ByteRange)
    ensures
        plain_text(byte_range_text(r)),
{
    let star = seq![42u8, 47u8];
    assert(plain_text(star));
    assert(plain_text(seq![42u8, 47u8, 42u8]));
    assert(plain_text(seq![45u8]));
    assert(plain_text(seq![47u8]));
    assert(plain_text(seq![48u8, 45u8]));
    assert(plain_text(Seq::<u8>::empty()));
    if let Some(n) = r.complete_length {
        lemma_decimal_ascii(n as nat);
        lemma_decimal_ascii((n - 1) as nat);
    }
    if let Some(f) = r.first_pos {
        lemma_signed_decimal_ascii(f as int);
    }
    if let Some(l) = r.last_pos {
        lemma_signed_decimal_ascii(l as int);
    }
    if r.is_unsatisfied {
        if let Some(n) = r.complete_length {
            lemma_plain_concat(star, decimal(n as nat));
        }
    } else {
        match (r.first_pos, r.last_pos) {
            (Some(f), Some(l)) => {
                let a = signed_decimal(f as int) + seq![45u8];
                lemma_plain_concat(signed_decimal(f as int), seq![45u8]);
                lemma_plain_concat(a, signed_decimal(l as int));
                if let Some(n) = r.complete_length {
                    lemma_plain_concat(a + signed_decimal(l as int), seq![47u8]);
                    lemma_plain_concat(a + signed_decimal(l as int) + seq![47u8], decimal(n as nat));
                }
            },
            (Some(f), None) => {
                let a = signed_decimal(f as int) + seq![45u8];
                lemma_plain_concat(signed_decimal(f as int), seq![45u8]);
                if let Some(n) = r.complete_length {
                    lemma_plain_concat(a, decimal((n - 1) as nat));
                    lemma_plain_concat(a + decimal((n - 1) as nat), seq![47u8]);
                    lemma_plain_concat(a + decimal((n - 1) as nat) + seq![47u8], decimal(n as nat));
                }
            },
            (None, Some(l)) => {
                if let Some(n) = r.complete_length {
                    lemma_plain_concat(seq![48u8, 45u8], signed_decimal(l as int));
                    lemma_plain_concat(seq![48u8, 45u8] + signed_decimal(l as int), seq![47u8]);
                    lemma_plain_concat(seq![48u8, 45u8] + signed_decimal(l as int) + seq![47u8], decimal(n as nat));
                }
            },
            (None, None) => {},
        }
    }
}

} // verus!

verus! {

/// Range unit (RFC 9110).
#[derive(Clone, Copy, Debug, Eq, PartialEq, Structural)]
pub enum RangeUnit {
    /// reserved keyword telling that range requests are not supported
    NoRanges,
    /// a range of octets
    Bytes,
}

/// The name of a range unit.
pub open spec fn range_unit_name(u: RangeUnit) -> Seq<u8> {
    match u {
        RangeUnit::NoRanges => "none".spec_bytes(),
        RangeUnit::Bytes => "bytes".spec_bytes(),
    }
}

/// The name of a range unit as text.
pub open spec fn range_unit_text(u: RangeUnit) -> Seq<char> {
    match u {
        RangeUnit::NoRanges => "none"@,
        RangeUnit::Bytes => "bytes"@,
    }
}

/// What reading a range unit gives: its exact name.
pub open spec fn range_unit_spec(b: Seq<u8>) -> Result<RangeUnit, ()> {
    if b == "bytes".spec_bytes() {
        Ok(RangeUnit::Bytes)
    } else if b == "none".spec_bytes() {
        Ok(RangeUnit::NoRanges)
    } else {
        Err(())
    }
}

impl RangeUnit {
    /// The name of the unit (`none` or `bytes`).
    pub fn name(&self) -> (r: &'static str)
        ensures
            r.spec_bytes() == range_unit_name(*self),
    {
        match self {
            RangeUnit::NoRanges => "none",
            RangeUnit::Bytes => "bytes",
        }
    }

    /// The name of the unit as `String`.
    pub fn to_string(&self) -> (r: String)
        ensures
            r@ == range_unit_text(*self),
    {
        match self {
            RangeUnit::NoRanges => "none".to_owned(),
            RangeUnit::Bytes => "bytes".to_owned(),
        }
    }

    /// Reads a range unit from its exact name.
    pub fn parse(bytes: &[u8]) -> (r: Result<RangeUnit, ()>)
        ensures
            r == range_unit_spec(bytes@),
    {
        if crate::text::bytes_eq(bytes, "bytes".as_bytes()) {
            Ok(RangeUnit::Bytes)
        } else if crate::text::bytes_eq(bytes, "none".as_bytes()) {
            Ok(RangeUnit::NoRanges)
        } else {
            Err(())
        }
    }
}

/// A `Range` or `Content-Range` header value.
#[derive(Clone, Debug)]
pub struct RangeHeader {
    /// The unit of the ranges
    pub range_unit: RangeUnit,
    /// One or more byte ranges
    pub ranges: Vec<ByteRange>,
}

/// What reading a comma separated list of byte ranges gives; an item that
/// cannot be read becomes an unsatisfied range. `None` where reading an item
/// would fail.
pub open spec fn ranges_spec(s: Seq<u8>) -> Option<Seq<ByteRange>>
    decreases s.len(),
{
    let c = find_byte(s, 44u8);
    proof {
        lemma_find_byte_props(s, 44u8);
    }
    match byte_range_spec(s.take(c)) {
        None => None,
        Some(res) => {
            let item = match res {
                Ok(b) => b,
                Err(_) => ByteRange::unreadable_spec(),
            };
            if c < s.len() {
                match ranges_spec(s.skip(c + 1)) {
                    None => None,
                    Some(rs) => Some(seq![item] + rs),
                }
            } else {
                Some(seq![item])
            }
        },
    }
}

/// What reading a range header value gives; `None` where the reading would
/// fail on a value too short to hold a unit, or on a range item.
///
/// Only the text after the last colon counts, without leading blanks. It
/// must start with `none` (no ranges) or `bytes`; the byte after `bytes`
/// separates the unit from the comma separated ranges.
pub open spec fn range_header_spec(s: Seq<u8>) -> Option<Result<(RangeUnit, Seq<ByteRange>), ()>> {
    let v = crate::text::trim_start_blank(s.skip(crate::text::rfind_byte(s, 58u8) + 1));
    if v.len() < 4 {
        None
    } else if v.take(4) == "none".spec_bytes() {
        Some(Ok((RangeUnit::NoRanges, seq![])))
    } else if v.len() < 5 {
        None
    } else if v.take(5) != "bytes".spec_bytes() {
        Some(Err(()))
    } else if v.len() < 6 {
        None
    } else {
        let k = find_byte(v, v[5]);
        match range_unit_spec(v.take(k)) {
            Err(_) => Some(Err(())),
            Ok(u) => match ranges_spec(v.skip(k + 1)) {
                None => None,
                Some(rs) => Some(Ok((u, rs))),
            },
        }
    }
}

/// Reads the comma separated ranges in `s[from..]`.
fn parse_ranges(s: &[u8], from: usize) -> (r: Vec<ByteRange>)
    requires
        from <= s@.len(),
        ranges_spec(s@.skip(from as int)) is Some,
    ensures
        Some(r@) == ranges_spec(s@.skip(from as int)),
{
    let mut out: Vec<ByteRange> = Vec::new();
    let mut pos = from;
    let ghost full = ranges_spec(s@.skip(from as int));
    assert(out@ + ranges_spec(s@.skip(pos as int))->0 =~= ranges_spec(s@.skip(pos as int))->0);
    loop
        invariant
            full == ranges_spec(s@.skip(from as int)),
            from <= pos <= s@.len(),
            ranges_spec(s@.skip(pos as int)) is Some,
            full == Some(out@ + ranges_spec(s@.skip(pos as int))->0),
        decreases s@.len() - pos,
    {
        let ghost t = s@.skip(pos as int);
        let mut c = pos;
        while c < s.len() && s[c] != 44u8
            invariant
                pos <= c <= s@.len(),
                forall|j: int| pos <= j < c ==> #[trigger] s@[j] != 44u8,
            decreases s@.len() - c,
        {
            c += 1;
        }
        proof {
            assert forall|j: int| 0 <= j < c - pos implies #[trigger] t[j] != 44u8 by {
                assert(s@[j + pos] == t[j]);
            }
            lemma_find_byte_is(t, 44u8, c - pos);
        }
        assert(s@.subrange(pos as int, c as int) =~= t.take(c - pos));
        let item = match parse_byte_range_in(s, pos, c) {
            Ok(b) => b,
            Err(_) => ByteRange { complete_length: None, first_pos: None, is_unsatisfied: true, last_pos: None },
        };
        let ghost before = out@;
        out.push(item);
        if c >= s.len() {
            assert(ranges_spec(t) == Some(seq![item]));
            assert(out@ =~= before + seq![item]);
            assert(ranges_spec(t)->0 == seq![item]);
            assert(full == Some(before + seq![item]));
            assert(full == Some(out@));
            return out;
        }
        assert(t.skip(c - pos + 1) =~= s@.skip(c + 1));
        assert(before + ranges_spec(t)->0 =~= out@ + ranges_spec(s@.skip(c + 1))->0);
        pos = c + 1;
    }
}

impl RangeHeader {
    /// Reads a `Range` or `Content-Range` value such as `bytes=0-499,-500` or
    /// `Content-Range: bytes 500-999/31923`.
    pub fn parse(bytes: &[u8]) -> (r: Result<RangeHeader, ()>)
        requires
            range_header_spec(bytes@) is Some,
        ensures
            match range_header_spec(bytes@) {
                Some(Ok((u, rs))) => r matches Ok(h) && h.range_unit == u && h.ranges@ == rs,
                _ => r is Err,
            },
    {
        let mut colon: usize = bytes.len();
        while colon > 0 && bytes[colon - 1] != 58u8
            invariant
                0 <= colon <= bytes@.len(),
                forall|j: int| colon <= j < bytes@.len() ==> #[trigger] bytes@[j] != 58u8,
            decreases colon,
        {
            colon -= 1;
        }
        proof {
            crate::text::lemma_rfind_byte_is(bytes@, 58u8, colon - 1);
        }
        let mut a = colon;
        while a < bytes.len() && (bytes[a] == 32u8 || bytes[a] == 9u8)
            invariant
                colon <= a <= bytes@.len(),
                forall|j: int| colon <= j < a ==> #[trigger] crate::text::is_blank(bytes@[j]),
            decreases bytes@.len() - a,
        {
            a += 1;
        }
        let ghost after = bytes@.skip(colon as int);
        proof {
            assert forall|j: int| 0 <= j < a - colon implies #[trigger] crate::text::is_blank(after[j]) by {
                assert(bytes@[j + colon] == after[j]);
            }
            crate::text::lemma_span_is(after, |b: u8| crate::text::is_blank(b), a - colon);
        }
        let v = &bytes[a..bytes.len()];
        assert(v@ =~= crate::text::trim_start_blank(after));
        proof {
            reveal_strlit("none");
            reveal_strlit("bytes");
            assert(vstd::string::is_ascii("none"));
            assert(vstd::string::is_ascii("bytes"));
        }
        assert(v@.len() >= 4);
        assert(v@.subrange(0, 4) =~= v@.take(4));
        if crate::text::bytes_eq(&v[0..4], "none".as_bytes()) {
            return Ok(RangeHeader { range_unit: RangeUnit::NoRanges, ranges: Vec::new() });
        }
        assert(v@.len() >= 5);
        assert(v@.subrange(0, 5) =~= v@.take(5));
        if !crate::text::bytes_eq(&v[0..5], "bytes".as_bytes()) {
            return Err(());
        }
        assert(v@.len() >= 6);
        assert(v@.take(5) =~= "bytes".spec_bytes());
        let sep = v[5];
        let mut k: usize = 0;
        while v[k] != sep
            invariant
                0 <= k <= 5,
                v@.len() >= 6,
                sep == v@[5],
                forall|j: int| 0 <= j < k ==> #[trigger] v@[j] != sep,
            decreases 5 - k,
        {
            k += 1;
        }
        proof {
            lemma_find_byte_is(v@, sep, k as int);
        }
        let unit = RangeUnit::parse(&v[0..k]);
        assert(v@.subrange(0, k as int) =~= v@.take(k as int));
        match unit {
            Err(_) => Err(()),
            Ok(u) => {
                assert(v@.skip(k + 1) =~= bytes@.skip(a + k + 1));
                let ranges = parse_ranges(bytes, a + k + 1);
                Ok(RangeHeader { range_unit: u, ranges })
            },
        }
    }
}

} // verus!

verus! {

/// Text made of decimal digits only.
spec fn digit_text(s: Seq<u8>) -> bool {
    s.len() > 0 && crate::decimal::all_digits(s)
}

proof fn lemma_decimal_digit_text(n: nat)
    ensures
        digit_text(decimal(n)),
{
    crate::decimal::lemma_decimal_digits(n);
}

/// A word without blanks is its own first word.
proof fn lemma_first_word_digits(w: Seq<u8>)
    requires
        digit_text(w),
    ensures
        first_word(w) == w,
{
    assert(crate::decimal::is_digit(w[0]));
    crate::text::lemma_span_is(w, |b: u8| crate::text::is_blank(b), 0);
    assert(w.skip(0) =~= w);
    assert forall|j: int| 0 <= j < w.len() implies !(#[trigger] crate::text::is_blank(w[j])) by {
        assert(crate::decimal::is_digit(w[j]));
    }
    crate::text::lemma_span_is(w, |b: u8| !crate::text::is_blank(b), w.len() as int);
    assert(w.take(w.len() as int) =~= w);
}

/// The first `c` after digits is the one following them.
proof fn lemma_find_after_digits(a: Seq<u8>, c: u8, b: Seq<u8>)
    requires
        crate::decimal::all_digits(a),
        !crate::decimal::is_digit(c),
    ensures
        find_byte(a + seq![c] + b, c) == a.len(),
        (a + seq![c] + b).take(a.len() as int) == a,
        (a + seq![c] + b).skip(a.len() as int + 1) == b,
{
    let s = a + seq![c] + b;
    assert forall|j: int| 0 <= j < a.len() implies #[trigger] s[j] != c by {
        assert(s[j] == a[j]);
        assert(crate::decimal::is_digit(a[j]));
    }
    lemma_find_byte_is(s, c, a.len() as int);
    assert(s.take(a.len() as int) =~= a);
    assert(s.skip(a.len() as int + 1) =~= b);
}

/// Reading the decimal text of a non-negative `isize` gives it back.
proof fn lemma_parse_isize_decimal(n: nat)
    requires
        n <= isize::MAX,
    ensures
        parse_isize_spec(decimal(n)) == Some(n as isize),
{
    crate::decimal::lemma_decimal_digits(n);
    crate::decimal::lemma_decimal_value(n);
    assert(crate::decimal::is_digit(decimal(n)[0]));
}

/// Reading the decimal text of a `usize` gives it back.
proof fn lemma_parse_usize_decimal(n: nat)
    requires
        n <= usize::MAX,
    ensures
        parse_usize_spec(decimal(n)) == Some(n as usize),
{
    crate::decimal::lemma_decimal_digits(n);
    crate::decimal::lemma_decimal_value(n);
    assert(crate::decimal::is_digit(decimal(n)[0]));
}

/// The ranges that come back unchanged when formatted and read again: a
/// satisfiable range `first-last` of non-negative positions (with or without
/// complete length), an open range `first-` without complete length, a
/// suffix range `-n` without complete length, and an unsatisfied range with
/// nothing but a complete length.
pub open spec fn byte_range_canonical(r: ByteRange) -> bool {
    if r.is_unsatisfied {
        r.first_pos is None && r.last_pos is None
    } else {
        match (r.first_pos, r.last_pos) {
            (Some(f), Some(l)) => f >= 0 && l >= 0,
            (Some(f), None) => f >= 0 && r.complete_length is None,
            (None, Some(l)) => l < 0 && l > isize::MIN && r.complete_length is None,
            (None, None) => false,
        }
    }
}

/// Formatting a byte range and reading the text back gives the same range,
/// for every range that the text can represent.
pub proof fn lemma_byte_range_roundtrip(r: ByteRange)
    requires
        byte_range_canonical(r),
    ensures
        byte_range_text_defined(r),
        byte_range_spec(byte_range_text(r)) == Some(Ok::<ByteRange, ()>(r)),
{
    let s = byte_range_text(r);
    let e = ByteRange::empty_spec();
    let dash = seq![45u8];
    if r.is_unsatisfied {
        let star = seq![42u8];
        assert(find_byte(star, 45u8) == 1) by {
            lemma_find_byte_is(star, 45u8, 1);
        }
        assert(star.take(1) =~= star);
        assert(first_word(star) == star) by {
            crate::text::lemma_span_is(star, |b: u8| crate::text::is_blank(b), 0);
            assert(star.skip(0) =~= star);
            crate::text::lemma_span_is(star, |b: u8| !crate::text::is_blank(b), 1);
        }
        assert(positions_spec(star) == Some(Ok::<ByteRange, ()>(ByteRange { is_unsatisfied: true, ..e })));
        match r.complete_length {
            Some(n) => {
                lemma_decimal_digit_text(n as nat);
                let d = decimal(n as nat);
                assert(s =~= star + seq![47u8] + d);
                assert(find_byte(s, 47u8) == 1) by {
                    lemma_find_byte_is(s, 47u8, 1);
                }
                assert(s.take(1) =~= star);
                assert(s.skip(2) =~= d);
                lemma_first_word_digits(d);
                assert(crate::decimal::is_digit(d[0]));
                lemma_parse_usize_decimal(n as nat);
            },
            None => {
                assert(s =~= star + seq![47u8] + star);
                assert(find_byte(s, 47u8) == 1) by {
                    lemma_find_byte_is(s, 47u8, 1);
                }
                assert(s.take(1) =~= star);
                assert(s.skip(2) =~= star);
            },
        }
    } else {
        match (r.first_pos, r.last_pos) {
            (Some(f), Some(l)) => {
                let df = decimal(f as nat);
                let dl = decimal(l as nat);
                lemma_decimal_digit_text(f as nat);
                lemma_decimal_digit_text(l as nat);
                lemma_first_word_digits(df);
                lemma_first_word_digits(dl);
                lemma_parse_isize_decimal(f as nat);
                lemma_parse_isize_decimal(l as nat);
                let p = df + dash + dl;
                lemma_find_after_digits(df, 45u8, dl);
                assert(find_byte(p, 45u8) == df.len());
                assert(first_word(p.take(df.len() as int)) == df);
                assert(first_word(p.skip(df.len() as int + 1)) == dl);
                assert((f as nat) as isize == f);
                assert((l as nat) as isize == l);
                assert(parse_isize_spec(df) == Some(f));
                assert(parse_isize_spec(dl) == Some(l));
                assert(crate::decimal::is_digit(df[0]));
                assert(df.len() < p.len());
                assert(positions_spec(p) == Some(Ok::<ByteRange, ()>(ByteRange { first_pos: Some(f), last_pos: Some(l), ..e })));
                match r.complete_length {
                    Some(n) => {
                        let dn = decimal(n as nat);
                        lemma_decimal_digit_text(n as nat);
                        lemma_first_word_digits(dn);
                        lemma_parse_usize_decimal(n as nat);
                        assert(crate::decimal::is_digit(dn[0]));
                        assert(s =~= p + seq![47u8] + dn);
                        assert forall|j: int| 0 <= j < p.len() implies #[trigger] s[j] != 47u8 by {
                            if j < df.len() {
                                assert(crate::decimal::is_digit(df[j]));
                            } else if j > df.len() {
                                assert(crate::decimal::is_digit(dl[j - df.len() - 1]));
                            }
                        }
                        lemma_find_byte_is(s, 47u8, p.len() as int);
                        assert(s.take(p.len() as int) =~= p);
                        assert(s.skip(p.len() as int + 1) =~= dn);
                    },
                    None => {
                        assert(s =~= p);
                        assert forall|j: int| 0 <= j < p.len() implies #[trigger] s[j] != 47u8 by {
                            if j < df.len() {
                                assert(crate::decimal::is_digit(df[j]));
                            } else if j > df.len() {
                                assert(crate::decimal::is_digit(dl[j - df.len() - 1]));
                            }
                        }
                        lemma_find_byte_is(s, 47u8, p.len() as int);
                        assert(s.take(p.len() as int) =~= s);
                    },
                }
            },
            (Some(f), None) => {
                let df = decimal(f as nat);
                lemma_decimal_digit_text(f as nat);
                lemma_first_word_digits(df);
                lemma_parse_isize_decimal(f as nat);
                assert(s =~= df + dash + Seq::<u8>::empty());
                lemma_find_after_digits(df, 45u8, Seq::<u8>::empty());
                assert(crate::decimal::is_digit(df[0]));
                assert((f as nat) as isize == f);
                let tail = s.skip(df.len() as int + 1);
                assert(tail.len() == 0);
                assert(first_word(tail) =~= Seq::<u8>::empty()) by {
                    crate::text::lemma_span_is(tail, |b: u8| crate::text::is_blank(b), 0);
                }
                assert forall|j: int| 0 <= j < s.len() implies #[trigger] s[j] != 47u8 by {
                    if j < df.len() {
                        assert(crate::decimal::is_digit(df[j]));
                    }
                }
                lemma_find_byte_is(s, 47u8, s.len() as int);
                assert(s.take(s.len() as int) =~= s);
            },
            (None, Some(l)) => {
                let m = (-l) as nat;
                let dm = decimal(m);
                lemma_decimal_digit_text(m);
                lemma_first_word_digits(dm);
                lemma_parse_isize_decimal(m);
                assert(s =~= Seq::<u8>::empty() + dash + dm);
                lemma_find_after_digits(Seq::<u8>::empty(), 45u8, dm);
                assert(first_word(Seq::<u8>::empty()) =~= Seq::<u8>::empty()) by {
                    crate::text::lemma_span_is(Seq::<u8>::empty(), |b: u8| crate::text::is_blank(b), 0);
                }
                assert forall|j: int| 0 <= j < s.len() implies #[trigger] s[j] != 47u8 by {
                    if j > 0 {
                        assert(crate::decimal::is_digit(dm[j - 1]));
                    }
                }
                lemma_find_byte_is(s, 47u8, s.len() as int);
                assert(s.take(s.len() as int) =~= s);
                assert((-(m as int)) as isize == l);
            },
            (None, None) => {},
        }
    }
}

} // verus!

verus! {

/// The decimal text of an optional position (empty when absent).
pub open spec fn optional_position_text(p: Option<isize>) -> Seq<u8> {
    match p {
        Some(v) => signed_decimal(v as int),
        None => seq![],
    }
}

/// The short text `first-last` of a range, as the range header text uses it.
pub open spec fn brief_range_text(r: ByteRange) -> Seq<u8> {
    optional_position_text(r.first_pos) + seq![45u8] + optional_position_text(r.last_pos)
}

/// `,first-last` for each range, one after the other.
pub open spec fn ranges_brief_text(rs: Seq<ByteRange>) -> Seq<u8>
    decreases rs.len(),
{
    if rs.len() == 0 {
        seq![]
    } else {
        ranges_brief_text(rs.drop_last()) + seq![44u8] + brief_range_text(rs.last())
    }
}

/// The text of a range header: `none`, or `bytes ` followed by the short
/// texts of the ranges separated by commas.
pub open spec fn range_header_text(u: RangeUnit, rs: Seq<ByteRange>) -> Seq<u8> {
    match u {
        RangeUnit::NoRanges => "none".spec_bytes(),
        RangeUnit::Bytes => "bytes".spec_bytes() + seq![32u8] + ranges_brief_text(rs).skip(1),
    }
}

/// The texts of the ranges separated by commas.
pub open spec fn ranges_text(rs: Seq<ByteRange>) -> Seq<u8>
    decreases rs.len(),
{
    if rs.len() == 0 {
        seq![]
    } else if rs.len() == 1 {
        byte_range_text(rs[0])
    } else {
        ranges_text(rs.drop_last()) + seq![44u8] + byte_range_text(rs.last())
    }
}

/// The value of a `Content-Range` header: the unit, a space, then the ranges.
pub open spec fn content_range_text(u: RangeUnit, rs: Seq<ByteRange>) -> Seq<u8> {
    range_unit_name(u) + seq![32u8] + ranges_text(rs)
}

impl RangeHeader {
    /// The header value as text: `none`, or `bytes ` and the ranges as `first-last`.
    pub fn to_bytes(&self) -> (r: Vec<u8>)
        requires
            self.range_unit == RangeUnit::Bytes ==> self.ranges@.len() > 0,
        ensures
            r@ == range_header_text(self.range_unit, self.ranges@),
    {
        match self.range_unit {
            RangeUnit::NoRanges => {
                let n = "none";
                crate::text::copy_range(n.as_bytes(), 0, n.as_bytes().len())
            },
            RangeUnit::Bytes => {
                let mut items: Vec<u8> = Vec::new();
                let mut i: usize = 0;
                while i < self.ranges.len()
                    invariant
                        0 <= i <= self.ranges@.len(),
                        items@ == ranges_brief_text(self.ranges@.take(i as int)),
                    decreases self.ranges@.len() - i,
                {
                    let r = self.ranges[i];
                    items.push(44u8);
                    if let Some(p) = r.first_pos {
                        push_signed(&mut items, p);
                    }
                    items.push(45u8);
                    if let Some(p) = r.last_pos {
                        push_signed(&mut items, p);
                    }
                    proof {
                        let t = self.ranges@.take(i + 1);
                        assert(t.drop_last() =~= self.ranges@.take(i as int));
                        assert(t.last() == r);
                    }
                    i += 1;
                    assert(items@ =~= ranges_brief_text(self.ranges@.take(i as int)));
                }
                assert(self.ranges@.take(self.ranges@.len() as int) =~= self.ranges@);
                let b = "bytes";
                let mut out = crate::text::copy_range(b.as_bytes(), 0, b.as_bytes().len());
                out.push(32u8);
                append_bytes(&mut out, &items.as_slice()[1..items.len()]);
                assert(items@.subrange(1, items@.len() as int) =~= items@.skip(1));
                out
            },
        }
    }

    /// The value of the `Content-Range` header for these ranges.
    pub fn content_range_bytes(&self) -> (r: Vec<u8>)
        requires
            forall|i: int| 0 <= i < self.ranges@.len() ==> byte_range_text_defined(#[trigger] self.ranges@[i]),
        ensures
            r@ == content_range_text(self.range_unit, self.ranges@),
    {
        let name = self.range_unit.name();
        let mut out = crate::text::copy_range(name.as_bytes(), 0, name.as_bytes().len());
        out.push(32u8);
        let ghost head = out@;
        let mut i: usize = 0;
        while i < self.ranges.len()
            invariant
                0 <= i <= self.ranges@.len(),
                forall|j: int| 0 <= j < self.ranges@.len() ==> byte_range_text_defined(#[trigger] self.ranges@[j]),
                out@ == head + ranges_text(self.ranges@.take(i as int)),
            decreases self.ranges@.len() - i,
        {
            let r = self.ranges[i];
            assert(byte_range_text_defined(self.ranges@[i as int]));
            if i > 0 {
                out.push(44u8);
            }
            let t = r.to_bytes();
            append_bytes(&mut out, t.as_slice());
            proof {
                let s = self.ranges@.take(i + 1);
                assert(s.drop_last() =~= self.ranges@.take(i as int));
                assert(s.last() == r);
                if i == 0 {
                    assert(s.len() == 1);
                    assert(s[0] == r);
                }
            }
            i += 1;
            assert(out@ =~= head + ranges_text(self.ranges@.take(i as int)));
        }
        assert(self.ranges@.take(self.ranges@.len() as int) =~= self.ranges@);
        out
    }
}

} // verus!

verus! {

/// The number of bytes a content range sends: none for an unsatisfied
/// range, `last + 1 - first` for a range with both ends, unknown otherwise
/// (and for other units or no range).
pub open spec fn range_content_length_spec(unit: RangeUnit, ranges: Seq<ByteRange>) -> Option<usize> {
    if unit == RangeUnit::Bytes && ranges.len() > 0 {
        let r = ranges[0];
        if r.is_unsatisfied {
            Some(0)
        } else if r.first_pos is Some && r.last_pos is Some {
            Some((r.last_pos->0 + 1 - r.first_pos->0) as usize)
        } else {
            None
        }
    } else {
        None
    }
}

/// The length of the first range can be computed without overflow.
pub open spec fn range_length_computable(unit: RangeUnit, ranges: Seq<ByteRange>) -> bool {
    unit == RangeUnit::Bytes && ranges.len() > 0 && !ranges[0].is_unsatisfied && ranges[0].first_pos is Some
        && ranges[0].last_pos is Some ==> {
        let d = ranges[0].last_pos->0 + 1 - ranges[0].first_pos->0;
        &&& ranges[0].last_pos->0 < isize::MAX
        &&& isize::MIN <= d <= isize::MAX
    }
}

/// The number of bytes a content range sends (see [`range_content_length_spec`]).
pub fn range_content_length(content_range: &RangeHeader) -> (r: Option<usize>)
    requires
        range_length_computable(content_range.range_unit, content_range.ranges@),
    ensures
        r == range_content_length_spec(content_range.range_unit, content_range.ranges@),
{
    if content_range.range_unit == RangeUnit::Bytes && content_range.ranges.len() > 0 {
        let range = content_range.ranges[0];
        if range.is_unsatisfied {
            return Some(0);
        }
        if let Some(first_pos) = range.first_pos {
            if let Some(last_pos) = range.last_pos {
                let d: isize = last_pos + 1 - first_pos;
                return Some(d as usize);
            }
        }
    }
    None
}

/// A position, limited to the largest `isize`.
pub open spec fn clamp_pos(p: usize) -> isize {
    if p > isize::MAX { isize::MAX } else { p as isize }
}

/// The content range `bytes first-last/complete` (positions limited to the largest `isize`).
pub fn content_range_for(first_pos: usize, last_pos: usize, complete_length: Option<usize>) -> (r: RangeHeader)
    ensures
        r.range_unit == RangeUnit::Bytes,
        r.ranges@ == seq![ByteRange {
            complete_length,
            first_pos: Some(clamp_pos(first_pos)),
            is_unsatisfied: false,
            last_pos: Some(clamp_pos(last_pos)),
        }],
{
    let first: isize = if first_pos > isize::MAX as usize { isize::MAX } else { first_pos as isize };
    let last: isize = if last_pos > isize::MAX as usize { isize::MAX } else { last_pos as isize };
    let mut ranges: Vec<ByteRange> = Vec::new();
    ranges.push(ByteRange { complete_length, first_pos: Some(first), is_unsatisfied: false, last_pos: Some(last) });
    RangeHeader { range_unit: RangeUnit::Bytes, ranges }
}

/// The unsatisfied range with no positions.
pub open spec fn unsatisfied_range() -> ByteRange {
    ByteRange { complete_length: None, first_pos: None, is_unsatisfied: true, last_pos: None }
}

/// A content range marked unsatisfied: the first range of an existing one
/// is marked, a missing one becomes `bytes` with one unsatisfied range.
pub fn mark_unsatisfied(current: Option<RangeHeader>) -> (r: RangeHeader)
    ensures
        match current {
            Some(c) => r.range_unit == c.range_unit && if c.ranges@.len() > 0 {
                r.ranges@ == c.ranges@.update(0, ByteRange { is_unsatisfied: true, ..c.ranges@[0] })
            } else {
                r.ranges@ == c.ranges@
            },
            None => r.range_unit == RangeUnit::Bytes && r.ranges@ == seq![unsatisfied_range()],
        },
{
    match current {
        Some(c) => {
            let RangeHeader { range_unit, mut ranges } = c;
            if ranges.len() > 0 {
                let first = ranges[0];
                ranges.set(0, ByteRange { is_unsatisfied: true, ..first });
            }
            RangeHeader { range_unit, ranges }
        },
        None => {
            let mut ranges: Vec<ByteRange> = Vec::new();
            ranges.push(ByteRange { complete_length: None, first_pos: None, is_unsatisfied: true, last_pos: None });
            RangeHeader { range_unit: RangeUnit::Bytes, ranges }
        },
    }
}

/// The first range of a content range is unsatisfied.
pub fn is_content_range_unsatisfied(content_range: &Option<RangeHeader>) -> (r: bool)
    ensures
        r == (content_range matches Some(c) && c.ranges@.len() > 0 && c.ranges@[0].is_unsatisfied),
{
    match content_range {
        Some(c) => c.ranges.len() > 0 && c.ranges[0].is_unsatisfied,
        None => false,
    }
}

/// What answering a range request does to a successful response.
#[derive(Clone, Copy, Debug, PartialEq, Eq, Structural)]
pub enum RangeOutcome {
    /// Send the bytes from `first` to `last` (inclusive), with status 206
    Partial { first: usize, last: usize },
    /// The range cannot be served (status 416)
    Unsatisfied,
}

/// The part of a body of `data_length` bytes that one byte range asks for.
///
/// A range needs a first position (0 when missing) within the data. A last
/// position not before the first ends it there, or at the last byte when it
/// reaches past the data (RFC 9110); a
/// negative last position asks for that many bytes from the end (the first
/// position then plays no further part); a missing one ends at the last byte.
pub open spec fn satisfiable_part(r: ByteRange, data_length: Option<usize>) -> Option<(usize, usize)> {
    let first: isize = match r.first_pos {
        Some(f) => f,
        None => 0,
    };
    let dl: isize = (match data_length {
        Some(d) => d,
        None => 0,
    }) as isize;
    if r.is_unsatisfied || !(first >= 0 && dl != 0 && first < dl) {
        None
    } else {
        match r.last_pos {
            Some(last) => if last >= 0 && first <= last {
                Some((first as usize, if last < dl { last as usize } else { (dl - 1) as usize }))
            } else if last < 0 {
                match data_length {
                    Some(d) => if (-last) as usize <= d && d as isize - (-last) >= 0 {
                        Some(((d as isize - (-last)) as usize, (d - 1) as usize))
                    } else {
                        None
                    },
                    None => None,
                }
            } else {
                None
            },
            None => match data_length {
                Some(d) => Some((first as usize, (d - 1) as usize)),
                None => None,
            },
        }
    }
}

/// What a range request does to a response in HTTP/1.1 or later with a
/// 2xx status: nothing without range or with unit `none`; one satisfiable
/// byte range gives the partial content; anything else is unsatisfied.
pub open spec fn range_plan_spec(
    version: crate::common::http_version::HttpVersion,
    status: u16,
    range: Option<(RangeUnit, Seq<ByteRange>)>,
    data_length: Option<usize>,
) -> Option<RangeOutcome> {
    if version.rank() >= 2 && 200 <= status < 300 {
        match range {
            None => None,
            Some((unit, rs)) => if unit == RangeUnit::Bytes && rs.len() == 1 {
                match satisfiable_part(rs[0], data_length) {
                    Some((f, l)) => Some(RangeOutcome::Partial { first: f, last: l }),
                    None => Some(RangeOutcome::Unsatisfied),
                }
            } else if unit == RangeUnit::NoRanges {
                None
            } else {
                Some(RangeOutcome::Unsatisfied)
            },
        }
    } else {
        None
    }
}

/// Decides what a range request does to a response (see [`range_plan_spec`]).
pub fn range_plan(
    version: crate::common::http_version::HttpVersion,
    status: crate::common::status_code::StatusCode,
    range: Option<&RangeHeader>,
    data_length: Option<usize>,
) -> (r: Option<RangeOutcome>)
    requires
        range matches Some(h) ==> (h.ranges@.len() == 1 ==> h.ranges@[0].last_pos != Some(isize::MIN)),
    ensures
        r == range_plan_spec(
            version,
            status.0,
            match range {
                Some(h) => Some((h.range_unit, h.ranges@)),
                None => None,
            },
            data_length,
        ),
{
    if !(version.ordinal() >= 2 && status.0 >= 200 && status.0 < 300) {
        return None;
    }
    let header = match range {
        Some(h) => h,
        None => {
            return None;
        },
    };
    if header.range_unit == RangeUnit::Bytes && header.ranges.len() == 1 {
        let range = header.ranges[0];
        if !range.is_unsatisfied {
            let first_pos: isize = match range.first_pos {
                Some(f) => f,
                None => 0,
            };
            let d0: usize = match data_length {
                Some(d) => d,
                None => 0,
            };
            let dl = d0 as isize;
            if first_pos >= 0 && dl != 0 && first_pos < dl {
                match range.last_pos {
                    Some(last_pos) => {
                        if last_pos >= 0 && first_pos <= last_pos {
                            let last: usize = if last_pos < dl { last_pos as usize } else { (dl - 1) as usize };
                            return Some(RangeOutcome::Partial { first: first_pos as usize, last });
                        } else if last_pos < 0 {
                            if let Some(d) = data_length {
                                let back: isize = -last_pos;
                                if back as usize <= d {
                                    let n: isize = d as isize - back;
                                    if n >= 0 {
                                        return Some(RangeOutcome::Partial { first: n as usize, last: d - 1 });
                                    }
                                }
                            }
                        }
                    },
                    None => {
                        if let Some(d) = data_length {
                            return Some(RangeOutcome::Partial { first: first_pos as usize, last: d - 1 });
                        }
                    },
                }
            }
        }
        Some(RangeOutcome::Unsatisfied)
    } else if header.range_unit == RangeUnit::NoRanges {
        None
    } else {
        Some(RangeOutcome::Unsatisfied)
    }
}

} // verus!

verus! {

/// The value of the first header of `ps` with field `name`, when there is one.
pub open spec fn first_value(ps: Seq<(Seq<u8>, Seq<u8>)>, name: Seq<u8>) -> Option<Seq<u8>> {
    let s = crate::common::header_data::select_field(ps, name);
    if s.len() == 0 {
        None
    } else {
        Some(s[0].1)
    }
}

/// The range header that a value gives, when it can be read.
pub open spec fn parsed_range(v: Option<Seq<u8>>) -> Option<(RangeUnit, Seq<ByteRange>)> {
    match v {
        Some(b) => match range_header_spec(b) {
            Some(Ok(t)) => Some(t),
            _ => None,
        },
        None => None,
    }
}

/// The ranges of a request from HTTP/1.1 on: the `Content-Range` of a `PUT`
/// (first of the pair) and the `Range` of a `GET` (second); none otherwise.
pub open spec fn create_ranges_spec(
    version: crate::common::http_version::HttpVersion,
    method: crate::common::method::Method,
    ps: Seq<(Seq<u8>, Seq<u8>)>,
) -> (Option<(RangeUnit, Seq<ByteRange>)>, Option<(RangeUnit, Seq<ByteRange>)>) {
    if version.rank() >= 2 {
        if method is Get {
            (None, parsed_range(first_value(ps, "Range".spec_bytes())))
        } else if method is Put {
            (parsed_range(first_value(ps, "Content-Range".spec_bytes())), None)
        } else {
            (None, None)
        }
    } else {
        (None, None)
    }
}

/// The range header of an optional parsed header.
pub open spec fn range_view(h: Option<RangeHeader>) -> Option<(RangeUnit, Seq<ByteRange>)> {
    match h {
        Some(h) => Some((h.range_unit, h.ranges@)),
        None => None,
    }
}

/// Reads the range headers of a request (see [`create_ranges_spec`]).
pub fn create_ranges(
    version: crate::common::http_version::HttpVersion,
    method: &crate::common::method::Method,
    headers: &crate::common::header_data::HeaderData,
) -> (r: (Option<RangeHeader>, Option<RangeHeader>))
    requires
        version.rank() >= 2 && method is Get ==> (first_value(headers.pairs(), "Range".spec_bytes()) matches Some(v) ==> range_header_spec(v) is Some),
        version.rank() >= 2 && method is Put ==> (first_value(headers.pairs(), "Content-Range".spec_bytes()) matches Some(v) ==> range_header_spec(v) is Some),
    ensures
        (range_view(r.0), range_view(r.1)) == create_ranges_spec(version, *method, headers.pairs()),
{
    if version.ordinal() >= 2 {
        if method.is_get() {
            let h = headers.header_first("Range".as_bytes());
            let parsed = match h {
                Some(h) => match RangeHeader::parse(h.value.as_bytes()) {
                    Ok(r) => Some(r),
                    Err(_) => None,
                },
                None => None,
            };
            (None, parsed)
        } else if method.is_put() {
            let h = headers.header_first("Content-Range".as_bytes());
            let parsed = match h {
                Some(h) => match RangeHeader::parse(h.value.as_bytes()) {
                    Ok(r) => Some(r),
                    Err(_) => None,
                },
                None => None,
            };
            (parsed, None)
        } else {
            (None, None)
        }
    } else {
        (None, None)
    }
}

} // verus!

verus! {

/// A partial answer to a range request lies within the body: the first
/// position comes no later than the last, and the last is inside the data.
pub proof fn lemma_range_plan_within(
    version: crate::common::http_version::HttpVersion,
    status: u16,
    range: Option<(RangeUnit, Seq<ByteRange>)>,
    data_length: Option<usize>,
)
    ensures
        range_plan_spec(version, status, range, data_length) matches Some(RangeOutcome::Partial { first, last })
            ==> (data_length matches Some(d) && first <= last < d),
{
    if let Some((unit, rs)) = range {
        if rs.len() == 1 {
            let r = rs[0];
            if let Some(d) = data_length {
                assert((d as isize) >= 0 ==> ((d as isize) as usize) == d) by (bit_vector);
            }
        }
    }
}

/// Only a single range is served: a byte range request with several ranges
/// on a successful response (HTTP/1.1 or later) is not satisfiable.
pub proof fn lemma_multiple_ranges_unsatisfied(
    version: crate::common::http_version::HttpVersion,
    status: u16,
    ranges: Seq<ByteRange>,
    data_length: Option<usize>,
)
    requires
        version.rank() >= 2,
        200 <= status < 300,
        ranges.len() > 1,
    ensures
        range_plan_spec(version, status, Some((RangeUnit::Bytes, ranges)), data_length) == Some(RangeOutcome::Unsatisfied),
{
}

} // verus!

verus! {

/// The plan for one byte range on a 2xx response of `d` bytes to an
/// HTTP/1.1 (or later) request.
pub open spec fn one_range_plan(
    version: crate::common::http_version::HttpVersion,
    status: u16,
    r: ByteRange,
    d: usize,
) -> Option<RangeOutcome> {
    range_plan_spec(version, status, Some((RangeUnit::Bytes, seq![r])), Some(d))
}

/// A range that lies inside the data is served exactly: from its first to
/// its last position.
pub proof fn lemma_range_inside_kept(
    version: crate::common::http_version::HttpVersion,
    status: u16,
    complete_length: Option<usize>,
    first: isize,
    last: isize,
    d: usize,
)
    requires
        version.rank() >= 2,
        200 <= status < 300,
        d <= isize::MAX,
        0 <= first <= last < d,
    ensures
        one_range_plan(
            version,
            status,
            ByteRange { complete_length, first_pos: Some(first), is_unsatisfied: false, last_pos: Some(last) },
            d,
        ) == Some(RangeOutcome::Partial { first: first as usize, last: last as usize }),
{
}

/// A range whose last position reaches past the data is served up to the
/// last byte.
pub proof fn lemma_range_past_end_clamped(
    version: crate::common::http_version::HttpVersion,
    status: u16,
    complete_length: Option<usize>,
    first: isize,
    last: isize,
    d: usize,
)
    requires
        version.rank() >= 2,
        200 <= status < 300,
        d <= isize::MAX,
        0 <= first < d <= last,
    ensures
        one_range_plan(
            version,
            status,
            ByteRange { complete_length, first_pos: Some(first), is_unsatisfied: false, last_pos: Some(last) },
            d,
        ) == Some(RangeOutcome::Partial { first: first as usize, last: (d - 1) as usize }),
{
}

/// An open range (`first-`) inside the data is served to the last byte.
pub proof fn lemma_range_open_end(
    version: crate::common::http_version::HttpVersion,
    status: u16,
    complete_length: Option<usize>,
    first: isize,
    d: usize,
)
    requires
        version.rank() >= 2,
        200 <= status < 300,
        d <= isize::MAX,
        0 <= first < d,
    ensures
        one_range_plan(
            version,
            status,
            ByteRange { complete_length, first_pos: Some(first), is_unsatisfied: false, last_pos: None },
            d,
        ) == Some(RangeOutcome::Partial { first: first as usize, last: (d - 1) as usize }),
{
}

/// A suffix range (`-n`) serves the last `n` bytes, when there are that many.
pub proof fn lemma_range_suffix(
    version: crate::common::http_version::HttpVersion,
    status: u16,
    complete_length: Option<usize>,
    n: isize,
    d: usize,
)
    requires
        version.rank() >= 2,
        200 <= status < 300,
        d <= isize::MAX,
        1 <= n <= d,
    ensures
        one_range_plan(
            version,
            status,
            ByteRange { complete_length, first_pos: None, is_unsatisfied: false, last_pos: Some((-n) as isize) },
            d,
        ) == Some(RangeOutcome::Partial { first: (d - n) as usize, last: (d - 1) as usize }),
{
}

/// A range that starts at or after the end of the data, or one already
/// marked unsatisfiable, cannot be served.
pub proof fn lemma_range_unsatisfied(
    version: crate::common::http_version::HttpVersion,
    status: u16,
    r: ByteRange,
    d: usize,
)
    requires
        version.rank() >= 2,
        200 <= status < 300,
        d <= isize::MAX,
        r.is_unsatisfied || (r.first_pos matches Some(f) && f >= d),
    ensures
        one_range_plan(version, status, r, d) == Some(RangeOutcome::Unsatisfied),
{
}

/// Several byte ranges at once are not served (no multipart answer).
pub proof fn lemma_several_ranges_unsatisfied(
    version: crate::common::http_version::HttpVersion,
    status: u16,
    rs: Seq<ByteRange>,
    data_length: Option<usize>,
)
    requires
        version.rank() >= 2,
        200 <= status < 300,
        rs.len() >= 2,
    ensures
        range_plan_spec(version, status, Some((RangeUnit::Bytes, rs)), data_length) == Some(
            RangeOutcome::Unsatisfied,
        ),
{
}

/// Ranges change nothing before HTTP/1.1, on a status other than 2xx, or
/// without a `Range` header.
pub proof fn lemma_range_ignored(
    version: crate::common::http_version::HttpVersion,
    status: u16,
    range: Option<(RangeUnit, Seq<ByteRange>)>,
    data_length: Option<usize>,
)
    requires
        version.rank() <= 1 || status < 200 || status >= 300 || range is None,
    ensures
        range_plan_spec(version, status, range, data_length) is None,
{
}

/// A partial answer always lies inside the data: first <= last < length.
pub proof fn lemma_partial_inside_data(
    version: crate::common::http_version::HttpVersion,
    status: u16,
    range: Option<(RangeUnit, Seq<ByteRange>)>,
    data_length: Option<usize>,
)
    requires
        data_length matches Some(d) && d <= isize::MAX,
    ensures
        range_plan_spec(version, status, range, data_length) matches Some(RangeOutcome::Partial { first, last })
            ==> first <= last < data_length->0,
{
}

/// A `Range` header with the unit `none` changes nothing.
pub proof fn lemma_no_ranges_ignored(
    version: crate::common::http_version::HttpVersion,
    status: u16,
    rs: Seq<ByteRange>,
    data_length: Option<usize>,
)
    ensures
        range_plan_spec(version, status, Some((RangeUnit::NoRanges, rs)), data_length) is None,
{
}

} // verus!
