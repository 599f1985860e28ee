//! Byte-level helpers shared by the protocol parsers: ASCII case folding,
//! trimming, decimal formatting and parsing.

use vstd::prelude::*;

verus! {

/// `b` lowered if it is an ASCII upper-case letter (as `u8::to_ascii_lowercase`).
pub open spec fn lower(b: u8) -> u8 {
    if 65 <= b && b <= 90 {
        (b + 32) as u8
    } else {
        b
    }
}

/// Byte-wise ASCII lower-casing of a byte string.
pub open spec fn lower_seq(s: Seq<u8>) -> Seq<u8> {
    s.map_values(|b: u8| lower(b))
}

/// Two byte strings are equal ignoring ASCII case.
pub open spec fn eq_ignore_case(a: Seq<u8>, b: Seq<u8>) -> bool {
    &&& a.len() == b.len()
    &&& forall|i: int| 0 <= i < a.len() ==> #[trigger] lower(a[i]) == lower(b[i])
}

/// Equality ignoring ASCII case is equality of the lower-cased strings.
pub proof fn lemma_eq_ignore_case_lower(a: Seq<u8>, b: Seq<u8>)
    ensures
        eq_ignore_case(a, b) <==> lower_seq(a) == lower_seq(b),
{
    if eq_ignore_case(a, b) {
        assert(lower_seq(a) =~= lower_seq(b));
    }
    if lower_seq(a) == lower_seq(b) {
        assert(a.len() == lower_seq(a).len());
        assert(b.len() == lower_seq(b).len());
        assert forall|i: int| 0 <= i < a.len() implies #[trigger] lower(a[i]) == lower(b[i]) by {
            assert(lower_seq(a)[i] == lower(a[i]));
            assert(lower_seq(b)[i] == lower(b[i]));
        }
    }
}

/// Every byte is below 128.
pub open spec fn is_ascii_bytes(s: Seq<u8>) -> bool {
    forall|i: int| 0 <= i < s.len() ==> #[trigger] s[i] < 128
}

/// Lowers one byte.
pub fn to_lower(b: u8) -> (r: u8)
    ensures
        r == lower(b),
{
    if 65 <= b && b <= 90 {
        b + 32
    } else {
        b
    }
}

/// Compares two byte strings ignoring ASCII case (as `<[u8]>::eq_ignore_ascii_case`).
pub fn eq_ignore_ascii_case(a: &[u8], b: &[u8]) -> (r: bool)
    ensures
        r == eq_ignore_case(a@, b@),
{
    if a.len() != b.len() {
        return false;
    }
    let mut i: usize = 0;
    while i < a.len()
        invariant
            a@.len() == b@.len(),
            0 <= i <= a@.len(),
            forall|j: int| 0 <= j < i ==> #[trigger] lower(a@[j]) == lower(b@[j]),
        decreases a@.len() - i,
    {
        if to_lower(a[i]) != to_lower(b[i]) {
            return false;
        }
        i += 1;
    }
    true
}

} // verus!

verus! {

/// Length of the longest prefix of `s` whose bytes all satisfy `p`.
pub open spec fn span(s: Seq<u8>, p: spec_fn(u8) -> bool) -> int
    decreases s.len(),
{
    if s.len() == 0 {
        0
    } else if !p(s[0]) {
        0
    } else {
        1 + span(s.drop_first(), p)
    }
}

/// Index of the first `c` in `s`, or the length of `s` when there is none.
pub open spec fn find_byte(s: Seq<u8>, c: u8) -> int
    decreases s.len(),
{
    if s.len() == 0 {
        0
    } else if s[0] == c {
        0
    } else {
        1 + find_byte(s.drop_first(), c)
    }
}

/// Number of leading spaces.
pub open spec fn leading_spaces(s: Seq<u8>) -> int {
    span(s, |b: u8| b == 32u8)
}

/// Index of the last `c` in `s`, or -1 when there is none.
pub open spec fn rfind_byte(s: Seq<u8>, c: u8) -> int
    decreases s.len(),
{
    if s.len() == 0 {
        -1
    } else if s.last() == c {
        s.len() - 1
    } else {
        rfind_byte(s.drop_last(), c)
    }
}

/// The last `c` is at `i` (or there is none, `i == -1`) when no `c` comes after `i`.
pub proof fn lemma_rfind_byte_is(s: Seq<u8>, c: u8, i: int)
    requires
        -1 <= i < s.len(),
        forall|j: int| i < j < s.len() ==> #[trigger] s[j] != c,
        i == -1 || s[i] == c,
    ensures
        rfind_byte(s, c) == i,
    decreases s.len(),
{
    if s.len() > 0 && i < s.len() - 1 {
        assert(s.last() != c);
        let t = s.drop_last();
        assert forall|j: int| i < j < t.len() implies #[trigger] t[j] != c by {
            assert(s[j] != c);
        }
        lemma_rfind_byte_is(t, c, i);
    }
}

/// Number of trailing spaces.
pub open spec fn trailing_spaces(s: Seq<u8>) -> int
    decreases s.len(),
{
    if s.len() == 0 {
        0
    } else if s.last() != 32u8 {
        0
    } else {
        1 + trailing_spaces(s.drop_last())
    }
}

/// `s` without leading and trailing spaces.
pub open spec fn trim_spaces(s: Seq<u8>) -> Seq<u8> {
    let t = s.skip(leading_spaces(s));
    t.take(t.len() - trailing_spaces(t))
}

/// `b` is a space or a horizontal tab.
pub open spec fn is_blank(b: u8) -> bool {
    b == 32u8 || b == 9u8
}

/// `s` without its leading spaces and tabs.
pub open spec fn trim_start_blank(s: Seq<u8>) -> Seq<u8> {
    s.skip(span(s, |b: u8| is_blank(b)))
}

/// The first run of non-blank bytes after leading blanks (what is left of
/// `s` after dropping leading blanks and cutting at the next blank).
pub open spec fn first_word(s: Seq<u8>) -> Seq<u8> {
    let t = trim_start_blank(s);
    t.take(span(t, |b: u8| !is_blank(b)))
}

/// `span` is the length of the prefix that satisfies `p` up to the first byte that does not.
pub proof fn lemma_span_props(s: Seq<u8>, p: spec_fn(u8) -> bool)
    ensures
        0 <= span(s, p) <= s.len(),
        forall|j: int| 0 <= j < span(s, p) ==> #[trigger] p(s[j]),
        span(s, p) < s.len() ==> !p(s[span(s, p)]),
    decreases s.len(),
{
    if s.len() > 0 && p(s[0]) {
        lemma_span_props(s.drop_first(), p);
        assert forall|j: int| 0 <= j < span(s, p) implies #[trigger] p(s[j]) by {
            if j > 0 {
                assert(s[j] == s.drop_first()[j - 1]);
            }
        }
    }
}

/// A prefix on which `p` holds throughout, followed by the end or a byte
/// on which it fails, has the length `span` gives.
pub proof fn lemma_span_is(s: Seq<u8>, p: spec_fn(u8) -> bool, i: int)
    requires
        0 <= i <= s.len(),
        forall|j: int| 0 <= j < i ==> #[trigger] p(s[j]),
        i == s.len() || !p(s[i]),
    ensures
        span(s, p) == i,
    decreases i,
{
    if i > 0 {
        assert(p(s[0]));
        let t = s.drop_first();
        assert forall|j: int| 0 <= j < i - 1 implies #[trigger] p(t[j]) by {
            assert(p(s[j + 1]));
        }
        lemma_span_is(t, p, i - 1);
    }
}

/// The first `c` is at `i` when no `c` comes before `i` and `i` is the end or holds `c`.
pub proof fn lemma_find_byte_is(s: Seq<u8>, c: u8, i: int)
    requires
        0 <= i <= s.len(),
        forall|j: int| 0 <= j < i ==> #[trigger] s[j] != c,
        i == s.len() || s[i] == c,
    ensures
        find_byte(s, c) == i,
    decreases i,
{
    if i > 0 {
        assert(s[0] != c);
        let t = s.drop_first();
        assert forall|j: int| 0 <= j < i - 1 implies #[trigger] t[j] != c by {
            assert(s[j + 1] != c);
        }
        lemma_find_byte_is(t, c, i - 1);
    }
}

/// `find_byte` gives the end or the position of the first `c`.
pub proof fn lemma_find_byte_props(s: Seq<u8>, c: u8)
    ensures
        0 <= find_byte(s, c) <= s.len(),
        forall|j: int| 0 <= j < find_byte(s, c) ==> #[trigger] s[j] != c,
        find_byte(s, c) < s.len() ==> s[find_byte(s, c)] == c,
    decreases s.len(),
{
    if s.len() > 0 && s[0] != c {
        lemma_find_byte_props(s.drop_first(), c);
        assert forall|j: int| 0 <= j < find_byte(s, c) implies #[trigger] s[j] != c by {
            if j > 0 {
                assert(s[j] == s.drop_first()[j - 1]);
            }
        }
    }
}

/// `trailing_spaces` counts the spaces at the end, up to a byte that is not one.
pub proof fn lemma_trailing_spaces_is(s: Seq<u8>, i: int)
    requires
        0 <= i <= s.len(),
        forall|j: int| s.len() - i <= j < s.len() ==> #[trigger] s[j] == 32u8,
        i == s.len() || s[s.len() - i - 1] != 32u8,
    ensures
        trailing_spaces(s) == i,
    decreases i,
{
    if i > 0 {
        assert(s[s.len() - 1] == 32u8);
        let t = s.drop_last();
        assert forall|j: int| t.len() - (i - 1) <= j < t.len() implies #[trigger] t[j] == 32u8 by {
            assert(s[j] == 32u8);
        }
        lemma_trailing_spaces_is(t, i - 1);
    }
}

/// Bounds `s[from..to]` with leading and trailing spaces removed.
pub fn trim_spaces_range(s: &[u8], from: usize, to: usize) -> (r: (usize, usize))
    requires
        from <= to <= s@.len(),
    ensures
        from <= r.0 <= r.1 <= to,
        s@.subrange(r.0 as int, r.1 as int) == trim_spaces(s@.subrange(from as int, to as int)),
{
    let ghost seg = s@.subrange(from as int, to as int);
    let mut a = from;
    while a < to && s[a] == 32u8
        invariant
            from <= a <= to <= s@.len(),
            forall|j: int| from <= j < a ==> #[trigger] s@[j] == 32u8,
        decreases to - a,
    {
        a += 1;
    }
    proof {
        assert forall|j: int| 0 <= j < a - from implies #[trigger] seg[j] == 32u8 by {
            assert(s@[j + from] == 32u8);
        }
        lemma_span_is(seg, |b: u8| b == 32u8, a - from);
    }
    let ghost t = seg.skip(leading_spaces(seg));
    assert(t =~= s@.subrange(a as int, to as int));
    let mut b = to;
    while b > a && s[b - 1] == 32u8
        invariant
            from <= a <= b <= to <= s@.len(),
            forall|j: int| b <= j < to ==> #[trigger] s@[j] == 32u8,
        decreases b - a,
    {
        b -= 1;
    }
    proof {
        assert forall|j: int| t.len() - (to - b) <= j < t.len() implies #[trigger] t[j] == 32u8 by {
            assert(s@[j + a] == 32u8);
        }
        if b > a {
            assert(t[t.len() - (to - b) - 1] == s@[b - 1]);
        }
        lemma_trailing_spaces_is(t, to - b);
    }
    assert(s@.subrange(a as int, b as int) =~= t.take(t.len() - trailing_spaces(t)));
    (a, b)
}

/// Bounds of the first word of `s[from..to]`: leading spaces and tabs are
/// skipped, and the word ends before the next space or tab.
pub fn first_word_range(s: &[u8], from: usize, to: usize) -> (r: (usize, usize))
    requires
        from <= to <= s@.len(),
    ensures
        from <= r.0 <= r.1 <= to,
        s@.subrange(r.0 as int, r.1 as int) == first_word(s@.subrange(from as int, to as int)),
{
    let ghost seg = s@.subrange(from as int, to as int);
    let mut a = from;
    while a < to && (s[a] == 32u8 || s[a] == 9u8)
        invariant
            from <= a <= to <= s@.len(),
            forall|j: int| from <= j < a ==> #[trigger] is_blank(s@[j]),
        decreases to - a,
    {
        a += 1;
    }
    proof {
        assert forall|j: int| 0 <= j < a - from implies #[trigger] is_blank(seg[j]) by {
            assert(is_blank(s@[j + from]));
        }
        lemma_span_is(seg, |b: u8| is_blank(b), a - from);
    }
    let ghost t = trim_start_blank(seg);
    assert(t =~= s@.subrange(a as int, to as int));
    let mut b = a;
    while b < to && !(s[b] == 32u8 || s[b] == 9u8)
        invariant
            a <= b <= to <= s@.len(),
            forall|j: int| a <= j < b ==> !(#[trigger] is_blank(s@[j])),
        decreases to - b,
    {
        b += 1;
    }
    proof {
        assert forall|j: int| 0 <= j < b - a implies !(#[trigger] is_blank(t[j])) by {
            assert(!is_blank(s@[j + a]));
        }
        lemma_span_is(t, |x: u8| !is_blank(x), b - a);
    }
    assert(s@.subrange(a as int, b as int) =~= first_word(seg));
    (a, b)
}

/// The chars of an ASCII byte string.
pub open spec fn ascii_chars(s: Seq<u8>) -> Seq<char> {
    s.map_values(|b: u8| b as char)
}

/// Checks that every byte is ASCII, reporting the position of the first one that is not.
///
/// Calls `ascii::AsciiStr::from_ascii` and, on failure, the error's
/// `valid_up_to`; the contract claims what the `ascii` crate documents:
/// success exactly for all-ASCII input, and otherwise the index of the
/// first non-ASCII byte.
#[verifier::external_body]
pub(crate) fn check_ascii(bytes: &[u8]) -> (r: Result<(), usize>)
    ensures
        r is Ok <==> is_ascii_bytes(bytes@),
        r matches Err(n) ==> n == span(bytes@, |b: u8| b < 128u8),
{
    match ascii::AsciiStr::from_ascii(bytes) {
        Ok(_) => Ok(()),
        Err(err) => Err(err.valid_up_to()),
    }
}

/// Views ASCII bytes as a `str`.
///
/// Calls `ascii::AsciiStr::as_str` on the checked bytes; the contract claims
/// that each byte becomes the char of the same code, as the `ascii` crate
/// documents for its `AsciiStr`.
#[verifier::external_body]
pub(crate) fn ascii_as_str<'a>(bytes: &'a [u8]) -> (r: &'a str)
    requires
        is_ascii_bytes(bytes@),
    ensures
        r@ == ascii_chars(bytes@),
{
    match ascii::AsciiStr::from_ascii(bytes) {
        Ok(s) => s.as_str(),
        Err(_) => "",
    }
}

/// Copies `s[from..to]` into a new vector.
pub fn copy_range(s: &[u8], from: usize, to: usize) -> (r: Vec<u8>)
    requires
        from <= to <= s@.len(),
    ensures
        r@ == s@.subrange(from as int, to as int),
{
    let mut out: Vec<u8> = Vec::new();
    let mut i = from;
    while i < to
        invariant
            from <= i <= to <= s@.len(),
            out@ == s@.subrange(from as int, i as int),
        decreases to - i,
    {
        out.push(s[i]);
        i += 1;
        assert(out@ =~= s@.subrange(from as int, i as int));
    }
    out
}

/// Appends all of `src` to `dst`.
pub fn append_bytes(dst: &mut Vec<u8>, src: &[u8])
    ensures
        final(dst)@ == old(dst)@ + src@,
{
    let ghost start = dst@;
    let mut i: usize = 0;
    while i < src.len()
        invariant
            0 <= i <= src@.len(),
            dst@ == start + src@.take(i as int),
        decreases src@.len() - i,
    {
        dst.push(src[i]);
        i += 1;
        assert(dst@ =~= start + src@.take(i as int));
    }
    assert(src@.take(src@.len() as int) =~= src@);
}

/// Compares two byte strings exactly.
pub fn bytes_eq(a: &[u8], b: &[u8]) -> (r: bool)
    ensures
        r == (a@ == b@),
{
    if a.len() != b.len() {
        return false;
    }
    let mut i: usize = 0;
    while i < a.len()
        invariant
            a@.len() == b@.len(),
            0 <= i <= a@.len(),
            forall|j: int| 0 <= j < i ==> a@[j] == b@[j],
        decreases a@.len() - i,
    {
        if a[i] != b[i] {
            return false;
        }
        i += 1;
    }
    assert(a@ =~= b@);
    true
}

} // verus!

verus! {

/// `s` starts with `p`.
pub open spec fn starts_with(s: Seq<u8>, p: Seq<u8>) -> bool {
    s.len() >= p.len() && s.take(p.len() as int) == p
}

/// `s` ends with `p`.
pub open spec fn ends_with(s: Seq<u8>, p: Seq<u8>) -> bool {
    s.len() >= p.len() && s.skip(s.len() - p.len()) == p
}

/// Tells whether `s` starts with `p`.
pub fn starts_with_bytes(s: &[u8], p: &[u8]) -> (r: bool)
    ensures
        r == starts_with(s@, p@),
{
    if s.len() < p.len() {
        return false;
    }
    let r = bytes_eq(&s[0..p.len()], p);
    assert(s@.subrange(0, p@.len() as int) =~= s@.take(p@.len() as int));
    r
}

/// Tells whether `s` ends with `p`.
pub fn ends_with_bytes(s: &[u8], p: &[u8]) -> (r: bool)
    ensures
        r == ends_with(s@, p@),
{
    if s.len() < p.len() {
        return false;
    }
    let r = bytes_eq(&s[s.len() - p.len()..s.len()], p);
    assert(s@.subrange(s@.len() - p@.len(), s@.len() as int) =~= s@.skip(s@.len() - p@.len()));
    r
}

/// The lower-cased copy of `s`.
pub fn to_lower_vec(s: &[u8]) -> (r: Vec<u8>)
    ensures
        r@ == lower_seq(s@),
{
    let mut out: Vec<u8> = Vec::new();
    let mut i: usize = 0;
    while i < s.len()
        invariant
            0 <= i <= s@.len(),
            out@ == lower_seq(s@.take(i as int)),
        decreases s@.len() - i,
    {
        out.push(to_lower(s[i]));
        i += 1;
        assert(out@ =~= lower_seq(s@.take(i as int)));
    }
    assert(s@.take(s@.len() as int) =~= s@);
    out
}

} // verus!
