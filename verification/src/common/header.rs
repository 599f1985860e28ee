//! Header lines: field names, field values and their parsing.

use vstd::prelude::*;
use vstd::string::StringSliceAdditionalSpecFns;

use crate::text::{
    ascii_as_str, ascii_chars, check_ascii, copy_range, eq_ignore_ascii_case, eq_ignore_case,
    is_ascii_bytes, lemma_span_is, lemma_span_props, lower, span, bytes_eq, find_byte, leading_spaces, lemma_find_byte_is,
    is_blank, trim_start_blank,
};

verus! {

broadcast use vstd::string::is_ascii_spec_bytes;

/// Bytes allowed in a field name: the RFC 9110 token characters (letters,
/// digits and ``!#$%&'*+-.^_`|~``).
pub open spec fn is_field_byte(b: u8) -> bool {
    (94 <= b && b <= 122) || (65 <= b && b <= 90) || b == 45 || (48 <= b && b <= 57)
        || b == 33 || b == 35 || b == 36 || b == 37 || b == 38 || b == 39 || b == 42
        || b == 43 || b == 46 || b == 124 || b == 126
}

/// Bytes allowed in a field value: visible characters, space, tab and obs-text.
pub open spec fn is_value_byte(b: u8) -> bool {
    (32 <= b && b <= 126) || b == 9 || b >= 128
}

/// A field name is a token: not empty, and all its bytes are allowed.
pub open spec fn field_bytes_ok(s: Seq<u8>) -> bool {
    &&& s.len() > 0
    &&& forall|i: int| 0 <= i < s.len() ==> #[trigger] is_field_byte(s[i])
}

/// All bytes are allowed in a field value.
pub open spec fn value_bytes_ok(s: Seq<u8>) -> bool {
    forall|i: int| 0 <= i < s.len() ==> #[trigger] is_value_byte(s[i])
}

/// Field-name bytes are ASCII.
pub proof fn lemma_field_bytes_ascii(s: Seq<u8>)
    requires
        field_bytes_ok(s),
    ensures
        is_ascii_bytes(s),
{
    assert forall|i: int| 0 <= i < s.len() implies #[trigger] s[i] < 128 by {
        assert(is_field_byte(s[i]));
    }
}

/// Why a header could not be built or changed.
#[derive(Debug, PartialEq, Eq, Structural, Clone, Copy)]
pub enum HeaderError {
    /// A byte is not ASCII; holds the position of the first such byte
    Ascii(usize),
    /// The data is no valid header line
    Format,
    /// The header may not be set or changed
    NonModifiable,
    /// A byte is ASCII but outside the range allowed for this part
    Range,
}

/// Result of checking field-name bytes.
pub open spec fn field_check_spec(s: Seq<u8>) -> Result<Seq<u8>, HeaderError> {
    if field_bytes_ok(s) {
        Ok(s)
    } else {
        Err(HeaderError::Range)
    }
}

/// Result of checking field-value bytes.
pub open spec fn value_check_spec(s: Seq<u8>) -> Result<Seq<u8>, HeaderError> {
    if !value_bytes_ok(s) {
        Err(HeaderError::Range)
    } else if !is_ascii_bytes(s) {
        Err(HeaderError::Ascii(span(s, |b: u8| b < 128u8) as usize))
    } else {
        Ok(s)
    }
}

/// Checks that `bytes` is a field name: an RFC 9110 token, not empty.
pub fn field_byte_range_check(bytes: &[u8]) -> (r: Result<(), HeaderError>)
    ensures
        r is Ok <==> field_bytes_ok(bytes@),
        r is Err ==> r == Err::<(), HeaderError>(HeaderError::Range),
{
    if bytes.len() == 0 {
        return Err(HeaderError::Range);
    }
    let mut i: usize = 0;
    while i < bytes.len()
        invariant
            0 <= i <= bytes@.len(),
            forall|j: int| 0 <= j < i ==> #[trigger] is_field_byte(bytes@[j]),
        decreases bytes@.len() - i,
    {
        let b = bytes[i];
        if !((b >= 94 && b <= 122) || (b >= 65 && b <= 90) || b == 45 || (b >= 48 && b <= 57)
            || b == 33 || b == 35 || b == 36 || b == 37 || b == 38 || b == 39 || b == 42
            || b == 43 || b == 46 || b == 124 || b == 126) {
            assert(!is_field_byte(bytes@[i as int]));
            return Err(HeaderError::Range);
        }
        i += 1;
    }
    Ok(())
}

/// Checks `bytes` for the byte range allowed in field values (RFC 9110 field values).
pub fn field_value_byte_range_check(bytes: &[u8]) -> (r: Result<(), HeaderError>)
    ensures
        r is Ok <==> value_bytes_ok(bytes@),
        r is Err ==> r == Err::<(), HeaderError>(HeaderError::Range),
{
    let mut i: usize = 0;
    while i < bytes.len()
        invariant
            0 <= i <= bytes@.len(),
            forall|j: int| 0 <= j < i ==> #[trigger] is_value_byte(bytes@[j]),
        decreases bytes@.len() - i,
    {
        let b = bytes[i];
        if !((b >= 32 && b <= 126) || b == 9 || b >= 128) {
            assert(!is_value_byte(bytes@[i as int]));
            return Err(HeaderError::Range);
        }
        i += 1;
    }
    Ok(())
}

/// Field of a header (eg. `Content-Type`); comparison ignores ASCII case.
#[derive(Debug)]
pub struct HeaderField(Vec<u8>);

impl View for HeaderField {
    type V = Seq<u8>;

    closed spec fn view(&self) -> Seq<u8> {
        self.0@
    }
}

impl HeaderField {
    #[verifier::type_invariant]
    closed spec fn inv(&self) -> bool {
        field_bytes_ok(self.0@)
    }

    /// Creates a [`HeaderField`] from `bytes`, refusing bytes outside the field-name range.
    pub fn from_bytes(bytes: &[u8]) -> (r: Result<HeaderField, HeaderError>)
        ensures
            match (r, field_check_spec(bytes@)) {
                (Ok(f), Ok(s)) => f@ == s,
                (Err(e1), Err(e2)) => e1 == e2,
                _ => false,
            },
    {
        field_byte_range_check(bytes)?;
        Ok(HeaderField(copy_range(bytes, 0, bytes.len())))
    }

    /// Creates a [`HeaderField`] from bytes known to be allowed.
    pub fn from_valid_bytes(bytes: &[u8]) -> (r: HeaderField)
        requires
            field_bytes_ok(bytes@),
        ensures
            r@ == bytes@,
    {
        HeaderField(copy_range(bytes, 0, bytes.len()))
    }

    /// The field name as bytes.
    pub fn as_bytes(&self) -> (r: &[u8])
        ensures
            r@ == self@,
    {
        self.0.as_slice()
    }

    /// The field name as `&str`.
    pub fn as_str(&self) -> (r: &str)
        ensures
            r@ == ascii_chars(self@),
    {
        proof {
            use_type_invariant(self);
            lemma_field_bytes_ascii(self@);
        }
        ascii_as_str(self.0.as_slice())
    }

    /// Compares with `other` ignoring ASCII case.
    pub fn equiv(&self, other: &str) -> (r: bool)
        ensures
            r == eq_ignore_case(self@, other.spec_bytes()),
    {
        eq_ignore_ascii_case(self.0.as_slice(), other.as_bytes())
    }

    /// Compares with other field-name bytes ignoring ASCII case.
    pub fn equiv_bytes(&self, other: &[u8]) -> (r: bool)
        ensures
            r == eq_ignore_case(self@, other@),
    {
        eq_ignore_ascii_case(self.0.as_slice(), other)
    }

    /// A copy of this field name.
    pub fn duplicate(&self) -> (r: HeaderField)
        ensures
            r@ == self@,
    {
        proof {
            use_type_invariant(self);
        }
        HeaderField(copy_range(self.0.as_slice(), 0, self.0.len()))
    }
}

impl Clone for HeaderField {
    fn clone(&self) -> (r: Self)
        ensures
            r@ == self@,
    {
        self.duplicate()
    }
}

impl PartialEq for HeaderField {
    fn eq(&self, other: &Self) -> (r: bool) {
        eq_ignore_ascii_case(self.0.as_slice(), other.0.as_slice())
    }
}

impl vstd::std_specs::cmp::PartialEqSpecImpl for HeaderField {
    open spec fn obeys_eq_spec() -> bool {
        true
    }

    open spec fn eq_spec(&self, other: &Self) -> bool {
        eq_ignore_case(self@, other@)
    }
}

impl Eq for HeaderField {}

} // verus!

verus! {

/// Value of a header field.
#[derive(Debug)]
pub struct HeaderFieldValue(Vec<u8>);

impl View for HeaderFieldValue {
    type V = Seq<u8>;

    closed spec fn view(&self) -> Seq<u8> {
        self.0@
    }
}

impl HeaderFieldValue {
    #[verifier::type_invariant]
    closed spec fn inv(&self) -> bool {
        value_bytes_ok(self.0@) && is_ascii_bytes(self.0@)
    }

    /// Creates a [`HeaderFieldValue`] from `bytes`, refusing bytes outside the
    /// field-value range and non-ASCII bytes.
    pub fn from_bytes(bytes: &[u8]) -> (r: Result<HeaderFieldValue, HeaderError>)
        ensures
            match (r, value_check_spec(bytes@)) {
                (Ok(v), Ok(s)) => v@ == s,
                (Err(e1), Err(e2)) => e1 == e2,
                _ => false,
            },
    {
        field_value_byte_range_check(bytes)?;
        match check_ascii(bytes) {
            Ok(()) => Ok(HeaderFieldValue(copy_range(bytes, 0, bytes.len()))),
            Err(n) => Err(HeaderError::Ascii(n)),
        }
    }

    /// Creates a [`HeaderFieldValue`] from bytes known to be allowed.
    pub fn from_valid_bytes(bytes: &[u8]) -> (r: HeaderFieldValue)
        requires
            value_bytes_ok(bytes@),
            is_ascii_bytes(bytes@),
        ensures
            r@ == bytes@,
    {
        HeaderFieldValue(copy_range(bytes, 0, bytes.len()))
    }

    /// The value as bytes.
    pub fn as_bytes(&self) -> (r: &[u8])
        ensures
            r@ == self@,
    {
        self.0.as_slice()
    }

    /// The value as `&str`.
    pub fn as_str(&self) -> (r: &str)
        ensures
            r@ == ascii_chars(self@),
    {
        proof {
            use_type_invariant(self);
        }
        ascii_as_str(self.0.as_slice())
    }

    /// Compares with `other` byte for byte.
    pub fn eq_bytes(&self, other: &[u8]) -> (r: bool)
        ensures
            r == (self@ == other@),
    {
        bytes_eq(self.0.as_slice(), other)
    }

    /// A copy of this value.
    pub fn duplicate(&self) -> (r: HeaderFieldValue)
        ensures
            r@ == self@,
    {
        proof {
            use_type_invariant(self);
        }
        HeaderFieldValue(copy_range(self.0.as_slice(), 0, self.0.len()))
    }
}

impl Clone for HeaderFieldValue {
    fn clone(&self) -> (r: Self)
        ensures
            r@ == self@,
    {
        self.duplicate()
    }
}

impl PartialEq for HeaderFieldValue {
    fn eq(&self, other: &Self) -> (r: bool) {
        bytes_eq(self.0.as_slice(), other.0.as_slice())
    }
}

impl vstd::std_specs::cmp::PartialEqSpecImpl for HeaderFieldValue {
    open spec fn obeys_eq_spec() -> bool {
        true
    }

    open spec fn eq_spec(&self, other: &Self) -> bool {
        self@ == other@
    }
}

impl Eq for HeaderFieldValue {}

/// A header: field name and value.
#[derive(Debug, PartialEq, Eq)]
pub struct Header {
    /// Field name
    pub field: HeaderField,
    /// Value for the field
    pub value: HeaderFieldValue,
}

/// Number of spaces and tabs at the end of `s`.
pub open spec fn trailing_blanks(s: Seq<u8>) -> int
    decreases s.len(),
{
    if s.len() == 0 {
        0
    } else if !is_blank(s.last()) {
        0
    } else {
        1 + trailing_blanks(s.drop_last())
    }
}

/// `s` without the spaces and tabs around it (the optional whitespace of
/// RFC 9110 around a field value).
pub open spec fn trim_blanks(s: Seq<u8>) -> Seq<u8> {
    let t = trim_start_blank(s);
    t.take(t.len() - trailing_blanks(t))
}

/// `trailing_blanks` counts the spaces and tabs at the end, up to a byte that is neither.
proof fn lemma_trailing_blanks_is(s: Seq<u8>, i: int)
    requires
        0 <= i <= s.len(),
        forall|j: int| s.len() - i <= j < s.len() ==> #[trigger] is_blank(s[j]),
        i == s.len() || !is_blank(s[s.len() - i - 1]),
    ensures
        trailing_blanks(s) == i,
    decreases i,
{
    if i > 0 {
        assert(is_blank(s[s.len() - 1]));
        let t = s.drop_last();
        assert forall|j: int| t.len() - (i - 1) <= j < t.len() implies #[trigger] is_blank(t[j]) by {
            assert(is_blank(s[j]));
        }
        lemma_trailing_blanks_is(t, i - 1);
    }
}

/// What building a header from a field part and a value part gives: the
/// value loses the spaces and tabs around it.
pub open spec fn header_pair_spec(f: Seq<u8>, v: Seq<u8>) -> Result<(Seq<u8>, Seq<u8>), HeaderError> {
    match field_check_spec(f) {
        Err(e) => Err(e),
        Ok(_) => match value_check_spec(trim_blanks(v)) {
            Err(e) => Err(e),
            Ok(w) => Ok((f, w)),
        },
    }
}

/// What parsing a header line `field: value` gives: the line is cut at its
/// first colon, which may be neither missing nor the last byte.
pub open spec fn header_line_spec(s: Seq<u8>) -> Result<(Seq<u8>, Seq<u8>), HeaderError> {
    let c = find_byte(s, 58u8);
    if s.len() == 0 || c + 1 >= s.len() {
        Err(HeaderError::Format)
    } else {
        header_pair_spec(s.take(c), s.skip(c + 1))
    }
}

/// A built header agrees with the expected field and value, or errors agree.
pub open spec fn header_matches(
    r: Result<Header, HeaderError>,
    s: Result<(Seq<u8>, Seq<u8>), HeaderError>,
) -> bool {
    match (r, s) {
        (Ok(h), Ok((f, v))) => h.field@ == f && h.value@ == v,
        (Err(e1), Err(e2)) => e1 == e2,
        _ => false,
    }
}

impl Header {
    /// Builds a header from field and value bytes, taken as they are.
    pub fn from_bytes(field: &[u8], value: &[u8]) -> (r: Result<Header, HeaderError>)
        ensures
            header_matches(
                r,
                match field_check_spec(field@) {
                    Err(e) => Err(e),
                    Ok(_) => match value_check_spec(value@) {
                        Err(e) => Err(e),
                        Ok(_) => Ok((field@, value@)),
                    },
                },
            ),
    {
        let field = HeaderField::from_bytes(field)?;
        let value = HeaderFieldValue::from_bytes(value)?;
        Ok(Header { field, value })
    }

    /// Builds a header from a field part and a value part; leading spaces of the value are dropped.
    pub fn from_pair(field: &[u8], value: &[u8]) -> (r: Result<Header, HeaderError>)
        requires
            value@.len() > 0,
        ensures
            header_matches(r, header_pair_spec(field@, value@)),
    {
        let field = HeaderField::from_bytes(field)?;
        let mut first: usize = 0;
        while first < value.len() && (value[first] == 32u8 || value[first] == 9u8)
            invariant
                0 <= first <= value@.len(),
                forall|j: int| 0 <= j < first ==> #[trigger] is_blank(value@[j]),
            decreases value@.len() - first,
        {
            first += 1;
        }
        proof {
            lemma_span_is(value@, |b: u8| is_blank(b), first as int);
        }
        let ghost t = value@.skip(first as int);
        assert(t =~= trim_start_blank(value@));
        let mut end: usize = value.len();
        while end > first && (value[end - 1] == 32u8 || value[end - 1] == 9u8)
            invariant
                first <= end <= value@.len(),
                forall|j: int| end <= j < value@.len() ==> #[trigger] is_blank(value@[j]),
            decreases end - first,
        {
            end -= 1;
        }
        proof {
            let k = value@.len() - end;
            assert forall|j: int| t.len() - k <= j < t.len() implies #[trigger] is_blank(t[j]) by {
                assert(t[j] == value@[j + first]);
            }
            if end > first {
                assert(t[t.len() - k - 1] == value@[end - 1]);
            }
            lemma_trailing_blanks_is(t, k);
        }
        let rest = &value[first..end];
        assert(rest@ =~= trim_blanks(value@));
        let value = HeaderFieldValue::from_bytes(rest)?;
        Ok(Header { field, value })
    }

    /// Parses a header line `field: value`.
    pub fn parse_line(input: &[u8]) -> (r: Result<Header, HeaderError>)
        ensures
            header_matches(r, header_line_spec(input@)),
    {
        let mut colon: usize = 0;
        while colon < input.len() && input[colon] != 58u8
            invariant
                0 <= colon <= input@.len(),
                forall|j: int| 0 <= j < colon ==> #[trigger] input@[j] != 58u8,
            decreases input@.len() - colon,
        {
            colon += 1;
        }
        proof {
            lemma_find_byte_is(input@, 58u8, colon as int);
        }
        if input.len() == 0 || colon >= input.len() - 1 {
            return Err(HeaderError::Format);
        }
        let field = &input[0..colon];
        let value = &input[colon + 1..input.len()];
        assert(field@ =~= input@.take(colon as int));
        assert(value@ =~= input@.skip(colon + 1));
        Header::from_pair(field, value)
    }
}

} // verus!

verus! {

/// The bytes of the header line `field: value`.
pub open spec fn header_line_bytes(f: Seq<u8>, v: Seq<u8>) -> Seq<u8> {
    f + seq![58u8, 32u8] + v
}

impl Header {
    /// The header as the line `field: value` (without line end).
    pub fn to_bytes(&self) -> (r: Vec<u8>)
        ensures
            r@ == header_line_bytes(self.field@, self.value@),
    {
        let mut out = copy_range(self.field.as_bytes(), 0, self.field.as_bytes().len());
        out.push(58u8);
        out.push(32u8);
        crate::text::append_bytes(&mut out, self.value.as_bytes());
        assert(out@ =~= header_line_bytes(self.field@, self.value@));
        out
    }

    /// The header as the text `field: value`.
    pub fn to_string(&self) -> (r: String)
        ensures
            r@ == ascii_chars(header_line_bytes(self.field@, self.value@)),
    {
        proof {
            use_type_invariant(&self.field);
            use_type_invariant(&self.value);
            lemma_field_bytes_ascii(self.field@);
        }
        let bytes = self.to_bytes();
        assert(is_ascii_bytes(bytes@)) by {
            assert forall|i: int| 0 <= i < bytes@.len() implies #[trigger] bytes@[i] < 128 by {
                if i < self.field@.len() {
                    assert(bytes@[i] == self.field@[i]);
                } else if i >= self.field@.len() + 2 {
                    assert(bytes@[i] == self.value@[i - self.field@.len() - 2]);
                }
            }
        }
        ascii_as_str(bytes.as_slice()).to_owned()
    }

    /// A copy of this header.
    pub fn duplicate(&self) -> (r: Header)
        ensures
            r.field@ == self.field@,
            r.value@ == self.value@,
    {
        Header { field: self.field.duplicate(), value: self.value.duplicate() }
    }
}

impl Clone for Header {
    fn clone(&self) -> (r: Self)
        ensures
            r.field@ == self.field@,
            r.value@ == self.value@,
    {
        self.duplicate()
    }
}

/// Formatting a header as `field: value` and parsing the line back gives the
/// same field and value, for every valid header whose value neither starts
/// nor ends with a space or tab.
pub proof fn lemma_header_line_roundtrip(f: Seq<u8>, v: Seq<u8>)
    requires
        field_bytes_ok(f),
        value_bytes_ok(v),
        is_ascii_bytes(v),
        v.len() == 0 || (!is_blank(v[0]) && !is_blank(v.last())),
    ensures
        header_line_spec(header_line_bytes(f, v)) == Ok::<(Seq<u8>, Seq<u8>), HeaderError>((f, v)),
{
    let s = header_line_bytes(f, v);
    assert forall|j: int| 0 <= j < f.len() implies #[trigger] s[j] != 58u8 by {
        assert(s[j] == f[j]);
        assert(is_field_byte(f[j]));
    }
    lemma_find_byte_is(s, 58u8, f.len() as int);
    assert(s.take(f.len() as int) =~= f);
    let rest = s.skip(f.len() as int + 1);
    assert(rest =~= seq![32u8] + v);
    assert forall|j: int| 0 <= j < 1 implies #[trigger] is_blank(rest[j]) by {}
    if v.len() > 0 {
        assert(rest[1] == v[0]);
    }
    lemma_span_is(rest, |b: u8| is_blank(b), 1);
    assert(rest.skip(1) =~= v);
    lemma_trailing_blanks_is(v, 0);
    assert(v.take(v.len() as int) =~= v);
}

} // verus!

verus! {

impl std::str::FromStr for Header {
    type Err = HeaderError;

    fn from_str(s: &str) -> (r: Result<Header, HeaderError>)
        ensures
            header_matches(r, header_line_spec(s.spec_bytes())),
    {
        Header::parse_line(s.as_bytes())
    }
}

impl std::str::FromStr for HeaderField {
    type Err = HeaderError;

    fn from_str(s: &str) -> (r: Result<HeaderField, HeaderError>)
        ensures
            match (r, field_check_spec(s.spec_bytes())) {
                (Ok(f), Ok(b)) => f@ == b,
                (Err(e1), Err(e2)) => e1 == e2,
                _ => false,
            },
    {
        HeaderField::from_bytes(s.as_bytes())
    }
}

impl std::str::FromStr for HeaderFieldValue {
    type Err = HeaderError;

    fn from_str(s: &str) -> (r: Result<HeaderFieldValue, HeaderError>)
        ensures
            match (r, value_check_spec(s.spec_bytes())) {
                (Ok(v), Ok(b)) => v@ == b,
                (Err(e1), Err(e2)) => e1 == e2,
                _ => false,
            },
    {
        HeaderFieldValue::from_bytes(s.as_bytes())
    }
}

} // verus!

verus! {

/// The header fields that a response may not set, in lower case.
pub open spec fn forbidden_names() -> Seq<Seq<u8>> {
    seq![
        "connection".spec_bytes(),
        "trailer".spec_bytes(),
        "transfer-encoding".spec_bytes(),
        "upgrade".spec_bytes(),
    ]
}

/// A field that a response may not set: one of [`forbidden_names`], in any ASCII case.
pub open spec fn forbidden_field(f: Seq<u8>) -> bool {
    exists|i: int| 0 <= i < forbidden_names().len() && eq_ignore_case(f, #[trigger] forbidden_names()[i])
}

/// The names of the header fields that a response may not set, in lower case.
pub fn header_forbidden() -> (r: Vec<&'static str>)
    ensures
        r@.len() == forbidden_names().len(),
        forall|i: int| 0 <= i < r@.len() ==> #[trigger] r@[i].spec_bytes() == forbidden_names()[i],
{
    let mut r: Vec<&'static str> = Vec::new();
    r.push("connection");
    r.push("trailer");
    r.push("transfer-encoding");
    r.push("upgrade");
    r
}

impl Header {
    /// Tells whether `field` is one that a response may not set (see [`forbidden_field`]).
    pub fn is_modifieable(field: &HeaderField) -> (r: bool)
        ensures
            r == forbidden_field(field@),
    {
        let names = header_forbidden();
        let mut i: usize = 0;
        while i < names.len()
            invariant
                0 <= i <= names@.len(),
                names@.len() == forbidden_names().len(),
                forall|k: int| 0 <= k < names@.len() ==> #[trigger] names@[k].spec_bytes() == forbidden_names()[k],
                forall|k: int| 0 <= k < i ==> !eq_ignore_case(field@, #[trigger] forbidden_names()[k]),
            decreases names@.len() - i,
        {
            let n: &str = names[i];
            if field.equiv(n) {
                return true;
            }
            i += 1;
        }
        false
    }
}

} // verus!

verus! {

/// The names that may not be set have 7, 10 or 17 bytes.
pub proof fn lemma_forbidden_name_lengths()
    ensures
        forbidden_names().len() == 4,
        forall|i: int| 0 <= i < 4 ==> #[trigger] forbidden_names()[i].len() == 7 || forbidden_names()[i].len() == 10
            || forbidden_names()[i].len() == 17,
{
    reveal_strlit("connection");
    reveal_strlit("trailer");
    reveal_strlit("transfer-encoding");
    reveal_strlit("upgrade");
    assert(vstd::string::is_ascii("connection"));
    assert(vstd::string::is_ascii("trailer"));
    assert(vstd::string::is_ascii("transfer-encoding"));
    assert(vstd::string::is_ascii("upgrade"));
    assert forall|i: int| 0 <= i < 4 implies #[trigger] forbidden_names()[i].len() == 7 || forbidden_names()[i].len() == 10
        || forbidden_names()[i].len() == 17 by {
        if i == 0 {
        } else if i == 1 {
        } else if i == 2 {
        } else {
        }
    }
}

} // verus!
