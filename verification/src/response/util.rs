//! Helpers for building responses: header lists, header field sets and the
//! choice of transfer encoding.

use vstd::prelude::*;
use vstd::string::StringSliceAdditionalSpecFns;

use crate::common::header::{Header, HeaderField};
use crate::common::http_version::HttpVersion;
use crate::common::status_code::StatusCode;
use crate::response::transfer_encoding::{transfer_encoding_spec, TransferEncoding};
use crate::text::{eq_ignore_case, lemma_eq_ignore_case_lower, lower_seq};

verus! {

/// The field names and values of a list of headers.
pub open spec fn header_pairs(hs: Seq<Header>) -> Seq<(Seq<u8>, Seq<u8>)> {
    hs.map_values(|h: Header| (h.field@, h.value@))
}

/// Index of the first pair whose field equals `f` ignoring case, or the length when none does.
pub open spec fn first_field_index(ps: Seq<(Seq<u8>, Seq<u8>)>, f: Seq<u8>) -> int
    decreases ps.len(),
{
    if ps.len() == 0 {
        0
    } else if eq_ignore_case(ps[0].0, f) {
        0
    } else {
        1 + first_field_index(ps.drop_first(), f)
    }
}

proof fn lemma_first_field_index_is(ps: Seq<(Seq<u8>, Seq<u8>)>, f: Seq<u8>, i: int)
    requires
        0 <= i <= ps.len(),
        forall|j: int| 0 <= j < i ==> !eq_ignore_case(#[trigger] ps[j].0, f),
        i == ps.len() || eq_ignore_case(ps[i].0, f),
    ensures
        first_field_index(ps, f) == i,
    decreases i,
{
    if i > 0 {
        assert(!eq_ignore_case(ps[0].0, f));
        let t = ps.drop_first();
        assert forall|j: int| 0 <= j < i - 1 implies !eq_ignore_case(#[trigger] t[j].0, f) by {
            assert(t[j] == ps[j + 1]);
        }
        lemma_first_field_index_is(t, f, i - 1);
    }
}

/// Setting a header in a list: appended when `always_push`, otherwise the
/// value of the first header with the same field (ignoring case) is replaced,
/// or the header is appended when there is none.
pub open spec fn upsert_header(
    ps: Seq<(Seq<u8>, Seq<u8>)>,
    f: Seq<u8>,
    v: Seq<u8>,
    always_push: bool,
) -> Seq<(Seq<u8>, Seq<u8>)> {
    let i = first_field_index(ps, f);
    if always_push || i >= ps.len() {
        ps.push((f, v))
    } else {
        ps.update(i, (ps[i].0, v))
    }
}

/// Setting a header in an optional list: a missing list becomes one holding the header.
pub open spec fn upsert_optional(
    hs: Option<Seq<(Seq<u8>, Seq<u8>)>>,
    f: Seq<u8>,
    v: Seq<u8>,
    always_push: bool,
) -> Option<Seq<(Seq<u8>, Seq<u8>)>> {
    match hs {
        Some(ps) => Some(upsert_header(ps, f, v, always_push)),
        None => Some(seq![(f, v)]),
    }
}

/// The field names and values of an optional list of headers.
pub open spec fn optional_pairs(hs: Option<Vec<Header>>) -> Option<Seq<(Seq<u8>, Seq<u8>)>> {
    match hs {
        Some(v) => Some(header_pairs(v@)),
        None => None,
    }
}

/// A copy of a list of headers.
pub fn duplicate_headers(headers: &[Header]) -> (r: Vec<Header>)
    ensures
        header_pairs(r@) == header_pairs(headers@),
{
    let mut copy: Vec<Header> = Vec::new();
    let mut i: usize = 0;
    while i < headers.len()
        invariant
            0 <= i <= headers@.len(),
            copy@.len() == i,
            header_pairs(copy@) =~= header_pairs(headers@.take(i as int)),
        decreases headers@.len() - i,
    {
        let h = headers[i].duplicate();
        let ghost before = copy@;
        copy.push(h);
        proof {
            let t = headers@.take(i + 1);
            assert forall|j: int| 0 <= j < i + 1 implies #[trigger] header_pairs(copy@)[j] == header_pairs(t)[j] by {
                if j < i {
                    assert(header_pairs(before)[j] == header_pairs(headers@.take(i as int))[j]);
                }
            }
        }
        i += 1;
        assert(header_pairs(copy@) =~= header_pairs(headers@.take(i as int)));
    }
    assert(headers@.take(headers@.len() as int) =~= headers@);
    copy
}

/// Sets `header` in the list `list` (see [`upsert_header`]).
pub fn upsert_header_in(list: &mut Vec<Header>, header: Header, always_push: bool)
    ensures
        header_pairs(final(list)@) == upsert_header(
            header_pairs(old(list)@),
            header.field@,
            header.value@,
            always_push,
        ),
{
    let ghost f = header.field@;
    let ghost v = header.value@;
    let ghost ps = header_pairs(list@);
    if always_push {
        list.push(header);
        assert(header_pairs(list@) =~= ps.push((f, v)));
        return;
    }
    let mut i: usize = 0;
    while i < list.len()
        invariant
            0 <= i <= list@.len(),
            f == header.field@,
            v == header.value@,
            ps == header_pairs(list@),
            list@ == old(list)@,
            !always_push,
            forall|j: int| 0 <= j < i ==> !eq_ignore_case(#[trigger] ps[j].0, f),
        decreases list@.len() - i,
    {
        assert(ps[i as int].0 == list@[i as int].field@);
        let same = list[i].field.equiv_bytes(header.field.as_bytes());
        if same {
            proof {
                lemma_first_field_index_is(ps, f, i as int);
            }
            let old_field = list[i].field.duplicate();
            let Header { field: _, value } = header;
            list.set(i, Header { field: old_field, value });
            assert(header_pairs(list@) =~= ps.update(i as int, (ps[i as int].0, v)));
            return;
        }
        i += 1;
    }
    proof {
        lemma_first_field_index_is(ps, f, list@.len() as int);
    }
    list.push(header);
    assert(header_pairs(list@) =~= ps.push((f, v)));
}

/// Sets `header` in `headers` (see [`upsert_header`]); a missing list becomes one holding it.
pub fn update_optional_header(headers: &mut Option<Vec<Header>>, header: Header, always_push: bool)
    ensures
        optional_pairs(*final(headers)) == upsert_optional(
            optional_pairs(*old(headers)),
            header.field@,
            header.value@,
            always_push,
        ),
{
    let ghost f = header.field@;
    let ghost v = header.value@;
    match headers.take() {
        Some(mut list) => {
            upsert_header_in(&mut list, header, always_push);
            *headers = Some(list);
        },
        None => {
            let mut list: Vec<Header> = Vec::new();
            list.push(header);
            assert(header_pairs(list@) =~= seq![(f, v)]);
            *headers = Some(list);
        },
    }
}

/// Status codes whose responses carry no body: 1xx, 204, 205 and 304.
pub open spec fn body_ignored_spec(code: u16) -> bool {
    (100 <= code && code <= 199) || code == 204 || code == 205 || code == 304
}

/// Checks whether a response with this status code must not include a body.
pub fn is_body_for_status_ignored(status_code: StatusCode) -> (r: bool)
    ensures
        r == body_ignored_spec(status_code.0),
{
    let c = status_code.0;
    (c >= 100 && c <= 199) || c == 204 || c == 205 || c == 304
}

/// The first encoding of a preference list that can be read, or `Identity`.
pub open spec fn first_known_encoding(prefs: Seq<Seq<u8>>) -> TransferEncoding
    decreases prefs.len(),
{
    if prefs.len() == 0 {
        TransferEncoding::Identity
    } else {
        match transfer_encoding_spec(prefs[0]) {
            Ok(te) => te,
            Err(_) => first_known_encoding(prefs.drop_first()),
        }
    }
}

/// The transfer encoding for a response.
///
/// HTTP/1.0 and older, informational and `204` responses use `Identity`;
/// additional headers, an unknown length or a length at or above the
/// threshold use `Chunked`; otherwise the client's preferences decide (the
/// encodings of its `TE` header with positive weight, most wanted first),
/// and `Identity` when none of them is known.
pub open spec fn choose_transfer_encoding_spec(
    status: u16,
    version: HttpVersion,
    entity_length: Option<usize>,
    has_additional_headers: bool,
    chunked_threshold: usize,
    preferences: Option<Seq<Seq<u8>>>,
) -> TransferEncoding {
    if version.rank() <= 1 {
        TransferEncoding::Identity
    } else if status < 200 || status == 204 {
        TransferEncoding::Identity
    } else if has_additional_headers {
        TransferEncoding::Chunked
    } else if entity_length is None || entity_length->0 >= chunked_threshold {
        TransferEncoding::Chunked
    } else {
        match preferences {
            Some(p) => first_known_encoding(p),
            None => TransferEncoding::Identity,
        }
    }
}

/// Chooses the transfer encoding for a response (see [`choose_transfer_encoding_spec`]).
pub fn choose_transfer_encoding(
    status_code: StatusCode,
    http_version: HttpVersion,
    entity_length: Option<usize>,
    has_additional_headers: bool,
    chunked_threshold: usize,
    preferences: Option<&Vec<Vec<u8>>>,
) -> (r: TransferEncoding)
    ensures
        r == choose_transfer_encoding_spec(
            status_code.0,
            http_version,
            entity_length,
            has_additional_headers,
            chunked_threshold,
            match preferences {
                Some(p) => Some(p@.map_values(|b: Vec<u8>| b@)),
                None => None,
            },
        ),
{
    if http_version.ordinal() <= 1 {
        return TransferEncoding::Identity;
    }
    if status_code.0 < 200 || status_code.0 == 204 {
        return TransferEncoding::Identity;
    }
    if has_additional_headers {
        return TransferEncoding::Chunked;
    }
    match entity_length {
        None => {
            return TransferEncoding::Chunked;
        },
        Some(l) => {
            if l >= chunked_threshold {
                return TransferEncoding::Chunked;
            }
        },
    }
    match preferences {
        Some(p) => {
            let ghost ps = p@.map_values(|b: Vec<u8>| b@);
            let ghost goal = choose_transfer_encoding_spec(
                status_code.0,
                http_version,
                entity_length,
                has_additional_headers,
                chunked_threshold,
                Some(ps),
            );
            assert(goal == first_known_encoding(ps));
            let mut i: usize = 0;
            assert(ps.skip(0) =~= ps);
            while i < p.len()
                invariant
                    0 <= i <= p@.len(),
                    goal == first_known_encoding(ps),
                    preferences == Some(p),
                    goal == choose_transfer_encoding_spec(
                        status_code.0,
                        http_version,
                        entity_length,
                        has_additional_headers,
                        chunked_threshold,
                        Some(p@.map_values(|b: Vec<u8>| b@)),
                    ),
                    ps == p@.map_values(|b: Vec<u8>| b@),
                    first_known_encoding(ps) == first_known_encoding(ps.skip(i as int)),
                decreases p@.len() - i,
            {
                assert(ps.skip(i as int).len() > 0);
                assert(ps.skip(i as int)[0] == p@[i as int]@);
                assert(ps.skip(i as int).drop_first() =~= ps.skip(i + 1));
                if let Ok(te) = TransferEncoding::parse(p[i].as_slice()) {
                    assert(first_known_encoding(ps.skip(i as int)) == te);
                    assert(goal == te);
                    return te;
                }
                i += 1;
            }
            assert(ps.skip(i as int).len() == 0);
            TransferEncoding::Identity
        },
        None => TransferEncoding::Identity,
    }
}

} // verus!

verus! {

/// A set of header field names, compared ignoring ASCII case.
#[derive(Debug)]
pub struct HeaderFieldSet {
    fields: Vec<HeaderField>,
}

impl View for HeaderFieldSet {
    type V = Set<Seq<u8>>;

    /// The lower-cased names in the set.
    closed spec fn view(&self) -> Set<Seq<u8>> {
        Set::new(|l: Seq<u8>| exists|i: int| 0 <= i < self.fields@.len() && lower_seq(#[trigger] self.fields@[i]@) == l)
    }
}

impl HeaderFieldSet {
    #[verifier::type_invariant]
    closed spec fn inv(&self) -> bool {
        forall|i: int, j: int|
            0 <= i < j < self.fields@.len() ==> lower_seq(#[trigger] self.fields@[i]@) != lower_seq(
                #[trigger] self.fields@[j]@,
            )
    }

    /// The empty set.
    pub fn new() -> (r: HeaderFieldSet)
        ensures
            r@ == Set::<Seq<u8>>::empty(),
    {
        let r = HeaderFieldSet { fields: Vec::new() };
        assert(r@ =~= Set::<Seq<u8>>::empty());
        r
    }

    /// Tells whether the set holds `field` (ignoring case).
    pub fn contains(&self, field: &HeaderField) -> (r: bool)
        ensures
            r == self@.contains(lower_seq(field@)),
    {
        let mut i: usize = 0;
        while i < self.fields.len()
            invariant
                0 <= i <= self.fields@.len(),
                forall|j: int| 0 <= j < i ==> lower_seq(#[trigger] self.fields@[j]@) != lower_seq(field@),
            decreases self.fields@.len() - i,
        {
            let same = self.fields[i].equiv_bytes(field.as_bytes());
            proof {
                lemma_eq_ignore_case_lower(self.fields@[i as int]@, field@);
            }
            if same {
                return true;
            }
            i += 1;
        }
        false
    }

    /// Adds `field` unless a name equal to it (ignoring case) is held.
    pub fn insert(&mut self, field: HeaderField)
        ensures
            final(self)@ == old(self)@.insert(lower_seq(field@)),
    {
        proof {
            use_type_invariant(&*self);
        }
        if self.contains(&field) {
            assert(self@ =~= old(self)@.insert(lower_seq(field@)));
            return;
        }
        let ghost l = lower_seq(field@);
        let ghost before = self.fields@;
        let mut fields: Vec<HeaderField> = Vec::new();
        std::mem::swap(&mut fields, &mut self.fields);
        assert(fields@ == before);
        fields.push(field);
        assert forall|i: int, j: int|
            0 <= i < j < fields@.len() implies lower_seq(#[trigger] fields@[i]@) != lower_seq(
                #[trigger] fields@[j]@,
            ) by {
            if j == before.len() {
                assert(!old(self)@.contains(l));
                assert(fields@[i] == before[i]);
            } else {
                assert(fields@[i] == before[i]);
                assert(fields@[j] == before[j]);
            }
        }
        self.fields = fields;
        assert forall|x: Seq<u8>| #[trigger] self@.contains(x) <==> old(self)@.insert(l).contains(x) by {
            if self@.contains(x) {
                let i = choose|i: int| 0 <= i < self.fields@.len() && lower_seq(#[trigger] self.fields@[i]@) == x;
                if i < before.len() {
                    assert(self.fields@[i] == before[i]);
                    assert(old(self)@.contains(x));
                }
            }
            if old(self)@.contains(x) {
                let i = choose|i: int| 0 <= i < before.len() && lower_seq(#[trigger] before[i]@) == x;
                assert(self.fields@[i] == before[i]);
                assert(self@.contains(x));
            }
            if x == l {
                assert(self.fields@[before.len() as int]@ == field@);
                assert(self@.contains(x));
            }
        }
        assert(self@ =~= old(self)@.insert(l));
    }

    /// A copy of the set.
    pub fn duplicate(&self) -> (r: HeaderFieldSet)
        ensures
            r@ == self@,
    {
        proof {
            use_type_invariant(self);
        }
        let mut fields: Vec<HeaderField> = Vec::new();
        let mut i: usize = 0;
        while i < self.fields.len()
            invariant
                0 <= i <= self.fields@.len(),
                fields@.len() == i,
                forall|k: int| 0 <= k < i ==> #[trigger] fields@[k]@ == self.fields@[k]@,
            decreases self.fields@.len() - i,
        {
            fields.push(self.fields[i].duplicate());
            i += 1;
        }
        let r = HeaderFieldSet { fields };
        assert forall|x: Seq<u8>| #[trigger] r@.contains(x) <==> self@.contains(x) by {
            if r@.contains(x) {
                let k = choose|k: int| 0 <= k < r.fields@.len() && lower_seq(#[trigger] r.fields@[k]@) == x;
                assert(lower_seq(self.fields@[k]@) == x);
            }
            if self@.contains(x) {
                let k = choose|k: int| 0 <= k < self.fields@.len() && lower_seq(#[trigger] self.fields@[k]@) == x;
                assert(lower_seq(r.fields@[k]@) == x);
            }
        }
        assert(r@ =~= self@);
        r
    }
}

/// The lower-cased names of a list of fields.
pub open spec fn lowered_names(fs: Seq<HeaderField>) -> Set<Seq<u8>> {
    Set::new(|l: Seq<u8>| exists|i: int| 0 <= i < fs.len() && lower_seq(#[trigger] fs[i]@) == l)
}

/// The set, or the empty set when there is none.
pub open spec fn set_or_empty(s: Option<Set<Seq<u8>>>) -> Set<Seq<u8>> {
    match s {
        Some(s) => s,
        None => Set::empty(),
    }
}

/// Adds `values` to the set in `set`; a missing set becomes one holding them.
pub fn update_optional_hashset(set: &mut Option<HeaderFieldSet>, values: Vec<HeaderField>)
    ensures
        optional_set(*final(set)) == Some(set_or_empty(optional_set(*old(set))).union(lowered_names(values@))),
{
    let ghost base = set_or_empty(optional_set(*set));
    let mut s = match set.take() {
        Some(s) => s,
        None => HeaderFieldSet::new(),
    };
    assert(lowered_names(values@.take(0)) =~= Set::<Seq<u8>>::empty());
    assert(s@ =~= base.union(lowered_names(values@.take(0))));
    let mut i: usize = 0;
    while i < values.len()
        invariant
            0 <= i <= values@.len(),
            s@ == base.union(lowered_names(values@.take(i as int))),
        decreases values@.len() - i,
    {
        let ghost before = s@;
        s.insert(values[i].duplicate());
        proof {
            let t = values@.take(i + 1);
            let u = values@.take(i as int);
            assert forall|x: Seq<u8>| #[trigger] lowered_names(t).contains(x) <==> lowered_names(u).insert(lower_seq(values@[i as int]@)).contains(x) by {
                if lowered_names(t).contains(x) {
                    let k = choose|k: int| 0 <= k < t.len() && lower_seq(#[trigger] t[k]@) == x;
                    if k < i {
                        assert(u[k] == t[k]);
                        assert(lowered_names(u).contains(x));
                    }
                }
                if lowered_names(u).contains(x) {
                    let k = choose|k: int| 0 <= k < u.len() && lower_seq(#[trigger] u[k]@) == x;
                    assert(t[k] == u[k]);
                    assert(lowered_names(t).contains(x));
                }
                if x == lower_seq(values@[i as int]@) {
                    assert(t[i as int] == values@[i as int]);
                    assert(lowered_names(t).contains(x));
                }
            }
            assert(lowered_names(t) =~= lowered_names(u).insert(lower_seq(values@[i as int]@)));
            assert(s@ =~= base.union(lowered_names(t)));
        }
        i += 1;
    }
    assert(values@.take(values@.len() as int) =~= values@);
    *set = Some(s);
}

} // verus!

verus! {

broadcast use vstd::string::is_ascii_spec_bytes;

/// Some header of the list has the field `f` (ignoring case).
pub open spec fn has_field(ps: Seq<(Seq<u8>, Seq<u8>)>, f: Seq<u8>) -> bool {
    exists|i: int| 0 <= i < ps.len() && eq_ignore_case(#[trigger] ps[i].0, f)
}

/// The headers added in front of a response's own ones: `Date` (with the
/// given value) when the response has none, then `Server: tiny-http` when it
/// has none.
pub open spec fn default_headers_spec(
    hs: Option<Seq<(Seq<u8>, Seq<u8>)>>,
    date: (Seq<u8>, Seq<u8>),
) -> Seq<(Seq<u8>, Seq<u8>)> {
    let ps = match hs {
        Some(p) => p,
        None => seq![],
    };
    (if has_field(ps, "Date".spec_bytes()) { seq![] } else { seq![date] }) + (if has_field(
        ps,
        "Server".spec_bytes(),
    ) {
        seq![]
    } else {
        seq![("Server".spec_bytes(), "tiny-http".spec_bytes())]
    })
}

/// A header built from literal field and value text.
pub(crate) fn literal_header(field: &str, value: &str) -> (r: Header)
    requires
        crate::common::header::field_bytes_ok(field.spec_bytes()),
        crate::common::header::value_bytes_ok(value.spec_bytes()),
        crate::text::is_ascii_bytes(value.spec_bytes()),
    ensures
        r.field@ == field.spec_bytes(),
        r.value@ == value.spec_bytes(),
{
    Header {
        field: HeaderField::from_valid_bytes(field.as_bytes()),
        value: crate::common::header::HeaderFieldValue::from_valid_bytes(value.as_bytes()),
    }
}

/// The headers `Date` and `Server` that a response lacks (see [`default_headers_spec`]).
pub fn set_default_headers_if_not_set(headers: &Option<Vec<Header>>, date: &Header) -> (r: Vec<Header>)
    ensures
        header_pairs(r@) == default_headers_spec(optional_pairs(*headers), (date.field@, date.value@)),
{
    let ghost ps = match optional_pairs(*headers) {
        Some(p) => p,
        None => seq![],
    };
    let mut has_date = false;
    let mut has_server = false;
    if let Some(list) = headers {
        let mut i: usize = 0;
        while i < list.len()
            invariant
                0 <= i <= list@.len(),
                ps == header_pairs(list@),
                has_date == (exists|j: int| 0 <= j < i && eq_ignore_case(#[trigger] ps[j].0, "Date".spec_bytes())),
                has_server == (exists|j: int| 0 <= j < i && eq_ignore_case(#[trigger] ps[j].0, "Server".spec_bytes())),
            decreases list@.len() - i,
        {
            assert(ps[i as int].0 == list@[i as int].field@);
            if list[i].field.equiv("Date") {
                has_date = true;
            } else if list[i].field.equiv("Server") {
                has_server = true;
            }
            proof {
                if eq_ignore_case(ps[i as int].0, "Date".spec_bytes()) {
                    assert(has_date);
                }
                if eq_ignore_case(ps[i as int].0, "Server".spec_bytes()) {
                    reveal_strlit("Date");
                    reveal_strlit("Server");
                    assert(vstd::string::is_ascii("Date"));
                    assert(vstd::string::is_ascii("Server"));
                    assert(!eq_ignore_case(ps[i as int].0, "Date".spec_bytes()));
                    assert(has_server);
                }
            }
            i += 1;
        }
    }
    let mut out: Vec<Header> = Vec::new();
    if !has_date {
        out.push(date.duplicate());
    }
    if !has_server {
        proof {
            reveal_strlit("Server");
            reveal_strlit("tiny-http");
            assert(vstd::string::is_ascii("Server"));
            assert(vstd::string::is_ascii("tiny-http"));
        }
        out.push(literal_header("Server", "tiny-http"));
    }
    assert(header_pairs(out@) =~= default_headers_spec(optional_pairs(*headers), (date.field@, date.value@)));
    out
}

/// The header that announces the transfer encoding: `Transfer-Encoding:
/// chunked`, or `Content-Length` with the data length for identity.
pub open spec fn te_headers_spec(te: Option<TransferEncoding>, data_length: Option<usize>) -> Seq<(Seq<u8>, Seq<u8>)> {
    match te {
        Some(TransferEncoding::Chunked) => seq![("Transfer-Encoding".spec_bytes(), "chunked".spec_bytes())],
        Some(TransferEncoding::Identity) => seq![("Content-Length".spec_bytes(), crate::decimal::decimal(data_length->0 as nat))],
        None => seq![],
    }
}

/// Appends the header announcing the transfer encoding (see [`te_headers_spec`]).
pub fn update_te_headers(headers: &mut Vec<Header>, transfer_encoding: Option<TransferEncoding>, data_length: Option<usize>)
    requires
        transfer_encoding == Some(TransferEncoding::Identity) ==> data_length is Some,
    ensures
        header_pairs(final(headers)@) == header_pairs(old(headers)@) + te_headers_spec(transfer_encoding, data_length),
{
    proof {
        reveal_strlit("Transfer-Encoding");
        reveal_strlit("chunked");
        reveal_strlit("Content-Length");
        assert(vstd::string::is_ascii("Transfer-Encoding"));
        assert(vstd::string::is_ascii("chunked"));
        assert(vstd::string::is_ascii("Content-Length"));
    }
    let ghost before = header_pairs(headers@);
    match transfer_encoding {
        Some(TransferEncoding::Chunked) => {
            headers.push(literal_header("Transfer-Encoding", "chunked"));
        },
        Some(TransferEncoding::Identity) => {
            let n = data_length.unwrap();
            let digits = crate::decimal::u128_to_decimal(n as u128);
            proof {
                crate::decimal::lemma_decimal_digits(n as nat);
                assert forall|i: int| 0 <= i < digits@.len() implies crate::common::header::is_value_byte(#[trigger] digits@[i]) && digits@[i] < 128 by {
                    assert(crate::decimal::is_digit(digits@[i]));
                }
            }
            let name = "Content-Length";
            headers.push(Header {
                field: HeaderField::from_valid_bytes(name.as_bytes()),
                value: crate::common::header::HeaderFieldValue::from_valid_bytes(digits.as_slice()),
            });
        },
        None => {},
    }
    assert(header_pairs(headers@) =~= before + te_headers_spec(transfer_encoding, data_length));
}

} // verus!

verus! {

/// The bytes of ASCII characters.
pub open spec fn chars_bytes(c: Seq<char>) -> Seq<u8> {
    Seq::new(c.len(), |i: int| c[i] as u8)
}

/// `d` padded with spaces to three bytes.
pub open spec fn pad3(d: Seq<u8>) -> Seq<u8> {
    d + Seq::new((3 - d.len()) as nat, |i: int| 32u8)
}

/// The status line: version, status code (padded to three bytes), reason phrase, CRLF.
pub open spec fn status_line_spec(v: HttpVersion, code: u16) -> Seq<u8> {
    chars_bytes(v.header_spec()) + seq![32u8] + pad3(crate::decimal::decimal(code as nat)) + seq![32u8]
        + chars_bytes(crate::common::status_code::reason_phrase_spec(code)) + seq![13u8, 10u8]
}

/// A header is left out when the filter holds its field, unless it is `Date`.
pub open spec fn header_filtered(f: Seq<u8>, filter: Option<Set<Seq<u8>>>) -> bool {
    match filter {
        Some(s) => s.contains(lower_seq(f)) && !eq_ignore_case(f, "Date".spec_bytes()),
        None => false,
    }
}

/// The lines `field: value` CRLF of the headers that the filter lets through.
pub open spec fn header_lines_spec(ps: Seq<(Seq<u8>, Seq<u8>)>, filter: Option<Set<Seq<u8>>>) -> Seq<u8>
    decreases ps.len(),
{
    if ps.len() == 0 {
        seq![]
    } else {
        header_lines_spec(ps.drop_last(), filter) + if header_filtered(ps.last().0, filter) {
            seq![]
        } else {
            ps.last().0 + seq![58u8, 32u8] + ps.last().1 + seq![13u8, 10u8]
        }
    }
}

/// The head of a response message: status line, header lines, empty line.
pub open spec fn message_head_spec(
    v: HttpVersion,
    code: u16,
    ps: Seq<(Seq<u8>, Seq<u8>)>,
    filter: Option<Set<Seq<u8>>>,
) -> Seq<u8> {
    status_line_spec(v, code) + header_lines_spec(ps, filter) + seq![13u8, 10u8]
}

/// The view of an optional field set.
pub open spec fn optional_set(f: Option<HeaderFieldSet>) -> Option<Set<Seq<u8>>> {
    match f {
        Some(s) => Some(s@),
        None => None,
    }
}

/// Appends the lines of `hs` that the filter lets through.
fn push_header_lines(out: &mut Vec<u8>, hs: &[Header], filter: &Option<HeaderFieldSet>)
    ensures
        final(out)@ == old(out)@ + header_lines_spec(header_pairs(hs@), optional_set(*filter)),
{
    let ghost ps = header_pairs(hs@);
    let ghost start = out@;
    let mut i: usize = 0;
    while i < hs.len()
        invariant
            0 <= i <= hs@.len(),
            ps == header_pairs(hs@),
            out@ == start + header_lines_spec(ps.take(i as int), optional_set(*filter)),
        decreases hs@.len() - i,
    {
        let h = &hs[i];
        let skip = match filter {
            Some(set) => set.contains(&h.field) && !h.field.equiv("Date"),
            None => false,
        };
        if !skip {
            crate::text::append_bytes(out, h.field.as_bytes());
            out.push(58u8);
            out.push(32u8);
            crate::text::append_bytes(out, h.value.as_bytes());
            out.push(13u8);
            out.push(10u8);
        }
        proof {
            let t = ps.take(i + 1);
            assert(t.drop_last() =~= ps.take(i as int));
            assert(t.last() == (h.field@, h.value@));
        }
        i += 1;
        assert(out@ =~= start + header_lines_spec(ps.take(i as int), optional_set(*filter)));
    }
    assert(ps.take(hs@.len() as int) =~= ps);
}

/// The header lines of `a` followed by those of `b` are those of the joined list.
proof fn lemma_header_lines_concat(
    a: Seq<(Seq<u8>, Seq<u8>)>,
    b: Seq<(Seq<u8>, Seq<u8>)>,
    filter: Option<Set<Seq<u8>>>,
)
    ensures
        header_lines_spec(a + b, filter) == header_lines_spec(a, filter) + header_lines_spec(b, filter),
    decreases b.len(),
{
    if b.len() == 0 {
        assert(a + b =~= a);
    } else {
        lemma_header_lines_concat(a, b.drop_last(), filter);
        assert((a + b).drop_last() =~= a + b.drop_last());
        assert((a + b).last() == b.last());
    }
}

/// The version header texts are ASCII.
proof fn lemma_version_header_ascii(v: HttpVersion)
    ensures
        vstd::utf8::is_ascii_chars(v.header_spec()),
{
    reveal_strlit("HTTP/0.9");
    reveal_strlit("HTTP/1.0");
    reveal_strlit("HTTP/1.1");
    reveal_strlit("HTTP/2");
    reveal_strlit("HTTP/3");
}

/// Writes the head of a response message: the status line, the lines of
/// `prepend_headers` then of `headers` that `filter_headers` lets through,
/// and the empty line.
pub fn write_message_header(
    http_version: HttpVersion,
    status_code: StatusCode,
    prepend_headers: &[Header],
    headers: &Option<Vec<Header>>,
    filter_headers: &Option<HeaderFieldSet>,
) -> (r: Vec<u8>)
    requires
        http_version.rank() <= 2,
        status_code.0 < 1000,
    ensures
        r@ == message_head_spec(
            http_version,
            status_code.0,
            header_pairs(prepend_headers@) + match optional_pairs(*headers) {
                Some(p) => p,
                None => seq![],
            },
            optional_set(*filter_headers),
        ),
{
    let version = http_version.header();
    proof {
        lemma_version_header_ascii(http_version);
        reveal_strlit("HTTP/0.9");
        reveal_strlit("HTTP/1.0");
        reveal_strlit("HTTP/1.1");
    }
    assert(vstd::string::is_ascii(version));
    let mut out = crate::text::copy_range(version.as_bytes(), 0, version.as_bytes().len());
    assert(out@ =~= chars_bytes(http_version.header_spec()));
    out.push(32u8);
    let digits = crate::decimal::u128_to_decimal(status_code.0 as u128);
    proof {
        crate::decimal::lemma_decimal_digits(status_code.0 as nat);
        lemma_decimal_short(status_code.0 as nat);
    }
    crate::text::append_bytes(&mut out, digits.as_slice());
    let mut k = digits.len();
    let ghost before_pad = out@;
    while k < 3
        invariant
            digits@.len() <= k <= 3,
            out@ == before_pad + Seq::new((k - digits@.len()) as nat, |i: int| 32u8),
        decreases 3 - k,
    {
        out.push(32u8);
        k += 1;
        assert(out@ =~= before_pad + Seq::new((k - digits@.len()) as nat, |i: int| 32u8));
    }
    out.push(32u8);
    let phrase = status_code.default_reason_phrase();
    proof {
        crate::common::status_code::lemma_reason_phrase_short(status_code.0);
    }
    assert(vstd::string::is_ascii(phrase));
    crate::text::append_bytes(&mut out, phrase.as_bytes());
    out.push(13u8);
    out.push(10u8);
    let ghost head = out@;
    assert(head =~= status_line_spec(http_version, status_code.0));
    push_header_lines(&mut out, prepend_headers, filter_headers);
    let ghost mid = out@;
    match headers {
        Some(list) => push_header_lines(&mut out, list.as_slice(), filter_headers),
        None => {},
    }
    let ghost rest = match optional_pairs(*headers) {
        Some(p) => p,
        None => seq![],
    };
    proof {
        lemma_header_lines_concat(header_pairs(prepend_headers@), rest, optional_set(*filter_headers));
        if headers is None {
            assert(header_lines_spec(rest, optional_set(*filter_headers)) =~= Seq::<u8>::empty());
            assert(out@ =~= mid + header_lines_spec(rest, optional_set(*filter_headers)));
        }
    }
    out.push(13u8);
    out.push(10u8);
    assert(out@ =~= message_head_spec(
        http_version,
        status_code.0,
        header_pairs(prepend_headers@) + rest,
        optional_set(*filter_headers),
    ));
    out
}

/// Numbers below 1000 have at most three digits.
proof fn lemma_decimal_short(n: nat)
    requires
        n < 1000,
    ensures
        crate::decimal::decimal(n).len() <= 3,
{
    if n >= 10 {
        lemma_decimal_short2(n / 10);
    }
}

/// Numbers below 100 have at most two digits.
proof fn lemma_decimal_short2(n: nat)
    requires
        n < 100,
    ensures
        crate::decimal::decimal(n).len() <= 2,
{
    if n >= 10 {
        assert(n / 10 < 10);
        assert(crate::decimal::decimal(n / 10).len() == 1);
    }
}

} // verus!

verus! {

/// Where `first_field_index` points: the first pair with the field, or the end.
pub proof fn lemma_first_field_index_props(ps: Seq<(Seq<u8>, Seq<u8>)>, f: Seq<u8>)
    ensures
        0 <= first_field_index(ps, f) <= ps.len(),
        first_field_index(ps, f) < ps.len() ==> eq_ignore_case(ps[first_field_index(ps, f)].0, f),
        forall|j: int| 0 <= j < first_field_index(ps, f) ==> !eq_ignore_case(#[trigger] ps[j].0, f),
    decreases ps.len(),
{
    if ps.len() > 0 && !eq_ignore_case(ps[0].0, f) {
        let t = ps.drop_first();
        lemma_first_field_index_props(t, f);
        assert forall|j: int| 0 <= j < first_field_index(ps, f) implies !eq_ignore_case(#[trigger] ps[j].0, f) by {
            if j > 0 {
                assert(ps[j] == t[j - 1]);
            }
        }
    }
}

} // verus!

verus! {

/// HTTP/1.0 and older, and statuses that carry no body (1xx and 204), are
/// never sent chunked.
pub proof fn lemma_transfer_encoding_identity_cases(
    status: u16,
    version: HttpVersion,
    entity_length: Option<usize>,
    has_additional_headers: bool,
    chunked_threshold: usize,
    preferences: Option<Seq<Seq<u8>>>,
)
    requires
        version.rank() <= 1 || status < 200 || status == 204,
    ensures
        choose_transfer_encoding_spec(
            status,
            version,
            entity_length,
            has_additional_headers,
            chunked_threshold,
            preferences,
        ) == TransferEncoding::Identity,
{
}

/// From HTTP/1.1 on, a response with a body (status 200 and above but 204)
/// is sent chunked when its length is unknown, reaches the threshold, or
/// headers follow the body, whatever the client prefers.
pub proof fn lemma_transfer_encoding_chunked_cases(
    status: u16,
    version: HttpVersion,
    entity_length: Option<usize>,
    has_additional_headers: bool,
    chunked_threshold: usize,
    preferences: Option<Seq<Seq<u8>>>,
)
    requires
        version.rank() >= 2,
        status >= 200,
        status != 204,
        has_additional_headers || entity_length is None || entity_length->0 >= chunked_threshold,
    ensures
        choose_transfer_encoding_spec(
            status,
            version,
            entity_length,
            has_additional_headers,
            chunked_threshold,
            preferences,
        ) == TransferEncoding::Chunked,
{
}

/// A body of known length below the threshold, with nothing after it, is
/// sent as it is when the client states no preference.
pub proof fn lemma_transfer_encoding_short_body(
    status: u16,
    version: HttpVersion,
    length: usize,
    chunked_threshold: usize,
)
    requires
        length < chunked_threshold,
    ensures
        choose_transfer_encoding_spec(status, version, Some(length), false, chunked_threshold, None)
            == TransferEncoding::Identity,
{
}

/// A list of encodings none of which is `chunked` picks `Identity`.
proof fn lemma_no_chunked_preference(prefs: Seq<Seq<u8>>)
    requires
        forall|i: int| 0 <= i < prefs.len() ==> !eq_ignore_case(#[trigger] prefs[i], "chunked".spec_bytes()),
    ensures
        first_known_encoding(prefs) == TransferEncoding::Identity,
    decreases prefs.len(),
{
    if prefs.len() > 0 {
        assert(!eq_ignore_case(prefs[0], "chunked".spec_bytes()));
        let rest = prefs.drop_first();
        assert forall|i: int| 0 <= i < rest.len() implies !eq_ignore_case(#[trigger] rest[i], "chunked".spec_bytes()) by {
            assert(rest[i] == prefs[i + 1]);
        }
        lemma_no_chunked_preference(rest);
    }
}

/// For a short body of known length with nothing after it, the client's
/// preferences decide: its most wanted encoding when that is `chunked`;
/// `Identity` when it names no `chunked` at all.
pub proof fn lemma_transfer_encoding_preferences(
    status: u16,
    version: HttpVersion,
    length: usize,
    chunked_threshold: usize,
    prefs: Seq<Seq<u8>>,
)
    requires
        version.rank() >= 2,
        status >= 200,
        status != 204,
        length < chunked_threshold,
    ensures
        prefs.len() > 0 && eq_ignore_case(prefs[0], "chunked".spec_bytes()) ==> choose_transfer_encoding_spec(
            status,
            version,
            Some(length),
            false,
            chunked_threshold,
            Some(prefs),
        ) == TransferEncoding::Chunked,
        (forall|i: int| 0 <= i < prefs.len() ==> !eq_ignore_case(#[trigger] prefs[i], "chunked".spec_bytes()))
            ==> choose_transfer_encoding_spec(
            status,
            version,
            Some(length),
            false,
            chunked_threshold,
            Some(prefs),
        ) == TransferEncoding::Identity,
{
    if prefs.len() > 0 && eq_ignore_case(prefs[0], "chunked".spec_bytes()) {
        reveal_strlit("identity");
        reveal_strlit("chunked");
        assert(!eq_ignore_case(prefs[0], "identity".spec_bytes())) by {
            assert(vstd::string::is_ascii("identity"));
            assert(vstd::string::is_ascii("chunked"));
            assert("identity".spec_bytes().len() == 8);
            assert("chunked".spec_bytes().len() == 7);
        }
    }
    if forall|i: int| 0 <= i < prefs.len() ==> !eq_ignore_case(#[trigger] prefs[i], "chunked".spec_bytes()) {
        lemma_no_chunked_preference(prefs);
    }
}

} // verus!
