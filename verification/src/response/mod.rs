//! Responses: building them and framing them for the wire.

pub mod body_window;
pub mod date;
pub mod result;
pub mod standard;
pub mod transfer_encoding;
pub mod util;

use vstd::prelude::*;
use vstd::string::StringSliceAdditionalSpecFns;

use crate::common::header::{forbidden_field, Header, HeaderError, HeaderField};
use crate::common::http_version::HttpVersion;
use crate::common::status_code::StatusCode;
use crate::decimal::{parse_usize, parse_usize_spec};
use crate::text::{eq_ignore_case, lemma_eq_ignore_case_lower, lower_seq};
use self::transfer_encoding::TransferEncoding;
use self::util::{
    body_ignored_spec, choose_transfer_encoding, choose_transfer_encoding_spec,
    default_headers_spec, header_pairs, is_body_for_status_ignored, message_head_spec,
    optional_pairs, optional_set, set_default_headers_if_not_set, set_or_empty,
    te_headers_spec, update_optional_hashset, update_optional_header, update_te_headers,
    upsert_optional, write_message_header, HeaderFieldSet,
};
use crate::common::connection_header::ConnectionValue;
use crate::common::range_header::{
    clamp_pos, content_range_for, content_range_text, mark_unsatisfied, unsatisfied_range, ByteRange, RangeOutcome,
    RangeUnit,
};
use crate::common::header::{value_check_spec, field_bytes_ok};

verus! {

broadcast use vstd::string::is_ascii_spec_bytes;

#[verifier::external_type_specification]
#[verifier::external_body]
#[verifier::reject_recursive_types(T)]
pub struct ExCursor<T>(std::io::Cursor<T>);

#[verifier::external_type_specification]
#[verifier::external_body]
pub struct ExEmpty(std::io::Empty);

/// The bytes a cursor over a vector has yet to give: those from its
/// position to the end of its vector.
pub uninterp spec fn vec_cursor_rest(c: std::io::Cursor<Vec<u8>>) -> Seq<u8>;

/// The bytes a cursor over a byte slice has yet to give: those from its
/// position to the end of its slice.
pub uninterp spec fn slice_cursor_rest(c: std::io::Cursor<&[u8]>) -> Seq<u8>;

/// A cursor that reads the vector `inner` from its start.
///
/// Calls `std::io::Cursor::new`, which wraps `inner` with the position 0, as
/// its documentation says: the cursor has all of `inner` yet to give.
#[verifier::external_body]
fn new_vec_cursor(inner: Vec<u8>) -> (r: std::io::Cursor<Vec<u8>>)
    ensures
        vec_cursor_rest(r) == inner@,
{
    std::io::Cursor::new(inner)
}

/// A cursor that reads the slice `inner` from its start.
///
/// Calls `std::io::Cursor::new`, which wraps `inner` with the position 0, as
/// its documentation says: the cursor has all of `inner` yet to give.
#[verifier::external_body]
fn new_slice_cursor<'a>(inner: &'a [u8]) -> (r: std::io::Cursor<&'a [u8]>)
    ensures
        slice_cursor_rest(r) == inner@,
{
    std::io::Cursor::new(inner)
}

/// The threshold of `Content-Length` from which chunked transfer is chosen, unless set.
pub open spec fn default_chunked_threshold() -> usize {
    32768
}

/// What adding the header `(f, v)` does to a response's data length and
/// header list: the outcome, the new data length and the new list.
///
/// Fields that may not be set are refused; `Content-Length` sets the data
/// length from its decimal value; `Content-Type` replaces an earlier value;
/// other headers are appended.
pub open spec fn add_header_spec(
    dl: Option<usize>,
    hs: Option<Seq<(Seq<u8>, Seq<u8>)>>,
    f: Seq<u8>,
    v: Seq<u8>,
) -> (Result<(), HeaderError>, Option<usize>, Option<Seq<(Seq<u8>, Seq<u8>)>>) {
    if forbidden_field(f) {
        (Err(HeaderError::NonModifiable), dl, hs)
    } else if eq_ignore_case(f, "Content-Length".spec_bytes()) {
        match parse_usize_spec(v) {
            Some(n) => (Ok(()), Some(n), hs),
            None => (Err(HeaderError::Format), dl, hs),
        }
    } else {
        (Ok(()), dl, upsert_optional(hs, f, v, !eq_ignore_case(f, "Content-Type".spec_bytes())))
    }
}

/// Adding headers one after the other until one is refused: the outcome,
/// the data length and the header list at that point.
pub open spec fn add_headers_spec(
    dl: Option<usize>,
    hs: Option<Seq<(Seq<u8>, Seq<u8>)>>,
    ps: Seq<(Seq<u8>, Seq<u8>)>,
) -> (Result<(), HeaderError>, Option<usize>, Option<Seq<(Seq<u8>, Seq<u8>)>>)
    decreases ps.len(),
{
    if ps.len() == 0 {
        (Ok(()), dl, hs)
    } else {
        let (r, dl2, hs2) = add_header_spec(dl, hs, ps[0].0, ps[0].1);
        match r {
            Err(e) => (Err(e), dl2, hs2),
            Ok(_) => add_headers_spec(dl2, hs2, ps.drop_first()),
        }
    }
}

/// Adding all headers, skipping those that are refused: the data length and the header list.
pub open spec fn add_all_spec(
    dl: Option<usize>,
    hs: Option<Seq<(Seq<u8>, Seq<u8>)>>,
    ps: Seq<(Seq<u8>, Seq<u8>)>,
) -> (Option<usize>, Option<Seq<(Seq<u8>, Seq<u8>)>>)
    decreases ps.len(),
{
    if ps.len() == 0 {
        (dl, hs)
    } else {
        let (_, dl2, hs2) = add_header_spec(dl, hs, ps[0].0, ps[0].1);
        add_all_spec(dl2, hs2, ps.drop_first())
    }
}

/// Field sets after adding the lower-cased `name`: a missing set becomes one holding it.
pub open spec fn set_with(s: Option<Set<Seq<u8>>>, name: Seq<u8>) -> Option<Set<Seq<u8>>> {
    match s {
        Some(s) => Some(s.insert(name)),
        None => Some(Set::empty().insert(name)),
    }
}

/// An HTTP response: status code, headers, and a body read from `R`.
///
/// Some headers cannot be set (`Connection`, `Trailer`, `Transfer-Encoding`,
/// `Upgrade`); `Content-Length` sets the data length; `Content-Type` holds one
/// value at a time; other headers may be set several times.
#[derive(Debug)]
pub struct Response<R> {
    body_skip: Option<usize>,
    chunked_threshold: Option<usize>,
    data: Option<R>,
    data_length: Option<usize>,
    filter_headers: Option<HeaderFieldSet>,
    headers: Option<Vec<Header>>,
    status_code: StatusCode,
}

impl<R> Response<R> {
    /// The status code.
    pub closed spec fn status_spec(&self) -> u16 {
        self.status_code.0
    }

    /// The length of the body, when known.
    pub closed spec fn data_length_spec(&self) -> Option<usize> {
        self.data_length
    }

    /// The headers set on the response, as field and value bytes.
    pub closed spec fn header_list(&self) -> Option<Seq<(Seq<u8>, Seq<u8>)>> {
        optional_pairs(self.headers)
    }

    /// The lower-cased names of the fields that are not sent.
    pub closed spec fn filter_set(&self) -> Option<Set<Seq<u8>>> {
        optional_set(self.filter_headers)
    }

    /// The threshold of chunked transfer, when set.
    pub closed spec fn threshold_spec(&self) -> Option<usize> {
        self.chunked_threshold
    }

    /// The body reader.
    pub closed spec fn data_spec(&self) -> Option<R> {
        self.data
    }

    /// For the answer to a range request, the number of bytes of the body
    /// reader that come before the range; `None` when the whole body is sent.
    pub closed spec fn skip_spec(&self) -> Option<usize> {
        self.body_skip
    }

    /// For the answer to a range request, the number of bytes of the body
    /// reader that are passed over before the `data_length` bytes that are
    /// sent; `None` when the whole body reader is sent.
    pub fn body_skip(&self) -> (r: Option<usize>)
        ensures
            r == self.skip_spec(),
    {
        self.body_skip
    }

    /// A response with status 200, no headers, no filter and the given body.
    fn with_body(data: Option<R>, data_length: Option<usize>) -> (r: Response<R>)
        ensures
            r.status_spec() == 200,
            r.data_spec() == data,
            r.data_length_spec() == data_length,
            r.header_list() is None,
            r.filter_set() is None,
            r.threshold_spec() is None,
            r.skip_spec() is None,
    {
        Response {
            body_skip: None,
            chunked_threshold: None,
            data,
            data_length,
            filter_headers: None,
            headers: None,
            status_code: StatusCode(200),
        }
    }

    /// Creates a response; the headers go through [`Response::add_header`],
    /// those that it refuses are left out, then the additional ones the same way.
    pub fn new(
        status_code: StatusCode,
        headers: Vec<Header>,
        data: R,
        data_length: Option<usize>,
        additional_headers: Option<Vec<Header>>,
    ) -> (r: Response<R>)
        ensures
            r.status_spec() == status_code.0,
            r.data_spec() == Some(data),
            r.filter_set() is None,
            r.threshold_spec() is None,
            r.skip_spec() is None,
            ({
                let first = add_all_spec(data_length, Some(seq![]), header_pairs(headers@));
                let last = match additional_headers {
                    Some(more) => add_all_spec(first.0, first.1, header_pairs(more@)),
                    None => first,
                };
                r.data_length_spec() == last.0 && r.header_list() == last.1
            }),
    {
        let mut response = Response {
            body_skip: None,
            chunked_threshold: None,
            data: Some(data),
            data_length,
            filter_headers: None,
            headers: Some(Vec::new()),
            status_code,
        };
        assert(header_pairs(Seq::<Header>::empty()) =~= seq![]);
        response.add_each(&headers);
        if let Some(more) = additional_headers {
            response.add_each(&more);
        }
        response
    }

    /// Adds each header through [`Response::add_header`], going on after refusals.
    fn add_each(&mut self, headers: &Vec<Header>)
        ensures
            ({
                let s = add_all_spec(old(self).data_length_spec(), old(self).header_list(), header_pairs(headers@));
                final(self).data_length_spec() == s.0 && final(self).header_list() == s.1
            }),
            final(self).status_spec() == old(self).status_spec(),
            final(self).data_spec() == old(self).data_spec(),
            final(self).filter_set() == old(self).filter_set(),
            final(self).threshold_spec() == old(self).threshold_spec(),
            final(self).skip_spec() == old(self).skip_spec(),
    {
        let ghost ps = header_pairs(headers@);
        let ghost goal = add_all_spec(self.data_length, optional_pairs(self.headers), ps);
        let mut i: usize = 0;
        assert(ps.skip(0) =~= ps);
        while i < headers.len()
            invariant
                0 <= i <= headers@.len(),
                ps == header_pairs(headers@),
                goal == add_all_spec(self.data_length, optional_pairs(self.headers), ps.skip(i as int)),
                self.status_spec() == old(self).status_spec(),
                self.data_spec() == old(self).data_spec(),
                self.filter_set() == old(self).filter_set(),
                self.threshold_spec() == old(self).threshold_spec(),
                self.skip_spec() == old(self).skip_spec(),
            decreases headers@.len() - i,
        {
            assert(ps.skip(i as int)[0] == (headers@[i as int].field@, headers@[i as int].value@));
            assert(ps.skip(i as int).drop_first() =~= ps.skip(i + 1));
            let h = headers[i].duplicate();
            let _ = self.add_header(h);
            i += 1;
        }
        assert(ps.skip(i as int) =~= Seq::<(Seq<u8>, Seq<u8>)>::empty());
    }

    /// Sets the `Content-Length` from which chunked transfer is chosen.
    pub fn with_chunked_threshold(self, length: usize) -> (r: Response<R>)
        ensures
            r.threshold_spec() == Some(length),
            r.status_spec() == self.status_spec(),
            r.data_spec() == self.data_spec(),
            r.data_length_spec() == self.data_length_spec(),
            r.header_list() == self.header_list(),
            r.filter_set() == self.filter_set(),
    {
        let mut s = self;
        s.chunked_threshold = Some(length);
        s
    }

    /// The body reader, if there is one.
    pub fn data_ref(&self) -> (r: Option<&R>)
        ensures
            r is None <==> self.data_spec() is None,
            r matches Some(d) ==> self.data_spec() == Some(*d),
    {
        match &self.data {
            Some(d) => Some(d),
            None => None,
        }
    }

    /// The body reader, consuming the response.
    pub fn into_reader(self) -> (r: Option<R>)
        ensures
            r == self.data_spec(),
    {
        self.data
    }

    /// Takes the body reader out of the response.
    pub fn take_data(&mut self) -> (r: Option<R>)
        ensures
            r == old(self).data_spec(),
            final(self).data_spec() is None,
            final(self).status_spec() == old(self).status_spec(),
            final(self).data_length_spec() == old(self).data_length_spec(),
            final(self).header_list() == old(self).header_list(),
            final(self).filter_set() == old(self).filter_set(),
            final(self).threshold_spec() == old(self).threshold_spec(),
            final(self).skip_spec() == old(self).skip_spec(),
    {
        self.data.take()
    }

    /// The `Content-Length` from which chunked transfer is chosen (32768 unless set).
    pub fn chunked_threshold(&self) -> (r: usize)
        ensures
            r == match self.threshold_spec() {
                Some(t) => t,
                None => default_chunked_threshold(),
            },
    {
        match self.chunked_threshold {
            Some(t) => t,
            None => 32768,
        }
    }

    /// Adds a header (see [`add_header_spec`]).
    pub fn add_header(&mut self, header: Header) -> (r: Result<(), HeaderError>)
        ensures
            ({
                let s = add_header_spec(
                    old(self).data_length_spec(),
                    old(self).header_list(),
                    header.field@,
                    header.value@,
                );
                r == s.0 && final(self).data_length_spec() == s.1 && final(self).header_list() == s.2
            }),
            final(self).status_spec() == old(self).status_spec(),
            final(self).data_spec() == old(self).data_spec(),
            final(self).filter_set() == old(self).filter_set(),
            final(self).threshold_spec() == old(self).threshold_spec(),
            final(self).skip_spec() == old(self).skip_spec(),
    {
        if Header::is_modifieable(&header.field) {
            return Err(HeaderError::NonModifiable);
        }
        if header.field.equiv("Content-Length") {
            match parse_usize(header.value.as_bytes()) {
                Some(n) => {
                    self.data_length = Some(n);
                    return Ok(());
                },
                None => {
                    return Err(HeaderError::Format);
                },
            }
        }
        let always_push = !header.field.equiv("Content-Type");
        update_optional_header(&mut self.headers, header, always_push);
        Ok(())
    }

    /// Adds headers in order, stopping at the first refused one (see [`add_headers_spec`]).
    pub fn add_headers(&mut self, headers: Vec<Header>) -> (r: Result<(), HeaderError>)
        ensures
            ({
                let s = add_headers_spec(
                    old(self).data_length_spec(),
                    old(self).header_list(),
                    header_pairs(headers@),
                );
                r == s.0 && final(self).data_length_spec() == s.1 && final(self).header_list() == s.2
            }),
            final(self).status_spec() == old(self).status_spec(),
            final(self).data_spec() == old(self).data_spec(),
            final(self).filter_set() == old(self).filter_set(),
            final(self).threshold_spec() == old(self).threshold_spec(),
            final(self).skip_spec() == old(self).skip_spec(),
    {
        let ghost ps = header_pairs(headers@);
        let ghost goal = add_headers_spec(self.data_length, optional_pairs(self.headers), ps);
        let mut i: usize = 0;
        assert(ps.skip(0) =~= ps);
        while i < headers.len()
            invariant
                0 <= i <= headers@.len(),
                ps == header_pairs(headers@),
                goal == add_headers_spec(self.data_length, optional_pairs(self.headers), ps.skip(i as int)),
                goal == add_headers_spec(
                    old(self).data_length_spec(),
                    old(self).header_list(),
                    header_pairs(headers@),
                ),
                self.status_spec() == old(self).status_spec(),
                self.data_spec() == old(self).data_spec(),
                self.filter_set() == old(self).filter_set(),
                self.threshold_spec() == old(self).threshold_spec(),
                self.skip_spec() == old(self).skip_spec(),
            decreases headers@.len() - i,
        {
            assert(ps.skip(i as int)[0] == (headers@[i as int].field@, headers@[i as int].value@));
            assert(ps.skip(i as int).drop_first() =~= ps.skip(i + 1));
            let h = headers[i].duplicate();
            let r = self.add_header(h);
            if r.is_err() {
                return r;
            }
            i += 1;
        }
        assert(ps.skip(i as int) =~= Seq::<(Seq<u8>, Seq<u8>)>::empty());
        Ok(())
    }

    /// Keeps headers with this field from being sent; `Date` and the fields
    /// that may not be set are refused.
    pub fn filter_header(&mut self, header_field: HeaderField) -> (r: Result<(), HeaderError>)
        ensures
            forbidden_field(header_field@) || lower_seq(header_field@) == "date".spec_bytes() ==> {
                &&& r == Err::<(), HeaderError>(HeaderError::NonModifiable)
                &&& final(self).filter_set() == old(self).filter_set()
            },
            !(forbidden_field(header_field@) || lower_seq(header_field@) == "date".spec_bytes()) ==> {
                &&& r == Ok::<(), HeaderError>(())
                &&& final(self).filter_set() == set_with(old(self).filter_set(), lower_seq(header_field@))
            },
            final(self).status_spec() == old(self).status_spec(),
            final(self).data_spec() == old(self).data_spec(),
            final(self).data_length_spec() == old(self).data_length_spec(),
            final(self).header_list() == old(self).header_list(),
            final(self).threshold_spec() == old(self).threshold_spec(),
            final(self).skip_spec() == old(self).skip_spec(),
    {
        proof {
            reveal_strlit("date");
            lemma_eq_ignore_case_lower(header_field@, "date".spec_bytes());
            assert(vstd::string::is_ascii("date"));
            assert("date".spec_bytes() =~= seq![100u8, 97u8, 116u8, 101u8]);
            assert(lower_seq("date".spec_bytes()) =~= "date".spec_bytes());
        }
        if Header::is_modifieable(&header_field) || header_field.equiv("date") {
            return Err(HeaderError::NonModifiable);
        }
        let ghost name = lower_seq(header_field@);
        match self.filter_headers.take() {
            Some(mut set) => {
                set.insert(header_field);
                self.filter_headers = Some(set);
            },
            None => {
                let mut set = HeaderFieldSet::new();
                set.insert(header_field);
                self.filter_headers = Some(set);
            },
        }
        Ok(())
    }

    /// The same response with one more header (see [`Response::add_header`]).
    pub fn with_header(self, header: Header) -> (r: Result<Response<R>, HeaderError>)
        ensures
            ({
                let s = add_header_spec(self.data_length_spec(), self.header_list(), header.field@, header.value@);
                match r {
                    Ok(resp) => s.0 is Ok && resp.data_length_spec() == s.1 && resp.header_list() == s.2
                        && resp.status_spec() == self.status_spec() && resp.data_spec() == self.data_spec()
                        && resp.filter_set() == self.filter_set() && resp.threshold_spec() == self.threshold_spec(),
                    Err(e) => s.0 == Err::<(), HeaderError>(e),
                }
            }),
    {
        let mut s = self;
        s.add_header(header)?;
        Ok(s)
    }

    /// The same response with more headers (see [`Response::add_headers`]).
    pub fn with_headers(self, headers: Vec<Header>) -> (r: Result<Response<R>, HeaderError>)
        ensures
            ({
                let s = add_headers_spec(self.data_length_spec(), self.header_list(), header_pairs(headers@));
                match r {
                    Ok(resp) => s.0 is Ok && resp.data_length_spec() == s.1 && resp.header_list() == s.2
                        && resp.status_spec() == self.status_spec() && resp.data_spec() == self.data_spec()
                        && resp.filter_set() == self.filter_set() && resp.threshold_spec() == self.threshold_spec(),
                    Err(e) => s.0 == Err::<(), HeaderError>(e),
                }
            }),
    {
        let mut s = self;
        s.add_headers(headers)?;
        Ok(s)
    }

    /// The same response with another status code.
    pub fn with_status_code(self, code: StatusCode) -> (r: Response<R>)
        ensures
            r.status_spec() == code.0,
            r.data_spec() == self.data_spec(),
            r.data_length_spec() == self.data_length_spec(),
            r.header_list() == self.header_list(),
            r.filter_set() == self.filter_set(),
            r.threshold_spec() == self.threshold_spec(),
            r.skip_spec() == self.skip_spec(),
    {
        let mut s = self;
        s.status_code = code;
        s
    }

    /// The same response with another body and body length.
    pub fn with_data<D>(self, data: D, data_length: Option<usize>) -> (r: Response<D>)
        ensures
            r.data_spec() == Some(data),
            r.data_length_spec() == data_length,
            r.status_spec() == self.status_spec(),
            r.header_list() == self.header_list(),
            r.filter_set() == self.filter_set(),
            r.threshold_spec() == self.threshold_spec(),
            r.skip_spec() is None,
    {
        Response {
            body_skip: None,
            chunked_threshold: self.chunked_threshold,
            data: Some(data),
            data_length,
            filter_headers: self.filter_headers,
            headers: self.headers,
            status_code: self.status_code,
        }
    }

    /// The same response with the body reader replaced, and the former reader.
    pub fn replace_data<D>(self, data: Option<D>) -> (r: (Option<R>, Response<D>))
        ensures
            r.0 == self.data_spec(),
            r.1.data_spec() == data,
            r.1.data_length_spec() == self.data_length_spec(),
            r.1.status_spec() == self.status_spec(),
            r.1.header_list() == self.header_list(),
            r.1.filter_set() == self.filter_set(),
            r.1.threshold_spec() == self.threshold_spec(),
            r.1.skip_spec() is None,
    {
        (
            self.data,
            Response {
                body_skip: None,
                chunked_threshold: self.chunked_threshold,
                data,
                data_length: self.data_length,
                filter_headers: self.filter_headers,
                headers: self.headers,
                status_code: self.status_code,
            },
        )
    }

    /// The status code.
    pub fn status_code(&self) -> (r: StatusCode)
        ensures
            r.0 == self.status_spec(),
    {
        self.status_code
    }

    /// The length of the body, when known.
    pub fn data_length(&self) -> (r: Option<usize>)
        ensures
            r == self.data_length_spec(),
    {
        self.data_length
    }

    /// The headers set on the response.
    pub fn headers(&self) -> (r: Option<&Vec<Header>>)
        ensures
            optional_pairs(match r {
                Some(v) => Some(*v),
                None => None,
            }) == self.header_list(),
    {
        match &self.headers {
            Some(v) => Some(v),
            None => None,
        }
    }

    /// The header list, to be changed in place.
    pub fn headers_mut(&mut self) -> (r: &mut Option<Vec<Header>>)
        ensures
            optional_pairs(*r) == old(self).header_list(),
            final(self).header_list() == optional_pairs(*final(r)),
            final(self).status_spec() == old(self).status_spec(),
            final(self).data_spec() == old(self).data_spec(),
            final(self).data_length_spec() == old(self).data_length_spec(),
            final(self).filter_set() == old(self).filter_set(),
            final(self).threshold_spec() == old(self).threshold_spec(),
            final(self).skip_spec() == old(self).skip_spec(),
    {
        &mut self.headers
    }
}

} // verus!

verus! {


/// The headers sent for a protocol upgrade: `Connection: upgrade` and `Upgrade: <protocol>`.
pub open spec fn upgrade_pairs(upgrade: Option<Seq<u8>>) -> Seq<(Seq<u8>, Seq<u8>)> {
    match upgrade {
        Some(p) => seq![("Connection".spec_bytes(), "upgrade".spec_bytes()), ("Upgrade".spec_bytes(), p)],
        None => seq![],
    }
}

/// The fields left out of a message: when no body is sent, also
/// `Content-Length` and `Content-Type`.
pub open spec fn head_filter(filter: Option<Set<Seq<u8>>>, skip_body: bool) -> Option<Set<Seq<u8>>> {
    if skip_body {
        Some(set_or_empty(filter).union(set![
            lower_seq("Content-Length".spec_bytes()),
            lower_seq("Content-Type".spec_bytes()),
        ]))
    } else {
        filter
    }
}

/// The bytes of an optional protocol name.
pub open spec fn optional_bytes(s: Option<&str>) -> Option<Seq<u8>> {
    match s {
        Some(s) => Some(s.spec_bytes()),
        None => None,
    }
}

/// The header list, or the empty list when there is none.
pub open spec fn pairs_or_empty(hs: Option<Seq<(Seq<u8>, Seq<u8>)>>) -> Seq<(Seq<u8>, Seq<u8>)> {
    match hs {
        Some(p) => p,
        None => seq![],
    }
}

impl<R> Response<R> {
    /// The transfer encoding to send this response with (see `transfer_encoding`).
    pub open spec fn te_spec(
        &self,
        http_version: HttpVersion,
        preferences: Option<Seq<Seq<u8>>>,
        upgrade: bool,
    ) -> Option<TransferEncoding> {
        if upgrade {
            None
        } else {
            Some(
                choose_transfer_encoding_spec(
                    self.status_spec(),
                    http_version,
                    self.data_length_spec(),
                    false,
                    match self.threshold_spec() {
                        Some(t) => t,
                        None => default_chunked_threshold(),
                    },
                    preferences,
                ),
            )
        }
    }

    /// The head of the message that sends this response with the `date`
    /// header, a body of `length` bytes (when known), and the body sent or
    /// not (see `message_head`).
    pub open spec fn head_spec(
        &self,
        date: (Seq<u8>, Seq<u8>),
        http_version: HttpVersion,
        transfer_encoding: Option<TransferEncoding>,
        length: Option<usize>,
        send_body: bool,
        upgrade: Option<Seq<u8>>,
    ) -> Seq<u8> {
        if http_version == HttpVersion::Version0_9 {
            Seq::empty()
        } else {
            message_head_spec(
                http_version,
                self.status_spec(),
                default_headers_spec(self.header_list(), date) + upgrade_pairs(upgrade)
                    + te_headers_spec(transfer_encoding, length) + pairs_or_empty(self.header_list()),
                head_filter(self.filter_set(), !send_body),
            )
        }
    }

    /// What of the body reader is sent: the bytes passed over first, and how
    /// many follow (all when `None`).
    pub open spec fn window_spec(&self) -> (int, Option<usize>) {
        match self.skip_spec() {
            Some(s) => (s as int, self.data_length_spec()),
            None => (0, None),
        }
    }
}

/// Two responses that agree on all but their body reader are sent alike:
/// the same transfer encoding, the same head, the same part of the body.
/// So printing a response by reference (with a clone of its reader) and by
/// value (after its reader is moved out) gives the same bytes, but for the
/// date; and a body read out in full to its known length announces that
/// length again.
pub proof fn lemma_print_paths_agree<R1, R2>(
    a: Response<R1>,
    b: Response<R2>,
    date: (Seq<u8>, Seq<u8>),
    http_version: HttpVersion,
    preferences: Option<Seq<Seq<u8>>>,
    upgrade: Option<Seq<u8>>,
    send_body: bool,
)
    requires
        a.status_spec() == b.status_spec(),
        a.header_list() == b.header_list(),
        a.filter_set() == b.filter_set(),
        a.data_length_spec() == b.data_length_spec(),
        a.threshold_spec() == b.threshold_spec(),
        a.skip_spec() == b.skip_spec(),
    ensures
        a.te_spec(http_version, preferences, upgrade is Some) == b.te_spec(http_version, preferences, upgrade is Some),
        forall|te: Option<TransferEncoding>|
            #[trigger] a.head_spec(date, http_version, te, a.data_length_spec(), send_body, upgrade) == b.head_spec(
                date,
                http_version,
                te,
                b.data_length_spec(),
                send_body,
                upgrade,
            ),
        a.window_spec() == b.window_spec(),
{
}

impl<R> Response<R> {
    /// The transfer encoding to send the response with: none for a protocol
    /// upgrade, otherwise the one [`choose_transfer_encoding_spec`] gives for the
    /// client's preferences (the `TE` encodings with positive weight, most wanted first).
    pub fn transfer_encoding(
        &self,
        http_version: HttpVersion,
        preferences: Option<&Vec<Vec<u8>>>,
        upgrade: bool,
    ) -> (r: Option<TransferEncoding>)
        ensures
            r == self.te_spec(
                http_version,
                match preferences {
                    Some(p) => Some(p@.map_values(|b: Vec<u8>| b@)),
                    None => None,
                },
                upgrade,
            ),
    {
        if upgrade {
            return None;
        }
        let threshold = self.chunked_threshold();
        Some(choose_transfer_encoding(self.status_code, http_version, self.data_length, false, threshold, preferences))
    }

    /// The head of the message that sends this response: status line, the
    /// `Date` and `Server` headers it lacks, the upgrade headers, the header
    /// announcing the transfer encoding, its own headers, empty line; and
    /// whether the body is sent (not when asked so, nor for a status without body).
    /// An HTTP/0.9 response has no head: the body alone is sent.
    ///
    /// `buffered_length`, when given, is the length of a body that was read
    /// out in full, and replaces the data length.
    pub fn message_head(
        &self,
        date: &Header,
        http_version: HttpVersion,
        transfer_encoding: Option<TransferEncoding>,
        buffered_length: Option<usize>,
        do_not_send_body: bool,
        upgrade: Option<&str>,
    ) -> (r: (Vec<u8>, bool))
        requires
            http_version.rank() <= 2,
            self.status_spec() < 1000,
            transfer_encoding == Some(TransferEncoding::Identity) ==> (buffered_length is Some || self.data_length_spec() is Some),
            upgrade matches Some(p) ==> value_check_spec(p.spec_bytes()) is Ok,
        ensures
            r.1 == !(do_not_send_body || body_ignored_spec(self.status_spec())),
            r.0@ == self.head_spec(
                (date.field@, date.value@),
                http_version,
                transfer_encoding,
                match buffered_length {
                    Some(l) => Some(l),
                    None => self.data_length_spec(),
                },
                r.1,
                optional_bytes(upgrade),
            ),
    {
        if http_version.ordinal() == 0 {
            return (Vec::new(), !(do_not_send_body || is_body_for_status_ignored(self.status_code)));
        }
        proof {
            reveal_strlit("Upgrade");
            reveal_strlit("Connection");
            reveal_strlit("upgrade");
            reveal_strlit("Content-Length");
            reveal_strlit("Content-Type");
            assert(vstd::string::is_ascii("Upgrade"));
            assert(vstd::string::is_ascii("Content-Length"));
            assert(vstd::string::is_ascii("Content-Type"));
        }
        let mut prepend = set_default_headers_if_not_set(&self.headers, date);
        let ghost defaults = header_pairs(prepend@);
        if let Some(p) = upgrade {
            prepend.push(ConnectionValue::Upgrade.to_header());
            let name = "Upgrade";
            match Header::from_bytes(name.as_bytes(), p.as_bytes()) {
                Ok(h) => prepend.push(h),
                Err(_) => {
                    proof {
                        assert(field_bytes_ok(name.spec_bytes()));
                    }
                },
            }
        }
        assert(header_pairs(prepend@) =~= defaults + upgrade_pairs(optional_bytes(upgrade)));
        let data_length = match buffered_length {
            Some(l) => Some(l),
            None => self.data_length,
        };
        update_te_headers(&mut prepend, transfer_encoding, data_length);
        let skip_body = do_not_send_body || is_body_for_status_ignored(self.status_code);
        let head = if skip_body {
            let mut filter = match &self.filter_headers {
                Some(f) => Some(f.duplicate()),
                None => None,
            };
            let mut extra: Vec<HeaderField> = Vec::new();
            let cl = "Content-Length";
            let ct = "Content-Type";
            extra.push(HeaderField::from_valid_bytes(cl.as_bytes()));
            extra.push(HeaderField::from_valid_bytes(ct.as_bytes()));
            update_optional_hashset(&mut filter, extra);
            proof {
                let names = util::lowered_names(extra@);
                let two = set![lower_seq("Content-Length".spec_bytes()), lower_seq("Content-Type".spec_bytes())];
                assert forall|x: Seq<u8>| #[trigger] names.contains(x) <==> two.contains(x) by {
                    if x == lower_seq("Content-Length".spec_bytes()) {
                        assert(lower_seq(extra@[0]@) == x);
                    }
                    if x == lower_seq("Content-Type".spec_bytes()) {
                        assert(lower_seq(extra@[1]@) == x);
                    }
                }
                assert(names =~= two);
            }
            write_message_header(http_version, self.status_code, prepend.as_slice(), &self.headers, &filter)
        } else {
            write_message_header(http_version, self.status_code, prepend.as_slice(), &self.headers, &self.filter_headers)
        };
        (head, !skip_body)
    }
}

} // verus!

verus! {

/// The header list of a plain-text response: `Content-Type: text/plain; charset=utf8`.
pub open spec fn text_plain_pairs() -> Seq<(Seq<u8>, Seq<u8>)> {
    seq![("Content-Type".spec_bytes(), "text/plain; charset=utf8".spec_bytes())]
}

/// The header list holding `Content-Type: text/plain; charset=utf8`.
fn text_plain_headers() -> (r: Vec<Header>)
    ensures
        header_pairs(r@) == text_plain_pairs(),
{
    proof {
        reveal_strlit("Content-Type");
        reveal_strlit("text/plain; charset=utf8");
        assert(vstd::string::is_ascii("Content-Type"));
        assert(vstd::string::is_ascii("text/plain; charset=utf8"));
    }
    let mut v: Vec<Header> = Vec::new();
    v.push(util::literal_header("Content-Type", "text/plain; charset=utf8"));
    assert(header_pairs(v@) =~= text_plain_pairs());
    v
}

impl Response<std::io::Cursor<Vec<u8>>> {
    /// A response with status 200 whose body is `data`.
    pub fn from_data(data: Vec<u8>) -> (r: Self)
        ensures
            r.status_spec() == 200,
            r.data_length_spec() == Some(data@.len() as usize),
            r.data_spec() matches Some(c) && vec_cursor_rest(c) == data@,
            r.header_list() is None,
            r.filter_set() is None,
            r.threshold_spec() is None,
            r.skip_spec() is None,
    {
        let len = data.len();
        Response::with_body(Some(new_vec_cursor(data)), Some(len))
    }

    /// A plain-text response with status 200 whose body is `data`.
    pub fn from_string(data: String) -> (r: Self)
        ensures
            r.status_spec() == 200,
            r.data_length_spec() == Some(vstd::utf8::encode_utf8(data@).len() as usize),
            r.data_spec() matches Some(c) && vec_cursor_rest(c) == vstd::utf8::encode_utf8(data@),
            r.header_list() == Some(text_plain_pairs()),
            r.filter_set() is None,
            r.threshold_spec() is None,
            r.skip_spec() is None,
    {
        let bytes = data.as_str().as_bytes();
        let copy = crate::text::copy_range(bytes, 0, bytes.len());
        let len = copy.len();
        let mut r = Response::with_body(Some(new_vec_cursor(copy)), Some(len));
        r.headers = Some(text_plain_headers());
        r
    }
}

impl<'a> Response<std::io::Cursor<&'a [u8]>> {
    /// A response with status 200 whose body is `data`.
    pub fn from_slice(data: &'a [u8]) -> (r: Self)
        ensures
            r.status_spec() == 200,
            r.data_length_spec() == Some(data@.len() as usize),
            r.data_spec() matches Some(c) && slice_cursor_rest(c) == data@,
            r.header_list() is None,
            r.filter_set() is None,
            r.threshold_spec() is None,
            r.skip_spec() is None,
    {
        Response::with_body(Some(new_slice_cursor(data)), Some(data.len()))
    }

    /// A plain-text response with status 200 whose body is `data`.
    pub fn from_str(data: &'a str) -> (r: Self)
        ensures
            r.status_spec() == 200,
            r.data_length_spec() == Some(data.spec_bytes().len() as usize),
            r.data_spec() matches Some(c) && slice_cursor_rest(c) == data.spec_bytes(),
            r.header_list() == Some(text_plain_pairs()),
            r.filter_set() is None,
            r.threshold_spec() is None,
            r.skip_spec() is None,
    {
        let bytes = data.as_bytes();
        let mut r = Response::with_body(Some(new_slice_cursor(bytes)), Some(bytes.len()));
        r.headers = Some(text_plain_headers());
        r
    }

    /// A response with this status code, its reason phrase as body and its
    /// standard headers (see [`standard::standard_headers_spec`]).
    pub fn from_status(status_code: StatusCode) -> (r: Self)
        ensures
            r.status_spec() == status_code.0,
            r.data_length_spec() == Some(
                crate::common::status_code::reason_phrase_spec(status_code.0).len() as usize,
            ),
            r.data_spec() matches Some(c) && slice_cursor_rest(c) == vstd::utf8::encode_utf8(
                crate::common::status_code::reason_phrase_spec(status_code.0),
            ),
            r.header_list() == standard::standard_headers_spec(status_code.0),
            r.filter_set() is None,
            r.threshold_spec() is None,
            r.skip_spec() is None,
    {
        let phrase = status_code.default_reason_phrase();
        proof {
            crate::common::status_code::lemma_reason_phrase_short(status_code.0);
        }
        assert(vstd::string::is_ascii(phrase));
        let data = phrase.as_bytes();
        let mut r = Response::with_body(Some(new_slice_cursor(data)), Some(data.len()));
        r.headers = standard::Standard::headers(status_code);
        r.status_code = status_code;
        r
    }
}

impl Response<std::io::Empty> {
    /// A response without body with this status code and its standard
    /// headers (see [`standard::standard_headers_spec`]).
    pub fn empty(status_code: StatusCode) -> (r: Self)
        ensures
            r.status_spec() == status_code.0,
            r.data_length_spec() == Some(0usize),
            r.data_spec() is None,
            r.header_list() == standard::standard_headers_spec(status_code.0),
            r.filter_set() is None,
            r.threshold_spec() is None,
            r.skip_spec() is None,
    {
        let mut r = Response::with_body(None, Some(0));
        r.headers = standard::Standard::headers(status_code);
        r.status_code = status_code;
        r
    }

    /// The same as [`Response::empty`].
    pub fn new_empty(status_code: StatusCode) -> (r: Self)
        ensures
            r.status_spec() == status_code.0,
            r.data_length_spec() == Some(0usize),
            r.data_spec() is None,
            r.header_list() == standard::standard_headers_spec(status_code.0),
            r.filter_set() is None,
            r.threshold_spec() is None,
            r.skip_spec() is None,
    {
        Self::empty(status_code)
    }
}

impl standard::Standard {
    /// The response of this standard status (see [`Response::from_status`]).
    pub fn response(status: &standard::Standard) -> (r: Response<std::io::Cursor<&'static [u8]>>)
        ensures
            r.status_spec() == standard::standard_code(*status),
            r.data_length_spec() == Some(
                crate::common::status_code::reason_phrase_spec(standard::standard_code(*status)).len() as usize,
            ),
            r.data_spec() matches Some(c) && slice_cursor_rest(c) == vstd::utf8::encode_utf8(
                crate::common::status_code::reason_phrase_spec(standard::standard_code(*status)),
            ),
            r.header_list() == standard::standard_headers_spec(standard::standard_code(*status)),
            r.filter_set() is None,
            r.threshold_spec() is None,
            r.skip_spec() is None,
    {
        Response::from_status(status.status_code())
    }
}

} // verus!

verus! {

/// A field that may not be set is refused, and the response stays as it was.
pub proof fn lemma_forbidden_header_refused(
    dl: Option<usize>,
    hs: Option<Seq<(Seq<u8>, Seq<u8>)>>,
    f: Seq<u8>,
    v: Seq<u8>,
)
    requires
        forbidden_field(f),
    ensures
        add_header_spec(dl, hs, f, v) == (Err::<(), HeaderError>(HeaderError::NonModifiable), dl, hs),
{
}

/// Setting `Content-Length` to the decimal text of a number sets the data
/// length to that number and leaves the header list alone.
pub proof fn lemma_content_length_sets_length(
    dl: Option<usize>,
    hs: Option<Seq<(Seq<u8>, Seq<u8>)>>,
    f: Seq<u8>,
    n: usize,
)
    requires
        eq_ignore_case(f, "Content-Length".spec_bytes()),
    ensures
        add_header_spec(dl, hs, f, crate::decimal::decimal(n as nat)) == (Ok::<(), HeaderError>(()), Some(n), hs),
{
    reveal_strlit("Content-Length");
    reveal_strlit("connection");
    reveal_strlit("trailer");
    reveal_strlit("transfer-encoding");
    reveal_strlit("upgrade");
    assert(vstd::string::is_ascii("Content-Length"));
    assert(f.len() == 14);
    assert(!forbidden_field(f)) by {
        crate::common::header::lemma_forbidden_name_lengths();
        assert forall|i: int| 0 <= i < crate::common::header::forbidden_names().len() implies !eq_ignore_case(
            f,
            #[trigger] crate::common::header::forbidden_names()[i],
        ) by {
            assert(crate::common::header::forbidden_names()[i].len() != 14);
        }
    }
    crate::decimal::lemma_parse_decimal_usize(n);
}

/// Setting `Content-Type` on a response that holds at most one leaves
/// exactly one, with the new value.
pub proof fn lemma_content_type_single(
    dl: Option<usize>,
    hs: Option<Seq<(Seq<u8>, Seq<u8>)>>,
    f: Seq<u8>,
    v: Seq<u8>,
)
    requires
        eq_ignore_case(f, "Content-Type".spec_bytes()),
        hs matches Some(ps) ==> crate::common::header_data::select_field(ps, "Content-Type".spec_bytes()).len() <= 1,
    ensures
        ({
            let s = add_header_spec(dl, hs, f, v);
            &&& s.0 is Ok
            &&& s.1 == dl
            &&& s.2 matches Some(ps2)
            &&& crate::common::header_data::select_field(ps2, "Content-Type".spec_bytes()).len() == 1
            &&& crate::common::header_data::select_field(ps2, "Content-Type".spec_bytes())[0].1 == v
        }),
{
    reveal_strlit("Content-Type");
    reveal_strlit("Content-Length");
    reveal_strlit("connection");
    reveal_strlit("trailer");
    reveal_strlit("transfer-encoding");
    reveal_strlit("upgrade");
    let ct = "Content-Type".spec_bytes();
    assert(vstd::string::is_ascii("Content-Length"));
    assert(vstd::string::is_ascii("Content-Type"));
    assert(f.len() == 12);
    assert(!forbidden_field(f)) by {
        crate::common::header::lemma_forbidden_name_lengths();
        assert forall|i: int| 0 <= i < crate::common::header::forbidden_names().len() implies !eq_ignore_case(
            f,
            #[trigger] crate::common::header::forbidden_names()[i],
        ) by {
            assert(crate::common::header::forbidden_names()[i].len() != 12);
        }
    }
    assert(!eq_ignore_case(f, "Content-Length".spec_bytes()));
    match hs {
        None => {
            let ps2 = seq![(f, v)];
            assert(ps2.drop_last() =~= Seq::<(Seq<u8>, Seq<u8>)>::empty());
            assert(ps2.last() == (f, v));
            assert(crate::common::header_data::select_field(Seq::<(Seq<u8>, Seq<u8>)>::empty(), ct) =~= Seq::<(Seq<u8>, Seq<u8>)>::empty());
            assert(crate::common::header_data::select_field(ps2, ct) == crate::common::header_data::select_field(ps2.drop_last(), ct) + seq![(f, v)]);
            assert(crate::common::header_data::select_field(ps2, ct) =~= seq![(f, v)]);
        },
        Some(ps) => {
            crate::common::header_data::lemma_select_same_field(ps, f, ct);
            util::lemma_first_field_index_props(ps, f);
            let i = util::first_field_index(ps, f);
            if i < ps.len() {
                let q = (ps[i].0, v);
                crate::text::lemma_eq_ignore_case_lower(ps[i].0, f);
                crate::text::lemma_eq_ignore_case_lower(q.0, f);
                crate::common::header_data::lemma_select_has(ps, f, i);
                crate::common::header_data::lemma_select_update_single(ps, f, i, q);
                crate::common::header_data::lemma_select_same_field(ps.update(i, q), f, ct);
            } else {
                crate::common::header_data::lemma_select_none(ps, f);
                let ps2 = ps.push((f, v));
                assert(ps2.drop_last() =~= ps);
                crate::common::header_data::lemma_select_same_field(ps2, f, ct);
                assert(crate::common::header_data::select_field(ps2, f) =~= seq![(f, v)]);
            }
        },
    }
}

/// A copy of `cursor`, at the same position.
///
/// Calls `Clone::clone` of `std::io::Cursor`, which copies the slice
/// reference and the position: the copy has the same bytes yet to give.
#[verifier::external_body]
fn clone_cursor<'a>(cursor: &std::io::Cursor<&'a [u8]>) -> (r: std::io::Cursor<&'a [u8]>)
    ensures
        slice_cursor_rest(r) == slice_cursor_rest(*cursor),
{
    cursor.clone()
}

/// A copy of an optional header list.
fn duplicate_optional_headers(headers: &Option<Vec<Header>>) -> (r: Option<Vec<Header>>)
    ensures
        optional_pairs(r) == optional_pairs(*headers),
{
    match headers {
        Some(v) => Some(util::duplicate_headers(v.as_slice())),
        None => None,
    }
}

/// A copy of an optional field set.
fn duplicate_optional_set(set: &Option<HeaderFieldSet>) -> (r: Option<HeaderFieldSet>)
    ensures
        optional_set(r) == optional_set(*set),
{
    match set {
        Some(f) => Some(f.duplicate()),
        None => None,
    }
}

impl<R> Default for Response<R> {
    /// A response with status 200, no body, no headers and no filter.
    fn default() -> (r: Self)
        ensures
            r.status_spec() == 200,
            r.data_spec() is None,
            r.data_length_spec() is None,
            r.header_list() is None,
            r.filter_set() is None,
            r.threshold_spec() is None,
            r.skip_spec() is None,
    {
        Response {
            body_skip: None,
            chunked_threshold: None,
            data: None,
            data_length: None,
            filter_headers: None,
            headers: None,
            status_code: StatusCode(200),
        }
    }
}

impl<'a> Clone for Response<std::io::Cursor<&'a [u8]>> {
    /// A copy of the response, its body cursor included.
    fn clone(&self) -> (r: Self)
        ensures
            r.status_spec() == self.status_spec(),
            r.data_length_spec() == self.data_length_spec(),
            r.header_list() == self.header_list(),
            r.filter_set() == self.filter_set(),
            r.threshold_spec() == self.threshold_spec(),
            r.skip_spec() == self.skip_spec(),
            match (r.data_spec(), self.data_spec()) {
                (Some(a), Some(b)) => slice_cursor_rest(a) == slice_cursor_rest(b),
                (None, None) => true,
                _ => false,
            },
    {
        Response {
            body_skip: self.body_skip,
            chunked_threshold: self.chunked_threshold,
            data: match &self.data {
                Some(c) => Some(clone_cursor(c)),
                None => None,
            },
            data_length: self.data_length,
            filter_headers: duplicate_optional_set(&self.filter_headers),
            headers: duplicate_optional_headers(&self.headers),
            status_code: self.status_code,
        }
    }
}

impl Clone for Response<std::io::Empty> {
    /// A copy of the response; its data length is 0.
    fn clone(&self) -> (r: Self)
        ensures
            r.status_spec() == self.status_spec(),
            r.data_length_spec() == Some(0usize),
            r.data_spec() is None,
            r.header_list() == self.header_list(),
            r.filter_set() == self.filter_set(),
            r.threshold_spec() == self.threshold_spec(),
            r.skip_spec() is None,
    {
        Response {
            body_skip: None,
            chunked_threshold: self.chunked_threshold,
            data: None,
            data_length: Some(0),
            filter_headers: duplicate_optional_set(&self.filter_headers),
            headers: duplicate_optional_headers(&self.headers),
            status_code: self.status_code,
        }
    }
}

/// The content range that answers a range request with this outcome, for
/// a body of `data_length` bytes: `first-last/length`, or unsatisfied.
pub open spec fn outcome_range(outcome: RangeOutcome, data_length: Option<usize>) -> ByteRange {
    match outcome {
        RangeOutcome::Partial { first, last } => ByteRange {
            complete_length: data_length,
            first_pos: Some(clamp_pos(first)),
            is_unsatisfied: false,
            last_pos: Some(clamp_pos(last)),
        },
        RangeOutcome::Unsatisfied => unsatisfied_range(),
    }
}

/// The status that answers a range request with this outcome: 206 Partial
/// Content, or 416 Range Not Satisfiable.
pub open spec fn outcome_status(outcome: RangeOutcome) -> u16 {
    match outcome {
        RangeOutcome::Partial { .. } => 206,
        RangeOutcome::Unsatisfied => 416,
    }
}

/// The bytes passed over before a body: none when the whole body is sent.
pub open spec fn skip_count(skip: Option<usize>) -> int {
    match skip {
        Some(s) => s as int,
        None => 0,
    }
}

/// The fields left out of a response whose range cannot be satisfied.
pub open spec fn unsatisfied_filter(filter: Option<Set<Seq<u8>>>) -> Option<Set<Seq<u8>>> {
    Some(set_or_empty(filter).union(set![
        lower_seq("Content-Length".spec_bytes()),
        lower_seq("Content-Type".spec_bytes()),
    ]))
}

impl<R> Response<R> {
    /// Answers a range request with the outcome `range_plan` decided: the
    /// header `Content-Range` is added (to a new header list when there is
    /// none), and the status becomes 206, or 416 with `Content-Length` and
    /// `Content-Type` left out. When the content range is no header value,
    /// headers, status and filter stay as they are. The body becomes the
    /// range: the bytes from `first` to `last` of the former body (`first`
    /// more bytes of the reader are passed over, and the data length is the
    /// range's), or none when the range cannot be satisfied.
    pub fn apply_range(&mut self, outcome: RangeOutcome)
        requires
            outcome matches RangeOutcome::Partial { first, last } ==> first <= last < usize::MAX
                && skip_count(old(self).skip_spec()) + first <= usize::MAX,
        ensures
            ({
                let text = content_range_text(RangeUnit::Bytes, seq![outcome_range(outcome, old(self).data_length_spec())]);
                if value_check_spec(text) is Ok {
                    &&& final(self).header_list() == Some(pairs_or_empty(old(self).header_list()).push(("Content-Range".spec_bytes(), text)))
                    &&& final(self).status_spec() == outcome_status(outcome)
                    &&& final(self).filter_set() == if outcome is Unsatisfied {
                        unsatisfied_filter(old(self).filter_set())
                    } else {
                        old(self).filter_set()
                    }
                } else {
                    &&& final(self).header_list() == old(self).header_list()
                    &&& final(self).status_spec() == old(self).status_spec()
                    &&& final(self).filter_set() == old(self).filter_set()
                }
            }),
            match outcome {
                RangeOutcome::Partial { first, last } => {
                    &&& final(self).data_length_spec() == Some((last - first + 1) as usize)
                    &&& final(self).skip_spec() == Some((skip_count(old(self).skip_spec()) + first) as usize)
                },
                RangeOutcome::Unsatisfied => {
                    &&& final(self).data_length_spec() == Some(0usize)
                    &&& final(self).skip_spec() == Some(skip_count(old(self).skip_spec()) as usize)
                },
            },
            final(self).data_spec() == old(self).data_spec(),
            final(self).threshold_spec() == old(self).threshold_spec(),
    {
        proof {
            reveal_strlit("Content-Range");
            reveal_strlit("Content-Length");
            reveal_strlit("Content-Type");
            assert(vstd::string::is_ascii("Content-Range"));
            assert(vstd::string::is_ascii("Content-Length"));
            assert(vstd::string::is_ascii("Content-Type"));
        }
        let range = match outcome {
            RangeOutcome::Partial { first, last } => content_range_for(first, last, self.data_length),
            RangeOutcome::Unsatisfied => mark_unsatisfied(None),
        };
        assert(range.ranges@ == seq![outcome_range(outcome, self.data_length)]);
        let text = range.content_range_bytes();
        let name = "Content-Range";
        assert(field_bytes_ok(name.spec_bytes()));
        match Header::from_bytes(name.as_bytes(), text.as_slice()) {
            Ok(h) => {
                let mut list = match self.headers.take() {
                    Some(l) => l,
                    None => Vec::new(),
                };
                let ghost old_list = list@;
                assert(header_pairs(old_list) == pairs_or_empty(old(self).header_list()));
                list.push(h);
                assert(header_pairs(list@) =~= header_pairs(old_list).push((h.field@, h.value@)));
                self.headers = Some(list);
                match outcome {
                    RangeOutcome::Partial { .. } => {
                        self.status_code = StatusCode(206);
                    },
                    RangeOutcome::Unsatisfied => {
                        self.status_code = StatusCode(416);
                        let mut extra: Vec<HeaderField> = Vec::new();
                        let cl = "Content-Length";
                        let ct = "Content-Type";
                        extra.push(HeaderField::from_valid_bytes(cl.as_bytes()));
                        extra.push(HeaderField::from_valid_bytes(ct.as_bytes()));
                        update_optional_hashset(&mut self.filter_headers, extra);
                        proof {
                            let names = util::lowered_names(extra@);
                            let two = set![lower_seq("Content-Length".spec_bytes()), lower_seq("Content-Type".spec_bytes())];
                            assert forall|x: Seq<u8>| #[trigger] names.contains(x) <==> two.contains(x) by {
                                if x == lower_seq("Content-Length".spec_bytes()) {
                                    assert(lower_seq(extra@[0]@) == x);
                                }
                                if x == lower_seq("Content-Type".spec_bytes()) {
                                    assert(lower_seq(extra@[1]@) == x);
                                }
                            }
                            assert(names =~= two);
                        }
                    },
                }
            },
            Err(_) => {},
        }
        match outcome {
            RangeOutcome::Partial { first, last } => {
                self.data_length = Some(last - first + 1);
                let before = match self.body_skip {
                    Some(s) => s,
                    None => 0,
                };
                self.body_skip = Some(before + first);
            },
            RangeOutcome::Unsatisfied => {
                self.data_length = Some(0);
                if self.body_skip.is_none() {
                    self.body_skip = Some(0);
                }
            },
        }
    }
}

} // verus!
