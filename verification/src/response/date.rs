//! The `Date` header.

use vstd::prelude::*;
use vstd::string::StringSliceAdditionalSpecFns;

use crate::common::header::{field_bytes_ok, value_bytes_ok, Header, HeaderField, HeaderFieldValue};
use crate::text::is_ascii_bytes;

verus! {

broadcast use vstd::string::is_ascii_spec_bytes;

/// The HTTP date (IMF-fixdate, e.g. `Wed, 04 May 1983 11:17:00 GMT`) for
/// `secs` seconds after the Unix epoch, as `httpdate` formats it.
pub uninterp spec fn http_date_text(secs: u64) -> Seq<char>;

/// Formats the HTTP date for `secs` seconds after the Unix epoch.
///
/// Calls `httpdate::fmt_http_date`. The contract names the text it returns
/// and claims what its source shows: 29 printable ASCII characters (the
/// crate writes only letters, digits, space, comma and colon). The crate
/// panics from 253402300800 seconds on (the year 10000), which `requires`
/// leaves out.
#[verifier::external_body]
pub(crate) fn fmt_http_date(secs: u64) -> (r: String)
    requires
        secs < 253402300800,
    ensures
        r@ == http_date_text(secs),
        r@.len() == 29,
        vstd::utf8::is_ascii_chars(r@),
        forall|i: int|
            0 <= i < vstd::utf8::encode_utf8(r@).len() ==> 32 <= #[trigger] vstd::utf8::encode_utf8(r@)[i] <= 126,
{
    httpdate::fmt_http_date(std::time::UNIX_EPOCH + std::time::Duration::from_secs(secs))
}

/// The bytes of the `Date` value for `secs` seconds after the epoch.
pub open spec fn http_date_bytes(secs: u64) -> Seq<u8> {
    vstd::utf8::encode_utf8(http_date_text(secs))
}

/// The `Date` header for `secs` seconds after the Unix epoch.
pub fn date_header(secs: u64) -> (r: Header)
    requires
        secs < 253402300800,
    ensures
        r.field@ == "Date".spec_bytes(),
        r.value@ == http_date_bytes(secs),
{
    let text = fmt_http_date(secs);
    let s = text.as_str();
    let bytes = s.as_bytes();
    assert(bytes@ == http_date_bytes(secs));
    assert(value_bytes_ok(bytes@) && is_ascii_bytes(bytes@)) by {
        assert forall|i: int| 0 <= i < bytes@.len() implies #[trigger] crate::common::header::is_value_byte(bytes@[i]) && bytes@[i] < 128 by {
            assert(32 <= vstd::utf8::encode_utf8(text@)[i] <= 126);
        }
    }
    let name = "Date";
    proof {
        reveal_strlit("Date");
        assert(vstd::string::is_ascii(name));
    }
    assert(field_bytes_ok(name.spec_bytes()));
    Header {
        field: HeaderField::from_valid_bytes(name.as_bytes()),
        value: HeaderFieldValue::from_valid_bytes(bytes),
    }
}

} // verus!
