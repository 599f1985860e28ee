//! Transfer encodings this library can send.

use vstd::prelude::*;
use vstd::string::StringSliceAdditionalSpecFns;

use crate::text::{eq_ignore_ascii_case, eq_ignore_case};

verus! {

/// Transfer encoding to use when sending the message.
#[derive(Copy, Clone, Debug, PartialEq, Eq, Structural)]
pub enum TransferEncoding {
    /// The body as it is, with a `Content-Length`
    Identity,
    /// The body in chunks
    Chunked,
}

/// What reading an encoding name gives: `identity` or `chunked` in any ASCII case.
pub open spec fn transfer_encoding_spec(b: Seq<u8>) -> Result<TransferEncoding, ()> {
    if eq_ignore_case(b, "identity".spec_bytes()) {
        Ok(TransferEncoding::Identity)
    } else if eq_ignore_case(b, "chunked".spec_bytes()) {
        Ok(TransferEncoding::Chunked)
    } else {
        Err(())
    }
}

impl TransferEncoding {
    /// Reads an encoding name.
    pub fn parse(value: &[u8]) -> (r: Result<TransferEncoding, ()>)
        ensures
            r == transfer_encoding_spec(value@),
    {
        if eq_ignore_ascii_case(value, "identity".as_bytes()) {
            Ok(TransferEncoding::Identity)
        } else if eq_ignore_ascii_case(value, "chunked".as_bytes()) {
            Ok(TransferEncoding::Chunked)
        } else {
            Err(())
        }
    }
}

impl std::str::FromStr for TransferEncoding {
    type Err = ();

    fn from_str(value: &str) -> (r: Result<TransferEncoding, ()>)
        ensures
            r == transfer_encoding_spec(value.spec_bytes()),
    {
        TransferEncoding::parse(value.as_bytes())
    }
}

} // verus!
