//! The HTTP version of a request line.

use vstd::prelude::*;
use vstd::string::StringSliceAdditionalSpecFns;

use crate::decimal::{decimal, u128_to_decimal};
use crate::text::{ascii_as_str, ascii_chars, is_ascii_bytes};

verus! {

broadcast use vstd::string::is_ascii_spec_bytes;

/// HTTP/{version} of a request.
#[derive(Clone, Copy, Debug, PartialEq, Eq, Structural, PartialOrd, Ord, Hash)]
pub enum HttpVersion {
    /// HTTP/0.9
    Version0_9,
    /// HTTP/1.0
    Version1_0,
    /// HTTP/1.1
    Version1_1,
    /// HTTP/2
    Version2,
    /// HTTP/3
    Version3,
}

/// Unsupported or unparseable [`HttpVersion`]: major and minor number.
#[derive(Clone, Copy, Debug, PartialEq, Eq, Structural)]
pub struct HttpVersionError(pub u8, pub u8);

impl HttpVersion {
    /// Position of the version in the order 0.9 < 1.0 < 1.1 < 2 < 3.
    pub open spec fn rank(self) -> nat {
        match self {
            HttpVersion::Version0_9 => 0,
            HttpVersion::Version1_0 => 1,
            HttpVersion::Version1_1 => 2,
            HttpVersion::Version2 => 3,
            HttpVersion::Version3 => 4,
        }
    }

    /// Position of the version in the order 0.9 < 1.0 < 1.1 < 2 < 3.
    pub fn ordinal(&self) -> (r: u8)
        ensures
            r == self.rank(),
    {
        match self {
            HttpVersion::Version0_9 => 0,
            HttpVersion::Version1_0 => 1,
            HttpVersion::Version1_1 => 2,
            HttpVersion::Version2 => 3,
            HttpVersion::Version3 => 4,
        }
    }

    /// Version in header format.
    pub open spec fn header_spec(self) -> Seq<char> {
        match self {
            HttpVersion::Version0_9 => "HTTP/0.9"@,
            HttpVersion::Version1_0 => "HTTP/1.0"@,
            HttpVersion::Version1_1 => "HTTP/1.1"@,
            HttpVersion::Version2 => "HTTP/2"@,
            HttpVersion::Version3 => "HTTP/3"@,
        }
    }

    /// Version in header format (e.g. `HTTP/1.1`).
    pub fn header(&self) -> (r: &'static str)
        ensures
            r@ == self.header_spec(),
    {
        match self {
            HttpVersion::Version0_9 => "HTTP/0.9",
            HttpVersion::Version1_0 => "HTTP/1.0",
            HttpVersion::Version1_1 => "HTTP/1.1",
            HttpVersion::Version2 => "HTTP/2",
            HttpVersion::Version3 => "HTTP/3",
        }
    }

    /// Version number as displayed (e.g. `1.1`).
    pub open spec fn number_spec(self) -> Seq<char> {
        match self {
            HttpVersion::Version0_9 => "0.9"@,
            HttpVersion::Version1_0 => "1.0"@,
            HttpVersion::Version1_1 => "1.1"@,
            HttpVersion::Version2 => "2"@,
            HttpVersion::Version3 => "3"@,
        }
    }

    /// Version number as displayed (e.g. `1.1`).
    pub fn number(&self) -> (r: &'static str)
        ensures
            r@ == self.number_spec(),
    {
        match self {
            HttpVersion::Version1_1 => "1.1",
            HttpVersion::Version3 => "3",
            HttpVersion::Version2 => "2",
            HttpVersion::Version1_0 => "1.0",
            HttpVersion::Version0_9 => "0.9",
        }
    }

    /// The version with the given major and minor number, if it is supported.
    pub open spec fn from_numbers_spec(major: u8, minor: u8) -> Result<HttpVersion, HttpVersionError> {
        if major == 1 && minor == 1 {
            Ok(HttpVersion::Version1_1)
        } else if major == 3 && minor == 0 {
            Ok(HttpVersion::Version3)
        } else if major == 2 && minor == 0 {
            Ok(HttpVersion::Version2)
        } else if major == 1 && minor == 0 {
            Ok(HttpVersion::Version1_0)
        } else if major == 0 && minor == 9 {
            Ok(HttpVersion::Version0_9)
        } else {
            Err(HttpVersionError(major, minor))
        }
    }

    /// The version with the given major and minor number.
    pub fn from_numbers(major: u8, minor: u8) -> (r: Result<HttpVersion, HttpVersionError>)
        ensures
            r == Self::from_numbers_spec(major, minor),
    {
        match (major, minor) {
            (1, 1) => Ok(HttpVersion::Version1_1),
            (3, 0) => Ok(HttpVersion::Version3),
            (2, 0) => Ok(HttpVersion::Version2),
            (1, 0) => Ok(HttpVersion::Version1_0),
            (0, 9) => Ok(HttpVersion::Version0_9),
            _ => Err(HttpVersionError(major, minor)),
        }
    }

    /// What parsing `HTTP/1.1`, `1.1`, `HTTP/2`, `2` and the like gives: the
    /// `HTTP/` prefix is dropped from strings of length 6 or 8, then
    /// `d.d` or a single digit from 2 to 9 is read.
    pub open spec fn parse_spec(v: Seq<u8>) -> Result<HttpVersion, HttpVersionError> {
        let w = if (v.len() == 8 || v.len() == 6) && v.take(5) == seq![72u8, 84u8, 84u8, 80u8, 47u8] {
            v.skip(5)
        } else {
            v
        };
        if w.len() == 3 && w[1] == 46u8 {
            if 48 <= w[0] <= 57 && 48 <= w[2] <= 57 {
                Self::from_numbers_spec((w[0] - 48) as u8, (w[2] - 48) as u8)
            } else {
                Err(HttpVersionError(0, 0))
            }
        } else if w.len() == 1 && 50 <= w[0] <= 57 {
            Self::from_numbers_spec((w[0] - 48) as u8, 0)
        } else {
            Err(HttpVersionError(0, 0))
        }
    }

    /// Parses an HTTP version.
    pub fn parse(value: &[u8]) -> (r: Result<HttpVersion, HttpVersionError>)
        ensures
            r == Self::parse_spec(value@),
    {
        let len = value.len();
        let prefixed = (len == 8 || len == 6) && value[0] == 72u8 && value[1] == 84u8
            && value[2] == 84u8 && value[3] == 80u8 && value[4] == 47u8;
        assert(prefixed == ((value@.len() == 8 || value@.len() == 6) && value@.take(5) =~= seq![
            72u8,
            84u8,
            84u8,
            80u8,
            47u8,
        ]));
        let start: usize = if prefixed { 5 } else { 0 };
        let w = &value[start..len];
        assert(w@ =~= if prefixed { value@.skip(5) } else { value@ });
        if w.len() == 3 && w[1] == 46u8 {
            let major = w[0];
            let minor = w[2];
            if 48 <= major && major <= 57 && 48 <= minor && minor <= 57 {
                return Self::from_numbers(major - 48, minor - 48);
            }
        } else if w.len() == 1 {
            let major = w[0];
            if 50 <= major && major <= 57 {
                return Self::from_numbers(major - 48, 0);
            }
        }
        Err(HttpVersionError(0, 0))
    }
}

impl HttpVersionError {
    /// The message `unsupported HTTP/{major}.{minor}` (below 2) or `unsupported HTTP/{major}`.
    pub open spec fn message_spec(self) -> Seq<u8> {
        let prefix = "unsupported HTTP/"@;
        let p = prefix.map_values(|c: char| c as u8);
        if self.0 < 2 {
            p + decimal(self.0 as nat) + seq![46u8] + decimal(self.1 as nat)
        } else {
            p + decimal(self.0 as nat)
        }
    }

    /// The error message as bytes.
    pub fn message_bytes(&self) -> (r: Vec<u8>)
        ensures
            r@ == self.message_spec(),
    {
        let prefix = "unsupported HTTP/";
        proof {
            reveal_strlit("unsupported HTTP/");
        }
        assert(vstd::string::is_ascii(prefix));
        let mut out = crate::text::copy_range(prefix.as_bytes(), 0, prefix.as_bytes().len());
        assert(out@ =~= "unsupported HTTP/"@.map_values(|c: char| c as u8));
        crate::text::append_bytes(&mut out, u128_to_decimal(self.0 as u128).as_slice());
        if self.0 < 2 {
            out.push(46u8);
            crate::text::append_bytes(&mut out, u128_to_decimal(self.1 as u128).as_slice());
        }
        out
    }
}

} // verus!

verus! {

/// The bytes of an ASCII text.
pub open spec fn text_bytes(s: Seq<char>) -> Seq<u8> {
    s.map_values(|c: char| c as u8)
}

/// Reading the header text of a version (`HTTP/1.1`) or its number (`1.1`)
/// gives the version back.
pub proof fn lemma_version_text_roundtrip(v: HttpVersion)
    ensures
        HttpVersion::parse_spec(text_bytes(v.header_spec())) == Ok::<HttpVersion, HttpVersionError>(v),
        HttpVersion::parse_spec(text_bytes(v.number_spec())) == Ok::<HttpVersion, HttpVersionError>(v),
        text_bytes(v.header_spec()).len() >= 6,
        text_bytes(v.header_spec())[0] == 72u8,
{
    reveal_strlit("HTTP/0.9");
    reveal_strlit("HTTP/1.0");
    reveal_strlit("HTTP/1.1");
    reveal_strlit("HTTP/2");
    reveal_strlit("HTTP/3");
    reveal_strlit("0.9");
    reveal_strlit("1.0");
    reveal_strlit("1.1");
    reveal_strlit("2");
    reveal_strlit("3");
    let h = text_bytes(v.header_spec());
    let n = text_bytes(v.number_spec());
    let prefix = seq![72u8, 84u8, 84u8, 80u8, 47u8];
    match v {
        HttpVersion::Version0_9 => {
            assert(h =~= prefix + seq![48u8, 46u8, 57u8]);
            assert(n =~= seq![48u8, 46u8, 57u8]);
        },
        HttpVersion::Version1_0 => {
            assert(h =~= prefix + seq![49u8, 46u8, 48u8]);
            assert(n =~= seq![49u8, 46u8, 48u8]);
        },
        HttpVersion::Version1_1 => {
            assert(h =~= prefix + seq![49u8, 46u8, 49u8]);
            assert(n =~= seq![49u8, 46u8, 49u8]);
        },
        HttpVersion::Version2 => {
            assert(h =~= prefix + seq![50u8]);
            assert(n =~= seq![50u8]);
        },
        HttpVersion::Version3 => {
            assert(h =~= prefix + seq![51u8]);
            assert(n =~= seq![51u8]);
        },
    }
    assert(h.take(5) =~= prefix);
}

} // verus!
