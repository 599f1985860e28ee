//! The `Content-Type` values this library knows.

use vstd::prelude::*;
use vstd::string::StringSliceAdditionalSpecFns;

use crate::common::header::{Header, HeaderField, HeaderFieldValue};
use crate::text::{ends_with, eq_ignore_case, find_byte, lemma_find_byte_is, lemma_find_byte_props, lower_seq, starts_with};

verus! {

broadcast use vstd::string::is_ascii_spec_bytes;

/// HTTP protocol `Content-Type` header values.
#[derive(Clone, Copy, Debug, Hash, Eq, PartialEq, Structural)]
pub enum ContentType {
    /// `application/gzip`
    ApplicationGzip,
    /// `application/javascript`
    ApplicationJavascript,
    /// `application/json`
    ApplicationJson,
    /// `application/octet-stream`
    ApplicationOctetStream,
    /// `application/pdf`
    ApplicationPdf,
    /// `application/rtf`
    ApplicationRtf,
    /// `application/x-7z-compressed`
    ApplicationX7ZCompressed,
    /// `application/bzip2`
    ApplicationXBzip2,
    /// `application/xhtml+xml`
    ApplicationXhtmlXml,
    /// `application/xml`
    ApplicationXml,
    /// `application/x-zip`
    ApplicationZip,
    /// `font/otf`
    FontOtf,
    /// `font/ttf`
    FontTtf,
    /// `font/woff`
    FontWoff,
    /// `font/woff2`
    FontWoff2,
    /// `image/gif`
    ImageGif,
    /// `image/vnd.microsoft.icon`
    ImageIcon,
    /// `image/jpeg`
    ImageJpeg,
    /// `image/png`
    ImagePng,
    /// `image/svg+xml`
    ImageSvgXml,
    /// `image/webp`
    ImageWebp,
    /// `text/csv`
    TextCsv,
    /// `text/html`
    TextHtml,
    /// `text/html; charset=utf8`
    TextHtmlUtf8,
    /// `text/javascript`
    TextJavascript,
    /// `text/javascript; charset=utf8`
    TextJavascriptUtf8,
    /// `text/plain`
    TextPlain,
    /// `text/plain; charset=utf8`
    TextPlainUtf8,
    /// `text/xml`
    TextXml,
}

/// The name of the content type at position `i` of [`content_type_names`].
pub open spec fn content_type_name(i: int) -> Seq<u8> {
    if i == 0 {
        "application/gzip".spec_bytes()
    } else if i == 1 {
        "application/javascript".spec_bytes()
    } else if i == 2 {
        "application/json".spec_bytes()
    } else if i == 3 {
        "application/octet-stream".spec_bytes()
    } else if i == 4 {
        "application/pdf".spec_bytes()
    } else if i == 5 {
        "application/rtf".spec_bytes()
    } else if i == 6 {
        "application/x-7z-compressed".spec_bytes()
    } else if i == 7 {
        "application/bzip2".spec_bytes()
    } else if i == 8 {
        "application/xhtml+xml".spec_bytes()
    } else if i == 9 {
        "application/xml".spec_bytes()
    } else if i == 10 {
        "application/x-zip".spec_bytes()
    } else if i == 11 {
        "font/otf".spec_bytes()
    } else if i == 12 {
        "font/ttf".spec_bytes()
    } else if i == 13 {
        "font/woff".spec_bytes()
    } else if i == 14 {
        "font/woff2".spec_bytes()
    } else if i == 15 {
        "image/gif".spec_bytes()
    } else if i == 16 {
        "image/vnd.microsoft.icon".spec_bytes()
    } else if i == 17 {
        "image/jpeg".spec_bytes()
    } else if i == 18 {
        "image/png".spec_bytes()
    } else if i == 19 {
        "image/svg+xml".spec_bytes()
    } else if i == 20 {
        "image/webp".spec_bytes()
    } else if i == 21 {
        "text/csv".spec_bytes()
    } else if i == 22 {
        "text/html".spec_bytes()
    } else if i == 23 {
        "text/html; charset=utf8".spec_bytes()
    } else if i == 24 {
        "text/javascript".spec_bytes()
    } else if i == 25 {
        "text/javascript; charset=utf8".spec_bytes()
    } else if i == 26 {
        "text/plain".spec_bytes()
    } else if i == 27 {
        "text/plain; charset=utf8".spec_bytes()
    } else {
        "text/xml".spec_bytes()
    }
}

/// The names of the content types, in the order of [`ContentType`]; all lower case.
pub open spec fn content_type_names() -> Seq<Seq<u8>> {
    Seq::new(29, |i: int| content_type_name(i))
}

/// The content type at a position of [`content_type_names`].
pub open spec fn content_type_at(i: usize) -> Option<ContentType> {
    match i {
        0 => Some(ContentType::ApplicationGzip),
        1 => Some(ContentType::ApplicationJavascript),
        2 => Some(ContentType::ApplicationJson),
        3 => Some(ContentType::ApplicationOctetStream),
        4 => Some(ContentType::ApplicationPdf),
        5 => Some(ContentType::ApplicationRtf),
        6 => Some(ContentType::ApplicationX7ZCompressed),
        7 => Some(ContentType::ApplicationXBzip2),
        8 => Some(ContentType::ApplicationXhtmlXml),
        9 => Some(ContentType::ApplicationXml),
        10 => Some(ContentType::ApplicationZip),
        11 => Some(ContentType::FontOtf),
        12 => Some(ContentType::FontTtf),
        13 => Some(ContentType::FontWoff),
        14 => Some(ContentType::FontWoff2),
        15 => Some(ContentType::ImageGif),
        16 => Some(ContentType::ImageIcon),
        17 => Some(ContentType::ImageJpeg),
        18 => Some(ContentType::ImagePng),
        19 => Some(ContentType::ImageSvgXml),
        20 => Some(ContentType::ImageWebp),
        21 => Some(ContentType::TextCsv),
        22 => Some(ContentType::TextHtml),
        23 => Some(ContentType::TextHtmlUtf8),
        24 => Some(ContentType::TextJavascript),
        25 => Some(ContentType::TextJavascriptUtf8),
        26 => Some(ContentType::TextPlain),
        27 => Some(ContentType::TextPlainUtf8),
        28 => Some(ContentType::TextXml),
        _ => None,
    }
}

/// The position of a content type in [`content_type_names`].
pub open spec fn content_type_pos(c: ContentType) -> usize {
    match c {
        ContentType::ApplicationGzip => 0,
        ContentType::ApplicationJavascript => 1,
        ContentType::ApplicationJson => 2,
        ContentType::ApplicationOctetStream => 3,
        ContentType::ApplicationPdf => 4,
        ContentType::ApplicationRtf => 5,
        ContentType::ApplicationX7ZCompressed => 6,
        ContentType::ApplicationXBzip2 => 7,
        ContentType::ApplicationXhtmlXml => 8,
        ContentType::ApplicationXml => 9,
        ContentType::ApplicationZip => 10,
        ContentType::FontOtf => 11,
        ContentType::FontTtf => 12,
        ContentType::FontWoff => 13,
        ContentType::FontWoff2 => 14,
        ContentType::ImageGif => 15,
        ContentType::ImageIcon => 16,
        ContentType::ImageJpeg => 17,
        ContentType::ImagePng => 18,
        ContentType::ImageSvgXml => 19,
        ContentType::ImageWebp => 20,
        ContentType::TextCsv => 21,
        ContentType::TextHtml => 22,
        ContentType::TextHtmlUtf8 => 23,
        ContentType::TextJavascript => 24,
        ContentType::TextJavascriptUtf8 => 25,
        ContentType::TextPlain => 26,
        ContentType::TextPlainUtf8 => 27,
        ContentType::TextXml => 28,
    }
}

/// The names of the content types, in the order of [`ContentType`].
pub fn content_types() -> (r: Vec<&'static str>)
    ensures
        r@.len() == content_type_names().len(),
        forall|i: int| 0 <= i < r@.len() ==> #[trigger] r@[i].spec_bytes() == content_type_names()[i],
{
    let mut v: Vec<&'static str> = Vec::new();
    v.push("application/gzip");
    v.push("application/javascript");
    v.push("application/json");
    v.push("application/octet-stream");
    v.push("application/pdf");
    v.push("application/rtf");
    v.push("application/x-7z-compressed");
    v.push("application/bzip2");
    v.push("application/xhtml+xml");
    v.push("application/xml");
    v.push("application/x-zip");
    v.push("font/otf");
    v.push("font/ttf");
    v.push("font/woff");
    v.push("font/woff2");
    v.push("image/gif");
    v.push("image/vnd.microsoft.icon");
    v.push("image/jpeg");
    v.push("image/png");
    v.push("image/svg+xml");
    v.push("image/webp");
    v.push("text/csv");
    v.push("text/html");
    v.push("text/html; charset=utf8");
    v.push("text/javascript");
    v.push("text/javascript; charset=utf8");
    v.push("text/plain");
    v.push("text/plain; charset=utf8");
    v.push("text/xml");
    v
}

impl ContentType {
    /// The content type at position `idx` of [`content_types`].
    pub fn from_index(idx: usize) -> (r: Option<ContentType>)
        ensures
            r == content_type_at(idx),
    {
        match idx {
            0 => Some(ContentType::ApplicationGzip),
            1 => Some(ContentType::ApplicationJavascript),
            2 => Some(ContentType::ApplicationJson),
            3 => Some(ContentType::ApplicationOctetStream),
            4 => Some(ContentType::ApplicationPdf),
            5 => Some(ContentType::ApplicationRtf),
            6 => Some(ContentType::ApplicationX7ZCompressed),
            7 => Some(ContentType::ApplicationXBzip2),
            8 => Some(ContentType::ApplicationXhtmlXml),
            9 => Some(ContentType::ApplicationXml),
            10 => Some(ContentType::ApplicationZip),
            11 => Some(ContentType::FontOtf),
            12 => Some(ContentType::FontTtf),
            13 => Some(ContentType::FontWoff),
            14 => Some(ContentType::FontWoff2),
            15 => Some(ContentType::ImageGif),
            16 => Some(ContentType::ImageIcon),
            17 => Some(ContentType::ImageJpeg),
            18 => Some(ContentType::ImagePng),
            19 => Some(ContentType::ImageSvgXml),
            20 => Some(ContentType::ImageWebp),
            21 => Some(ContentType::TextCsv),
            22 => Some(ContentType::TextHtml),
            23 => Some(ContentType::TextHtmlUtf8),
            24 => Some(ContentType::TextJavascript),
            25 => Some(ContentType::TextJavascriptUtf8),
            26 => Some(ContentType::TextPlain),
            27 => Some(ContentType::TextPlainUtf8),
            28 => Some(ContentType::TextXml),
            _ => None,
        }
    }

    /// The position of this content type in [`content_types`].
    pub fn index(&self) -> (r: usize)
        ensures
            r == content_type_pos(*self),
            content_type_at(r) == Some(*self),
            r < content_type_names().len(),
    {
        match self {
            ContentType::ApplicationGzip => 0,
            ContentType::ApplicationJavascript => 1,
            ContentType::ApplicationJson => 2,
            ContentType::ApplicationOctetStream => 3,
            ContentType::ApplicationPdf => 4,
            ContentType::ApplicationRtf => 5,
            ContentType::ApplicationX7ZCompressed => 6,
            ContentType::ApplicationXBzip2 => 7,
            ContentType::ApplicationXhtmlXml => 8,
            ContentType::ApplicationXml => 9,
            ContentType::ApplicationZip => 10,
            ContentType::FontOtf => 11,
            ContentType::FontTtf => 12,
            ContentType::FontWoff => 13,
            ContentType::FontWoff2 => 14,
            ContentType::ImageGif => 15,
            ContentType::ImageIcon => 16,
            ContentType::ImageJpeg => 17,
            ContentType::ImagePng => 18,
            ContentType::ImageSvgXml => 19,
            ContentType::ImageWebp => 20,
            ContentType::TextCsv => 21,
            ContentType::TextHtml => 22,
            ContentType::TextHtmlUtf8 => 23,
            ContentType::TextJavascript => 24,
            ContentType::TextJavascriptUtf8 => 25,
            ContentType::TextPlain => 26,
            ContentType::TextPlainUtf8 => 27,
            ContentType::TextXml => 28,
        }
    }

    /// The name of this content type.
    pub fn as_str(&self) -> (r: &'static str)
        ensures
            r.spec_bytes() == content_type_names()[content_type_pos(*self) as int],
    {
        let names = content_types();
        names[self.index()]
    }
}

} // verus!

verus! {

/// The position of the first name equal to `s`.
pub open spec fn first_index(names: Seq<Seq<u8>>, s: Seq<u8>) -> Option<usize>
    decreases names.len(),
{
    if names.len() == 0 {
        None
    } else {
        match first_index(names.drop_last(), s) {
            Some(i) => Some(i),
            None => if names.last() == s {
                Some((names.len() - 1) as usize)
            } else {
                None
            },
        }
    }
}

/// The value part of a `Content-Type` text (in lower case): what follows
/// `content-type:` and one space, when the text starts so.
pub open spec fn content_type_value(lc: Seq<u8>) -> Seq<u8> {
    if starts_with(lc, "content-type:".spec_bytes()) {
        let r = lc.skip(13);
        if r.len() > 0 && r[0] == 32 {
            r.skip(1)
        } else {
            r
        }
    } else {
        lc
    }
}

/// A `Content-Type` text can be read without fault: a `;` is followed by something.
pub open spec fn content_type_readable(value: Seq<u8>) -> bool {
    let f0 = content_type_value(lower_seq(value));
    find_byte(f0, 59u8) < f0.len() ==> find_byte(f0, 59u8) + 1 < f0.len()
}

/// The media type and the normalized full text `type; charset=...` of a
/// `Content-Type` text: the text is lower-cased, a parameter after `;` (and
/// one space) counts only when it starts with `charset=`, and a charset
/// ending in `utf-8` becomes `utf8`.
pub open spec fn content_type_keys(value: Seq<u8>) -> (Seq<u8>, Seq<u8>) {
    let f0 = content_type_value(lower_seq(value));
    let k = find_byte(f0, 59u8);
    let field = f0.take(k);
    let full = if k < f0.len() {
        let cs = f0.skip(k + 1);
        let cs2 = if cs[0] == 32 { cs.skip(1) } else { cs };
        if starts_with(cs2, "charset=".spec_bytes()) {
            field + "; ".spec_bytes() + "charset=".spec_bytes() + if ends_with(cs2, "utf-8".spec_bytes()) {
                "utf8".spec_bytes()
            } else {
                cs2.skip(8)
            }
        } else {
            field
        }
    } else {
        field
    };
    (field, full)
}

/// The content type a `Content-Type` text names: the full text with its
/// charset when it is known, otherwise the media type alone.
pub open spec fn content_type_lookup_spec(value: Seq<u8>) -> Option<ContentType> {
    let (field, full) = content_type_keys(value);
    match first_index(content_type_names(), full) {
        Some(i) => content_type_at(i),
        None => match first_index(content_type_names(), field) {
            Some(i) => content_type_at(i),
            None => None,
        },
    }
}

/// The position of the first name equal to `s` among `names`.
fn find_name(names: &Vec<&'static str>, s: &[u8]) -> (r: Option<usize>)
    ensures
        r == first_index(names@.map_values(|n: &'static str| n.spec_bytes()), s@),
{
    let ghost all = names@.map_values(|n: &'static str| n.spec_bytes());
    let mut i: usize = 0;
    assert(all.take(0) =~= Seq::<Seq<u8>>::empty());
    while i < names.len()
        invariant
            0 <= i <= names@.len(),
            all == names@.map_values(|n: &'static str| n.spec_bytes()),
            first_index(all.take(i as int), s@) is None,
        decreases names@.len() - i,
    {
        let n: &str = names[i];
        let ghost t = all.take(i + 1);
        assert(t.drop_last() =~= all.take(i as int));
        assert(t.last() == n.spec_bytes());
        if crate::text::bytes_eq(n.as_bytes(), s) {
            proof {
                assert(all.take(i + 1) =~= t);
                lemma_first_index_extend(all, s@, (i + 1) as int);
            }
            return Some(i);
        }
        i += 1;
    }
    assert(all.take(names@.len() as int) =~= all);
    None
}

/// Once the name is found in a prefix, it stays the first found.
proof fn lemma_first_index_extend(all: Seq<Seq<u8>>, s: Seq<u8>, n: int)
    requires
        0 <= n <= all.len(),
        first_index(all.take(n), s) is Some,
    ensures
        first_index(all, s) == first_index(all.take(n), s),
    decreases all.len() - n,
{
    if n < all.len() {
        let t = all.take(n + 1);
        assert(t.drop_last() =~= all.take(n));
        lemma_first_index_extend(all, s, n + 1);
    } else {
        assert(all.take(n) =~= all);
    }
}

/// Reads a `Content-Type` text, with or without the `Content-Type:` field
/// in front (see [`content_type_lookup_spec`]).
pub fn content_type_lookup(value: &[u8]) -> (r: Option<ContentType>)
    requires
        content_type_readable(value@),
    ensures
        r == content_type_lookup_spec(value@),
{
    let lc = crate::text::to_lower_vec(value);
    let prefix = "content-type:";
    proof {
        let s = "content-type:";
        reveal_strlit("content-type:");
        assert(vstd::string::is_ascii(s));
        assert(crate::common::header::value_bytes_ok(s.spec_bytes()));
    }
    let start: usize = if crate::text::starts_with_bytes(lc.as_slice(), prefix.as_bytes()) {
        if lc.len() > 13 && lc[13] == 32 {
            14
        } else {
            13
        }
    } else {
        0
    };
    let f0 = &lc.as_slice()[start..lc.len()];
    assert(f0@ =~= content_type_value(lower_seq(value@)));
    let mut k: usize = 0;
    while k < f0.len() && f0[k] != 59u8
        invariant
            0 <= k <= f0@.len(),
            forall|j: int| 0 <= j < k ==> #[trigger] f0@[j] != 59u8,
        decreases f0@.len() - k,
    {
        k += 1;
    }
    proof {
        lemma_find_byte_is(f0@, 59u8, k as int);
    }
    let field = &f0[0..k];
    assert(field@ =~= f0@.take(k as int));
    let mut full = crate::text::copy_range(field, 0, field.len());
    if k < f0.len() {
        let cs = &f0[k + 1..f0.len()];
        assert(cs@ =~= f0@.skip(k + 1));
        let cs2 = if cs[0] == 32 { &cs[1..cs.len()] } else { cs };
        assert(cs2@ =~= if cs@[0] == 32 { cs@.skip(1) } else { cs@ });
        let charset = "charset=";
        let sep = "; ";
        let utf = "utf-8";
        let utf8 = "utf8";
        proof {
            reveal_strlit("charset=");
            assert(vstd::string::is_ascii("charset="));
        }
        if crate::text::starts_with_bytes(cs2, charset.as_bytes()) {
            crate::text::append_bytes(&mut full, sep.as_bytes());
            crate::text::append_bytes(&mut full, charset.as_bytes());
            if crate::text::ends_with_bytes(cs2, utf.as_bytes()) {
                crate::text::append_bytes(&mut full, utf8.as_bytes());
            } else {
                crate::text::append_bytes(&mut full, &cs2[8..cs2.len()]);
                assert(cs2@.subrange(8, cs2@.len() as int) =~= cs2@.skip(8));
            }
        }
    }
    assert(full@ == content_type_keys(value@).1);
    let names = content_types();
    proof {
        assert(names@.map_values(|n: &'static str| n.spec_bytes()) =~= content_type_names());
    }
    match find_name(&names, full.as_slice()) {
        Some(i) => ContentType::from_index(i),
        None => match find_name(&names, field) {
            Some(i) => ContentType::from_index(i),
            None => None,
        },
    }
}

} // verus!

verus! {

/// The name at position `i` is printable ASCII, as header values need.
#[verifier::rlimit(40)]
proof fn lemma_content_type_name_printable(i: int)
    requires
        0 <= i < 29,
    ensures
        crate::common::header::value_bytes_ok(content_type_name(i)),
        crate::text::is_ascii_bytes(content_type_name(i)),
{
    if i == 0 {
        let s = "application/gzip";
        reveal_strlit("application/gzip");
        assert(vstd::string::is_ascii(s));
        assert(crate::common::header::value_bytes_ok(s.spec_bytes()));
    } else if i == 1 {
        let s = "application/javascript";
        reveal_strlit("application/javascript");
        assert(vstd::string::is_ascii(s));
        assert(crate::common::header::value_bytes_ok(s.spec_bytes()));
    } else if i == 2 {
        let s = "application/json";
        reveal_strlit("application/json");
        assert(vstd::string::is_ascii(s));
        assert(crate::common::header::value_bytes_ok(s.spec_bytes()));
    } else if i == 3 {
        let s = "application/octet-stream";
        reveal_strlit("application/octet-stream");
        assert(vstd::string::is_ascii(s));
        assert(crate::common::header::value_bytes_ok(s.spec_bytes()));
    } else if i == 4 {
        let s = "application/pdf";
        reveal_strlit("application/pdf");
        assert(vstd::string::is_ascii(s));
        assert(crate::common::header::value_bytes_ok(s.spec_bytes()));
    } else if i == 5 {
        let s = "application/rtf";
        reveal_strlit("application/rtf");
        assert(vstd::string::is_ascii(s));
        assert(crate::common::header::value_bytes_ok(s.spec_bytes()));
    } else if i == 6 {
        let s = "application/x-7z-compressed";
        reveal_strlit("application/x-7z-compressed");
        assert(vstd::string::is_ascii(s));
        assert(crate::common::header::value_bytes_ok(s.spec_bytes()));
    } else if i == 7 {
        let s = "application/bzip2";
        reveal_strlit("application/bzip2");
        assert(vstd::string::is_ascii(s));
        assert(crate::common::header::value_bytes_ok(s.spec_bytes()));
    } else if i == 8 {
        let s = "application/xhtml+xml";
        reveal_strlit("application/xhtml+xml");
        assert(vstd::string::is_ascii(s));
        assert(crate::common::header::value_bytes_ok(s.spec_bytes()));
    } else if i == 9 {
        let s = "application/xml";
        reveal_strlit("application/xml");
        assert(vstd::string::is_ascii(s));
        assert(crate::common::header::value_bytes_ok(s.spec_bytes()));
    } else if i == 10 {
        let s = "application/x-zip";
        reveal_strlit("application/x-zip");
        assert(vstd::string::is_ascii(s));
        assert(crate::common::header::value_bytes_ok(s.spec_bytes()));
    } else if i == 11 {
        let s = "font/otf";
        reveal_strlit("font/otf");
        assert(vstd::string::is_ascii(s));
        assert(crate::common::header::value_bytes_ok(s.spec_bytes()));
    } else if i == 12 {
        let s = "font/ttf";
        reveal_strlit("font/ttf");
        assert(vstd::string::is_ascii(s));
        assert(crate::common::header::value_bytes_ok(s.spec_bytes()));
    } else if i == 13 {
        let s = "font/woff";
        reveal_strlit("font/woff");
        assert(vstd::string::is_ascii(s));
        assert(crate::common::header::value_bytes_ok(s.spec_bytes()));
    } else if i == 14 {
        let s = "font/woff2";
        reveal_strlit("font/woff2");
        assert(vstd::string::is_ascii(s));
        assert(crate::common::header::value_bytes_ok(s.spec_bytes()));
    } else if i == 15 {
        let s = "image/gif";
        reveal_strlit("image/gif");
        assert(vstd::string::is_ascii(s));
        assert(crate::common::header::value_bytes_ok(s.spec_bytes()));
    } else if i == 16 {
        let s = "image/vnd.microsoft.icon";
        reveal_strlit("image/vnd.microsoft.icon");
        assert(vstd::string::is_ascii(s));
        assert(crate::common::header::value_bytes_ok(s.spec_bytes()));
    } else if i == 17 {
        let s = "image/jpeg";
        reveal_strlit("image/jpeg");
        assert(vstd::string::is_ascii(s));
        assert(crate::common::header::value_bytes_ok(s.spec_bytes()));
    } else if i == 18 {
        let s = "image/png";
        reveal_strlit("image/png");
        assert(vstd::string::is_ascii(s));
        assert(crate::common::header::value_bytes_ok(s.spec_bytes()));
    } else if i == 19 {
        let s = "image/svg+xml";
        reveal_strlit("image/svg+xml");
        assert(vstd::string::is_ascii(s));
        assert(crate::common::header::value_bytes_ok(s.spec_bytes()));
    } else if i == 20 {
        let s = "image/webp";
        reveal_strlit("image/webp");
        assert(vstd::string::is_ascii(s));
        assert(crate::common::header::value_bytes_ok(s.spec_bytes()));
    } else if i == 21 {
        let s = "text/csv";
        reveal_strlit("text/csv");
        assert(vstd::string::is_ascii(s));
        assert(crate::common::header::value_bytes_ok(s.spec_bytes()));
    } else if i == 22 {
        let s = "text/html";
        reveal_strlit("text/html");
        assert(vstd::string::is_ascii(s));
        assert(crate::common::header::value_bytes_ok(s.spec_bytes()));
    } else if i == 23 {
        let s = "text/html; charset=utf8";
        reveal_strlit("text/html; charset=utf8");
        assert(vstd::string::is_ascii(s));
        assert(crate::common::header::value_bytes_ok(s.spec_bytes()));
    } else if i == 24 {
        let s = "text/javascript";
        reveal_strlit("text/javascript");
        assert(vstd::string::is_ascii(s));
        assert(crate::common::header::value_bytes_ok(s.spec_bytes()));
    } else if i == 25 {
        let s = "text/javascript; charset=utf8";
        reveal_strlit("text/javascript; charset=utf8");
        assert(vstd::string::is_ascii(s));
        assert(crate::common::header::value_bytes_ok(s.spec_bytes()));
    } else if i == 26 {
        let s = "text/plain";
        reveal_strlit("text/plain");
        assert(vstd::string::is_ascii(s));
        assert(crate::common::header::value_bytes_ok(s.spec_bytes()));
    } else if i == 27 {
        let s = "text/plain; charset=utf8";
        reveal_strlit("text/plain; charset=utf8");
        assert(vstd::string::is_ascii(s));
        assert(crate::common::header::value_bytes_ok(s.spec_bytes()));
    } else {
        let s = "text/xml";
        reveal_strlit("text/xml");
        assert(vstd::string::is_ascii(s));
        assert(crate::common::header::value_bytes_ok(s.spec_bytes()));
    }
}

impl ContentType {
    /// The header `Content-Type: <name>`.
    pub fn to_header(&self) -> (r: Header)
        ensures
            r.field@ == "Content-Type".spec_bytes(),
            r.value@ == content_type_names()[content_type_pos(*self) as int],
    {
        proof {
            lemma_content_type_name_printable(content_type_pos(*self) as int);
            reveal_strlit("Content-Type");
            assert(vstd::string::is_ascii("Content-Type"));
        }
        let field = "Content-Type";
        let name = self.as_str();
        Header {
            field: HeaderField::from_valid_bytes(field.as_bytes()),
            value: HeaderFieldValue::from_valid_bytes(name.as_bytes()),
        }
    }

    /// The content type a text names (see [`content_type_lookup_spec`]).
    pub fn from_bytes(bytes: &[u8]) -> (r: Result<ContentType, ()>)
        requires
            content_type_readable(bytes@),
        ensures
            r == match content_type_lookup_spec(bytes@) {
                Some(c) => Ok::<ContentType, ()>(c),
                None => Err(()),
            },
    {
        match content_type_lookup(bytes) {
            Some(c) => Ok(c),
            None => Err(()),
        }
    }

    /// The content type of a `Content-Type` header; `Err` for other headers.
    pub fn from_header(header: &Header) -> (r: Result<ContentType, ()>)
        requires
            eq_ignore_case(header.field@, "Content-Type".spec_bytes()) ==> content_type_readable(header.value@),
        ensures
            r == if eq_ignore_case(header.field@, "Content-Type".spec_bytes()) {
                match content_type_lookup_spec(header.value@) {
                    Some(c) => Ok::<ContentType, ()>(c),
                    None => Err(()),
                }
            } else {
                Err(())
            },
    {
        if header.field.equiv("Content-Type") {
            ContentType::from_bytes(header.value.as_bytes())
        } else {
            Err(())
        }
    }
}

} // verus!

verus! {

/// Tells whether a `Content-Type` text can be read (see [`content_type_readable`]).
pub fn content_type_readable_check(value: &[u8]) -> (r: bool)
    ensures
        r == content_type_readable(value@),
{
    let lc = crate::text::to_lower_vec(value);
    let prefix = "content-type:";
    proof {
        let s = "content-type:";
        reveal_strlit("content-type:");
        assert(vstd::string::is_ascii(s));
        assert(crate::common::header::value_bytes_ok(s.spec_bytes()));
    }
    let start: usize = if crate::text::starts_with_bytes(lc.as_slice(), prefix.as_bytes()) {
        if lc.len() > 13 && lc[13] == 32 {
            14
        } else {
            13
        }
    } else {
        0
    };
    let f0 = &lc.as_slice()[start..lc.len()];
    assert(f0@ =~= content_type_value(lower_seq(value@)));
    let mut k: usize = 0;
    while k < f0.len() && f0[k] != 59u8
        invariant
            0 <= k <= f0@.len(),
            forall|j: int| 0 <= j < k ==> #[trigger] f0@[j] != 59u8,
        decreases f0@.len() - k,
    {
        k += 1;
    }
    proof {
        lemma_find_byte_is(f0@, 59u8, k as int);
    }
    k >= f0.len() || k + 1 < f0.len()
}

} // verus!

verus! {

/// The length of the name at `i` and its third byte from the end; no two
/// names share both.
spec fn name_sig(i: int) -> (int, u8) {
    if i == 0 {
        (16, 122u8)
    } else if i == 1 {
        (22, 105u8)
    } else if i == 2 {
        (16, 115u8)
    } else if i == 3 {
        (24, 101u8)
    } else if i == 4 {
        (15, 112u8)
    } else if i == 5 {
        (15, 114u8)
    } else if i == 6 {
        (27, 115u8)
    } else if i == 7 {
        (17, 105u8)
    } else if i == 8 {
        (21, 120u8)
    } else if i == 9 {
        (15, 120u8)
    } else if i == 10 {
        (17, 122u8)
    } else if i == 11 {
        (8, 111u8)
    } else if i == 12 {
        (8, 116u8)
    } else if i == 13 {
        (9, 111u8)
    } else if i == 14 {
        (10, 102u8)
    } else if i == 15 {
        (9, 103u8)
    } else if i == 16 {
        (24, 99u8)
    } else if i == 17 {
        (10, 112u8)
    } else if i == 18 {
        (9, 112u8)
    } else if i == 19 {
        (13, 120u8)
    } else if i == 20 {
        (10, 101u8)
    } else if i == 21 {
        (8, 99u8)
    } else if i == 22 {
        (9, 116u8)
    } else if i == 23 {
        (23, 116u8)
    } else if i == 24 {
        (15, 105u8)
    } else if i == 25 {
        (29, 116u8)
    } else if i == 26 {
        (10, 97u8)
    } else if i == 27 {
        (24, 116u8)
    } else {
        (8, 120u8)
    }
}

/// The name at `i` has the length and the byte that [`name_sig`] gives.
#[verifier::rlimit(40)]
proof fn lemma_name_sig(i: int)
    requires
        0 <= i < 29,
    ensures
        content_type_name(i).len() == name_sig(i).0,
        content_type_name(i)[name_sig(i).0 - 3] == name_sig(i).1,
{
    if i == 0 {
        reveal_strlit("application/gzip");
        assert(vstd::string::is_ascii("application/gzip"));
    } else if i == 1 {
        reveal_strlit("application/javascript");
        assert(vstd::string::is_ascii("application/javascript"));
    } else if i == 2 {
        reveal_strlit("application/json");
        assert(vstd::string::is_ascii("application/json"));
    } else if i == 3 {
        reveal_strlit("application/octet-stream");
        assert(vstd::string::is_ascii("application/octet-stream"));
    } else if i == 4 {
        reveal_strlit("application/pdf");
        assert(vstd::string::is_ascii("application/pdf"));
    } else if i == 5 {
        reveal_strlit("application/rtf");
        assert(vstd::string::is_ascii("application/rtf"));
    } else if i == 6 {
        reveal_strlit("application/x-7z-compressed");
        assert(vstd::string::is_ascii("application/x-7z-compressed"));
    } else if i == 7 {
        reveal_strlit("application/bzip2");
        assert(vstd::string::is_ascii("application/bzip2"));
    } else if i == 8 {
        reveal_strlit("application/xhtml+xml");
        assert(vstd::string::is_ascii("application/xhtml+xml"));
    } else if i == 9 {
        reveal_strlit("application/xml");
        assert(vstd::string::is_ascii("application/xml"));
    } else if i == 10 {
        reveal_strlit("application/x-zip");
        assert(vstd::string::is_ascii("application/x-zip"));
    } else if i == 11 {
        reveal_strlit("font/otf");
        assert(vstd::string::is_ascii("font/otf"));
    } else if i == 12 {
        reveal_strlit("font/ttf");
        assert(vstd::string::is_ascii("font/ttf"));
    } else if i == 13 {
        reveal_strlit("font/woff");
        assert(vstd::string::is_ascii("font/woff"));
    } else if i == 14 {
        reveal_strlit("font/woff2");
        assert(vstd::string::is_ascii("font/woff2"));
    } else if i == 15 {
        reveal_strlit("image/gif");
        assert(vstd::string::is_ascii("image/gif"));
    } else if i == 16 {
        reveal_strlit("image/vnd.microsoft.icon");
        assert(vstd::string::is_ascii("image/vnd.microsoft.icon"));
    } else if i == 17 {
        reveal_strlit("image/jpeg");
        assert(vstd::string::is_ascii("image/jpeg"));
    } else if i == 18 {
        reveal_strlit("image/png");
        assert(vstd::string::is_ascii("image/png"));
    } else if i == 19 {
        reveal_strlit("image/svg+xml");
        assert(vstd::string::is_ascii("image/svg+xml"));
    } else if i == 20 {
        reveal_strlit("image/webp");
        assert(vstd::string::is_ascii("image/webp"));
    } else if i == 21 {
        reveal_strlit("text/csv");
        assert(vstd::string::is_ascii("text/csv"));
    } else if i == 22 {
        reveal_strlit("text/html");
        assert(vstd::string::is_ascii("text/html"));
    } else if i == 23 {
        reveal_strlit("text/html; charset=utf8");
        assert(vstd::string::is_ascii("text/html; charset=utf8"));
    } else if i == 24 {
        reveal_strlit("text/javascript");
        assert(vstd::string::is_ascii("text/javascript"));
    } else if i == 25 {
        reveal_strlit("text/javascript; charset=utf8");
        assert(vstd::string::is_ascii("text/javascript; charset=utf8"));
    } else if i == 26 {
        reveal_strlit("text/plain");
        assert(vstd::string::is_ascii("text/plain"));
    } else if i == 27 {
        reveal_strlit("text/plain; charset=utf8");
        assert(vstd::string::is_ascii("text/plain; charset=utf8"));
    } else {
        reveal_strlit("text/xml");
        assert(vstd::string::is_ascii("text/xml"));
    }
}

/// No two names are the same.
proof fn lemma_names_distinct(i: int, j: int)
    requires
        0 <= j < i < 29,
    ensures
        content_type_name(j) != content_type_name(i),
{
    lemma_name_sig(i);
    lemma_name_sig(j);
}

/// The name at `i` is lower case, does not start with `c`, and its first
/// `;` (if any) starts `; charset=utf8`.
#[verifier::rlimit(40)]
proof fn lemma_name_shape(i: int)
    requires
        0 <= i < 29,
    ensures
        lower_seq(content_type_name(i)) == content_type_name(i),
        content_type_name(i)[0] != 99u8,
        find_byte(content_type_name(i), 59u8) == content_type_name(i).len()
            || content_type_name(i).skip(find_byte(content_type_name(i), 59u8)) == "; charset=utf8".spec_bytes(),
{
    reveal_strlit("; charset=utf8");
    assert(vstd::string::is_ascii("; charset=utf8"));
    if i == 0 {
        let s = "application/gzip";
        reveal_strlit("application/gzip");
        assert(vstd::string::is_ascii(s));
        assert(lower_seq(s.spec_bytes()) =~= s.spec_bytes());
        lemma_find_byte_is(s.spec_bytes(), 59u8, 16);
    } else if i == 1 {
        let s = "application/javascript";
        reveal_strlit("application/javascript");
        assert(vstd::string::is_ascii(s));
        assert(lower_seq(s.spec_bytes()) =~= s.spec_bytes());
        lemma_find_byte_is(s.spec_bytes(), 59u8, 22);
    } else if i == 2 {
        let s = "application/json";
        reveal_strlit("application/json");
        assert(vstd::string::is_ascii(s));
        assert(lower_seq(s.spec_bytes()) =~= s.spec_bytes());
        lemma_find_byte_is(s.spec_bytes(), 59u8, 16);
    } else if i == 3 {
        let s = "application/octet-stream";
        reveal_strlit("application/octet-stream");
        assert(vstd::string::is_ascii(s));
        assert(lower_seq(s.spec_bytes()) =~= s.spec_bytes());
        lemma_find_byte_is(s.spec_bytes(), 59u8, 24);
    } else if i == 4 {
        let s = "application/pdf";
        reveal_strlit("application/pdf");
        assert(vstd::string::is_ascii(s));
        assert(lower_seq(s.spec_bytes()) =~= s.spec_bytes());
        lemma_find_byte_is(s.spec_bytes(), 59u8, 15);
    } else if i == 5 {
        let s = "application/rtf";
        reveal_strlit("application/rtf");
        assert(vstd::string::is_ascii(s));
        assert(lower_seq(s.spec_bytes()) =~= s.spec_bytes());
        lemma_find_byte_is(s.spec_bytes(), 59u8, 15);
    } else if i == 6 {
        let s = "application/x-7z-compressed";
        reveal_strlit("application/x-7z-compressed");
        assert(vstd::string::is_ascii(s));
        assert(lower_seq(s.spec_bytes()) =~= s.spec_bytes());
        lemma_find_byte_is(s.spec_bytes(), 59u8, 27);
    } else if i == 7 {
        let s = "application/bzip2";
        reveal_strlit("application/bzip2");
        assert(vstd::string::is_ascii(s));
        assert(lower_seq(s.spec_bytes()) =~= s.spec_bytes());
        lemma_find_byte_is(s.spec_bytes(), 59u8, 17);
    } else if i == 8 {
        let s = "application/xhtml+xml";
        reveal_strlit("application/xhtml+xml");
        assert(vstd::string::is_ascii(s));
        assert(lower_seq(s.spec_bytes()) =~= s.spec_bytes());
        lemma_find_byte_is(s.spec_bytes(), 59u8, 21);
    } else if i == 9 {
        let s = "application/xml";
        reveal_strlit("application/xml");
        assert(vstd::string::is_ascii(s));
        assert(lower_seq(s.spec_bytes()) =~= s.spec_bytes());
        lemma_find_byte_is(s.spec_bytes(), 59u8, 15);
    } else if i == 10 {
        let s = "application/x-zip";
        reveal_strlit("application/x-zip");
        assert(vstd::string::is_ascii(s));
        assert(lower_seq(s.spec_bytes()) =~= s.spec_bytes());
        lemma_find_byte_is(s.spec_bytes(), 59u8, 17);
    } else if i == 11 {
        let s = "font/otf";
        reveal_strlit("font/otf");
        assert(vstd::string::is_ascii(s));
        assert(lower_seq(s.spec_bytes()) =~= s.spec_bytes());
        lemma_find_byte_is(s.spec_bytes(), 59u8, 8);
    } else if i == 12 {
        let s = "font/ttf";
        reveal_strlit("font/ttf");
        assert(vstd::string::is_ascii(s));
        assert(lower_seq(s.spec_bytes()) =~= s.spec_bytes());
        lemma_find_byte_is(s.spec_bytes(), 59u8, 8);
    } else if i == 13 {
        let s = "font/woff";
        reveal_strlit("font/woff");
        assert(vstd::string::is_ascii(s));
        assert(lower_seq(s.spec_bytes()) =~= s.spec_bytes());
        lemma_find_byte_is(s.spec_bytes(), 59u8, 9);
    } else if i == 14 {
        let s = "font/woff2";
        reveal_strlit("font/woff2");
        assert(vstd::string::is_ascii(s));
        assert(lower_seq(s.spec_bytes()) =~= s.spec_bytes());
        lemma_find_byte_is(s.spec_bytes(), 59u8, 10);
    } else if i == 15 {
        let s = "image/gif";
        reveal_strlit("image/gif");
        assert(vstd::string::is_ascii(s));
        assert(lower_seq(s.spec_bytes()) =~= s.spec_bytes());
        lemma_find_byte_is(s.spec_bytes(), 59u8, 9);
    } else if i == 16 {
        let s = "image/vnd.microsoft.icon";
        reveal_strlit("image/vnd.microsoft.icon");
        assert(vstd::string::is_ascii(s));
        assert(lower_seq(s.spec_bytes()) =~= s.spec_bytes());
        lemma_find_byte_is(s.spec_bytes(), 59u8, 24);
    } else if i == 17 {
        let s = "image/jpeg";
        reveal_strlit("image/jpeg");
        assert(vstd::string::is_ascii(s));
        assert(lower_seq(s.spec_bytes()) =~= s.spec_bytes());
        lemma_find_byte_is(s.spec_bytes(), 59u8, 10);
    } else if i == 18 {
        let s = "image/png";
        reveal_strlit("image/png");
        assert(vstd::string::is_ascii(s));
        assert(lower_seq(s.spec_bytes()) =~= s.spec_bytes());
        lemma_find_byte_is(s.spec_bytes(), 59u8, 9);
    } else if i == 19 {
        let s = "image/svg+xml";
        reveal_strlit("image/svg+xml");
        assert(vstd::string::is_ascii(s));
        assert(lower_seq(s.spec_bytes()) =~= s.spec_bytes());
        lemma_find_byte_is(s.spec_bytes(), 59u8, 13);
    } else if i == 20 {
        let s = "image/webp";
        reveal_strlit("image/webp");
        assert(vstd::string::is_ascii(s));
        assert(lower_seq(s.spec_bytes()) =~= s.spec_bytes());
        lemma_find_byte_is(s.spec_bytes(), 59u8, 10);
    } else if i == 21 {
        let s = "text/csv";
        reveal_strlit("text/csv");
        assert(vstd::string::is_ascii(s));
        assert(lower_seq(s.spec_bytes()) =~= s.spec_bytes());
        lemma_find_byte_is(s.spec_bytes(), 59u8, 8);
    } else if i == 22 {
        let s = "text/html";
        reveal_strlit("text/html");
        assert(vstd::string::is_ascii(s));
        assert(lower_seq(s.spec_bytes()) =~= s.spec_bytes());
        lemma_find_byte_is(s.spec_bytes(), 59u8, 9);
    } else if i == 23 {
        let s = "text/html; charset=utf8";
        reveal_strlit("text/html; charset=utf8");
        assert(vstd::string::is_ascii(s));
        assert(lower_seq(s.spec_bytes()) =~= s.spec_bytes());
        lemma_find_byte_is(s.spec_bytes(), 59u8, 9);
        assert(s.spec_bytes().skip(9) =~= "; charset=utf8".spec_bytes());
    } else if i == 24 {
        let s = "text/javascript";
        reveal_strlit("text/javascript");
        assert(vstd::string::is_ascii(s));
        assert(lower_seq(s.spec_bytes()) =~= s.spec_bytes());
        lemma_find_byte_is(s.spec_bytes(), 59u8, 15);
    } else if i == 25 {
        let s = "text/javascript; charset=utf8";
        reveal_strlit("text/javascript; charset=utf8");
        assert(vstd::string::is_ascii(s));
        assert(lower_seq(s.spec_bytes()) =~= s.spec_bytes());
        lemma_find_byte_is(s.spec_bytes(), 59u8, 15);
        assert(s.spec_bytes().skip(15) =~= "; charset=utf8".spec_bytes());
    } else if i == 26 {
        let s = "text/plain";
        reveal_strlit("text/plain");
        assert(vstd::string::is_ascii(s));
        assert(lower_seq(s.spec_bytes()) =~= s.spec_bytes());
        lemma_find_byte_is(s.spec_bytes(), 59u8, 10);
    } else if i == 27 {
        let s = "text/plain; charset=utf8";
        reveal_strlit("text/plain; charset=utf8");
        assert(vstd::string::is_ascii(s));
        assert(lower_seq(s.spec_bytes()) =~= s.spec_bytes());
        lemma_find_byte_is(s.spec_bytes(), 59u8, 10);
        assert(s.spec_bytes().skip(10) =~= "; charset=utf8".spec_bytes());
    } else {
        let s = "text/xml";
        reveal_strlit("text/xml");
        assert(vstd::string::is_ascii(s));
        assert(lower_seq(s.spec_bytes()) =~= s.spec_bytes());
        lemma_find_byte_is(s.spec_bytes(), 59u8, 8);
    }
}

/// `first_index` does not find what no name is.
proof fn lemma_first_index_none(names: Seq<Seq<u8>>, s: Seq<u8>)
    requires
        forall|j: int| 0 <= j < names.len() ==> names[j] != s,
    ensures
        first_index(names, s) is None,
    decreases names.len(),
{
    if names.len() > 0 {
        let t = names.drop_last();
        assert forall|j: int| 0 <= j < t.len() implies t[j] != s by {
            assert(t[j] == names[j]);
        }
        lemma_first_index_none(t, s);
    }
}

/// `first_index` finds `s` at `i` when it is there and not before.
proof fn lemma_first_index_at(names: Seq<Seq<u8>>, s: Seq<u8>, i: int)
    requires
        0 <= i < names.len(),
        names[i] == s,
        forall|j: int| 0 <= j < i ==> names[j] != s,
    ensures
        first_index(names, s) == Some(i as usize),
    decreases names.len(),
{
    let t = names.drop_last();
    if i < names.len() - 1 {
        assert forall|j: int| 0 <= j < i implies t[j] != s by {
            assert(t[j] == names[j]);
        }
        assert(t[i] == names[i]);
        lemma_first_index_at(t, s, i);
    } else {
        assert forall|j: int| 0 <= j < t.len() implies t[j] != s by {
            assert(t[j] == names[j]);
        }
        lemma_first_index_none(t, s);
    }
}

/// Reading the name at `i` as a `Content-Type` text cannot fault, and its
/// full text is the name itself.
#[verifier::rlimit(40)]
proof fn lemma_name_keys(i: int)
    requires
        0 <= i < 29,
    ensures
        content_type_readable(content_type_name(i)),
        content_type_keys(content_type_name(i)).1 == content_type_name(i),
{
    let s = content_type_name(i);
    lemma_name_shape(i);
    reveal_strlit("content-type:");
    assert(vstd::string::is_ascii("content-type:"));
    assert(!starts_with(s, "content-type:".spec_bytes())) by {
        if s.len() >= 13 {
            assert(s.take(13)[0] != "content-type:".spec_bytes()[0]);
        }
    }
    assert(content_type_value(lower_seq(s)) == s);
    let k = find_byte(s, 59u8);
    lemma_find_byte_props(s, 59u8);
    if k < s.len() {
        reveal_strlit("; charset=utf8");
        assert(vstd::string::is_ascii("; charset=utf8"));
        reveal_strlit("; ");
        assert(vstd::string::is_ascii("; "));
        reveal_strlit("charset=");
        assert(vstd::string::is_ascii("charset="));
        reveal_strlit("utf-8");
        assert(vstd::string::is_ascii("utf-8"));
        reveal_strlit("utf8");
        assert(vstd::string::is_ascii("utf8"));
        let cs = s.skip(k + 1);
        assert(cs =~= "; charset=utf8".spec_bytes().skip(1));
        let cs2 = cs.skip(1);
        assert(starts_with(cs2, "charset=".spec_bytes())) by {
            assert(cs2.take(8) =~= "charset=".spec_bytes());
        }
        assert(!ends_with(cs2, "utf-8".spec_bytes())) by {
            assert(cs2.skip(cs2.len() - 5)[1] != "utf-8".spec_bytes()[1]);
        }
        assert(s =~= s.take(k) + "; ".spec_bytes() + "charset=".spec_bytes() + cs2.skip(8)) by {
            assert(s =~= s.take(k) + s.skip(k));
        }
    } else {
        assert(s.take(k) =~= s);
    }
}

/// Each name of the content types table reads back as the content type at
/// its position: looking up a name the library writes gives the same type.
pub proof fn lemma_content_type_names_read_back(n: int)
    requires
        0 <= n < content_type_names().len(),
    ensures
        content_type_readable(content_type_names()[n]),
        content_type_lookup_spec(content_type_names()[n]) == content_type_at(n as usize),
{
    let names = content_type_names();
    let s = content_type_name(n);
    assert(names[n] == s);
    lemma_name_keys(n);
    assert forall|j: int| 0 <= j < n implies names[j] != s by {
        lemma_names_distinct(n, j);
        assert(names[j] == content_type_name(j));
    }
    lemma_first_index_at(names, s, n);
}

} // verus!
