//! The `Connection` header: a set of [`ConnectionValue`]s.

use vstd::prelude::*;
use vstd::string::StringSliceAdditionalSpecFns;

use crate::common::header::{field_bytes_ok, value_bytes_ok, Header, HeaderField, HeaderFieldValue};
use crate::text::is_ascii_bytes;
use crate::text::{
    eq_ignore_ascii_case, eq_ignore_case, find_byte, lemma_find_byte_is, trim_spaces,
    trim_spaces_range,
};

verus! {

broadcast use vstd::string::is_ascii_spec_bytes;

/// Values of the `Connection` header.
#[derive(Clone, Copy, Debug, Eq, PartialEq, Structural, Hash)]
pub enum ConnectionValue {
    /// Connection: close
    Close,
    /// Connection: keep-alive
    KeepAlive,
    /// Connection: upgrade
    Upgrade,
}

/// The bit of a value in a [`ConnectionHeader`]; the lower bit has the higher priority.
pub open spec fn value_bit(v: ConnectionValue) -> u8 {
    match v {
        ConnectionValue::Close => 1,
        ConnectionValue::Upgrade => 2,
        ConnectionValue::KeepAlive => 4,
    }
}

/// The lower-case name of a value.
pub open spec fn value_name(v: ConnectionValue) -> Seq<u8> {
    match v {
        ConnectionValue::Close => "close".spec_bytes(),
        ConnectionValue::KeepAlive => "keep-alive".spec_bytes(),
        ConnectionValue::Upgrade => "upgrade".spec_bytes(),
    }
}

/// What reading one value gives: its name in any ASCII case.
pub open spec fn connection_value_spec(b: Seq<u8>) -> Result<ConnectionValue, ()> {
    if eq_ignore_case(b, "close".spec_bytes()) {
        Ok(ConnectionValue::Close)
    } else if eq_ignore_case(b, "keep-alive".spec_bytes()) {
        Ok(ConnectionValue::KeepAlive)
    } else if eq_ignore_case(b, "upgrade".spec_bytes()) {
        Ok(ConnectionValue::Upgrade)
    } else {
        Err(())
    }
}

impl ConnectionValue {
    /// The bit of this value.
    pub fn bit(&self) -> (r: u8)
        ensures
            r == value_bit(*self),
    {
        match self {
            ConnectionValue::Close => 1,
            ConnectionValue::Upgrade => 2,
            ConnectionValue::KeepAlive => 4,
        }
    }

    /// The lower-case name of this value.
    pub fn name(&self) -> (r: &'static str)
        ensures
            r.spec_bytes() == value_name(*self),
    {
        match self {
            ConnectionValue::Close => "close",
            ConnectionValue::KeepAlive => "keep-alive",
            ConnectionValue::Upgrade => "upgrade",
        }
    }

    /// Reads a value from its name in any ASCII case.
    pub fn parse(bytes: &[u8]) -> (r: Result<ConnectionValue, ()>)
        ensures
            r == connection_value_spec(bytes@),
    {
        if bytes.len() > 30 {
            proof {
                reveal_strlit("close");
                reveal_strlit("keep-alive");
                reveal_strlit("upgrade");
                assert(vstd::string::is_ascii("close"));
                assert(vstd::string::is_ascii("keep-alive"));
                assert(vstd::string::is_ascii("upgrade"));
            }
            return Err(());
        }
        if eq_ignore_ascii_case(bytes, "close".as_bytes()) {
            Ok(ConnectionValue::Close)
        } else if eq_ignore_ascii_case(bytes, "keep-alive".as_bytes()) {
            Ok(ConnectionValue::KeepAlive)
        } else if eq_ignore_ascii_case(bytes, "upgrade".as_bytes()) {
            Ok(ConnectionValue::Upgrade)
        } else {
            Err(())
        }
    }

    /// The header `Connection: <value>`.
    pub fn to_header(&self) -> (r: Header)
        ensures
            r.field@ == "Connection".spec_bytes(),
            r.value@ == value_name(*self),
    {
        let name = "Connection";
        proof {
            reveal_strlit("Connection");
            reveal_strlit("close");
            reveal_strlit("keep-alive");
            reveal_strlit("upgrade");
            assert(vstd::string::is_ascii("Connection"));
            assert(vstd::string::is_ascii("close"));
            assert(vstd::string::is_ascii("keep-alive"));
            assert(vstd::string::is_ascii("upgrade"));
        }
        let value = self.name();
        proof {
            assert(field_bytes_ok(name.spec_bytes()));
            assert(value_bytes_ok(value.spec_bytes()));
            assert(is_ascii_bytes(value.spec_bytes()));
        }
        Header {
            field: HeaderField::from_valid_bytes(name.as_bytes()),
            value: HeaderFieldValue::from_valid_bytes(value.as_bytes()),
        }
    }
}

} // verus!

verus! {

/// What reading a `Connection` header value gives.
#[derive(Clone, Copy, Debug, PartialEq, Eq, Structural)]
pub enum ConnectionParse {
    /// The bits of the values read
    Values(u8),
    /// A value could not be read
    Invalid,
    /// An empty item after which no value can be cut out
    Unreadable,
}

/// The set `bits` holds the value `v`.
pub open spec fn bits_have(bits: u8, v: ConnectionValue) -> bool {
    (bits / value_bit(v)) % 2 == 1
}

/// The set `bits` with `v` added.
pub open spec fn bits_add(bits: u8, v: ConnectionValue) -> u8 {
    if bits_have(bits, v) {
        bits
    } else {
        (bits + value_bit(v)) as u8
    }
}

/// Tells whether the set `bits` holds the value with bit `b`.
fn has_bit(bits: u8, b: u8) -> (r: bool)
    requires
        b == 1 || b == 2 || b == 4,
    ensures
        r == ((bits / b) % 2 == 1),
{
    (bits / b) % 2 == 1
}

/// Adds `v` to the set `bits`.
fn add_value(bits: u8, v: ConnectionValue) -> (r: u8)
    requires
        bits < 8,
    ensures
        r == bits_add(bits, v),
        r < 8,
{
    let b = v.bit();
    if has_bit(bits, b) {
        bits
    } else {
        bits + b
    }
}

/// What reading a comma separated list of connection values gives.
///
/// Each item before a comma, trimmed of spaces, must be a value; an empty
/// such item is invalid when it is the first item and at most one byte long,
/// and unreadable otherwise. The item after the last comma is read only when
/// it is at least two bytes long once trimmed. `first` tells whether `s`
/// starts the list, `acc` holds the set read so far.
pub open spec fn connection_list_spec(s: Seq<u8>, first: bool, acc: u8) -> ConnectionParse
    decreases s.len(),
{
    let c = find_byte(s, 44u8);
    proof {
        crate::text::lemma_find_byte_props(s, 44u8);
    }
    if c >= s.len() {
        let v = trim_spaces(s);
        if v.len() >= 2 {
            match connection_value_spec(v) {
                Ok(x) => ConnectionParse::Values(bits_add(acc, x)),
                Err(_) => ConnectionParse::Invalid,
            }
        } else {
            ConnectionParse::Values(acc)
        }
    } else {
        let v = trim_spaces(s.take(c));
        if v.len() == 0 {
            if first && c <= 1 {
                ConnectionParse::Invalid
            } else {
                ConnectionParse::Unreadable
            }
        } else {
            match connection_value_spec(v) {
                Err(_) => ConnectionParse::Invalid,
                Ok(x) => connection_list_spec(s.skip(c + 1), false, bits_add(acc, x)),
            }
        }
    }
}

/// Reading a whole `Connection` header value.
pub open spec fn connection_header_spec(s: Seq<u8>) -> ConnectionParse {
    connection_list_spec(s, true, 0)
}

/// Reads a `Connection` header value, also telling apart the lists in which
/// an empty item leaves nothing to read.
pub fn read_connection_list(bytes: &[u8]) -> (r: ConnectionParse)
    ensures
        r == connection_header_spec(bytes@),
        r matches ConnectionParse::Values(b) ==> b < 8,
{
    let mut pos: usize = 0;
    let mut acc: u8 = 0;
    let mut first = true;
    assert(bytes@.skip(0) =~= bytes@);
    loop
        invariant
            pos <= bytes@.len(),
            acc < 8,
            connection_header_spec(bytes@) == connection_list_spec(
                bytes@.skip(pos as int),
                first,
                acc,
            ),
        decreases bytes@.len() - pos,
    {
        let ghost s = bytes@.skip(pos as int);
        let mut c = pos;
        while c < bytes.len() && bytes[c] != 44u8
            invariant
                pos <= c <= bytes@.len(),
                forall|j: int| pos <= j < c ==> #[trigger] bytes@[j] != 44u8,
            decreases bytes@.len() - c,
        {
            c += 1;
        }
        proof {
            assert forall|j: int| 0 <= j < c - pos implies #[trigger] s[j] != 44u8 by {
                assert(bytes@[j + pos] != 44u8);
            }
            lemma_find_byte_is(s, 44u8, c - pos);
        }
        if c >= bytes.len() {
            let (a, b) = trim_spaces_range(bytes, pos, bytes.len());
            assert(s =~= bytes@.subrange(pos as int, bytes@.len() as int));
            if b - a >= 2 {
                match ConnectionValue::parse(&bytes[a..b]) {
                    Ok(x) => {
                        return ConnectionParse::Values(add_value(acc, x));
                    },
                    Err(_) => {
                        return ConnectionParse::Invalid;
                    },
                }
            } else {
                return ConnectionParse::Values(acc);
            }
        }
        let (a, b) = trim_spaces_range(bytes, pos, c);
        assert(s.take(c - pos) =~= bytes@.subrange(pos as int, c as int));
        if a == b {
            if first && c - pos <= 1 {
                return ConnectionParse::Invalid;
            } else {
                return ConnectionParse::Unreadable;
            }
        }
        match ConnectionValue::parse(&bytes[a..b]) {
            Err(_) => {
                return ConnectionParse::Invalid;
            },
            Ok(x) => {
                let bits = add_value(acc, x);
                assert(s.skip(c - pos + 1) =~= bytes@.skip(c + 1));
                acc = bits;
                first = false;
                pos = c + 1;
            },
        }
    }
}

/// The `Connection` header: the set of [`ConnectionValue`]s a message holds.
#[derive(Debug)]
pub struct ConnectionHeader {
    inner: u8,
}

/// The values of a set in priority order: close, upgrade, keep-alive.
pub open spec fn bits_values(bits: u8) -> Seq<ConnectionValue> {
    (if bits_have(bits, ConnectionValue::Close) { seq![ConnectionValue::Close] } else { seq![] })
        + (if bits_have(bits, ConnectionValue::Upgrade) { seq![ConnectionValue::Upgrade] } else { seq![] })
        + (if bits_have(bits, ConnectionValue::KeepAlive) { seq![ConnectionValue::KeepAlive] } else { seq![] })
}

impl ConnectionHeader {
    #[verifier::type_invariant]
    closed spec fn inv(&self) -> bool {
        self.inner < 8
    }

    /// The bits of the values held.
    pub closed spec fn bits_spec(&self) -> u8 {
        self.inner
    }

    /// The bits of the values held (close 1, upgrade 2, keep-alive 4).
    pub fn bits(&self) -> (r: u8)
        ensures
            r == self.bits_spec(),
            r < 8,
    {
        proof {
            use_type_invariant(self);
        }
        self.inner
    }

    /// The header holding the values whose bits are set in `bits`.
    pub fn from_bits(bits: u8) -> (r: ConnectionHeader)
        requires
            bits < 8,
        ensures
            r.bits_spec() == bits,
    {
        ConnectionHeader { inner: bits }
    }

    /// The header holding only `value`.
    pub fn from_value(value: ConnectionValue) -> (r: ConnectionHeader)
        ensures
            r.bits_spec() == value_bit(value),
    {
        ConnectionHeader { inner: value.bit() }
    }

    /// Reads a `Connection` header value such as `keep-alive, Upgrade`.
    pub fn parse(bytes: &[u8]) -> (r: Result<ConnectionHeader, ()>)
        requires
            connection_header_spec(bytes@) != ConnectionParse::Unreadable,
        ensures
            match connection_header_spec(bytes@) {
                ConnectionParse::Values(b) => r matches Ok(h) && h.bits_spec() == b,
                _ => r is Err,
            },
    {
        match read_connection_list(bytes) {
            ConnectionParse::Values(b) => Ok(ConnectionHeader { inner: b }),
            _ => Err(()),
        }
    }

    /// The header holds `value`.
    pub fn contains(&self, value: ConnectionValue) -> (r: bool)
        ensures
            r == bits_have(self.bits_spec(), value),
    {
        has_bit(self.inner, value.bit())
    }

    /// Iterator over the values held, in priority order.
    pub fn iter(&self) -> (r: ConnectionHeaderIterator)
        ensures
            r.remaining() == bits_values(self.bits_spec()),
    {
        proof {
            use_type_invariant(self);
        }
        let bits = self.inner;
        let idx: u8 = if has_bit(bits, 1) {
            1
        } else if has_bit(bits, 2) {
            2
        } else if has_bit(bits, 4) {
            4
        } else {
            0
        };
        let r = ConnectionHeaderIterator { bits, idx };
        assert(r.remaining() =~= bits_values(bits));
        r
    }

    /// The values held, in priority order.
    pub fn values(&self) -> (r: Vec<ConnectionValue>)
        ensures
            r@ == bits_values(self.bits_spec()),
    {
        let mut out: Vec<ConnectionValue> = Vec::new();
        if self.contains(ConnectionValue::Close) {
            out.push(ConnectionValue::Close);
        }
        if self.contains(ConnectionValue::Upgrade) {
            out.push(ConnectionValue::Upgrade);
        }
        if self.contains(ConnectionValue::KeepAlive) {
            out.push(ConnectionValue::KeepAlive);
        }
        assert(out@ =~= bits_values(self.bits_spec()));
        out
    }
}

/// Iterator over the values of a [`ConnectionHeader`], in priority order.
#[derive(Debug)]
pub struct ConnectionHeaderIterator {
    bits: u8,
    idx: u8,
}

/// The values of `bits` whose bit is at least `idx`, in priority order.
pub open spec fn bits_values_from(bits: u8, idx: u8) -> Seq<ConnectionValue> {
    if idx == 0 {
        seq![]
    } else {
        (if idx <= 1 && bits_have(bits, ConnectionValue::Close) { seq![ConnectionValue::Close] } else { seq![] })
            + (if idx <= 2 && bits_have(bits, ConnectionValue::Upgrade) { seq![ConnectionValue::Upgrade] } else { seq![] })
            + (if idx <= 4 && bits_have(bits, ConnectionValue::KeepAlive) { seq![ConnectionValue::KeepAlive] } else { seq![] })
    }
}

impl ConnectionHeaderIterator {
    #[verifier::type_invariant]
    closed spec fn inv(&self) -> bool {
        &&& self.idx == 0 || self.idx == 1 || self.idx == 2 || self.idx == 4
        &&& self.idx == 1 ==> bits_have(self.bits, ConnectionValue::Close)
        &&& self.idx == 2 ==> bits_have(self.bits, ConnectionValue::Upgrade)
        &&& self.idx == 4 ==> bits_have(self.bits, ConnectionValue::KeepAlive)
    }

    /// The values still to come.
    pub closed spec fn remaining(&self) -> Seq<ConnectionValue> {
        bits_values_from(self.bits, self.idx)
    }

    /// The next value, in priority order.
    pub fn next(&mut self) -> (r: Option<ConnectionValue>)
        ensures
            old(self).remaining().len() == 0 ==> r is None && final(self).remaining().len() == 0,
            old(self).remaining().len() > 0 ==> r == Some(old(self).remaining()[0])
                && final(self).remaining() == old(self).remaining().drop_first(),
    {
        proof {
            use_type_invariant(&*self);
        }
        let bits = self.bits;
        let cur = self.idx;
        if cur == 0 {
            return None;
        }
        let v;
        let new_idx: u8;
        if cur == 1 {
            v = ConnectionValue::Close;
            new_idx = if has_bit(bits, 2) {
                2
            } else if has_bit(bits, 4) {
                4
            } else {
                0
            };
        } else if cur == 2 {
            v = ConnectionValue::Upgrade;
            new_idx = if has_bit(bits, 4) {
                4
            } else {
                0
            };
        } else {
            v = ConnectionValue::KeepAlive;
            new_idx = 0;
        }
        self.idx = new_idx;
        assert(old(self).remaining() =~= seq![v] + self.remaining());
        Some(v)
    }
}

/// The names of `vals` joined by `, `.
pub open spec fn joined_names(vals: Seq<ConnectionValue>) -> Seq<u8>
    decreases vals.len(),
{
    if vals.len() == 0 {
        seq![]
    } else if vals.len() == 1 {
        value_name(vals[0])
    } else {
        value_name(vals[0]) + seq![44u8, 32u8] + joined_names(vals.drop_first())
    }
}

/// Two sets are equal, or share a value.
pub open spec fn connection_eq_spec(a: u8, b: u8) -> bool {
    a == b || (bits_have(a, ConnectionValue::Close) && bits_have(b, ConnectionValue::Close))
        || (bits_have(a, ConnectionValue::Upgrade) && bits_have(b, ConnectionValue::Upgrade))
        || (bits_have(a, ConnectionValue::KeepAlive) && bits_have(b, ConnectionValue::KeepAlive))
}

/// Names are allowed in header values.
proof fn lemma_value_names_valid(v: ConnectionValue)
    ensures
        crate::common::header::value_bytes_ok(value_name(v)),
        is_ascii_bytes(value_name(v)),
        value_name(v).len() > 0,
{
    reveal_strlit("close");
    reveal_strlit("keep-alive");
    reveal_strlit("upgrade");
    assert(vstd::string::is_ascii("close"));
    assert(vstd::string::is_ascii("keep-alive"));
    assert(vstd::string::is_ascii("upgrade"));
}

impl ConnectionHeader {
    /// The values joined by `, ` (e.g. `close, upgrade`).
    pub fn value_bytes(&self) -> (r: Vec<u8>)
        ensures
            r@ == joined_names(bits_values(self.bits_spec())),
    {
        let vals = self.values();
        let mut out: Vec<u8> = Vec::new();
        let mut i = vals.len();
        let ghost vs = vals@;
        while i > 0
            invariant
                0 <= i <= vs.len(),
                vs == vals@,
                out@ == joined_names(vs.skip(i as int)),
            decreases i,
        {
            i -= 1;
            let name = vals[i].name();
            let ghost rest = vs.skip(i + 1);
            assert(vs.skip(i as int).drop_first() =~= rest);
            assert(vs.skip(i as int)[0] == vs[i as int]);
            let mut next = crate::text::copy_range(name.as_bytes(), 0, name.as_bytes().len());
            if out.len() > 0 {
                next.push(44u8);
                next.push(32u8);
                crate::text::append_bytes(&mut next, out.as_slice());
            } else {
                assert(rest.len() == 0) by {
                    if rest.len() > 0 {
                        lemma_joined_nonempty(rest);
                    }
                }
            }
            out = next;
            assert(out@ =~= joined_names(vs.skip(i as int)));
        }
        assert(vs.skip(0) =~= vs);
        out
    }

    /// The header `Connection: <values>`.
    pub fn to_header(&self) -> (r: Header)
        ensures
            r.field@ == "Connection".spec_bytes(),
            r.value@ == joined_names(bits_values(self.bits_spec())),
    {
        let name = "Connection";
        proof {
            reveal_strlit("Connection");
            assert(vstd::string::is_ascii("Connection"));
        }
        let value = self.value_bytes();
        proof {
            lemma_joined_valid(bits_values(self.bits_spec()));
        }
        Header {
            field: HeaderField::from_valid_bytes(name.as_bytes()),
            value: HeaderFieldValue::from_valid_bytes(value.as_slice()),
        }
    }
}

/// A non-empty list of values has a non-empty joined form.
proof fn lemma_joined_nonempty(vals: Seq<ConnectionValue>)
    requires
        vals.len() > 0,
    ensures
        joined_names(vals).len() > 0,
{
    lemma_value_names_valid(vals[0]);
}

/// Joined names are allowed in header values.
proof fn lemma_joined_valid(vals: Seq<ConnectionValue>)
    ensures
        crate::common::header::value_bytes_ok(joined_names(vals)),
        is_ascii_bytes(joined_names(vals)),
    decreases vals.len(),
{
    if vals.len() > 0 {
        lemma_value_names_valid(vals[0]);
        lemma_joined_valid(vals.drop_first());
        let a = value_name(vals[0]);
        let j = joined_names(vals);
        if vals.len() > 1 {
            let b = joined_names(vals.drop_first());
            assert forall|i: int| 0 <= i < j.len() implies #[trigger] crate::common::header::is_value_byte(j[i]) && j[i] < 128 by {
                if i < a.len() {
                    assert(j[i] == a[i]);
                } else if i >= a.len() + 2 {
                    assert(j[i] == b[i - a.len() - 2]);
                }
            }
        }
    }
}

impl PartialEq for ConnectionHeader {
    fn eq(&self, other: &Self) -> (r: bool) {
        self.inner == other.inner || (has_bit(self.inner, 1) && has_bit(other.inner, 1)) || (
        has_bit(self.inner, 2) && has_bit(other.inner, 2)) || (has_bit(self.inner, 4)
            && has_bit(other.inner, 4))
    }
}

impl vstd::std_specs::cmp::PartialEqSpecImpl for ConnectionHeader {
    open spec fn obeys_eq_spec() -> bool {
        true
    }

    open spec fn eq_spec(&self, other: &Self) -> bool {
        connection_eq_spec(self.bits_spec(), other.bits_spec())
    }
}

impl PartialEq<ConnectionValue> for ConnectionHeader {
    fn eq(&self, other: &ConnectionValue) -> (r: bool) {
        self.contains(*other)
    }
}

impl vstd::std_specs::cmp::PartialEqSpecImpl<ConnectionValue> for ConnectionHeader {
    open spec fn obeys_eq_spec() -> bool {
        true
    }

    open spec fn eq_spec(&self, other: &ConnectionValue) -> bool {
        bits_have(self.bits_spec(), *other)
    }
}

impl From<ConnectionValue> for ConnectionHeader {
    fn from(value: ConnectionValue) -> (r: ConnectionHeader) {
        ConnectionHeader::from_value(value)
    }
}

impl vstd::std_specs::convert::FromSpecImpl<ConnectionValue> for ConnectionHeader {
    open spec fn obeys_from_spec() -> bool {
        true
    }

    closed spec fn from_spec(value: ConnectionValue) -> ConnectionHeader {
        ConnectionHeader { inner: value_bit(value) }
    }
}

} // verus!

verus! {

/// The set `acc` with the values of `vals` added one after the other.
pub open spec fn bits_fold(acc: u8, vals: Seq<ConnectionValue>) -> u8
    decreases vals.len(),
{
    if vals.len() == 0 {
        acc
    } else {
        bits_fold(bits_add(acc, vals[0]), vals.drop_first())
    }
}

/// A value's name holds no comma and no space, is at least five bytes long,
/// and reads back as the value.
proof fn lemma_value_name_reads_back(v: ConnectionValue)
    ensures
        value_name(v).len() >= 5,
        forall|i: int| 0 <= i < value_name(v).len() ==> #[trigger] value_name(v)[i] != 44u8 && value_name(v)[i] != 32u8,
        connection_value_spec(value_name(v)) == Ok::<ConnectionValue, ()>(v),
{
    reveal_strlit("close");
    reveal_strlit("keep-alive");
    reveal_strlit("upgrade");
    assert(vstd::string::is_ascii("close"));
    assert(vstd::string::is_ascii("keep-alive"));
    assert(vstd::string::is_ascii("upgrade"));
}

/// A name, after at most one space, trims to itself.
proof fn lemma_trim_name(p: Seq<u8>, v: ConnectionValue)
    requires
        p == Seq::<u8>::empty() || p == seq![32u8],
    ensures
        trim_spaces(p + value_name(v)) == value_name(v),
{
    lemma_value_name_reads_back(v);
    let n = value_name(v);
    let s = p + n;
    assert forall|j: int| 0 <= j < p.len() implies #[trigger] s[j] == 32u8 by {
        assert(s[j] == p[j]);
    }
    assert(s[p.len() as int] == n[0]);
    crate::text::lemma_span_is(s, |b: u8| b == 32u8, p.len() as int);
    let t = s.skip(crate::text::leading_spaces(s));
    assert(t =~= n);
    crate::text::lemma_trailing_spaces_is(n, 0);
    assert(n.take(n.len() as int) =~= n);
}

/// A list of names joined by `, ` (after at most one space) reads as the set of its values.
proof fn lemma_joined_reads_back(p: Seq<u8>, vals: Seq<ConnectionValue>, first: bool, acc: u8)
    requires
        p == Seq::<u8>::empty() || p == seq![32u8],
        vals.len() > 0,
    ensures
        connection_list_spec(p + joined_names(vals), first, acc) == ConnectionParse::Values(bits_fold(acc, vals)),
    decreases vals.len(),
{
    let v0 = vals[0];
    let n = value_name(v0);
    lemma_value_name_reads_back(v0);
    lemma_trim_name(p, v0);
    if vals.len() == 1 {
        let s = p + n;
        assert(joined_names(vals) == n);
        assert forall|j: int| 0 <= j < s.len() implies #[trigger] s[j] != 44u8 by {
            if j >= p.len() {
                assert(s[j] == n[j - p.len()]);
            }
        }
        lemma_find_byte_is(s, 44u8, s.len() as int);
        assert(vals.drop_first() =~= Seq::<ConnectionValue>::empty());
        assert(bits_fold(bits_add(acc, v0), vals.drop_first()) == bits_add(acc, v0));
        assert(bits_fold(acc, vals) == bits_add(acc, v0));
        assert(trim_spaces(s).len() >= 2);
    } else {
        let rest = vals.drop_first();
        let s = p + joined_names(vals);
        assert(joined_names(vals) == n + seq![44u8, 32u8] + joined_names(rest));
        let c: int = p.len() as int + n.len() as int;
        assert forall|j: int| 0 <= j < c implies #[trigger] s[j] != 44u8 by {
            if j >= p.len() {
                assert(s[j] == n[j - p.len()]);
            }
        }
        assert(s[c] == 44u8);
        lemma_find_byte_is(s, 44u8, c);
        assert(s.take(c) =~= p + n);
        assert(s.skip(c + 1) =~= seq![32u8] + joined_names(rest));
        lemma_joined_reads_back(seq![32u8], rest, false, bits_add(acc, v0));
    }
}

/// Adding the values of a set, in priority order, to the empty set gives the set.
proof fn lemma_fold_values(bits: u8)
    requires
        bits < 8,
    ensures
        bits_fold(0, bits_values(bits)) == bits,
        bits == 0 <==> bits_values(bits).len() == 0,
{
    let c = ConnectionValue::Close;
    let u = ConnectionValue::Upgrade;
    let k = ConnectionValue::KeepAlive;
    let e = Seq::<ConnectionValue>::empty();
    assert(bits_fold(7, e) == 7);
    assert(bits_fold(5, e) == 5);
    assert(bits_fold(6, e) == 6);
    assert(bits_fold(3, e) == 3);
    assert(bits_fold(4, e) == 4);
    assert(bits_fold(2, e) == 2);
    assert(bits_fold(1, e) == 1);
    assert(seq![k].drop_first() =~= e);
    assert(seq![u].drop_first() =~= e);
    assert(seq![c].drop_first() =~= e);
    assert(seq![u, k].drop_first() =~= seq![k]);
    assert(seq![c, k].drop_first() =~= seq![k]);
    assert(seq![c, u].drop_first() =~= seq![u]);
    assert(seq![c, u, k].drop_first() =~= seq![u, k]);
    assert(bits_fold(3, seq![k]) == 7);
    assert(bits_fold(1, seq![k]) == 5);
    assert(bits_fold(2, seq![k]) == 6);
    assert(bits_fold(1, seq![u]) == 3);
    assert(bits_fold(0, seq![k]) == 4);
    assert(bits_fold(0, seq![u]) == 2);
    assert(bits_fold(0, seq![c]) == 1);
    assert(bits_fold(1, seq![u, k]) == 7);
    if bits == 0 {
        assert(bits_values(bits) =~= e);
    } else if bits == 1 {
        assert(bits_values(bits) =~= seq![c]);
    } else if bits == 2 {
        assert(bits_values(bits) =~= seq![u]);
    } else if bits == 3 {
        assert(bits_values(bits) =~= seq![c, u]);
        assert(bits_fold(0, seq![c, u]) == 3);
    } else if bits == 4 {
        assert(bits_values(bits) =~= seq![k]);
    } else if bits == 5 {
        assert(bits_values(bits) =~= seq![c, k]);
        assert(bits_fold(0, seq![c, k]) == 5);
    } else if bits == 6 {
        assert(bits_values(bits) =~= seq![u, k]);
        assert(bits_fold(0, seq![u, k]) == 6);
    } else {
        assert(bits_values(bits) =~= seq![c, u, k]);
        assert(bits_fold(0, seq![c, u, k]) == 7);
    }
}

/// The value of the `Connection` header of a set reads back as the same set.
pub proof fn lemma_connection_header_roundtrip(bits: u8)
    requires
        bits < 8,
    ensures
        connection_header_spec(joined_names(bits_values(bits))) == ConnectionParse::Values(bits),
{
    let vals = bits_values(bits);
    lemma_fold_values(bits);
    if vals.len() == 0 {
        assert(joined_names(vals) =~= Seq::<u8>::empty());
        lemma_find_byte_is(Seq::<u8>::empty(), 44u8, 0);
        let t = Seq::<u8>::empty().skip(crate::text::leading_spaces(Seq::<u8>::empty()));
        assert(trim_spaces(Seq::<u8>::empty()).len() == 0);
    } else {
        assert(Seq::<u8>::empty() + joined_names(vals) =~= joined_names(vals));
        lemma_joined_reads_back(Seq::<u8>::empty(), vals, true, 0);
    }
}

} // verus!
