//! The items of a header value such as `Accept-*` or `TE`: each item's text
//! and the parameters that may give its weight (`q=...`).
//!
//! Reading a weight as a number is left to the caller: the parameters are
//! handed out as text, in order.

use vstd::prelude::*;

use crate::text::{copy_range, find_byte, lemma_find_byte_is, lemma_find_byte_props, lemma_span_is, span};

verus! {

/// ASCII whitespace: space, tab, line feed, vertical tab, form feed, carriage return.
pub open spec fn is_ascii_ws(b: u8) -> bool {
    b == 32u8 || b == 9u8 || b == 10u8 || b == 11u8 || b == 12u8 || b == 13u8
}

/// Number of whitespace bytes at the end of `s`.
pub open spec fn trailing_ws(s: Seq<u8>) -> int
    decreases s.len(),
{
    if s.len() == 0 {
        0
    } else if !is_ascii_ws(s.last()) {
        0
    } else {
        1 + trailing_ws(s.drop_last())
    }
}

/// `s` without its leading whitespace.
pub open spec fn trim_start_ws(s: Seq<u8>) -> Seq<u8> {
    s.skip(span(s, |b: u8| is_ascii_ws(b)))
}

/// `s` without leading and trailing whitespace.
pub open spec fn trim_ws(s: Seq<u8>) -> Seq<u8> {
    let t = trim_start_ws(s);
    t.take(t.len() - trailing_ws(t))
}

/// The pieces of `s` between the bytes `c`, in order: one more piece than
/// there are bytes `c`.
pub open spec fn split_bytes(s: Seq<u8>, c: u8) -> Seq<Seq<u8>>
    decreases s.len(),
{
    let k = find_byte(s, c);
    proof {
        lemma_find_byte_props(s, c);
    }
    if k >= s.len() {
        seq![s]
    } else {
        seq![s.take(k)] + split_bytes(s.skip(k + 1), c)
    }
}

/// A parameter after a `;`, as the weight reading sees it.
pub enum ParamText {
    /// Less than two bytes once leading whitespace is removed
    Short,
    /// Some other parameter
    Other,
    /// `q=` and the weight's text, trimmed
    Weight(Seq<u8>),
}

/// What the parameter `p` is: after its leading whitespace, `q=` starts a
/// weight; fewer than two bytes cannot be looked at.
pub open spec fn param_text(p: Seq<u8>) -> ParamText {
    let t = trim_start_ws(p);
    if t.len() < 2 {
        ParamText::Short
    } else if t[0] == 113u8 && t[1] == 61u8 {
        ParamText::Weight(trim_ws(t.skip(2)))
    } else {
        ParamText::Other
    }
}

/// One item: the trimmed text before its first `;`, and its parameters.
pub open spec fn item_spec(elem: Seq<u8>) -> (Seq<u8>, Seq<ParamText>) {
    let ps = split_bytes(elem, 59u8);
    (trim_ws(ps[0]), ps.skip(1).map_values(|p: Seq<u8>| param_text(p)))
}

/// The items of a header value: the pieces between commas.
pub open spec fn header_items_spec(value: Seq<u8>) -> Seq<(Seq<u8>, Seq<ParamText>)> {
    split_bytes(value, 44u8).map_values(|e: Seq<u8>| item_spec(e))
}

/// A parameter of an item.
#[derive(Debug)]
pub enum WeightParam {
    /// Less than two bytes once leading whitespace is removed
    Short,
    /// Some other parameter
    Other,
    /// The text after `q=`, trimmed
    Weight(Vec<u8>),
}

impl View for WeightParam {
    type V = ParamText;

    open spec fn view(&self) -> ParamText {
        match self {
            WeightParam::Short => ParamText::Short,
            WeightParam::Other => ParamText::Other,
            WeightParam::Weight(v) => ParamText::Weight(v@),
        }
    }
}

/// An item of a header value.
#[derive(Debug)]
pub struct HeaderItem {
    /// The text before the first `;`, trimmed
    pub value: Vec<u8>,
    /// The parameters after it, in order
    pub params: Vec<WeightParam>,
}

impl View for HeaderItem {
    type V = (Seq<u8>, Seq<ParamText>);

    open spec fn view(&self) -> (Seq<u8>, Seq<ParamText>) {
        (self.value@, self.params@.map_values(|p: WeightParam| p@))
    }
}

/// There is always at least one piece.
pub proof fn lemma_split_nonempty(s: Seq<u8>, c: u8)
    ensures
        split_bytes(s, c).len() >= 1,
{
    lemma_find_byte_props(s, c);
}

/// `trailing_ws` counts the whitespace at the end, up to a byte that is not.
proof fn lemma_trailing_ws_is(s: Seq<u8>, i: int)
    requires
        0 <= i <= s.len(),
        forall|j: int| s.len() - i <= j < s.len() ==> #[trigger] is_ascii_ws(s[j]),
        i == s.len() || !is_ascii_ws(s[s.len() - i - 1]),
    ensures
        trailing_ws(s) == i,
    decreases i,
{
    if i > 0 {
        assert(is_ascii_ws(s[s.len() - 1]));
        let t = s.drop_last();
        assert forall|j: int| t.len() - (i - 1) <= j < t.len() implies #[trigger] is_ascii_ws(t[j]) by {
            assert(is_ascii_ws(s[j]));
        }
        lemma_trailing_ws_is(t, i - 1);
    }
}

/// The first index at or after `from` that is `to` or holds `c`.
fn find_byte_in(s: &[u8], from: usize, to: usize, c: u8) -> (r: usize)
    requires
        from <= to <= s@.len(),
    ensures
        from <= r <= to,
        r - from == find_byte(s@.subrange(from as int, to as int), c),
{
    let mut i = from;
    while i < to && s[i] != c
        invariant
            from <= i <= to <= s@.len(),
            forall|j: int| from <= j < i ==> #[trigger] s@[j] != c,
        decreases to - i,
    {
        i += 1;
    }
    proof {
        let t = s@.subrange(from as int, to as int);
        assert forall|j: int| 0 <= j < i - from implies #[trigger] t[j] != c by {
            assert(t[j] == s@[from + j]);
        }
        lemma_find_byte_is(t, c, i - from);
    }
    i
}

/// Bounds of `s[from..to]` without its leading whitespace.
fn trim_start_ws_in(s: &[u8], from: usize, to: usize) -> (r: usize)
    requires
        from <= to <= s@.len(),
    ensures
        from <= r <= to,
        s@.subrange(r as int, to as int) == trim_start_ws(s@.subrange(from as int, to as int)),
{
    let ghost seg = s@.subrange(from as int, to as int);
    let mut a = from;
    while a < to && (s[a] == 32u8 || s[a] == 9u8 || s[a] == 10u8 || s[a] == 11u8 || s[a] == 12u8 || s[a] == 13u8)
        invariant
            from <= a <= to <= s@.len(),
            forall|j: int| from <= j < a ==> #[trigger] is_ascii_ws(s@[j]),
        decreases to - a,
    {
        a += 1;
    }
    proof {
        assert forall|j: int| 0 <= j < a - from implies #[trigger] is_ascii_ws(seg[j]) by {
            assert(seg[j] == s@[j + from]);
        }
        if a < to {
            assert(seg[a - from] == s@[a as int]);
        }
        lemma_span_is(seg, |b: u8| is_ascii_ws(b), a - from);
    }
    assert(s@.subrange(a as int, to as int) =~= seg.skip(a - from));
    a
}

/// Bounds of `s[from..to]` without leading and trailing whitespace.
fn trim_ws_in(s: &[u8], from: usize, to: usize) -> (r: (usize, usize))
    requires
        from <= to <= s@.len(),
    ensures
        from <= r.0 <= r.1 <= to,
        s@.subrange(r.0 as int, r.1 as int) == trim_ws(s@.subrange(from as int, to as int)),
{
    let a = trim_start_ws_in(s, from, to);
    let ghost t = s@.subrange(a as int, to as int);
    let mut b = to;
    while b > a && (s[b - 1] == 32u8 || s[b - 1] == 9u8 || s[b - 1] == 10u8 || s[b - 1] == 11u8 || s[b - 1] == 12u8
        || s[b - 1] == 13u8)
        invariant
            from <= a <= b <= to <= s@.len(),
            forall|j: int| b <= j < to ==> #[trigger] is_ascii_ws(s@[j]),
        decreases b - a,
    {
        b -= 1;
    }
    proof {
        assert forall|j: int| t.len() - (to - b) <= j < t.len() implies #[trigger] is_ascii_ws(t[j]) by {
            assert(t[j] == s@[j + a]);
        }
        if b > a {
            assert(t[t.len() - (to - b) - 1] == s@[b - 1]);
        }
        lemma_trailing_ws_is(t, to - b);
    }
    assert(s@.subrange(a as int, b as int) =~= t.take(t.len() - trailing_ws(t)));
    (a, b)
}

/// The bounds of the pieces of `s[from..to]` between the bytes `c`.
fn split_ranges(s: &[u8], from: usize, to: usize, c: u8) -> (r: Vec<(usize, usize)>)
    requires
        from <= to <= s@.len(),
    ensures
        r@.len() == split_bytes(s@.subrange(from as int, to as int), c).len(),
        forall|i: int|
            0 <= i < r@.len() ==> from <= (#[trigger] r@[i]).0 <= r@[i].1 <= to && s@.subrange(r@[i].0 as int, r@[i].1 as int)
                == split_bytes(s@.subrange(from as int, to as int), c)[i],
{
    let ghost all = split_bytes(s@.subrange(from as int, to as int), c);
    let mut out: Vec<(usize, usize)> = Vec::new();
    let mut pos = from;
    let ghost mut done: Seq<Seq<u8>> = seq![];
    assert(all == done + split_bytes(s@.subrange(pos as int, to as int), c));
    loop
        invariant
            from <= pos <= to <= s@.len(),
            all == split_bytes(s@.subrange(from as int, to as int), c),
            all == done + split_bytes(s@.subrange(pos as int, to as int), c),
            out@.len() == done.len(),
            forall|i: int|
                0 <= i < out@.len() ==> from <= (#[trigger] out@[i]).0 <= out@[i].1 <= to && s@.subrange(
                    out@[i].0 as int,
                    out@[i].1 as int,
                ) == done[i],
        decreases to - pos,
    {
        let k = find_byte_in(s, pos, to, c);
        let ghost seg = s@.subrange(pos as int, to as int);
        proof {
            lemma_find_byte_props(seg, c);
        }
        let ghost prev = out@;
        out.push((pos, k));
        if k == to {
            proof {
                assert(split_bytes(seg, c) == seq![seg]);
                assert(all =~= done.push(seg));
                assert forall|i: int| 0 <= i < out@.len() implies from <= (#[trigger] out@[i]).0 <= out@[i].1 <= to
                    && s@.subrange(out@[i].0 as int, out@[i].1 as int) == all[i] by {
                    if i < prev.len() {
                        assert(out@[i] == prev[i]);
                    }
                }
            }
            return out;
        }
        proof {
            let kk = k - pos;
            assert(seg.take(kk) =~= s@.subrange(pos as int, k as int));
            assert(seg.skip(kk + 1) =~= s@.subrange(k + 1, to as int));
            assert(split_bytes(seg, c) == seq![seg.take(kk)] + split_bytes(seg.skip(kk + 1), c));
            let nd = done.push(s@.subrange(pos as int, k as int));
            assert(all =~= nd + split_bytes(s@.subrange(k + 1, to as int), c));
            assert forall|i: int| 0 <= i < out@.len() implies from <= (#[trigger] out@[i]).0 <= out@[i].1 <= to
                && s@.subrange(out@[i].0 as int, out@[i].1 as int) == nd[i] by {
                if i < prev.len() {
                    assert(out@[i] == prev[i]);
                }
            }
            done = nd;
        }
        pos = k + 1;
    }
}

/// Reads the parameter `s[from..to]` (see [`param_text`]).
fn parse_param(s: &[u8], from: usize, to: usize) -> (r: WeightParam)
    requires
        from <= to <= s@.len(),
    ensures
        r@ == param_text(s@.subrange(from as int, to as int)),
{
    let a = trim_start_ws_in(s, from, to);
    let ghost t = s@.subrange(a as int, to as int);
    if to - a < 2 {
        WeightParam::Short
    } else if s[a] == 113u8 && s[a + 1] == 61u8 {
        let (x, y) = trim_ws_in(s, a + 2, to);
        assert(t.skip(2) =~= s@.subrange(a + 2, to as int));
        WeightParam::Weight(copy_range(s, x, y))
    } else {
        WeightParam::Other
    }
}

/// Reads the item `s[from..to]` (see [`item_spec`]).
fn parse_item(s: &[u8], from: usize, to: usize) -> (r: HeaderItem)
    requires
        from <= to <= s@.len(),
    ensures
        r@ == item_spec(s@.subrange(from as int, to as int)),
{
    let ghost ps = split_bytes(s@.subrange(from as int, to as int), 59u8);
    let parts = split_ranges(s, from, to, 59u8);
    proof {
        lemma_split_nonempty(s@.subrange(from as int, to as int), 59u8);
    }
    let (a, b) = trim_ws_in(s, parts[0].0, parts[0].1);
    let value = copy_range(s, a, b);
    let mut params: Vec<WeightParam> = Vec::new();
    let mut i: usize = 1;
    while i < parts.len()
        invariant
            1 <= i <= parts@.len(),
            parts@.len() == ps.len(),
            ps == split_bytes(s@.subrange(from as int, to as int), 59u8),
            forall|j: int|
                0 <= j < parts@.len() ==> from <= (#[trigger] parts@[j]).0 <= parts@[j].1 <= to && s@.subrange(
                    parts@[j].0 as int,
                    parts@[j].1 as int,
                ) == ps[j],
            to <= s@.len(),
            params@.len() == i - 1,
            params@.map_values(|p: WeightParam| p@) =~= ps.skip(1).take(i - 1).map_values(|p: Seq<u8>| param_text(p)),
        decreases parts@.len() - i,
    {
        let (x, y) = parts[i];
        let p = parse_param(s, x, y);
        let ghost prev = params@;
        params.push(p);
        proof {
            let lhs = params@.map_values(|q: WeightParam| q@);
            let rhs = ps.skip(1).take(i as int).map_values(|q: Seq<u8>| param_text(q));
            let old_rhs = ps.skip(1).take(i - 1).map_values(|q: Seq<u8>| param_text(q));
            assert(params@ =~= prev.push(p));
            assert forall|j: int| 0 <= j < i implies #[trigger] lhs[j] == rhs[j] by {
                if j < i - 1 {
                    assert(lhs[j] == prev.map_values(|q: WeightParam| q@)[j]);
                    assert(rhs[j] == old_rhs[j]);
                } else {
                    assert(lhs[j] == p@);
                    assert(rhs[j] == param_text(ps[i as int]));
                }
            }
            assert(lhs =~= rhs);
        }
        i += 1;
    }
    assert(ps.skip(1).take(i - 1) =~= ps.skip(1));
    HeaderItem { value, params }
}

/// Splits a header value into its items (see [`header_items_spec`]).
///
/// For example `text/plain, image/png; q=1.5` gives the items `text/plain`
/// without parameters and `image/png` with the weight text `1.5`.
pub fn header_value_items(value: &[u8]) -> (r: Vec<HeaderItem>)
    ensures
        r@.map_values(|i: HeaderItem| i@) == header_items_spec(value@),
{
    let ghost pieces = split_bytes(value@.subrange(0, value@.len() as int), 44u8);
    assert(value@.subrange(0, value@.len() as int) =~= value@);
    let parts = split_ranges(value, 0, value.len(), 44u8);
    let mut items: Vec<HeaderItem> = Vec::new();
    let mut i: usize = 0;
    while i < parts.len()
        invariant
            0 <= i <= parts@.len(),
            parts@.len() == pieces.len(),
            pieces == split_bytes(value@, 44u8),
            forall|j: int|
                0 <= j < parts@.len() ==> (#[trigger] parts@[j]).0 <= parts@[j].1 <= value@.len() && value@.subrange(
                    parts@[j].0 as int,
                    parts@[j].1 as int,
                ) == pieces[j],
            items@.len() == i,
            items@.map_values(|it: HeaderItem| it@) =~= pieces.take(i as int).map_values(|e: Seq<u8>| item_spec(e)),
        decreases parts@.len() - i,
    {
        let (x, y) = parts[i];
        let item = parse_item(value, x, y);
        let ghost prev = items@;
        items.push(item);
        proof {
            let lhs = items@.map_values(|it: HeaderItem| it@);
            let rhs = pieces.take(i + 1).map_values(|e: Seq<u8>| item_spec(e));
            let old_rhs = pieces.take(i as int).map_values(|e: Seq<u8>| item_spec(e));
            assert(items@ =~= prev.push(item));
            assert forall|j: int| 0 <= j < i + 1 implies #[trigger] lhs[j] == rhs[j] by {
                if j < i {
                    assert(lhs[j] == prev.map_values(|it: HeaderItem| it@)[j]);
                    assert(rhs[j] == old_rhs[j]);
                } else {
                    assert(lhs[j] == item@);
                    assert(rhs[j] == item_spec(pieces[i as int]));
                }
            }
            assert(lhs =~= rhs);
        }
        i += 1;
    }
    assert(pieces.take(i as int) =~= pieces);
    items
}

} // verus!
