//! The headers of a request, looked up by field name.

use vstd::prelude::*;

use crate::common::header::Header;
use crate::response::util::header_pairs;
use crate::text::eq_ignore_case;

verus! {

/// The headers of `ps` whose field is `f` (ignoring ASCII case), in order.
pub open spec fn select_field(ps: Seq<(Seq<u8>, Seq<u8>)>, f: Seq<u8>) -> Seq<(Seq<u8>, Seq<u8>)>
    decreases ps.len(),
{
    if ps.len() == 0 {
        seq![]
    } else {
        select_field(ps.drop_last(), f) + if eq_ignore_case(ps.last().0, f) {
            seq![ps.last()]
        } else {
            seq![]
        }
    }
}

/// The pairs of a list of header references.
pub open spec fn ref_pairs(hs: Seq<&Header>) -> Seq<(Seq<u8>, Seq<u8>)> {
    hs.map_values(|h: &Header| (h.field@, h.value@))
}

/// The headers of a request, looked up by field name (ignoring ASCII case).
#[derive(Debug)]
pub struct HeaderData {
    headers: Vec<Header>,
}

impl HeaderData {
    /// The headers, as field and value bytes.
    pub closed spec fn pairs(&self) -> Seq<(Seq<u8>, Seq<u8>)> {
        header_pairs(self.headers@)
    }

    /// Holds `headers`.
    pub fn new(headers: Vec<Header>) -> (r: HeaderData)
        ensures
            r.pairs() == header_pairs(headers@),
    {
        HeaderData { headers }
    }

    /// Up to `limit` (all when `None`) of the headers with field `field`, in
    /// order; `None` when there is none.
    pub fn header(&self, field: &[u8], limit: Option<usize>) -> (r: Option<Vec<&Header>>)
        ensures
            ({
                let all = select_field(self.pairs(), field@);
                let n = match limit {
                    Some(l) => if l < all.len() { l as int } else { all.len() as int },
                    None => all.len() as int,
                };
                if all.len() == 0 {
                    r is None
                } else {
                    r matches Some(v) && ref_pairs(v@) == all.take(n)
                }
            }),
    {
        let ghost ps = self.pairs();
        let mut found: usize = 0;
        let mut out: Vec<&Header> = Vec::new();
        let mut i: usize = 0;
        assert(ps.take(0) =~= Seq::<(Seq<u8>, Seq<u8>)>::empty());
        while i < self.headers.len()
            invariant
                0 <= i <= self.headers@.len(),
                found <= i,
                ps == header_pairs(self.headers@),
                found == select_field(ps.take(i as int), field@).len(),
                ref_pairs(out@) == select_field(ps.take(i as int), field@).take(
                    match limit {
                        Some(l) => if l < found { l as int } else { found as int },
                        None => found as int,
                    },
                ),
            decreases self.headers@.len() - i,
        {
            let h = &self.headers[i];
            let same = h.field.equiv_bytes(field);
            let ghost prev_all = select_field(ps.take(i as int), field@);
            let ghost prev_out = out@;
            let ghost t = ps.take(i + 1);
            proof {
                assert(t.drop_last() =~= ps.take(i as int));
                assert(t.last() == (h.field@, h.value@));
                assert(select_field(t, field@) == prev_all + if same { seq![(h.field@, h.value@)] } else { seq![] });
            }
            if same {
                let take = match limit {
                    Some(l) => found < l,
                    None => true,
                };
                if take {
                    out.push(h);
                    assert(ref_pairs(out@) =~= ref_pairs(prev_out).push((h.field@, h.value@)));
                }
                found += 1;
                proof {
                    let all = select_field(t, field@);
                    assert(all.len() == found);
                    let n = match limit {
                        Some(l) => if l < found { l as int } else { found as int },
                        None => found as int,
                    };
                    if take {
                        assert(all.take(n) =~= prev_all.take(found - 1).push((h.field@, h.value@)));
                    } else {
                        assert(all.take(n) =~= prev_all.take(n));
                    }
                    assert(ref_pairs(out@) =~= all.take(n));
                }
            }
            i += 1;
        }
        assert(ps.take(self.headers@.len() as int) =~= ps);
        if found == 0 {
            None
        } else {
            Some(out)
        }
    }

    /// The first header with field `field`.
    pub fn header_first(&self, field: &[u8]) -> (r: Option<&Header>)
        ensures
            ({
                let all = select_field(self.pairs(), field@);
                if all.len() == 0 {
                    r is None
                } else {
                    r matches Some(h) && (h.field@, h.value@) == all[0]
                }
            }),
    {
        match self.header(field, Some(1)) {
            Some(v) => {
                assert(ref_pairs(v@).len() == v@.len());
                assert(ref_pairs(v@)[0] == (v@[0].field@, v@[0].value@));
                Some(v[0])
            },
            None => None,
        }
    }

    /// The last header with field `field`.
    pub fn header_last(&self, field: &[u8]) -> (r: Option<&Header>)
        ensures
            ({
                let all = select_field(self.pairs(), field@);
                if all.len() == 0 {
                    r is None
                } else {
                    r matches Some(h) && (h.field@, h.value@) == all.last()
                }
            }),
    {
        match self.header(field, None) {
            Some(v) => {
                assert(ref_pairs(v@).len() == v@.len());
                let n = v.len();
                assert(ref_pairs(v@)[n - 1] == (v@[n - 1].field@, v@[n - 1].value@));
                Some(v[n - 1])
            },
            None => None,
        }
    }

    /// All headers.
    pub fn headers(&self) -> (r: &[Header])
        ensures
            header_pairs(r@) == self.pairs(),
    {
        self.headers.as_slice()
    }
}

} // verus!

verus! {

/// Selecting by one of two fields equal ignoring case gives the same headers.
pub proof fn lemma_select_same_field(ps: Seq<(Seq<u8>, Seq<u8>)>, f: Seq<u8>, g: Seq<u8>)
    requires
        eq_ignore_case(f, g),
    ensures
        select_field(ps, f) == select_field(ps, g),
    decreases ps.len(),
{
    if ps.len() > 0 {
        lemma_select_same_field(ps.drop_last(), f, g);
        crate::text::lemma_eq_ignore_case_lower(f, g);
        crate::text::lemma_eq_ignore_case_lower(ps.last().0, f);
        crate::text::lemma_eq_ignore_case_lower(ps.last().0, g);
    }
}

/// A pair with the field makes the selection non-empty.
pub proof fn lemma_select_has(ps: Seq<(Seq<u8>, Seq<u8>)>, f: Seq<u8>, i: int)
    requires
        0 <= i < ps.len(),
        eq_ignore_case(ps[i].0, f),
    ensures
        select_field(ps, f).len() >= 1,
    decreases ps.len(),
{
    if i < ps.len() - 1 {
        lemma_select_has(ps.drop_last(), f, i);
    }
}

/// Without a pair with the field, the selection is empty.
pub proof fn lemma_select_none(ps: Seq<(Seq<u8>, Seq<u8>)>, f: Seq<u8>)
    requires
        forall|j: int| 0 <= j < ps.len() ==> !eq_ignore_case(#[trigger] ps[j].0, f),
    ensures
        select_field(ps, f).len() == 0,
    decreases ps.len(),
{
    if ps.len() > 0 {
        let t = ps.drop_last();
        assert forall|j: int| 0 <= j < t.len() implies !eq_ignore_case(#[trigger] t[j].0, f) by {
            assert(t[j] == ps[j]);
        }
        lemma_select_none(t, f);
    }
}

/// Replacing the only pair with the field by another one with it leaves that one selected.
pub proof fn lemma_select_update_single(ps: Seq<(Seq<u8>, Seq<u8>)>, f: Seq<u8>, i: int, q: (Seq<u8>, Seq<u8>))
    requires
        0 <= i < ps.len(),
        eq_ignore_case(ps[i].0, f),
        eq_ignore_case(q.0, f),
        select_field(ps, f).len() == 1,
    ensures
        select_field(ps.update(i, q), f) == seq![q],
    decreases ps.len(),
{
    let u = ps.update(i, q);
    if i == ps.len() - 1 {
        assert(u.drop_last() =~= ps.drop_last());
        assert(u.last() == q);
    } else {
        assert(u.drop_last() =~= ps.drop_last().update(i, q));
        assert(u.last() == ps.last());
        lemma_select_has(ps.drop_last(), f, i);
        lemma_select_update_single(ps.drop_last(), f, i, q);
    }
}

} // verus!
