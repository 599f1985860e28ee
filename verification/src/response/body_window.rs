use vstd::prelude::*;

use crate::response::Response;

verus! {

/// The part of a body that is sent: the bytes from position `skip` on, at
/// most `length` of them (all that follow when the length is unknown).
pub open spec fn window(body: Seq<u8>, skip: int, length: Option<usize>) -> Seq<u8> {
    let start = if skip < body.len() { skip } else { body.len() as int };
    let end = match length {
        Some(l) => if start + l < body.len() { start + l } else { body.len() as int },
        None => body.len() as int,
    };
    body.subrange(start, end)
}

/// Where the part to send starts in a chunk of `chunk_len` bytes that is
/// read while `skip` bytes are still to be passed over.
pub open spec fn part_start(chunk_len: int, skip: int) -> int {
    if skip < chunk_len { skip } else { chunk_len }
}

/// Where the part to send ends in such a chunk, with `length` bytes still
/// to be sent.
pub open spec fn part_end(chunk_len: int, skip: int, length: Option<usize>) -> int {
    let start = part_start(chunk_len, skip);
    match length {
        Some(l) => if start + l < chunk_len { start + l } else { chunk_len },
        None => chunk_len,
    }
}

/// What is still to be sent after such a chunk.
pub open spec fn length_after(chunk_len: int, skip: int, length: Option<usize>) -> Option<usize> {
    match length {
        Some(l) => Some((l - (part_end(chunk_len, skip, length) - part_start(chunk_len, skip))) as usize),
        None => None,
    }
}

/// The bytes sent when a body read as `chunks` goes through a window that
/// starts with `skip` and `length`.
pub open spec fn sent_parts(chunks: Seq<Seq<u8>>, skip: int, length: Option<usize>) -> Seq<u8>
    decreases chunks.len(),
{
    if chunks.len() == 0 {
        Seq::empty()
    } else {
        let n = chunks[0].len() as int;
        chunks[0].subrange(part_start(n, skip), part_end(n, skip, length)) + sent_parts(
            chunks.drop_first(),
            skip - part_start(n, skip),
            length_after(n, skip, length),
        )
    }
}

/// Sending the part that the window picks of a first chunk, then the window
/// of what follows, sends the window of the whole body.
pub proof fn lemma_window_split(chunk: Seq<u8>, rest: Seq<u8>, skip: int, length: Option<usize>)
    requires
        skip >= 0,
    ensures
        window(chunk + rest, skip, length) == chunk.subrange(
            part_start(chunk.len() as int, skip),
            part_end(chunk.len() as int, skip, length),
        ) + window(
            rest,
            skip - part_start(chunk.len() as int, skip),
            length_after(chunk.len() as int, skip, length),
        ),
{
    let n = chunk.len() as int;
    let whole = chunk + rest;
    let s = part_start(n, skip);
    let e = part_end(n, skip, length);
    let left = chunk.subrange(s, e);
    let right = window(rest, skip - s, length_after(n, skip, length));
    let w = window(whole, skip, length);
    assert(w =~= left + right);
}

/// A body copied chunk by chunk through a window sends exactly the window of
/// the whole body, however it was cut into chunks.
pub proof fn lemma_chunked_copy_sends_window(chunks: Seq<Seq<u8>>, skip: int, length: Option<usize>)
    requires
        skip >= 0,
    ensures
        sent_parts(chunks, skip, length) == window(chunks.flatten(), skip, length),
    decreases chunks.len(),
{
    if chunks.len() == 0 {
        assert(window(chunks.flatten(), skip, length) =~= Seq::<u8>::empty());
    } else {
        let n = chunks[0].len() as int;
        lemma_chunked_copy_sends_window(
            chunks.drop_first(),
            skip - part_start(n, skip),
            length_after(n, skip, length),
        );
        lemma_window_split(chunks[0], chunks.drop_first().flatten(), skip, length);
    }
}

/// The state of a copy of a body through a window: how many bytes are still
/// to be passed over and how many are still to be sent.
pub struct BodyWindow {
    skip: usize,
    remaining: Option<usize>,
}

impl BodyWindow {
    /// The bytes still to be passed over.
    pub closed spec fn skip_spec(self) -> int {
        self.skip as int
    }

    /// The bytes still to be sent, when that is known.
    pub closed spec fn remaining_spec(self) -> Option<usize> {
        self.remaining
    }

    /// A window that passes over `skip` bytes and then sends `length` of
    /// them (all that follow when `length` is `None`).
    pub fn new(skip: usize, length: Option<usize>) -> (r: BodyWindow)
        ensures
            r.skip_spec() == skip,
            r.remaining_spec() == length,
    {
        BodyWindow { skip, remaining: length }
    }

    /// The window of a response's body: the part that a range answer keeps,
    /// and the whole body reader otherwise.
    pub fn for_response<R>(response: &Response<R>) -> (r: BodyWindow)
        ensures
            (r.skip_spec(), r.remaining_spec()) == response.window_spec(),
    {
        match response.body_skip() {
            Some(s) => BodyWindow { skip: s, remaining: response.data_length() },
            None => BodyWindow { skip: 0, remaining: None },
        }
    }

    /// The bytes still to be passed over.
    pub fn pending_skip(&self) -> (r: usize)
        ensures
            r == self.skip_spec(),
    {
        self.skip
    }

    /// Whether nothing more is to be sent.
    pub fn is_done(&self) -> (r: bool)
        ensures
            r <==> self.remaining_spec() == Some(0usize),
    {
        match self.remaining {
            Some(l) => l == 0,
            None => false,
        }
    }

    /// Takes the length of the next chunk read from the body and gives the
    /// bounds of the part of it to send.
    pub fn feed(&mut self, chunk_len: usize) -> (r: (usize, usize))
        ensures
            r.0 == part_start(chunk_len as int, old(self).skip_spec()),
            r.1 == part_end(chunk_len as int, old(self).skip_spec(), old(self).remaining_spec()),
            r.0 <= r.1 <= chunk_len,
            final(self).skip_spec() == old(self).skip_spec() - r.0,
            final(self).remaining_spec() == length_after(
                chunk_len as int,
                old(self).skip_spec(),
                old(self).remaining_spec(),
            ),
    {
        let start = if self.skip < chunk_len { self.skip } else { chunk_len };
        let end = match self.remaining {
            Some(l) => if l < chunk_len - start { start + l } else { chunk_len },
            None => chunk_len,
        };
        self.skip = self.skip - start;
        self.remaining = match self.remaining {
            Some(l) => Some(l - (end - start)),
            None => None,
        };
        (start, end)
    }
}

} // verus!
