//! A reader that gives exactly a given number of bytes of another reader.

use vstd::prelude::*;

verus! {

#[verifier::external_type_specification]
#[verifier::external_body]
pub struct ExIoError(std::io::Error);

/// Reads some bytes of `reader` into `buf`.
///
/// Calls `std::io::Read::read`. Claims what the trait's documentation asks
/// of every implementation: a count of bytes read that is at most the
/// length of `buf`. Which bytes come, and whether the read fails, is left open.
#[verifier::external_body]
fn read_some<R: std::io::Read>(reader: &mut R, buf: &mut [u8]) -> (r: Result<usize, std::io::Error>)
    ensures
        r matches Ok(n) ==> n <= old(buf)@.len(),
{
    reader.read(buf)
}

/// A reader that reads exactly `size` bytes of an inner reader: at the limit
/// it reports the end of the data.
pub struct EqualReader<R> {
    reader: R,
    size: usize,
}

impl<R> EqualReader<R> {
    /// The bytes still to be read.
    pub closed spec fn remaining(&self) -> usize {
        self.size
    }

    /// The inner reader.
    pub closed spec fn reader_spec(&self) -> R {
        self.reader
    }

    /// The inner reader.
    pub fn inner(&self) -> (r: &R)
        ensures
            *r == self.reader_spec(),
    {
        &self.reader
    }

    /// The inner reader, to be changed in place.
    pub fn inner_mut(&mut self) -> (r: &mut R)
        ensures
            *r == old(self).reader_spec(),
            final(self).reader_spec() == *final(r),
            final(self).remaining() == old(self).remaining(),
    {
        &mut self.reader
    }

    /// A reader for `size` bytes of `reader`.
    pub fn new(reader: R, size: usize) -> (r: EqualReader<R>)
        ensures
            r.remaining() == size,
    {
        EqualReader { reader, size }
    }

    /// The bytes still to be read.
    pub fn size(&self) -> (r: usize)
        ensures
            r == self.remaining(),
    {
        self.size
    }

    /// Takes what the inner read of a window of `window` bytes gave: the
    /// count read is passed on and no longer remains; an error is passed on
    /// and leaves the size as it was.
    pub fn take_read(&mut self, window: usize, got: Result<usize, std::io::Error>) -> (r: Result<usize, std::io::Error>)
        requires
            window <= old(self).remaining(),
            got matches Ok(k) ==> k <= window,
        ensures
            r == got,
            got matches Ok(k) ==> final(self).remaining() == old(self).remaining() - k,
            got is Err ==> final(self).remaining() == old(self).remaining(),
            final(self).reader_spec() == old(self).reader_spec(),
    {
        match got {
            Ok(k) => {
                self.size = self.size - k;
                Ok(k)
            },
            Err(e) => Err(e),
        }
    }

    /// Reads at most as many bytes as remain; `Ok(0)` once none remain.
    ///
    /// The inner reader is handed the first [`read_window`] bytes of `buf`,
    /// and what it gives is taken by [`EqualReader::take_read`].
    pub fn read(&mut self, buf: &mut [u8]) -> (r: Result<usize, std::io::Error>)
        where R: std::io::Read
        ensures
            old(self).remaining() == 0 ==> r == Ok::<usize, std::io::Error>(0),
            r matches Ok(n) ==> (n <= read_window_spec(old(buf)@.len() as usize, old(self).remaining())
                && final(self).remaining() == old(self).remaining() - n),
            r is Err ==> final(self).remaining() == old(self).remaining(),
    {
        if self.size == 0 {
            return Ok(0);
        }
        let n = read_window(buf.len(), self.size);
        let (head, _) = buf.split_at_mut(n);
        let got = read_some(&mut self.reader, head);
        self.take_read(n, got)
    }

    /// Takes what one inner read of a window of `window` bytes gave while
    /// the rest is dropped: the end of the data (`Ok(0)`) is reported as
    /// `Ok`, an error is reported as it is, and otherwise the bytes read no
    /// longer remain and nothing is reported yet.
    pub fn take_discarded(&mut self, window: usize, got: Result<usize, std::io::Error>) -> (r: Option<Result<(), std::io::Error>>)
        requires
            window <= old(self).remaining(),
            got matches Ok(k) ==> k <= window,
        ensures
            match got {
                Ok(k) => if k == 0 {
                    r == Some(Ok::<(), std::io::Error>(())) && final(self).remaining() == old(self).remaining()
                } else {
                    r is None && final(self).remaining() == old(self).remaining() - k
                },
                Err(e) => r == Some(Err::<(), std::io::Error>(e)) && final(self).remaining() == old(self).remaining(),
            },
            final(self).reader_spec() == old(self).reader_spec(),
    {
        match got {
            Ok(k) => {
                if k == 0 {
                    Some(Ok(()))
                } else {
                    self.size = self.size - k;
                    None
                }
            },
            Err(e) => Some(Err(e)),
        }
    }

    /// Reads and drops the bytes that remain, in windows of [`discard_window`]
    /// bytes, each read taken by [`EqualReader::take_discarded`].
    ///
    /// Gives what is to be reported: `Ok` when the inner reader ended before
    /// the remaining bytes came, the error when a read failed, and nothing
    /// when all remaining bytes were read.
    pub fn discard_rest(&mut self) -> (r: Option<Result<(), std::io::Error>>)
        where R: std::io::Read
        ensures
            r is None <==> final(self).remaining() == 0,
            final(self).remaining() <= old(self).remaining(),
    {
        while self.size > 0
            invariant
                self.size <= old(self).size,
            decreases self.size,
        {
            let n = discard_window(self.size);
            let mut buf: Vec<u8> = vec![0u8; n];
            let got = read_some(&mut self.reader, buf.as_mut_slice());
            match self.take_discarded(n, got) {
                Some(report) => {
                    return Some(report);
                },
                None => {},
            }
        }
        None
    }
}

/// The number of bytes a read takes: at most the buffer's length and the bytes that remain.
pub open spec fn read_window_spec(buf_len: usize, remaining: usize) -> usize {
    if buf_len < remaining {
        buf_len
    } else {
        remaining
    }
}

/// The number of bytes a read takes (see [`read_window_spec`]).
pub fn read_window(buf_len: usize, remaining: usize) -> (n: usize)
    ensures
        n == read_window_spec(buf_len, remaining),
{
    if buf_len < remaining {
        buf_len
    } else {
        remaining
    }
}

/// The number of bytes one read takes while the rest is dropped: blocks of at most 256.
pub open spec fn discard_window_spec(remaining: usize) -> usize {
    if remaining < 256 {
        remaining
    } else {
        256
    }
}

/// The number of bytes one read takes while the rest is dropped (see [`discard_window_spec`]).
pub fn discard_window(remaining: usize) -> (n: usize)
    ensures
        n == discard_window_spec(remaining),
{
    if remaining < 256 {
        remaining
    } else {
        256
    }
}

} // verus!
