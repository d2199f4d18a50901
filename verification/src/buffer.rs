//! The byte-buffered payload: a growable accumulator that straddles the
//! upstream byte stream and the synchronous parser.
//!
//! Bytes are appended by [`ByteBuffer::feed`] (the caller drains its
//! upstream source and hands every ready chunk in) and consumed from the
//! front by length-, delimiter- and line-bounded reads.  An end-of-file
//! flag records that the upstream source is exhausted; once set it stays
//! set.

use vstd::prelude::*;

use crate::bytes::{find_bytes, first_match, lemma_first_match, match_at};
use crate::error::MultipartError;

verus! {

/// A growable byte accumulator with an end-of-file flag.
pub struct ByteBuffer {
    buf: Vec<u8>,
    eof: bool,
}

impl ByteBuffer {
    /// The bytes currently held, oldest first.
    pub closed spec fn bytes(&self) -> Seq<u8> {
        self.buf@
    }

    /// Whether the upstream source is known to be exhausted.
    pub closed spec fn is_eof(&self) -> bool {
        self.eof
    }

    /// Create an empty buffer whose upstream is not yet exhausted.
    pub fn new() -> (r: ByteBuffer)
        ensures
            r.bytes() == Seq::<u8>::empty(),
            !r.is_eof(),
    {
        ByteBuffer { buf: Vec::new(), eof: false }
    }

    /// Whether the buffer currently holds no bytes.
    pub fn is_empty(&self) -> (r: bool)
        ensures
            r == (self.bytes().len() == 0),
    {
        self.buf.len() == 0
    }

    /// The number of bytes currently held.
    pub fn len(&self) -> (r: usize)
        ensures
            r == self.bytes().len(),
    {
        self.buf.len()
    }

    /// Whether the end-of-file flag is set.
    pub fn eof(&self) -> (r: bool)
        ensures
            r == self.is_eof(),
    {
        self.eof
    }

    /// Append a chunk received from the upstream source.
    ///
    /// Feeding `a` and then `b` leaves the buffer exactly as feeding the
    /// concatenation of `a` and `b` would; the parser never observes how
    /// the input was split into chunks.
    pub fn feed(&mut self, data: &[u8])
        requires
            !old(self).is_eof(),
            old(self).bytes().len() + data@.len() <= usize::MAX,
        ensures
            final(self).bytes() == old(self).bytes() + data@,
            !final(self).is_eof(),
    {
        let mut v = vstd::slice::slice_to_vec(data);
        self.buf.append(&mut v);
    }

    /// Record that the upstream source is exhausted.
    pub fn set_eof(&mut self)
        ensures
            final(self).bytes() == old(self).bytes(),
            final(self).is_eof(),
    {
        self.eof = true;
    }

    /// The byte at position `i`.
    pub fn get(&self, i: usize) -> (r: u8)
        requires
            i < self.bytes().len(),
        ensures
            r == self.bytes()[i as int],
    {
        self.buf[i]
    }

    /// Whether the bytes starting at `start` equal `other`.
    pub fn range_eq(&self, start: usize, other: &[u8]) -> (r: bool)
        requires
            start + other@.len() <= self.bytes().len(),
        ensures
            r == (self.bytes().subrange(start as int, start + other@.len()) == other@),
    {
        let n = self.buf.len();
        let end = start + other.len();
        let sub = vstd::slice::slice_subrange(self.buf.as_slice(), start, end);
        crate::bytes::eq_bytes(sub, other)
    }

    /// The position of the first occurrence of the byte `x` at or after
    /// `from`.
    pub fn find_byte_from(&self, x: u8, from: usize) -> (r: Option<usize>)
        requires
            from <= self.bytes().len(),
        ensures
            match r {
                Some(i) => from <= i < self.bytes().len() && self.bytes()[i as int] == x
                    && forall|j: int| from <= j < i ==> self.bytes()[j] != x,
                None => forall|j: int| from <= j < self.bytes().len() ==> self.bytes()[j] != x,
            },
    {
        let n = self.buf.len();
        let mut i: usize = from;
        while i < n
            invariant
                n == self.bytes().len(),
                from <= i <= n,
                forall|j: int| from <= j < i ==> self.bytes()[j] != x,
            decreases n - i,
        {
            if self.buf[i] == x {
                return Some(i);
            }
            i += 1;
        }
        None
    }

    /// Remove and return the first `n` bytes.
    pub(crate) fn take_prefix(&mut self, n: usize) -> (r: Vec<u8>)
        requires
            n <= old(self).bytes().len(),
        ensures
            r@ == old(self).bytes().take(n as int),
            final(self).bytes() == old(self).bytes().skip(n as int),
            final(self).is_eof() == old(self).is_eof(),
    {
        let mut rest = self.buf.split_off(n);
        core::mem::swap(&mut self.buf, &mut rest);
        assert(rest@ =~= old(self).bytes().take(n as int));
        assert(self.buf@ =~= old(self).bytes().skip(n as int));
        rest
    }

    /// Remove and return exactly `size` leading bytes, or nothing when
    /// fewer are buffered.
    pub fn read_exact(&mut self, size: usize) -> (r: Option<Vec<u8>>)
        ensures
            final(self).is_eof() == old(self).is_eof(),
            if size <= old(self).bytes().len() {
                match r {
                    Some(c) => c@ == old(self).bytes().take(size as int) && final(self).bytes()
                        == old(self).bytes().skip(size as int),
                    None => false,
                }
            } else {
                r is None && *final(self) == *old(self)
            },
    {
        if size <= self.buf.len() {
            Some(self.take_prefix(size))
        } else {
            None
        }
    }

    /// Return at most `size` leading bytes.  An empty buffer yields
    /// `Ok(None)` while more input may come, and fails with
    /// `Incomplete` once the upstream is exhausted.
    pub fn read_max(&mut self, size: u64) -> (r: Result<Option<Vec<u8>>, MultipartError>)
        ensures
            final(self).is_eof() == old(self).is_eof(),
            old(self).bytes().len() > 0 ==> {
                let k = vstd::math::min(old(self).bytes().len() as int, size as int);
                match r {
                    Ok(Some(c)) => c@ == old(self).bytes().take(k) && final(self).bytes()
                        == old(self).bytes().skip(k),
                    _ => false,
                }
            },
            old(self).bytes().len() == 0 && old(self).is_eof() ==> r == Err::<
                Option<Vec<u8>>,
                _,
            >(MultipartError::Incomplete) && *final(self) == *old(self),
            old(self).bytes().len() == 0 && !old(self).is_eof() ==> r == Ok::<
                _,
                MultipartError,
            >(None::<Vec<u8>>) && *final(self) == *old(self),
    {
        if self.buf.len() > 0 {
            let k: usize = if (self.buf.len() as u64) < size {
                self.buf.len()
            } else {
                size as usize
            };
            Ok(Some(self.take_prefix(k)))
        } else if self.eof {
            Err(MultipartError::Incomplete)
        } else {
            Ok(None)
        }
    }

    /// Return the shortest prefix that ends with `delim`, consuming it.
    /// When `delim` does not occur, yields `Ok(None)` while more input
    /// may come and fails with `Incomplete` once the upstream is
    /// exhausted.
    pub fn read_until(&mut self, delim: &[u8]) -> (r: Result<Option<Vec<u8>>, MultipartError>)
        requires
            delim@.len() > 0,
        ensures
            final(self).is_eof() == old(self).is_eof(),
            match first_match(old(self).bytes(), delim@) {
                Some(i) => match r {
                    Ok(Some(c)) => c@ == old(self).bytes().take(i + delim@.len())
                        && final(self).bytes() == old(self).bytes().skip(i + delim@.len()),
                    _ => false,
                },
                None => *final(self) == *old(self) && if old(self).is_eof() {
                    r == Err::<Option<Vec<u8>>, _>(MultipartError::Incomplete)
                } else {
                    r == Ok::<_, MultipartError>(None::<Vec<u8>>)
                },
            },
    {
        proof {
            lemma_first_match(self.bytes(), delim@);
        }
        let buflen = self.buf.len();
        match find_bytes(self.buf.as_slice(), delim) {
            Some(i) => {
                proof {
                    assert(first_match(self.bytes(), delim@) == Some(i as int));
                    assert(match_at(self.bytes(), delim@, i as int));
                }
                let end = i + delim.len();
                Ok(Some(self.take_prefix(end)))
            },
            None => {
                if self.eof {
                    Err(MultipartError::Incomplete)
                } else {
                    Ok(None)
                }
            },
        }
    }

    /// Read one line: the shortest prefix ending with a line feed.
    pub fn readline(&mut self) -> (r: Result<Option<Vec<u8>>, MultipartError>)
        ensures
            final(self).is_eof() == old(self).is_eof(),
            match first_match(old(self).bytes(), newline()) {
                Some(i) => match r {
                    Ok(Some(c)) => c@ == old(self).bytes().take(i + 1) && final(self).bytes()
                        == old(self).bytes().skip(i + 1),
                    _ => false,
                },
                None => *final(self) == *old(self) && if old(self).is_eof() {
                    r == Err::<Option<Vec<u8>>, _>(MultipartError::Incomplete)
                } else {
                    r == Ok::<_, MultipartError>(None::<Vec<u8>>)
                },
            },
    {
        let nl: [u8; 1] = [10u8];
        assert(nl@ =~= newline());
        self.read_until(nl.as_slice())
    }

    /// Read one line, or, once the upstream is exhausted without a line
    /// feed in sight, return whatever bytes remain.
    pub fn readline_or_eof(&mut self) -> (r: Result<Option<Vec<u8>>, MultipartError>)
        ensures
            final(self).is_eof() == old(self).is_eof(),
            match first_match(old(self).bytes(), newline()) {
                Some(i) => match r {
                    Ok(Some(c)) => c@ == old(self).bytes().take(i + 1) && final(self).bytes()
                        == old(self).bytes().skip(i + 1),
                    _ => false,
                },
                None => if old(self).is_eof() {
                    match r {
                        Ok(Some(c)) => c@ == old(self).bytes() && final(self).bytes()
                            == Seq::<u8>::empty() && final(self).is_eof(),
                        _ => false,
                    }
                } else {
                    r == Ok::<_, MultipartError>(None::<Vec<u8>>) && *final(self) == *old(self)
                },
            },
    {
        let ghost pre = *self;
        match self.readline() {
            Err(MultipartError::Incomplete) => {
                assert(self.eof);
                let n = self.buf.len();
                let all = self.take_prefix(n);
                assert(all@ =~= pre.bytes());
                assert(self.bytes() =~= Seq::<u8>::empty());
                Ok(Some(all))
            },
            line => line,
        }
    }

    /// Put unprocessed bytes back at the front of the buffer.
    pub fn unprocessed(&mut self, data: Vec<u8>)
        requires
            old(self).bytes().len() + data@.len() <= usize::MAX,
        ensures
            final(self).bytes() == data@ + old(self).bytes(),
            final(self).is_eof() == old(self).is_eof(),
    {
        let mut head = data;
        head.append(&mut self.buf);
        self.buf = head;
    }
}

/// The line-feed delimiter.
pub open spec fn newline() -> Seq<u8> {
    seq![10u8]
}

/// Chunk-splitting invariance: by [`ByteBuffer::feed`]'s contract,
/// feeding `a` and then `b` to a buffer holding `base` leaves the
/// bytes `(base + a) + b`, and feeding the concatenation leaves
/// `base + (a + b)`; these are the same, so the parser, which reads
/// only the buffer's contents, cannot observe how input was split
/// into chunks.
pub proof fn lemma_feed_chunking(base: Seq<u8>, a: Seq<u8>, b: Seq<u8>)
    ensures
        (base + a) + b == base + (a + b),
{
    assert((base + a) + b =~= base + (a + b));
}

} // verus!
