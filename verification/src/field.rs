//! The per-part payload reader: a lazy, finite sequence of byte chunks
//! forming one part body, read either up to a declared length or up to
//! the next boundary marker.

use vstd::prelude::*;

use crate::buffer::ByteBuffer;
use crate::bytes::{contains_seq, lit, match_at};
use crate::error::MultipartError;
use crate::headers::{lookup, Headers};

verus! {

/// One step of a part-body read.
pub enum PartRead {
    /// No progress can be made until more input is fed.
    Pending,
    /// A chunk of body bytes.
    Chunk(Vec<u8>),
    /// The body is finished.
    End,
    /// The read failed.
    Failed(MultipartError),
}

/// A CRLF (or lone CR) followed by two dashes starts at `q`: the shape
/// that may introduce a boundary.
pub open spec fn marker_start(b: Seq<u8>, q: int) -> bool {
    &&& 0 <= q
    &&& q + 4 <= b.len()
    &&& b[q] == 13
    &&& ((b[q + 1] == 10 && b[q + 2] == 45 && b[q + 3] == 45) || (b[q + 1] == 45 && b[q + 2]
        == 45))
}

/// A complete boundary marker starts at `q`: `\r\n--` or `\r--`,
/// followed by the boundary itself.
pub open spec fn boundary_marker_at(b: Seq<u8>, bnd: Seq<u8>, q: int) -> bool {
    ||| (0 <= q && q + 4 + bnd.len() <= b.len() && b[q] == 13 && b[q + 1] == 10 && b[q + 2] == 45
        && b[q + 3] == 45 && b.subrange(q + 4, q + 4 + bnd.len()) == bnd)
    ||| (0 <= q && q + 3 + bnd.len() <= b.len() && b[q] == 13 && b[q + 1] == 45 && b[q + 2] == 45
        && b.subrange(q + 3, q + 3 + bnd.len()) == bnd)
}

/// A chunk that is safe to hand out as body bytes: it contains no
/// complete boundary marker.
pub open spec fn chunk_clean(c: Seq<u8>, bnd: Seq<u8>) -> bool {
    forall|q: int| !boundary_marker_at(c, bnd, q)
}

/// Boundary exactness: a clean chunk never contains the byte sequence
/// `\r\n--` followed by the boundary.
pub proof fn lemma_clean_chunk_has_no_boundary(c: Seq<u8>, bnd: Seq<u8>)
    requires
        chunk_clean(c, bnd),
    ensures
        !contains_seq(c, seq![13u8, 10u8, 45u8, 45u8] + bnd),
{
    let m = seq![13u8, 10u8, 45u8, 45u8] + bnd;
    assert forall|q: int| !match_at(c, m, q) by {
        if match_at(c, m, q) {
            assert(c.subrange(q, q + m.len() as int) == m);
            assert(c[q] == m[0] && c[q + 1] == m[1] && c[q + 2] == m[2] && c[q + 3] == m[3]);
            assert(c.subrange(q + 4, q + 4 + bnd.len() as int) =~= m.subrange(4, m.len() as int));
            assert(m.subrange(4, m.len() as int) =~= bnd);
            assert(boundary_marker_at(c, bnd, q));
        }
    }
}

/// A boundary marker inside a prefix is a boundary marker of the whole.
proof fn lemma_marker_in_prefix(b: Seq<u8>, k: int, bnd: Seq<u8>, q: int)
    requires
        0 <= k <= b.len(),
        boundary_marker_at(b.take(k), bnd, q),
    ensures
        boundary_marker_at(b, bnd, q),
{
    let c = b.take(k);
    if q + 4 + bnd.len() <= c.len() && c[q + 1] == 10 {
        assert(c.subrange(q + 4, q + 4 + bnd.len() as int) =~= b.subrange(
            q + 4,
            q + 4 + bnd.len() as int,
        ));
    } else {
        assert(c.subrange(q + 3, q + 3 + bnd.len() as int) =~= b.subrange(
            q + 3,
            q + 3 + bnd.len() as int,
        ));
    }
}

/// Read a chunk of a body with a declared length: at most `size` more
/// bytes belong to the body.
pub fn read_len(payload: &mut ByteBuffer, size: &mut u64) -> (r: PartRead)
    ensures
        final(payload).is_eof() == old(payload).is_eof(),
        *old(size) == 0 ==> r is End && *final(payload) == *old(payload) && *final(size) == 0,
        *old(size) > 0 ==> match r {
            PartRead::Chunk(c) => {
                let k = vstd::math::min(old(payload).bytes().len() as int, *old(size) as int);
                &&& k > 0
                &&& c@.len() == k
                &&& c@ == old(payload).bytes().take(k)
                &&& final(payload).bytes() == old(payload).bytes().skip(k)
                &&& *final(size) == *old(size) - k
            },
            PartRead::Pending => old(payload).bytes().len() == 0 && !old(payload).is_eof()
                && *final(payload) == *old(payload) && *final(size) == *old(size),
            PartRead::Failed(e) => e == MultipartError::Incomplete && old(payload).bytes().len()
                == 0 && old(payload).is_eof() && *final(payload) == *old(payload) && *final(size)
                == *old(size),
            PartRead::End => false,
        },
{
    if *size == 0 {
        return PartRead::End;
    }
    match payload.read_max(*size) {
        Ok(Some(chunk)) => {
            let l = chunk.len() as u64;
            *size = *size - l;
            PartRead::Chunk(chunk)
        },
        Ok(None) => PartRead::Pending,
        Err(e) => PartRead::Failed(e),
    }
}

/// The head of the buffer may still become a boundary marker, but the
/// bytes needed to decide are missing: the reader must wait for more
/// input rather than guess.
pub open spec fn partial_marker_head(b: Seq<u8>, bnd: Seq<u8>) -> bool {
    ||| (0 < b.len() < 4 && b[0] == 13)
    ||| (b.len() >= 4 && b[0] == 13 && b[1] == 10 && b[2] == 45 && b[3] == 45 && b.len() < 4
        + bnd.len())
    ||| (b.len() >= 4 && b[0] == 13 && b[1] == 45 && b[2] == 45 && b.len() < 3 + bnd.len())
}

/// The first position at or after `q` where a data chunk must stop: a
/// CR that starts a possible marker, or a CR too close to the end of
/// the buffer to decide; the buffer length when there is none.
pub open spec fn cut_from(b: Seq<u8>, q: int) -> int
    decreases b.len() - q when 1 <= q <= b.len()
{
    if q < 1 || q >= b.len() {
        b.len() as int
    } else if b[q] == 13 && (q + 4 > b.len() || marker_start(b, q)) {
        q
    } else {
        cut_from(b, q + 1)
    }
}

/// Where the streaming reader cuts its next data chunk: position zero
/// is never a cut (a marker there ends the body instead).
pub open spec fn stream_cut(b: Seq<u8>) -> int {
    cut_from(b, 1)
}

/// `cut_from` passes over a CR-free region unchanged.
proof fn lemma_cut_skip(b: Seq<u8>, q1: int, q2: int)
    requires
        1 <= q1 <= q2 <= b.len(),
        forall|j: int| q1 <= j < q2 ==> b[j] != 13,
    ensures
        cut_from(b, q1) == cut_from(b, q2),
    decreases q2 - q1,
{
    if q1 < q2 {
        lemma_cut_skip(b, q1 + 1, q2);
    }
}

/// `cut_from` stays within the buffer.
proof fn lemma_cut_bounds(b: Seq<u8>, q: int)
    requires
        1 <= q <= b.len(),
    ensures
        q <= cut_from(b, q) <= b.len(),
    decreases b.len() - q,
{
    if !(q >= b.len()) && !(b[q] == 13 && (q + 4 > b.len() || marker_start(b, q))) {
        lemma_cut_bounds(b, q + 1);
    }
}

/// Read a chunk of a body with no declared length, scanning for the
/// boundary marker.  Yields the data up to the next possible marker,
/// reports the end of the body exactly when the buffer begins with the
/// boundary marker, and is pending exactly while the buffer is empty
/// or its head is a partial marker that more input could complete.
pub fn read_stream(payload: &mut ByteBuffer, boundary: &[u8]) -> (r: PartRead)
    requires
        boundary@.len() > 0,
        boundary@.len() + 4 <= usize::MAX,
    ensures
        final(payload).is_eof() == old(payload).is_eof(),
        r is Failed ==> r == PartRead::Failed(MultipartError::Incomplete) && *final(payload)
            == *old(payload),
        (r is Failed) <==> (old(payload).bytes().len() == 0 && old(payload).is_eof()),
        (r is End) <==> boundary_marker_at(old(payload).bytes(), boundary@, 0),
        r is End ==> *final(payload) == *old(payload),
        (r is Pending) <==> ((old(payload).bytes().len() == 0 && !old(payload).is_eof())
            || partial_marker_head(old(payload).bytes(), boundary@)),
        r is Pending ==> *final(payload) == *old(payload),
        r matches PartRead::Chunk(c) ==> {
            &&& c@.len() == stream_cut(old(payload).bytes())
            &&& c@.len() > 0
            &&& c@.len() <= old(payload).bytes().len()
            &&& c@ == old(payload).bytes().take(c@.len() as int)
            &&& final(payload).bytes() == old(payload).bytes().skip(c@.len() as int)
            &&& forall|q: int|
                0 <= q < c@.len() ==> !boundary_marker_at(old(payload).bytes(), boundary@, q)
            &&& chunk_clean(c@, boundary@)
        },
{
    let len = payload.len();
    let blen = boundary.len();
    if len == 0 {
        if payload.eof() {
            return PartRead::Failed(MultipartError::Incomplete);
        } else {
            return PartRead::Pending;
        }
    }
    // Decide what the head of the buffer is: a complete boundary marker,
    // a possible marker still missing bytes, or plain data.
    if payload.get(0) == 13 {
        if len == 1 {
            return PartRead::Pending;
        }
        let b1 = payload.get(1);
        if b1 == 10 {
            if len < 4 {
                return PartRead::Pending;
            }
            if payload.get(2) == 45 && payload.get(3) == 45 {
                if len < 4 + blen {
                    return PartRead::Pending;
                }
                if payload.range_eq(4, boundary) {
                    return PartRead::End;
                }
            }
        } else if b1 == 45 {
            if len < 3 {
                return PartRead::Pending;
            }
            if payload.get(2) == 45 {
                if len < 3 + blen {
                    return PartRead::Pending;
                }
                if payload.range_eq(3, boundary) {
                    return PartRead::End;
                }
            }
        }
    }
    assert(!boundary_marker_at(payload.bytes(), boundary@, 0));
    assert(len >= 4 ==> !partial_marker_head(payload.bytes(), boundary@));
    // Scan for the earliest CR that starts a possible marker; everything
    // before it is plain data.
    let ghost b0 = *payload;
    let mut pos: usize = 0;
    loop
        invariant
            *payload == b0,
            b0 == *old(payload),
            len == payload.bytes().len(),
            blen == boundary@.len(),
            blen > 0,
            blen + 4 <= usize::MAX,
            len > 0,
            0 <= pos <= len,
            pos >= 1 ==> len >= 4,
            len >= 4 ==> !partial_marker_head(payload.bytes(), boundary@),
            forall|q: int| 1 <= q < pos ==> !marker_start(payload.bytes(), q),
            !boundary_marker_at(payload.bytes(), boundary@, 0),
            stream_cut(payload.bytes()) == cut_from(
                payload.bytes(),
                if pos < 1 {
                    1int
                } else {
                    pos as int
                },
            ),
        decreases len - pos,
    {
        let ghost b = payload.bytes();
        let ghost po: int = if pos < 1 {
            1int
        } else {
            pos as int
        };
        match payload.find_byte_from(13, pos) {
            None => {
                proof {
                    lemma_cut_skip(b, po, len as int);
                    lemma_chunk_prefix_clean(b, boundary@, len as int, pos as int);
                    if len < 4 {
                        assert(b[0] != 13);
                    }
                }
                let all = payload.take_prefix(len);
                proof {
                    assert(all@ =~= b0.bytes());
                    assert(b0.bytes().take(len as int) =~= b0.bytes());
                }
                return PartRead::Chunk(all);
            },
            Some(cur) => {
                if len - cur < 4 {
                    if cur > 0 {
                        proof {
                            lemma_cut_skip(b, po, cur as int);
                            lemma_chunk_prefix_clean(b, boundary@, cur as int, pos as int);
                            if len < 4 {
                                assert(b[0] != 13);
                            }
                        }
                        let c = payload.take_prefix(cur);
                        return PartRead::Chunk(c);
                    } else {
                        proof {
                            assert(b[0] == 13 && len < 4);
                        }
                        return PartRead::Pending;
                    }
                } else {
                    let m2 = payload.get(cur + 1);
                    let is_marker = if m2 == 10 {
                        payload.get(cur + 2) == 45 && payload.get(cur + 3) == 45
                    } else if m2 == 45 {
                        payload.get(cur + 2) == 45
                    } else {
                        false
                    };
                    if is_marker {
                        if cur != 0 {
                            proof {
                                lemma_cut_skip(b, po, cur as int);
                                assert(marker_start(b, cur as int));
                                lemma_chunk_prefix_clean(b, boundary@, cur as int, pos as int);
                            }
                            let c = payload.take_prefix(cur);
                            return PartRead::Chunk(c);
                        } else {
                            pos = 1;
                        }
                    } else {
                        proof {
                            assert(!marker_start(b, cur as int));
                            if cur >= 1 {
                                lemma_cut_skip(b, po, cur as int);
                            }
                        }
                        pos = cur + 1;
                    }
                }
            },
        }
    }
}

/// The kind of outcome a part-body read step produces.
pub ghost enum StepKind {
    Chunk,
    End,
    Pending,
    Failed,
}

/// The kind of a concrete read step.
pub open spec fn kind_of(r: PartRead) -> StepKind {
    match r {
        PartRead::Chunk(_) => StepKind::Chunk,
        PartRead::End => StepKind::End,
        PartRead::Pending => StepKind::Pending,
        PartRead::Failed(_) => StepKind::Failed,
    }
}

/// What consuming the trailing line after a body must produce: the end
/// of the sequence once a complete line is buffered, failure when the
/// input ended without one, pending otherwise.
pub open spec fn trailing_step(b: Seq<u8>, eof: bool) -> StepKind {
    if crate::bytes::first_match(b, crate::buffer::newline()) is Some {
        StepKind::End
    } else if eof {
        StepKind::Failed
    } else {
        StepKind::Pending
    }
}

/// How many bytes the next body chunk holds: up to the remaining
/// declared length, or up to the streaming cut point.
pub open spec fn chunk_len(fld: InnerField, b: Seq<u8>) -> int {
    match fld.remaining() {
        Some(rem) => vstd::math::min(b.len() as int, rem as int),
        None => stream_cut(b),
    }
}

/// What one step of [`InnerField::poll`] must produce, as a function
/// of the reader state, the buffered bytes, and the upstream
/// end-of-file flag: body bytes while some are buffered and owed, the
/// trailing-line outcome once the body is over, failure exactly when
/// the upstream ended too early, and pending exactly when the buffer
/// lacks the bytes to decide.
pub open spec fn poll_step(fld: InnerField, b: Seq<u8>, eof: bool) -> StepKind {
    if fld.is_released() {
        StepKind::End
    } else if fld.latched() {
        trailing_step(b, eof)
    } else {
        match fld.remaining() {
            Some(rem) => if rem == 0 {
                trailing_step(b, eof)
            } else if b.len() > 0 {
                StepKind::Chunk
            } else if eof {
                StepKind::Failed
            } else {
                StepKind::Pending
            },
            None => {
                if boundary_marker_at(b, fld.boundary_spec(), 0) {
                    trailing_step(b, eof)
                } else if b.len() == 0 {
                    if eof {
                        StepKind::Failed
                    } else {
                        StepKind::Pending
                    }
                } else if partial_marker_head(b, fld.boundary_spec()) {
                    StepKind::Pending
                } else {
                    StepKind::Chunk
                }
            },
        }
    }
}

/// The state of one part body being read: the boundary to stop at, an
/// end-of-body latch, the remaining declared length (when the part
/// carried a `Content-Length` header), and a released flag set once the
/// trailing line after the body has been consumed.
pub struct InnerField {
    boundary: Vec<u8>,
    eof: bool,
    length: Option<u64>,
    released: bool,
    declared: Ghost<Option<u64>>,
    yielded: Ghost<nat>,
}

impl InnerField {
    /// The boundary this part stops at.
    pub closed spec fn boundary_spec(&self) -> Seq<u8> {
        self.boundary@
    }

    /// Whether the end of the body has been reached.
    pub closed spec fn latched(&self) -> bool {
        self.eof
    }

    /// How many body bytes are still owed, in declared-length mode.
    pub closed spec fn remaining(&self) -> Option<u64> {
        self.length
    }

    /// Whether the trailing line after the body has been consumed.
    pub closed spec fn is_released(&self) -> bool {
        self.released
    }

    /// The declared length of the body, when one was given.
    pub closed spec fn declared(&self) -> Option<u64> {
        self.declared@
    }

    /// The total number of body bytes handed out so far.
    pub closed spec fn yielded(&self) -> nat {
        self.yielded@
    }

    /// Well-formedness: in declared-length mode the bytes handed out
    /// plus the bytes still owed always equal the declared length, and
    /// the end latch means nothing is owed.
    pub open spec fn wf(&self) -> bool {
        &&& self.boundary_spec().len() > 0
        &&& self.boundary_spec().len() + 4 <= usize::MAX
        &&& match self.declared() {
            Some(d) => self.remaining() matches Some(rem) && self.yielded() + rem == d,
            None => self.remaining() is None,
        }
        &&& (self.latched() ==> match self.declared() {
            Some(d) => self.remaining() == Some(0u64),
            None => true,
        })
        &&& (self.is_released() ==> self.latched())
    }

    /// Set up the reader for one part from its headers: a
    /// `Content-Length` header, when present, fixes the body length;
    /// a malformed one fails the part.
    pub fn new(boundary: Vec<u8>, headers: &Headers) -> (r: Result<InnerField, MultipartError>)
        requires
            boundary@.len() > 0,
            boundary@.len() + 4 <= usize::MAX,
        ensures
            match r {
                Ok(f) => {
                    &&& f.wf()
                    &&& f.boundary_spec() == boundary@
                    &&& !f.latched()
                    &&& !f.is_released()
                    &&& f.yielded() == 0
                    &&& match lookup(headers@, lit("content-length"@)) {
                        Some(v) => crate::headers::all_digits(v) && v.len() > 0
                            && crate::headers::dec_value(v) <= u64::MAX && f.declared() == Some(
                            crate::headers::dec_value(v) as u64,
                        ),
                        None => f.declared() is None,
                    }
                },
                Err(e) => {
                    &&& e == MultipartError::Payload(crate::error::PayloadError::Incomplete)
                    &&& match lookup(headers@, lit("content-length"@)) {
                        Some(v) => v.len() == 0 || !crate::headers::all_digits(v)
                            || crate::headers::dec_value(v) > u64::MAX,
                        None => false,
                    }
                },
            },
    {
        let length: Option<u64> = match headers.get("content-length".as_bytes()) {
            Some(v) => match crate::headers::parse_u64(v.as_slice()) {
                Some(l) => Some(l),
                None => {
                    return Err(
                        MultipartError::Payload(crate::error::PayloadError::Incomplete),
                    );
                },
            },
            None => None,
        };
        Ok(
            InnerField {
                boundary,
                eof: false,
                length,
                released: false,
                declared: Ghost(length),
                yielded: Ghost(0nat),
            },
        )
    }

    /// One step of the part body sequence.  Yields body chunks until
    /// the end of the body, then consumes the line that follows the
    /// body and reports the end of the sequence.
    ///
    /// In declared-length mode the bytes handed out never exceed the
    /// declared length, and at the end of the sequence they equal it
    /// exactly.  In streaming mode no chunk ever contains a boundary
    /// marker.
    pub fn poll(&mut self, payload: &mut ByteBuffer) -> (r: PartRead)
        requires
            old(self).wf(),
        ensures
            final(self).wf(),
            final(self).boundary_spec() == old(self).boundary_spec(),
            final(self).declared() == old(self).declared(),
            final(payload).is_eof() == old(payload).is_eof(),
            crate::bytes::is_suffix_of(final(payload).bytes(), old(payload).bytes()),
            kind_of(r) == poll_step(*old(self), old(payload).bytes(), old(payload).is_eof()),
            old(self).is_released() ==> r is End && *final(self) == *old(self) && *final(payload)
                == *old(payload),
            match r {
                PartRead::Chunk(c) => {
                    &&& c@.len() == chunk_len(*old(self), old(payload).bytes())
                    &&& c@.len() > 0
                    &&& c@.len() <= old(payload).bytes().len()
                    &&& c@ == old(payload).bytes().take(c@.len() as int)
                    &&& final(payload).bytes() == old(payload).bytes().skip(c@.len() as int)
                    &&& final(self).yielded() == old(self).yielded() + c@.len()
                    &&& (old(self).declared() is None ==> chunk_clean(
                        c@,
                        old(self).boundary_spec(),
                    ) && forall|q: int|
                        0 <= q < c@.len() ==> !boundary_marker_at(
                            old(payload).bytes(),
                            old(self).boundary_spec(),
                            q,
                        ))
                    &&& !final(self).is_released()
                },
                PartRead::Pending => *final(payload) == *old(payload) && final(self).yielded()
                    == old(self).yielded() && poll_step(
                    *final(self),
                    final(payload).bytes(),
                    final(payload).is_eof(),
                ) is Pending,
                PartRead::End => {
                    &&& final(self).is_released()
                    &&& final(self).yielded() == old(self).yielded()
                    &&& match old(self).declared() {
                        Some(d) => final(self).yielded() == d,
                        None => true,
                    }
                    &&& (old(self).is_released() && *final(payload) == *old(payload)) || (
                    match crate::bytes::first_match(old(payload).bytes(), crate::buffer::newline()) {
                        Some(i) => final(payload).bytes() == old(payload).bytes().skip(i + 1),
                        None => false,
                    })
                },
                PartRead::Failed(e) => e == MultipartError::Incomplete && *final(payload) == *old(
                    payload,
                ) && final(self).yielded() == old(self).yielded(),
            },
    {
        proof {
            crate::bytes::lemma_suffix_refl(payload.bytes());
        }
        if self.released {
            return PartRead::End;
        }
        if !self.eof {
            let ghost p0 = *payload;
            let res = if self.length.is_some() {
                let mut l = self.length.unwrap();
                let res = read_len(payload, &mut l);
                self.length = Some(l);
                res
            } else {
                read_stream(payload, self.boundary.as_slice())
            };
            match res {
                PartRead::Pending => {
                    return PartRead::Pending;
                },
                PartRead::Chunk(c) => {
                    self.yielded = Ghost(self.yielded@ + c@.len());
                    proof {
                        crate::bytes::lemma_skip_suffix(p0.bytes(), c@.len() as int);
                    }
                    return PartRead::Chunk(c);
                },
                PartRead::Failed(e) => {
                    return PartRead::Failed(e);
                },
                PartRead::End => {
                    self.eof = true;
                },
            }
        }
        let ghost p1 = *payload;
        let r = payload.readline();
        proof {
            crate::bytes::lemma_first_match(p1.bytes(), crate::buffer::newline());
            match crate::bytes::first_match(p1.bytes(), crate::buffer::newline()) {
                Some(i) => {
                    crate::bytes::lemma_skip_suffix(p1.bytes(), i + 1);
                },
                None => {
                    crate::bytes::lemma_suffix_refl(p1.bytes());
                },
            }
        }
        match r {
            Ok(None) => PartRead::Pending,
            Ok(Some(_line)) => {
                self.released = true;
                PartRead::End
            },
            Err(e) => PartRead::Failed(e),
        }
    }
}

/// A prefix cut at a CR is clean when no marker starts strictly inside
/// it and no boundary marker starts at its head: no boundary marker of
/// the whole buffer even begins inside the prefix.
proof fn lemma_chunk_prefix_clean(b: Seq<u8>, bnd: Seq<u8>, cur: int, pos: int)
    requires
        bnd.len() > 0,
        0 < cur <= b.len(),
        0 <= pos,
        forall|q: int| 1 <= q < pos ==> !marker_start(b, q),
        forall|j: int| pos <= j < cur ==> b[j] != 13,
        !boundary_marker_at(b, bnd, 0),
    ensures
        chunk_clean(b.take(cur), bnd),
        forall|q: int| 0 <= q < cur ==> !boundary_marker_at(b, bnd, q),
{
    assert forall|q: int| 0 <= q < cur implies !boundary_marker_at(b, bnd, q) by {
        if boundary_marker_at(b, bnd, q) && q >= 1 {
            assert(q + 4 <= b.len());
            assert(marker_start(b, q));
            assert(q < pos || b[q] != 13);
        }
    }
    let c = b.take(cur);
    assert forall|q: int| !boundary_marker_at(c, bnd, q) by {
        if boundary_marker_at(c, bnd, q) {
            lemma_marker_in_prefix(b, cur, bnd, q);
            assert(0 <= q < c.len());
        }
    }
}

} // verus!

verus! {

/// No overshoot, upper bound: in declared-length mode a part reader
/// never hands out more bytes than the declared length.
pub proof fn lemma_never_overshoot(f: &InnerField)
    requires
        f.wf(),
        f.declared() is Some,
    ensures
        f.yielded() <= f.declared()->Some_0,
{
}

/// No overshoot, exactness: once the end of a declared-length body is
/// reached, the bytes handed out equal the declared length.
pub proof fn lemma_exact_length_at_end(f: &InnerField)
    requires
        f.wf(),
        f.latched(),
        f.declared() is Some,
    ensures
        f.yielded() == f.declared()->Some_0,
{
}

} // verus!
