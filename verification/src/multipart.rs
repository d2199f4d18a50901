//! The outer multipart stream: boundary location, per-part header
//! parsing, and the four-state machine that hands out part readers.

use vstd::prelude::*;

use crate::buffer::{newline, ByteBuffer};
use crate::bytes::{eq_bytes, first_match, is_suffix_of, lemma_skip_suffix, lemma_suffix_refl,
    lemma_suffix_trans, lit, str_from_utf8};
use crate::disposition::{first_name, ContentDisposition, ContentDispositionView,
    DispositionTypeView};
use crate::error::{MultipartError, PayloadError};
use crate::field::{InnerField, PartRead};
use crate::headers::{all_digits, dec_value, eq_bytes_ci, eq_ci, lookup, parse_header_block,
    parsed_headers, Headers, MAX_HEADERS};
use crate::media::{media_type_of, parse_media_type, MediaType, MediaTypeView};
use crate::safety::{Safety, SafetyToken};

verus! {

/// The two-dash sequence that opens a boundary line.
pub open spec fn dashdash() -> Seq<u8> {
    seq![45u8, 45u8]
}

/// A carriage return and line feed.
pub open spec fn crlf() -> Seq<u8> {
    seq![13u8, 10u8]
}

/// The blank line that ends a header block.
pub open spec fn double_crlf() -> Seq<u8> {
    seq![13u8, 10u8, 13u8, 10u8]
}

/// A line announcing the next part: `--`, the boundary, and a line
/// ending.
pub open spec fn part_boundary_line(line: Seq<u8>, bnd: Seq<u8>) -> bool {
    &&& line.len() == bnd.len() as int + 4
    &&& line.subrange(0, 2) == dashdash()
    &&& line.subrange(2, 2 + bnd.len() as int) == bnd
    &&& line.subrange(2 + bnd.len() as int, line.len() as int) == crlf()
}

/// A line closing the body: `--`, the boundary, `--`, and at most a
/// line ending after it.
pub open spec fn closing_boundary_line(line: Seq<u8>, bnd: Seq<u8>) -> bool {
    &&& line.len() >= bnd.len() as int + 4
    &&& line.subrange(0, 2) == dashdash()
    &&& line.subrange(2, 2 + bnd.len() as int) == bnd
    &&& line.subrange(2 + bnd.len() as int, 4 + bnd.len() as int) == dashdash()
    &&& (line.len() == bnd.len() as int + 4 || line.subrange(4 + bnd.len() as int, line.len() as int) == crlf())
}

/// A line announcing the first part, as accepted while skipping the
/// preamble: `--`, the boundary, and exactly two more bytes.
pub open spec fn first_boundary_line(line: Seq<u8>, bnd: Seq<u8>) -> bool {
    &&& line.len() == bnd.len() as int + 4
    &&& line.subrange(0, 2) == dashdash()
    &&& line.subrange(2, 2 + bnd.len() as int) == bnd
}

/// A line announcing an empty body while skipping the preamble: `--`,
/// the boundary, `--`.
pub open spec fn first_closing_line(line: Seq<u8>, bnd: Seq<u8>) -> bool {
    &&& line.len() >= bnd.len() as int + 4
    &&& line.subrange(0, 2) == dashdash()
    &&& line.subrange(2, 2 + bnd.len() as int) == bnd
    &&& line.subrange(2 + bnd.len() as int, 4 + bnd.len() as int) == dashdash()
}

/// One step of reading a boundary line.
pub enum BoundaryRead {
    /// More input is needed.
    Pending,
    /// A part follows.
    Part,
    /// The closing boundary: the body is over.
    Done,
    /// The read failed.
    Failed(MultipartError),
}

/// Whether the bytes of `v` starting at `start` equal `other`.
fn vec_range_eq(v: &Vec<u8>, start: usize, other: &[u8]) -> (r: bool)
    requires
        start + other@.len() <= v@.len(),
    ensures
        r == (v@.subrange(start as int, start + other@.len()) == other@),
{
    let n = v.len();
    let end = start + other.len();
    let sub = vstd::slice::slice_subrange(v.as_slice(), start, end);
    eq_bytes(sub, other)
}

/// Classify one complete line read while expecting a boundary.
fn classify_boundary_line(line: &Vec<u8>, boundary: &[u8]) -> (r: BoundaryRead)
    requires
        boundary@.len() > 0,
        boundary@.len() + 6 <= usize::MAX,
    ensures
        (r is Part) <==> part_boundary_line(line@, boundary@),
        (r is Done) <==> (!part_boundary_line(line@, boundary@) && closing_boundary_line(
            line@,
            boundary@,
        )),
        !(r is Part) && !(r is Done) ==> r == BoundaryRead::Failed(MultipartError::Boundary),
        !(r is Pending),
{
    let n = line.len();
    let blen = boundary.len();
    if n < blen + 4 {
        return BoundaryRead::Failed(MultipartError::Boundary);
    }
    if !(line[0] == 45 && line[1] == 45) {
        proof {
            assert(line@.subrange(0, 2) == dashdash() ==> line@[0] == 45 && line@[1] == 45);
        }
        return BoundaryRead::Failed(MultipartError::Boundary);
    }
    proof {
        assert(line@.subrange(0, 2) =~= dashdash());
    }
    if !vec_range_eq(line, 2, boundary) {
        return BoundaryRead::Failed(MultipartError::Boundary);
    }
    if n == blen + 4 && line[blen + 2] == 13 && line[blen + 3] == 10 {
        proof {
            assert(line@.subrange(2 + boundary@.len() as int, line@.len() as int) =~= crlf());
        }
        return BoundaryRead::Part;
    }
    proof {
        if part_boundary_line(line@, boundary@) {
            assert(line@[2 + boundary@.len() as int] == 13 && line@[3 + boundary@.len() as int] == 10);
        }
    }
    if line[blen + 2] == 45 && line[blen + 3] == 45 {
        proof {
            assert(line@.subrange(2 + boundary@.len() as int, 4 + boundary@.len() as int) =~= dashdash());
        }
        if n == blen + 4 {
            return BoundaryRead::Done;
        }
        if n == blen + 6 && line[blen + 4] == 13 && line[blen + 5] == 10 {
            proof {
                assert(line@.subrange(4 + boundary@.len() as int, line@.len() as int) =~= crlf());
            }
            return BoundaryRead::Done;
        }
        proof {
            if closing_boundary_line(line@, boundary@) && line@.len() != boundary@.len() + 4 {
                assert(line@.subrange(4 + boundary@.len() as int, line@.len() as int) == crlf());
                assert(line@.len() == boundary@.len() + 6);
                assert(line@[4 + boundary@.len() as int] == 13 && line@[5 + boundary@.len() as int] == 10);
            }
        }
        return BoundaryRead::Failed(MultipartError::Boundary);
    }
    proof {
        if closing_boundary_line(line@, boundary@) {
            assert(line@[2 + boundary@.len() as int] == 45 && line@[3 + boundary@.len() as int] == 45);
        }
    }
    BoundaryRead::Failed(MultipartError::Boundary)
}

/// Read the boundary line that separates two parts, or the closing
/// boundary, which may arrive without its final line ending.
pub fn read_boundary(payload: &mut ByteBuffer, boundary: &[u8]) -> (r: BoundaryRead)
    requires
        boundary@.len() > 0,
        boundary@.len() + 6 <= usize::MAX,
    ensures
        final(payload).is_eof() == old(payload).is_eof(),
        match first_match(old(payload).bytes(), newline()) {
            Some(i) => {
                let line = old(payload).bytes().take(i + 1);
                &&& final(payload).bytes() == old(payload).bytes().skip(i + 1)
                &&& ((r is Part) <==> part_boundary_line(line, boundary@))
                &&& ((r is Done) <==> (!part_boundary_line(line, boundary@)
                    && closing_boundary_line(line, boundary@)))
                &&& (!(r is Part) && !(r is Done) ==> r == BoundaryRead::Failed(
                    MultipartError::Boundary,
                ))
            },
            None => if old(payload).is_eof() {
                let line = old(payload).bytes();
                &&& final(payload).bytes() == Seq::<u8>::empty()
                &&& ((r is Part) <==> part_boundary_line(line, boundary@))
                &&& ((r is Done) <==> (!part_boundary_line(line, boundary@)
                    && closing_boundary_line(line, boundary@)))
                &&& (!(r is Part) && !(r is Done) ==> r == BoundaryRead::Failed(
                    MultipartError::Boundary,
                ))
            } else {
                r is Pending && *final(payload) == *old(payload)
            },
        },
{
    match payload.readline_or_eof() {
        Ok(Some(line)) => classify_boundary_line(&line, boundary),
        Ok(None) => BoundaryRead::Pending,
        Err(_) => BoundaryRead::Failed(MultipartError::Incomplete),
    }
}

/// The first `k` bytes of `b` split into complete lines, none of which
/// announces the first part or an empty body.
pub open spec fn skipped_lines_ok(b: Seq<u8>, k: int, bnd: Seq<u8>) -> bool
    decreases k when 0 <= k <= b.len()
{
    if k <= 0 {
        k == 0
    } else {
        match first_match(b, newline()) {
            None => false,
            Some(i) => if 0 <= i && i + 1 <= k {
                let line = b.take(i + 1);
                &&& !first_boundary_line(line, bnd)
                &&& !first_closing_line(line, bnd)
                &&& skipped_lines_ok(b.skip(i + 1), k - (i + 1), bnd)
            } else {
                false
            },
        }
    }
}

/// A run of skipped lines extends by one more complete line that is not
/// a boundary line.
proof fn lemma_skipped_lines_extend(b: Seq<u8>, k: int, bnd: Seq<u8>, i: int)
    requires
        0 <= k,
        0 <= i,
        k + i + 1 <= b.len(),
        skipped_lines_ok(b, k, bnd),
        first_match(b.skip(k), newline()) == Some(i),
        !first_boundary_line(b.skip(k).take(i + 1), bnd),
        !first_closing_line(b.skip(k).take(i + 1), bnd),
    ensures
        skipped_lines_ok(b, k + i + 1, bnd),
    decreases k,
{
    if k == 0 {
        assert(b.skip(0) =~= b);
        assert(b.take(i + 1) =~= b.skip(0).take(i + 1));
        assert(skipped_lines_ok(b.skip(i + 1), 0, bnd));
        assert(first_match(b, newline()) == Some(i));
        assert(skipped_lines_ok(b, i + 1, bnd));
    } else {
        let i0 = first_match(b, newline())->Some_0;
        crate::bytes::lemma_first_match(b, newline());
        assert(0 <= i0 && i0 + 1 <= k);
        let rest = b.skip(i0 + 1);
        assert(rest.skip(k - (i0 + 1)) =~= b.skip(k));
        lemma_skipped_lines_extend(rest, k - (i0 + 1), bnd, i);
        assert(skipped_lines_ok(rest, k - (i0 + 1) + i + 1, bnd));
        assert(k + i + 1 - (i0 + 1) == k - (i0 + 1) + i + 1);
        assert(skipped_lines_ok(b, k + i + 1, bnd));
    }
}

/// Skip the preamble: read line after line until the first boundary
/// line, a closing boundary line (an empty body), or the end of the
/// input.  Only complete lines that are not boundary lines are
/// discarded.
pub fn skip_until_boundary(payload: &mut ByteBuffer, boundary: &[u8]) -> (r: BoundaryRead)
    requires
        boundary@.len() > 0,
        boundary@.len() + 6 <= usize::MAX,
    ensures
        final(payload).is_eof() == old(payload).is_eof(),
        is_suffix_of(final(payload).bytes(), old(payload).bytes()),
        r is Pending ==> !final(payload).is_eof() && first_match(final(payload).bytes(), newline())
            is None,
        r matches BoundaryRead::Failed(e) ==> e == MultipartError::Incomplete && final(payload).is_eof() && first_match(final(payload).bytes(), newline()) is None,
        r is Pending || r is Failed ==> exists|k: int|
            0 <= k <= old(payload).bytes().len() && final(payload).bytes() == #[trigger] old(
                payload,
            ).bytes().skip(k) && skipped_lines_ok(old(payload).bytes(), k, boundary@),
        r is Part ==> exists|a: int, b: int|
            0 <= a <= b <= old(payload).bytes().len() && final(payload).bytes() == old(payload).bytes().skip(b) && first_boundary_line(
                #[trigger] old(payload).bytes().subrange(a, b),
                boundary@,
            ) && skipped_lines_ok(old(payload).bytes(), a, boundary@) && first_match(
                old(payload).bytes().skip(a),
                newline(),
            ) == Some(b - a - 1),
        r is Done ==> exists|a: int, b: int|
            0 <= a <= b <= old(payload).bytes().len() && final(payload).bytes() == old(payload).bytes().skip(b) && first_closing_line(
                #[trigger] old(payload).bytes().subrange(a, b),
                boundary@,
            ) && skipped_lines_ok(old(payload).bytes(), a, boundary@) && first_match(
                old(payload).bytes().skip(a),
                newline(),
            ) == Some(b - a - 1),
{
    let blen = boundary.len();
    let ghost orig = *payload;
    let ghost consumed: int = 0;
    loop
        invariant
            boundary@.len() == blen,
            blen > 0,
            blen + 6 <= usize::MAX,
            0 <= consumed <= orig.bytes().len(),
            payload.bytes() == orig.bytes().skip(consumed),
            payload.is_eof() == orig.is_eof(),
            orig == *old(payload),
            skipped_lines_ok(orig.bytes(), consumed, boundary@),
        decreases payload.bytes().len(),
    {
        let ghost pre = *payload;
        match payload.readline() {
            Ok(Some(line)) => {
                let ghost i = first_match(pre.bytes(), newline())->Some_0;
                proof {
                    crate::bytes::lemma_first_match(pre.bytes(), newline());
                    assert(pre.bytes().skip(i + 1) =~= orig.bytes().skip(consumed + i + 1));
                    assert(line@ =~= orig.bytes().subrange(consumed, consumed + i + 1));
                }
                let n = line.len();
                if n >= blen + 4 {
                    let head_ok = line[0] == 45 && line[1] == 45 && vec_range_eq(
                        &line,
                        2,
                        boundary,
                    );
                    if head_ok {
                        proof {
                            assert(line@.subrange(0, 2) =~= dashdash());
                        }
                        if n == blen + 4 {
                            return BoundaryRead::Part;
                        }
                        if line[blen + 2] == 45 && line[blen + 3] == 45 {
                            proof {
                                assert(line@.subrange(2 + boundary@.len() as int, 4 + boundary@.len() as int)
                                    =~= dashdash());
                            }
                            return BoundaryRead::Done;
                        }
                    }
                }
                proof {
                    // The line did not match either boundary shape.
                    if first_boundary_line(line@, boundary@) {
                        assert(line@[0] == 45 && line@[1] == 45);
                        assert(line@.subrange(2, 2 + boundary@.len() as int) == boundary@);
                    }
                    if first_closing_line(line@, boundary@) {
                        assert(line@[0] == 45 && line@[1] == 45);
                        assert(line@.subrange(2, 2 + boundary@.len() as int) == boundary@);
                        assert(line@[2 + boundary@.len() as int] == 45 && line@[3
                            + boundary@.len() as int] == 45);
                    }
                    lemma_skipped_lines_extend(orig.bytes(), consumed, boundary@, i);
                    consumed = consumed + i + 1;
                }
            },
            Ok(None) => {
                return BoundaryRead::Pending;
            },
            Err(e) => {
                return BoundaryRead::Failed(e);
            },
        }
    }
}

/// One step of reading a part's header block.
pub enum HeadersRead {
    /// More input is needed.
    Pending,
    /// The parsed headers.
    Done(Headers),
    /// The read failed.
    Failed(MultipartError),
}

/// Read a part's header block: everything up to and including the
/// first blank line, parsed into headers.  A malformed block fails
/// with `Decode`; an input that ends before the blank line fails with
/// `Incomplete`.
pub fn read_headers(payload: &mut ByteBuffer) -> (r: HeadersRead)
    ensures
        final(payload).is_eof() == old(payload).is_eof(),
        match first_match(old(payload).bytes(), double_crlf()) {
            Some(i) => {
                &&& final(payload).bytes() == old(payload).bytes().skip(i + 4)
                &&& match parsed_headers(old(payload).bytes().take(i + 4), MAX_HEADERS as int) {
                    Some(hs) => r matches HeadersRead::Done(h) && h@ == hs,
                    None => r == HeadersRead::Failed(MultipartError::Decode),
                }
            },
            None => *final(payload) == *old(payload) && if old(payload).is_eof() {
                r == HeadersRead::Failed(MultipartError::Incomplete)
            } else {
                r is Pending
            },
        },
{
    let delim: [u8; 4] = [13u8, 10u8, 13u8, 10u8];
    proof {
        assert(delim@ =~= double_crlf());
    }
    match payload.read_until(delim.as_slice()) {
        Ok(Some(block)) => match parse_header_block(block.as_slice(), MAX_HEADERS) {
            Some(h) => HeadersRead::Done(h),
            None => HeadersRead::Failed(MultipartError::Decode),
        },
        Ok(None) => HeadersRead::Pending,
        Err(e) => HeadersRead::Failed(e),
    }
}

} // verus!

verus! {

/// The states of the outer parser.
#[derive(Clone, Copy, Debug, PartialEq, Eq, Structural)]
pub enum InnerState {
    /// The stream is over; this state is absorbing.
    Eof,
    /// Skipping the preamble until the first boundary.
    FirstBoundary,
    /// Reading the boundary line between two parts.
    Boundary,
    /// Reading a part's headers.
    Headers,
}

/// One field handed out by the outer stream: its headers, parsed
/// `Content-Type` and `Content-Disposition`, the form field name, and
/// the guard token under which its body may be read.
pub struct Field {
    headers: Headers,
    content_type: Option<MediaType>,
    content_disposition: Option<ContentDisposition>,
    form_field_name: String,
    token: SafetyToken,
}

impl Field {
    /// The header list of this field.
    pub closed spec fn headers_spec(&self) -> Seq<(Seq<u8>, Seq<u8>)> {
        self.headers@
    }

    /// The parsed `Content-Type` of this field, when it has one.
    pub closed spec fn ct_spec(&self) -> Option<MediaTypeView> {
        match self.content_type {
            Some(ref m) => Some(m@),
            None => None,
        }
    }

    /// The parsed `Content-Disposition` of this field, when it has one.
    pub closed spec fn cd_spec(&self) -> Option<crate::disposition::ContentDispositionView> {
        match self.content_disposition {
            Some(ref cd) => Some(cd@),
            None => None,
        }
    }

    /// The form field name (empty unless the outer media type is
    /// `multipart/form-data`).
    pub closed spec fn name_spec(&self) -> Seq<char> {
        self.form_field_name@
    }

    /// The guard token this field reads under.
    pub closed spec fn token_spec(&self) -> SafetyToken {
        self.token
    }

    /// The headers of this field.
    pub fn headers(&self) -> (r: &Headers)
        ensures
            r@ == self.headers_spec(),
    {
        &self.headers
    }

    /// The parsed `Content-Type` of this field, when it has one.
    pub fn content_type(&self) -> (r: Option<&MediaType>)
        ensures
            match r {
                Some(m) => self.ct_spec() == Some(m@),
                None => self.ct_spec() is None,
            },
    {
        self.content_type.as_ref()
    }

    /// The parsed `Content-Disposition` of this field, when it has one.
    pub fn content_disposition(&self) -> (r: Option<&ContentDisposition>)
        ensures
            match r {
                Some(cd) => self.cd_spec() == Some(cd@),
                None => self.cd_spec() is None,
            },
    {
        self.content_disposition.as_ref()
    }

    /// The field's name from its `Content-Disposition`, if set.
    pub fn name(&self) -> (r: Option<&str>)
        ensures
            match r {
                Some(s) => self.cd_spec() matches Some(cd) && first_name(cd.parameters, 0) == Some(
                    s@,
                ),
                None => self.cd_spec() is None || (self.cd_spec() matches Some(cd) && first_name(
                    cd.parameters,
                    0,
                ) is None),
            },
    {
        match &self.content_disposition {
            Some(cd) => cd.get_name(),
            None => None,
        }
    }

    /// The form field name (empty unless the outer media type is
    /// `multipart/form-data`).
    pub fn form_field_name(&self) -> (r: &str)
        ensures
            r@ == self.name_spec(),
    {
        self.form_field_name.as_str()
    }
}

/// One step of the outer sequence.
pub enum OuterPoll {
    /// More input is needed, or another handle is current.
    Pending,
    /// The stream is over.
    Eof,
    /// The next part.
    Field(Field),
    /// The step failed.
    Failed(MultipartError),
}

/// How the outer `Content-Type` header decides initialization: no
/// header, an unparseable one, a non-`multipart` type, and a missing
/// or unusable boundary each name their error; otherwise the parsed
/// media type and the boundary come back.
pub open spec fn boundary_outcome(h: Option<Seq<u8>>) -> Result<
    (MediaTypeView, Seq<u8>),
    MultipartError,
> {
    match h {
        None => Err(MultipartError::NoContentType),
        Some(bytes) => if !vstd::utf8::valid_utf8(bytes) {
            Err(MultipartError::ParseContentType)
        } else {
            match media_type_of(vstd::utf8::decode_utf8(bytes)) {
                None => Err(MultipartError::ParseContentType),
                Some(mt) => if !eq_ci(mt.typ, lit("multipart"@)) {
                    Err(MultipartError::IncompatibleContentType)
                } else {
                    match mt.boundary {
                        None => Err(MultipartError::Boundary),
                        Some(b) => if b.len() == 0 || b.len() + 6 > usize::MAX {
                            Err(MultipartError::Boundary)
                        } else {
                            Ok((mt, b))
                        },
                    }
                },
            }
        },
    }
}

/// The server-side implementation of `multipart/form-data` requests:
/// the outer lazy sequence of fields.
///
/// The caller drains its upstream byte source into the parser with
/// [`Multipart::feed`] and [`Multipart::feed_eof`], and polls with
/// [`Multipart::poll_next`]; each emitted [`Field`]'s body is read
/// with [`Multipart::poll_part`] and released with
/// [`Multipart::release_part`].
pub struct Multipart {
    buffer: ByteBuffer,
    safety: Safety,
    root: Option<SafetyToken>,
    error: Option<MultipartError>,
    media_type: Option<MediaType>,
    boundary: Vec<u8>,
    state: InnerState,
    item: Option<InnerField>,
}

impl Multipart {
    /// The bytes fed but not yet consumed.
    pub closed spec fn bytes(&self) -> Seq<u8> {
        self.buffer.bytes()
    }

    /// Whether the upstream source is exhausted.
    pub closed spec fn eof_in(&self) -> bool {
        self.buffer.is_eof()
    }

    /// The number of outstanding guard tokens.
    pub closed spec fn guard_count(&self) -> u64 {
        self.safety.count()
    }

    /// Whether the guard tree is clean.
    pub closed spec fn guard_clean(&self) -> bool {
        self.safety.clean()
    }

    /// The root guard token, until it is released.
    pub closed spec fn root_spec(&self) -> Option<SafetyToken> {
        self.root
    }

    /// The stored initialization error, not yet surfaced.
    pub closed spec fn init_error(&self) -> Option<MultipartError> {
        self.error
    }

    /// The parser state.
    pub closed spec fn state_spec(&self) -> InnerState {
        self.state
    }

    /// The boundary between parts.
    pub closed spec fn boundary_spec(&self) -> Seq<u8> {
        self.boundary@
    }

    /// The parsed outer media type.
    pub closed spec fn media_spec(&self) -> Option<MediaTypeView> {
        match self.media_type {
            Some(ref m) => Some(m@),
            None => None,
        }
    }

    /// The in-flight part, when one exists.
    pub closed spec fn item_spec(&self) -> Option<InnerField> {
        self.item
    }

    /// Whether the root token is current: no part is outstanding and
    /// the guard tree is clean.
    pub open spec fn root_current(&self) -> bool {
        match self.root_spec() {
            Some(t) => self.guard_count() == t.level() && self.guard_clean(),
            None => false,
        }
    }

    /// Whether a token is current for this stream's guard.
    pub open spec fn holds_current(&self, t: SafetyToken) -> bool {
        self.guard_count() == t.level() && self.guard_clean()
    }

    /// Whether the outer media type is `multipart/form-data`, in which
    /// case every part must carry a `form-data` disposition with a
    /// `name` parameter.
    pub open spec fn form_data_mode(&self) -> bool {
        match self.media_spec() {
            Some(m) => eq_ci(m.subtype, lit("form-data"@)),
            None => false,
        }
    }

    /// Well-formedness: the root token, while held, has snapshot one
    /// and the guard is clean with at most one part token outstanding;
    /// an initialization error implies the terminal state; outside the
    /// terminal state a usable boundary and media type exist; and the
    /// in-flight part reads toward this stream's boundary.
    pub open spec fn wf(&self) -> bool {
        &&& match self.root_spec() {
            Some(t) => t.level() == 1 && self.guard_clean() && 1 <= self.guard_count() <= 2,
            None => true,
        }
        &&& (self.init_error() is Some ==> self.state_spec() == InnerState::Eof)
        &&& (self.state_spec() != InnerState::Eof ==> self.boundary_spec().len() > 0
            && self.boundary_spec().len() + 6 <= usize::MAX && self.media_spec() is Some)
        &&& match self.item_spec() {
            Some(fld) => fld.wf() && fld.boundary_spec() == self.boundary_spec()
                && self.boundary_spec().len() > 0 && self.boundary_spec().len() + 6 <= usize::MAX,
            None => true,
        }
    }

    /// Extract the media type and boundary from a raw outer
    /// `Content-Type` header value.
    pub fn boundary(content_type: Option<&[u8]>) -> (r: Result<
        (MediaType, Vec<u8>),
        MultipartError,
    >)
        ensures
            match r {
                Ok((mt, b)) => boundary_outcome(
                    match content_type {
                        Some(h) => Some(h@),
                        None => None,
                    },
                ) == Ok::<_, MultipartError>((mt@, b@)),
                Err(e) => boundary_outcome(
                    match content_type {
                        Some(h) => Some(h@),
                        None => None,
                    },
                ) == Err::<(MediaTypeView, Seq<u8>), _>(e),
            },
    {
        let h = match content_type {
            None => {
                return Err(MultipartError::NoContentType);
            },
            Some(h) => h,
        };
        let s = match str_from_utf8(h) {
            None => {
                return Err(MultipartError::ParseContentType);
            },
            Some(s) => s,
        };
        proof {
            vstd::utf8::encode_utf8_decode_utf8(s@);
        }
        let mt = match parse_media_type(s) {
            None => {
                return Err(MultipartError::ParseContentType);
            },
            Some(mt) => mt,
        };
        if !eq_bytes_ci(mt.typ.as_slice(), "multipart".as_bytes()) {
            return Err(MultipartError::IncompatibleContentType);
        }
        let b: Vec<u8> = match &mt.boundary {
            None => {
                return Err(MultipartError::Boundary);
            },
            Some(b) => vstd::slice::slice_to_vec(b.as_slice()),
        };
        if b.len() == 0 || b.len() > usize::MAX - 6 {
            return Err(MultipartError::Boundary);
        }
        Ok((mt, b))
    }

    /// Create a multipart stream for a request with the given raw
    /// `Content-Type` header value.  A failure to extract the boundary
    /// is stored and surfaced at the first poll.
    pub fn new(content_type: Option<&[u8]>) -> (r: Multipart)
        ensures
            r.wf(),
            r.bytes() == Seq::<u8>::empty(),
            !r.eof_in(),
            r.guard_count() == 1,
            r.guard_clean(),
            r.root_spec() matches Some(t) && t.level() == 1,
            r.item_spec() is None,
            match boundary_outcome(
                match content_type {
                    Some(h) => Some(h@),
                    None => None,
                },
            ) {
                Ok((mt, b)) => r.init_error() is None && r.media_spec() == Some(mt)
                    && r.boundary_spec() == b && r.state_spec() == InnerState::FirstBoundary,
                Err(e) => r.init_error() == Some(e) && r.state_spec() == InnerState::Eof,
            },
    {
        let (safety, root) = Safety::new();
        match Multipart::boundary(content_type) {
            Ok((mt, b)) => Multipart {
                buffer: ByteBuffer::new(),
                safety,
                root: Some(root),
                error: None,
                media_type: Some(mt),
                boundary: b,
                state: InnerState::FirstBoundary,
                item: None,
            },
            Err(e) => Multipart {
                buffer: ByteBuffer::new(),
                safety,
                root: Some(root),
                error: Some(e),
                media_type: None,
                boundary: Vec::new(),
                state: InnerState::Eof,
                item: None,
            },
        }
    }

    /// Whether [`Multipart::content_type`] still has something to
    /// return: either the stored initialization error or the parsed
    /// media type.
    pub fn has_content_type(&self) -> (r: bool)
        ensures
            r == (self.init_error() is Some || self.media_spec() is Some),
    {
        self.error.is_some() || self.media_type.is_some()
    }

    /// The parsed outer media type, or the stored initialization
    /// error, which is surfaced at most once.
    pub fn content_type(&mut self) -> (r: Result<MediaType, MultipartError>)
        requires
            old(self).init_error() is Some || old(self).media_spec() is Some,
        ensures
            final(self).init_error() is None,
            final(self).bytes() == old(self).bytes(),
            final(self).state_spec() == old(self).state_spec(),
            final(self).media_spec() == old(self).media_spec(),
            final(self).boundary_spec() == old(self).boundary_spec(),
            final(self).guard_count() == old(self).guard_count(),
            final(self).guard_clean() == old(self).guard_clean(),
            final(self).root_spec() == old(self).root_spec(),
            final(self).item_spec() == old(self).item_spec(),
            final(self).eof_in() == old(self).eof_in(),
            match old(self).init_error() {
                Some(e) => r == Err::<MediaType, _>(e),
                None => r matches Ok(mt) && old(self).media_spec() == Some(mt@),
            },
            old(self).wf() ==> final(self).wf(),
    {
        let mut taken: Option<MultipartError> = None;
        core::mem::swap(&mut self.error, &mut taken);
        match taken {
            Some(e) => Err(e),
            None => match &self.media_type {
                Some(mt) => Ok(mt.duplicate()),
                None => {
                    proof {
                        assert(false);
                    }
                    Err(MultipartError::NoContentType)
                },
            },
        }
    }

    /// Whether the upstream source was recorded as exhausted.
    pub fn upstream_eof(&self) -> (r: bool)
        ensures
            r == self.eof_in(),
    {
        self.buffer.eof()
    }

    /// How many fed bytes are still unconsumed.
    pub fn buffered_len(&self) -> (r: usize)
        ensures
            r == self.bytes().len(),
    {
        self.buffer.len()
    }

    /// Hand the parser a chunk received from the upstream source.
    pub fn feed(&mut self, data: &[u8])
        requires
            !old(self).eof_in(),
            old(self).bytes().len() + data@.len() <= usize::MAX,
        ensures
            final(self).bytes() == old(self).bytes() + data@,
            !final(self).eof_in(),
            final(self).state_spec() == old(self).state_spec(),
            final(self).media_spec() == old(self).media_spec(),
            final(self).boundary_spec() == old(self).boundary_spec(),
            final(self).guard_count() == old(self).guard_count(),
            final(self).guard_clean() == old(self).guard_clean(),
            final(self).root_spec() == old(self).root_spec(),
            final(self).item_spec() == old(self).item_spec(),
            final(self).init_error() == old(self).init_error(),
            old(self).wf() ==> final(self).wf(),
    {
        self.buffer.feed(data);
    }

    /// Record that the upstream source is exhausted.
    pub fn feed_eof(&mut self)
        ensures
            final(self).bytes() == old(self).bytes(),
            final(self).eof_in(),
            final(self).state_spec() == old(self).state_spec(),
            final(self).media_spec() == old(self).media_spec(),
            final(self).boundary_spec() == old(self).boundary_spec(),
            final(self).guard_count() == old(self).guard_count(),
            final(self).guard_clean() == old(self).guard_clean(),
            final(self).root_spec() == old(self).root_spec(),
            final(self).item_spec() == old(self).item_spec(),
            final(self).init_error() == old(self).init_error(),
            old(self).wf() ==> final(self).wf(),
    {
        self.buffer.set_eof();
    }
}

} // verus!

verus! {

impl Multipart {
    /// One step of the outer sequence.
    ///
    /// A stored initialization error is surfaced once, after which the
    /// stream is inert.  While a part token is outstanding the poll is
    /// pending (or fails with `NotConsumed` once the guard tree is
    /// unclean) and nothing changes.  Otherwise any part left in
    /// flight is drained first, and the state machine advances: the
    /// preamble is skipped to the first boundary, each boundary line
    /// is read, the next part's headers are parsed, and a new field is
    /// emitted under a freshly cloned guard token — or the stream
    /// ends at the closing boundary.
    #[verifier::rlimit(100)]
    pub fn poll_next(&mut self) -> (r: OuterPoll)
        requires
            old(self).wf(),
        ensures
            final(self).wf(),
            final(self).boundary_spec() == old(self).boundary_spec(),
            final(self).media_spec() == old(self).media_spec(),
            final(self).root_spec() == old(self).root_spec(),
            final(self).eof_in() == old(self).eof_in(),
            final(self).init_error() is None,
            is_suffix_of(final(self).bytes(), old(self).bytes()),
            match old(self).init_error() {
                Some(e) => r == OuterPoll::Failed(e) && final(self).bytes() == old(self).bytes()
                    && final(self).state_spec() == InnerState::Eof && final(self).guard_count()
                    == old(self).guard_count() && final(self).guard_clean() == old(self).guard_clean() && final(self).item_spec() == old(self).item_spec(),
                None => {
                    &&& (!old(self).root_current() ==> *final(self) == *old(self) && if old(self).guard_clean() {
                        r is Pending
                    } else {
                        r == OuterPoll::Failed(MultipartError::NotConsumed)
                    })
                    &&& (old(self).root_current() && old(self).state_spec() == InnerState::Eof
                        ==> r is Eof && *final(self) == *old(self))
                    &&& (old(self).root_current() ==> {
                        &&& (r matches OuterPoll::Field(f) ==> {
                            &&& final(self).guard_count() == old(self).guard_count() + 1
                            &&& final(self).guard_clean()
                            &&& f.token_spec().level() == final(self).guard_count()
                            &&& final(self).holds_current(f.token_spec())
                            &&& final(self).state_spec() == InnerState::Boundary
                            &&& final(self).item_spec() matches Some(fld) && fld.yielded() == 0
                                && !fld.is_released() && !fld.latched() && fld.boundary_spec()
                                == old(self).boundary_spec()
                            &&& (old(self).form_data_mode() ==> (f.cd_spec() matches Some(cd)
                                && cd.disposition is FormData && first_name(cd.parameters, 0)
                                == Some(f.name_spec())))
                            &&& (f.ct_spec() matches Some(ct) ==> !eq_ci(
                                ct.typ,
                                lit("multipart"@),
                            ))
                            &&& (f.cd_spec() matches Some(cd) ==> cd.disposition is FormData)
                            &&& exists|b2: Seq<u8>, i: int|
                                #![trigger parsed_headers(b2.take(i + 4), MAX_HEADERS as int)]
                                {
                                    &&& is_suffix_of(b2, old(self).bytes())
                                    &&& first_match(b2, double_crlf()) == Some(i)
                                    &&& parsed_headers(b2.take(i + 4), MAX_HEADERS as int) == Some(
                                        f.headers_spec(),
                                    )
                                    &&& final(self).bytes() == b2.skip(i + 4)
                                }
                            &&& match extract_field(f.headers_spec(), old(self).form_data_mode()) {
                                Extraction::Emit(cd, ct, nm, decl) => f.cd_spec() == cd
                                    && f.ct_spec() == ct && f.name_spec() == nm && (final(self).item_spec() matches Some(fld2) && fld2.declared() == decl),
                                Extraction::Refuse(_) => false,
                            }
                        })
                        &&& (r is Eof ==> final(self).state_spec() == InnerState::Eof && final(self).guard_count() == old(self).guard_count() && final(self).guard_clean() && (old(self).state_spec() == InnerState::Eof || exists|b1: Seq<u8>, a: int, b: int|
                            #![trigger first_closing_line(b1.subrange(a, b), old(self).boundary_spec())]
                            {
                                &&& is_suffix_of(b1, old(self).bytes())
                                &&& 0 <= a <= b <= b1.len()
                                &&& first_closing_line(b1.subrange(a, b), old(self).boundary_spec())
                                &&& final(self).bytes() == b1.skip(b)
                            }))
                        &&& (r is Pending && old(self).item_spec() is None ==> !old(self).eof_in()
                            && match old(self).state_spec() {
                            InnerState::Headers => *final(self) == *old(self) && first_match(
                                old(self).bytes(),
                                double_crlf(),
                            ) is None,
                            InnerState::Boundary => {
                                ||| (*final(self) == *old(self) && first_match(
                                    old(self).bytes(),
                                    newline(),
                                ) is None)
                                ||| (match first_match(old(self).bytes(), newline()) {
                                    Some(i) => part_boundary_line(
                                        old(self).bytes().take(i + 1),
                                        old(self).boundary_spec(),
                                    ) && final(self).bytes() == old(self).bytes().skip(i + 1)
                                        && first_match(final(self).bytes(), double_crlf())
                                        is None,
                                    None => false,
                                })
                            },
                            InnerState::FirstBoundary => {
                                ||| (exists|k: int|
                                    0 <= k <= old(self).bytes().len() && final(self).bytes()
                                        == #[trigger] old(self).bytes().skip(k)
                                        && skipped_lines_ok(
                                        old(self).bytes(),
                                        k,
                                        old(self).boundary_spec(),
                                    ) && first_match(final(self).bytes(), newline()) is None)
                                ||| (exists|a: int, b: int|
                                    0 <= a <= b <= old(self).bytes().len() && skipped_lines_ok(
                                        old(self).bytes(),
                                        a,
                                        old(self).boundary_spec(),
                                    ) && first_boundary_line(
                                        #[trigger] old(self).bytes().subrange(a, b),
                                        old(self).boundary_spec(),
                                    ) && final(self).bytes() == old(self).bytes().skip(b)
                                        && first_match(final(self).bytes(), double_crlf())
                                        is None)
                            },
                            InnerState::Eof => false,
                        })
                        &&& (r is Pending ==> final(self).guard_count() == old(self).guard_count()
                            && final(self).guard_clean() && final(self).state_spec()
                            != InnerState::Eof && {
                            ||| (final(self).item_spec() matches Some(fld)
                                && crate::field::poll_step(
                                fld,
                                final(self).bytes(),
                                final(self).eof_in(),
                            ) is Pending)
                            ||| ((final(self).state_spec() == InnerState::FirstBoundary || final(self).state_spec() == InnerState::Boundary) && final(self).item_spec() is None
                                && first_match(final(self).bytes(), newline()) is None && !final(self).eof_in())
                            ||| (final(self).state_spec() == InnerState::Headers && final(self).item_spec() is None && first_match(final(self).bytes(), double_crlf())
                                is None && !final(self).eof_in())
                        })
                        &&& (r matches OuterPoll::Failed(e) ==> final(self).guard_count() == old(self).guard_count() && final(self).guard_clean() && match e {
                            MultipartError::Incomplete => final(self).eof_in(),
                            MultipartError::Boundary => exists|b1: Seq<u8>|
                                #![trigger is_suffix_of(b1, old(self).bytes())]
                                {
                                    &&& is_suffix_of(b1, old(self).bytes())
                                    &&& match first_match(b1, newline()) {
                                        Some(i) => final(self).bytes() == b1.skip(i + 1)
                                            && !part_boundary_line(
                                            b1.take(i + 1),
                                            old(self).boundary_spec(),
                                        ) && !closing_boundary_line(
                                            b1.take(i + 1),
                                            old(self).boundary_spec(),
                                        ),
                                        None => final(self).eof_in() && final(self).bytes()
                                            == Seq::<u8>::empty() && !part_boundary_line(
                                            b1,
                                            old(self).boundary_spec(),
                                        ) && !closing_boundary_line(
                                            b1,
                                            old(self).boundary_spec(),
                                        ),
                                    }
                                },
                            MultipartError::Decode => exists|b2: Seq<u8>, i: int|
                                #![trigger parsed_headers(b2.take(i + 4), MAX_HEADERS as int)]
                                {
                                    &&& is_suffix_of(b2, old(self).bytes())
                                    &&& first_match(b2, double_crlf()) == Some(i)
                                    &&& parsed_headers(b2.take(i + 4), MAX_HEADERS as int)
                                        is None
                                    &&& final(self).bytes() == b2.skip(i + 4)
                                },
                            MultipartError::Nested => refused_at_headers(
                                e,
                                old(self).form_data_mode(),
                                old(self).bytes(),
                                final(self).bytes(),
                            ),
                            MultipartError::ContentDispositionMissing => refused_at_headers(
                                e,
                                old(self).form_data_mode(),
                                old(self).bytes(),
                                final(self).bytes(),
                            ),
                            MultipartError::ContentDispositionNameMissing => refused_at_headers(
                                e,
                                old(self).form_data_mode(),
                                old(self).bytes(),
                                final(self).bytes(),
                            ),
                            MultipartError::Payload(pe) => pe == PayloadError::Incomplete
                                && refused_at_headers(
                                e,
                                old(self).form_data_mode(),
                                old(self).bytes(),
                                final(self).bytes(),
                            ),
                            _ => false,
                        })
                    })
                },
            },
    {
        proof {
            lemma_suffix_refl(self.bytes());
        }
        if self.error.is_some() {
            let mut taken: Option<MultipartError> = None;
            core::mem::swap(&mut self.error, &mut taken);
            match taken {
                Some(e) => {
                    return OuterPoll::Failed(e);
                },
                None => {
                    proof {
                        assert(false);
                    }
                },
            }
        }
        let root_ok = match &self.root {
            Some(t) => self.safety.current(t),
            None => false,
        };
        if !root_ok {
            if !self.safety.is_clean() {
                return OuterPoll::Failed(MultipartError::NotConsumed);
            } else {
                return OuterPoll::Pending;
            }
        }
        if self.state == InnerState::Eof {
            return OuterPoll::Eof;
        }
        let ghost entry = *self;
        // Drain any part left in flight before advancing: a dropped
        // part reader's unread bytes are consumed and discarded here.
        loop
            invariant
                self.wf(),
                self.boundary_spec() == entry.boundary_spec(),
                self.media_spec() == entry.media_spec(),
                self.root_spec() == entry.root_spec(),
                self.eof_in() == entry.eof_in(),
                self.init_error() is None,
                self.guard_count() == entry.guard_count(),
                self.guard_clean() == entry.guard_clean(),
                self.state_spec() == entry.state_spec(),
                is_suffix_of(self.bytes(), entry.bytes()),
                entry == *old(self),
                entry.state_spec() != InnerState::Eof,
                entry.init_error() is None,
                entry.root_current(),
                entry.item_spec() is None ==> *self == entry,
            ensures
                self.wf(),
                self.boundary_spec() == entry.boundary_spec(),
                self.media_spec() == entry.media_spec(),
                self.root_spec() == entry.root_spec(),
                self.eof_in() == entry.eof_in(),
                self.init_error() is None,
                self.guard_count() == entry.guard_count(),
                self.guard_clean() == entry.guard_clean(),
                self.state_spec() == entry.state_spec(),
                is_suffix_of(self.bytes(), entry.bytes()),
                entry == *old(self),
                self.item_spec() is None,
                entry.item_spec() is None ==> *self == entry,
            decreases self.bytes().len(), (if self.item is Some {
                1int
            } else {
                0int
            }),
        {
            let ghost pre = *self;
            let done = match &mut self.item {
                None => true,
                Some(fld) => {
                    let ghost fld0 = *fld;
                    match fld.poll(&mut self.buffer) {
                        PartRead::Pending => {
                            return OuterPoll::Pending;
                        },
                        PartRead::Chunk(_c) => false,
                        PartRead::Failed(e) => {
                            proof {
                                assert(crate::field::poll_step(
                                    fld0,
                                    pre.bytes(),
                                    pre.eof_in(),
                                ) is Failed);
                                assert(pre.eof_in());
                            }
                            return OuterPoll::Failed(e);
                        },
                        PartRead::End => {
                            true
                        },
                    }
                },
            };
            proof {
                lemma_suffix_refl(self.bytes());
                lemma_suffix_trans(self.bytes(), pre.bytes(), entry.bytes());
            }
            if done {
                self.item = None;
                break;
            }
            proof {
                assert(self.bytes().len() < pre.bytes().len());
            }
        }
        // Advance the state machine to the next part's headers.
        match self.state {
            InnerState::FirstBoundary => {
                let ghost pre = *self;
                match skip_until_boundary(&mut self.buffer, self.boundary.as_slice()) {
                    BoundaryRead::Part => {
                        proof {
                            lemma_suffix_trans(self.bytes(), pre.bytes(), entry.bytes());
                        }
                        self.state = InnerState::Headers;
                    },
                    BoundaryRead::Done => {
                        proof {
                            lemma_suffix_trans(self.bytes(), pre.bytes(), entry.bytes());
                            let (a, b) = choose|a: int, b: int|
                                0 <= a <= b <= pre.bytes().len() && self.bytes()
                                    == pre.bytes().skip(b) && first_closing_line(
                                    #[trigger] pre.bytes().subrange(a, b),
                                    entry.boundary_spec(),
                                ) && skipped_lines_ok(pre.bytes(), a, entry.boundary_spec())
                                    && first_match(pre.bytes().skip(a), newline()) == Some(
                                    b - a - 1,
                                );
                            assert(first_closing_line(
                                pre.bytes().subrange(a, b),
                                entry.boundary_spec(),
                            ));
                        }
                        self.state = InnerState::Eof;
                        return OuterPoll::Eof;
                    },
                    BoundaryRead::Pending => {
                        proof {
                            lemma_suffix_trans(self.bytes(), pre.bytes(), entry.bytes());
                        }
                        return OuterPoll::Pending;
                    },
                    BoundaryRead::Failed(e) => {
                        proof {
                            lemma_suffix_trans(self.bytes(), pre.bytes(), entry.bytes());
                        }
                        return OuterPoll::Failed(e);
                    },
                }
            },
            InnerState::Boundary => {
                let ghost pre = *self;
                let r = read_boundary(&mut self.buffer, self.boundary.as_slice());
                proof {
                    crate::bytes::lemma_first_match(pre.bytes(), newline());
                    match first_match(pre.bytes(), newline()) {
                        Some(i) => {
                            lemma_skip_suffix(pre.bytes(), i + 1);
                        },
                        None => {
                            if pre.eof_in() {
                                lemma_skip_suffix(pre.bytes(), pre.bytes().len() as int);
                                assert(pre.bytes().skip(pre.bytes().len() as int) =~= Seq::<
                                    u8,
                                >::empty());
                            } else {
                                lemma_suffix_refl(pre.bytes());
                            }
                        },
                    }
                    lemma_suffix_trans(self.bytes(), pre.bytes(), entry.bytes());
                }
                match r {
                    BoundaryRead::Part => {
                        self.state = InnerState::Headers;
                    },
                    BoundaryRead::Done => {
                        proof {
                            match first_match(pre.bytes(), newline()) {
                                Some(i) => {
                                    assert(pre.bytes().subrange(0, i + 1) =~= pre.bytes().take(
                                        i + 1,
                                    ));
                                    assert(first_closing_line(
                                        pre.bytes().subrange(0, i + 1),
                                        entry.boundary_spec(),
                                    ));
                                },
                                None => {
                                    let n = pre.bytes().len() as int;
                                    assert(pre.bytes().subrange(0, n) =~= pre.bytes());
                                    assert(self.bytes() =~= pre.bytes().skip(n));
                                    assert(first_closing_line(
                                        pre.bytes().subrange(0, n),
                                        entry.boundary_spec(),
                                    ));
                                },
                            }
                        }
                        self.state = InnerState::Eof;
                        return OuterPoll::Eof;
                    },
                    BoundaryRead::Pending => {
                        return OuterPoll::Pending;
                    },
                    BoundaryRead::Failed(e) => {
                        proof {
                            assert(is_suffix_of(pre.bytes(), entry.bytes()));
                            match first_match(pre.bytes(), newline()) {
                                Some(i) => {},
                                None => {
                                    assert(self.bytes() =~= Seq::<u8>::empty());
                                },
                            }
                        }
                        return OuterPoll::Failed(e);
                    },
                }
            },
            InnerState::Headers => {},
            InnerState::Eof => {
                proof {
                    assert(false);
                }
                return OuterPoll::Eof;
            },
        }
        proof {
            assert(self.state_spec() == InnerState::Headers);
        }
        // Read and parse the next part's headers.
        let ghost pre = *self;
        let headers = match read_headers(&mut self.buffer) {
            HeadersRead::Done(h) => h,
            HeadersRead::Pending => {
                proof {
                    lemma_suffix_refl(pre.bytes());
                    lemma_suffix_trans(self.bytes(), pre.bytes(), entry.bytes());
                    if entry.item_spec() is None && entry.state_spec()
                        == InnerState::FirstBoundary {
                        let (a, b) = choose|a: int, b: int|
                            0 <= a <= b <= entry.bytes().len() && pre.bytes()
                                == entry.bytes().skip(b) && first_boundary_line(
                                #[trigger] entry.bytes().subrange(a, b),
                                entry.boundary_spec(),
                            ) && skipped_lines_ok(entry.bytes(), a, entry.boundary_spec())
                                && first_match(entry.bytes().skip(a), newline()) == Some(
                                b - a - 1,
                            );
                        assert(first_boundary_line(
                            entry.bytes().subrange(a, b),
                            entry.boundary_spec(),
                        ));
                    }
                }
                return OuterPoll::Pending;
            },
            HeadersRead::Failed(e) => {
                proof {
                    crate::bytes::lemma_first_match(pre.bytes(), double_crlf());
                    if first_match(pre.bytes(), double_crlf()) is Some {
                        let i = first_match(pre.bytes(), double_crlf())->Some_0;
                        lemma_skip_suffix(pre.bytes(), i + 4);
                        assert(is_suffix_of(pre.bytes(), entry.bytes()));
                    } else {
                        lemma_suffix_refl(pre.bytes());
                    }
                    lemma_suffix_trans(self.bytes(), pre.bytes(), entry.bytes());
                }
                return OuterPoll::Failed(e);
            },
        };
        let ghost hblock_end = first_match(pre.bytes(), double_crlf())->Some_0 + 4;
        proof {
            crate::bytes::lemma_first_match(pre.bytes(), double_crlf());
            lemma_skip_suffix(pre.bytes(), hblock_end);
            lemma_suffix_trans(self.bytes(), pre.bytes(), entry.bytes());
            assert(is_suffix_of(pre.bytes(), entry.bytes()));
        }
        self.state = InnerState::Boundary;
        // Extract the part's Content-Disposition; only a form-data
        // disposition is kept.
        let content_disposition: Option<ContentDisposition> = extract_cd(&headers);
        // In form-data mode the disposition and its name are mandatory.
        let fd_mode = match &self.media_type {
            Some(m) => eq_bytes_ci(m.subtype.as_slice(), "form-data".as_bytes()),
            None => false,
        };
        proof {
            assert(fd_mode == entry.form_data_mode());
        }
        let mut form_field_name = String::new();
        if fd_mode {
            match &content_disposition {
                None => {
                    proof {
                        assert(extract_field(headers@, entry.form_data_mode())
                            == Extraction::Refuse(MultipartError::ContentDispositionMissing));
                        assert(refused_at_headers(
                            MultipartError::ContentDispositionMissing,
                            entry.form_data_mode(),
                            entry.bytes(),
                            self.bytes(),
                        )) by {
                            assert(parsed_headers(pre.bytes().take(hblock_end), MAX_HEADERS as int)
                                == Some(headers@) && extract_field(headers@, entry.form_data_mode())
                                == Extraction::Refuse(MultipartError::ContentDispositionMissing));
                        }
                    }
                    return OuterPoll::Failed(MultipartError::ContentDispositionMissing);
                },
                Some(cd) => match cd.get_name() {
                    None => {
                        proof {
                            assert(extract_field(headers@, entry.form_data_mode())
                                == Extraction::Refuse(
                                MultipartError::ContentDispositionNameMissing,
                            ));
                            assert(refused_at_headers(
                                MultipartError::ContentDispositionNameMissing,
                                entry.form_data_mode(),
                                entry.bytes(),
                                self.bytes(),
                            )) by {
                                assert(parsed_headers(
                                    pre.bytes().take(hblock_end),
                                    MAX_HEADERS as int,
                                ) == Some(headers@) && extract_field(
                                    headers@,
                                    entry.form_data_mode(),
                                ) == Extraction::Refuse(
                                    MultipartError::ContentDispositionNameMissing,
                                ));
                            }
                        }
                        return OuterPoll::Failed(MultipartError::ContentDispositionNameMissing);
                    },
                    Some(nm) => {
                        form_field_name = nm.to_owned();
                    },
                },
            }
        }
        // Extract the part's Content-Type; nested multipart is refused.
        let content_type: Option<MediaType> = extract_ct(&headers);
        if let Some(ct) = &content_type {
            if eq_bytes_ci(ct.typ.as_slice(), "multipart".as_bytes()) {
                proof {
                    assert(extract_field(headers@, entry.form_data_mode())
                        == Extraction::Refuse(MultipartError::Nested));
                    assert(refused_at_headers(
                        MultipartError::Nested,
                        entry.form_data_mode(),
                        entry.bytes(),
                        self.bytes(),
                    )) by {
                        assert(parsed_headers(pre.bytes().take(hblock_end), MAX_HEADERS as int)
                            == Some(headers@) && extract_field(headers@, entry.form_data_mode())
                            == Extraction::Refuse(MultipartError::Nested));
                    }
                }
                return OuterPoll::Failed(MultipartError::Nested);
            }
        }
        // Install the new part and hand out a field under a fresh
        // guard token.
        let inner = match InnerField::new(
            vstd::slice::slice_to_vec(self.boundary.as_slice()),
            &headers,
        ) {
            Ok(f) => f,
            Err(e) => {
                proof {
                    assert(extract_field(headers@, entry.form_data_mode())
                        == Extraction::Refuse(
                        MultipartError::Payload(PayloadError::Incomplete),
                    ));
                    assert(refused_at_headers(
                        MultipartError::Payload(PayloadError::Incomplete),
                        entry.form_data_mode(),
                        entry.bytes(),
                        self.bytes(),
                    )) by {
                        assert(parsed_headers(pre.bytes().take(hblock_end), MAX_HEADERS as int)
                            == Some(headers@) && extract_field(headers@, entry.form_data_mode())
                            == Extraction::Refuse(
                            MultipartError::Payload(PayloadError::Incomplete),
                        ));
                    }
                }
                return OuterPoll::Failed(e);
            },
        };
        self.item = Some(inner);
        let token = self.safety.clone_token();
        let f = Field { headers, content_type, content_disposition, form_field_name, token };
        proof {
            assert(match extract_field(f.headers_spec(), entry.form_data_mode()) {
                Extraction::Emit(cd, ct, nm, decl) => f.cd_spec() == cd && f.ct_spec() == ct
                    && f.name_spec() == nm && (self.item_spec() matches Some(fld2)
                    && fld2.declared() == decl),
                Extraction::Refuse(_) => false,
            });
        }
        OuterPoll::Field(f)
    }
}

} // verus!

verus! {

impl Multipart {
    /// One step of the in-flight part's body sequence, on behalf of
    /// the field holding `f`'s token.
    ///
    /// A field whose token is not current gets `Pending` while the
    /// guard tree is clean and fails with `NotConsumed` once it is
    /// not.  Otherwise the part reader advances: body chunks are
    /// yielded (never containing a boundary marker in streaming mode,
    /// and never exceeding the declared length otherwise), and the end
    /// of the body is reported once its trailing line is consumed.
    pub fn poll_part(&mut self, f: &Field) -> (r: PartRead)
        requires
            old(self).wf(),
        ensures
            final(self).wf(),
            final(self).boundary_spec() == old(self).boundary_spec(),
            final(self).media_spec() == old(self).media_spec(),
            final(self).root_spec() == old(self).root_spec(),
            final(self).eof_in() == old(self).eof_in(),
            final(self).init_error() == old(self).init_error(),
            final(self).state_spec() == old(self).state_spec(),
            final(self).guard_count() == old(self).guard_count(),
            final(self).guard_clean() == old(self).guard_clean(),
            crate::bytes::is_suffix_of(final(self).bytes(), old(self).bytes()),
            !old(self).holds_current(f.token_spec()) ==> *final(self) == *old(self) && if old(self).guard_clean() {
                r is Pending
            } else {
                r == PartRead::Failed(MultipartError::NotConsumed)
            },
            old(self).holds_current(f.token_spec()) ==> match old(self).item_spec() {
                None => r is End && *final(self) == *old(self),
                Some(fld) => {
                    &&& crate::field::kind_of(r) == crate::field::poll_step(
                        fld,
                        old(self).bytes(),
                        old(self).eof_in(),
                    )
                    &&& (fld.is_released() ==> r is End && *final(self) == *old(self))
                    &&& match r {
                        PartRead::Chunk(c) => {
                            &&& c@.len() == crate::field::chunk_len(fld, old(self).bytes())
                            &&& c@.len() > 0
                            &&& c@ == old(self).bytes().take(c@.len() as int)
                            &&& final(self).bytes() == old(self).bytes().skip(c@.len() as int)
                            &&& final(self).item_spec() matches Some(f2) && f2.yielded()
                                == fld.yielded() + c@.len() && f2.declared() == fld.declared()
                            &&& (fld.declared() is None ==> crate::field::chunk_clean(
                                c@,
                                old(self).boundary_spec(),
                            ) && forall|q: int|
                                0 <= q < c@.len() ==> !crate::field::boundary_marker_at(
                                    old(self).bytes(),
                                    old(self).boundary_spec(),
                                    q,
                                ))
                        },
                        PartRead::Pending => final(self).bytes() == old(self).bytes() && (final(self).item_spec() matches Some(f2) && crate::field::poll_step(
                            f2,
                            final(self).bytes(),
                            final(self).eof_in(),
                        ) is Pending),
                        PartRead::End => (final(self).item_spec() matches Some(f2)
                            && f2.is_released() && f2.yielded() == fld.yielded() && (
                        match fld.declared() {
                            Some(d) => f2.yielded() == d,
                            None => true,
                        })) && ((fld.is_released() && final(self).bytes() == old(self).bytes())
                            || (match first_match(old(self).bytes(), newline()) {
                            Some(i) => final(self).bytes() == old(self).bytes().skip(i + 1),
                            None => false,
                        })),
                        PartRead::Failed(e) => e == MultipartError::Incomplete && final(self).bytes() == old(self).bytes(),
                    }
                },
            },
    {
        proof {
            lemma_suffix_refl(self.bytes());
        }
        if !self.safety.current(&f.token) {
            if !self.safety.is_clean() {
                return PartRead::Failed(MultipartError::NotConsumed);
            } else {
                return PartRead::Pending;
            }
        }
        match &mut self.item {
            None => PartRead::End,
            Some(fld) => fld.poll(&mut self.buffer),
        }
    }

    /// Release a field's guard token: the consumer is done with (or
    /// has dropped) the part.  Releasing the current token promotes
    /// the outer stream's root token back to current.
    pub fn release_part(&mut self, f: Field)
        requires
            old(self).wf(),
            2 <= f.token_spec().level(),
        ensures
            final(self).wf(),
            final(self).boundary_spec() == old(self).boundary_spec(),
            final(self).media_spec() == old(self).media_spec(),
            final(self).root_spec() == old(self).root_spec(),
            final(self).eof_in() == old(self).eof_in(),
            final(self).init_error() == old(self).init_error(),
            final(self).state_spec() == old(self).state_spec(),
            final(self).item_spec() == old(self).item_spec(),
            final(self).bytes() == old(self).bytes(),
            old(self).holds_current(f.token_spec()) ==> final(self).guard_count() == old(self).guard_count() - 1 && final(self).guard_clean() == old(self).guard_clean(),
            !old(self).holds_current(f.token_spec()) && !(f.token_spec().level() == 1 && old(self).guard_count() != 1) ==> final(self).guard_count() == old(self).guard_count()
                && final(self).guard_clean() == old(self).guard_clean(),
    {
        let Field { token, .. } = f;
        proof {
            if self.root is Some && self.safety.token_current(&token) {
                assert(self.guard_count() >= 1);
            }
        }
        self.safety.release(token);
    }

    /// Release the outer stream's own root token: the stream itself is
    /// being discarded.  Doing so while a part token is outstanding
    /// clears the `clean` flag permanently, so that the orphaned part
    /// fails with `NotConsumed` instead of reading a buffer nobody
    /// else will ever advance.
    pub fn release_root(&mut self)
        requires
            old(self).wf(),
        ensures
            final(self).wf(),
            final(self).root_spec() is None,
            final(self).boundary_spec() == old(self).boundary_spec(),
            final(self).media_spec() == old(self).media_spec(),
            final(self).eof_in() == old(self).eof_in(),
            final(self).init_error() == old(self).init_error(),
            final(self).state_spec() == old(self).state_spec(),
            final(self).item_spec() == old(self).item_spec(),
            final(self).bytes() == old(self).bytes(),
            match old(self).root_spec() {
                Some(t) => if old(self).guard_count() == 1 {
                    final(self).guard_count() == 0 && final(self).guard_clean()
                } else {
                    final(self).guard_count() == old(self).guard_count() && !final(self).guard_clean()
                },
                None => final(self).guard_count() == old(self).guard_count() && final(self).guard_clean() == old(self).guard_clean(),
            },
    {
        let mut tmp: Option<SafetyToken> = None;
        core::mem::swap(&mut self.root, &mut tmp);
        match tmp {
            Some(t) => {
                self.safety.release(t);
            },
            None => {},
        }
    }
}

} // verus!

verus! {

/// The `Content-Disposition` a part's headers carry, kept only when
/// its raw value is UTF-8, parses, and declares `form-data`.
pub open spec fn cd_of_headers(hs: Seq<(Seq<u8>, Seq<u8>)>) -> Option<ContentDispositionView> {
    match lookup(hs, lit("content-disposition"@)) {
        None => None,
        Some(v) => if !vstd::utf8::valid_utf8(v) {
            None
        } else {
            match crate::disposition::spec_parse_cd(vstd::utf8::decode_utf8(v)) {
                None => None,
                Some(cd) => if cd.disposition is FormData {
                    Some(cd)
                } else {
                    None
                },
            }
        },
    }
}

/// The media type a part's headers carry, when its raw value is UTF-8
/// and parses.
pub open spec fn ct_of_headers(hs: Seq<(Seq<u8>, Seq<u8>)>) -> Option<MediaTypeView> {
    match lookup(hs, lit("content-type"@)) {
        None => None,
        Some(v) => if !vstd::utf8::valid_utf8(v) {
            None
        } else {
            media_type_of(vstd::utf8::decode_utf8(v))
        },
    }
}

/// What a parsed header block decides: the pieces of the field to
/// emit, or the error that refuses the part.
pub ghost enum Extraction {
    /// Emit a field: its disposition, media type, form field name, and
    /// declared body length.
    Emit(Option<ContentDispositionView>, Option<MediaTypeView>, Seq<char>, Option<u64>),
    /// Refuse the part with this error.
    Refuse(MultipartError),
}

/// How a part's headers decide between a field and an error: in
/// form-data mode a `form-data` disposition with a `name` is
/// mandatory; a nested multipart media type is refused; a malformed
/// `Content-Length` fails the part.
pub open spec fn extract_field(hs: Seq<(Seq<u8>, Seq<u8>)>, fd_mode: bool) -> Extraction {
    let cd = cd_of_headers(hs);
    if fd_mode && cd is None {
        Extraction::Refuse(MultipartError::ContentDispositionMissing)
    } else if fd_mode && first_name(cd->Some_0.parameters, 0) is None {
        Extraction::Refuse(MultipartError::ContentDispositionNameMissing)
    } else {
        let ct = ct_of_headers(hs);
        if ct matches Some(m) && eq_ci(m.typ, lit("multipart"@)) {
            Extraction::Refuse(MultipartError::Nested)
        } else {
            let name: Seq<char> = if fd_mode {
                first_name(cd->Some_0.parameters, 0)->Some_0
            } else {
                Seq::<char>::empty()
            };
            match lookup(hs, lit("content-length"@)) {
                Some(v) => if v.len() > 0 && all_digits(v) && dec_value(v) <= u64::MAX {
                    Extraction::Emit(cd, ct, name, Some(dec_value(v) as u64))
                } else {
                    Extraction::Refuse(MultipartError::Payload(PayloadError::Incomplete))
                },
                None => Extraction::Emit(cd, ct, name, None),
            }
        }
    }
}

/// A part was refused while its headers were extracted: some buffered
/// suffix began with a complete header block whose extraction names
/// exactly this error, and the block was consumed.
pub open spec fn refused_at_headers(
    e: MultipartError,
    fd_mode: bool,
    b_old: Seq<u8>,
    b_final: Seq<u8>,
) -> bool {
    exists|b2: Seq<u8>, i: int, hs: Seq<(Seq<u8>, Seq<u8>)>|
        #![trigger parsed_headers(b2.take(i + 4), MAX_HEADERS as int), extract_field(hs, fd_mode)]
        {
            &&& is_suffix_of(b2, b_old)
            &&& first_match(b2, double_crlf()) == Some(i)
            &&& parsed_headers(b2.take(i + 4), MAX_HEADERS as int) == Some(hs)
            &&& extract_field(hs, fd_mode) == Extraction::Refuse(e)
            &&& b_final == b2.skip(i + 4)
        }
}

/// Extract and filter a part's `Content-Disposition` from its headers.
fn extract_cd(headers: &Headers) -> (r: Option<ContentDisposition>)
    ensures
        match r {
            Some(cd) => cd_of_headers(headers@) == Some(cd@),
            None => cd_of_headers(headers@) is None,
        },
{
    match headers.get("content-disposition".as_bytes()) {
        Some(v) => match str_from_utf8(v.as_slice()) {
            Some(s) => {
                proof {
                    vstd::utf8::encode_utf8_decode_utf8(s@);
                }
                match ContentDisposition::parse_header(s) {
                    Ok(cd) => {
                        if cd.is_form_data() {
                            Some(cd)
                        } else {
                            None
                        }
                    },
                    Err(_) => None,
                }
            },
            None => None,
        },
        None => None,
    }
}

/// Extract a part's media type from its headers.
fn extract_ct(headers: &Headers) -> (r: Option<MediaType>)
    ensures
        match r {
            Some(m) => ct_of_headers(headers@) == Some(m@),
            None => ct_of_headers(headers@) is None,
        },
{
    match headers.get("content-type".as_bytes()) {
        Some(v) => match str_from_utf8(v.as_slice()) {
            Some(s) => {
                proof {
                    vstd::utf8::encode_utf8_decode_utf8(s@);
                }
                parse_media_type(s)
            },
            None => None,
        },
        None => None,
    }
}

} // verus!
