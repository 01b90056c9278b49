//! Reading byte ranges from a data source, and the MDF blocks an index is built from.

use vstd::prelude::*;
use crate::bytes::{from_le16, from_le32, from_le64, lemma_le64_roundtrip};
use crate::error::MdfError;
use crate::text::{spec_utf8_lossy, utf8_lossy};
use crate::bytes::copy_range;

verus! {

/// Trait for reading arbitrary byte ranges from a data source (a file, an HTTP
/// resource, cloud storage, memory).
///
/// A source has contents that reads do not change. A read gives exactly the requested
/// bytes of them, or fails; a reliable source fails only for ranges past its end.
pub trait ByteRangeReader {
    /// Error type returned by read operations.
    type Error;

    /// The bytes of the source. A source that does not say what they are reads from
    /// bytes that are not known here.
    open spec fn contents(&self) -> Seq<u8> {
        arbitrary()
    }

    /// Whether reads fail only for ranges past the end, and then with the source's
    /// end-of-data error. A source that does not say so is not taken to be.
    open spec fn reliable(&self) -> bool {
        false
    }

    /// The error a reliable source gives for a range past its end. A source that does
    /// not say which gives one not known here.
    open spec fn eof_error() -> Self::Error {
        arbitrary()
    }

    /// Read `length` bytes starting at `offset`.
    fn read_range(&mut self, offset: u64, length: u64) -> (r: Result<Vec<u8>, Self::Error>)
        ensures
            final(self).contents() == old(self).contents(),
            final(self).reliable() == old(self).reliable(),
            r is Ok ==> offset + length <= old(self).contents().len(),
            r matches Ok(v) ==> v@ == old(self).contents().subrange(offset as int, offset + length),
            old(self).reliable() && offset + length <= old(self).contents().len() ==> r is Ok,
            old(self).reliable() && offset + length > old(self).contents().len() ==> r == Err::<Vec<u8>, Self::Error>(Self::eof_error()),
    ;
}

/// A reader over bytes in memory.
pub struct SliceRangeReader<'a> {
    /// The bytes read from.
    pub data: &'a [u8],
}

impl<'a> SliceRangeReader<'a> {
    /// A reader over `data`.
    pub fn new(data: &'a [u8]) -> (r: Self)
        ensures
            r.data@ == data@,
    {
        Self { data }
    }
}

impl<'a> ByteRangeReader for SliceRangeReader<'a> {
    type Error = MdfError;

    open spec fn contents(&self) -> Seq<u8> {
        self.data@
    }

    open spec fn reliable(&self) -> bool {
        true
    }

    open spec fn eof_error() -> MdfError {
        MdfError::UnexpectedEof
    }

    fn read_range(&mut self, offset: u64, length: u64) -> (r: Result<Vec<u8>, MdfError>) {
        let n = self.data.len();
        if offset as u128 + length as u128 > n as u128 {
            return Err(MdfError::UnexpectedEof);
        }
        Ok(copy_range(self.data, offset as usize, (offset + length) as usize))
    }
}

/// The bytes `a..a + n` of `c`, when they are there.
pub open spec fn spec_read(c: Seq<u8>, a: int, n: int) -> Option<Seq<u8>> {
    if 0 <= a && 0 <= n && a + n <= c.len() {
        Some(c.subrange(a, a + n))
    } else {
        None
    }
}

/// The little-endian `u64` at byte `i` of `b`.
pub open spec fn u64_at(b: Seq<u8>, i: int) -> u64 {
    from_le64(b.subrange(i, i + 8))
}

/// The little-endian `u32` at byte `i` of `b`.
pub open spec fn u32_at(b: Seq<u8>, i: int) -> u32 {
    from_le32(b[i], b[i + 1], b[i + 2], b[i + 3])
}

/// Whether `b` starts with the block identifier `##XY`.
pub open spec fn id_is(b: Seq<u8>, x: u8, y: u8) -> bool {
    b.len() >= 4 && b[0] == 0x23 && b[1] == 0x23 && b[2] == x && b[3] == y
}

/// Reads the little-endian `u64` at byte `i` of `b`.
pub fn read_u64_at(b: &[u8], i: usize) -> (r: u64)
    requires
        i + 8 <= b@.len(),
    ensures
        r == u64_at(b@, i as int),
{
    let r = (b[i] as u64) | ((b[i + 1] as u64) << 8u64) | ((b[i + 2] as u64) << 16u64) | ((b[i
        + 3] as u64) << 24u64) | ((b[i + 4] as u64) << 32u64) | ((b[i + 5] as u64) << 40u64) | ((
    b[i + 6] as u64) << 48u64) | ((b[i + 7] as u64) << 56u64);
    assert(b@.subrange(i as int, i + 8)[0] == b@[i as int]);
    assert(b@.subrange(i as int, i + 8)[7] == b@[i + 7]);
    r
}

/// Reads the little-endian `u32` at byte `i` of `b`.
pub fn read_u32_at(b: &[u8], i: usize) -> (r: u32)
    requires
        i + 4 <= b@.len(),
    ensures
        r == u32_at(b@, i as int),
{
    (b[i] as u32) | ((b[i + 1] as u32) << 8u32) | ((b[i + 2] as u32) << 16u32) | ((b[i + 3] as u32)
        << 24u32)
}

/// Whether `b` starts with the block identifier `##XY`.
pub fn has_id(b: &[u8], x: u8, y: u8) -> (r: bool)
    ensures
        r == id_is(b@, x, y),
{
    b.len() >= 4 && b[0] == 0x23 && b[1] == 0x23 && b[2] == x && b[3] == y
}

/// Reads `length` bytes at `offset`, failing when the source does.
pub fn read_exact<R: ByteRangeReader<Error = MdfError>>(reader: &mut R, offset: u64, length: u64) -> (r: Result<Vec<u8>, MdfError>)
    ensures
        final(reader).contents() == old(reader).contents(),
        final(reader).reliable() == old(reader).reliable(),
        r matches Ok(v) ==> spec_read(old(reader).contents(), offset as int, length as int) == Some(v@),
        spec_read(old(reader).contents(), offset as int, length as int) is None ==> r is Err,
        old(reader).reliable() && spec_read(old(reader).contents(), offset as int, length as int) is Some ==> r is Ok,
        old(reader).reliable() && spec_read(old(reader).contents(), offset as int, length as int) is None ==> r == Err::<Vec<u8>, MdfError>(R::eof_error()),
{
    reader.read_range(offset, length)
}

/// The length of the prefix of `s` before its first zero byte (all of `s` if none).
pub open spec fn text_len(s: Seq<u8>) -> int
    decreases s.len(),
{
    if s.len() == 0 {
        0
    } else if s[0] == 0 {
        0
    } else {
        1 + text_len(s.drop_first())
    }
}

/// A text block's length is at most its bytes' and every byte before it is nonzero.
pub proof fn lemma_text_len(s: Seq<u8>)
    ensures
        0 <= text_len(s) <= s.len(),
        forall|i: int| 0 <= i < text_len(s) ==> s[i] != 0,
        text_len(s) < s.len() ==> s[text_len(s)] == 0,
    decreases s.len(),
{
    if s.len() > 0 && s[0] != 0 {
        lemma_text_len(s.drop_first());
        assert forall|i: int| 0 <= i < text_len(s) implies s[i] != 0 by {
            if i > 0 {
                assert(s[i] == s.drop_first()[i - 1]);
            }
        }
    }
}

/// What reading the text block at `addr` gives: nothing for address 0; else its text
/// (the bytes after the header up to the first zero, decoded as UTF-8). The block must
/// be a TX or MD block and lie within the source.
pub open spec fn spec_text(c: Seq<u8>, addr: u64) -> Result<Option<Seq<char>>, MdfError> {
    if addr == 0 {
        Ok(None)
    } else {
        match spec_read(c, addr as int, 24) {
            None => Err(MdfError::UnexpectedEof),
            Some(h) => {
                let len = u64_at(h, 8);
                if !(id_is(h, 0x54, 0x58) || id_is(h, 0x4D, 0x44)) {
                    Err(MdfError::BlockIdMismatch)
                } else if len < 24 {
                    Err(MdfError::UnexpectedEof)
                } else {
                    match spec_read(c, addr as int, len as int) {
                        None => Err(MdfError::UnexpectedEof),
                        Some(b) => {
                            let body = b.subrange(24, b.len() as int);
                            Ok(Some(spec_utf8_lossy(body.take(text_len(body)))))
                        },
                    }
                }
            },
        }
    }
}

/// Whether a read followed the spec: an `Ok` is the spec's value; when the spec fails so
/// does the read; from a reliable source the read succeeds when the spec does; and from
/// a reliable source whose end-of-data error is `UnexpectedEof` (`exact`) the read's
/// error is the spec's.
pub open spec fn read_follows<T, U>(r: Result<T, MdfError>, s: Result<U, MdfError>, f: spec_fn(T) -> U, reliable: bool, exact: bool) -> bool {
    &&& (r matches Ok(v) ==> s == Ok::<U, MdfError>(f(v)))
    &&& (s is Err ==> r is Err)
    &&& (reliable && s is Ok ==> r is Ok)
    &&& (exact ==> reliable)
    &&& (exact ==> (r matches Err(e) ==> s == Err::<U, MdfError>(e)))
}

/// Whether a source is reliable and reports reads past its end as `UnexpectedEof`, so
/// that what is read from it fails exactly as the spec does.
pub open spec fn exact_source<R: ByteRangeReader<Error = MdfError>>(reader: R) -> bool {
    reader.reliable() && R::eof_error() == MdfError::UnexpectedEof
}

/// The view of an optional string.
pub open spec fn opt_view(o: Option<String>) -> Option<Seq<char>> {
    match o {
        Some(s) => Some(s@),
        None => None,
    }
}

/// Read the text block at `addr` (address 0 means none).
pub fn read_text_block<R: ByteRangeReader<Error = MdfError>>(reader: &mut R, addr: u64) -> (r: Result<Option<String>, MdfError>)
    ensures
        final(reader).contents() == old(reader).contents(),
        final(reader).reliable() == old(reader).reliable(),
        read_follows(r, spec_text(old(reader).contents(), addr), |o: Option<String>| opt_view(o), old(reader).reliable(), exact_source(*old(reader))),
{
    if addr == 0 {
        return Ok(None);
    }
    let h = read_exact(reader, addr, 24)?;
    let len = read_u64_at(h.as_slice(), 8);
    if !(has_id(h.as_slice(), 0x54, 0x58) || has_id(h.as_slice(), 0x4D, 0x44)) {
        return Err(MdfError::BlockIdMismatch);
    }
    if len < 24 {
        return Err(MdfError::UnexpectedEof);
    }
    let b = read_exact(reader, addr, len)?;
    let ghost body = b@.subrange(24, b@.len() as int);
    let mut end: usize = 24;
    while end < b.len() && b[end] != 0
        invariant
            24 <= end <= b@.len(),
            b@.len() >= 24,
            body == b@.subrange(24, b@.len() as int),
            forall|i: int| 24 <= i < end ==> b@[i] != 0,
        decreases b@.len() - end,
    {
        end = end + 1;
    }
    proof {
        lemma_text_len(body);
        let k = text_len(body);
        assert(end - 24 == k) by {
            if end - 24 < k {
                assert(body[end - 24] != 0);
                assert(b@[end as int] == body[end - 24]);
            }
            if end - 24 > k {
                assert(body[k] == b@[24 + k]);
            }
        }
    }
    let text = copy_range(b.as_slice(), 24, end);
    assert(text@ =~= body.take(text_len(body)));
    Ok(Some(utf8_lossy(text.as_slice())))
}

/// The bytes a buffered reader holds: a copy of the source's bytes from `start` on.
pub struct RangeBuffer {
    /// Where in the source the buffered bytes start.
    pub start: u64,
    /// The buffered bytes.
    pub bytes: Vec<u8>,
}

impl RangeBuffer {
    /// An empty buffer.
    pub fn new() -> (r: Self)
        ensures
            r.start == 0,
            r.bytes@.len() == 0,
    {
        RangeBuffer { start: 0, bytes: Vec::new() }
    }

    /// Whether the range `offset..offset + length` lies within the buffered bytes.
    pub open spec fn spec_holds(&self, offset: u64, length: u64) -> bool {
        self.start <= offset && offset + length <= self.start + self.bytes@.len()
    }

    /// The bytes of `offset..offset + length` when the buffer holds them all.
    pub fn serve(&self, offset: u64, length: u64) -> (r: Option<Vec<u8>>)
        ensures
            r is Some <==> self.spec_holds(offset, length),
            r matches Some(v) ==> v@ == self.bytes@.subrange(offset - self.start, offset - self.start + length),
    {
        if offset < self.start {
            return None;
        }
        let from = offset - self.start;
        let n = self.bytes.len() as u64;
        if from > n || length > n - from {
            return None;
        }
        Some(copy_range(self.bytes.as_slice(), from as usize, (from + length) as usize))
    }

    /// Replace the buffered bytes by `bytes`, which start at `start` in the source.
    pub fn replace(&mut self, start: u64, bytes: Vec<u8>)
        ensures
            final(self).start == start,
            final(self).bytes@ == bytes@,
    {
        self.start = start;
        self.bytes = bytes;
    }

    /// What a reader buffering one window of its source does for a request of
    /// `offset..offset + length`: serve it from the window when the window holds it all;
    /// otherwise read it directly when it is longer than the window's `capacity`, or
    /// refill the window from `offset`.
    pub fn plan(&self, offset: u64, length: u64, capacity: usize) -> (r: WindowStep)
        ensures
            (r is Serve) <==> self.spec_holds(offset, length),
            r matches WindowStep::Serve(v) ==> v@ == self.bytes@.subrange(offset - self.start, offset - self.start + length),
            (r is ReadDirect) <==> !self.spec_holds(offset, length) && length > capacity,
            (r is Refill) <==> !self.spec_holds(offset, length) && length <= capacity,
    {
        match self.serve(offset, length) {
            Some(v) => WindowStep::Serve(v),
            None => if length > capacity as u64 {
                WindowStep::ReadDirect
            } else {
                WindowStep::Refill
            },
        }
    }

    /// Refill the window with `bytes`, read from the source at `offset`, and serve
    /// `offset..offset + length` from it; the source ends too early when the window is
    /// shorter than `length`.
    pub fn refill_and_serve(&mut self, offset: u64, length: u64, bytes: Vec<u8>) -> (r: Result<Vec<u8>, MdfError>)
        ensures
            final(self).start == offset,
            final(self).bytes@ == bytes@,
            r is Ok <==> length <= bytes@.len(),
            r matches Ok(v) ==> v@ == bytes@.take(length as int),
            r is Err ==> r == Err::<Vec<u8>, MdfError>(MdfError::UnexpectedEof),
    {
        self.replace(offset, bytes);
        match self.serve(offset, length) {
            Some(v) => {
                assert(self.bytes@.subrange(0, length as int) =~= self.bytes@.take(length as int));
                Ok(v)
            },
            None => Err(MdfError::UnexpectedEof),
        }
    }
}

/// Whether a window of bytes starting at `start` is a copy of the source bytes `c`
/// there.
pub open spec fn window_mirrors(start: int, bytes: Seq<u8>, c: Seq<u8>) -> bool {
    &&& 0 <= start
    &&& start + bytes.len() <= c.len()
    &&& bytes == c.subrange(start, start + bytes.len())
}

/// What reading up to `n` bytes of the source `c` from `offset` gives: the bytes there,
/// as many as there are.
pub open spec fn spec_read_up_to(c: Seq<u8>, offset: int, n: int) -> Seq<u8> {
    if offset >= c.len() {
        Seq::empty()
    } else if offset + n <= c.len() {
        c.subrange(offset, offset + n)
    } else {
        c.subrange(offset, c.len() as int)
    }
}

/// A window that copies its source serves the source's own bytes: what it holds of a
/// range is that range of the source.
pub proof fn lemma_window_serves_source(start: int, bytes: Seq<u8>, c: Seq<u8>, offset: int, length: int)
    requires
        window_mirrors(start, bytes, c),
        start <= offset,
        0 <= length,
        offset + length <= start + bytes.len(),
    ensures
        bytes.subrange(offset - start, offset - start + length) == c.subrange(offset, offset + length),
{
    assert(bytes.subrange(offset - start, offset - start + length) =~= c.subrange(offset, offset + length));
}

/// Refilling a window with what reading up to `capacity` bytes of the source from
/// `offset` gives makes a window that copies the source; a request of at most
/// `capacity` bytes from `offset` is then served exactly when it is empty or lies within
/// the source, and a range within the source is served as those bytes of the source.
pub proof fn lemma_refill_serves_source(c: Seq<u8>, offset: int, length: int, capacity: int)
    requires
        0 <= offset,
        0 <= length <= capacity,
    ensures
        window_mirrors(if offset >= c.len() { c.len() as int } else { offset }, spec_read_up_to(c, offset, capacity), c),
        (length <= spec_read_up_to(c, offset, capacity).len()) <==> (length == 0 || offset + length <= c.len()),
        offset + length <= c.len() ==> spec_read_up_to(c, offset, capacity).take(length) == c.subrange(offset, offset + length),
{
    let w = spec_read_up_to(c, offset, capacity);
    if offset < c.len() {
        if offset + length <= c.len() {
            assert(w.take(length) =~= c.subrange(offset, offset + length));
        }
        assert(w =~= c.subrange(offset, offset + w.len()));
    } else {
        assert(c.subrange(c.len() as int, c.len() as int) =~= w);
    }
}

/// The step a reader that buffers one window of its source takes for a request.
#[derive(Debug)]
pub enum WindowStep {
    /// The window holds the requested bytes: these.
    Serve(Vec<u8>),
    /// The request is longer than the window: read it from the source directly.
    ReadDirect,
    /// Read a window's worth from the request's offset, then serve from it.
    Refill,
}

} // verus!
