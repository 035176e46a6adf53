//! The buffered transfer streams: a seekable reader over a downloaded
//! body, and a writer that buffers an upload until it is finished.

use vstd::prelude::*;

use crate::client::spec_slice_body;

verus! {

/// Where a seek moves a reader to.
#[derive(Clone, Copy, Debug, PartialEq, Eq, Structural)]
pub enum SeekTarget {
    /// An absolute position.
    Start(u64),
    /// An offset from the end of the body.
    End(i64),
    /// An offset from the current position.
    Current(i64),
}

/// A seek to a negative position, or beyond what 64 bits hold.
#[derive(Clone, Copy, Debug, PartialEq, Eq, Structural)]
pub enum SeekError {
    NegativeOrOverflowing,
}

/// The abstract state of a reader: the body and the current position,
/// which may lie beyond the end of the body.
pub struct ReaderState {
    pub body: Seq<u8>,
    pub position: nat,
}

/// A seekable reader over a fully downloaded `GET` body.
pub struct BodyReader {
    body: Vec<u8>,
    position: u64,
}

impl View for BodyReader {
    type V = ReaderState;

    closed spec fn view(&self) -> ReaderState {
        ReaderState { body: self.body@, position: self.position as nat }
    }
}

/// The bytes a read of at most `max` bytes returns.
pub open spec fn spec_read(st: ReaderState, max: nat) -> Seq<u8> {
    let start = if st.position < st.body.len() {
        st.position as int
    } else {
        st.body.len() as int
    };
    let available = st.body.len() - start;
    let n = if max < available {
        max as int
    } else {
        available
    };
    st.body.subrange(start, start + n)
}

/// The position a seek asks for, or `None` when it is negative or does not
/// fit in 64 bits.
pub open spec fn spec_seek_position(st: ReaderState, target: SeekTarget) -> Option<nat> {
    let wanted: int = match target {
        SeekTarget::Start(n) => n as int,
        SeekTarget::End(off) => st.body.len() + off,
        SeekTarget::Current(off) => st.position + off,
    };
    if 0 <= wanted <= u64::MAX {
        Some(wanted as nat)
    } else {
        None
    }
}

/// `base + offset` when it lies in `0..=u64::MAX`.
fn add_signed(base: u64, offset: i64) -> (r: Option<u64>)
    ensures
        match r {
            Some(v) => v == base + offset,
            None => !(0 <= base + offset <= u64::MAX),
        },
{
    if offset >= 0 {
        let o = offset as u64;
        if o <= u64::MAX - base {
            Some(base + o)
        } else {
            None
        }
    } else {
        let magnitude: u64 = ((-(offset + 1)) as u64) + 1;
        if magnitude <= base {
            Some(base - magnitude)
        } else {
            None
        }
    }
}

impl BodyReader {
    /// A reader at the start of `body`.
    pub fn new(body: Vec<u8>) -> (r: BodyReader)
        ensures
            r@.body == body@,
            r@.position == 0,
    {
        BodyReader { body, position: 0 }
    }

    /// The current position.
    pub fn position(&self) -> (p: u64)
        ensures
            p == self@.position,
    {
        self.position
    }

    /// Reads at most `max` bytes from the current position, and moves past
    /// them. At or beyond the end of the body nothing is read.
    pub fn read(&mut self, max: usize) -> (out: Vec<u8>)
        ensures
            out@ == spec_read(old(self)@, max as nat),
            final(self)@.body == old(self)@.body,
            final(self)@.position == old(self)@.position + out@.len(),
    {
        let len = self.body.len();
        let start: usize = if self.position < len as u64 {
            self.position as usize
        } else {
            len
        };
        let available = len - start;
        let n = if max < available {
            max
        } else {
            available
        };
        let mut out: Vec<u8> = Vec::new();
        out.extend_from_slice(&self.body.as_slice()[start..start + n]);
        assert(out@ == self.body@.subrange(start as int, start + n));
        self.position = self.position + n as u64;
        out
    }

    /// Moves the position as `target` says and returns the new position;
    /// a negative or overflowing position is refused and leaves the reader
    /// as it was.
    pub fn seek(&mut self, target: SeekTarget) -> (r: Result<u64, SeekError>)
        ensures
            final(self)@.body == old(self)@.body,
            match spec_seek_position(old(self)@, target) {
                Some(p) => r == Ok::<u64, SeekError>(p as u64) && final(self)@.position == p,
                None => r == Err::<u64, SeekError>(SeekError::NegativeOrOverflowing)
                    && final(self)@.position == old(self)@.position,
            },
    {
        let wanted = match target {
            SeekTarget::Start(n) => Some(n),
            SeekTarget::End(off) => add_signed(self.body.len() as u64, off),
            SeekTarget::Current(off) => add_signed(self.position, off),
        };
        match wanted {
            Some(p) => {
                self.position = p;
                Ok(p)
            },
            None => Err(SeekError::NegativeOrOverflowing),
        }
    }
}

/// The most a writer reserves up front from a size hint (8 MiB), so that a
/// wrong hint cannot make a small upload allocate gigabytes.
pub const MAX_PREALLOCATION: usize = 8388608;

/// The capacity reserved for a size hint.
pub open spec fn spec_preallocation(size_hint: Option<u64>) -> nat {
    match size_hint {
        Some(h) => if h <= usize::MAX {
            if h < MAX_PREALLOCATION {
                h as nat
            } else {
                MAX_PREALLOCATION as nat
            }
        } else {
            0
        },
        None => 0,
    }
}

/// The capacity a writer reserves for `size_hint`: the hint, capped at
/// [`MAX_PREALLOCATION`], or nothing without a usable hint.
pub fn preallocation(size_hint: Option<u64>) -> (c: usize)
    ensures
        c == spec_preallocation(size_hint),
{
    let hint: usize = match size_hint {
        Some(h) => if h <= usize::MAX as u64 {
            h as usize
        } else {
            0
        },
        None => 0,
    };
    if hint < MAX_PREALLOCATION {
        hint
    } else {
        MAX_PREALLOCATION
    }
}

/// The abstract state of a writer: its target, the buffered bytes and
/// whether it was finished.
pub struct WriterState {
    pub url: Seq<char>,
    pub body: Seq<u8>,
    pub finished: bool,
}

/// A writer that buffers bytes until it is finished, when the whole buffer
/// is handed over for one `PUT` to its URL. A writer dropped before it is
/// finished uploads nothing.
pub struct UploadBuffer {
    url: String,
    body: Vec<u8>,
    finished: bool,
}

impl View for UploadBuffer {
    type V = WriterState;

    closed spec fn view(&self) -> WriterState {
        WriterState { url: self.url@, body: self.body@, finished: self.finished }
    }
}

impl UploadBuffer {
    /// An empty writer targeting `url`, reserving space from `size_hint`.
    pub fn new(url: String, size_hint: Option<u64>) -> (w: UploadBuffer)
        ensures
            w@.url == url@,
            w@.body.len() == 0,
            !w@.finished,
    {
        UploadBuffer { url, body: Vec::with_capacity(preallocation(size_hint)), finished: false }
    }

    /// The URL the buffer is uploaded to.
    pub fn url(&self) -> (u: &str)
        ensures
            u@ == self@.url,
    {
        self.url.as_str()
    }

    /// The number of buffered bytes.
    pub fn buffered(&self) -> (n: usize)
        ensures
            n == self@.body.len(),
    {
        self.body.len()
    }

    /// Whether the writer was finished.
    pub fn is_finished(&self) -> (f: bool)
        ensures
            f == self@.finished,
    {
        self.finished
    }

    /// Appends `data` to the buffer and reports all of it as written.
    pub fn write(&mut self, data: &[u8]) -> (n: usize)
        ensures
            n == data@.len(),
            final(self)@ == (WriterState {
                url: old(self)@.url,
                body: old(self)@.body + data@,
                finished: old(self)@.finished,
            }),
    {
        self.body.extend_from_slice(data);
        assert(self.body@ == old(self).body@ + data@);
        data.len()
    }

    /// Marks the writer finished and hands over the buffered bytes, which
    /// leaves the buffer empty.
    pub fn finish(&mut self) -> (body: Vec<u8>)
        ensures
            body@ == old(self)@.body,
            final(self)@ == (WriterState {
                url: old(self)@.url,
                body: Seq::<u8>::empty(),
                finished: true,
            }),
    {
        self.finished = true;
        let mut body: Vec<u8> = Vec::new();
        std::mem::swap(&mut body, &mut self.body);
        body
    }
}

/// The writer after `write(data)`.
pub open spec fn spec_write(st: WriterState, data: Seq<u8>) -> WriterState {
    WriterState { url: st.url, body: st.body + data, finished: st.finished }
}

/// The writer after writing each of `chunks`, in order.
pub open spec fn spec_write_all(st: WriterState, chunks: Seq<Seq<u8>>) -> WriterState
    decreases chunks.len(),
{
    if chunks.len() == 0 {
        st
    } else {
        spec_write_all(spec_write(st, chunks[0]), chunks.drop_first())
    }
}

/// A seek lands exactly where it is aimed: a relative seek from position
/// `p` by `off` lands on `p + off`, just as a seek to `p + off` from the
/// start does, and fails exactly when that position is negative or does
/// not fit in 64 bits; a seek from the end lands `off` bytes from the end
/// of the body; and a seek to a start position lands on it.
pub proof fn lemma_seek_lands_on_offset(st: ReaderState, off: i64, n: u64)
    ensures
        0 <= st.position + off <= u64::MAX ==> spec_seek_position(st, SeekTarget::Current(off))
            == Some((st.position + off) as nat),
        0 <= st.position + off <= u64::MAX ==> spec_seek_position(st, SeekTarget::Current(off))
            == spec_seek_position(st, SeekTarget::Start((st.position + off) as u64)),
        !(0 <= st.position + off <= u64::MAX) ==> spec_seek_position(st, SeekTarget::Current(off)) is None,
        0 <= st.body.len() + off <= u64::MAX ==> spec_seek_position(st, SeekTarget::End(off))
            == Some((st.body.len() + off) as nat),
        !(0 <= st.body.len() + off <= u64::MAX) ==> spec_seek_position(st, SeekTarget::End(off)) is None,
        spec_seek_position(st, SeekTarget::Start(n)) == Some(n as nat),
{
}


/// A seek to `n` followed by a read of at most `k` bytes gives the same
/// bytes as trimming the whole body to `k` bytes from offset `n`.
pub proof fn lemma_seek_then_read_is_slice(body: Seq<u8>, n: u64, k: usize)
    ensures
        spec_read(ReaderState { body, position: n as nat }, k as nat) == spec_slice_body(
            body,
            n,
            Some(k as u64),
        ),
{
    let start = if n < body.len() {
        n as int
    } else {
        body.len() as int
    };
    let rest = body.skip(start);
    if (k as int) < rest.len() {
        assert(rest.take(k as int) == body.subrange(start, start + k));
    } else {
        assert(rest == body.subrange(start, body.len() as int));
    }
}

/// A fresh reader hands out the whole body to a read large enough for it.
pub proof fn lemma_read_from_start_is_body(body: Seq<u8>, max: nat)
    requires
        max >= body.len(),
    ensures
        spec_read(ReaderState { body, position: 0 }, max) == body,
{
    assert(body.subrange(0, body.len() as int) == body);
}

/// What a finished writer uploads is everything written to it, in order:
/// writing `chunks` one after the other appends their concatenation.
pub proof fn lemma_upload_is_concatenation(st: WriterState, chunks: Seq<Seq<u8>>)
    ensures
        spec_write_all(st, chunks).body == st.body + chunks.flatten(),
        spec_write_all(st, chunks).url == st.url,
        spec_write_all(st, chunks).finished == st.finished,
    decreases chunks.len(),
{
    if chunks.len() == 0 {
        assert(st.body + chunks.flatten() == st.body);
    } else {
        lemma_upload_is_concatenation(spec_write(st, chunks[0]), chunks.drop_first());
        assert(chunks.flatten() == chunks[0] + chunks.drop_first().flatten());
        assert(st.body + chunks[0] + chunks.drop_first().flatten() == st.body + (chunks[0]
            + chunks.drop_first().flatten()));
    }
}

} // verus!
