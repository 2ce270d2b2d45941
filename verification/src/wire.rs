//! What a response becomes on the wire: its status line, raw headers, and a
//! body that is either sent at once or cut into chunks.

use vstd::prelude::*;
use vstd::utf8::encode_utf8;

use crate::http::HeaderView;
use crate::response::{Body, BodyView, Response, ResponseView, effective_status};

verus! {

#[verifier::external_type_specification]
#[verifier::external_body]
pub struct ExStatusCode(hyper::StatusCode);

/// Calls `hyper::StatusCode::try_from`, which accepts exactly the codes from
/// 100 to 599, and drops its error value. The contract claims that range;
/// which `StatusCode` comes back is not stated (the type is opaque here; in
/// hyper's source it is the one whose `as_u16` gives `code` back).
#[verifier::external_body]
fn hyper_status(code: u16) -> (r: Option<hyper::StatusCode>)
    ensures
        r is Some <==> (100 <= code && code <= 599),
{
    match hyper::StatusCode::try_from(code) {
        Ok(s) => Some(s),
        Err(_) => None,
    }
}

/// Why a response cannot be written out.
#[derive(Debug, Clone, Copy, PartialEq, Eq, Structural)]
pub enum WriteError {
    /// Its status code is outside 100 to 599.
    InvalidStatus,
    /// Its chunk size does not fit in a `usize`.
    ChunkSizeTooLarge,
}

/// The body as it is written out.
pub enum WireBody<B> {
    /// No body.
    Empty,
    /// A body sent at once.
    Bytes(Vec<u8>),
    /// A body read from `B` and sent in chunks of the given size.
    Chunked(B, usize),
}

/// A response ready for the wire.
pub struct WireResponse<B> {
    /// The status code, one that hyper accepts.
    pub status: u16,
    /// Each header's name and the bytes of its value, in order.
    pub headers: Vec<(String, Vec<u8>)>,
    /// The value of the `Content-Length` header, when one is sent.
    pub content_length: Option<u64>,
    pub body: WireBody<B>,
}

/// The raw headers of a response: each name, with the UTF-8 bytes of its
/// value.
pub open spec fn raw_headers(hs: Seq<HeaderView>) -> Seq<(Seq<char>, Seq<u8>)> {
    hs.map_values(|h: HeaderView| (h.0, encode_utf8(h.1)))
}

/// The raw headers of `v` as plain values.
pub open spec fn raw_view(v: Seq<(String, Vec<u8>)>) -> Seq<(Seq<char>, Seq<u8>)> {
    v.map_values(|h: (String, Vec<u8>)| (h.0@, h.1@))
}

/// `w` is how the response `r` is written out: its status code is the one
/// `r` is sent with; its headers are `r`'s, in order; with no body, `Content-Length: 0`; with a sized body, its declared
/// size as `Content-Length` and its bytes as the body; with a streamed body,
/// no `Content-Length` and the stream, cut into chunks of its chunk size.
pub open spec fn writes_as<B>(r: ResponseView<B>, w: WireResponse<B>) -> bool {
    &&& w.status == effective_status(r).code
    &&& raw_view(w.headers@) == raw_headers(r.headers)
    &&& match r.body {
        None => w.content_length == Some(0u64) && w.body is Empty,
        Some(BodyView::Sized(bytes, n)) => w.content_length == Some(n) && match w.body {
            WireBody::Bytes(b) => b@ == bytes,
            _ => false,
        },
        Some(BodyView::Chunked(s, n)) => w.content_length is None && match w.body {
            WireBody::Chunked(t, k) => t == s && k as u64 == n,
            _ => false,
        },
    }
}

/// Prepares a response for the wire. Fails when its status code is outside
/// 100 to 599, or when its chunk size does not fit in a `usize`.
pub fn write_response<B>(response: Response<B>) -> (r: Result<WireResponse<B>, WriteError>)
    ensures
        match r {
            Ok(w) => {
                &&& 100 <= effective_status(response@).code <= 599
                &&& writes_as(response@, w)
            },
            Err(WriteError::InvalidStatus) => !(100 <= effective_status(response@).code <= 599),
            Err(WriteError::ChunkSizeTooLarge) => {
                &&& 100 <= effective_status(response@).code <= 599
                &&& response@.body matches Some(BodyView::Chunked(_, n))
                &&& n > usize::MAX
            },
        },
{
    let mut response = response;
    let ghost rv = response@;
    let status = response.status().code;
    match hyper_status(status) {
        Some(_) => {},
        None => {
            return Err(WriteError::InvalidStatus);
        },
    };
    let mut headers: Vec<(String, Vec<u8>)> = Vec::new();
    let n = response.headers().len();
    let mut i: usize = 0;
    while i < n
        invariant
            i <= n,
            n == rv.headers.len(),
            response@ == rv,
            raw_view(headers@) == raw_headers(rv.headers.take(i as int)),
        decreases n - i,
    {
        let h = response.headers().get(i);
        let name = h.name.clone();
        let value = vstd::slice::slice_to_vec(h.value.as_str().as_bytes());
        let ghost before = headers@;
        headers.push((name, value));
        assert(rv.headers.take((i + 1) as int) =~= rv.headers.take(i as int).push(rv.headers[i as int]));
        assert(raw_view(headers@) =~= raw_view(before).push((h.name@, encode_utf8(h.value@))));
        assert(raw_headers(rv.headers.take((i + 1) as int)) =~= raw_headers(rv.headers.take(i as int)).push(
            (rv.headers[i as int].0, encode_utf8(rv.headers[i as int].1)),
        ));
        i += 1;
    }
    assert(rv.headers.take(n as int) =~= rv.headers);
    match response.take_body() {
        None => Ok(WireResponse { status, headers, content_length: Some(0), body: WireBody::Empty }),
        Some(Body::Sized(bytes, size)) => Ok(
            WireResponse { status, headers, content_length: Some(size), body: WireBody::Bytes(bytes) },
        ),
        Some(Body::Chunked(stream, chunk_size)) => {
            if chunk_size > usize::MAX as u64 {
                return Err(WriteError::ChunkSizeTooLarge);
            }
            Ok(
                WireResponse {
                    status,
                    headers,
                    content_length: None,
                    body: WireBody::Chunked(stream, chunk_size as usize),
                },
            )
        },
    }
}

/// What one read from a streamed body leads to.
#[derive(Debug)]
pub enum ChunkStep {
    /// The read gave no byte: the stream is over.
    End,
    /// The chunk is not full yet: read again.
    Continue,
    /// The chunk is full: send it.
    Chunk(Vec<u8>),
}

/// Cuts a streamed body into chunks of a fixed size. Each read fills the
/// rest of the current chunk at most; a chunk is sent when it is full. When
/// a read gives no byte, the stream ends, and bytes of a chunk that is not
/// full are not sent.
pub struct Chunker {
    pos: usize,
    buf: Vec<u8>,
    chunk_size: usize,
    received: Ghost<Seq<u8>>,
    emitted: Ghost<Seq<u8>>,
}

impl Chunker {
    /// The size of each chunk.
    pub closed spec fn size(&self) -> usize {
        self.chunk_size
    }

    /// Every byte read so far.
    pub closed spec fn received(&self) -> Seq<u8> {
        self.received@
    }

    /// The bytes of every chunk sent so far, in order.
    pub closed spec fn emitted(&self) -> Seq<u8> {
        self.emitted@
    }

    /// The bytes of the current, not yet full chunk.
    pub closed spec fn pending(&self) -> Seq<u8> {
        self.buf@.take(self.pos as int)
    }

    /// The state is consistent: the bytes sent followed by the pending ones
    /// are the bytes read, and the bytes sent fill whole chunks.
    pub closed spec fn wf(&self) -> bool {
        &&& self.buf@.len() == self.chunk_size
        &&& self.pos <= self.chunk_size
        &&& (self.pos < self.chunk_size || self.chunk_size == 0)
        &&& self.received@ == self.emitted@ + self.pending()
        &&& self.chunk_size > 0 ==> (self.emitted@.len() as int) % (self.chunk_size as int) == 0
        &&& self.chunk_size == 0 ==> self.emitted@.len() == 0
    }

    /// A chunker for chunks of `chunk_size` bytes, before any read.
    pub fn new(chunk_size: usize) -> (c: Chunker)
        ensures
            c.wf(),
            c.size() == chunk_size,
            c.received() == Seq::<u8>::empty(),
            c.emitted() == Seq::<u8>::empty(),
    {
        let c = Chunker {
            pos: 0,
            buf: vec![0u8; chunk_size],
            chunk_size,
            received: Ghost(Seq::empty()),
            emitted: Ghost(Seq::empty()),
        };
        assert(c.pending() =~= Seq::<u8>::empty());
        c
    }

    /// How many bytes the next read may give at most: the room left in the
    /// current chunk.
    pub fn room(&self) -> (n: usize)
        requires
            self.wf(),
        ensures
            n == self.size() - self.pending().len(),
    {
        self.chunk_size - self.pos
    }

    /// Takes the bytes of one read, which fit in the room left.
    pub fn on_read(&mut self, bytes: &[u8]) -> (step: ChunkStep)
        requires
            old(self).wf(),
            bytes@.len() <= old(self).size() - old(self).pending().len(),
        ensures
            final(self).wf(),
            final(self).size() == old(self).size(),
            bytes@.len() == 0 ==> step is End && *final(self) == *old(self),
            bytes@.len() > 0 ==> final(self).received() == old(self).received() + bytes@,
            match step {
                ChunkStep::End => bytes@.len() == 0,
                ChunkStep::Continue => {
                    &&& bytes@.len() > 0
                    &&& final(self).emitted() == old(self).emitted()
                    &&& final(self).pending() == old(self).pending() + bytes@
                },
                ChunkStep::Chunk(c) => {
                    &&& bytes@.len() > 0
                    &&& c@ == old(self).pending() + bytes@
                    &&& c@.len() == old(self).size()
                    &&& final(self).emitted() == old(self).emitted() + c@
                    &&& final(self).pending() == Seq::<u8>::empty()
                },
            },
    {
        if bytes.len() == 0 {
            return ChunkStep::End;
        }
        let ghost old_pending = self.pending();
        let mut i: usize = 0;
        while i < bytes.len()
            invariant
                i <= bytes@.len(),
                self.pos + bytes@.len() <= self.chunk_size,
                self.buf@.len() == self.chunk_size,
                forall|j: int| 0 <= j < self.pos ==> self.buf@[j] == old_pending[j],
                old_pending.len() == self.pos,
                self.pos == old(self).pos,
                self.chunk_size == old(self).chunk_size,
                self.received == old(self).received,
                self.emitted == old(self).emitted,
                forall|j: int| 0 <= j < i ==> self.buf@[self.pos + j] == bytes@[j],
            decreases bytes@.len() - i,
        {
            self.buf.set(self.pos + i, bytes[i]);
            i += 1;
        }
        self.pos = self.pos + bytes.len();
        assert(self.pending() =~= old_pending + bytes@);
        proof {
            assert(old(self).received@ == old(self).emitted@ + old_pending);
            assert((old(self).emitted@ + old_pending) + bytes@ =~= old(self).emitted@ + (old_pending
                + bytes@));
            self.received = Ghost(self.received@ + bytes@);
            assert(self.received@ =~= self.emitted@ + self.pending());
        }
        if self.pos == self.chunk_size {
            let mut chunk = vec![0u8; self.chunk_size];
            std::mem::swap(&mut chunk, &mut self.buf);
            assert(self.buf@.len() == self.chunk_size);
            assert(chunk@ =~= chunk@.take(self.pos as int));
            let ghost before = self.emitted@;
            self.pos = 0;
            proof {
                self.emitted = Ghost(self.emitted@ + chunk@);
                assert(self.pending() =~= Seq::<u8>::empty());
                assert(self.received@ =~= self.emitted@ + self.pending());
                vstd::arithmetic::div_mod::lemma_mod_add_multiples_vanish(
                    before.len() as int,
                    self.chunk_size as int,
                );
            }
            ChunkStep::Chunk(chunk)
        } else {
            ChunkStep::Continue
        }
    }
}

/// Every chunk that is sent is full, so the bytes sent fill whole chunks;
/// and the bytes sent are the bytes read, less at most one chunk's worth at
/// the end.
pub proof fn chunks_are_whole(c: Chunker)
    requires
        c.wf(),
        c.size() > 0,
    ensures
        (c.emitted().len() as int) % (c.size() as int) == 0,
        c.received() == c.emitted() + c.pending(),
        c.pending().len() < c.size(),
{
}

} // verus!
