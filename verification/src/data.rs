//! The body data of an incoming request.
//!
//! `Data<S>` holds the bytes that have already arrived (the peek buffer) and,
//! while more may come, the stream `S` that delivers the rest in chunks.
//! Waiting on that stream is I/O and is done by the caller: `DataStream`
//! says when a chunk is needed (`begin_refill`) and takes the chunk back
//! (`refill`).

use vstd::prelude::*;

verus! {

/// The number of bytes that `peek` shows at most.
pub const PEEK_BYTES: usize = 512;

/// The body data of a request.
pub struct Data<S> {
    buffer: Vec<u8>,
    stream: Option<S>,
}

impl<S> Data<S> {
    /// The bytes already buffered.
    pub closed spec fn buffered(&self) -> Seq<u8> {
        self.buffer@
    }

    /// The stream that delivers the rest of the body, if more may come.
    pub closed spec fn stream_view(&self) -> Option<S> {
        self.stream
    }

    /// Data whose bytes all arrive from `body`.
    pub fn from_stream(body: S) -> (d: Data<S>)
        ensures
            d.buffered() == Seq::<u8>::empty(),
            d.stream_view() == Some(body),
    {
        Data { buffer: Vec::new(), stream: Some(body) }
    }

    /// Data that is wholly held in `data`.
    pub fn local(data: Vec<u8>) -> (d: Data<S>)
        ensures
            d.buffered() == data@,
            d.stream_view() is None,
    {
        Data { buffer: data, stream: None }
    }

    /// The peek buffer: the first `PEEK_BYTES` buffered bytes, or all of them
    /// when there are fewer.
    pub fn peek(&self) -> (p: &[u8])
        ensures
            p@ == self.buffered().take(
                if self.buffered().len() > PEEK_BYTES { PEEK_BYTES as int } else { self.buffered().len() as int },
            ),
    {
        if self.buffer.len() > PEEK_BYTES {
            vstd::slice::slice_subrange(self.buffer.as_slice(), 0, PEEK_BYTES)
        } else {
            assert(self.buffer@.take(self.buffer@.len() as int) =~= self.buffer@);
            self.buffer.as_slice()
        }
    }

    /// Whether the peek buffer holds all of the body: true when no stream is
    /// left and every buffered byte fits in the peek window.
    pub fn peek_complete(&self) -> (b: bool)
        ensures
            b == (self.stream_view() is None && self.buffered().len() <= PEEK_BYTES),
    {
        self.stream.is_none() && self.buffer.len() <= PEEK_BYTES
    }

    /// The raw data stream. It yields all of the body, the buffered bytes first.
    pub fn open(self) -> (s: DataStream<S>)
        ensures
            s.wf(),
            s.unread() == self.buffered(),
            s.consumed() == Seq::<u8>::empty(),
            s.delivered() == self.buffered(),
            s.stream_view() == self.stream_view(),
    {
        let ghost b = self.buffer@;
        let s = DataStream { pos: 0, data: self, consumed: Ghost(Seq::empty()), delivered: Ghost(b) };
        assert(b.subrange(0, b.len() as int) =~= b);
        s
    }
}

/// The raw data stream of a request body, read from its start.
pub struct DataStream<S> {
    pos: usize,
    data: Data<S>,
    consumed: Ghost<Seq<u8>>,
    delivered: Ghost<Seq<u8>>,
}

impl<S> DataStream<S> {
    /// The bytes handed out so far.
    pub closed spec fn consumed(&self) -> Seq<u8> {
        self.consumed@
    }

    /// Every byte that has entered the stream so far: the buffered bytes of
    /// the data and each chunk since.
    pub closed spec fn delivered(&self) -> Seq<u8> {
        self.delivered@
    }

    /// The buffered bytes not yet handed out.
    pub closed spec fn unread(&self) -> Seq<u8> {
        self.data.buffer@.subrange(self.pos as int, self.data.buffer@.len() as int)
    }

    /// The stream that delivers the rest, if it is in place.
    pub closed spec fn stream_view(&self) -> Option<S> {
        self.data.stream
    }

    /// The stream's state is consistent: what was handed out, followed by
    /// what is buffered and unread, is what has entered, in order.
    pub closed spec fn wf(&self) -> bool {
        &&& self.pos <= self.data.buffer@.len()
        &&& self.delivered@ == self.consumed@ + self.unread()
    }

    /// Whether a read has to wait for the next chunk first: no unread bytes
    /// are buffered and the stream is in place.
    pub fn needs_chunk(&self) -> (b: bool)
        requires
            self.wf(),
        ensures
            b == (self.unread().len() == 0 && self.stream_view() is Some),
    {
        self.data.buffer.len() <= self.pos && self.data.stream.is_some()
    }

    /// When no unread bytes are buffered and the stream is in place, takes
    /// the stream out so that the caller can wait for its next chunk, and
    /// empties the buffer. Otherwise does nothing and returns `None`.
    pub fn begin_refill(&mut self) -> (r: Option<S>)
        requires
            old(self).wf(),
        ensures
            final(self).wf(),
            final(self).consumed() == old(self).consumed(),
            final(self).delivered() == old(self).delivered(),
            final(self).unread() == old(self).unread(),
            if old(self).unread().len() == 0 && old(self).stream_view() is Some {
                &&& r == old(self).stream_view()
                &&& final(self).stream_view() is None
            } else {
                &&& r is None
                &&& final(self).stream_view() == old(self).stream_view()
                &&& *final(self) == *old(self)
            },
    {
        if self.data.buffer.len() <= self.pos {
            match self.data.stream.take() {
                Some(stream) => {
                    self.data.buffer.clear();
                    self.pos = 0;
                    assert(self.unread() =~= Seq::<u8>::empty());
                    assert(old(self).unread() =~= Seq::<u8>::empty());
                    Some(stream)
                },
                None => None,
            }
        } else {
            None
        }
    }

    /// Puts the stream back after waiting on it, with the chunk it gave, if
    /// any, appended to the buffer.
    pub fn refill(&mut self, chunk: Option<Vec<u8>>, stream: S)
        requires
            old(self).wf(),
            old(self).stream_view() is None,
        ensures
            final(self).wf(),
            final(self).stream_view() == Some(stream),
            final(self).consumed() == old(self).consumed(),
            match chunk {
                Some(c) => {
                    &&& final(self).delivered() == old(self).delivered() + c@
                    &&& final(self).unread() == old(self).unread() + c@
                },
                None => {
                    &&& final(self).delivered() == old(self).delivered()
                    &&& final(self).unread() == old(self).unread()
                },
            },
    {
        match chunk {
            Some(c) => {
                let ghost before = self.data.buffer@;
                self.data.buffer.extend_from_slice(c.as_slice());
                assert(self.data.buffer@ =~= before + c@);
                proof {
                    self.delivered = Ghost(self.delivered@ + c@);
                }
                assert(self.unread() =~= old(self).unread() + c@);
                assert(self.consumed@ + (old(self).unread() + c@) =~= (self.consumed@
                    + old(self).unread()) + c@);
            },
            None => {},
        }
        self.data.stream = Some(stream);
    }

    /// Copies buffered, unread bytes into `target`: as many as both have
    /// room for. Returns their number; 0 means that nothing is buffered.
    pub fn read(&mut self, target: &mut [u8]) -> (n: usize)
        requires
            old(self).wf(),
        ensures
            final(self).wf(),
            n == if old(self).unread().len() < old(target)@.len() {
                old(self).unread().len()
            } else {
                old(target)@.len() as nat
            },
            final(target)@.len() == old(target)@.len(),
            final(target)@.take(n as int) == old(self).unread().take(n as int),
            final(target)@.skip(n as int) == old(target)@.skip(n as int),
            final(self).consumed() == old(self).consumed() + old(self).unread().take(n as int),
            final(self).unread() == old(self).unread().skip(n as int),
            final(self).delivered() == old(self).delivered(),
            final(self).stream_view() == old(self).stream_view(),
    {
        let len = self.data.buffer.len();
        let avail = len - self.pos;
        let amount = if avail < target.len() { avail } else { target.len() };
        let mut i: usize = 0;
        while i < amount
            invariant
                i <= amount,
                amount <= target@.len(),
                target@.len() == old(target)@.len(),
                self.pos + amount <= self.data.buffer@.len(),
                len == self.data.buffer@.len(),
                forall|j: int| 0 <= j < i ==> target@[j] == self.data.buffer@[self.pos + j],
                forall|j: int| i <= j < target@.len() ==> target@[j] == old(target)@[j],
            decreases amount - i,
        {
            target[i] = self.data.buffer[self.pos + i];
            i += 1;
        }
        let ghost old_unread = self.unread();
        let ghost out = old_unread.take(amount as int);
        assert(target@.take(amount as int) =~= out);
        assert(target@.skip(amount as int) =~= old(target)@.skip(amount as int));
        self.pos = self.pos + amount;
        proof {
            self.consumed = Ghost(self.consumed@ + out);
        }
        assert(self.unread() =~= old_unread.skip(amount as int));
        assert(old_unread =~= out + old_unread.skip(amount as int));
        assert(self.consumed@ + self.unread() =~= old(self).consumed() + (out + old_unread.skip(
            amount as int,
        )));
        amount
    }

    /// Whether every byte of the body has been handed out: no stream is
    /// left and nothing buffered is unread.
    pub fn is_exhausted(&self) -> (b: bool)
        requires
            self.wf(),
        ensures
            b == (self.stream_view() is None && self.unread().len() == 0),
    {
        self.data.stream.is_none() && self.data.buffer.len() <= self.pos
    }
}

/// Reading never loses, duplicates or reorders a byte: at every point, the
/// bytes handed out followed by the bytes still buffered are exactly the
/// bytes that entered the stream, in order; so once nothing buffered is left
/// unread, every byte that entered has been handed out.
pub proof fn stream_preserves_bytes<S>(s: DataStream<S>)
    requires
        s.wf(),
    ensures
        s.consumed() + s.unread() == s.delivered(),
        s.unread().len() == 0 ==> s.consumed() == s.delivered(),
{
    if s.unread().len() == 0 {
        assert(s.consumed() + s.unread() =~= s.consumed());
    }
}

/// Reading an opened body until a read gives no byte hands out the whole
/// body: when no stream is left to wait on and a read into a nonempty target
/// would give 0 bytes, the bytes handed out so far are every byte that
/// entered the stream, in order: the buffered bytes the data held when it
/// was opened (the peek buffer among them), followed by each chunk received.
pub proof fn read_until_zero_hands_out_body<S>(s: DataStream<S>, target_len: nat)
    requires
        s.wf(),
        s.stream_view() is None,
        target_len > 0,
        (if s.unread().len() < target_len { s.unread().len() } else { target_len }) == 0,
    ensures
        s.consumed() == s.delivered(),
{
    stream_preserves_bytes(s);
}

/// `b` is `a` after one read: some bytes from the front of what was unread
/// in `a` were handed out, and the rest stay unread.
pub open spec fn read_step<S>(a: DataStream<S>, b: DataStream<S>) -> bool {
    let k = a.unread().len() - b.unread().len();
    &&& b.unread().len() <= a.unread().len()
    &&& b.consumed() == a.consumed() + a.unread().take(k)
    &&& b.unread() == a.unread().skip(k)
}

/// Reading a stream again and again hands its unread bytes out in order,
/// none repeated or skipped: after a run of reads, the bytes handed out are
/// those handed out at the start followed by a prefix of what was unread
/// then, and the rest of it is still unread. So once nothing is left
/// unread, every byte that was unread at the start has been handed out; for
/// a stream just opened on data that holds the whole body, that is the body.
pub proof fn reads_hand_out_in_order<S>(run: Seq<DataStream<S>>)
    requires
        run.len() > 0,
        forall|i: int| 0 <= i < run.len() - 1 ==> read_step(#[trigger] run[i], run[i + 1]),
    ensures
        ({
            let d = run[0].unread().len() - run.last().unread().len();
            &&& run.last().unread().len() <= run[0].unread().len()
            &&& run.last().consumed() == run[0].consumed() + run[0].unread().take(d)
            &&& run.last().unread() == run[0].unread().skip(d)
        }),
        run.last().unread().len() == 0 ==> run.last().consumed() == run[0].consumed() + run[0].unread(),
    decreases run.len(),
{
    let f = run[0];
    if run.len() == 1 {
        assert(f.unread().take(0) =~= Seq::<u8>::empty());
        assert(f.consumed() + Seq::<u8>::empty() =~= f.consumed());
        assert(f.unread().skip(0) =~= f.unread());
    } else {
        let init = run.drop_last();
        assert forall|i: int| 0 <= i < init.len() - 1 implies read_step(#[trigger] init[i], init[i + 1]) by {
            assert(init[i] == run[i] && init[i + 1] == run[i + 1]);
            assert(read_step(run[i], run[i + 1]));
        }
        reads_hand_out_in_order(init);
        let m = init.last();
        let l = run.last();
        assert(m == run[run.len() - 2]);
        assert(read_step(run[run.len() - 2], run[run.len() - 2 + 1]));
        let d1 = f.unread().len() - m.unread().len();
        let k = m.unread().len() - l.unread().len();
        assert(f.unread().skip(d1).take(k) =~= f.unread().subrange(d1, d1 + k));
        assert(f.unread().take(d1 + k) =~= f.unread().take(d1) + f.unread().subrange(d1, d1 + k));
        assert(f.unread().skip(d1).skip(k) =~= f.unread().skip(d1 + k));
        assert(l.consumed() =~= f.consumed() + f.unread().take(d1 + k));
    }
    let d = f.unread().len() - run.last().unread().len();
    if run.last().unread().len() == 0 {
        assert(f.unread().take(d) =~= f.unread());
    }
}

} // verus!
