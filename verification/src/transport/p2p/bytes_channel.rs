//! Receiving end of a channel of byte chunks read through fixed-size buffers.
//!
//! A chunk that does not fit in the reader's buffer is not lost: what is left
//! of it is kept in a reserve, and the next read starts from there before the
//! channel is polled again.
use vstd::prelude::*;

verus! {

/// What polling the channel for its next chunk gave.
pub enum ChannelPoll {
    /// A chunk was received.
    Ready(Vec<u8>),
    /// The sending end is gone and nothing more will come.
    Closed,
    /// Nothing is available yet.
    Pending,
}

/// Reading side of a bytes channel.
pub struct BytesChannelReceiver {
    reserve: Option<Vec<u8>>,
}

impl BytesChannelReceiver {
    /// Whether part of an earlier chunk is still waiting to be read.
    pub closed spec fn reserving(&self) -> bool {
        self.reserve is Some
    }

    /// The bytes waiting to be read before the channel is polled again.
    pub closed spec fn pending(&self) -> Seq<u8> {
        match self.reserve {
            Some(r) => r@,
            None => Seq::empty(),
        }
    }

    pub fn new() -> (r: Self)
        ensures
            !r.reserving(),
            r.pending() == Seq::<u8>::empty(),
    {
        BytesChannelReceiver { reserve: None }
    }

    /// Whether the next read needs a chunk from the channel, which is the
    /// case only when no reserve is left.
    pub fn needs_poll(&self) -> (b: bool)
        ensures
            b == !self.reserving(),
    {
        self.reserve.is_none()
    }

    /// One read into a buffer of `buf_len` bytes. It starts from the reserve
    /// when there is one, and `polled` is then not looked at; else from what
    /// polling the channel gave. `None` means that the read is pending. At most
    /// `buf_len` bytes are read; the rest of the chunk becomes the reserve.
    /// A closed channel reads zero bytes.
    pub fn poll_read(&mut self, polled: ChannelPoll, buf_len: usize) -> (res: Option<Vec<u8>>)
        ensures
            old(self).reserving() ==> read_split(res, *final(self), old(self).pending(), buf_len),
            !old(self).reserving() ==> match polled {
                ChannelPoll::Pending => res is None && *final(self) == *old(self),
                ChannelPoll::Closed => res is Some && res->0@ == Seq::<u8>::empty() && *final(self)
                    == *old(self),
                ChannelPoll::Ready(chunk) => read_split(res, *final(self), chunk@, buf_len),
            },
    {
        let mut bytes: Vec<u8> = match self.reserve.take() {
            Some(reserve) => reserve,
            None => match polled {
                ChannelPoll::Ready(chunk) => chunk,
                ChannelPoll::Closed => {
                    return Some(Vec::new());
                },
                ChannelPoll::Pending => {
                    return None;
                },
            },
        };
        if bytes.len() > buf_len {
            let rest = bytes.split_off(buf_len);
            self.reserve = Some(rest);
            Some(bytes)
        } else {
            Some(bytes)
        }
    }
}

/// A read of a buffer of `buf_len` bytes from `source`: the first
/// `min(buf_len, |source|)` bytes are read, and the reserve holds the rest, if
/// any is left.
pub open spec fn read_split(
    res: Option<Vec<u8>>,
    after: BytesChannelReceiver,
    source: Seq<u8>,
    buf_len: usize,
) -> bool {
    &&& res is Some
    &&& if source.len() > buf_len {
        &&& res->0@ == source.take(buf_len as int)
        &&& after.reserving()
        &&& after.pending() == source.skip(buf_len as int)
    } else {
        &&& res->0@ == source
        &&& !after.reserving()
    }
}

/// Nothing is lost nor read twice: the bytes that a read gives, followed by
/// the bytes that it leaves waiting, are exactly the bytes it started from,
/// and no read gives more than its buffer holds.
pub proof fn lemma_read_keeps_stream(
    res: Option<Vec<u8>>,
    after: BytesChannelReceiver,
    source: Seq<u8>,
    buf_len: usize,
)
    requires
        read_split(res, after, source, buf_len),
    ensures
        res->0@ + after.pending() == source,
        res->0@.len() <= buf_len,
        res->0@.len() < buf_len ==> !after.reserving(),
{
    if source.len() > buf_len {
        assert(source.take(buf_len as int) + source.skip(buf_len as int) =~= source);
    } else {
        assert(source + Seq::<u8>::empty() =~= source);
    }
}

/// One read that gave data: from `before`, reading into a buffer of
/// `buf_len` bytes gave `read` and left `after`, starting from the reserve
/// if there was one, else from `chunk`, the chunk the channel was polled for.
pub open spec fn read_step(
    before: BytesChannelReceiver,
    chunk: Vec<u8>,
    read: Vec<u8>,
    after: BytesChannelReceiver,
    buf_len: usize,
) -> bool {
    read_split(Some(read), after, if before.reserving() { before.pending() } else { chunk@ }, buf_len)
}

/// The bytes of the first `n` reads, one after the other.
pub open spec fn bytes_read(reads: Seq<Vec<u8>>, n: nat) -> Seq<u8>
    decreases n,
{
    if n == 0 {
        Seq::empty()
    } else {
        bytes_read(reads, (n - 1) as nat) + reads[n - 1]@
    }
}

/// The chunks that the first `n` reads polled the channel for, one after the
/// other: a read polls only when no reserve is left.
pub open spec fn bytes_polled(receivers: Seq<BytesChannelReceiver>, chunks: Seq<Vec<u8>>, n: nat) -> Seq<u8>
    decreases n,
{
    if n == 0 {
        Seq::empty()
    } else if receivers[n - 1].reserving() {
        bytes_polled(receivers, chunks, (n - 1) as nat)
    } else {
        bytes_polled(receivers, chunks, (n - 1) as nat) + chunks[n - 1]@
    }
}

/// Over successive reads from a fresh receiver, the bytes read, followed by
/// the bytes still waiting, are exactly the chunks received from the
/// channel, in the order they came: nothing is lost, read twice or
/// reordered, whatever the sizes of the chunks and of the buffers.
pub proof fn lemma_reads_keep_stream(
    receivers: Seq<BytesChannelReceiver>,
    chunks: Seq<Vec<u8>>,
    reads: Seq<Vec<u8>>,
    buf_lens: Seq<usize>,
)
    requires
        receivers.len() == reads.len() + 1,
        chunks.len() == reads.len(),
        buf_lens.len() == reads.len(),
        !receivers[0].reserving(),
        forall|i: int|
            0 <= i < reads.len() ==> #[trigger] read_step(receivers[i], chunks[i], reads[i], receivers[i + 1], buf_lens[i]),
    ensures
        bytes_read(reads, reads.len()) + receivers[reads.len() as int].pending() == bytes_polled(
            receivers,
            chunks,
            reads.len(),
        ),
    decreases reads.len(),
{
    let n = reads.len();
    if n == 0 {
        assert(receivers[0].pending() =~= Seq::<u8>::empty());
        assert(bytes_read(reads, 0) + receivers[0].pending() =~= Seq::<u8>::empty());
    } else {
        let m = (n - 1) as nat;
        lemma_reads_keep_stream(receivers.take(n as int), chunks.take(m as int), reads.take(m as int), buf_lens.take(m as int));
        let before = receivers[m as int];
        let after = receivers[n as int];
        assert(read_step(before, chunks[m as int], reads[m as int], after, buf_lens[m as int]));
        let source = if before.reserving() { before.pending() } else { chunks[m as int]@ };
        lemma_read_keeps_stream(Some(reads[m as int]), after, source, buf_lens[m as int]);
        let prev = bytes_read(reads, m);
        lemma_bytes_read_prefix(reads, m, m);
        lemma_bytes_polled_prefix(receivers, chunks, n, m, m);
        assert(receivers.take(n as int)[m as int] == before);
        assert(prev + before.pending() == bytes_polled(receivers, chunks, m));
        assert(bytes_read(reads, n) == prev + reads[m as int]@);
        assert(reads[m as int]@ + after.pending() == source);
        assert(prev + reads[m as int]@ + after.pending() =~= prev + (reads[m as int]@ + after.pending()));
        if before.reserving() {
            assert(bytes_polled(receivers, chunks, n) == bytes_polled(receivers, chunks, m));
        } else {
            assert(before.pending() =~= Seq::<u8>::empty());
            assert(prev + before.pending() =~= prev);
            assert(bytes_polled(receivers, chunks, n) == bytes_polled(receivers, chunks, m) + chunks[m as int]@);
        }
    }
}

proof fn lemma_bytes_read_prefix(reads: Seq<Vec<u8>>, m: nat, k: nat)
    requires
        k <= m <= reads.len(),
    ensures
        bytes_read(reads.take(m as int), k) == bytes_read(reads, k),
    decreases k,
{
    if k > 0 {
        lemma_bytes_read_prefix(reads, m, (k - 1) as nat);
    }
}

proof fn lemma_bytes_polled_prefix(receivers: Seq<BytesChannelReceiver>, chunks: Seq<Vec<u8>>, n: nat, m: nat, k: nat)
    requires
        k <= m,
        m < n <= receivers.len(),
        m <= chunks.len(),
    ensures
        bytes_polled(receivers.take(n as int), chunks.take(m as int), k) == bytes_polled(receivers, chunks, k),
    decreases k,
{
    if k > 0 {
        lemma_bytes_polled_prefix(receivers, chunks, n, m, (k - 1) as nat);
    }
}

} // verus!
