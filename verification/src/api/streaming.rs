//! Persistent streams: where each open HTTP stream of a file stands, the
//! bytes it has received but not handed out, and when a read can reuse it.
use crate::error::RqbitFuseError;
use crate::text::{concat2, decimal, u64_to_decimal};
use vstd::prelude::*;

verus! {

/// The farthest a stream skips forward to reach a read's offset (10 MiB);
/// farther reads open a new stream.
pub const MAX_SEEK_FORWARD: u64 = 10485760;

/// How long a stream may stay unused before it is closed, in milliseconds.
pub const STREAM_IDLE_TIMEOUT_MS: u64 = 30000;

/// The most streams open at once, by default.
pub const DEFAULT_MAX_STREAMS: usize = 50;

/// Unique identifier for a file stream.
#[derive(Debug, Clone, Copy, PartialEq, Eq, Hash, Structural)]
pub struct StreamKey {
    pub torrent_id: u64,
    pub file_idx: usize,
}

/// Where a persistent stream stands: its position in the file, whether it
/// is still usable, the bytes received but not yet handed out, and when it
/// was last used (ms).
#[derive(Debug)]
pub struct StreamCursor {
    position: u64,
    valid: bool,
    pending: Vec<u8>,
    last_access_ms: u64,
}

/// The state of a [`StreamCursor`].
pub struct StreamCursorView {
    pub position: u64,
    pub valid: bool,
    pub pending: Seq<u8>,
    pub last_access_ms: u64,
}

impl View for StreamCursor {
    type V = StreamCursorView;

    closed spec fn view(&self) -> StreamCursorView {
        StreamCursorView {
            position: self.position,
            valid: self.valid,
            pending: self.pending@,
            last_access_ms: self.last_access_ms,
        }
    }
}

/// Whether a stream at `position` can serve a read at `offset`: it is
/// usable and the offset is at or at most 10 MiB after its position.
pub open spec fn serves(v: StreamCursorView, offset: u64) -> bool {
    v.valid && offset >= v.position && offset - v.position <= MAX_SEEK_FORWARD
}

/// `a` bounded by `b`.
pub open spec fn min_nat(a: nat, b: nat) -> nat {
    if a < b { a } else { b }
}

impl StreamCursor {
    /// A fresh stream at position 0, used at `now_ms`.
    pub fn new(now_ms: u64) -> (c: Self)
        ensures
            c@.position == 0,
            c@.valid,
            c@.pending == Seq::<u8>::empty(),
            c@.last_access_ms == now_ms,
    {
        StreamCursor { position: 0, valid: true, pending: Vec::new(), last_access_ms: now_ms }
    }

    /// The current byte position in the stream.
    pub fn position(&self) -> (r: u64)
        ensures
            r == self@.position,
    {
        self.position
    }

    /// Whether the stream is still usable.
    pub fn is_valid(&self) -> (r: bool)
        ensures
            r == self@.valid,
    {
        self.valid
    }

    /// Whether received bytes wait to be handed out.
    pub fn has_pending(&self) -> (r: bool)
        ensures
            r == (self@.pending.len() > 0),
    {
        self.pending.len() > 0
    }

    /// The number of received bytes waiting to be handed out.
    pub fn pending_len(&self) -> (r: usize)
        ensures
            r == self@.pending.len(),
    {
        self.pending.len()
    }

    /// Marks the stream unusable (after an error of the connection).
    pub fn invalidate(&mut self)
        ensures
            final(self)@ == (StreamCursorView { valid: false, ..old(self)@ }),
    {
        self.valid = false;
    }

    /// Records a use of the stream at `now_ms`.
    pub fn touch(&mut self, now_ms: u64)
        ensures
            final(self)@ == (StreamCursorView { last_access_ms: now_ms, ..old(self)@ }),
    {
        self.last_access_ms = now_ms;
    }

    /// Check if this stream can satisfy a read at the given offset: only
    /// forward, and at most 10 MiB forward.
    pub fn can_read_at(&self, offset: u64) -> (r: bool)
        ensures
            r == serves(self@, offset),
    {
        if !self.valid {
            return false;
        }
        if offset >= self.position {
            offset - self.position <= MAX_SEEK_FORWARD
        } else {
            false
        }
    }

    /// Check if the stream has been idle too long at `now_ms`.
    pub fn is_idle(&self, now_ms: u64) -> (r: bool)
        ensures
            r == (now_ms >= self@.last_access_ms && now_ms - self@.last_access_ms > STREAM_IDLE_TIMEOUT_MS),
    {
        now_ms >= self.last_access_ms && now_ms - self.last_access_ms > STREAM_IDLE_TIMEOUT_MS
    }

    /// Consume bytes from the pending buffer, returns bytes consumed: at
    /// most `bytes_needed`, and the position moves past them.
    pub fn consume_pending(&mut self, bytes_needed: usize) -> (r: usize)
        requires
            old(self)@.position + old(self)@.pending.len() <= u64::MAX,
        ensures
            r == min_nat(old(self)@.pending.len(), bytes_needed as nat),
            final(self)@.pending == old(self)@.pending.subrange(r as int, old(self)@.pending.len() as int),
            final(self)@.position == old(self)@.position + r,
            final(self)@.valid == old(self)@.valid,
            final(self)@.last_access_ms == old(self)@.last_access_ms,
    {
        let n = self.pending.len();
        let to_consume = if n < bytes_needed { n } else { bytes_needed };
        self.position = self.position + to_consume as u64;
        self.pending = slice_from(&self.pending, to_consume);
        to_consume
    }

    /// Hands out up to `want` pending bytes, as the start of a read.
    pub fn take_pending(&mut self, want: usize) -> (out: Vec<u8>)
        requires
            old(self)@.position + old(self)@.pending.len() <= u64::MAX,
        ensures
            out@ == old(self)@.pending.subrange(0, min_nat(old(self)@.pending.len(), want as nat) as int),
            final(self)@.pending == old(self)@.pending.subrange(out@.len() as int, old(self)@.pending.len() as int),
            final(self)@.position == old(self)@.position + out@.len(),
            final(self)@.valid == old(self)@.valid,
            final(self)@.last_access_ms == old(self)@.last_access_ms,
    {
        let n = self.pending.len();
        let to_copy = if n < want { n } else { want };
        let out = slice_range(&self.pending, 0, to_copy);
        self.position = self.position + to_copy as u64;
        self.pending = slice_from(&self.pending, to_copy);
        out
    }

    /// Takes a chunk received during a read that wants `want` bytes in
    /// all: the bytes still wanted go to `out`, the rest waits as pending,
    /// and the position moves past the bytes handed out.
    pub fn read_chunk(&mut self, out: &mut Vec<u8>, want: usize, chunk: &[u8])
        requires
            old(out)@.len() < want,
            old(self)@.position + chunk@.len() <= u64::MAX,
        ensures
            final(out)@ == old(out)@ + chunk@.subrange(0, min_nat(chunk@.len(), (want - old(out)@.len()) as nat) as int),
            final(self)@.position == old(self)@.position + (final(out)@.len() - old(out)@.len()),
            final(self)@.pending == (if final(out)@.len() - old(out)@.len() < chunk@.len() {
                chunk@.subrange(final(out)@.len() - old(out)@.len(), chunk@.len() as int)
            } else {
                old(self)@.pending
            }),
            final(self)@.valid == old(self)@.valid,
            final(self)@.last_access_ms == old(self)@.last_access_ms,
    {
        let remaining = want - out.len();
        let to_copy = if chunk.len() < remaining { chunk.len() } else { remaining };
        let mut i: usize = 0;
        let ghost start = out@;
        while i < to_copy
            invariant
                i <= to_copy <= chunk@.len(),
                out@ == start + chunk@.subrange(0, i as int),
            decreases to_copy - i,
        {
            out.push(chunk[i]);
            i = i + 1;
            assert(out@ =~= start + chunk@.subrange(0, i as int));
        }
        self.position = self.position + to_copy as u64;
        self.buffer_leftover(chunk, to_copy);
    }

    /// Takes a chunk received while skipping towards `target` bytes, of
    /// which `skipped` are skipped already; returns the new count. The
    /// bytes past the target wait as pending.
    pub fn skip_chunk(&mut self, skipped: u64, target: u64, chunk: &[u8]) -> (r: u64)
        requires
            skipped < target,
            old(self)@.position + chunk@.len() <= u64::MAX,
        ensures
            r == skipped + min_nat(chunk@.len(), (target - skipped) as nat),
            final(self)@.position == old(self)@.position + (r - skipped),
            final(self)@.pending == (if r - skipped < chunk@.len() {
                chunk@.subrange(r - skipped, chunk@.len() as int)
            } else {
                old(self)@.pending
            }),
            final(self)@.valid == old(self)@.valid,
            final(self)@.last_access_ms == old(self)@.last_access_ms,
    {
        let remaining = target - skipped;
        let to_skip: usize = if (chunk.len() as u64) < remaining { chunk.len() } else { remaining as usize };
        self.position = self.position + to_skip as u64;
        self.buffer_leftover(chunk, to_skip);
        skipped + to_skip as u64
    }

    /// Buffer remaining chunk data after consuming `consumed` bytes.
    fn buffer_leftover(&mut self, chunk: &[u8], consumed: usize)
        requires
            consumed <= chunk@.len(),
        ensures
            final(self)@.pending == (if consumed < chunk@.len() {
                chunk@.subrange(consumed as int, chunk@.len() as int)
            } else {
                old(self)@.pending
            }),
            final(self)@.position == old(self)@.position,
            final(self)@.valid == old(self)@.valid,
            final(self)@.last_access_ms == old(self)@.last_access_ms,
    {
        if consumed < chunk.len() {
            self.pending = slice_range(chunk, consumed, chunk.len());
        }
    }
}

/// A copy of `v[from..]`.
fn slice_from(v: &Vec<u8>, from: usize) -> (r: Vec<u8>)
    requires
        from <= v@.len(),
    ensures
        r@ == v@.subrange(from as int, v@.len() as int),
{
    slice_range(v.as_slice(), from, v.len())
}

/// A copy of `v[from..to]`.
fn slice_range(v: &[u8], from: usize, to: usize) -> (r: Vec<u8>)
    requires
        from <= to <= v@.len(),
    ensures
        r@ == v@.subrange(from as int, to as int),
{
    let mut r: Vec<u8> = Vec::new();
    let mut i = from;
    while i < to
        invariant
            from <= i <= to <= v@.len(),
            r@ == v@.subrange(from as int, i as int),
        decreases to - i,
    {
        r.push(v[i]);
        i = i + 1;
        assert(r@ =~= v@.subrange(from as int, i as int));
    }
    r
}

/// The bytes a new stream must skip, or why it cannot be used: the
/// response must be a success (its status text is `status_text`); a server
/// that answers a request from `start_offset > 0` with 200 sent the whole
/// file, so the stream skips to the offset.
pub fn open_stream_check(status: u16, status_text: &str, start_offset: u64) -> (r: Result<u64, RqbitFuseError>)
    ensures
        !(200 <= status && status <= 299) ==> (r matches Err(RqbitFuseError::IoError(m)) && m@
            == "Failed to create stream: HTTP "@ + status_text@),
        200 <= status && status <= 299 ==> r == Ok::<u64, RqbitFuseError>(
            if status == 200 && start_offset > 0 { start_offset } else { 0 },
        ),
{
    if !(200 <= status && status <= 299) {
        return Err(RqbitFuseError::IoError(concat2("Failed to create stream: HTTP ", status_text)));
    }
    if status == 200 && start_offset > 0 {
        Ok(start_offset)
    } else {
        Ok(0)
    }
}

/// How a read is served.
#[derive(Debug, PartialEq, Eq)]
pub enum StreamChoice {
    /// Reuse the open stream after skipping this many bytes
    Reuse { skip: u64 },
    /// Open a new stream
    Create,
    /// Too many streams are open: the message says so
    TooMany(String),
}

/// Chooses how to serve a read at `offset` given the stream open for the
/// file (if any), the number of open streams and the limit: reuse a stream
/// that can serve it (skipping forward to the offset), else open a new
/// one unless the limit is reached.
pub fn choose_stream(existing: Option<&StreamCursor>, offset: u64, open_streams: usize, max_streams: usize) -> (r: StreamChoice)
    ensures
        (existing matches Some(c) && serves(c@, offset)) ==> r == (StreamChoice::Reuse {
            skip: (offset - existing->0@.position) as u64,
        }),
        !(existing matches Some(c) && serves(c@, offset)) && open_streams < max_streams ==> r == StreamChoice::Create,
        !(existing matches Some(c) && serves(c@, offset)) && open_streams >= max_streams ==> (r matches StreamChoice::TooMany(m)
            && m@ == "Maximum number of open streams ("@ + decimal(max_streams as nat) + ") exceeded"@),
{
    match existing {
        Some(c) => {
            if c.can_read_at(offset) {
                return StreamChoice::Reuse { skip: offset - c.position() };
            }
        },
        None => {},
    }
    if open_streams >= max_streams {
        let n = u64_to_decimal(max_streams as u64);
        let mut m = concat2("Maximum number of open streams (", n.as_str());
        m.append(") exceeded");
        return StreamChoice::TooMany(m);
    }
    StreamChoice::Create
}

/// Statistics about the stream manager.
#[derive(Debug, Clone, Copy, PartialEq, Eq, Structural)]
pub struct StreamManagerStats {
    pub active_streams: usize,
    pub max_streams: usize,
    pub total_bytes_streaming: u64,
}

/// The sum of some positions.
pub open spec fn sum_positions(p: Seq<u64>) -> nat
    decreases p.len(),
{
    if p.len() == 0 {
        0
    } else {
        (sum_positions(p.drop_last()) + p.last()) as nat
    }
}

/// The statistics of the open streams, given their positions.
pub fn stream_stats(positions: &Vec<u64>, max_streams: usize) -> (r: StreamManagerStats)
    requires
        sum_positions(positions@) <= u64::MAX,
    ensures
        r == (StreamManagerStats {
            active_streams: positions@.len() as usize,
            max_streams,
            total_bytes_streaming: sum_positions(positions@) as u64,
        }),
{
    let mut total: u64 = 0;
    let mut i: usize = 0;
    while i < positions.len()
        invariant
            i <= positions@.len(),
            sum_positions(positions@) <= u64::MAX,
            total == sum_positions(positions@.subrange(0, i as int)),
        decreases positions.len() - i,
    {
        proof {
            lemma_sum_prefix_bound(positions@, (i + 1) as nat);
            assert(positions@.subrange(0, i + 1).drop_last() =~= positions@.subrange(0, i as int));
        }
        total = total + positions[i];
        i = i + 1;
    }
    assert(positions@.subrange(0, positions@.len() as int) =~= positions@);
    StreamManagerStats { active_streams: positions.len(), max_streams, total_bytes_streaming: total }
}

/// A prefix sums to at most the whole.
proof fn lemma_sum_prefix_bound(p: Seq<u64>, k: nat)
    requires
        k <= p.len(),
    ensures
        sum_positions(p.subrange(0, k as int)) <= sum_positions(p),
    decreases p.len() - k,
{
    if k < p.len() {
        lemma_sum_prefix_bound(p, k + 1);
        assert(p.subrange(0, (k + 1) as int).drop_last() =~= p.subrange(0, k as int));
    } else {
        assert(p.subrange(0, k as int) =~= p);
    }
}

} // verus!
