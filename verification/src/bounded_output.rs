//! Cancellation-aware byte ceilings for concrete CLI output writers.
//!
//! The wrapper records the first cancellation or size breach and keeps that
//! failure sticky for later writes and flushes, allowing archive and report
//! owners to translate the same boundary evidence into their distinct errors.

use vstd::prelude::*;
use vstd::slice::slice_subrange;

use crate::cancellation::ApplicationCancellation;
use crate::error::{IoErrorKind, IoFailure};

verus! {

/// The most bytes handed to the underlying writer in one call.
pub const WRITE_CHUNK_BYTES: usize = 65536;

/// A byte sink that an output boundary delegates to, with the record of
/// what reached it.
pub trait OutputSink {
    /// Every byte the sink accepted, in order.
    spec fn received(&self) -> Seq<u8>;

    /// Every write request handed to the sink, in order.
    spec fn requests(&self) -> Seq<Seq<u8>>;

    /// The outcome of every flush of the sink, in order.
    spec fn flushes(&self) -> Seq<Result<(), IoFailure>>;

    /// The answer to every write request, in order.
    spec fn answers(&self) -> Seq<Result<usize, IoFailure>>;

    /// Writes a prefix of `bytes` and returns its length; a failed write
    /// accepts nothing.
    fn write_bytes(&mut self, bytes: &[u8]) -> (r: Result<usize, IoFailure>)
        ensures
            final(self).requests() == old(self).requests().push(bytes@),
            final(self).answers() == old(self).answers().push(r),
            final(self).flushes() == old(self).flushes(),
            r matches Ok(n) ==> n <= bytes@.len() && final(self).received() == old(self).received() + bytes@.take(
                n as int,
            ),
            r is Err ==> final(self).received() == old(self).received(),
    ;

    /// Flushes buffered bytes.
    fn flush_sink(&mut self) -> (r: Result<(), IoFailure>)
        ensures
            final(self).flushes() == old(self).flushes().push(r),
            final(self).received() == old(self).received(),
            final(self).requests() == old(self).requests(),
            final(self).answers() == old(self).answers(),
    ;
}

/// A host writer: one call writes a prefix of the bytes it is handed and
/// returns that prefix's length.
pub trait ChunkWrite {
    /// Writes a prefix of `bytes` and returns its length.
    fn write_some(&mut self, bytes: &[u8]) -> Result<usize, IoFailure>;

    /// Flushes buffered bytes.
    fn flush_all(&mut self) -> Result<(), IoFailure>;
}

/// An in-memory sink: it accepts every byte it is handed and keeps them.
pub struct MemorySink {
    bytes: Vec<u8>,
    handed: Ghost<Seq<Seq<u8>>>,
    answered: Ghost<Seq<Result<usize, IoFailure>>>,
    flushed: Ghost<Seq<Result<(), IoFailure>>>,
}

impl MemorySink {
    /// An empty in-memory sink.
    pub fn new() -> (s: Self)
        ensures
            s.received() == Seq::<u8>::empty(),
            s.requests() == Seq::<Seq<u8>>::empty(),
            s.flushes() == Seq::<Result<(), IoFailure>>::empty(),
            s.answers() == Seq::<Result<usize, IoFailure>>::empty(),
    {
        MemorySink {
            bytes: Vec::new(),
            handed: Ghost(Seq::empty()),
            answered: Ghost(Seq::empty()),
            flushed: Ghost(Seq::empty()),
        }
    }

    /// The bytes kept so far: exactly the bytes the sink received.
    pub fn into_bytes(self) -> (v: Vec<u8>)
        ensures
            v@ == self.received(),
    {
        self.bytes
    }
}

impl OutputSink for MemorySink {
    closed spec fn received(&self) -> Seq<u8> {
        self.bytes@
    }

    closed spec fn requests(&self) -> Seq<Seq<u8>> {
        self.handed@
    }

    closed spec fn flushes(&self) -> Seq<Result<(), IoFailure>> {
        self.flushed@
    }

    closed spec fn answers(&self) -> Seq<Result<usize, IoFailure>> {
        self.answered@
    }

    /// Accepts the whole request.
    fn write_bytes(&mut self, bytes: &[u8]) -> (r: Result<usize, IoFailure>)
        ensures
            r == Ok::<usize, IoFailure>(bytes@.len() as usize),
    {
        proof {
            self.handed@ = self.handed@.push(bytes@);
        }
        self.bytes.extend_from_slice(bytes);
        let r = Ok(bytes.len());
        proof {
            assert(bytes@.take(bytes@.len() as int) =~= bytes@);
            self.answered@ = self.answered@.push(r);
        }
        r
    }

    /// Has nothing to flush.
    fn flush_sink(&mut self) -> (r: Result<(), IoFailure>)
        ensures
            r is Ok,
    {
        let r = Ok(());
        proof {
            self.flushed@ = self.flushed@.push(r);
        }
        r
    }
}

/// A host writer as an output sink that keeps the record of what reached
/// it; a count beyond the bytes handed over is cut to them.
pub struct WriteSink<W> {
    writer: W,
    accepted: Ghost<Seq<u8>>,
    handed: Ghost<Seq<Seq<u8>>>,
    answered: Ghost<Seq<Result<usize, IoFailure>>>,
    flushed: Ghost<Seq<Result<(), IoFailure>>>,
}

impl<W: ChunkWrite> WriteSink<W> {
    /// Starts a sink over `writer` with an empty record.
    pub fn new(writer: W) -> (s: Self)
        ensures
            s.received() == Seq::<u8>::empty(),
            s.requests() == Seq::<Seq<u8>>::empty(),
            s.flushes() == Seq::<Result<(), IoFailure>>::empty(),
            s.answers() == Seq::<Result<usize, IoFailure>>::empty(),
    {
        WriteSink {
            writer,
            accepted: Ghost(Seq::empty()),
            handed: Ghost(Seq::empty()),
            answered: Ghost(Seq::empty()),
            flushed: Ghost(Seq::empty()),
        }
    }

    /// The host writer.
    pub fn writer(&self) -> &W {
        &self.writer
    }

    /// Gives the host writer back.
    pub fn into_inner(self) -> W {
        self.writer
    }
}

impl<W: ChunkWrite> OutputSink for WriteSink<W> {
    closed spec fn received(&self) -> Seq<u8> {
        self.accepted@
    }

    closed spec fn requests(&self) -> Seq<Seq<u8>> {
        self.handed@
    }

    closed spec fn flushes(&self) -> Seq<Result<(), IoFailure>> {
        self.flushed@
    }

    closed spec fn answers(&self) -> Seq<Result<usize, IoFailure>> {
        self.answered@
    }

    fn write_bytes(&mut self, bytes: &[u8]) -> (r: Result<usize, IoFailure>) {
        proof {
            self.handed@ = self.handed@.push(bytes@);
        }
        let written = match self.writer.write_some(bytes) {
            Ok(written) => written,
            Err(failure) => {
                let r = Err(failure);
                proof {
                    self.answered@ = self.answered@.push(r);
                }
                return r;
            },
        };
        let count = if written <= bytes.len() { written } else { bytes.len() };
        proof {
            self.accepted@ = self.accepted@ + bytes@.take(count as int);
            self.answered@ = self.answered@.push(Ok(count));
        }
        Ok(count)
    }

    fn flush_sink(&mut self) -> (r: Result<(), IoFailure>) {
        let r = self.writer.flush_all();
        proof {
            self.flushed@ = self.flushed@.push(r);
        }
        r
    }
}

/// First boundary failure observed while writing one output.
#[derive(Clone, Copy, Debug, PartialEq, Eq, Structural)]
pub enum BoundedOutputFailure {
    /// Root-operation cancellation was observed before another boundary failure.
    Cancelled,
    /// The requested write would cross the ceiling, with a lower-bound byte count.
    Limit { observed_at_least: u64 },
}

/// `a + b`, saturated at `u64::MAX`.
pub open spec fn saturating(a: int, b: int) -> u64 {
    if a + b > u64::MAX {
        u64::MAX
    } else {
        (a + b) as u64
    }
}

/// The message of the I/O error that reports `failure`.
pub open spec fn failure_message(failure: BoundedOutputFailure) -> Seq<char> {
    match failure {
        BoundedOutputFailure::Cancelled => "output operation canceled"@,
        BoundedOutputFailure::Limit { .. } => "output byte limit exceeded"@,
    }
}

/// `e` is the I/O error that reports `failure`.
pub open spec fn reports(e: IoFailure, failure: BoundedOutputFailure) -> bool {
    e.kind == IoErrorKind::Other && e.message@ == failure_message(failure)
}

/// One cancellation-aware, byte-limited wrapper around a concrete writer.
pub struct BoundedOutput<'cancellation, W> {
    inner: W,
    cancellation: &'cancellation ApplicationCancellation,
    ceiling: u64,
    written: u64,
    failure: Option<BoundedOutputFailure>,
}

impl<'cancellation, W> BoundedOutput<'cancellation, W> {
    /// Only bytes within the ceiling are ever counted as written.
    pub closed spec fn wf(&self) -> bool {
        self.written <= self.ceiling
    }

    pub closed spec fn spec_inner(&self) -> W {
        self.inner
    }

    pub closed spec fn spec_ceiling(&self) -> u64 {
        self.ceiling
    }

    /// Bytes the underlying writer accepted so far.
    pub closed spec fn spec_written(&self) -> u64 {
        self.written
    }

    pub closed spec fn spec_failure(&self) -> Option<BoundedOutputFailure> {
        self.failure
    }

    /// Starts one bounded output without taking ownership of cancellation.
    pub fn new(inner: W, cancellation: &'cancellation ApplicationCancellation, ceiling: u64) -> (o: Self)
        ensures
            o.spec_inner() == inner,
            o.spec_ceiling() == ceiling,
            o.spec_written() == 0,
            o.spec_failure() is None,
            o.wf(),
    {
        BoundedOutput { inner, cancellation, ceiling, written: 0, failure: None }
    }

    /// Returns the first cancellation or limit failure, if one occurred.
    pub fn failure(&self) -> (f: Option<BoundedOutputFailure>)
        ensures
            f == self.spec_failure(),
    {
        self.failure
    }

    /// Consumes the boundary and returns its concrete writer.
    pub fn into_inner(self) -> (w: W)
        ensures
            w == self.spec_inner(),
    {
        self.inner
    }

    /// The concrete writer.
    pub fn inner(&self) -> (w: &W)
        ensures
            *w == self.spec_inner(),
    {
        &self.inner
    }

    /// Records cancellation, as the first failure, once it was requested.
    pub fn checkpoint(&mut self) -> (r: Result<(), IoFailure>)
        ensures
            old(self).wf() ==> final(self).wf(),
            final(self).spec_inner() == old(self).spec_inner(),
            final(self).spec_ceiling() == old(self).spec_ceiling(),
            final(self).spec_written() == old(self).spec_written(),
            r is Ok ==> final(self).spec_failure() == old(self).spec_failure(),
            r matches Err(e) ==> reports(e, BoundedOutputFailure::Cancelled)
                && final(self).spec_failure() == (if old(self).spec_failure() is Some {
                old(self).spec_failure()
            } else {
                Some(BoundedOutputFailure::Cancelled)
            }),
    {
        if self.cancellation.checkpoint().is_err() {
            self.record_failure(BoundedOutputFailure::Cancelled);
            return Err(Self::failure_error(BoundedOutputFailure::Cancelled));
        }
        Ok(())
    }

    /// Keeps `failure` unless an earlier failure was recorded.
    pub fn record_failure(&mut self, failure: BoundedOutputFailure)
        ensures
            old(self).wf() ==> final(self).wf(),
            final(self).spec_inner() == old(self).spec_inner(),
            final(self).spec_ceiling() == old(self).spec_ceiling(),
            final(self).spec_written() == old(self).spec_written(),
            final(self).spec_failure() == (if old(self).spec_failure() is Some {
                old(self).spec_failure()
            } else {
                Some(failure)
            }),
    {
        if self.failure.is_none() {
            self.failure = Some(failure);
        }
    }

    /// The I/O error that reports a boundary failure.
    pub fn failure_error(failure: BoundedOutputFailure) -> (e: IoFailure)
        ensures
            reports(e, failure),
    {
        let message = match failure {
            BoundedOutputFailure::Cancelled => "output operation canceled",
            BoundedOutputFailure::Limit { .. } => "output byte limit exceeded",
        };
        IoFailure { kind: IoErrorKind::Other, message: message.to_owned() }
    }
}

/// The bytes of one write request that reach the sink: its first chunk.
pub open spec fn first_chunk(bytes: Seq<u8>) -> Seq<u8> {
    if bytes.len() <= WRITE_CHUNK_BYTES {
        bytes
    } else {
        bytes.take(WRITE_CHUNK_BYTES as int)
    }
}

/// The sum of a sequence of counts.
pub open spec fn total(counts: Seq<nat>) -> nat
    decreases counts.len(),
{
    if counts.len() == 0 {
        0
    } else {
        total(counts.drop_last()) + counts.last()
    }
}

/// The requests that write `bytes` when the sink accepts `counts` bytes in
/// turn: each one is the first chunk of what is still unwritten.
pub open spec fn chunk_requests(bytes: Seq<u8>, counts: Seq<nat>) -> Seq<Seq<u8>>
    decreases counts.len(),
{
    if counts.len() == 0 {
        Seq::empty()
    } else {
        chunk_requests(bytes, counts.drop_last()).push(first_chunk(bytes.skip(total(counts.drop_last()) as int)))
    }
}

impl<'cancellation, W: OutputSink> BoundedOutput<'cancellation, W> {
    /// Writes at most one chunk of `bytes`, unless a failure was recorded,
    /// cancellation was requested, or the whole request would cross the
    /// ceiling; only bytes the writer accepted are counted.
    pub fn write(&mut self, bytes: &[u8]) -> (r: Result<usize, IoFailure>)
        requires
            old(self).wf(),
        ensures
            final(self).wf(),
            final(self).spec_ceiling() == old(self).spec_ceiling(),
            old(self).spec_failure() is Some ==> {
                &&& r matches Err(e) && reports(e, old(self).spec_failure().unwrap())
                &&& *final(self) == *old(self)
            },
            old(self).spec_failure() is None ==> {
                let requested = saturating(old(self).spec_written() as int, bytes@.len() as int);
                let sent = first_chunk(bytes@);
                ||| {
                    &&& r matches Err(e) && reports(e, BoundedOutputFailure::Cancelled)
                    &&& final(self).spec_failure() == Some(BoundedOutputFailure::Cancelled)
                    &&& final(self).spec_inner() == old(self).spec_inner()
                    &&& final(self).spec_written() == old(self).spec_written()
                }
                ||| {
                    let failure = BoundedOutputFailure::Limit { observed_at_least: requested };
                    &&& requested > old(self).spec_ceiling()
                    &&& r matches Err(e) && reports(e, failure)
                    &&& final(self).spec_failure() == Some(failure)
                    &&& final(self).spec_inner() == old(self).spec_inner()
                    &&& final(self).spec_written() == old(self).spec_written()
                }
                ||| {
                    &&& requested <= old(self).spec_ceiling()
                    &&& final(self).spec_failure() is None
                    &&& final(self).spec_inner().requests() == old(self).spec_inner().requests().push(sent)
                    &&& final(self).spec_inner().answers() == old(self).spec_inner().answers().push(r)
                    &&& final(self).spec_inner().flushes() == old(self).spec_inner().flushes()
                    &&& match r {
                        Ok(n) => {
                            &&& n <= sent.len()
                            &&& final(self).spec_written() == saturating(old(self).spec_written() as int, n as int)
                            &&& final(self).spec_inner().received() == old(self).spec_inner().received()
                                + bytes@.take(n as int)
                        },
                        Err(_) => {
                            &&& final(self).spec_written() == old(self).spec_written()
                            &&& final(self).spec_inner().received() == old(self).spec_inner().received()
                        },
                    }
                }
            },
    {
        if let Some(failure) = self.failure {
            return Err(Self::failure_error(failure));
        }
        self.checkpoint()?;
        let requested: u64 = bytes.len() as u64;
        let observed_at_least = self.written.saturating_add(requested);
        if observed_at_least > self.ceiling {
            let failure = BoundedOutputFailure::Limit { observed_at_least };
            self.record_failure(failure);
            return Err(Self::failure_error(failure));
        }
        let count = if bytes.len() < WRITE_CHUNK_BYTES {
            bytes.len()
        } else {
            WRITE_CHUNK_BYTES
        };
        let chunk = slice_subrange(bytes, 0, count);
        assert(chunk@ =~= first_chunk(bytes@));
        let written = self.inner.write_bytes(chunk)?;
        assert(chunk@.take(written as int) =~= bytes@.take(written as int));
        self.written = self.written.saturating_add(written as u64);
        Ok(written)
    }

    /// Writes all of `bytes` chunk by chunk; a writer that accepts nothing
    /// fails with `WriteZero`.
    pub fn write_all(&mut self, bytes: &[u8]) -> (r: Result<(), IoFailure>)
        requires
            old(self).wf(),
        ensures
            final(self).wf(),
            final(self).spec_ceiling() == old(self).spec_ceiling(),
            old(self).spec_failure() is Some ==> {
                &&& bytes@.len() > 0 ==> (r matches Err(e) && reports(e, old(self).spec_failure().unwrap()))
                &&& *final(self) == *old(self)
            },
            old(self).spec_failure() is None ==> {
                let requested = saturating(old(self).spec_written() as int, bytes@.len() as int);
                &&& exists|k: int|
                    0 <= k <= bytes@.len() && final(self).spec_written() == saturating(
                        old(self).spec_written() as int,
                        k,
                    ) && #[trigger] final(self).spec_inner().received() == old(self).spec_inner().received()
                        + bytes@.take(k)
                &&& final(self).spec_inner().flushes() == old(self).spec_inner().flushes()
                &&& r is Ok ==> {
                    &&& requested <= old(self).spec_ceiling()
                    &&& final(self).spec_written() == requested
                    &&& final(self).spec_failure() is None
                    &&& final(self).spec_inner().received() == old(self).spec_inner().received() + bytes@
                    &&& exists|counts: Seq<nat>|
                        total(counts) == bytes@.len() && (forall|i: int| 0 <= i < counts.len() ==> #[trigger] counts[i]
                            > 0) && #[trigger] final(self).spec_inner().requests() == old(self).spec_inner().requests()
                            + chunk_requests(bytes@, counts)
                }
                &&& r is Err ==> {
                    ||| final(self).spec_failure() == Some(BoundedOutputFailure::Cancelled)
                    ||| final(self).spec_failure() == Some(BoundedOutputFailure::Limit { observed_at_least: requested })
                        && requested > old(self).spec_ceiling()
                    ||| final(self).spec_failure() is None
                }
                &&& r is Err && final(self).spec_failure() is None ==> exists|counts: Seq<nat>|
                    total(counts) < bytes@.len() && (forall|i: int| 0 <= i < counts.len() ==> #[trigger] counts[i] > 0)
                        && #[trigger] final(self).spec_inner().requests() == old(self).spec_inner().requests()
                        + chunk_requests(bytes@, counts).push(first_chunk(bytes@.skip(total(counts) as int)))
                        && final(self).spec_inner().answers().len() == old(self).spec_inner().answers().len()
                        + counts.len() + 1 && (final(self).spec_inner().answers().last() is Err
                        || final(self).spec_inner().answers().last() == Ok::<usize, IoFailure>(0))
                &&& requested > old(self).spec_ceiling() ==> {
                    &&& r is Err
                    &&& final(self).spec_inner() == old(self).spec_inner()
                    &&& final(self).spec_failure() == Some(BoundedOutputFailure::Cancelled)
                        || final(self).spec_failure() == Some(
                        BoundedOutputFailure::Limit { observed_at_least: requested },
                    )
                }
                &&& bytes@.len() == 0 ==> r is Ok && *final(self) == *old(self)
            },
    {
        let mut start: usize = 0;
        let ghost mut counts: Seq<nat> = Seq::empty();
        assert(old(self).spec_inner().requests() + chunk_requests(bytes@, counts) =~= old(self).spec_inner().requests());
        while start < bytes.len()
            invariant
                start <= bytes@.len(),
                self.spec_ceiling() == old(self).spec_ceiling(),
                self.wf(),
                start == 0 ==> *self == *old(self),
                old(self).spec_failure() is Some ==> *self == *old(self) && start == 0,
                old(self).spec_failure() is None ==> {
                    &&& self.spec_failure() is None
                    &&& self.spec_written() == saturating(old(self).spec_written() as int, start as int)
                    &&& saturating(old(self).spec_written() as int, start as int) <= self.spec_ceiling()
                    &&& start > 0 ==> saturating(old(self).spec_written() as int, bytes@.len() as int)
                        <= self.spec_ceiling()
                    &&& self.spec_inner().received() == old(self).spec_inner().received() + bytes@.take(
                        start as int,
                    )
                    &&& self.spec_inner().flushes() == old(self).spec_inner().flushes()
                    &&& total(counts) == start
                    &&& forall|i: int| 0 <= i < counts.len() ==> #[trigger] counts[i] > 0
                    &&& self.spec_inner().requests() == old(self).spec_inner().requests() + chunk_requests(
                        bytes@,
                        counts,
                    )
                    &&& self.spec_inner().answers().len() == old(self).spec_inner().answers().len() + counts.len()
                },
            decreases bytes@.len() - start,
        {
            let rest = slice_subrange(bytes, start, bytes.len());
            assert(rest@ =~= bytes@.skip(start as int));
            let ghost received_before = self.spec_inner().received();
            let ghost requests_before = self.spec_inner().requests();
            proof {
                if old(self).spec_failure() is None {
                    assert(requests_before.push(first_chunk(rest@)) =~= old(self).spec_inner().requests()
                        + chunk_requests(bytes@, counts).push(first_chunk(bytes@.skip(total(counts) as int))));
                }
            }
            match self.write(rest) {
                Ok(0) => {
                    return Err(IoFailure { kind: IoErrorKind::WriteZero, message: "failed to write whole buffer".to_owned() });
                },
                Ok(n) => {
                    assert(bytes@.take(start as int) + rest@.take(n as int) =~= bytes@.take(start + n));
                    proof {
                        let ghost before = counts;
                        counts = counts.push(n as nat);
                        assert(counts.drop_last() =~= before);
                        assert(old(self).spec_inner().requests() + chunk_requests(bytes@, counts) =~= (old(
                            self,
                        ).spec_inner().requests() + chunk_requests(bytes@, before)).push(first_chunk(rest@)));
                    }
                    start = start + n;
                },
                Err(e) => {
                    return Err(e);
                },
            }
        }
        assert(bytes@.take(start as int) =~= bytes@);
        Ok(())
    }

    /// Flushes the writer unless a failure was recorded or cancellation was
    /// requested; its answer is the writer's own.
    pub fn flush(&mut self) -> (r: Result<(), IoFailure>)
        requires
            old(self).wf(),
        ensures
            final(self).wf(),
            final(self).spec_ceiling() == old(self).spec_ceiling(),
            final(self).spec_written() == old(self).spec_written(),
            old(self).spec_failure() is Some ==> {
                &&& r matches Err(e) && reports(e, old(self).spec_failure().unwrap())
                &&& *final(self) == *old(self)
            },
            old(self).spec_failure() is None ==> {
                ||| {
                    &&& r matches Err(e) && reports(e, BoundedOutputFailure::Cancelled)
                    &&& final(self).spec_failure() == Some(BoundedOutputFailure::Cancelled)
                    &&& final(self).spec_inner() == old(self).spec_inner()
                }
                ||| {
                    &&& final(self).spec_failure() is None
                    &&& final(self).spec_inner().flushes() == old(self).spec_inner().flushes().push(r)
                    &&& final(self).spec_inner().received() == old(self).spec_inner().received()
                    &&& final(self).spec_inner().requests() == old(self).spec_inner().requests()
                }
            },
    {
        if let Some(failure) = self.failure {
            return Err(Self::failure_error(failure));
        }
        self.checkpoint()?;
        self.inner.flush_sink()
    }
}

} // verus!
