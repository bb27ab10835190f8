//! Operation-wide catalog read budgets.
//!
//! One budget spans every catalog input read by an operation: the number of
//! entries inspected by broad traversals, the number of participating entries,
//! the bytes of each file, and the bytes of all files together. Every
//! rejection carries the exceeded limit and a lower bound of what was observed.

use vstd::prelude::*;

use crate::cancellation::ApplicationCancellation;
use crate::error::{CliError, IoFailure};

verus! {

/// Chunk size of one bounded read.
pub const READ_CHUNK_BYTES: usize = 65536;

/// Default traversal-entry budget of every catalog policy.
pub const TRAVERSAL_ENTRY_LIMIT: u64 = 100_000;

/// `a + b`, or `u64::MAX` when the sum does not fit.
pub open spec fn sat_add(a: u64, b: u64) -> u64 {
    if a + b > u64::MAX { u64::MAX } else { (a + b) as u64 }
}

/// `a - b`, or zero when `b > a`.
pub open spec fn sat_sub(a: u64, b: u64) -> u64 {
    if a >= b { (a - b) as u64 } else { 0 }
}

/// The smaller of two counts.
pub open spec fn min_u64(a: u64, b: u64) -> u64 {
    if a <= b { a } else { b }
}

/// A `usize` count as a `u64`, saturating on targets where it cannot fit.
pub open spec fn count_u64(n: usize) -> u64 {
    if n > u64::MAX { u64::MAX } else { n as u64 }
}

/// Converts a byte count, saturating at `u64::MAX`.
pub fn usize_to_u64(n: usize) -> (r: u64)
    ensures
        r == count_u64(n),
{
    if n as u128 > u64::MAX as u128 { u64::MAX } else { n as u64 }
}

/// Converts a count to `usize`, saturating at `usize::MAX`.
pub fn u64_to_usize(n: u64) -> (r: usize)
    ensures
        n <= usize::MAX ==> r == n,
        n > usize::MAX ==> r == usize::MAX,
{
    if n as u128 > usize::MAX as u128 { usize::MAX } else { n as usize }
}

/// CLI filesystem budgets applied before bytes cross into either domain.
#[derive(Clone, Copy, Debug, PartialEq, Eq, Structural)]
pub struct CatalogReadLimits {
    traversal_entry_count: u64,
    entry_count: u64,
    total_bytes: u64,
    per_file_bytes: u64,
}

impl CatalogReadLimits {
    /// Maximum number of entries a broad walk may inspect.
    pub closed spec fn spec_traversal_entry_count(self) -> u64 {
        self.traversal_entry_count
    }

    /// Maximum number of participating entries.
    pub closed spec fn spec_entry_count(self) -> u64 {
        self.entry_count
    }

    /// Maximum aggregate bytes.
    pub closed spec fn spec_total_bytes(self) -> u64 {
        self.total_bytes
    }

    /// Maximum bytes of one file.
    pub closed spec fn spec_per_file_bytes(self) -> u64 {
        self.per_file_bytes
    }

    /// Creates one complete catalog-read policy.
    pub fn new(entry_count: u64, total_bytes: u64, per_file_bytes: u64) -> (l: Self)
        ensures
            l.spec_traversal_entry_count() == TRAVERSAL_ENTRY_LIMIT,
            l.spec_entry_count() == entry_count,
            l.spec_total_bytes() == total_bytes,
            l.spec_per_file_bytes() == per_file_bytes,
    {
        CatalogReadLimits {
            traversal_entry_count: TRAVERSAL_ENTRY_LIMIT,
            entry_count,
            total_bytes,
            per_file_bytes,
        }
    }

    /// Returns the maximum bytes accepted from one filesystem file.
    pub fn per_file_bytes(&self) -> (r: u64)
        ensures
            r == self.spec_per_file_bytes(),
    {
        self.per_file_bytes
    }

    /// Starts one empty ledger under this policy.
    pub fn begin(self, cancellation: &ApplicationCancellation) -> (b: CatalogReadBudget)
        ensures
            b.limits() == self,
            b.traversal_entries() == 0,
            b.entries() == 0,
            b.total_bytes() == 0,
            b.spec_cancellation().spec_flag() == cancellation.spec_flag(),
    {
        CatalogReadBudget {
            limits: self,
            traversal_entries: 0,
            entries: 0,
            total_bytes: 0,
            cancellation: cancellation.share(),
        }
    }
}

impl Default for CatalogReadLimits {
    fn default() -> (l: Self)
        ensures
            l.spec_traversal_entry_count() == TRAVERSAL_ENTRY_LIMIT,
            l.spec_entry_count() == 10_000,
            l.spec_total_bytes() == 536_870_912,
            l.spec_per_file_bytes() == 67_108_864,
    {
        Self::new(10_000, 536_870_912, 67_108_864)
    }
}

/// Filesystem resource whose read budget was exceeded.
#[derive(Clone, Copy, Debug, PartialEq, Eq, Structural)]
pub enum CatalogReadLimitResource {
    /// Number of filesystem entries inspected during broad traversal.
    TraversalEntryCount,
    /// Number of participating catalog entries.
    EntryCount,
    /// Aggregate bytes across participating entries.
    TotalBytes,
    /// Bytes read from one participating file.
    FileBytes,
}

impl CatalogReadLimitResource {
    /// The resource's user-facing name.
    pub open spec fn spec_name(self) -> Seq<char> {
        match self {
            CatalogReadLimitResource::TraversalEntryCount => "catalog traversal entry count"@,
            CatalogReadLimitResource::EntryCount => "catalog entry count"@,
            CatalogReadLimitResource::TotalBytes => "catalog total bytes"@,
            CatalogReadLimitResource::FileBytes => "catalog file bytes"@,
        }
    }

    /// The resource's user-facing name.
    pub fn name(&self) -> (r: &'static str)
        ensures
            r@ == self.spec_name(),
    {
        match self {
            CatalogReadLimitResource::TraversalEntryCount => "catalog traversal entry count",
            CatalogReadLimitResource::EntryCount => "catalog entry count",
            CatalogReadLimitResource::TotalBytes => "catalog total bytes",
            CatalogReadLimitResource::FileBytes => "catalog file bytes",
        }
    }
}

/// Typed evidence for a catalog budget failure.
#[derive(Clone, Debug)]
pub struct CatalogReadLimitExceeded {
    pub resource: CatalogReadLimitResource,
    pub limit: u64,
    pub observed_at_least: u64,
    pub path: String,
}

impl CatalogReadLimitExceeded {
    /// Records one exceeded limit.
    pub fn new(
        resource: CatalogReadLimitResource,
        limit: u64,
        observed_at_least: u64,
        path: String,
    ) -> (e: Self)
        ensures
            e.resource == resource,
            e.limit == limit,
            e.observed_at_least == observed_at_least,
            e.path@ == path@,
    {
        CatalogReadLimitExceeded { resource, limit, observed_at_least, path }
    }

    /// The failure as a user reads it:
    /// `RESOURCE limit exceeded: limit N, observed at least M at PATH`.
    pub fn message(&self) -> (s: String)
        ensures
            s@ == self.resource.spec_name() + " limit exceeded: limit "@ + crate::text::decimal(self.limit as nat)
                + ", observed at least "@ + crate::text::decimal(self.observed_at_least as nat) + " at "@
                + self.path@,
    {
        let mut s = String::new();
        crate::text::push_str(&mut s, self.resource.name());
        crate::text::push_str(&mut s, " limit exceeded: limit ");
        crate::text::push_decimal(&mut s, self.limit as u128);
        crate::text::push_str(&mut s, ", observed at least ");
        crate::text::push_decimal(&mut s, self.observed_at_least as u128);
        crate::text::push_str(&mut s, " at ");
        crate::text::push_str(&mut s, self.path.as_str());
        proof {
            reveal_strlit(" limit exceeded: limit ");
            reveal_strlit(", observed at least ");
            reveal_strlit(" at ");
        }
        s
    }
}

/// Copies a path for limit evidence.
fn path_string(path: &str) -> (s: String)
    ensures
        s@ == path@,
{
    path.to_owned()
}

/// A byte stream read in bounded chunks.
pub trait ByteSource {
    /// Every byte handed out so far, in order.
    spec fn consumed(&self) -> Seq<u8>;

    /// Whether the stream has reported its end.
    spec fn exhausted(&self) -> bool;

    /// Reads at most `max` further bytes; an empty chunk for a positive
    /// `max` means end of input. A failed read hands out nothing.
    fn read_chunk(&mut self, max: usize) -> (r: Result<Vec<u8>, IoFailure>)
        ensures
            r matches Ok(chunk) ==> {
                &&& chunk.len() <= max
                &&& final(self).consumed() == old(self).consumed() + chunk@
                &&& (chunk.len() == 0 && max > 0 ==> final(self).exhausted())
            },
            r is Err ==> final(self).consumed() == old(self).consumed(),
    ;
}

/// An in-memory byte stream.
pub struct ByteCursor {
    bytes: Vec<u8>,
    offset: usize,
}

impl ByteCursor {
    /// Starts reading `bytes` from the beginning.
    pub fn new(bytes: Vec<u8>) -> (c: Self)
        ensures
            c.remaining() == bytes@,
            c.consumed() == Seq::<u8>::empty(),
    {
        ByteCursor { bytes, offset: 0 }
    }

    /// The bytes not yet read.
    pub closed spec fn remaining(&self) -> Seq<u8> {
        self.bytes@.subrange(self.offset as int, self.bytes@.len() as int)
    }

    /// The read position lies within the bytes.
    #[verifier::type_invariant]
    closed spec fn wf(&self) -> bool {
        self.offset <= self.bytes@.len()
    }
}

impl ByteSource for ByteCursor {
    closed spec fn consumed(&self) -> Seq<u8> {
        self.bytes@.take(self.offset as int)
    }

    closed spec fn exhausted(&self) -> bool {
        self.offset >= self.bytes@.len()
    }

    /// Hands out the next `max` bytes, or all that are left; an in-memory
    /// read never fails.
    fn read_chunk(&mut self, max: usize) -> (r: Result<Vec<u8>, IoFailure>)
        ensures
            r matches Ok(chunk) && chunk@.len() == (if max <= old(self).remaining().len() {
                max as int
            } else {
                old(self).remaining().len() as int
            }) && chunk@ == old(self).remaining().take(chunk@.len() as int) && final(self).remaining()
                == old(self).remaining().skip(chunk@.len() as int),
    {
        proof {
            use_type_invariant(&*self);
        }
        let ghost start = self.remaining();
        let ghost offset0 = self.offset as int;
        let ghost all = self.bytes@;
        let mut chunk: Vec<u8> = Vec::new();
        while chunk.len() < max && self.offset < self.bytes.len()
            invariant
                chunk.len() <= max,
                0 <= offset0,
                offset0 + chunk@.len() == self.offset as int,
                self.offset <= self.bytes@.len(),
                self.bytes@ == all,
                start == self.bytes@.subrange(offset0, self.bytes@.len() as int),
                chunk@ == start.take(chunk@.len() as int),
            decreases self.bytes.len() - self.offset,
        {
            let ghost prior = chunk@;
            proof {
                assert(self.bytes@.subrange(offset0, self.bytes@.len() as int)[prior.len() as int] == self.bytes@[offset0
                    + prior.len()]);
            }
            chunk.push(self.bytes[self.offset]);
            self.offset = self.offset + 1;
            assert(chunk@ =~= prior.push(start[prior.len() as int]));
            assert(chunk@ =~= start.take(chunk@.len() as int));
        }
        assert(self.remaining() =~= start.skip(chunk@.len() as int));
        assert(all.take(self.offset as int) =~= all.take(offset0) + chunk@);
        Ok(chunk)
    }
}

/// A host reader that hands out at most a requested number of bytes per
/// call; an empty answer to a positive request means end of input.
pub trait ChunkRead {
    /// Reads at most `max` further bytes.
    fn read_up_to(&mut self, max: usize) -> Result<Vec<u8>, IoFailure>;
}

/// A host reader as a byte stream: each chunk is one read of the reader,
/// cut to the request, and the stream keeps the record of what it has
/// handed out.
pub struct ReadSource<R> {
    reader: R,
    handed_out: Ghost<Seq<u8>>,
    ended: Ghost<bool>,
}

impl<R: ChunkRead> ReadSource<R> {
    /// Starts reading `reader` where it stands.
    pub fn new(reader: R) -> (s: Self)
        ensures
            s.consumed() == Seq::<u8>::empty(),
            !s.exhausted(),
    {
        ReadSource { reader, handed_out: Ghost(Seq::empty()), ended: Ghost(false) }
    }

    /// Gives the reader back.
    pub fn into_inner(self) -> R {
        self.reader
    }
}

impl<R: ChunkRead> ByteSource for ReadSource<R> {
    closed spec fn consumed(&self) -> Seq<u8> {
        self.handed_out@
    }

    closed spec fn exhausted(&self) -> bool {
        self.ended@
    }

    fn read_chunk(&mut self, max: usize) -> (r: Result<Vec<u8>, IoFailure>) {
        let mut chunk = match self.reader.read_up_to(max) {
            Ok(chunk) => chunk,
            Err(failure) => return Err(failure),
        };
        chunk.truncate(max);
        proof {
            self.handed_out@ = self.handed_out@ + chunk@;
            if chunk.len() == 0 && max > 0 {
                self.ended@ = true;
            }
        }
        Ok(chunk)
    }
}

/// Outcome of a read bounded by an external wire ceiling.
#[derive(Debug)]
pub enum CatalogFileRead {
    /// Every byte of the file, within both the catalog and wire limits.
    Complete(Vec<u8>),
    /// The file holds more bytes than the wire ceiling allows.
    CeilingExceeded,
}

/// Mutable accounting for one deterministic catalog-input operation.
#[derive(Debug)]
pub struct CatalogReadBudget {
    limits: CatalogReadLimits,
    traversal_entries: u64,
    entries: u64,
    total_bytes: u64,
    cancellation: ApplicationCancellation,
}

/// The file-size rejection for `bytes` bytes of one file, if any.
pub open spec fn file_limit_error(
    limits: CatalogReadLimits,
    committed: u64,
    bytes: u64,
) -> Option<(CatalogReadLimitResource, u64, u64)> {
    if bytes > limits.spec_per_file_bytes() {
        Some((CatalogReadLimitResource::FileBytes, limits.spec_per_file_bytes(), bytes))
    } else if sat_add(committed, bytes) > limits.spec_total_bytes() {
        Some((CatalogReadLimitResource::TotalBytes, limits.spec_total_bytes(), sat_add(committed, bytes)))
    } else {
        None
    }
}

/// True when `e` carries exactly the rejection triple `t` for `path`.
pub open spec fn limit_matches(
    e: CatalogReadLimitExceeded,
    t: (CatalogReadLimitResource, u64, u64),
    path: Seq<char>,
) -> bool {
    e.resource == t.0 && e.limit == t.1 && e.observed_at_least == t.2 && e.path@ == path
}

impl CatalogReadBudget {
    /// The policy of this ledger.
    pub closed spec fn limits(&self) -> CatalogReadLimits {
        self.limits
    }

    /// Entries inspected by broad traversals so far.
    pub closed spec fn traversal_entries(&self) -> u64 {
        self.traversal_entries
    }

    /// Participating entries reserved so far.
    pub closed spec fn entries(&self) -> u64 {
        self.entries
    }

    /// Bytes committed so far.
    pub closed spec fn total_bytes(&self) -> u64 {
        self.total_bytes
    }

    /// True when two ledgers hold the same policy and counts.
    pub open spec fn same_ledger(&self, other: &Self) -> bool {
        &&& self.limits() == other.limits()
        &&& self.traversal_entries() == other.traversal_entries()
        &&& self.entries() == other.entries()
        &&& self.total_bytes() == other.total_bytes()
    }

    /// Bytes committed so far.
    pub fn committed_bytes(&self) -> (r: u64)
        ensures
            r == self.total_bytes(),
    {
        self.total_bytes
    }

    /// Participating entries reserved so far.
    pub fn reserved_entries(&self) -> (r: u64)
        ensures
            r == self.entries(),
    {
        self.entries
    }

    /// Stops a synchronous catalog boundary when the root operation was canceled.
    pub fn checkpoint(&self) -> (r: Result<(), CliError>)
        ensures
            r matches Err(e) ==> e is OperationCanceled,
    {
        self.cancellation.checkpoint()
    }

    /// The root cancellation source of this ledger.
    pub closed spec fn spec_cancellation(&self) -> ApplicationCancellation {
        self.cancellation
    }

    /// Returns the root cancellation source shared by this ledger.
    pub fn cancellation(&self) -> (r: &ApplicationCancellation)
        ensures
            *r == self.spec_cancellation(),
    {
        &self.cancellation
    }

    /// Accounts for one entry inspected by a broad walk of `directory`.
    pub fn visit_traversal_entry(&mut self, directory: &str) -> (r: Result<(), CatalogReadLimitExceeded>)
        ensures
            ({
                let next = sat_add(old(self).traversal_entries(), 1);
                if next > old(self).limits().spec_traversal_entry_count() {
                    &&& r matches Err(e) && limit_matches(
                        e,
                        (
                            CatalogReadLimitResource::TraversalEntryCount,
                            old(self).limits().spec_traversal_entry_count(),
                            next,
                        ),
                        directory@,
                    )
                    &&& final(self).same_ledger(old(self))
                } else {
                    &&& r is Ok
                    &&& final(self).traversal_entries() == next
                    &&& final(self).limits() == old(self).limits()
                    &&& final(self).entries() == old(self).entries()
                    &&& final(self).total_bytes() == old(self).total_bytes()
                }
            }),
    {
        let entries = self.traversal_entries.saturating_add(1);
        if entries > self.limits.traversal_entry_count {
            return Err(
                CatalogReadLimitExceeded::new(
                    CatalogReadLimitResource::TraversalEntryCount,
                    self.limits.traversal_entry_count,
                    entries,
                    path_string(directory),
                ),
            );
        }
        self.traversal_entries = entries;
        Ok(())
    }

    /// Reserves one participating entry before opening or byte allocation.
    pub fn begin_entry(&mut self, path: &str) -> (r: Result<(), CatalogReadLimitExceeded>)
        ensures
            ({
                let next = sat_add(old(self).entries(), 1);
                if next > old(self).limits().spec_entry_count() {
                    &&& r matches Err(e) && limit_matches(
                        e,
                        (CatalogReadLimitResource::EntryCount, old(self).limits().spec_entry_count(), next),
                        path@,
                    )
                    &&& final(self).same_ledger(old(self))
                } else {
                    &&& r is Ok
                    &&& final(self).entries() == next
                    &&& final(self).limits() == old(self).limits()
                    &&& final(self).traversal_entries() == old(self).traversal_entries()
                    &&& final(self).total_bytes() == old(self).total_bytes()
                }
            }),
    {
        let entries = self.entries.saturating_add(1);
        if entries > self.limits.entry_count {
            return Err(
                CatalogReadLimitExceeded::new(
                    CatalogReadLimitResource::EntryCount,
                    self.limits.entry_count,
                    entries,
                    path_string(path),
                ),
            );
        }
        self.entries = entries;
        Ok(())
    }

    /// Rejects a file early from its metadata length, committing nothing.
    pub fn preflight_file(&self, path: &str, metadata_bytes: u64) -> (r: Result<(), CatalogReadLimitExceeded>)
        ensures
            match file_limit_error(self.limits(), self.total_bytes(), metadata_bytes) {
                Some(t) => r matches Err(e) && limit_matches(e, t, path@),
                None => r is Ok,
            },
    {
        if metadata_bytes > self.limits.per_file_bytes {
            return Err(
                CatalogReadLimitExceeded::new(
                    CatalogReadLimitResource::FileBytes,
                    self.limits.per_file_bytes,
                    metadata_bytes,
                    path_string(path),
                ),
            );
        }
        let total = self.total_bytes.saturating_add(metadata_bytes);
        if total > self.limits.total_bytes {
            return Err(
                CatalogReadLimitExceeded::new(
                    CatalogReadLimitResource::TotalBytes,
                    self.limits.total_bytes,
                    total,
                    path_string(path),
                ),
            );
        }
        Ok(())
    }

    /// The maximum bytes one read may consume: one byte more than either the
    /// file budget or the remaining aggregate budget, as evidence of a breach.
    pub open spec fn spec_read_limit(&self) -> u64 {
        min_u64(
            sat_add(self.limits().spec_per_file_bytes(), 1),
            sat_add(sat_sub(self.limits().spec_total_bytes(), self.total_bytes()), 1),
        )
    }

    /// Returns the maximum bytes this read may consume.
    pub fn read_limit(&self) -> (r: u64)
        ensures
            r == self.spec_read_limit(),
    {
        let file_limit = self.limits.per_file_bytes.saturating_add(1);
        let remaining_total = self.limits.total_bytes.saturating_sub(self.total_bytes).saturating_add(
            1,
        );
        if file_limit <= remaining_total {
            file_limit
        } else {
            remaining_total
        }
    }

    /// Commits the actual bytes read from one file.
    pub fn finish_file(&mut self, path: &str, bytes: usize) -> (r: Result<(), CatalogReadLimitExceeded>)
        ensures
            match file_limit_error(old(self).limits(), old(self).total_bytes(), count_u64(bytes)) {
                Some(t) => {
                    &&& r matches Err(e) && limit_matches(e, t, path@)
                    &&& final(self).same_ledger(old(self))
                },
                None => {
                    &&& r is Ok
                    &&& final(self).total_bytes() == sat_add(old(self).total_bytes(), count_u64(bytes))
                    &&& final(self).limits() == old(self).limits()
                    &&& final(self).entries() == old(self).entries()
                    &&& final(self).traversal_entries() == old(self).traversal_entries()
                },
            },
    {
        let bytes = usize_to_u64(bytes);
        if bytes > self.limits.per_file_bytes {
            return Err(
                CatalogReadLimitExceeded::new(
                    CatalogReadLimitResource::FileBytes,
                    self.limits.per_file_bytes,
                    bytes,
                    path_string(path),
                ),
            );
        }
        let total = self.total_bytes.saturating_add(bytes);
        if total > self.limits.total_bytes {
            return Err(
                CatalogReadLimitExceeded::new(
                    CatalogReadLimitResource::TotalBytes,
                    self.limits.total_bytes,
                    total,
                    path_string(path),
                ),
            );
        }
        self.total_bytes = total;
        Ok(())
    }

    /// Accounts one already-decoded entry of `bytes` bytes: it reserves an
    /// entry and commits its bytes, or changes nothing.
    pub fn record_entry_bytes(&mut self, path: &str, bytes: usize) -> (r: Result<(), CliError>)
        ensures
            r is Ok ==> {
                &&& sat_add(old(self).entries(), 1) <= old(self).limits().spec_entry_count()
                &&& file_limit_error(old(self).limits(), old(self).total_bytes(), count_u64(bytes)) is None
                &&& final(self).entries() == sat_add(old(self).entries(), 1)
                &&& final(self).total_bytes() == sat_add(old(self).total_bytes(), count_u64(bytes))
                &&& final(self).limits() == old(self).limits()
                &&& final(self).traversal_entries() == old(self).traversal_entries()
            },
            r matches Err(e) ==> e is OperationCanceled || e is CatalogReadLimit,
            r matches Err(CliError::CatalogReadLimit(e)) ==> {
                let next = sat_add(old(self).entries(), 1);
                if next > old(self).limits().spec_entry_count() {
                    limit_matches(
                        e,
                        (CatalogReadLimitResource::EntryCount, old(self).limits().spec_entry_count(), next),
                        path@,
                    )
                } else {
                    file_limit_error(old(self).limits(), old(self).total_bytes(), count_u64(bytes)) matches Some(t)
                        && limit_matches(e, t, path@)
                }
            },
            r matches Err(e) && e is CatalogReadLimit ==> {
                &&& final(self).limits() == old(self).limits()
                &&& final(self).traversal_entries() == old(self).traversal_entries()
                &&& final(self).total_bytes() == old(self).total_bytes()
                &&& final(self).entries() == if sat_add(old(self).entries(), 1) > old(self).limits().spec_entry_count() {
                    old(self).entries()
                } else {
                    sat_add(old(self).entries(), 1)
                }
            },
            r matches Err(e) && e is OperationCanceled ==> final(self).same_ledger(old(self)),
            (sat_add(old(self).entries(), 1) > old(self).limits().spec_entry_count()
                || file_limit_error(old(self).limits(), old(self).total_bytes(), count_u64(bytes)) is Some)
                ==> r is Err,
    {
        self.checkpoint()?;
        match self.begin_entry(path) {
            Ok(()) => {},
            Err(e) => return Err(CliError::CatalogReadLimit(e)),
        }
        match self.preflight_file(path, usize_to_u64(bytes)) {
            Ok(()) => {},
            Err(e) => return Err(CliError::CatalogReadLimit(e)),
        }
        match self.finish_file(path, bytes) {
            Ok(()) => {},
            Err(e) => return Err(CliError::CatalogReadLimit(e)),
        }
        Ok(())
    }
}

impl CatalogReadBudget {
    /// Reads one already-opened file in bounded chunks and commits its bytes.
    ///
    /// At most `min(read_limit, wire_ceiling + 1)` bytes are requested. A file
    /// longer than `wire_ceiling` yields `CeilingExceeded` with nothing
    /// committed; otherwise the bytes read are committed as by `finish_file`.
    pub fn read_file_with_ceiling<R: ByteSource>(
        &mut self,
        path: &str,
        reader: &mut R,
        wire_ceiling: u64,
    ) -> (r: Result<CatalogFileRead, CliError>)
        ensures
            old(reader).consumed().is_prefix_of(final(reader).consumed()),
            r matches Ok(CatalogFileRead::Complete(bytes)) ==> {
                &&& final(reader).consumed() == old(reader).consumed() + bytes@
                &&& final(reader).exhausted() || bytes.len() == min_u64(
                    old(self).spec_read_limit(),
                    sat_add(wire_ceiling, 1),
                )
                &&& bytes.len() <= wire_ceiling
                &&& file_limit_error(old(self).limits(), old(self).total_bytes(), count_u64(bytes.len())) is None
                &&& final(self).total_bytes() == sat_add(old(self).total_bytes(), count_u64(bytes.len()))
                &&& final(self).limits() == old(self).limits()
                &&& final(self).entries() == old(self).entries()
                &&& final(self).traversal_entries() == old(self).traversal_entries()
            },
            r matches Ok(CatalogFileRead::CeilingExceeded) ==> {
                &&& final(reader).consumed().len() > old(reader).consumed().len() + wire_ceiling
                &&& final(self).same_ledger(old(self))
            },
            r is Err ==> final(self).same_ledger(old(self)),
            r matches Err(e) ==> e is OperationCanceled || e is Io || e is CatalogReadLimit,
            r matches Err(CliError::CatalogReadLimit(e)) ==> {
                let read = final(reader).consumed().skip(old(reader).consumed().len() as int);
                &&& read.len() <= wire_ceiling
                &&& read.len() <= min_u64(old(self).spec_read_limit(), sat_add(wire_ceiling, 1))
                &&& final(reader).exhausted() || read.len() == min_u64(
                    old(self).spec_read_limit(),
                    sat_add(wire_ceiling, 1),
                )
                &&& file_limit_error(old(self).limits(), old(self).total_bytes(), count_u64(read.len() as usize))
                    matches Some(t)
                &&& limit_matches(e, t, path@)
            },
    {
        let read_limit = self.read_limit();
        let ceiling_plus_one = wire_ceiling.saturating_add(1);
        let limit = if read_limit <= ceiling_plus_one { read_limit } else { ceiling_plus_one };
        let mut bytes: Vec<u8> = Vec::new();
        let ghost before = *self;
        let ghost start = reader.consumed();
        while usize_to_u64(bytes.len()) < limit
            invariant
                self.same_ledger(&before),
                before == *old(self),
                start == old(reader).consumed(),
                limit == min_u64(before.spec_read_limit(), sat_add(wire_ceiling, 1)),
                reader.consumed() == start + bytes@,
                bytes.len() <= wire_ceiling,
                bytes.len() <= limit,
            ensures
                self.same_ledger(&before),
                reader.consumed() == start + bytes@,
                bytes.len() <= wire_ceiling,
                reader.exhausted() || bytes.len() == limit,
            decreases limit - bytes.len(),
        {
            self.checkpoint()?;
            let remaining = limit - usize_to_u64(bytes.len());
            let capacity: usize = if remaining < READ_CHUNK_BYTES as u64 {
                remaining as usize
            } else {
                READ_CHUNK_BYTES
            };
            let chunk = match reader.read_chunk(capacity) {
                Ok(chunk) => chunk,
                Err(failure) => return Err(CliError::Io(failure)),
            };
            if chunk.len() == 0 {
                break;
            }
            let ghost prior = bytes@;
            bytes.extend_from_slice(chunk.as_slice());
            assert(start + bytes@ =~= start + prior + chunk@);
            if usize_to_u64(bytes.len()) > wire_ceiling {
                return Ok(CatalogFileRead::CeilingExceeded);
            }
        }
        self.checkpoint()?;
        proof {
            assert(reader.consumed().skip(start.len() as int) =~= bytes@);
        }
        match self.finish_file(path, bytes.len()) {
            Ok(()) => {},
            Err(e) => return Err(CliError::CatalogReadLimit(e)),
        }
        Ok(CatalogFileRead::Complete(bytes))
    }

    /// Reads one already-opened file with no external ceiling: its bytes, as
    /// the ceilinged read with the widest ceiling gives them.
    pub fn read_file<R: ByteSource>(&mut self, path: &str, reader: &mut R) -> (r: Result<Vec<u8>, CliError>)
        ensures
            old(reader).consumed().is_prefix_of(final(reader).consumed()),
            r matches Ok(bytes) ==> {
                &&& final(reader).consumed() == old(reader).consumed() + bytes@
                &&& final(reader).exhausted() || bytes.len() == old(self).spec_read_limit()
                &&& file_limit_error(old(self).limits(), old(self).total_bytes(), count_u64(bytes.len())) is None
                &&& final(self).total_bytes() == sat_add(old(self).total_bytes(), count_u64(bytes.len()))
                &&& final(self).limits() == old(self).limits()
                &&& final(self).entries() == old(self).entries()
                &&& final(self).traversal_entries() == old(self).traversal_entries()
            },
            r is Err ==> final(self).same_ledger(old(self)),
            r matches Err(e) ==> e is OperationCanceled || e is Io || e is CatalogReadLimit,
            r matches Err(CliError::CatalogReadLimit(e)) ==> {
                let read = final(reader).consumed().skip(old(reader).consumed().len() as int);
                &&& read.len() <= old(self).spec_read_limit()
                &&& final(reader).exhausted() || read.len() == old(self).spec_read_limit()
                &&& file_limit_error(old(self).limits(), old(self).total_bytes(), count_u64(read.len() as usize))
                    matches Some(t)
                &&& limit_matches(e, t, path@)
            },
    {
        match self.read_file_with_ceiling(path, reader, u64::MAX)? {
            CatalogFileRead::Complete(bytes) => Ok(bytes),
            CatalogFileRead::CeilingExceeded => Err(
                CliError::Io(
                    IoFailure {
                        kind: crate::error::IoErrorKind::Other,
                        message: "catalog read crossed an unbounded external ceiling".to_owned(),
                    },
                ),
            ),
        }
    }

    /// Stream-compares one already-opened file with an expected snapshot,
    /// charging the same budgets as a normal read: the answer is whether the
    /// bytes read equal `expected`.
    pub fn compare_file<R: ByteSource>(
        &mut self,
        path: &str,
        reader: &mut R,
        expected: &[u8],
    ) -> (r: Result<bool, CliError>)
        ensures
            old(reader).consumed().is_prefix_of(final(reader).consumed()),
            r matches Ok(same) ==> {
                let read = final(reader).consumed().skip(old(reader).consumed().len() as int);
                &&& same == (read == expected@)
                &&& final(reader).exhausted() || read.len() == old(self).spec_read_limit()
                &&& file_limit_error(old(self).limits(), old(self).total_bytes(), byte_count(read.len()))
                    is None
                &&& final(self).total_bytes() == sat_add(old(self).total_bytes(), byte_count(read.len()))
                &&& final(self).limits() == old(self).limits()
                &&& final(self).entries() == old(self).entries()
                &&& final(self).traversal_entries() == old(self).traversal_entries()
            },
            r is Err ==> final(self).same_ledger(old(self)),
            r matches Err(e) ==> e is OperationCanceled || e is Io || e is CatalogReadLimit,
            r matches Err(CliError::CatalogReadLimit(e)) ==> {
                let read = final(reader).consumed().skip(old(reader).consumed().len() as int);
                &&& read.len() <= old(self).spec_read_limit()
                &&& final(reader).exhausted() || read.len() == old(self).spec_read_limit()
                &&& file_limit_error(old(self).limits(), old(self).total_bytes(), byte_count(read.len()))
                    matches Some(t)
                &&& limit_matches(e, t, path@)
            },
    {
        let limit = self.read_limit();
        let mut bytes_read: u64 = 0;
        let mut matches = true;
        let ghost before = *self;
        let ghost start = reader.consumed();
        let ghost mut read: Seq<u8> = Seq::empty();
        while bytes_read < limit
            invariant
                self.same_ledger(&before),
                before == *old(self),
                start == old(reader).consumed(),
                limit == before.spec_read_limit(),
                reader.consumed() == start + read,
                read.len() == bytes_read,
                bytes_read <= limit,
                matches == agrees_so_far(read, expected@),
            ensures
                self.same_ledger(&before),
                reader.consumed() == start + read,
                read.len() == bytes_read,
                matches == agrees_so_far(read, expected@),
                reader.exhausted() || bytes_read == limit,
            decreases limit - bytes_read,
        {
            self.checkpoint()?;
            let remaining = limit - bytes_read;
            let capacity: usize = if remaining < READ_CHUNK_BYTES as u64 {
                remaining as usize
            } else {
                READ_CHUNK_BYTES
            };
            let chunk = match reader.read_chunk(capacity) {
                Ok(chunk) => chunk,
                Err(failure) => return Err(CliError::Io(failure)),
            };
            if chunk.len() == 0 {
                break;
            }
            let ghost matched_before = matches;
            let mut i: usize = 0;
            while i < chunk.len()
                invariant
                    i <= chunk.len(),
                    chunk.len() <= capacity,
                    bytes_read + capacity <= limit,
                    matches == (matched_before && chunk_agrees(chunk@, expected@, bytes_read as int, i as int)),
                decreases chunk.len() - i,
            {
                let position: u64 = bytes_read + i as u64;
                if position >= usize_to_u64(expected.len()) || expected[position as usize] != chunk[i] {
                    matches = false;
                }
                proof {
                    lemma_chunk_agrees_step(chunk@, expected@, bytes_read as int, i as int);
                }
                i += 1;
            }
            proof {
                lemma_agrees_extend(read, chunk@, expected@);
                read = read + chunk@;
            }
            bytes_read = bytes_read + chunk.len() as u64;
        }
        self.checkpoint()?;
        let committed = u64_to_usize(bytes_read);
        proof {
            assert(reader.consumed().skip(start.len() as int) =~= read);
        }
        match self.finish_file(path, committed) {
            Ok(()) => {},
            Err(e) => return Err(CliError::CatalogReadLimit(e)),
        }
        let same = matches && bytes_read == usize_to_u64(expected.len());
        proof {
            if same {
                assert(read =~= expected@);
            }
            if read == expected@ {
                assert(agrees_so_far(read, expected@));
            }
        }
        Ok(same)
    }
}

/// A count of bytes as a ledger sees it: held in a `usize`, then widened,
/// each step saturating.
pub open spec fn byte_count(n: nat) -> u64 {
    if n > usize::MAX {
        count_u64(usize::MAX)
    } else {
        count_u64(n as usize)
    }
}

/// The first `i` bytes of `chunk` equal `expected` from `at` onwards.
pub open spec fn chunk_agrees(chunk: Seq<u8>, expected: Seq<u8>, at: int, i: int) -> bool {
    forall|j: int| 0 <= j < i ==> at + j < expected.len() && #[trigger] chunk[j] == expected[at + j]
}

/// Agreement over `i + 1` bytes is agreement over `i` and at byte `i`.
proof fn lemma_chunk_agrees_step(chunk: Seq<u8>, expected: Seq<u8>, at: int, i: int)
    requires
        0 <= i < chunk.len(),
    ensures
        chunk_agrees(chunk, expected, at, i + 1) == (chunk_agrees(chunk, expected, at, i) && at + i
            < expected.len() && chunk[i] == expected[at + i]),
{
    if chunk_agrees(chunk, expected, at, i + 1) {
        assert(chunk[i] == expected[at + i]);
    }
}

/// `read` is a prefix of `expected`.
pub open spec fn agrees_so_far(read: Seq<u8>, expected: Seq<u8>) -> bool {
    read.len() <= expected.len() && forall|j: int| 0 <= j < read.len() ==> #[trigger] read[j] == expected[j]
}

/// A prefix stays a prefix after a chunk exactly when the chunk agrees.
proof fn lemma_agrees_extend(read: Seq<u8>, chunk: Seq<u8>, expected: Seq<u8>)
    requires
        chunk.len() > 0,
    ensures
        agrees_so_far(read + chunk, expected) == (agrees_so_far(read, expected) && chunk_agrees(
            chunk,
            expected,
            read.len() as int,
            chunk.len() as int,
        )),
{
    let whole = read + chunk;
    if agrees_so_far(whole, expected) {
        assert forall|j: int| 0 <= j < read.len() implies #[trigger] read[j] == expected[j] by {
            assert(whole[j] == read[j]);
        }
        assert forall|j: int| 0 <= j < chunk.len() implies read.len() + j < expected.len()
            && #[trigger] chunk[j] == expected[read.len() + j] by {
            assert(whole[read.len() + j] == chunk[j]);
        }
    }
    if agrees_so_far(read, expected) && chunk_agrees(chunk, expected, read.len() as int, chunk.len() as int) {
        assert(chunk[chunk.len() - 1] == expected[read.len() + chunk.len() - 1]);
        assert forall|j: int| 0 <= j < whole.len() implies #[trigger] whole[j] == expected[j] by {
            if j < read.len() {
                assert(read[j] == expected[j]);
            } else {
                assert(chunk[j - read.len()] == expected[read.len() + (j - read.len())]);
            }
        }
    }
}

/// A file name whose extension, after a non-empty stem, is `rs` in any
/// case: a Rust source that a source read takes part.
pub open spec fn rust_source_name(name: Seq<char>) -> bool {
    let dot = crate::ownership::last_dot_before(name, name.len() as int);
    dot > 0 && crate::ownership::portable_key(name.skip(dot + 1)) == "rs"@
}

/// Whether a directory entry named `name` is a Rust source.
pub fn is_rust_source(name: &str) -> (r: bool)
    ensures
        r == rust_source_name(name@),
{
    let chars = crate::text::chars_of(name);
    let mut n: usize = chars.len();
    while n > 0 && chars[n - 1] != '.'
        invariant
            n <= chars@.len(),
            chars@ == name@,
            crate::ownership::last_dot_before(chars@, chars@.len() as int) == crate::ownership::last_dot_before(
                chars@,
                n as int,
            ),
        decreases n,
    {
        n -= 1;
    }
    if n <= 1 {
        return false;
    }
    let dot = n - 1;
    let extension = crate::compiler::extractor::copy_range(chars.as_slice(), dot + 1, chars.len());
    let key = crate::compiler::extractor::lowercase_ascii(extension.as_slice());
    let rs = crate::text::chars_of("rs");
    proof {
        reveal_strlit("rs");
        assert(chars@.subrange(dot + 1, chars@.len() as int) =~= chars@.skip(dot + 1));
    }
    crate::text::chars_equal(key.as_slice(), rs.as_slice())
}

} // verus!
