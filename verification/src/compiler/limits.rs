//! Operation-wide resource accounting for one compiler extraction.
//!
//! Every subprocess, pipe reader, artifact reader and mapping pass of one
//! extraction charges the same ledger. The counters are shared between
//! threads, so a charge observes whatever the other threads committed before
//! it; contracts state what holds for every such interleaving.

use std::sync::Arc;
use std::sync::atomic::{AtomicU64, Ordering};
use std::time::{Duration, Instant};

use vstd::prelude::*;

use crate::cancellation::CompilerCancellation;
use crate::catalog::{min_u64, sat_add, sat_sub};
use crate::compiler::error::{CompilerError, CompilerOperation, CompilerSemanticResource, CompilerStream};
use crate::compiler::time::{
    duration_from_millis, duration_from_secs, duration_nanos, instant_at_or_after, instant_checked_add, instant_now, instant_reached, instant_sum,
};
use crate::error::IoErrorKind;

verus! {

/// Resource budgets for one compiler extraction.
#[derive(Clone, Copy, Debug)]
pub struct CompilerLimits {
    pub stdout_bytes: u64,
    pub stderr_bytes: u64,
    pub artifact_bytes: u64,
    pub cleanup_evidence_bytes: u64,
    pub metadata_packages: u64,
    pub metadata_targets: u64,
    pub rustdoc_items: u64,
    pub source_mappings: u64,
    pub temporary_tree_entries: u64,
    pub temporary_tree_bytes: u64,
    pub timeout: Duration,
    pub cleanup_timeout: Duration,
    pub poll_interval: Duration,
    pub temporary_tree_scan_interval: Duration,
}

impl Default for CompilerLimits {
    fn default() -> (l: Self)
        ensures
            l.stdout_bytes == 33_554_432,
            l.stderr_bytes == 16_777_216,
            l.artifact_bytes == 268_435_456,
            l.cleanup_evidence_bytes == 16_384,
            l.metadata_packages == 10_000,
            l.metadata_targets == 100_000,
            l.rustdoc_items == 1_000_000,
            l.source_mappings == 1_000_000,
            l.temporary_tree_entries == 100_000,
            l.temporary_tree_bytes == 2_147_483_648,
            duration_nanos(l.timeout) == 600_000_000_000,
            duration_nanos(l.cleanup_timeout) == 2_000_000_000,
            duration_nanos(l.poll_interval) == 25_000_000,
            duration_nanos(l.temporary_tree_scan_interval) == 1_000_000_000,
            duration_nanos(l.timeout) > 0 && duration_nanos(l.cleanup_timeout) > 0 && duration_nanos(l.poll_interval) > 0,
            duration_nanos(l.temporary_tree_scan_interval) > duration_nanos(l.poll_interval),
    {
        CompilerLimits {
            stdout_bytes: 33_554_432,
            stderr_bytes: 16_777_216,
            artifact_bytes: 268_435_456,
            cleanup_evidence_bytes: 16_384,
            metadata_packages: 10_000,
            metadata_targets: 100_000,
            rustdoc_items: 1_000_000,
            source_mappings: 1_000_000,
            temporary_tree_entries: 100_000,
            temporary_tree_bytes: 2_147_483_648,
            timeout: duration_from_secs(600),
            cleanup_timeout: duration_from_secs(2),
            poll_interval: duration_from_millis(25),
            temporary_tree_scan_interval: duration_from_secs(1),
        }
    }
}

/// Atomically adds `bytes` to `counter`, saturating at `u64::MAX`, and
/// returns the counter's value before the addition (`AtomicU64::fetch_update`
/// with a saturating step).
#[verifier::external_body]
fn fetch_saturating_add(counter: &AtomicU64, bytes: u64) -> u64 {
    match counter.fetch_update(Ordering::AcqRel, Ordering::Acquire, |current| Some(saturating_sum(current, bytes))) {
        Ok(previous) => previous,
        Err(previous) => previous,
    }
}

/// The saturating sum used as the step of a shared counter.
pub fn saturating_sum(current: u64, bytes: u64) -> (r: u64)
    ensures
        r == sat_add(current, bytes),
{
    current.saturating_add(bytes)
}

/// The next evidence total when `requested` bytes are reserved against
/// `limit`, or `None` when nothing can be granted.
pub open spec fn spec_reserve_step(current: u64, requested: u64, limit: u64) -> Option<u64> {
    let granted = min_u64(requested, sat_sub(limit, current));
    if granted == 0 { None } else { Some(sat_add(current, granted)) }
}

/// Computes one reservation step.
pub fn reserve_step(current: u64, requested: u64, limit: u64) -> (r: Option<u64>)
    ensures
        r == spec_reserve_step(current, requested, limit),
{
    let available = limit.saturating_sub(current);
    let granted = if requested <= available { requested } else { available };
    if granted == 0 {
        None
    } else {
        Some(current.saturating_add(granted))
    }
}

/// Atomically applies `reserve_step` to `counter` (`AtomicU64::fetch_update`).
/// `Ok` carries the value the step was applied to; `Err` carries a value for
/// which the step granted nothing.
#[verifier::external_body]
fn fetch_reserve(counter: &AtomicU64, requested: u64, limit: u64) -> (r: Result<u64, u64>)
    ensures
        r matches Ok(previous) ==> spec_reserve_step(previous, requested, limit) is Some,
        r matches Err(current) ==> spec_reserve_step(current, requested, limit) is None,
{
    counter.fetch_update(Ordering::AcqRel, Ordering::Acquire, |current| reserve_step(current, requested, limit))
}

/// The saturating sum of the first `n` counts.
pub open spec fn saturated_total(counts: Seq<usize>, n: int) -> u64
    decreases n,
{
    if n <= 0 {
        0
    } else {
        sat_add(saturated_total(counts, n - 1), crate::catalog::count_u64(counts[n - 1]))
    }
}

/// One operation-wide deadline and resource ledger.
#[derive(Debug)]
pub struct CompilerUsage {
    limits: CompilerLimits,
    deadline: Instant,
    cancellation: CompilerCancellation,
    stdout_bytes: AtomicU64,
    stderr_bytes: AtomicU64,
    artifact_bytes: AtomicU64,
    cleanup_evidence_bytes: AtomicU64,
    metadata_packages: AtomicU64,
    metadata_targets: AtomicU64,
    rustdoc_items: AtomicU64,
    source_mappings: AtomicU64,
}

/// The decision for a charge that brought a counter to `observed` against
/// `limit`.
pub open spec fn over_limit(observed: u64, limit: u64) -> bool {
    observed > limit
}

impl CompilerUsage {
    /// The budgets of this ledger.
    pub closed spec fn spec_limits(&self) -> CompilerLimits {
        self.limits
    }

    /// Starts a ledger whose deadline is `limits.timeout` from now.
    pub fn new(limits: CompilerLimits, cancellation: CompilerCancellation) -> (u: Arc<Self>)
        ensures
            u.spec_limits() == limits,
    {
        let started = instant_now();
        let deadline = match instant_checked_add(started, limits.timeout) {
            Some(deadline) => deadline,
            None => started,
        };
        Arc::new(
            CompilerUsage {
                limits,
                deadline,
                cancellation,
                stdout_bytes: AtomicU64::new(0),
                stderr_bytes: AtomicU64::new(0),
                artifact_bytes: AtomicU64::new(0),
                cleanup_evidence_bytes: AtomicU64::new(0),
                metadata_packages: AtomicU64::new(0),
                metadata_targets: AtomicU64::new(0),
                rustdoc_items: AtomicU64::new(0),
                source_mappings: AtomicU64::new(0),
            },
        )
    }

    /// Returns the budgets of this ledger.
    pub fn limits(&self) -> (l: &CompilerLimits)
        ensures
            *l == self.spec_limits(),
    {
        &self.limits
    }

    /// Fails once cancellation was requested or the deadline passed.
    pub fn checkpoint(&self, operation: CompilerOperation) -> (r: Result<(), CompilerError>)
        ensures
            r matches Err(e) ==> e is CompilerExtractionCancelled || e == (CompilerError::ProcessTimeout {
                operation,
                timeout: self.spec_limits().timeout,
            }),
    {
        if self.cancellation.requested() {
            return Err(CompilerError::CompilerExtractionCancelled);
        }
        if instant_reached(instant_now(), self.deadline) {
            return Err(CompilerError::ProcessTimeout { operation, timeout: self.limits.timeout });
        }
        Ok(())
    }

    /// Adds `bytes` to a shared counter and returns the new total, which is
    /// the saturating sum of some earlier total and `bytes`.
    pub fn add(&self, counter: &AtomicU64, bytes: u64) -> (r: u64)
        ensures
            r >= bytes,
    {
        let previous = fetch_saturating_add(counter, bytes);
        saturating_sum(previous, bytes)
    }

    /// Charges `bytes` of child output to the stream's cumulative budget.
    pub fn account_output(
        &self,
        operation: CompilerOperation,
        stream: CompilerStream,
        bytes: u64,
    ) -> (r: Result<(), CompilerError>)
        ensures
            ({
                let limit = match stream {
                    CompilerStream::Stdout => self.spec_limits().stdout_bytes,
                    CompilerStream::Stderr => self.spec_limits().stderr_bytes,
                };
                &&& r matches Err(e) ==> e is CompilerExtractionCancelled || e is ProcessTimeout || (
                e matches CompilerError::ProcessOutputLimit { operation: o, stream: s, limit: l, observed_at_least: n }
                    && o == operation && s == stream && l == limit && n > limit && n >= bytes)
                &&& bytes > limit ==> r is Err
            }),
    {
        self.checkpoint(operation)?;
        let (observed, limit) = match stream {
            CompilerStream::Stdout => (self.add(&self.stdout_bytes, bytes), self.limits.stdout_bytes),
            CompilerStream::Stderr => (self.add(&self.stderr_bytes, bytes), self.limits.stderr_bytes),
        };
        if observed > limit {
            return Err(CompilerError::ProcessOutputLimit { operation, stream, limit, observed_at_least: observed });
        }
        Ok(())
    }

    /// Charges `bytes` of one compiler artifact to the cumulative budget.
    pub fn account_artifact(&self, operation: CompilerOperation, path: &str, bytes: u64) -> (r: Result<(), CompilerError>)
        ensures
            r matches Err(e) ==> e is CompilerExtractionCancelled || e is ProcessTimeout || (
            e matches CompilerError::CompilerArtifactLimit { operation: o, path: p, limit: l, observed_at_least: n }
                && o == operation && p@ == path@ && l == self.spec_limits().artifact_bytes
                && n > l && n >= bytes),
            bytes > self.spec_limits().artifact_bytes ==> r is Err,
    {
        self.checkpoint(operation)?;
        let observed = self.add(&self.artifact_bytes, bytes);
        if observed > self.limits.artifact_bytes {
            return Err(
                CompilerError::CompilerArtifactLimit {
                    operation,
                    path: path.to_owned(),
                    limit: self.limits.artifact_bytes,
                    observed_at_least: observed,
                },
            );
        }
        Ok(())
    }

    /// The budget of one semantic resource.
    pub open spec fn semantic_limit(&self, resource: CompilerSemanticResource) -> u64 {
        match resource {
            CompilerSemanticResource::MetadataPackages => self.spec_limits().metadata_packages,
            CompilerSemanticResource::MetadataTargets => self.spec_limits().metadata_targets,
            CompilerSemanticResource::RustdocItems => self.spec_limits().rustdoc_items,
            CompilerSemanticResource::SourceMappings => self.spec_limits().source_mappings,
        }
    }

    /// Charges `amount` units of a semantic resource.
    pub fn account_semantic(
        &self,
        operation: CompilerOperation,
        resource: CompilerSemanticResource,
        amount: u64,
    ) -> (r: Result<(), CompilerError>)
        ensures
            r matches Err(e) ==> e is CompilerExtractionCancelled || e is ProcessTimeout || (
            e matches CompilerError::CompilerSemanticLimit { operation: o, resource: s, limit: l, observed_at_least: n }
                && o == operation && s == resource && l == self.semantic_limit(resource) && n > l && n >= amount),
            amount > self.semantic_limit(resource) ==> r is Err,
    {
        self.checkpoint(operation)?;
        let (observed, limit) = match resource {
            CompilerSemanticResource::MetadataPackages => (
                self.add(&self.metadata_packages, amount),
                self.limits.metadata_packages,
            ),
            CompilerSemanticResource::MetadataTargets => (
                self.add(&self.metadata_targets, amount),
                self.limits.metadata_targets,
            ),
            CompilerSemanticResource::RustdocItems => (
                self.add(&self.rustdoc_items, amount),
                self.limits.rustdoc_items,
            ),
            CompilerSemanticResource::SourceMappings => (
                self.add(&self.source_mappings, amount),
                self.limits.source_mappings,
            ),
        };
        if observed > limit {
            return Err(
                CompilerError::CompilerSemanticLimit { operation, resource, limit, observed_at_least: observed },
            );
        }
        Ok(())
    }

    /// Charges one Cargo metadata document: its package count, then the sum
    /// of its packages' target counts.
    pub fn account_metadata(&self, package_target_counts: &[usize]) -> (r: Result<(), CompilerError>)
        ensures
            r matches Err(e) ==> e is CompilerExtractionCancelled || e is ProcessTimeout || (
            e matches CompilerError::CompilerSemanticLimit { operation, resource, .. } && operation
                == CompilerOperation::Metadata && (resource == CompilerSemanticResource::MetadataPackages || resource
                == CompilerSemanticResource::MetadataTargets)),
            crate::catalog::count_u64(package_target_counts@.len() as usize) > self.spec_limits().metadata_packages
                ==> r is Err,
            saturated_total(package_target_counts@, package_target_counts@.len() as int)
                > self.spec_limits().metadata_targets ==> r is Err,
    {
        let packages = crate::catalog::usize_to_u64(package_target_counts.len());
        self.account_semantic(
            CompilerOperation::Metadata,
            CompilerSemanticResource::MetadataPackages,
            packages,
        )?;
        let mut targets: u64 = 0;
        let mut i: usize = 0;
        while i < package_target_counts.len()
            invariant
                i <= package_target_counts.len(),
                targets == saturated_total(package_target_counts@, i as int),
            decreases package_target_counts.len() - i,
        {
            self.checkpoint(CompilerOperation::Metadata)?;
            targets = targets.saturating_add(crate::catalog::usize_to_u64(package_target_counts[i]));
            i += 1;
        }
        self.account_semantic(CompilerOperation::Metadata, CompilerSemanticResource::MetadataTargets, targets)
    }

    /// Artifact bytes still available, as last observed.
    pub fn remaining_artifact_bytes(&self) -> (r: u64)
        ensures
            r <= self.spec_limits().artifact_bytes,
    {
        self.limits.artifact_bytes.saturating_sub(self.artifact_bytes.load(Ordering::Acquire))
    }

    /// How many bytes to read of one artifact: one more than the smaller of
    /// its own limit and the artifact budget still available, so that an
    /// oversized file shows itself.
    pub fn artifact_read_limit(&self, file_limit: u64) -> (r: u64)
        ensures
            exists|available: u64|
                available <= self.spec_limits().artifact_bytes && r == sat_add(
                    #[trigger] min_u64(file_limit, available),
                    1,
                ),
    {
        let available = self.remaining_artifact_bytes();
        let smaller = if file_limit < available { file_limit } else { available };
        assert(smaller == min_u64(file_limit, available));
        smaller.saturating_add(1)
    }

    /// Admits the `observed` bytes read of one artifact: more than its own
    /// limit is refused, else they are charged to the artifact budget.
    pub fn admit_artifact(
        &self,
        operation: CompilerOperation,
        path: &str,
        file_limit: u64,
        observed: u64,
    ) -> (r: Result<(), CompilerError>)
        ensures
            observed > file_limit ==> (r matches Err(e) && (e matches CompilerError::CompilerArtifactFileLimit {
                operation: o,
                path: p,
                limit: l,
                observed_at_least: n,
            } && o == operation && p@ == path@ && l == file_limit && n == observed)),
            observed <= file_limit ==> (r matches Err(e) ==> e is CompilerExtractionCancelled || e is ProcessTimeout || (
            e matches CompilerError::CompilerArtifactLimit { operation: o, path: p, limit: l, observed_at_least: n }
                && o == operation && p@ == path@ && l == self.spec_limits().artifact_bytes
                && n > l && n >= observed)),
            observed <= file_limit && observed > self.spec_limits().artifact_bytes ==> r is Err,
    {
        if observed > file_limit {
            return Err(
                CompilerError::CompilerArtifactFileLimit {
                    operation,
                    path: path.to_owned(),
                    limit: file_limit,
                    observed_at_least: observed,
                },
            );
        }
        self.account_artifact(operation, path, observed)
    }

    /// Source mappings still available, as last observed.
    pub fn remaining_source_mappings(&self) -> (r: u64)
        ensures
            r <= self.spec_limits().source_mappings,
    {
        self.limits.source_mappings.saturating_sub(self.source_mappings.load(Ordering::Acquire))
    }

    /// Output bytes charged to `stream`, as last observed.
    pub fn output_observed(&self, stream: CompilerStream) -> u64 {
        match stream {
            CompilerStream::Stdout => self.stdout_bytes.load(Ordering::Acquire),
            CompilerStream::Stderr => self.stderr_bytes.load(Ordering::Acquire),
        }
    }

    /// Reserves up to `requested` bytes of the shared cleanup-evidence budget
    /// and returns how many were granted.
    pub fn reserve_cleanup_evidence(&self, requested: u64) -> (r: u64)
        ensures
            exists|reserved: u64|
                r == #[trigger] min_u64(requested, sat_sub(self.spec_limits().cleanup_evidence_bytes, reserved)),
    {
        let limit = self.limits.cleanup_evidence_bytes;
        match fetch_reserve(&self.cleanup_evidence_bytes, requested, limit) {
            Ok(previous) => {
                let available = limit.saturating_sub(previous);
                let granted = if requested <= available {
                    requested
                } else {
                    available
                };
                assert(granted == min_u64(requested, sat_sub(self.spec_limits().cleanup_evidence_bytes, previous)));
                granted
            },
            Err(current) => {
                assert(min_u64(requested, sat_sub(self.spec_limits().cleanup_evidence_bytes, current)) == 0);
                0
            },
        }
    }

    /// Cleanup-evidence bytes reserved so far, as last observed.
    pub fn cleanup_evidence_observed(&self) -> u64 {
        self.cleanup_evidence_bytes.load(Ordering::Acquire)
    }

    /// Reports whether cancellation was requested.
    pub fn cancellation_requested(&self) -> bool {
        self.cancellation.requested()
    }
}

/// Whether a temporary tree is still being written by a running process.
#[derive(Clone, Copy, Debug, PartialEq, Eq, Structural)]
pub enum TemporaryTreeConsistency {
    Mutating,
    Quiescent,
}

impl TemporaryTreeConsistency {
    /// A vanished descendant of a tree that is still being written is
    /// tolerated; every other walk failure is not.
    pub fn ignores_kind(self, descendant: bool, kind: IoErrorKind) -> (r: bool)
        ensures
            r == (descendant && self == TemporaryTreeConsistency::Mutating && kind == IoErrorKind::NotFound),
    {
        descendant && matches!(self, TemporaryTreeConsistency::Mutating) && kind == IoErrorKind::NotFound
    }
}

/// Scan cadence of a live temporary tree.
pub struct CompilerTemporaryTree {
    pub root: String,
    pub operation: CompilerOperation,
    pub next_scan: Instant,
}

impl CompilerTemporaryTree {
    /// True when a scan is due at `now`.
    pub fn is_due(&self, now: Instant) -> (r: bool)
        ensures
            r == instant_at_or_after(now, self.next_scan),
    {
        instant_reached(now, self.next_scan)
    }

    /// Schedules the next scan one cadence interval after `completed`, or
    /// at `completed` where that instant is not representable.
    pub fn reschedule(&mut self, completed: Instant, interval: Duration)
        ensures
            final(self).root@ == old(self).root@,
            final(self).operation == old(self).operation,
            final(self).next_scan == match instant_sum(completed, interval) {
                Some(next) => next,
                None => completed,
            },
    {
        self.next_scan = match instant_checked_add(completed, interval) {
            Some(next) => next,
            None => completed,
        };
    }
}

/// Running totals of one temporary-tree scan.
pub struct TemporaryTreeMeter {
    entries: u64,
    total: u64,
    entry_limit: u64,
    byte_limit: u64,
}

impl TemporaryTreeMeter {
    /// Entries counted so far.
    pub closed spec fn spec_entries(&self) -> u64 {
        self.entries
    }

    /// File bytes counted so far.
    pub closed spec fn spec_total(&self) -> u64 {
        self.total
    }

    /// Entry budget.
    pub closed spec fn spec_entry_limit(&self) -> u64 {
        self.entry_limit
    }

    /// Byte budget.
    pub closed spec fn spec_byte_limit(&self) -> u64 {
        self.byte_limit
    }

    /// Starts an empty scan under `limits`.
    pub fn new(limits: &CompilerLimits) -> (m: Self)
        ensures
            m.spec_entries() == 0,
            m.spec_total() == 0,
            m.spec_entry_limit() == limits.temporary_tree_entries,
            m.spec_byte_limit() == limits.temporary_tree_bytes,
    {
        TemporaryTreeMeter {
            entries: 0,
            total: 0,
            entry_limit: limits.temporary_tree_entries,
            byte_limit: limits.temporary_tree_bytes,
        }
    }

    /// Counts one walked entry; `file_bytes` is its length when it is a file.
    pub fn record(&mut self, root: &str, file_bytes: Option<u64>) -> (r: Result<(), CompilerError>)
        ensures
            final(self).spec_entry_limit() == old(self).spec_entry_limit(),
            final(self).spec_byte_limit() == old(self).spec_byte_limit(),
            final(self).spec_entries() == sat_add(old(self).spec_entries(), 1),
            final(self).spec_total() == match file_bytes {
                Some(b) => sat_add(old(self).spec_total(), b),
                None => old(self).spec_total(),
            },
            if final(self).spec_entries() > old(self).spec_entry_limit() {
                r matches Err(CompilerError::TemporaryArtifactEntryLimit { path, limit, observed_at_least })
                    && path@ == root@ && limit == old(self).spec_entry_limit()
                    && observed_at_least == final(self).spec_entries()
            } else if file_bytes is Some && final(self).spec_total() > old(self).spec_byte_limit() {
                r matches Err(CompilerError::TemporaryArtifactLimit { path, limit, observed_at_least })
                    && path@ == root@ && limit == old(self).spec_byte_limit()
                    && observed_at_least == final(self).spec_total()
            } else {
                r is Ok
            },
    {
        self.entries = self.entries.saturating_add(1);
        if let Some(bytes) = file_bytes {
            self.total = self.total.saturating_add(bytes);
        }
        if self.entries > self.entry_limit {
            return Err(
                CompilerError::TemporaryArtifactEntryLimit {
                    path: root.to_owned(),
                    limit: self.entry_limit,
                    observed_at_least: self.entries,
                },
            );
        }
        if file_bytes.is_some() && self.total > self.byte_limit {
            return Err(
                CompilerError::TemporaryArtifactLimit {
                    path: root.to_owned(),
                    limit: self.byte_limit,
                    observed_at_least: self.total,
                },
            );
        }
        Ok(())
    }
}

} // verus!
