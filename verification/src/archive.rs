//! Versioned mixed-catalog archive framing: wire limits, deterministic gzip
//! encoding, bounded gzip decoding, and collision-safe archive names.

use std::io::{Read, Write};

use vstd::prelude::*;

use crate::bounded_output::BoundedOutputFailure;
use crate::cancellation::ApplicationCancellation;
use crate::catalog::CatalogReadBudget;
use crate::error::{CliError, IoFailure};
use crate::text::{decimal, push_decimal, push_str};

verus! {

/// The archive payload version this build writes and reads.
pub const ARCHIVE_PAYLOAD_VERSION: u32 = 1;

/// Largest compressed archive accepted or produced.
pub const MAX_COMPRESSED_ARCHIVE_BYTES: usize = 67108864;

/// Largest expanded (JSON) archive payload.
pub const MAX_EXPANDED_ARCHIVE_BYTES: u64 = 268435456;

/// Most contract entries in one archive.
pub const MAX_ARCHIVE_ENTRIES: usize = 100000;

/// Largest single contract entry.
pub const MAX_CONTRACT_BYTES: usize = 16777216;

/// Bytes handed to the decoder or JSON reader at once.
pub const ARCHIVE_CHUNK_BYTES: usize = 65536;

/// Most collision suffixes tried for one archive timestamp.
pub const MAX_ARCHIVE_NAME_COLLISIONS: u16 = 1024;

/// CLI archive format selection.
#[derive(Debug, Clone, Copy, PartialEq, Eq, Structural)]
pub enum ArchiveFormatSelection {
    /// Version-1 mixed-catalog payload compressed with gzip.
    Gzip,
}

impl ArchiveFormatSelection {
    /// Maps both the omitted and explicit `--gzip` forms to the only format.
    pub fn from_gzip_flag(gzip: bool) -> (f: Self)
        ensures
            f == ArchiveFormatSelection::Gzip,
    {
        ArchiveFormatSelection::Gzip
    }
}

/// One archived contract file: its catalog path and bytes.
#[derive(Debug)]
pub struct ArchiveFileEntry {
    pub path: String,
    pub bytes: Vec<u8>,
}

/// The archive payload: a version and the contract files.
#[derive(Debug)]
pub struct ArchivePayload {
    pub version: u32,
    pub contract_files: Vec<ArchiveFileEntry>,
}

/// `FILE: TEXT`.
pub open spec fn prefixed(file_name: Seq<char>, text: Seq<char>) -> Seq<char> {
    file_name + ": "@ + text
}

/// An archive-process error whose message is `message`.
pub open spec fn archive_error(e: CliError, message: Seq<char>) -> bool {
    e matches CliError::ArchiveProcess { message: m } && m@ == message
}

fn archive_failure(message: String) -> (e: CliError)
    ensures
        archive_error(e, message@),
{
    CliError::ArchiveProcess { message }
}

fn prefixed_message(file_name: &str, text: &str) -> (s: String)
    ensures
        s@ == prefixed(file_name@, text@),
{
    let mut s = String::new();
    push_str(&mut s, file_name);
    push_str(&mut s, ": ");
    push_str(&mut s, text);
    proof {
        reveal_strlit(": ");
    }
    s
}

/// Component `i` of `p` starts at `i`.
pub open spec fn starts_component(p: Seq<char>, i: int) -> bool {
    i == 0 || p[i - 1] == '/'
}

/// A component of `p` ends at `i`.
pub open spec fn ends_component(p: Seq<char>, i: int) -> bool {
    i == p.len() || p[i] == '/'
}

/// A catalog path: relative, `/`-separated, without backslashes, and with
/// no empty, `.` or `..` component.
pub open spec fn catalog_path(p: Seq<char>) -> bool {
    &&& p.len() > 0
    &&& forall|i: int| 0 <= i < p.len() ==> #[trigger] p[i] != '\\'
    &&& forall|i: int| 0 <= i <= p.len() && #[trigger] starts_component(p, i) ==> !ends_component(p, i)
    &&& forall|i: int|
        0 <= i < p.len() && #[trigger] starts_component(p, i) && p[i] == '.' ==> !ends_component(p, i + 1) && !(i
            + 1 < p.len() && p[i + 1] == '.' && ends_component(p, i + 2))
}

/// The paths of archived entries.
pub open spec fn entry_paths(files: Seq<ArchiveFileEntry>) -> Seq<Seq<char>> {
    files.map_values(|f: ArchiveFileEntry| f.path@)
}

/// The first `n` paths are catalog paths, no two alike.
pub open spec fn distinct_catalog_paths(paths: Seq<Seq<char>>, n: int) -> bool {
    &&& forall|k: int| 0 <= k < n ==> catalog_path(#[trigger] paths[k])
    &&& forall|j: int, k: int| 0 <= j < k < n ==> #[trigger] paths[j] != #[trigger] paths[k]
}

/// A count, saturated at `u64::MAX`.
pub open spec fn capped_count(n: int) -> u64 {
    if n > u64::MAX {
        u64::MAX
    } else {
        n as u64
    }
}

/// What the entries before `n` add to a budget's committed bytes.
pub open spec fn charged_bytes(total: u64, files: Seq<ArchiveFileEntry>, n: int) -> u64
    decreases n,
{
    if n <= 0 {
        total
    } else {
        crate::catalog::sat_add(
            charged_bytes(total, files, n - 1),
            crate::catalog::count_u64(files[n - 1].bytes@.len() as usize),
        )
    }
}

/// Why the budget refuses entry `k` of `files` once the entries before it
/// were charged to a budget that began at `entries` entries and `total`
/// bytes: the entry count, else the entry's bytes against the file and
/// total limits; `None` when it fits.
pub open spec fn rejection_at(
    limits: crate::catalog::CatalogReadLimits,
    entries: u64,
    total: u64,
    files: Seq<ArchiveFileEntry>,
    k: int,
) -> Option<(crate::catalog::CatalogReadLimitResource, u64, u64)> {
    let next = crate::catalog::sat_add(capped_count(entries + k), 1);
    if next > limits.spec_entry_count() {
        Some((crate::catalog::CatalogReadLimitResource::EntryCount, limits.spec_entry_count(), next))
    } else {
        crate::catalog::file_limit_error(
            limits,
            charged_bytes(total, files, k),
            crate::catalog::count_u64(files[k].bytes@.len() as usize),
        )
    }
}

/// The budget admits each of the first `n` entries in turn.
pub open spec fn admitted(
    limits: crate::catalog::CatalogReadLimits,
    entries: u64,
    total: u64,
    files: Seq<ArchiveFileEntry>,
    n: int,
) -> bool {
    forall|k: int| 0 <= k < n ==> #[trigger] rejection_at(limits, entries, total, files, k) is None
}

/// Whether `path` is a catalog path.
pub fn is_catalog_path(path: &str) -> (r: bool)
    ensures
        r == catalog_path(path@),
{
    let p = crate::text::chars_of(path);
    let n = p.len();
    if n == 0 {
        return false;
    }
    let mut i: usize = 0;
    while i < n
        invariant
            p@ == path@,
            n == p@.len(),
            n > 0,
            i <= n,
            forall|j: int| 0 <= j < i ==> #[trigger] p@[j] != '\\',
            forall|j: int| 0 <= j < i && #[trigger] starts_component(p@, j) ==> !ends_component(p@, j),
            forall|j: int|
                0 <= j < i && #[trigger] starts_component(p@, j) && p@[j] == '.' ==> !ends_component(p@, j + 1)
                    && !(j + 1 < n && p@[j + 1] == '.' && ends_component(p@, j + 2)),
        decreases n - i,
    {
        let starts = i == 0 || p[i - 1] == '/';
        if p[i] == '\\' {
            assert(p@[i as int] == '\\');
            return false;
        }
        if starts {
            assert(starts_component(p@, i as int));
            if p[i] == '/' {
                return false;
            }
            if p[i] == '.' {
                if i + 1 == n || p[i + 1] == '/' {
                    return false;
                }
                if p[i + 1] == '.' && (i + 2 == n || p[i + 2] == '/') {
                    return false;
                }
            }
        }
        i += 1;
    }
    if p[n - 1] == '/' {
        assert(starts_component(p@, n as int));
        return false;
    }
    assert forall|j: int| 0 <= j <= p@.len() && #[trigger] starts_component(p@, j) implies !ends_component(p@, j) by {
        if j == n {
            assert(p@[j - 1] != '/');
        }
    }
    true
}

impl ArchivePayload {
    /// A payload of the current version.
    pub fn new(contract_files: Vec<ArchiveFileEntry>) -> (p: Self)
        ensures
            p.version == ARCHIVE_PAYLOAD_VERSION,
            p.contract_files@ == contract_files@,
    {
        ArchivePayload { version: ARCHIVE_PAYLOAD_VERSION, contract_files }
    }

    /// Rejects a compressed archive larger than the compressed limit.
    pub fn validate_compressed_size(file_name: &str, size: usize) -> (r: Result<(), CliError>)
        ensures
            size <= MAX_COMPRESSED_ARCHIVE_BYTES <==> r is Ok,
            r matches Err(e) ==> archive_error(e, prefixed(file_name@, "compressed archive exceeds 67108864 bytes"@)),
    {
        if size <= MAX_COMPRESSED_ARCHIVE_BYTES {
            return Ok(());
        }
        Err(archive_failure(prefixed_message(file_name, "compressed archive exceeds 67108864 bytes")))
    }

    /// Rejects too many entries, then the first entry larger than the
    /// per-contract limit; stops once cancellation was requested.
    pub fn validate_limits(&self, file_name: &str, cancellation: &ApplicationCancellation) -> (r: Result<(), CliError>)
        ensures
            self.contract_files@.len() > MAX_ARCHIVE_ENTRIES ==> (r matches Err(e) && archive_error(
                e,
                prefixed(file_name@, "too many contract entries; maximum is 100000"@),
            )),
            r is Ok ==> self.contract_files@.len() <= MAX_ARCHIVE_ENTRIES && forall|i: int|
                0 <= i < self.contract_files@.len() ==> (#[trigger] self.contract_files@[i]).bytes@.len()
                    <= MAX_CONTRACT_BYTES,
            r matches Err(e) ==> {
                ||| e is OperationCanceled
                ||| self.contract_files@.len() > MAX_ARCHIVE_ENTRIES
                ||| exists|k: int|
                    0 <= k < self.contract_files@.len() && (#[trigger] self.contract_files@[k]).bytes@.len()
                        > MAX_CONTRACT_BYTES && (forall|j: int|
                        0 <= j < k ==> (#[trigger] self.contract_files@[j]).bytes@.len() <= MAX_CONTRACT_BYTES)
                        && archive_error(
                        e,
                        prefixed(
                            file_name@,
                            "contract entry exceeds 16777216 bytes: "@ + self.contract_files@[k].path@,
                        ),
                    )
            },
    {
        if self.contract_files.len() > MAX_ARCHIVE_ENTRIES {
            return Err(archive_failure(prefixed_message(file_name, "too many contract entries; maximum is 100000")));
        }
        let mut i: usize = 0;
        while i < self.contract_files.len()
            invariant
                i <= self.contract_files@.len(),
                self.contract_files@.len() <= MAX_ARCHIVE_ENTRIES,
                forall|j: int| 0 <= j < i ==> (#[trigger] self.contract_files@[j]).bytes@.len() <= MAX_CONTRACT_BYTES,
            decreases self.contract_files@.len() - i,
        {
            cancellation.checkpoint()?;
            let entry = &self.contract_files[i];
            if entry.bytes.len() > MAX_CONTRACT_BYTES {
                let mut text = String::new();
                push_str(&mut text, "contract entry exceeds 16777216 bytes: ");
                push_str(&mut text, entry.path.as_str());
                let message = prefixed_message(file_name, text.as_str());
                proof {
                    reveal_strlit("contract entry exceeds 16777216 bytes: ");
                }
                return Err(archive_failure(message));
            }
            i += 1;
        }
        Ok(())
    }

    /// Rejects a payload of another version.
    pub fn validate_version(&self, file_name: &str) -> (r: Result<(), CliError>)
        ensures
            self.version == ARCHIVE_PAYLOAD_VERSION <==> r is Ok,
            r matches Err(e) ==> archive_error(
                e,
                prefixed(file_name@, "unsupported archive payload version "@ + decimal(self.version as nat)),
            ),
    {
        if self.version == ARCHIVE_PAYLOAD_VERSION {
            return Ok(());
        }
        let mut text = String::new();
        push_str(&mut text, "unsupported archive payload version ");
        push_decimal(&mut text, self.version as u128);
        proof {
            reveal_strlit("unsupported archive payload version ");
        }
        Err(archive_failure(prefixed_message(file_name, text.as_str())))
    }

    /// Turns a validated payload into the catalog's contract files: each
    /// entry, in order, must carry a catalog path not seen before, and is
    /// charged to `budget` as one entry of its bytes.
    pub fn into_contract_files(self, file_name: &str, budget: &mut CatalogReadBudget) -> (r: Result<
        Vec<ArchiveFileEntry>,
        CliError,
    >)
        ensures
            r matches Ok(files) ==> {
                &&& files@ == self.contract_files@
                &&& distinct_catalog_paths(entry_paths(files@), files@.len() as int)
                &&& final(budget).limits() == old(budget).limits()
                &&& final(budget).traversal_entries() == old(budget).traversal_entries()
                &&& final(budget).entries() == capped_count(old(budget).entries() + files@.len())
                &&& final(budget).total_bytes() == charged_bytes(old(budget).total_bytes(), files@, files@.len() as int)
            },
            r matches Err(CliError::CatalogReadLimit(x)) ==> exists|k: int|
                0 <= k < self.contract_files@.len() && distinct_catalog_paths(entry_paths(self.contract_files@), k)
                    && catalog_path(self.contract_files@[k].path@) && admitted(
                    old(budget).limits(),
                    old(budget).entries(),
                    old(budget).total_bytes(),
                    self.contract_files@,
                    k,
                ) && (#[trigger] rejection_at(
                    old(budget).limits(),
                    old(budget).entries(),
                    old(budget).total_bytes(),
                    self.contract_files@,
                    k,
                ) matches Some(t) && crate::catalog::limit_matches(x, t, self.contract_files@[k].path@)),
            distinct_catalog_paths(entry_paths(self.contract_files@), self.contract_files@.len() as int) && admitted(
                old(budget).limits(),
                old(budget).entries(),
                old(budget).total_bytes(),
                self.contract_files@,
                self.contract_files@.len() as int,
            ) ==> r is Ok || r matches Err(CliError::OperationCanceled),
            r matches Err(e) ==> {
                ||| e is OperationCanceled
                ||| e is CatalogReadLimit
                ||| exists|k: int|
                    0 <= k < self.contract_files@.len() && distinct_catalog_paths(entry_paths(self.contract_files@), k)
                        && {
                        let p = (#[trigger] self.contract_files@[k]).path@;
                        ||| !catalog_path(p) && archive_error(e, prefixed(file_name@, "invalid catalog path: "@ + p))
                        ||| catalog_path(p) && (exists|j: int| 0 <= j < k && entry_paths(self.contract_files@)[j] == p)
                            && archive_error(e, prefixed(file_name@, "duplicate catalog path: "@ + p))
                    }
            },
            !distinct_catalog_paths(entry_paths(self.contract_files@), self.contract_files@.len() as int) ==> r is Err,
    {
        let ghost files = self.contract_files@;
        let ghost paths = entry_paths(files);
        let ghost start = *budget;
        let mut accepted: Vec<ArchiveFileEntry> = Vec::new();
        let mut source = self.contract_files;
        let mut remaining: Vec<ArchiveFileEntry> = Vec::new();
        while source.len() > 0
            invariant
                source@.len() <= files.len(),
                source@ == files.take(source@.len() as int),
                remaining@ == files.skip(source@.len() as int).reverse(),
            decreases source@.len(),
        {
            let ghost before = source@;
            let entry = match source.pop() {
                Some(entry) => entry,
                None => return vstd::pervasive::unreached(),
            };
            remaining.push(entry);
            proof {
                assert(source@ =~= files.take(source@.len() as int));
                assert(remaining@ =~= files.skip(source@.len() as int).reverse());
            }
        }
        let n = remaining.len();
        while remaining.len() > 0
            invariant
                n == files.len(),
                accepted@.len() + remaining@.len() == n,
                accepted@ == files.take(accepted@.len() as int),
                remaining@ == files.skip(accepted@.len() as int).reverse(),
                paths == entry_paths(files),
                distinct_catalog_paths(paths, accepted@.len() as int),
                start == *old(budget),
                budget.limits() == start.limits(),
                budget.traversal_entries() == start.traversal_entries(),
                budget.entries() == capped_count(start.entries() + accepted@.len()),
                files == self.contract_files@,
                budget.total_bytes() == charged_bytes(start.total_bytes(), files, accepted@.len() as int),
                admitted(start.limits(), start.entries(), start.total_bytes(), files, accepted@.len() as int),
            decreases remaining@.len(),
        {
            let k = accepted.len();
            let ghost before = remaining@;
            let entry = match remaining.pop() {
                Some(entry) => entry,
                None => return vstd::pervasive::unreached(),
            };
            proof {
                assert(before.last() == files[k as int]);
                assert(remaining@ =~= files.skip(k + 1).reverse());
                assert(paths[k as int] == entry.path@);
            }
            budget.checkpoint()?;
            if !is_catalog_path(entry.path.as_str()) {
                let mut text = String::new();
                push_str(&mut text, "invalid catalog path: ");
                push_str(&mut text, entry.path.as_str());
                proof {
                    reveal_strlit("invalid catalog path: ");
                    assert(files[k as int].path@ == entry.path@);
                }
                return Err(archive_failure(prefixed_message(file_name, text.as_str())));
            }
            match budget.record_entry_bytes(entry.path.as_str(), entry.bytes.len()) {
                Ok(()) => {},
                Err(e) => {
                    proof {
                        assert(files[k as int].bytes@ == entry.bytes@);
                        assert(files[k as int].path@ == entry.path@);
                        if e is CatalogReadLimit {
                            let x = e->CatalogReadLimit_0;
                            let t = rejection_at(start.limits(), start.entries(), start.total_bytes(), files, k as int)->Some_0;
                            assert(crate::catalog::limit_matches(x, t, files[k as int].path@));
                            assert(catalog_path(files[k as int].path@));
                            assert(distinct_catalog_paths(entry_paths(self.contract_files@), k as int));
                            assert(start == *old(budget));
                            assert(admitted(old(budget).limits(), old(budget).entries(), old(budget).total_bytes(), self.contract_files@, k as int));
                            assert(rejection_at(old(budget).limits(), old(budget).entries(), old(budget).total_bytes(), self.contract_files@, k as int) == Some(t));
                        }
                    }
                    return Err(e);
                },
            }
            proof {
                assert(files[k as int].bytes@ == entry.bytes@);
                assert(rejection_at(start.limits(), start.entries(), start.total_bytes(), files, k as int) is None);
            }
            let mut j: usize = 0;
            while j < accepted.len()
                invariant
                    j <= accepted@.len() == k,
                    accepted@ == files.take(k as int),
                    files == self.contract_files@,
                    distinct_catalog_paths(paths, k as int),
                    catalog_path(entry.path@),
                    paths == entry_paths(files),
                    paths[k as int] == entry.path@,
                    k < files.len(),
                    forall|m: int| 0 <= m < j ==> paths[m] != entry.path@,
                decreases accepted@.len() - j,
            {
                assert(paths[j as int] == accepted@[j as int].path@);
                if crate::text::str_equal(accepted[j].path.as_str(), entry.path.as_str()) {
                    let mut text = String::new();
                    push_str(&mut text, "duplicate catalog path: ");
                    push_str(&mut text, entry.path.as_str());
                    proof {
                        reveal_strlit("duplicate catalog path: ");
                        assert(files[k as int].path@ == entry.path@);
                        assert(entry_paths(files)[j as int] == entry.path@);
                    }
                    return Err(archive_failure(prefixed_message(file_name, text.as_str())));
                }
                j += 1;
            }
            accepted.push(entry);
            proof {
                assert(accepted@ =~= files.take(k + 1));
                assert forall|m: int| 0 <= m < k + 1 implies #[trigger] rejection_at(
                    start.limits(),
                    start.entries(),
                    start.total_bytes(),
                    files,
                    m,
                ) is None by {
                    if m < k {
                    }
                }
            }
        }
        proof {
            assert(accepted@ =~= files);
        }
        Ok(accepted)
    }

    /// The error for a failure of the expanded-payload boundary.
    pub fn expanded_output_failure(failure: BoundedOutputFailure) -> (e: CliError)
        ensures
            failure is Cancelled ==> e is OperationCanceled,
            failure matches BoundedOutputFailure::Limit { observed_at_least } ==> archive_error(
                e,
                "new archive: expanded archive exceeds 268435456 bytes (observed at least "@ + decimal(
                    observed_at_least as nat,
                ) + ")"@,
            ),
    {
        match failure {
            BoundedOutputFailure::Cancelled => CliError::OperationCanceled,
            BoundedOutputFailure::Limit { observed_at_least } => {
                let mut message = String::new();
                push_str(&mut message, "new archive: expanded archive exceeds 268435456 bytes (observed at least ");
                push_decimal(&mut message, observed_at_least as u128);
                push_str(&mut message, ")");
                proof {
                    reveal_strlit("new archive: expanded archive exceeds 268435456 bytes (observed at least ");
                    reveal_strlit(")");
                }
                CliError::ArchiveProcess { message }
            },
        }
    }

    /// The error for a failed compressed write: cancellation first, then the
    /// boundary failure, then the writer's own error.
    pub fn compressed_output_error(
        failure: Option<BoundedOutputFailure>,
        source: IoFailure,
        cancellation: &ApplicationCancellation,
    ) -> (e: CliError)
        ensures
            e is OperationCanceled || (failure matches Some(BoundedOutputFailure::Limit { .. }) && archive_error(
                e,
                "compressed archive exceeds 67108864 bytes"@,
            )) || (failure is None && archive_error(e, source.message@)),
            failure == Some(BoundedOutputFailure::Cancelled) ==> e is OperationCanceled,
    {
        if let Err(canceled) = cancellation.checkpoint() {
            return canceled;
        }
        match failure {
            Some(BoundedOutputFailure::Cancelled) => CliError::OperationCanceled,
            Some(BoundedOutputFailure::Limit { .. }) => {
                proof {
                    reveal_strlit("compressed archive exceeds 67108864 bytes");
                }
                CliError::ArchiveProcess { message: "compressed archive exceeds 67108864 bytes".to_owned() }
            },
            None => CliError::ArchiveProcess { message: source.message },
        }
    }
}

/// A chunked reader over a decoded JSON payload that observes cancellation
/// before each chunk.
pub struct ArchiveJsonInput<'bytes, 'budget> {
    bytes: &'bytes [u8],
    offset: usize,
    budget: &'budget CatalogReadBudget,
}

impl<'bytes, 'budget> ArchiveJsonInput<'bytes, 'budget> {
    pub closed spec fn spec_bytes(&self) -> Seq<u8> {
        self.bytes@
    }

    /// Bytes already handed out.
    pub closed spec fn spec_offset(&self) -> int {
        self.offset as int
    }

    /// A reader positioned at the start of `bytes`.
    pub fn new(bytes: &'bytes [u8], budget: &'budget CatalogReadBudget) -> (r: Self)
        ensures
            r.spec_bytes() == bytes@,
            r.spec_offset() == 0,
    {
        ArchiveJsonInput { bytes, offset: 0, budget }
    }

    /// Copies the next chunk (at most 64 KiB and at most `output.len()`
    /// bytes) into `output`.
    pub fn read(&mut self, output: &mut [u8]) -> (r: Result<usize, CliError>)
        requires
            old(self).spec_offset() <= old(self).spec_bytes().len(),
        ensures
            final(self).spec_bytes() == old(self).spec_bytes(),
            final(self).spec_offset() <= final(self).spec_bytes().len(),
            final(output)@.len() == old(output)@.len(),
            r matches Err(e) ==> e is OperationCanceled && *final(self) == *old(self),
            r matches Ok(n) ==> {
                let remaining = old(self).spec_bytes().len() - old(self).spec_offset();
                &&& n == min3(remaining, old(output)@.len() as int, ARCHIVE_CHUNK_BYTES as int)
                &&& final(self).spec_offset() == old(self).spec_offset() + n
                &&& final(output)@ == old(self).spec_bytes().subrange(
                    old(self).spec_offset(),
                    old(self).spec_offset() + n,
                ) + old(output)@.skip(n as int)
            },
    {
        self.budget.checkpoint()?;
        let remaining = self.bytes.len() - self.offset;
        let mut read = if remaining < output.len() {
            remaining
        } else {
            output.len()
        };
        if read > ARCHIVE_CHUNK_BYTES {
            read = ARCHIVE_CHUNK_BYTES;
        }
        let base = self.offset;
        let source = self.bytes;
        let total = source.len();
        let mut i: usize = 0;
        while i < read
            invariant
                i <= read,
                base == self.offset,
                source@ == self.bytes@,
                base + read <= source@.len(),
                total == source@.len(),
                read <= output@.len(),
                output@.len() == old(output)@.len(),
                *self == *old(self),
                forall|j: int| 0 <= j < i ==> output@[j] == self.bytes@[self.offset + j],
                forall|j: int| i <= j < output@.len() ==> output@[j] == old(output)@[j],
            decreases read - i,
        {
            output[i] = source[base + i];
            i += 1;
        }
        proof {
            assert(output@ =~= self.bytes@.subrange(self.offset as int, self.offset + read) + old(output)@.skip(
                read as int,
            ));
        }
        self.offset = self.offset + read;
        Ok(read)
    }
}

/// The least of three integers.
pub open spec fn min3(a: int, b: int, c: int) -> int {
    let m = if a < b {
        a
    } else {
        b
    };
    if m < c {
        m
    } else {
        c
    }
}

/// Timestamp-derived archive file name before it is joined to a root path.
#[derive(Clone, Copy, Debug, PartialEq, Eq, Structural)]
pub struct ArchiveName {
    pub unix_nanos: u128,
    pub collision_index: u16,
}

/// `NANOS-archive.gzip`, or `NANOS-INDEX-archive.gzip` after a collision.
pub open spec fn archive_file_name(unix_nanos: u128, collision_index: u16) -> Seq<char> {
    if collision_index == 0 {
        decimal(unix_nanos as nat) + "-archive.gzip"@
    } else {
        decimal(unix_nanos as nat) + "-"@ + decimal(collision_index as nat) + "-archive.gzip"@
    }
}

/// A decimal rendering has at least one digit.
proof fn lemma_decimal_nonempty(n: nat)
    ensures
        decimal(n).len() >= 1,
    decreases n,
{
    if n >= 10 {
        lemma_decimal_nonempty(n / 10);
    }
}

/// Two numbers with the same decimal rendering are equal.
proof fn lemma_decimal_injective(a: nat, b: nat)
    requires
        decimal(a) == decimal(b),
    ensures
        a == b,
    decreases a,
{
    if a < 10 && b < 10 {
        assert(decimal(a)[0] == crate::text::digit_char(a));
        assert(decimal(b)[0] == crate::text::digit_char(b));
    } else if a < 10 {
        lemma_decimal_nonempty(b / 10);
        assert(decimal(b).len() >= 2);
    } else if b < 10 {
        lemma_decimal_nonempty(a / 10);
        assert(decimal(a).len() >= 2);
    } else {
        let da = decimal(a / 10);
        let db = decimal(b / 10);
        assert(decimal(a).last() == crate::text::digit_char(a % 10));
        assert(decimal(b).last() == crate::text::digit_char(b % 10));
        assert(da == decimal(a).drop_last());
        assert(db == decimal(b).drop_last());
        lemma_decimal_injective(a / 10, b / 10);
    }
}

/// Distinct collision indices of one timestamp give distinct archive
/// names, so each retry after a collision asks for a new file.
pub proof fn lemma_archive_names_distinct(unix_nanos: u128, first: u16, second: u16)
    requires
        first != second,
    ensures
        archive_file_name(unix_nanos, first) != archive_file_name(unix_nanos, second),
{
    reveal_strlit("-");
    reveal_strlit("-archive.gzip");
    let stamp = decimal(unix_nanos as nat);
    let suffix = "-archive.gzip"@;
    if first == 0 || second == 0 {
        let other = if first == 0 { second } else { first };
        lemma_decimal_nonempty(other as nat);
        assert(archive_file_name(unix_nanos, 0).len() == stamp.len() + suffix.len());
        assert(archive_file_name(unix_nanos, other).len() == stamp.len() + 1 + decimal(other as nat).len()
            + suffix.len());
    } else {
        let a = decimal(first as nat);
        let b = decimal(second as nat);
        let x = archive_file_name(unix_nanos, first);
        let y = archive_file_name(unix_nanos, second);
        if x == y {
            let start = stamp.len() + 1;
            assert(x.len() == start + a.len() + suffix.len());
            assert(y.len() == start + b.len() + suffix.len());
            assert(x.subrange(start as int, (start + a.len()) as int) =~= a);
            assert(y.subrange(start as int, (start + b.len()) as int) =~= b);
            lemma_decimal_injective(first as nat, second as nat);
        }
    }
}

impl ArchiveName {
    /// The first name for a timestamp.
    pub fn new(unix_nanos: u128) -> (n: Self)
        ensures
            n.unix_nanos == unix_nanos,
            n.collision_index == 0,
    {
        ArchiveName { unix_nanos, collision_index: 0 }
    }

    /// The name for the time `elapsed` after the Unix epoch, or a clock
    /// failure when the time lies before it.
    pub fn from_system_time(elapsed: Option<u128>) -> (r: Result<Self, CliError>)
        ensures
            elapsed matches Some(n) ==> (r matches Ok(name) && name == ArchiveName::new_spec(n)),
            elapsed is None ==> (r matches Err(e) && e is Clock),
    {
        match elapsed {
            Some(unix_nanos) => Ok(Self::new(unix_nanos)),
            None => Err(CliError::Clock),
        }
    }

    pub open spec fn new_spec(unix_nanos: u128) -> Self {
        ArchiveName { unix_nanos, collision_index: 0 }
    }

    /// The same timestamp with another collision index.
    pub fn with_collision_index(&self, collision_index: u16) -> (n: Self)
        ensures
            n.unix_nanos == self.unix_nanos,
            n.collision_index == collision_index,
    {
        ArchiveName { unix_nanos: self.unix_nanos, collision_index }
    }

    /// The file name, without any path separator or colon.
    pub fn file_name(&self) -> (s: String)
        ensures
            s@ == archive_file_name(self.unix_nanos, self.collision_index),
    {
        let mut s = String::new();
        push_decimal(&mut s, self.unix_nanos);
        if self.collision_index != 0 {
            push_str(&mut s, "-");
            push_decimal(&mut s, self.collision_index as u128);
        }
        push_str(&mut s, "-archive.gzip");
        proof {
            reveal_strlit("-");
            reveal_strlit("-archive.gzip");
        }
        s
    }
}

/// What `flate2`'s gzip writer built by `GzBuilder::new().mtime(0)` with
/// the default compression level produces for `data`.
pub uninterp spec fn gzip_encoding(data: Seq<u8>) -> Seq<u8>;

/// Compresses `data` into one gzip member with a zero modification time
/// (`flate2::GzBuilder`, `write::GzEncoder::finish`). The encoder writes
/// into a `Vec`, which accepts every byte, so it succeeds.
#[verifier::external_body]
fn gzip_encode(data: &[u8]) -> (r: Result<Vec<u8>, IoFailure>)
    ensures
        r is Ok,
        r matches Ok(v) ==> v@ == gzip_encoding(data@),
        r matches Ok(v) ==> gzip_decoding(v@) == Some((data@, v@.len())),
{
    let mut encoder = flate2::GzBuilder::new().mtime(0).write(Vec::new(), flate2::Compression::default());
    match encoder.write_all(data).and_then(|()| encoder.finish()) {
        Ok(encoded) => Ok(encoded),
        Err(e) => Err(IoFailure { kind: crate::error::IoErrorKind::Other, message: e.to_string() }),
    }
}

#[verifier::external_type_specification]
#[verifier::external_body]
#[verifier::reject_recursive_types(R)]
pub struct ExGzDecoder<R>(flate2::bufread::GzDecoder<R>);

/// What `flate2`'s `bufread::GzDecoder` makes of `bytes`, which depends on
/// them alone: for a well-formed gzip member at their front, the decoded
/// data and the member's length in bytes; `None` for input that does not
/// begin with one.
pub uninterp spec fn gzip_decoding(bytes: Seq<u8>) -> Option<(Seq<u8>, nat)>;

/// The input a decoder decodes.
pub uninterp spec fn decoder_input(decoder: flate2::bufread::GzDecoder<&[u8]>) -> Seq<u8>;

/// The decoded bytes a decoder has handed out so far.
pub uninterp spec fn decoder_output(decoder: flate2::bufread::GzDecoder<&[u8]>) -> Seq<u8>;

/// Whether a read of the decoder has returned an error.
pub uninterp spec fn decoder_failed(decoder: flate2::bufread::GzDecoder<&[u8]>) -> bool;

/// Whether the decoder has reported the end of its member: a read into a
/// non-empty buffer returned zero before any read failed, which flate2 does
/// only once the member's trailer was read and checked.
pub uninterp spec fn decoder_ended(decoder: flate2::bufread::GzDecoder<&[u8]>) -> bool;

/// A gzip decoder reading one member from `bytes`
/// (`flate2::bufread::GzDecoder::new`); it has handed out nothing, failed
/// no read and reported no end yet.
#[verifier::external_body]
fn gzip_decoder<'a>(bytes: &'a [u8]) -> (d: flate2::bufread::GzDecoder<&'a [u8]>)
    ensures
        decoder_input(d) == bytes@,
        decoder_output(d) == Seq::<u8>::empty(),
        !decoder_failed(d),
        !decoder_ended(d),
{
    flate2::bufread::GzDecoder::new(bytes)
}

/// Reads decoded bytes into `chunk` (`Read::read`): the count is no larger
/// than `chunk`, and the bytes are the next ones of the member's decoding,
/// so what was handed out stays a prefix of it. Before any read failed, a
/// count of zero into a non-empty chunk comes only after the trailer was
/// read and checked: the whole member was handed out. Reading from a slice
/// fails only on input that is not a well-formed member; the failure's
/// message is returned. After a failure flate2 answers later reads with
/// zero, of which nothing is claimed.
#[verifier::external_body]
fn gzip_read(decoder: &mut flate2::bufread::GzDecoder<&[u8]>, chunk: &mut [u8]) -> (r: Result<usize, String>)
    ensures
        final(chunk)@.len() == old(chunk)@.len(),
        decoder_input(*final(decoder)) == decoder_input(*old(decoder)),
        decoder_ended(*old(decoder)) ==> decoder_ended(*final(decoder)),
        r matches Ok(n) ==> {
            &&& n <= old(chunk)@.len()
            &&& decoder_failed(*final(decoder)) == decoder_failed(*old(decoder))
            &&& decoder_output(*final(decoder)) == decoder_output(*old(decoder)) + final(chunk)@.take(n as int)
            &&& gzip_decoding(decoder_input(*old(decoder))) matches Some((d, _)) ==> decoder_output(
                *final(decoder),
            ) == d.take(decoder_output(*final(decoder)).len() as int) && decoder_output(*final(decoder)).len()
                <= d.len()
            &&& n == 0 && old(chunk)@.len() > 0 && !decoder_failed(*old(decoder)) ==> {
                &&& decoder_ended(*final(decoder))
                &&& gzip_decoding(decoder_input(*old(decoder))) matches Some((d, _))
                &&& decoder_output(*old(decoder)) == d
            }
        },
        r is Err ==> gzip_decoding(decoder_input(*old(decoder))) is None && decoder_failed(*final(decoder)),
{
    decoder.read(chunk).map_err(|e| e.to_string())
}

/// True when the decoder consumed all of its input
/// (`GzDecoder::into_inner` yields an empty remainder). Once the decoder
/// reported the end of its member, the input it consumed is exactly the
/// member, so that is when the member spans the whole input.
#[verifier::external_body]
fn gzip_input_exhausted(decoder: flate2::bufread::GzDecoder<&[u8]>) -> (r: bool)
    ensures
        decoder_ended(decoder) ==> r == (gzip_decoding(decoder_input(decoder))->Some_0.1 == decoder_input(
            decoder,
        ).len()),
        decoder_ended(decoder) && !r ==> gzip_decoding(decoder_input(decoder))->Some_0.1 < decoder_input(decoder).len(),
{
    decoder.into_inner().is_empty()
}

/// The errors decoding `bytes` of `file_name` can end in, besides
/// cancellation: the compressed limit; else, for a well-formed member, the
/// expanded limit or trailing data; else the expanded limit (reached before
/// the defect showed) or the decoder's failure.
pub open spec fn decode_error(file_name: Seq<char>, bytes: Seq<u8>, e: CliError) -> bool {
    if bytes.len() > MAX_COMPRESSED_ARCHIVE_BYTES {
        archive_error(e, prefixed(file_name, "compressed archive exceeds 67108864 bytes"@))
    } else {
        match gzip_decoding(bytes) {
            Some((d, member)) => if d.len() > MAX_EXPANDED_ARCHIVE_BYTES {
                archive_error(e, prefixed(file_name, "expanded archive exceeds 268435456 bytes"@))
            } else {
                member < bytes.len() && archive_error(e, prefixed(file_name, "archive contains trailing data"@))
            },
            None => {
                ||| archive_error(e, prefixed(file_name, "expanded archive exceeds 268435456 bytes"@))
                ||| exists|detail: Seq<char>|
                    archive_error(e, prefixed(file_name, "failed to decode gzip payload: "@ + detail))
            },
        }
    }
}

/// Law: an archive this library encoded decodes back to the JSON it was
/// made from; decoding it can end only in cancellation.
pub proof fn lemma_archive_round_trip(file_name: Seq<char>, json: Seq<u8>, encoded: Seq<u8>)
    requires
        gzip_decoding(encoded) == Some((json, encoded.len())),
        json.len() <= MAX_EXPANDED_ARCHIVE_BYTES,
        encoded.len() <= MAX_COMPRESSED_ARCHIVE_BYTES,
    ensures
        forall|e: CliError| !decode_error(file_name, encoded, e),
{
}

/// The message of a decoding failure of `file_name`.
pub open spec fn decode_failure(file_name: Seq<char>, e: CliError) -> bool {
    ||| e is OperationCanceled
    ||| archive_error(e, prefixed(file_name, "compressed archive exceeds 67108864 bytes"@))
    ||| archive_error(e, prefixed(file_name, "expanded archive exceeds 268435456 bytes"@))
    ||| archive_error(e, prefixed(file_name, "archive contains trailing data"@))
    ||| exists|detail: Seq<char>| archive_error(e, prefixed(file_name, "failed to decode gzip payload: "@ + detail))
}

impl ArchivePayload {
    /// Compresses the payload's JSON rendering `json` after checking the
    /// payload's entry limits, the expanded limit and the compressed limit.
    pub fn encode_gzip(&self, json: &[u8], cancellation: &ApplicationCancellation) -> (r: Result<Vec<u8>, CliError>)
        ensures
            r matches Ok(v) ==> {
                &&& v@ == gzip_encoding(json@)
                &&& gzip_decoding(v@) == Some((json@, v@.len()))
                &&& json@.len() <= MAX_EXPANDED_ARCHIVE_BYTES
                &&& v@.len() <= MAX_COMPRESSED_ARCHIVE_BYTES
                &&& self.contract_files@.len() <= MAX_ARCHIVE_ENTRIES
                &&& forall|i: int|
                    0 <= i < self.contract_files@.len() ==> (#[trigger] self.contract_files@[i]).bytes@.len()
                        <= MAX_CONTRACT_BYTES
            },
            self.contract_files@.len() > MAX_ARCHIVE_ENTRIES ==> r is Err,
            json@.len() > MAX_EXPANDED_ARCHIVE_BYTES ==> r is Err,
            gzip_encoding(json@).len() > MAX_COMPRESSED_ARCHIVE_BYTES ==> r is Err,
            r matches Err(e) ==> e is OperationCanceled || (e is ArchiveProcess && (self.contract_files@.len()
                > MAX_ARCHIVE_ENTRIES || (exists|k: int|
                0 <= k < self.contract_files@.len() && (#[trigger] self.contract_files@[k]).bytes@.len()
                    > MAX_CONTRACT_BYTES) || json@.len() > MAX_EXPANDED_ARCHIVE_BYTES || gzip_encoding(json@).len()
                > MAX_COMPRESSED_ARCHIVE_BYTES)),
    {
        cancellation.checkpoint()?;
        self.validate_limits("new archive", cancellation)?;
        if json.len() as u64 > MAX_EXPANDED_ARCHIVE_BYTES {
            return Err(Self::expanded_output_failure(BoundedOutputFailure::Limit { observed_at_least: json.len() as u64 }));
        }
        cancellation.checkpoint()?;
        let encoded = match gzip_encode(json) {
            Ok(encoded) => encoded,
            Err(source) => return Err(Self::compressed_output_error(None, source, cancellation)),
        };
        if encoded.len() > MAX_COMPRESSED_ARCHIVE_BYTES {
            let failure = BoundedOutputFailure::Limit { observed_at_least: encoded.len() as u64 };
            let source = IoFailure { kind: crate::error::IoErrorKind::Other, message: "output byte limit exceeded".to_owned() };
            return Err(Self::compressed_output_error(Some(failure), source, cancellation));
        }
        cancellation.checkpoint()?;
        Ok(encoded)
    }

    /// Decodes one gzip member of at most the compressed limit into at most
    /// the expanded limit of JSON bytes, refusing trailing input.
    pub fn decode_gzip(file_name: &str, bytes: &[u8], budget: &CatalogReadBudget) -> (r: Result<Vec<u8>, CliError>)
        ensures
            r matches Ok(payload) ==> {
                &&& bytes@.len() <= MAX_COMPRESSED_ARCHIVE_BYTES
                &&& gzip_decoding(bytes@) matches Some((d, member))
                &&& payload@ == d
                &&& member == bytes@.len()
                &&& d.len() <= MAX_EXPANDED_ARCHIVE_BYTES
            },
            r matches Err(e) ==> e is OperationCanceled || decode_error(file_name@, bytes@, e),
            r matches Err(e) ==> decode_failure(file_name@, e),
    {
        budget.checkpoint()?;
        Self::validate_compressed_size(file_name, bytes.len())?;
        let mut decoder = gzip_decoder(bytes);
        let mut payload: Vec<u8> = Vec::new();
        let mut chunk: Vec<u8> = Vec::new();
        while chunk.len() < ARCHIVE_CHUNK_BYTES
            invariant
                chunk@.len() <= ARCHIVE_CHUNK_BYTES,
            decreases ARCHIVE_CHUNK_BYTES - chunk@.len(),
        {
            chunk.push(0);
        }
        loop
            invariant
                payload@.len() <= MAX_EXPANDED_ARCHIVE_BYTES,
                chunk@.len() == ARCHIVE_CHUNK_BYTES,
                bytes@.len() <= MAX_COMPRESSED_ARCHIVE_BYTES,
                decoder_input(decoder) == bytes@,
                decoder_output(decoder) == payload@,
                !decoder_failed(decoder),
                gzip_decoding(bytes@) matches Some((d, _)) ==> payload@ == d.take(payload@.len() as int)
                    && payload@.len() <= d.len(),
            ensures
                decoder_input(decoder) == bytes@,
                decoder_output(decoder) == payload@,
                decoder_ended(decoder),
                bytes@.len() <= MAX_COMPRESSED_ARCHIVE_BYTES,
                gzip_decoding(bytes@) matches Some((d, _)) && payload@ == d,
                payload@.len() <= MAX_EXPANDED_ARCHIVE_BYTES,
            decreases MAX_EXPANDED_ARCHIVE_BYTES + 1 - payload@.len(),
        {
            budget.checkpoint()?;
            let read = match gzip_read(&mut decoder, chunk.as_mut_slice()) {
                Ok(read) => read,
                Err(detail) => {
                    let mut text = String::new();
                    push_str(&mut text, "failed to decode gzip payload: ");
                    push_str(&mut text, detail.as_str());
                    proof {
                        reveal_strlit("failed to decode gzip payload: ");
                    }
                    return Err(archive_failure(prefixed_message(file_name, text.as_str())));
                },
            };
            if read == 0 {
                break;
            }
            if payload.len() as u64 + read as u64 > MAX_EXPANDED_ARCHIVE_BYTES {
                proof {
                    reveal_strlit("expanded archive exceeds 268435456 bytes");
                }
                return Err(archive_failure(prefixed_message(file_name, "expanded archive exceeds 268435456 bytes")));
            }
            let ghost prior = payload@;
            payload.extend_from_slice(vstd::slice::slice_subrange(chunk.as_slice(), 0, read));
            assert(payload@ =~= prior + chunk@.take(read as int));
        }
        if !gzip_input_exhausted(decoder) {
            proof {
                reveal_strlit("archive contains trailing data");
            }
            return Err(archive_failure(prefixed_message(file_name, "archive contains trailing data")));
        }
        budget.checkpoint()?;
        Ok(payload)
    }
}


/// Directory where a new archive file should be created.
pub struct ArchiveDestination {
    pub root: String,
    pub cancellation: ApplicationCancellation,
}

impl ArchiveDestination {
    /// An archive destination rooted at the user-selected directory,
    /// observing the root operation's cancellation.
    pub fn new(root: String, cancellation: &ApplicationCancellation) -> (d: Self)
        ensures
            d.root@ == root@,
    {
        ArchiveDestination { root, cancellation: cancellation.clone() }
    }
}

/// User-selected archive file read for `conkit diff`.
#[derive(Debug)]
pub struct ArchiveSource {
    pub path: String,
}

impl ArchiveSource {
    /// An archive reader for a local file path.
    pub fn new(path: String) -> (s: Self)
        ensures
            s.path@ == path@,
    {
        ArchiveSource { path }
    }

    /// The error for an archive file larger than the compressed limit.
    pub fn compressed_limit_error(file_name: &str) -> (e: CliError)
        ensures
            archive_error(e, prefixed(file_name@, "compressed archive exceeds 67108864 bytes"@)),
    {
        proof {
            reveal_strlit("compressed archive exceeds 67108864 bytes");
        }
        archive_failure(prefixed_message(file_name, "compressed archive exceeds 67108864 bytes"))
    }
}

} // verus!
