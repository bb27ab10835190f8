use conkit::catalog::is_rust_source;
use conkit::cancellation::ApplicationCancellation;
use conkit::catalog::{
    ByteCursor, CatalogFileRead, ChunkRead, ReadSource, CatalogReadLimitResource, CatalogReadLimits,
};
use conkit::error::{CliError, IoErrorKind, IoFailure};

struct ShortReader {
    bytes: Vec<u8>,
    offset: usize,
    maximum_read: usize,
}

impl ShortReader {
    fn new(bytes: &[u8], maximum_read: usize) -> Self {
        Self {
            bytes: bytes.to_vec(),
            offset: 0,
            maximum_read,
        }
    }
}

impl ChunkRead for ShortReader {
    fn read_up_to(&mut self, max: usize) -> Result<Vec<u8>, IoFailure> {
        let remaining = &self.bytes[self.offset..];
        let count = remaining.len().min(max).min(self.maximum_read);
        self.offset += count;
        Ok(remaining[..count].to_vec())
    }
}

struct FailingReader;

impl ChunkRead for FailingReader {
    fn read_up_to(&mut self, _max: usize) -> Result<Vec<u8>, IoFailure> {
        Err(IoFailure {
            kind: IoErrorKind::Other,
            message: "injected catalog read failure".to_owned(),
        })
    }
}

#[test]
fn ceiling_aware_read_accepts_empty_exact_and_short_reads() {
    let cancellation = ApplicationCancellation::new();
    let mut budget = CatalogReadLimits::new(3, 16, 16).begin(&cancellation);

    for (name, bytes, ceiling) in [
        ("empty", b"".as_slice(), 0_u64),
        ("exact", b"four".as_slice(), 4_u64),
    ] {
        budget.begin_entry(name).expect("reserve catalog entry");
        let read = budget
            .read_file_with_ceiling(name, &mut ByteCursor::new(bytes.to_vec()), ceiling)
            .expect("read at external ceiling");
        assert!(matches!(read, CatalogFileRead::Complete(value) if value == bytes));
    }

    budget.begin_entry("short").expect("reserve short-read entry");
    let read = budget
        .read_file_with_ceiling("short", &mut ReadSource::new(ShortReader::new(b"abc", 1)), 3)
        .expect("short reads complete");
    assert!(matches!(read, CatalogFileRead::Complete(value) if value == b"abc"));
    assert_eq!(budget.committed_bytes(), 7);
}

#[test]
fn external_ceiling_wins_before_catalog_bytes_are_committed() {
    let cancellation = ApplicationCancellation::new();
    let mut budget = CatalogReadLimits::new(2, 64, 64).begin(&cancellation);
    budget.begin_entry("wire").expect("reserve catalog entry");

    let read = budget
        .read_file_with_ceiling("wire", &mut ByteCursor::new(b"four".to_vec()), 3)
        .expect("external ceiling is a typed outcome");

    assert!(matches!(read, CatalogFileRead::CeilingExceeded));
    assert_eq!(budget.committed_bytes(), 0);
}

#[test]
fn tighter_catalog_limit_and_io_and_cancellation_keep_typed_precedence() {
    let cancellation = ApplicationCancellation::new();
    let mut limited = CatalogReadLimits::new(1, 2, 2).begin(&cancellation);
    limited.begin_entry("catalog").expect("reserve catalog entry");
    let error = limited
        .read_file_with_ceiling("catalog", &mut ByteCursor::new(b"three".to_vec()), 10)
        .expect_err("catalog limit is tighter");
    assert!(matches!(
        error,
        CliError::CatalogReadLimit(ref limit)
            if limit.resource == CatalogReadLimitResource::FileBytes
                && limit.observed_at_least == 3
    ));

    let mut failing = CatalogReadLimits::default().begin(&cancellation);
    failing.begin_entry("io").expect("reserve catalog entry");
    let error = failing
        .read_file_with_ceiling("io", &mut ReadSource::new(FailingReader), 10)
        .expect_err("reader failure");
    assert!(matches!(error, CliError::Io(_)));
    assert_eq!(failing.committed_bytes(), 0);

    let canceled = ApplicationCancellation::new();
    canceled.request();
    let mut canceled_budget = CatalogReadLimits::default().begin(&canceled);
    let error = canceled_budget
        .read_file_with_ceiling("canceled", &mut ByteCursor::new(b"bytes".to_vec()), 10)
        .expect_err("canceled read");
    assert!(matches!(error, CliError::OperationCanceled));
}

#[test]
fn entry_count_limit_names_the_refused_entry() {
    let cancellation = ApplicationCancellation::new();
    let mut budget = CatalogReadLimits::new(1, 16, 16).begin(&cancellation);
    budget.begin_entry("first").expect("first entry");
    let error = budget.begin_entry("second").expect_err("second entry");
    assert_eq!(error.resource, CatalogReadLimitResource::EntryCount);
    assert_eq!(error.limit, 1);
    assert_eq!(error.observed_at_least, 2);
    assert_eq!(error.path, "second");
    assert_eq!(budget.reserved_entries(), 1);
}

#[test]
fn comparing_equal_bytes_commits_them_and_unequal_bytes_stop_early() {
    let cancellation = ApplicationCancellation::new();
    let mut budget = CatalogReadLimits::default().begin(&cancellation);
    budget.begin_entry("same").expect("entry");
    assert!(budget
        .compare_file("same", &mut ByteCursor::new(b"abc".to_vec()), b"abc")
        .expect("comparison"));
    assert_eq!(budget.committed_bytes(), 3);
    budget.begin_entry("different").expect("entry");
    assert!(!budget
        .compare_file("different", &mut ByteCursor::new(b"abd".to_vec()), b"abc")
        .expect("comparison"));
}

#[test]
fn default_limits_and_resource_names() {
    let limits = CatalogReadLimits::default();
    assert_eq!(limits.per_file_bytes(), 64 * 1024 * 1024);
    assert_eq!(CatalogReadLimitResource::TotalBytes.name(), "catalog total bytes");
}

#[test]
fn rust_sources_are_named_by_a_case_insensitive_rs_extension() {
    for name in ["lib.rs", "main.RS", "a.b.Rs", "..rs"] {
        assert!(is_rust_source(name), "{name}");
    }
    for name in [".rs", "rs", "lib.rsx", "lib.r", "lib.", "notes.txt", ""] {
        assert!(!is_rust_source(name), "{name}");
    }
}

#[test]
fn entry_limit_keeps_the_count_and_byte_limit_keeps_the_reserved_entry() {
    let cancellation = ApplicationCancellation::new();
    let mut entries = CatalogReadLimits::new(1, 16, 16).begin(&cancellation);
    entries.record_entry_bytes("first", 1).expect("first entry");
    let error = entries.record_entry_bytes("second", 1).expect_err("entry limit");
    assert!(matches!(
        error,
        CliError::CatalogReadLimit(ref limit) if limit.resource == CatalogReadLimitResource::EntryCount
    ));
    assert_eq!(entries.reserved_entries(), 1);
    assert_eq!(entries.committed_bytes(), 1);

    let mut bytes = CatalogReadLimits::new(3, 4, 4).begin(&cancellation);
    let error = bytes.record_entry_bytes("large", 5).expect_err("file byte limit");
    assert!(matches!(
        error,
        CliError::CatalogReadLimit(ref limit) if limit.resource == CatalogReadLimitResource::FileBytes
    ));
    assert_eq!(bytes.reserved_entries(), 1);
    assert_eq!(bytes.committed_bytes(), 0);
}

#[test]
fn comparison_through_short_reads_sees_the_whole_file() {
    let cancellation = ApplicationCancellation::new();
    let mut budget = CatalogReadLimits::default().begin(&cancellation);
    let mut same = ReadSource::new(ShortReader::new(b"abc", 1));
    assert!(budget.compare_file("same", &mut same, b"abc").expect("comparison"));
    assert_eq!(budget.committed_bytes(), 3);
    let mut longer = ReadSource::new(ShortReader::new(b"abcd", 2));
    assert!(!budget.compare_file("longer", &mut longer, b"abc").expect("comparison"));
    assert_eq!(budget.committed_bytes(), 7);
    let mut shorter = ReadSource::new(ShortReader::new(b"ab", 2));
    assert!(!budget.compare_file("shorter", &mut shorter, b"abc").expect("comparison"));
    let read = budget
        .read_file("whole", &mut ReadSource::new(ShortReader::new(b"wxyz", 3)))
        .expect("read");
    assert_eq!(read, b"wxyz");
}
