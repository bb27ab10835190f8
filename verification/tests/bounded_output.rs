use conkit::bounded_output::{BoundedOutput, BoundedOutputFailure, ChunkWrite, MemorySink, WriteSink, WRITE_CHUNK_BYTES};
use conkit::cancellation::ApplicationCancellation;
use conkit::error::{IoErrorKind, IoFailure};

struct RecordingWriter {
    bytes: Vec<u8>,
    requests: Vec<usize>,
    maximum_write: usize,
    fail_write: bool,
    fail_flush: bool,
    flushes: usize,
}

impl RecordingWriter {
    fn new(maximum_write: usize) -> Self {
        Self {
            bytes: Vec::new(),
            requests: Vec::new(),
            maximum_write,
            fail_write: false,
            fail_flush: false,
            flushes: 0,
        }
    }

    fn failing_write() -> Self {
        Self {
            fail_write: true,
            ..Self::new(usize::MAX)
        }
    }

    fn failing_flush() -> Self {
        Self {
            fail_flush: true,
            ..Self::new(usize::MAX)
        }
    }
}

fn injected(message: &str) -> IoFailure {
    IoFailure {
        kind: IoErrorKind::Other,
        message: message.to_owned(),
    }
}

impl ChunkWrite for RecordingWriter {
    fn write_some(&mut self, bytes: &[u8]) -> Result<usize, IoFailure> {
        self.requests.push(bytes.len());
        if self.fail_write {
            return Err(injected("injected write failure"));
        }
        let written = bytes.len().min(self.maximum_write);
        self.bytes.extend_from_slice(&bytes[..written]);
        Ok(written)
    }

    fn flush_all(&mut self) -> Result<(), IoFailure> {
        self.flushes += 1;
        if self.fail_flush {
            Err(injected("injected flush failure"))
        } else {
            Ok(())
        }
    }
}

struct CancelAfterWrite {
    cancellation: ApplicationCancellation,
    bytes: Vec<u8>,
}

impl ChunkWrite for CancelAfterWrite {
    fn write_some(&mut self, bytes: &[u8]) -> Result<usize, IoFailure> {
        self.bytes.extend_from_slice(bytes);
        self.cancellation.request();
        Ok(bytes.len())
    }

    fn flush_all(&mut self) -> Result<(), IoFailure> {
        Ok(())
    }
}

#[test]
fn empty_zero_ceiling_and_exact_writes_succeed() {
    let cancellation = ApplicationCancellation::new();
    let mut empty = BoundedOutput::new(MemorySink::new(), &cancellation, 0);
    empty.write_all(b"").expect("empty output");
    assert!(empty.into_inner().into_bytes().is_empty());

    let mut exact = BoundedOutput::new(MemorySink::new(), &cancellation, 4);
    exact.write_all(b"four").expect("exact output ceiling");
    assert_eq!(exact.failure(), None);
    assert_eq!(exact.into_inner().into_bytes(), b"four");
}

#[test]
fn limit_plus_one_is_recorded_before_delegation_and_remains_first() {
    let cancellation = ApplicationCancellation::new();
    let mut output = BoundedOutput::new(WriteSink::new(RecordingWriter::new(usize::MAX)), &cancellation, 3);

    output.write_all(b"four").expect_err("limit plus one");
    assert_eq!(
        output.failure(),
        Some(BoundedOutputFailure::Limit {
            observed_at_least: 4
        })
    );
    assert!(output.inner().writer().bytes.is_empty());
    cancellation.request();
    output.flush().expect_err("first limit failure is retained");
    assert!(matches!(
        output.failure(),
        Some(BoundedOutputFailure::Limit { .. })
    ));
}

#[test]
fn large_and_short_writes_account_only_delegated_actual_bytes() {
    let cancellation = ApplicationCancellation::new();
    let bytes = vec![b'x'; WRITE_CHUNK_BYTES + 7];
    let mut chunked = BoundedOutput::new(WriteSink::new(RecordingWriter::new(usize::MAX)),
        &cancellation,
        u64::try_from(bytes.len()).expect("fixture length"),
    );
    chunked.write_all(&bytes).expect("chunked output");
    let chunked = chunked.into_inner().into_inner();
    assert_eq!(chunked.requests, [WRITE_CHUNK_BYTES, 7]);
    assert_eq!(chunked.bytes, bytes);

    let mut short = BoundedOutput::new(WriteSink::new(RecordingWriter::new(2)), &cancellation, 4);
    short.write_all(b"four").expect("short writer");
    let short = short.into_inner().into_inner();
    assert_eq!(short.requests, [4, 2]);
    assert_eq!(short.bytes, b"four");
}

#[test]
fn write_zero_and_underlying_io_failures_are_not_boundary_failures() {
    let cancellation = ApplicationCancellation::new();
    let mut zero = BoundedOutput::new(WriteSink::new(RecordingWriter::new(0)), &cancellation, 4);
    assert_eq!(
        zero.write_all(b"data").expect_err("write zero").kind,
        IoErrorKind::WriteZero
    );
    assert_eq!(zero.failure(), None);

    let mut failing = BoundedOutput::new(WriteSink::new(RecordingWriter::failing_write()), &cancellation, 4);
    assert!(failing.write_all(b"data").is_err());
    assert_eq!(failing.failure(), None);
}

#[test]
fn cancellation_is_checked_before_write_between_chunks_and_before_flush() {
    let canceled = ApplicationCancellation::new();
    canceled.request();
    let mut before = BoundedOutput::new(MemorySink::new(), &canceled, 4);
    before.write_all(b"data").expect_err("pre-canceled write");
    assert_eq!(before.failure(), Some(BoundedOutputFailure::Cancelled));
    assert!(before.into_inner().into_bytes().is_empty());

    let cancellation = ApplicationCancellation::new();
    let writer = CancelAfterWrite {
        cancellation: cancellation.clone(),
        bytes: Vec::new(),
    };
    let mut between = BoundedOutput::new(WriteSink::new(writer),
        &cancellation,
        u64::try_from(WRITE_CHUNK_BYTES + 1).expect("fixture length"),
    );
    between
        .write_all(&vec![b'x'; WRITE_CHUNK_BYTES + 1])
        .expect_err("cancellation between chunks");
    assert_eq!(between.failure(), Some(BoundedOutputFailure::Cancelled));
    assert_eq!(between.inner().writer().bytes.len(), WRITE_CHUNK_BYTES);

    let flush_cancellation = ApplicationCancellation::new();
    let mut before_flush =
        BoundedOutput::new(WriteSink::new(RecordingWriter::new(usize::MAX)), &flush_cancellation, 4);
    before_flush
        .write_all(b"data")
        .expect("write before cancel");
    flush_cancellation.request();
    before_flush.flush().expect_err("pre-flush cancellation");
    assert_eq!(
        before_flush.failure(),
        Some(BoundedOutputFailure::Cancelled)
    );
    assert_eq!(before_flush.inner().writer().flushes, 0);
}

#[test]
fn flush_delegates_and_preserves_underlying_failure() {
    let cancellation = ApplicationCancellation::new();
    let mut output = BoundedOutput::new(WriteSink::new(RecordingWriter::new(usize::MAX)), &cancellation, 0);
    output.flush().expect("delegated flush");
    assert_eq!(output.inner().writer().flushes, 1);

    let mut failing = BoundedOutput::new(WriteSink::new(RecordingWriter::failing_flush()), &cancellation, 0);
    failing.flush().expect_err("underlying flush failure");
    assert_eq!(failing.failure(), None);
    assert_eq!(failing.inner().writer().flushes, 1);
}

#[test]
fn failure_errors_name_the_boundary() {
    let canceled = BoundedOutput::<Vec<u8>>::failure_error(BoundedOutputFailure::Cancelled);
    assert_eq!(canceled.kind, IoErrorKind::Other);
    assert_eq!(canceled.message, "output operation canceled");
    let limit = BoundedOutput::<Vec<u8>>::failure_error(BoundedOutputFailure::Limit {
        observed_at_least: 9,
    });
    assert_eq!(limit.message, "output byte limit exceeded");
}
