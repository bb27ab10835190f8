use conkit::archive::{
    is_catalog_path, ArchiveFileEntry, ArchiveFormatSelection, ArchiveJsonInput, ArchiveName, ArchivePayload,
    MAX_ARCHIVE_ENTRIES, MAX_COMPRESSED_ARCHIVE_BYTES, MAX_CONTRACT_BYTES,
    MAX_EXPANDED_ARCHIVE_BYTES,
};
use conkit::bounded_output::BoundedOutputFailure;
use conkit::cancellation::ApplicationCancellation;
use conkit::catalog::CatalogReadLimits;
use conkit::error::{CliError, IoErrorKind, IoFailure};

fn message(error: &CliError) -> String {
    match error {
        CliError::ArchiveProcess { message } => message.clone(),
        other => panic!("expected an archive error, got {other:?}"),
    }
}

fn payload(entries: Vec<ArchiveFileEntry>) -> ArchivePayload {
    ArchivePayload::new(entries)
}

fn entry(path: &str, bytes: Vec<u8>) -> ArchiveFileEntry {
    ArchiveFileEntry {
        path: path.to_owned(),
        bytes,
    }
}

fn encode(json: &[u8]) -> Vec<u8> {
    payload(Vec::new())
        .encode_gzip(json, &ApplicationCancellation::new())
        .expect("archive encode")
}

fn decode(file_name: &str, bytes: &[u8]) -> Result<Vec<u8>, CliError> {
    let cancellation = ApplicationCancellation::new();
    let budget = CatalogReadLimits::default().begin(&cancellation);
    ArchivePayload::decode_gzip(file_name, bytes, &budget)
}

const JSON: &[u8] = br#"{"version":1,"contract_files":[{"path":{"value":"main.yml"},"bytes":[99,111]}]}"#;

#[test]
fn archive_name_uses_unix_nanoseconds_without_colons() {
    let name = ArchiveName::new(123_456_789).file_name();

    assert_eq!(name, "123456789-archive.gzip");
    assert!(!name.contains(':'));
}

#[test]
fn archive_name_adds_collision_suffix() {
    let name = ArchiveName::new(123).with_collision_index(2).file_name();

    assert_eq!(name, "123-2-archive.gzip");
}

#[test]
fn archive_name_from_time_before_the_epoch_is_a_clock_failure() {
    assert!(matches!(ArchiveName::from_system_time(None), Err(CliError::Clock)));
    let name = ArchiveName::from_system_time(Some(u128::MAX)).expect("time after epoch");
    assert_eq!(
        name.file_name(),
        "340282366920938463463374607431768211455-archive.gzip"
    );
}

#[test]
fn gzip_flag_selects_the_only_format() {
    assert_eq!(ArchiveFormatSelection::from_gzip_flag(true), ArchiveFormatSelection::Gzip);
    assert_eq!(ArchiveFormatSelection::from_gzip_flag(false), ArchiveFormatSelection::Gzip);
}

#[test]
fn truncated_old_version_one_archive_is_rejected() {
    let mut bytes = encode(JSON);
    bytes.pop().expect("archive fixture has a gzip trailer");

    let error = decode("truncated-v1.gzip", &bytes)
        .expect_err("a truncated valid gzip stream must fail");

    assert!(message(&error).contains("truncated-v1.gzip"));
}

#[test]
fn combined_catalog_round_trips_exact_bytes() {
    let encoded = encode(JSON);
    let decoded = decode("round-trip.gzip", &encoded).expect("archive decode");
    assert_eq!(decoded, JSON);
}

#[test]
fn repeated_encoding_is_deterministic() {
    assert_eq!(encode(JSON), encode(JSON));
}

#[test]
fn final_encoding_boundary_rejects_oversized_contract_entries() {
    let oversized = payload(vec![entry("large.yml", vec![0; MAX_CONTRACT_BYTES + 1])]);
    let error = oversized
        .encode_gzip(b"{}", &ApplicationCancellation::new())
        .expect_err("oversized contract must fail before encoding");
    assert_eq!(
        message(&error),
        "new archive: contract entry exceeds 16777216 bytes: large.yml"
    );
}

#[test]
fn invalid_gzip_and_json_return_archive_errors() {
    let gzip_error = decode("bad.gzip", b"not gzip").expect_err("invalid gzip");

    assert!(message(&gzip_error).contains("bad.gzip: failed to decode gzip payload"));
}

#[test]
fn gzip_with_trailing_bytes_or_a_second_member_is_rejected() {
    let mut encoded = encode(JSON);
    let first_member = encoded.clone();
    encoded.extend_from_slice(b"TRAILING-JUNK");

    let error = decode("trailing.gzip", &encoded).expect_err("trailing bytes must be rejected");
    let mut concatenated = first_member.clone();
    concatenated.extend_from_slice(&first_member);
    let member_error = decode("two-members.gzip", &concatenated)
        .expect_err("a second gzip member must be rejected");

    assert!(message(&error).contains("trailing data"));
    assert!(message(&member_error).contains("trailing data"));
}

#[test]
fn compressed_and_expanded_archive_limits_are_rejected() {
    let compressed_error =
        ArchivePayload::validate_compressed_size("compressed.gzip", MAX_COMPRESSED_ARCHIVE_BYTES + 1)
            .expect_err("compressed limit must be enforced before reading");
    let expanded = vec![b' '; usize::try_from(MAX_EXPANDED_ARCHIVE_BYTES).expect("limit") + 1];
    let expanded_error = payload(Vec::new())
        .encode_gzip(&expanded, &ApplicationCancellation::new())
        .expect_err("the production expanded limit must stop encoding");

    assert!(message(&compressed_error).contains("compressed archive exceeds"));
    assert!(message(&expanded_error).contains("expanded archive exceeds"));
    assert!(ArchivePayload::validate_compressed_size("exact.gzip", MAX_COMPRESSED_ARCHIVE_BYTES).is_ok());
}

#[test]
fn payload_entry_and_contract_limits_are_rejected() {
    let oversized_contract = payload(vec![entry("large.yml", vec![0; MAX_CONTRACT_BYTES + 1])]);
    let contract_error = oversized_contract
        .validate_limits("large.gzip", &ApplicationCancellation::new())
        .expect_err("oversized contract must fail");

    let too_many = payload(
        std::iter::repeat_with(|| entry("same.yml", Vec::new()))
            .take(MAX_ARCHIVE_ENTRIES + 1)
            .collect(),
    );
    let entry_error = too_many
        .validate_limits("many.gzip", &ApplicationCancellation::new())
        .expect_err("too many entries must fail");

    assert!(message(&contract_error).contains("contract entry exceeds"));
    assert!(message(&entry_error).contains("too many contract entries"));
}

#[test]
fn unsupported_version_invalid_path_and_duplicate_path_are_rejected() {
    let unsupported = ArchivePayload {
        version: 999,
        contract_files: Vec::new(),
    };
    let version_error = unsupported.validate_version("old.gzip").expect_err("unsupported version");

    let cancellation = ApplicationCancellation::new();
    let invalid_path = ArchivePayload {
        version: 1,
        contract_files: vec![entry("../escape.yml", Vec::new())],
    };
    let path_error = invalid_path
        .into_contract_files("invalid-path.gzip", &mut CatalogReadLimits::default().begin(&cancellation))
        .expect_err("invalid path");

    let duplicate = ArchivePayload {
        version: 1,
        contract_files: vec![entry("same.yml", Vec::new()), entry("same.yml", Vec::new())],
    };
    let duplicate_error = duplicate
        .into_contract_files("duplicate.gzip", &mut CatalogReadLimits::default().begin(&cancellation))
        .expect_err("duplicate path");

    assert!(message(&version_error).contains("unsupported archive payload version 999"));
    assert!(message(&path_error).contains("invalid catalog path"));
    assert!(message(&duplicate_error).contains("duplicate catalog path"));
    assert!(payload(Vec::new()).validate_version("new.gzip").is_ok());
}

#[test]
fn decoded_catalog_entries_share_the_callers_existing_budget() {
    let cancellation = ApplicationCancellation::new();
    let mut budget = CatalogReadLimits::new(1, 64, 64).begin(&cancellation);
    budget.record_entry_bytes("current.yml", 1).expect("current catalog entry");
    let archived = payload(vec![entry("previous.yml", vec![b'x'])]);

    let error = archived
        .into_contract_files("previous.gzip", &mut budget)
        .expect_err("current and archived entries must share one ledger");

    let CliError::CatalogReadLimit(error) = error else {
        panic!("expected aggregate catalog entry limit");
    };
    assert!(
        error
            .message()
            .contains("catalog entry count limit exceeded: limit 1, observed at least 2"),
        "unexpected aggregate catalog limit: {error:?}",
    );
}

#[test]
fn archived_entries_keep_their_order_and_are_charged_to_the_budget() {
    let cancellation = ApplicationCancellation::new();
    let mut budget = CatalogReadLimits::default().begin(&cancellation);
    let files = payload(vec![entry("b/main.yml", vec![1, 2]), entry("a.yml", vec![3])])
        .into_contract_files("ok.gzip", &mut budget)
        .expect("valid entries");
    let paths: Vec<&str> = files.iter().map(|file| file.path.as_str()).collect();
    assert_eq!(paths, ["b/main.yml", "a.yml"]);
    assert_eq!(files[0].bytes, [1, 2]);
    assert_eq!(budget.reserved_entries(), 2);
    assert_eq!(budget.committed_bytes(), 3);
}

#[test]
fn catalog_paths_are_relative_slash_separated_names() {
    for path in ["main.yml", "a/b.yml", ".hidden/x.yml", "a/..b/c"] {
        assert!(is_catalog_path(path), "{path}");
    }
    for path in ["", "/abs.yml", "a//b", "a/", "./a", "a/./b", "../escape.yml", "a/..", "a\\b"] {
        assert!(!is_catalog_path(path), "{path}");
    }
}

#[test]
fn canceled_archive_decode_stops_before_decompression() {
    let cancellation = ApplicationCancellation::new();
    cancellation.request();
    let budget = CatalogReadLimits::default().begin(&cancellation);
    let bytes = encode(JSON);

    let error = ArchivePayload::decode_gzip("canceled.gzip", &bytes, &budget)
        .expect_err("pre-canceled archive decoding must stop immediately");

    assert!(matches!(error, CliError::OperationCanceled));
}

#[test]
fn boundary_failures_map_to_archive_errors() {
    assert!(matches!(
        ArchivePayload::expanded_output_failure(BoundedOutputFailure::Cancelled),
        CliError::OperationCanceled
    ));
    let limit = ArchivePayload::expanded_output_failure(BoundedOutputFailure::Limit {
        observed_at_least: 300,
    });
    assert_eq!(
        message(&limit),
        "new archive: expanded archive exceeds 268435456 bytes (observed at least 300)"
    );
    let source = IoFailure {
        kind: IoErrorKind::Other,
        message: "disk full".to_owned(),
    };
    let cancellation = ApplicationCancellation::new();
    assert_eq!(
        message(&ArchivePayload::compressed_output_error(None, source.clone(), &cancellation)),
        "disk full"
    );
    assert_eq!(
        message(&ArchivePayload::compressed_output_error(
            Some(BoundedOutputFailure::Limit { observed_at_least: 1 }),
            source.clone(),
            &cancellation
        )),
        "compressed archive exceeds 67108864 bytes"
    );
    cancellation.request();
    assert!(matches!(
        ArchivePayload::compressed_output_error(None, source, &cancellation),
        CliError::OperationCanceled
    ));
}

#[test]
fn json_input_hands_out_bounded_chunks() {
    let cancellation = ApplicationCancellation::new();
    let budget = CatalogReadLimits::default().begin(&cancellation);
    let mut input = ArchiveJsonInput::new(b"abcdef", &budget);
    let mut buffer = [0_u8; 4];
    assert_eq!(input.read(&mut buffer).expect("first chunk"), 4);
    assert_eq!(&buffer, b"abcd");
    assert_eq!(input.read(&mut buffer).expect("second chunk"), 2);
    assert_eq!(&buffer[..2], b"ef");
    assert_eq!(input.read(&mut buffer).expect("end"), 0);
}

#[test]
fn collision_indices_give_distinct_names_for_one_timestamp() {
    let base = ArchiveName::new(1_700_000_000_000_000_000);
    let names: Vec<String> = [0_u16, 1, 2, 10, 1024]
        .iter()
        .map(|&index| base.with_collision_index(index).file_name())
        .collect();
    for (i, left) in names.iter().enumerate() {
        for right in names.iter().skip(i + 1) {
            assert_ne!(left, right);
        }
    }
}
