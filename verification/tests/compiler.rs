use std::sync::atomic::{AtomicBool, Ordering};
use std::sync::Arc;
use std::time::Duration;

use conkit::cancellation::{ApplicationCancellation, CompilerCancellation};
use conkit::compiler::error::{
    CompilerError, CompilerOperation, CompilerSemanticResource, CompilerStream, SpanDefect,
};
use conkit::compiler::extractor::{CompilerConfiguration, CompilerIdentity, IdentityDefect};
use conkit::compiler::limits::{CompilerLimits, CompilerUsage, TemporaryTreeConsistency};
use conkit::compiler::process::{
    CargoOutput, ProcessCleanupEvidence, PROCESS_CLEANUP_EVIDENCE_BYTES,
    SUPPORTED_COMPILER_TOOLCHAIN,
};
use conkit::compiler::source::{RustdocSourceSpan, SourceEndpointResolver};
use conkit::compiler::translate::{
    translate_source_mappings, CompilerSourcePath, CompilerSourceProvenance, MappedSourceFile,
    SourceItem,
};
use conkit::error::IoErrorKind;

fn cancellation() -> CompilerCancellation {
    CompilerCancellation::from_flag(Arc::new(AtomicBool::new(false)))
}

fn source_span(filename: &str, begin: (usize, usize), end: (usize, usize)) -> RustdocSourceSpan {
    RustdocSourceSpan {
        filename: filename.to_owned(),
        begin,
        end,
    }
}

fn span_message(error: &CompilerError) -> &'static str {
    match error {
        CompilerError::InvalidSourceSpan { defect, .. } => defect.text(),
        other => panic!("expected a source-span error, got {other:?}"),
    }
}

#[test]
fn compiler_identity_is_control_free_deterministic_and_host_qualified() {
    let hash = "0123456789abcdef0123456789abcdef01234567";
    let identity = CompilerIdentity::parse(&format!(
        "rustc 1.90.0-nightly ({hash} 2026-06-30)\n\
         binary: rustc\n\
         commit-hash: {hash}\n\
         commit-date: 2026-06-30\n\
         host: x86_64-unknown-linux-gnu\n\
         release: 1.90.0-nightly\n\
         LLVM version: 20.1.7\n"
    ))
    .expect("valid verbose nightly identity");

    assert_eq!(
        identity.contract_value(),
        format!("rustc 1.90.0-nightly ({hash} 2026-06-30); host=x86_64-unknown-linux-gnu")
    );
    assert!(!identity.contract_value().chars().any(char::is_control));
}

#[test]
fn malformed_or_control_bearing_compiler_identity_fails_closed() {
    for output in [
        "",
        "rustc 1.90.0-nightly\nrelease: 1.90.0-nightly\n",
        "rustc 1.90.0-nightly\nrelease: 1.90.0-nightly\0\n",
        "rustc stable (hash date)\ncommit-hash: 0123456789abcdef0123456789abcdef01234567\ncommit-date: 2026-06-30\nhost: x86_64-unknown-linux-gnu\nrelease: stable\n",
    ] {
        assert!(matches!(
            CompilerIdentity::parse(output),
            Err(CompilerError::InvalidCompilerIdentity { .. })
        ));
    }
}

#[test]
fn compiler_identity_lowercases_the_hash_and_accepts_crlf_lines() {
    let identity = CompilerIdentity::parse(
        "rustc 1.91.0-nightly (ABCDEF0123456789ABCDEF0123456789ABCDEF01 2026-07-01)\r\n\
         commit-hash: ABCDEF0123456789ABCDEF0123456789ABCDEF01\r\n\
         commit-date: 2026-07-01\r\n\
         host: aarch64-apple-darwin\r\n\
         release: 1.91.0-nightly\r\n",
    )
    .expect("valid identity with carriage returns");
    assert_eq!(
        identity.contract_value(),
        "rustc 1.91.0-nightly (abcdef0123456789abcdef0123456789abcdef01 2026-07-01); host=aarch64-apple-darwin"
    );
}

#[test]
fn compiler_identity_reports_each_defect() {
    let defect = |output: &str| match CompilerIdentity::parse(output) {
        Err(CompilerError::InvalidCompilerIdentity { defect }) => defect,
        other => panic!("expected identity rejection, got {other:?}"),
    };
    assert!(matches!(defect(""), IdentityDefect::EmptyOrControl));
    assert!(matches!(defect("cargo 1.0\n"), IdentityDefect::Banner));
    assert!(matches!(
        defect("rustc x\nno separator\n"),
        IdentityDefect::MalformedField { line } if line == "no separator"
    ));
    assert!(matches!(
        defect("rustc x\nhost: a\nhost: b\n"),
        IdentityDefect::InvalidField { name } if name == "host"
    ));
    assert!(matches!(
        defect("rustc x\nhost: a\n"),
        IdentityDefect::MissingField { field: "release" }
    ));
    assert!(matches!(
        defect("rustc 1.0-nightly\nrelease: 1.0-nightly\ncommit-hash: 0123456789abcdef0123456789abcdef01234567\ncommit-date: 2026-06-30\n"),
        IdentityDefect::MissingField { field: "host" }
    ));
    assert!(matches!(
        defect("rustc 1.0-nightly\nrelease: 1.0-nightly\ncommit-hash: 0123\ncommit-date: 2026-06-30\nhost: h\n"),
        IdentityDefect::FieldValues
    ));
}

#[test]
fn compiler_configuration_merges_rustdoc_specific_cfg_and_cfg_doc() {
    let usage = CompilerUsage::new(CompilerLimits::default(), cancellation());
    let values = CompilerConfiguration::merge(
        &usage,
        "target_arch=\"x86_64\"\nfeature=\"serde\"\n",
        vec!["docsrs".to_owned(), "feature=\"serde\"".to_owned()],
    )
    .expect("one validated compiler/rustdoc cfg context");

    assert_eq!(
        values,
        [
            "doc",
            "docsrs",
            "feature=\"serde\"",
            "target_arch=\"x86_64\""
        ]
    );
}

#[test]
fn compiler_configuration_rejects_the_first_invalid_value() {
    let usage = CompilerUsage::new(CompilerLimits::default(), cancellation());
    let error = CompilerConfiguration::merge(&usage, "ok\n padded\n\tbad\n", vec![])
        .expect_err("padded cfg line");
    assert!(
        matches!(error, CompilerError::InvalidCompilerConfiguration { value } if value == " padded")
    );
    let error = CompilerConfiguration::merge(&usage, "", vec![String::new()])
        .expect_err("empty rustdoc value");
    assert!(matches!(error, CompilerError::InvalidCompilerConfiguration { value } if value.is_empty()));
    let values = CompilerConfiguration::merge(&usage, "b\r\n\r\na\n", vec!["doc".to_owned()])
        .expect("crlf lines and repeated doc");
    assert_eq!(values, ["a", "b", "doc"]);
    assert!(CompilerConfiguration::validated_value(&"x".repeat(4096)).is_ok());
    assert!(CompilerConfiguration::validated_value(&"x".repeat(4097)).is_err());
    assert!(CompilerConfiguration::validated_value(&"é".repeat(2049)).is_err());
}

#[test]
fn compiler_limits_are_finite_and_independently_bounded() {
    let limits = CompilerLimits::default();

    assert!(limits.stdout_bytes > 0);
    assert!(limits.stderr_bytes > 0);
    assert!(limits.artifact_bytes > 0);
    assert!(limits.cleanup_evidence_bytes > 0);
    assert!(limits.metadata_packages > 0);
    assert!(limits.metadata_targets >= limits.metadata_packages);
    assert!(limits.rustdoc_items > 0);
    assert!(limits.source_mappings <= limits.rustdoc_items);
    assert!(limits.temporary_tree_entries > 0);
    assert!(limits.temporary_tree_bytes >= limits.artifact_bytes);
    assert!(limits.timeout > Duration::ZERO);
    assert!(limits.cleanup_timeout > Duration::ZERO);
    assert!(limits.poll_interval > Duration::ZERO);
    assert!(limits.temporary_tree_scan_interval > limits.poll_interval);
}

#[test]
fn mutating_tree_ignores_only_not_found() {
    assert!(TemporaryTreeConsistency::Mutating.ignores_kind(true, IoErrorKind::NotFound));
    assert!(!TemporaryTreeConsistency::Mutating.ignores_kind(false, IoErrorKind::NotFound));
    assert!(!TemporaryTreeConsistency::Quiescent.ignores_kind(true, IoErrorKind::NotFound));
    assert!(
        !TemporaryTreeConsistency::Mutating.ignores_kind(true, IoErrorKind::PermissionDenied)
    );
    assert!(
        !TemporaryTreeConsistency::Quiescent.ignores_kind(true, IoErrorKind::PermissionDenied)
    );
}

#[test]
fn compiler_usage_enforces_cumulative_output_and_artifact_budgets() {
    let limits = CompilerLimits {
        stdout_bytes: 5,
        stderr_bytes: 5,
        artifact_bytes: 5,
        cleanup_evidence_bytes: 32,
        metadata_packages: 5,
        metadata_targets: 5,
        rustdoc_items: 5,
        source_mappings: 5,
        temporary_tree_entries: 32,
        temporary_tree_bytes: 32,
        timeout: Duration::from_secs(1),
        cleanup_timeout: Duration::from_millis(10),
        poll_interval: Duration::from_millis(1),
        temporary_tree_scan_interval: Duration::from_millis(10),
    };
    let usage = CompilerUsage::new(limits, cancellation());

    usage
        .account_output(CompilerOperation::Metadata, CompilerStream::Stdout, 3)
        .expect("first child output remains within the extraction budget");
    let output = usage
        .account_output(CompilerOperation::Rustdoc, CompilerStream::Stdout, 3)
        .expect_err("the next child shares the same stdout budget");
    assert!(matches!(
        output,
        CompilerError::ProcessOutputLimit {
            operation: CompilerOperation::Rustdoc,
            stream: CompilerStream::Stdout,
            limit: 5,
            observed_at_least: 6,
        }
    ));

    usage
        .account_artifact(CompilerOperation::RustdocConfigurationProbe, "probe.json", 3)
        .expect("probe capture remains within the extraction artifact budget");
    let artifact = usage
        .account_artifact(CompilerOperation::Rustdoc, "crate.json", 3)
        .expect_err("rustdoc JSON shares the probe artifact budget");
    assert!(matches!(
        artifact,
        CompilerError::CompilerArtifactLimit {
            operation: CompilerOperation::Rustdoc,
            limit: 5,
            observed_at_least: 6,
            ..
        }
    ));
}

#[test]
fn compiler_usage_has_one_absolute_deadline_and_shared_cancellation_flag() {
    let limits = CompilerLimits {
        timeout: Duration::ZERO,
        ..CompilerLimits::default()
    };
    let cancelled = Arc::new(AtomicBool::new(false));
    let usage = CompilerUsage::new(limits, CompilerCancellation::from_flag(Arc::clone(&cancelled)));
    let cloned = Arc::clone(&usage);

    assert!(matches!(
        usage.checkpoint(CompilerOperation::Metadata),
        Err(CompilerError::ProcessTimeout {
            operation: CompilerOperation::Metadata,
            ..
        })
    ));

    cancelled.store(true, Ordering::Release);
    assert!(matches!(
        cloned.checkpoint(CompilerOperation::Rustdoc),
        Err(CompilerError::CompilerExtractionCancelled)
    ));
}

#[test]
fn compiler_usage_enforces_cumulative_metadata_and_rustdoc_counts() {
    let limits = CompilerLimits {
        metadata_packages: 1,
        metadata_targets: 2,
        rustdoc_items: 2,
        source_mappings: 1,
        ..CompilerLimits::default()
    };
    let usage = CompilerUsage::new(limits, cancellation());

    usage
        .account_metadata(&[2])
        .expect("one package and its two targets remain within budget");
    assert!(matches!(
        usage.account_metadata(&[2]),
        Err(CompilerError::CompilerSemanticLimit {
            resource: CompilerSemanticResource::MetadataPackages,
            limit: 1,
            observed_at_least: 2,
            ..
        })
    ));

    usage
        .account_semantic(CompilerOperation::Rustdoc, CompilerSemanticResource::RustdocItems, 2)
        .expect("two rustdoc items remain within budget");
    assert!(matches!(
        usage.account_semantic(CompilerOperation::Rustdoc, CompilerSemanticResource::RustdocItems, 1),
        Err(CompilerError::CompilerSemanticLimit {
            resource: CompilerSemanticResource::RustdocItems,
            limit: 2,
            observed_at_least: 3,
            ..
        })
    ));

    usage
        .account_semantic(CompilerOperation::Rustdoc, CompilerSemanticResource::SourceMappings, 1)
        .expect("first source mapping remains within budget");
    assert!(matches!(
        usage.account_semantic(CompilerOperation::Rustdoc, CompilerSemanticResource::SourceMappings, 1),
        Err(CompilerError::CompilerSemanticLimit {
            resource: CompilerSemanticResource::SourceMappings,
            limit: 1,
            observed_at_least: 2,
            ..
        })
    ));
}

#[test]
fn only_the_exact_missing_supported_toolchain_gets_actionable_classification() {
    let missing = CargoOutput {
        stdout: Vec::new(),
        stderr: format!("error: toolchain '{SUPPORTED_COMPILER_TOOLCHAIN}' is not installed")
            .into_bytes(),
    }
    .failure_with_status_code(CompilerOperation::Metadata, Some(1));
    let other = CargoOutput {
        stdout: Vec::new(),
        stderr: b"error: toolchain 'nightly' is not installed".to_vec(),
    }
    .failure_with_status_code(CompilerOperation::Metadata, Some(1));

    match missing {
        CompilerError::SupportedToolchainUnavailable { toolchain, .. } => {
            assert_eq!(toolchain, SUPPORTED_COMPILER_TOOLCHAIN);
        }
        other => panic!("expected supported-toolchain error, got {other:?}"),
    }
    assert!(matches!(other, CompilerError::CargoFailed { .. }));
}

#[test]
fn cargo_failure_keeps_the_trimmed_lossy_stderr_and_status() {
    let failure = CargoOutput {
        stdout: Vec::new(),
        stderr: b"  error: \xff broken \n".to_vec(),
    }
    .failure_with_status_code(CompilerOperation::Rustdoc, Some(101));
    match failure {
        CompilerError::CargoFailed {
            operation,
            status,
            stderr,
        } => {
            assert_eq!(operation, CompilerOperation::Rustdoc);
            assert_eq!(status, Some(101));
            assert_eq!(stderr, "error: \u{fffd} broken");
        }
        other => panic!("expected a Cargo failure, got {other:?}"),
    }
}

#[test]
fn utf8_stdout_accepts_text_and_rejects_invalid_bytes() {
    let text = CargoOutput {
        stdout: "héllo".as_bytes().to_vec(),
        stderr: Vec::new(),
    }
    .utf8_stdout(CompilerOperation::Metadata)
    .expect("valid UTF-8");
    assert_eq!(text, "héllo");
    let error = CargoOutput {
        stdout: vec![b'a', 0xff],
        stderr: Vec::new(),
    }
    .utf8_stdout(CompilerOperation::CompilerVersion)
    .expect_err("invalid UTF-8");
    assert!(matches!(
        error,
        CompilerError::NonUtf8ProcessOutput {
            operation: CompilerOperation::CompilerVersion,
            ..
        }
    ));
}

#[test]
fn cleanup_evidence_wraps_without_replacing_the_primary_failure() {
    let primary = CompilerError::ProcessTimeout {
        operation: CompilerOperation::Rustdoc,
        timeout: Duration::from_secs(1),
    };
    let usage = CompilerUsage::new(CompilerLimits::default(), cancellation());
    let mut evidence = ProcessCleanupEvidence::new(&usage);
    evidence.record_message("reap process group", "cleanup timeout elapsed");

    let error = evidence.attach(primary);

    match error {
        CompilerError::ProcessFailureWithEvidence { primary, evidence } => {
            assert!(matches!(*primary, CompilerError::ProcessTimeout { .. }));
            assert!(evidence.contains("reap process group"));
            assert_eq!(evidence, "reap process group: cleanup timeout elapsed");
        }
        other => panic!("expected preserved primary failure, got {other:?}"),
    }
}

#[test]
fn empty_cleanup_evidence_returns_the_primary_failure() {
    let usage = CompilerUsage::new(CompilerLimits::default(), cancellation());
    let evidence = ProcessCleanupEvidence::new(&usage);
    assert!(evidence.is_empty());
    let error = evidence.attach(CompilerError::CompilerExtractionCancelled);
    assert!(matches!(error, CompilerError::CompilerExtractionCancelled));
}

#[test]
fn cleanup_evidence_is_unicode_safe_and_bounded() {
    let step = "reap process group";
    let usage = CompilerUsage::new(CompilerLimits::default(), cancellation());
    let mut evidence = ProcessCleanupEvidence::new(&usage);
    evidence.record_message(step, &"é".repeat(PROCESS_CLEANUP_EVIDENCE_BYTES));
    let rendered = evidence.rendered();

    assert!(rendered.ends_with("..."));
    assert!(rendered.len() <= step.len() + 2 + PROCESS_CLEANUP_EVIDENCE_BYTES);
}

#[test]
fn cleanup_evidence_uses_one_cumulative_unicode_safe_budget() {
    let limits = CompilerLimits {
        cleanup_evidence_bytes: 48,
        ..CompilerLimits::default()
    };
    let usage = CompilerUsage::new(limits, cancellation());
    let mut first = ProcessCleanupEvidence::new(&usage);
    let mut second = ProcessCleanupEvidence::new(&usage);

    first.record_message("kill process group", &"é".repeat(64));
    second.record_message("reap process group", &"é".repeat(64));

    assert!(first.rendered().len() + second.rendered().len() <= 48);
    assert_eq!(usage.cleanup_evidence_observed(), 48);
}

#[test]
fn source_endpoints_preserve_unicode_inclusive_and_crlf_coordinates() {
    let source = "aéz\r\nnext\n";
    let spans = [
        source_span("lib.rs", (2, 1), (2, 1)),
        source_span("lib.rs", (1, 5), (1, 5)),
        source_span("lib.rs", (1, 2), (1, 2)),
        source_span("lib.rs", (1, 4), (1, 4)),
    ];
    let usage = CompilerUsage::new(CompilerLimits::default(), cancellation());
    let mut resolver = SourceEndpointResolver::new(source.as_bytes());
    for span in &spans {
        resolver.request(span);
    }
    let resolution = resolver.resolve(&usage, "lib.rs").expect("one source pass");
    let ranges = spans
        .iter()
        .map(|span| {
            resolution
                .byte_range(&usage, span)
                .expect("valid scalar coordinate")
        })
        .collect::<Vec<_>>();

    assert_eq!(&source.as_bytes()[ranges[0].0..ranges[0].1], b"n");
    assert_eq!(&source.as_bytes()[ranges[1].0..ranges[1].1], b"\n");
    assert_eq!(&source.as_bytes()[ranges[2].0..ranges[2].1], "é".as_bytes());
    assert_eq!(&source.as_bytes()[ranges[3].0..ranges[3].1], b"\r");
}

#[test]
fn source_endpoint_diagnostics_preserve_one_indexed_line_and_range_rules() {
    let cases = [
        ((0, 1), (1, 1), "line and column are one-indexed"),
        ((1, 0), (1, 1), "line and column are one-indexed"),
        ((3, 1), (3, 1), "line is outside the source file"),
        ((1, 4), (1, 4), "column is outside the source line"),
        ((2, 1), (2, 1), "column is outside the source line"),
        ((1, 2), (1, 1), "the inclusive end precedes the beginning"),
        (
            (1, usize::MAX),
            (1, usize::MAX),
            "column is outside the source line",
        ),
    ];
    let usage = CompilerUsage::new(CompilerLimits::default(), cancellation());
    for (begin, end, expected) in cases {
        let span = source_span("lib.rs", begin, end);
        let mut resolver = SourceEndpointResolver::new(b"a\n");
        resolver.request(&span);
        let resolution = resolver.resolve(&usage, "lib.rs").expect("bounded source scan");
        let error = resolution
            .byte_range(&usage, &span)
            .expect_err("invalid coordinates fail closed");
        assert!(
            span_message(&error).contains(expected),
            "expected {expected:?}, got {error:?}"
        );
    }
}

#[test]
fn source_endpoint_storage_is_proportional_to_unique_requests() {
    let source = "a".repeat(1024 * 1024) + "é";
    let span = source_span("lib.rs", (1, 1024 * 1024 + 1), (1, 1024 * 1024 + 1));
    let usage = CompilerUsage::new(CompilerLimits::default(), cancellation());
    let mut resolver = SourceEndpointResolver::new(source.as_bytes());
    resolver.request(&span);
    resolver.request(&span);
    assert_eq!(resolver.requested_count(), 4);

    let resolution = resolver.resolve(&usage, "lib.rs").expect("one long source scan");
    assert_eq!(resolution.endpoints().len(), 1);
    assert!(resolution.endpoints().capacity() < source.len());
    assert_eq!(resolution.endpoints()[0].1, 1024 * 1024);
    assert_eq!(resolution.endpoints()[0].2, 1024 * 1024 + "é".len());
}

#[test]
fn source_endpoint_scan_observes_cancellation_before_long_line_work() {
    let application = ApplicationCancellation::new();
    let usage = CompilerUsage::new(
        CompilerLimits::default(),
        CompilerCancellation::from_flag(application.flag()),
    );
    application.request();
    let span = source_span("lib.rs", (1, 1), (1, 1));
    let source = vec![b'a'; 1024 * 1024];
    let mut resolver = SourceEndpointResolver::new(&source);
    resolver.request(&span);

    assert!(matches!(
        resolver.resolve(&usage, "lib.rs"),
        Err(CompilerError::CompilerExtractionCancelled)
    ));
}

fn source_item(id: u32, crate_id: u32, span: Option<(RustdocSourceSpan, Option<usize>)>) -> SourceItem {
    match span {
        Some((span, mapped_file)) => SourceItem {
            item_id: id,
            crate_id,
            span: Some(span),
            mapped_file,
        },
        None => SourceItem {
            item_id: id,
            crate_id,
            span: None,
            mapped_file: None,
        },
    }
}

fn translate(
    items: Vec<SourceItem>,
    files: Vec<MappedSourceFile>,
    limits: CompilerLimits,
) -> Result<Vec<CompilerSourcePath>, CompilerError> {
    let usage = CompilerUsage::new(limits, cancellation());
    translate_source_mappings(&usage, &items, &files, "lib.rs")
}

fn mapped(path: &str, bytes: &[u8]) -> MappedSourceFile {
    MappedSourceFile {
        path: path.to_owned(),
        bytes: bytes.to_vec(),
    }
}

#[test]
fn rustdoc_document_builds_sorted_exact_and_generated_source_mappings() {
    let source = b"pub fn caf\xc3\xa9() {}\r\n";
    let items = vec![
        source_item(0, 0, None),
        source_item(1, 0, None),
        source_item(9, 0, Some((source_span("/src/lib.rs", (1, 1), (1, 16)), Some(0)))),
    ];
    let mappings = translate(items, vec![mapped("lib.rs", source)], CompilerLimits::default())
        .expect("source mappings");

    assert_eq!(
        mappings
            .iter()
            .map(|mapping| mapping.rustdoc_item_id)
            .collect::<Vec<_>>(),
        [0, 1, 9]
    );
    assert!(matches!(
        &mappings[0].provenance,
        CompilerSourceProvenance::CompilerGenerated { crate_root } if crate_root == "lib.rs"
    ));
    match &mappings[2].provenance {
        CompilerSourceProvenance::Exact {
            file,
            byte_start,
            byte_end,
        } => {
            assert_eq!(file, "lib.rs");
            assert_eq!((*byte_start, *byte_end), (0, 17));
        }
        other => panic!("expected exact provenance, got {other:?}"),
    }
}

#[test]
fn source_mapping_omits_unallowlisted_and_external_items() {
    let items = vec![
        source_item(0, 0, None),
        source_item(9, 0, Some((source_span("/src/lib.rs", (1, 1), (1, 16)), Some(0)))),
        source_item(10, 0, Some((source_span("/src/private.rs", (1, 1), (1, 15)), None))),
        source_item(99, 1, Some((source_span("/external/lib.rs", (1, 1), (1, 1)), None))),
    ];
    let mappings = translate(
        items,
        vec![mapped("lib.rs", b"pub fn caf\xc3\xa9() {}\r\n")],
        CompilerLimits::default(),
    )
    .expect("omitted mappings");

    assert_eq!(
        mappings
            .iter()
            .map(|mapping| mapping.rustdoc_item_id)
            .collect::<Vec<_>>(),
        [0, 9]
    );
}

#[test]
fn source_mapping_preserves_invalid_span_before_limit_error_order() {
    let limits = CompilerLimits {
        source_mappings: 1,
        ..CompilerLimits::default()
    };
    for (column, invalid) in [(3, true), (1, false)] {
        let items = vec![
            source_item(0, 0, None),
            source_item(1, 0, Some((source_span("/src/lib.rs", (1, column), (1, column)), Some(0)))),
        ];
        let error = translate(items, vec![mapped("lib.rs", b"a\n")], limits)
            .expect_err("the second retained mapping exceeds or is invalid");
        if invalid {
            assert!(matches!(error, CompilerError::InvalidSourceSpan { .. }));
        } else {
            assert!(matches!(
                error,
                CompilerError::CompilerSemanticLimit {
                    resource: CompilerSemanticResource::SourceMappings,
                    limit: 1,
                    observed_at_least: 2,
                    ..
                }
            ));
        }
    }
}

#[test]
fn source_mapping_reports_earlier_coordinate_before_later_invalid_utf8() {
    let items = vec![
        source_item(0, 0, None),
        source_item(1, 0, Some((source_span("/src/a.rs", (1, 3), (1, 3)), Some(0)))),
        source_item(2, 0, Some((source_span("/src/b.rs", (1, 1), (1, 1)), Some(1)))),
    ];
    let error = translate(
        items,
        vec![mapped("a.rs", b"a\n"), mapped("b.rs", &[0xff])],
        CompilerLimits::default(),
    )
    .expect_err("earlier invalid coordinate must win");

    assert!(
        matches!(&error, CompilerError::InvalidSourceSpan { path, defect, .. } if path.ends_with("a.rs") && *defect == SpanDefect::ColumnOutsideLine)
    );
}

#[test]
fn source_mapping_reports_invalid_utf8_of_a_mapped_file() {
    let items = vec![source_item(
        4,
        0,
        Some((source_span("/src/b.rs", (1, 1), (1, 1)), Some(0))),
    )];
    let error = translate(items, vec![mapped("b.rs", &[0xff])], CompilerLimits::default())
        .expect_err("invalid UTF-8");
    assert!(matches!(error, CompilerError::InvalidMappedSourceUtf8 { path } if path == "/src/b.rs"));
}

#[test]
fn artifact_reads_stop_one_byte_past_the_smaller_limit() {
    let limits = CompilerLimits { artifact_bytes: 10, ..CompilerLimits::default() };
    let usage = CompilerUsage::new(limits, cancellation());
    assert_eq!(usage.artifact_read_limit(4), 5);
    assert_eq!(usage.artifact_read_limit(100), 11);
    assert_eq!(usage.artifact_read_limit(u64::MAX), 11);

    usage
        .admit_artifact(CompilerOperation::Rustdoc, "doc/a.json", 6, 6)
        .expect("within both limits");
    assert_eq!(usage.artifact_read_limit(100), 5);

    let error = usage
        .admit_artifact(CompilerOperation::Rustdoc, "doc/b.json", 3, 4)
        .expect_err("over the file limit");
    assert!(matches!(
        error,
        CompilerError::CompilerArtifactFileLimit { ref path, limit: 3, observed_at_least: 4, .. }
            if path == "doc/b.json"
    ));
    let error = usage
        .admit_artifact(CompilerOperation::Rustdoc, "doc/c.json", 100, 5)
        .expect_err("over the cumulative budget");
    assert!(matches!(
        error,
        CompilerError::CompilerArtifactLimit { limit: 10, observed_at_least: 11, .. }
    ));
}

#[test]
fn identity_defects_render_their_messages() {
    assert_eq!(
        IdentityDefect::MalformedField { line: "no separator".to_owned() }.message(),
        "malformed verbose-version field \"no separator\""
    );
    assert_eq!(
        IdentityDefect::MissingField { field: "host" }.message(),
        "missing verbose-version field \"host\""
    );
    assert_eq!(
        IdentityDefect::Banner.message(),
        "first line is not a canonical rustc version banner"
    );
}

#[test]
fn invalid_stdout_names_the_first_invalid_sequence() {
    let error = CargoOutput {
        stdout: vec![b'a', 0xff],
        stderr: Vec::new(),
    }
    .utf8_stdout(CompilerOperation::Metadata)
    .expect_err("invalid UTF-8");
    match error {
        CompilerError::NonUtf8ProcessOutput { message, .. } => {
            assert_eq!(message, "invalid utf-8 sequence of 1 bytes from index 1")
        }
        other => panic!("expected a UTF-8 failure, got {other:?}"),
    }
}

#[test]
fn default_durations_are_the_documented_cadences() {
    let limits = CompilerLimits::default();
    assert_eq!(limits.timeout, Duration::from_secs(600));
    assert_eq!(limits.cleanup_timeout, Duration::from_secs(2));
    assert_eq!(limits.poll_interval, Duration::from_millis(25));
    assert_eq!(limits.temporary_tree_scan_interval, Duration::from_secs(1));
}

#[test]
fn source_mapping_over_the_budget_ends_in_the_limit_error() {
    let limits = CompilerLimits {
        source_mappings: 2,
        ..CompilerLimits::default()
    };
    let items = vec![source_item(0, 0, None), source_item(1, 0, None), source_item(2, 0, None), source_item(3, 0, None)];
    let error = translate(items, Vec::new(), limits).expect_err("more retained items than the budget");
    assert!(matches!(
        error,
        CompilerError::CompilerSemanticLimit {
            resource: CompilerSemanticResource::SourceMappings,
            limit: 2,
            ..
        }
    ));
    let exact = vec![source_item(0, 0, None), source_item(1, 0, None)];
    assert_eq!(translate(exact, Vec::new(), limits).expect("within budget").len(), 2);
}
