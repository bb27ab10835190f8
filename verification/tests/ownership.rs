use conkit::cancellation::ApplicationCancellation;
use conkit::error::CliError;
use conkit::ownership::{
    ownership_manifest_path, path_error_message, recovery_decision, ContentDigest, FoundFile,
    OwnedCatalog, OwnedFile, OwnershipJournal, OwnershipManifest, RecoveryDecision, VersionProbe,
    ATOMIC_TEMPORARY_SUFFIX_LENGTH, OWNERSHIP_DIRECTORY, OWNERSHIP_FILE_NAME,
    OWNERSHIP_TEMPORARY_PREFIX, OWNERSHIP_VERSION,
};

fn digest(text: &str) -> ContentDigest {
    ContentDigest(text.to_owned())
}

fn owned(path: &str, bytes: &[u8]) -> OwnedFile {
    OwnedFile {
        path: path.to_owned(),
        sha256: ContentDigest::of(bytes, &ApplicationCancellation::new()).expect("digest"),
    }
}

fn validate(manifest: &OwnershipManifest) -> Result<(), CliError> {
    manifest.validate("generated-files.json", &ApplicationCancellation::new())
}

fn ownership_message(error: &CliError) -> String {
    match error {
        CliError::InvalidGeneratedOwnership { path, message } => {
            assert_eq!(path, "generated-files.json");
            message.clone()
        }
        other => panic!("unexpected error {other:?}"),
    }
}

#[test]
fn content_digest_is_lowercase_hex_sha256() {
    let computed = ContentDigest::of(b"generated\n", &ApplicationCancellation::new())
        .expect("digest");
    assert_eq!(
        computed.0,
        "9f5936ff15d3a2ba7d3d8f21858338a6c1e2adc9fe34c685c7de5b4a00caa29a"
    );
    assert!(computed.validate("generated-files.json").is_ok());
    let empty = ContentDigest::of(b"", &ApplicationCancellation::new()).expect("digest");
    assert_eq!(
        empty.0,
        "e3b0c44298fc1c149afbf4c8996fb92427ae41e4649b934ca495991b7852b855"
    );
}

#[test]
fn ownership_rejects_unknown_fields_and_uppercase_digest_bytes() {
    let error = digest(&"A".repeat(64))
        .validate("generated-files.json")
        .expect_err("uppercase digest");
    assert!(matches!(
        error,
        CliError::InvalidGeneratedOwnership { ref path, ref message }
            if path == "generated-files.json" && message.contains("invalid SHA-256 digest")
    ));
    assert!(digest(&"0".repeat(63)).validate("m").is_err());
    assert!(digest(&"0".repeat(65)).validate("m").is_err());
    assert!(digest("INVALID").validate("m").is_err());
    assert!(digest(&"0".repeat(64)).validate("m").is_ok());
}

#[test]
fn ownership_hashing_and_validation_observe_cancellation() {
    let cancellation = ApplicationCancellation::new();
    cancellation.request();
    let digest_error = ContentDigest::of(b"generated\n", &cancellation)
        .expect_err("pre-canceled hashing must stop");

    let manifest = OwnershipManifest::committed(1, OwnedCatalog::default());
    let manifest_error = manifest
        .validate("generated-files.json", &cancellation)
        .expect_err("pre-canceled ownership validation must stop");

    assert!(matches!(digest_error, CliError::OperationCanceled));
    assert!(matches!(manifest_error, CliError::OperationCanceled));
}

#[test]
fn ownership_versions_are_probed_and_obsolete_versions_are_not_migrated() {
    let probe = VersionProbe { version: 2 };
    assert_eq!(probe.version(), 2);
}

#[test]
fn interrupted_update_recovery_decides_each_path() {
    let a = || Some(digest(&"a".repeat(64)));
    let b = || Some(digest(&"b".repeat(64)));
    let found = |d: Option<ContentDigest>, marker: bool| {
        d.map(|digest| FoundFile {
            digest,
            is_reservation_marker: marker,
        })
    };
    assert_eq!(recovery_decision(&found(b(), false), &a(), &b()), RecoveryDecision::KeepNext);
    assert_eq!(recovery_decision(&found(a(), false), &a(), &b()), RecoveryDecision::KeepPrevious);
    assert_eq!(
        recovery_decision(&found(Some(digest(&"c".repeat(64))), true), &a(), &b()),
        RecoveryDecision::ReleaseReservation { keep_previous: true }
    );
    assert_eq!(
        recovery_decision(&found(Some(digest(&"c".repeat(64))), true), &None, &b()),
        RecoveryDecision::ReleaseReservation { keep_previous: false }
    );
    assert_eq!(
        recovery_decision(&found(Some(digest(&"c".repeat(64))), false), &a(), &b()),
        RecoveryDecision::Conflict
    );
    assert_eq!(
        recovery_decision(&found(Some(digest(&"c".repeat(64))), true), &a(), &None),
        RecoveryDecision::Conflict
    );
    assert_eq!(recovery_decision(&None, &a(), &b()), RecoveryDecision::KeepNext);
    assert_eq!(recovery_decision(&None, &None, &b()), RecoveryDecision::Forget);
    assert_eq!(recovery_decision(&None, &a(), &None), RecoveryDecision::Forget);
}

#[test]
fn ownership_accepts_only_direct_root_yaml_documents() {
    for accepted in ["main.yml", "main.YAML", "MAIN.YmL"] {
        let manifest = OwnershipManifest::committed(
            1,
            OwnedCatalog::from_files(vec![owned(accepted, b"generated\n")]),
        );
        validate(&manifest).expect("direct YAML document ownership");
    }

    for rejected in ["manual.txt", "main.json", "nested/main.yml"] {
        let manifest = OwnershipManifest::committed(
            1,
            OwnedCatalog::from_files(vec![owned(rejected, b"generated\n")]),
        );
        let error = validate(&manifest).expect_err("non-document ownership must fail");
        assert!(
            ownership_message(&error)
                .contains("must be a direct root .yml or .yaml combined document"),
            "unexpected error for {rejected}: {error:?}"
        );
    }
}

#[test]
fn ownership_rejects_duplicate_and_ascii_case_equivalent_paths() {
    let duplicate = OwnedCatalog::from_files(vec![
        owned("main.yml", b"first\n"),
        owned("main.yml", b"second\n"),
    ]);
    let duplicate = validate(&OwnershipManifest::committed(1, duplicate))
        .expect_err("exact duplicate path");
    assert!(matches!(
        duplicate,
        CliError::InvalidGeneratedOwnership { message, .. }
            if message == "owned document paths must be unique and sorted"
    ));

    let case_equivalent = OwnedCatalog::from_files(vec![
        owned("Main.yml", b"first\n"),
        owned("main.YML", b"second\n"),
    ]);
    let case_equivalent = validate(&OwnershipManifest::committed(1, case_equivalent))
        .expect_err("ASCII-case-equivalent path");
    assert!(matches!(
        case_equivalent,
        CliError::PortableGeneratedPathCollision { first, second }
            if first == "Main.yml" && second == "main.YML"
    ));
}

#[test]
fn updating_ownership_rejects_case_only_path_transitions() {
    let before = OwnedCatalog::from_files(vec![owned("Main.yml", b"before\n")]);
    let after = OwnedCatalog::from_files(vec![owned("main.yml", b"after\n")]);

    let manifest = OwnershipManifest::updating(2, before, after);
    let error = validate(&manifest).expect_err("case-only transition");

    assert!(matches!(
        error,
        CliError::CaseOnlyGeneratedPathChange { ref previous, ref current }
            if previous == "Main.yml" && current == "main.yml"
    ));
}

#[test]
fn ownership_manifest_constants_name_the_version_three_namespace() {
    assert_eq!(OWNERSHIP_VERSION, 3);
    assert_eq!(OWNERSHIP_DIRECTORY, ".contract-kit");
    assert_eq!(OWNERSHIP_FILE_NAME, "generated-files.json");
    assert_eq!(OWNERSHIP_TEMPORARY_PREFIX, ".generated-files.json.");
    assert_eq!(ATOMIC_TEMPORARY_SUFFIX_LENGTH, 6);
    assert_eq!(
        ownership_manifest_path(&"contracts".to_owned()),
        "contracts/.contract-kit/generated-files.json"
    );
}

#[test]
fn committed_and_updating_manifests_carry_the_current_version() {
    let committed = OwnershipManifest::committed(4, OwnedCatalog::default());
    assert_eq!(committed.version, OWNERSHIP_VERSION);
    assert!(!committed.is_updating());
    assert!(matches!(committed.journal, OwnershipJournal::Committed { generation: 4, .. }));
    let updating = OwnershipManifest::updating(5, OwnedCatalog::default(), OwnedCatalog::default());
    assert!(updating.is_updating());
    assert!(validate(&committed).is_ok());
    assert!(validate(&updating).is_ok());
}

#[test]
fn manifest_generation_zero_and_other_versions_are_rejected() {
    let zero = OwnershipManifest::committed(0, OwnedCatalog::default());
    assert_eq!(
        ownership_message(&validate(&zero).expect_err("zero generation")),
        "ownership generation must be greater than zero"
    );
    let zero_update =
        OwnershipManifest::updating(0, OwnedCatalog::default(), OwnedCatalog::default());
    assert!(validate(&zero_update).is_err());
    let mut obsolete = OwnershipManifest::committed(1, OwnedCatalog::default());
    obsolete.version = 2;
    assert_eq!(
        ownership_message(&validate(&obsolete).expect_err("obsolete version")),
        "unsupported ownership version 2"
    );
}

#[test]
fn manifest_reports_invalid_digests_and_reserved_paths() {
    let catalog = OwnedCatalog {
        documents: vec![OwnedFile { path: "main.yml".to_owned(), sha256: digest("INVALID") }],
    };
    let error = validate(&OwnershipManifest::committed(1, catalog)).expect_err("digest");
    assert_eq!(ownership_message(&error), "invalid SHA-256 digest \"INVALID\"");

    let reserved = OwnedCatalog::from_files(vec![owned(".contract-kit/main.yml", b"x")]);
    let error = validate(&OwnershipManifest::committed(1, reserved)).expect_err("reserved");
    assert_eq!(
        ownership_message(&error),
        "reserved ownership path .contract-kit/main.yml"
    );
}

#[test]
fn unsorted_catalog_is_rejected_and_from_files_sorts_stably() {
    let unsorted = OwnedCatalog {
        documents: vec![owned("b.yml", b"b"), owned("a.yml", b"a")],
    };
    let error = validate(&OwnershipManifest::committed(1, unsorted)).expect_err("unsorted");
    assert_eq!(ownership_message(&error), "owned document paths must be unique and sorted");

    let first = owned("m.yml", b"first");
    let second = owned("m.yml", b"second");
    let sorted = OwnedCatalog::from_files(vec![
        owned("z.yml", b"z"),
        first.clone(),
        owned("a.yml", b"a"),
        second.clone(),
    ]);
    let paths: Vec<&str> = sorted.documents.iter().map(|d| d.path.as_str()).collect();
    assert_eq!(paths, vec!["a.yml", "m.yml", "m.yml", "z.yml"]);
    assert_eq!(sorted.documents[1], first);
    assert_eq!(sorted.documents[2], second);
}

#[test]
fn valid_updating_manifest_with_renamed_document_is_accepted() {
    let before = OwnedCatalog::from_files(vec![owned("old.yml", b"before\n")]);
    let after = OwnedCatalog::from_files(vec![owned("new.yml", b"after\n")]);
    assert!(validate(&OwnershipManifest::updating(3, before, after)).is_ok());
}

#[test]
fn persisted_path_errors_are_recognised() {
    assert_eq!(
        path_error_message("invalid persisted ownership path: path `../x` escapes at line 3 column 9"),
        Some("path `../x` escapes".to_owned())
    );
    assert_eq!(
        path_error_message("invalid persisted ownership path: bad"),
        Some("bad".to_owned())
    );
    assert_eq!(path_error_message("missing field `version`"), None);
}
