use conkit::cancellation::ApplicationCancellation;
use conkit::error::CliError;
use conkit::ownership::{ContentDigest, FoundFile, OwnedCatalog, OwnedFile, OwnershipJournal};
use conkit::recovery::{plan_recovery, recovered_manifest, recovery_paths, ObservedPath};

fn digest(bytes: &[u8]) -> ContentDigest {
    ContentDigest::of(bytes, &ApplicationCancellation::new()).expect("digest")
}

fn owned(path: &str, bytes: &[u8]) -> OwnedFile {
    OwnedFile { path: path.to_owned(), sha256: digest(bytes) }
}

fn found(bytes: &[u8], marker: bool) -> Option<FoundFile> {
    Some(FoundFile { digest: digest(bytes), is_reservation_marker: marker })
}

fn observed(path: &str, found: Option<FoundFile>) -> ObservedPath {
    ObservedPath { path: path.to_owned(), found }
}

fn interrupted_update() -> (OwnedCatalog, OwnedCatalog) {
    let before = OwnedCatalog::from_files(vec![
        owned("current.yaml", b"old\n"),
        owned("stale.yaml", b"stale\n"),
    ]);
    let after = OwnedCatalog::from_files(vec![
        owned("current.yaml", b"partially written\n"),
        owned("new.yaml", b"planned new\n"),
    ]);
    (before, after)
}

#[test]
fn recovery_paths_are_the_sorted_union_of_both_sides() {
    let (before, after) = interrupted_update();
    assert_eq!(
        recovery_paths(&before, &after),
        vec!["current.yaml".to_owned(), "new.yaml".to_owned(), "stale.yaml".to_owned()]
    );
    assert!(recovery_paths(&OwnedCatalog::default(), &OwnedCatalog::default()).is_empty());
}

#[test]
fn find_returns_the_document_at_an_exact_path() {
    let (before, _) = interrupted_update();
    assert_eq!(before.find("stale.yaml"), Some(&owned("stale.yaml", b"stale\n")));
    assert_eq!(before.find("Stale.yaml"), None);
    assert_eq!(before.find("missing.yaml"), None);
}

#[test]
fn recovery_keeps_partial_writes_and_releases_reservations() {
    let (before, after) = interrupted_update();
    let paths = recovery_paths(&before, &after);
    let observations = vec![
        observed(&paths[0], found(b"partially written\n", false)),
        observed(&paths[1], found(b"{\"version\":3}\n", true)),
        observed(&paths[2], None),
    ];
    let plan = plan_recovery(&"contracts".to_owned(), &before, &after, &observations)
        .expect("recoverable update");
    assert_eq!(plan.recovered, vec![owned("current.yaml", b"partially written\n")]);
    assert_eq!(plan.released, vec!["new.yaml".to_owned()]);

    let (manifest, released) = recovered_manifest(
        7,
        plan,
        "contracts/.contract-kit/generated-files.json",
        &ApplicationCancellation::new(),
    )
    .expect("valid recovered catalog");
    assert_eq!(released, vec!["new.yaml".to_owned()]);
    match manifest.journal {
        OwnershipJournal::Committed { generation, files } => {
            assert_eq!(generation, 7);
            assert_eq!(files.documents, vec![owned("current.yaml", b"partially written\n")]);
        }
        other => panic!("unexpected journal {other:?}"),
    }
}

#[test]
fn recovery_keeps_the_previous_document_and_drops_completed_removals() {
    let (before, after) = interrupted_update();
    let observations = vec![
        observed("current.yaml", found(b"old\n", false)),
        observed("new.yaml", None),
        observed("stale.yaml", found(b"stale\n", false)),
    ];
    let plan = plan_recovery(&"contracts".to_owned(), &before, &after, &observations)
        .expect("recoverable update");
    assert_eq!(
        plan.recovered,
        vec![owned("current.yaml", b"old\n"), owned("stale.yaml", b"stale\n")]
    );
    assert!(plan.released.is_empty());
}

#[test]
fn missing_file_owned_on_both_sides_stays_owned_as_the_target() {
    let (before, after) = interrupted_update();
    let observations = vec![observed("current.yaml", None)];
    let plan = plan_recovery(&"contracts".to_owned(), &before, &after, &observations)
        .expect("recoverable update");
    assert_eq!(plan.recovered, vec![owned("current.yaml", b"partially written\n")]);
}

#[test]
fn reservation_of_a_replaced_document_keeps_the_previous_one() {
    let (before, after) = interrupted_update();
    let observations = vec![observed("current.yaml", found(b"marker", true))];
    let plan = plan_recovery(&"contracts".to_owned(), &before, &after, &observations)
        .expect("recoverable update");
    assert_eq!(plan.recovered, vec![owned("current.yaml", b"old\n")]);
    assert_eq!(plan.released, vec!["current.yaml".to_owned()]);
}

#[test]
fn external_bytes_at_a_recorded_path_are_a_conflict() {
    let (before, after) = interrupted_update();
    let observations = vec![
        observed("current.yaml", found(b"old\n", false)),
        observed("new.yaml", found(b"external\n", false)),
        observed("stale.yaml", found(b"also external\n", false)),
    ];
    let error = plan_recovery(&"contracts".to_owned(), &before, &after, &observations)
        .err()
        .expect("conflict");
    assert!(matches!(
        error,
        CliError::GeneratedOwnershipRecoveryConflict { ref path } if path == "contracts/new.yaml"
    ));
}

#[test]
fn recovered_manifest_rejects_an_invalid_recovered_catalog() {
    let before = OwnedCatalog { documents: vec![owned("notes.txt", b"x")] };
    let after = OwnedCatalog::default();
    let observations = vec![observed("notes.txt", found(b"x", false))];
    let plan = plan_recovery(&"contracts".to_owned(), &before, &after, &observations)
        .expect("plan");
    let error = recovered_manifest(2, plan, "m.json", &ApplicationCancellation::new())
        .err()
        .expect("invalid path");
    assert!(matches!(
        error,
        CliError::InvalidGeneratedOwnership { ref message, .. }
            if message == "owned document path notes.txt must be a direct root .yml or .yaml combined document"
    ));
}
