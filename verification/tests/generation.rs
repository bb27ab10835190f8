use conkit::cancellation::ApplicationCancellation;
use conkit::error::CliError;
use conkit::generation::{
    admit_generation, collect_outputs, next_generation, preflight, validate_host_spellings,
    Destination, Expectation, GeneratedDocument, ObservedFile, PlannedMutation,
};
use conkit::ownership::{ContentDigest, OwnedCatalog, OwnedFile};

const MANIFEST: &str = "contracts/.contract-kit/generated-files.json";

fn digest(bytes: &[u8]) -> ContentDigest {
    ContentDigest::of(bytes, &ApplicationCancellation::new()).expect("digest")
}

fn owned(path: &str, bytes: &[u8]) -> OwnedFile {
    OwnedFile { path: path.to_owned(), sha256: digest(bytes) }
}

fn document(path: &str, bytes: &[u8]) -> GeneratedDocument {
    GeneratedDocument { path: path.to_owned(), bytes: bytes.to_vec() }
}

fn root() -> String {
    "contracts".to_owned()
}

fn at(bytes: &[u8], inode: u64) -> Option<Destination> {
    Some(Destination { digest: digest(bytes), identity: (1, inode) })
}

fn observed(file: OwnedFile, found: Option<Destination>) -> ObservedFile {
    ObservedFile { owned: file, found }
}

fn ownership_message(error: CliError) -> String {
    match error {
        CliError::InvalidGeneratedOwnership { path, message } => {
            assert_eq!(path, MANIFEST);
            message
        }
        other => panic!("unexpected error {other:?}"),
    }
}

#[test]
fn generated_catalog_accepts_direct_mixed_case_yaml_documents() {
    let documents = vec![document("Main.YAML", b"generated\n"), document("other.yml", b"x")];
    let files = collect_outputs(&documents, MANIFEST, &ApplicationCancellation::new())
        .expect("direct documents");
    assert_eq!(files, vec![owned("Main.YAML", b"generated\n"), owned("other.yml", b"x")]);
    assert_eq!(
        files[0].sha256.0,
        "9f5936ff15d3a2ba7d3d8f21858338a6c1e2adc9fe34c685c7de5b4a00caa29a"
    );
}

#[test]
fn generated_catalog_rejects_non_yaml_and_nested_paths() {
    for rejected in ["main.json", "nested/main.yml", ".yml"] {
        let documents = vec![document(rejected, b"x")];
        let error = collect_outputs(&documents, MANIFEST, &ApplicationCancellation::new())
            .expect_err("not a direct document");
        assert_eq!(
            ownership_message(error),
            format!("generated path {rejected} must be a direct root .yml or .yaml combined document")
        );
    }
}

#[test]
fn generated_catalog_rejects_ascii_case_collisions() {
    let documents = vec![
        document("Main.yml", b"a"),
        document("other.yml", b"b"),
        document("main.YML", b"c"),
    ];
    let error = collect_outputs(&documents, MANIFEST, &ApplicationCancellation::new())
        .expect_err("case collision");
    assert!(matches!(
        error,
        CliError::PortableGeneratedPathCollision { ref first, ref second }
            if first == "Main.yml" && second == "main.YML"
    ));
}

#[test]
fn collecting_outputs_observes_cancellation() {
    let cancellation = ApplicationCancellation::new();
    cancellation.request();
    let error = collect_outputs(&vec![document("a.yml", b"a")], MANIFEST, &cancellation)
        .expect_err("canceled");
    assert!(matches!(error, CliError::OperationCanceled));
    assert!(collect_outputs(&Vec::new(), MANIFEST, &cancellation).is_ok());
}

#[test]
fn requested_paths_reject_case_equivalent_host_entries() {
    let requested = vec!["main.yml".to_owned(), "other.yml".to_owned()];
    let siblings = vec![
        Some("OTHER.yml".to_owned()),
        Some("main.yml".to_owned()),
        None,
        Some("Other.YML".to_owned()),
    ];
    let error = validate_host_spellings(
        &root(),
        &requested,
        &siblings,
        &ApplicationCancellation::new(),
    )
    .expect_err("case-equivalent host entry");
    assert!(matches!(
        error,
        CliError::PortableGeneratedPathCollision { ref first, ref second }
            if first == "contracts/OTHER.yml" && second == "other.yml"
    ));

    let same = vec![Some("main.yml".to_owned()), Some("unrelated.yml".to_owned()), None];
    assert!(validate_host_spellings(&root(), &requested, &same, &ApplicationCancellation::new())
        .is_ok());
    assert!(validate_host_spellings(&root(), &Vec::new(), &siblings, &ApplicationCancellation::new())
        .is_ok());
}

#[test]
fn next_generation_counts_up_until_exhausted() {
    assert_eq!(next_generation(0, MANIFEST).expect("first"), 1);
    assert_eq!(next_generation(41, MANIFEST).expect("next"), 42);
    let error = next_generation(u64::MAX, MANIFEST).expect_err("exhausted");
    assert_eq!(ownership_message(error), "ownership generation is exhausted");
}

#[test]
fn admission_sorts_the_new_catalog_and_counts_the_generation() {
    let before = OwnedCatalog::from_files(vec![owned("a.yml", b"a")]);
    let outputs = vec![owned("z.yml", b"z"), owned("a.yml", b"A")];
    let (generation, after) = admit_generation(
        &root(),
        MANIFEST,
        3,
        &before,
        &outputs,
        &vec![Some("a.yml".to_owned())],
        &ApplicationCancellation::new(),
    )
    .expect("admitted");
    assert_eq!(generation, 4);
    assert_eq!(after.documents, vec![owned("a.yml", b"A"), owned("z.yml", b"z")]);
}

#[test]
fn temporal_ascii_case_change_is_rejected() {
    let before = OwnedCatalog::from_files(vec![owned("Main.yml", b"before\n")]);
    let outputs = vec![owned("main.yml", b"after\n")];
    let error = admit_generation(
        &root(),
        MANIFEST,
        1,
        &before,
        &outputs,
        &Vec::new(),
        &ApplicationCancellation::new(),
    )
    .expect_err("case-only change");
    assert!(matches!(
        error,
        CliError::CaseOnlyGeneratedPathChange { ref previous, ref current }
            if previous == "Main.yml" && current == "main.yml"
    ));
}

#[test]
fn admission_reports_host_spellings_and_exhaustion_in_order() {
    let outputs = vec![owned("main.yml", b"x")];
    let error = admit_generation(
        &root(),
        MANIFEST,
        u64::MAX,
        &OwnedCatalog::default(),
        &outputs,
        &vec![Some("MAIN.yml".to_owned())],
        &ApplicationCancellation::new(),
    )
    .expect_err("host spelling");
    assert!(matches!(error, CliError::PortableGeneratedPathCollision { .. }));
    let error = admit_generation(
        &root(),
        MANIFEST,
        u64::MAX,
        &OwnedCatalog::default(),
        &outputs,
        &Vec::new(),
        &ApplicationCancellation::new(),
    )
    .expect_err("exhausted");
    assert_eq!(ownership_message(error), "ownership generation is exhausted");
}

#[test]
fn preflight_writes_missing_and_changed_outputs_and_removes_stale_ones() {
    let outputs = vec![
        observed(owned("current.yaml", b"new\n"), at(b"old\n", 10)),
        observed(owned("fresh.yaml", b"fresh\n"), None),
        observed(owned("same.yaml", b"same\n"), at(b"same\n", 11)),
    ];
    let previous = vec![
        observed(owned("current.yaml", b"old\n"), None),
        observed(owned("same.yaml", b"same\n"), None),
        observed(owned("stale.yaml", b"stale\n"), at(b"stale\n", 12)),
        observed(owned("gone.yaml", b"gone\n"), None),
    ];
    let plan = preflight(&root(), &outputs, &previous, false, &ApplicationCancellation::new())
        .expect("preflight");
    assert_eq!(plan.adopted, 0);
    assert_eq!(
        plan.mutations,
        vec![
            PlannedMutation::Write { output: 0, expected: Expectation::Digest(digest(b"old\n")) },
            PlannedMutation::Write { output: 1, expected: Expectation::Missing },
            PlannedMutation::Remove { owned: 2 },
        ]
    );
}

#[test]
fn modified_current_and_stale_outputs_fail_preflight() {
    let outputs = vec![observed(owned("current.yaml", b"new\n"), at(b"edited\n", 10))];
    let previous = vec![observed(owned("current.yaml", b"old\n"), None)];
    let error = preflight(&root(), &outputs, &previous, false, &ApplicationCancellation::new())
        .err()
        .expect("edited owned output");
    assert!(matches!(
        error,
        CliError::ModifiedGeneratedOutput { ref path } if path == "contracts/current.yaml"
    ));

    let previous = vec![observed(owned("stale.yaml", b"stale\n"), at(b"edited\n", 12))];
    let error = preflight(&root(), &Vec::new(), &previous, false, &ApplicationCancellation::new())
        .err()
        .expect("edited stale output");
    assert!(matches!(
        error,
        CliError::ModifiedGeneratedOutput { ref path } if path == "contracts/stale.yaml"
    ));
}

#[test]
fn unowned_outputs_are_refused_unless_matching_and_adopted() {
    let outputs = vec![observed(owned("main.yml", b"generated\n"), at(b"generated\n", 3))];
    let error = preflight(&root(), &outputs, &Vec::new(), false, &ApplicationCancellation::new())
        .err()
        .expect("unowned");
    assert!(matches!(
        error,
        CliError::UnownedGeneratedOutput { ref path } if path == "contracts/main.yml"
    ));
    let plan = preflight(&root(), &outputs, &Vec::new(), true, &ApplicationCancellation::new())
        .expect("adopted");
    assert_eq!(plan.adopted, 1);
    assert!(plan.mutations.is_empty());

    let different = vec![observed(owned("main.yml", b"generated\n"), at(b"manual\n", 3))];
    assert!(preflight(&root(), &different, &Vec::new(), true, &ApplicationCancellation::new())
        .is_err());
}

#[test]
fn requested_and_stale_outputs_are_rejected_when_they_alias() {
    let outputs = vec![observed(owned("a.yml", b"new\n"), at(b"a\n", 7))];
    let previous = vec![
        observed(owned("a.yml", b"a\n"), None),
        observed(owned("b.yml", b"b\n"), at(b"b\n", 7)),
    ];
    let error = preflight(&root(), &outputs, &previous, false, &ApplicationCancellation::new())
        .err()
        .expect("alias");
    assert!(matches!(
        error,
        CliError::GeneratedOutputAlias { ref first, ref second }
            if first == "contracts/a.yml" && second == "contracts/b.yml"
    ));

    let outputs = vec![
        observed(owned("a.yml", b"a\n"), at(b"a\n", 9)),
        observed(owned("b.yml", b"b\n"), at(b"b\n", 9)),
    ];
    let previous = vec![
        observed(owned("a.yml", b"a\n"), None),
        observed(owned("b.yml", b"b\n"), None),
    ];
    let error = preflight(&root(), &outputs, &previous, false, &ApplicationCancellation::new())
        .err()
        .expect("hard link");
    assert!(matches!(error, CliError::GeneratedOutputAlias { .. }));
}
