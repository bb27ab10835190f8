use conkit::compiler::project::{is_rustdoc_json, rustdoc_json_name, select_rustdoc_json};
use conkit::args::{CargoFeatures, CargoTarget, CompilerRequest, CrateRootArg, RustCrateKind};
use conkit::compiler::error::{CompilerError, TargetRequest};
use conkit::compiler::process::{CargoProgram, COMPILER_EXTRACTOR_VERSION};
use conkit::compiler::project::{
    append_feature_arguments, check_private_items, check_rustdoc_target, comma_join,
    metadata_arguments, package_id_arguments, parse_cargo_metadata, select_package, sorted_distinct,
    validate_expected_crates, CargoMetadata, CargoProject, CompilerCrateSelection,
    MetadataPackage, MetadataTarget, ResolveNode,
};

const SAMPLE_ID: &str = "path+file:///workspace#sample@0.1.0";

fn strings(values: &[&str]) -> Vec<String> {
    values.iter().map(|value| (*value).to_owned()).collect()
}

fn target(name: &str, kind: &str, src_path: &str) -> MetadataTarget {
    MetadataTarget {
        name: name.to_owned(),
        kinds: strings(&[kind]),
        crate_types: strings(&[kind]),
        src_path: src_path.to_owned(),
    }
}

fn sample_package() -> MetadataPackage {
    MetadataPackage {
        id: SAMPLE_ID.to_owned(),
        name: "sample".to_owned(),
        targets: vec![
            target("sample", "lib", "/workspace/src/lib.rs"),
            target("sample-cli", "bin", "/workspace/src/main.rs"),
        ],
        feature_names: strings(&["default", "serde"]),
    }
}

fn metadata() -> CargoMetadata {
    CargoMetadata {
        packages: vec![sample_package()],
        root_package: Some(SAMPLE_ID.to_owned()),
        workspace_default_members: Some(strings(&[SAMPLE_ID])),
        resolve_nodes: vec![ResolveNode {
            id: SAMPLE_ID.to_owned(),
            features: strings(&["serde"]),
        }],
    }
}

fn request_with_target(target_triple: Option<&str>) -> CompilerRequest {
    CompilerRequest {
        manifest: "/workspace/Cargo.toml".to_owned(),
        package: None,
        target: CargoTarget::Automatic,
        features: CargoFeatures::Selected {
            names: Vec::new(),
            include_default: false,
        },
        target_triple: target_triple.map(str::to_owned),
    }
}

fn request() -> CompilerRequest {
    request_with_target(Some("x86_64-unknown-linux-gnu"))
}

fn manifest() -> String {
    "/workspace/Cargo.toml".to_owned()
}

fn target_directory() -> String {
    "/temporary/target".to_owned()
}

fn select_automatic(metadata: &CargoMetadata) -> CargoProject {
    CargoProject::select(metadata, &None, &CargoTarget::Automatic).expect("selected library target")
}

#[test]
fn cargo_project_prefers_the_sole_library_without_an_explicit_target() {
    let project = select_automatic(&metadata());

    assert_eq!(project.package_name, "sample");
    assert_eq!(project.target_name, "sample");
    assert_eq!(project.kind, RustCrateKind::Library);
    assert_eq!(project.crate_types, ["lib"]);
    assert_eq!(project.features, ["serde"]);
}

#[test]
fn cargo_project_requires_an_explicit_package_for_multiple_workspace_defaults() {
    let first_id = "path+file:///workspace#sample@0.1.0";
    let second_id = "path+file:///workspace/second#second@0.1.0";
    let mut metadata = metadata();
    let mut second = sample_package();
    second.name = "second".to_owned();
    second.id = second_id.to_owned();
    metadata.packages.push(second);
    metadata.workspace_default_members = Some(strings(&[first_id, second_id]));
    metadata.root_package = None;

    let error = CargoProject::select(&metadata, &None, &CargoTarget::Automatic)
        .err()
        .expect("multiple default packages require --package");

    match error {
        CompilerError::AmbiguousPackage { candidates } => {
            assert_eq!(candidates, ["sample", "second"]);
        }
        other => panic!("expected ambiguous-package error, got {other:?}"),
    }
}

#[test]
fn rustdoc_json_flags_are_forwarded_after_cargos_argument_delimiter() {
    let project = select_automatic(&metadata());
    let arguments = project.rustdoc_arguments(&request(), &manifest(), &target_directory());
    let delimiter = arguments
        .iter()
        .position(|argument| argument == "--")
        .expect("rustdoc argument delimiter");

    assert_eq!(
        &arguments[delimiter + 1..],
        [
            "-Z",
            "unstable-options",
            "--output-format",
            "json",
            "--document-hidden-items"
        ]
    );
    assert!(!arguments
        .iter()
        .any(|argument| argument == "--document-private-items"));
}

#[test]
fn every_cargo_operation_is_locked_and_uses_the_pinned_toolchain() {
    let request = request();
    let project = CargoProject::select(&metadata(), &None, &request.target).expect("selected library target");
    let command_arguments = [
        metadata_arguments(&request, &manifest(), None),
        package_id_arguments(&manifest(), &"sample".to_owned()),
        project.rustc_arguments(&request, &manifest(), &target_directory(), &None, &strings(&["-vV"])),
        project.rustdoc_arguments(&request, &manifest(), &target_directory()),
    ];

    assert_eq!(CargoProgram::supported().prefix, ["+nightly-2026-07-01"]);
    for arguments in command_arguments {
        assert_eq!(arguments.get(1).map(String::as_str), Some("--locked"));
    }
    assert_eq!(COMPILER_EXTRACTOR_VERSION, "conkit-rustdoc-json-v1");
}

#[test]
fn typed_feature_modes_preserve_metadata_and_target_arguments() {
    let project = select_automatic(&metadata());
    let selected = strings(&["serde"]);
    let cases = [
        (CargoFeatures::Default, vec!["--features", "sample/default"], Vec::new()),
        (
            CargoFeatures::Selected {
                names: selected.clone(),
                include_default: true,
            },
            vec!["--features", "sample/default,sample/serde"],
            vec!["--features", "serde"],
        ),
        (
            CargoFeatures::Selected {
                names: selected.clone(),
                include_default: false,
            },
            vec!["--features", "sample/serde", "--no-default-features"],
            vec!["--features", "serde", "--no-default-features"],
        ),
        (CargoFeatures::All, vec!["--all-features"], vec!["--all-features"]),
    ];

    for (features, expected_metadata, expected_target) in cases {
        let mut metadata_arguments = Vec::new();
        append_feature_arguments(&features, &project, &mut metadata_arguments);
        let request = CompilerRequest {
            manifest: manifest(),
            package: None,
            target: CargoTarget::Automatic,
            features,
            target_triple: None,
        };
        let mut target_arguments = Vec::new();
        project.append_cargo_selection(&request, &manifest(), &None, &mut target_arguments);
        assert_eq!(metadata_arguments, expected_metadata);
        assert_eq!(&target_arguments[5..], expected_target.as_slice());
    }
}

#[test]
fn cargo_project_requires_an_explicit_choice_for_multiple_binary_targets() {
    let mut metadata = metadata();
    let package = metadata.packages.first_mut().expect("fixture package");
    package
        .targets
        .retain(|target| target.kinds.iter().any(|kind| kind == "bin"));
    let mut duplicate = package.targets[0].clone();
    duplicate.name = "second-cli".to_owned();
    package.targets.push(duplicate);

    let selected = CargoProject::select(&metadata, &None, &CargoTarget::Binary("second-cli".to_owned()))
        .expect("explicit binary target");
    assert_eq!(selected.target_name, "second-cli");
    assert_eq!(selected.kind, RustCrateKind::Binary);

    let error = CargoProject::select(&metadata, &None, &CargoTarget::Automatic)
        .err()
        .expect("two binaries are ambiguous without --bin");

    assert!(matches!(error, CompilerError::AmbiguousTarget { .. }));
}

#[test]
fn json_target_drives_the_followup_cfg_query_when_no_target_was_requested() {
    let request = request_with_target(None);
    let project = CargoProject::select(&metadata(), &None, &request.target).expect("selected library target");
    let arguments = project.rustc_arguments(
        &request,
        &manifest(),
        &target_directory(),
        &Some("aarch64-unknown-linux-gnu".to_owned()),
        &strings(&["--print", "cfg"]),
    );
    let target = arguments
        .windows(2)
        .find(|pair| pair[0] == "--target")
        .expect("authoritative target argument");

    assert_eq!(target[1], "aarch64-unknown-linux-gnu");
}

#[test]
fn expected_compiler_root_validation_rejects_multiple_roots() {
    let expected = [
        CrateRootArg::from_str("first=library:lib.rs").expect("first root"),
        CrateRootArg::from_str("second=library:second.rs").expect("second root"),
    ];
    let error = validate_expected_crates(Some(&expected))
        .err()
        .expect("aggregate root count must fail during preflight");

    assert!(matches!(
        error,
        CompilerError::CompilerCrateCount {
            expected: 1,
            actual: 2,
        }
    ));
}

#[test]
fn rustdoc_private_item_flag_matches_cargo_target_kind() {
    for (target, includes_private, accepted) in [
        (RustCrateKind::Library, false, true),
        (RustCrateKind::Library, true, false),
        (RustCrateKind::Binary, true, true),
        (RustCrateKind::Binary, false, false),
    ] {
        let result = check_private_items(target, includes_private);
        if accepted {
            result.expect("Cargo-consistent private-item flag");
        } else {
            assert!(matches!(
                result,
                Err(CompilerError::RustdocPrivateItemsMismatch { .. })
            ));
        }
    }
}

#[test]
fn expected_crate_selection_keeps_the_one_root() {
    assert!(matches!(validate_expected_crates(None), Ok(CompilerCrateSelection::Inferred)));
    let expected = [CrateRootArg::from_str("only=binary:src/main.rs").expect("root")];
    match validate_expected_crates(Some(&expected)) {
        Ok(CompilerCrateSelection::Expected(root)) => assert_eq!(root.id(), "only"),
        _ => panic!("one expected root is accepted"),
    }
    assert!(matches!(
        validate_expected_crates(Some(&[])),
        Err(CompilerError::CompilerCrateCount { expected: 1, actual: 0 })
    ));
}

#[test]
fn requested_package_id_wins_and_a_missing_one_is_reported() {
    let metadata = metadata();
    assert_eq!(select_package(&metadata, &Some(SAMPLE_ID.to_owned())).expect("requested id"), 0);
    match select_package(&metadata, &Some("missing".to_owned())) {
        Err(CompilerError::ResolvedPackageMissing { id }) => assert_eq!(id, "missing"),
        other => panic!("expected a missing package, got {other:?}"),
    }
}

#[test]
fn unavailable_default_members_are_reported_without_a_root() {
    let mut metadata = metadata();
    metadata.root_package = None;
    metadata.workspace_default_members = None;
    assert!(matches!(
        CargoProject::select(&metadata, &None, &CargoTarget::Automatic),
        Err(CompilerError::WorkspaceDefaultMembersUnavailable)
    ));
}

#[test]
fn missing_library_and_binary_name_are_reported_by_request() {
    let mut metadata = metadata();
    metadata.packages[0].targets.retain(|target| target.name == "sample-cli");
    assert!(matches!(
        CargoProject::select(&metadata, &None, &CargoTarget::Library),
        Err(CompilerError::TargetMissing { requested: TargetRequest::Library })
    ));
    match CargoProject::select(&metadata, &None, &CargoTarget::Binary("other".to_owned())) {
        Err(CompilerError::TargetMissing { requested: TargetRequest::NamedBinary(name) }) => {
            assert_eq!(name, "other")
        }
        other => panic!("expected a missing binary, got {other:?}"),
    }
    let project = select_automatic(&metadata);
    assert_eq!(project.kind, RustCrateKind::Binary);
    assert_eq!(project.target_root, "/workspace/src/main.rs");
}

#[test]
fn selection_arguments_name_the_binary_and_the_requested_platform() {
    let mut project = select_automatic(&metadata());
    project.kind = RustCrateKind::Binary;
    project.target_name = "sample-cli".to_owned();
    let request = CompilerRequest {
        manifest: manifest(),
        package: None,
        target: CargoTarget::Automatic,
        features: CargoFeatures::Selected {
            names: strings(&["b", "a"]),
            include_default: true,
        },
        target_triple: Some("x86_64-unknown-linux-gnu".to_owned()),
    };
    let mut arguments = strings(&["first"]);
    project.append_cargo_selection(&request, &manifest(), &None, &mut arguments);
    assert_eq!(
        arguments,
        [
            "first",
            "--manifest-path",
            "/workspace/Cargo.toml",
            "--package",
            SAMPLE_ID,
            "--bin",
            "sample-cli",
            "--features",
            "b,a",
            "--target",
            "x86_64-unknown-linux-gnu"
        ]
    );
    assert_eq!(
        metadata_arguments(&request, &manifest(), Some(&project)),
        [
            "metadata",
            "--locked",
            "--format-version",
            "1",
            "--manifest-path",
            "/workspace/Cargo.toml",
            "--features",
            "sample/a,sample/b,sample/default",
            "--filter-platform",
            "x86_64-unknown-linux-gnu"
        ]
    );
}

#[test]
fn qualified_features_keep_package_paths_and_drop_duplicates() {
    let project = select_automatic(&metadata());
    let mut arguments = Vec::new();
    let features = CargoFeatures::Selected {
        names: strings(&["dep/x", "serde", "serde"]),
        include_default: false,
    };
    append_feature_arguments(&features, &project, &mut arguments);
    assert_eq!(arguments, ["--features", "dep/x,sample/serde", "--no-default-features"]);
}

#[test]
fn sorted_distinct_and_comma_join_render_sets() {
    let values = strings(&["b", "a", "b", "c"]);
    let sorted = sorted_distinct(&values);
    assert_eq!(sorted, ["a", "b", "c"]);
    assert_eq!(comma_join(&sorted), "a,b,c");
    assert_eq!(comma_join(&Vec::new()), "");
}

#[test]
fn rustdoc_target_must_match_a_requested_triple() {
    let actual = "x86_64-unknown-linux-gnu".to_owned();
    assert!(check_rustdoc_target(&None, &actual).is_ok());
    assert!(check_rustdoc_target(&Some(actual.clone()), &actual).is_ok());
    match check_rustdoc_target(&Some("aarch64-unknown-linux-gnu".to_owned()), &actual) {
        Err(CompilerError::RustdocTargetMismatch { expected, actual }) => {
            assert_eq!(expected, "aarch64-unknown-linux-gnu");
            assert_eq!(actual, "x86_64-unknown-linux-gnu");
        }
        other => panic!("expected a target mismatch, got {other:?}"),
    }
}

#[test]
fn rustdoc_json_is_the_one_crate_document_in_a_doc_directory() {

    assert_eq!(rustdoc_json_name("my-crate"), "my_crate.json");
    assert_eq!(rustdoc_json_name("plain"), "plain.json");
    let expected = rustdoc_json_name("my-crate");
    let name = Some("my_crate.json".to_owned());
    let doc = Some("doc".to_owned());
    assert!(is_rustdoc_json(true, &name, &doc, &expected));
    assert!(!is_rustdoc_json(false, &name, &doc, &expected));
    assert!(!is_rustdoc_json(true, &Some("my-crate.json".to_owned()), &doc, &expected));
    assert!(!is_rustdoc_json(true, &name, &Some("deps".to_owned()), &expected));
    assert!(!is_rustdoc_json(true, &None, &doc, &expected));
    assert!(!is_rustdoc_json(true, &name, &None, &expected));

    assert_eq!(
        select_rustdoc_json("target", vec!["target/doc/my_crate.json".to_owned()]).expect("one"),
        "target/doc/my_crate.json"
    );
    let error = select_rustdoc_json("target", Vec::new()).expect_err("none");
    assert!(matches!(error, CompilerError::RustdocArtifactCount { ref root, count: 0 } if root == "target"));
    let error = select_rustdoc_json("target", vec!["a".to_owned(), "b".to_owned()]).expect_err("two");
    assert!(matches!(error, CompilerError::RustdocArtifactCount { count: 2, .. }));
}

#[test]
fn cargo_metadata_output_is_read_into_the_selection_model() {
    let json = br#"{"packages":[{"name":"demo","version":"0.1.0","id":"path+file:///w#demo@0.1.0","license":null,"license_file":null,"description":null,"source":null,"dependencies":[],"targets":[{"kind":["lib"],"crate_types":["lib"],"name":"demo","src_path":"/w/src/lib.rs","edition":"2021","doc":true,"doctest":true,"test":true}],"features":{"extra":[]},"manifest_path":"/w/Cargo.toml","metadata":null,"publish":null,"authors":[],"categories":[],"keywords":[],"readme":null,"repository":null,"homepage":null,"documentation":null,"edition":"2021","links":null,"default_run":null,"rust_version":null}],"workspace_members":["path+file:///w#demo@0.1.0"],"workspace_default_members":["path+file:///w#demo@0.1.0"],"resolve":null,"target_directory":"/w/target","version":1,"workspace_root":"/w","metadata":null}"#;
    let metadata = parse_cargo_metadata(json).expect("metadata document");
    assert_eq!(metadata.packages.len(), 1);
    assert_eq!(metadata.packages[0].name, "demo");
    assert_eq!(metadata.packages[0].targets[0].kinds, ["lib"]);
    assert_eq!(metadata.packages[0].feature_names, ["extra"]);
    assert_eq!(metadata.root_package.as_deref(), Some("path+file:///w#demo@0.1.0"));
    assert_eq!(
        metadata.workspace_default_members,
        Some(vec!["path+file:///w#demo@0.1.0".to_owned()])
    );
    assert!(metadata.resolve_nodes.is_empty());
    assert!(matches!(
        parse_cargo_metadata(b"[]"),
        Err(CompilerError::InvalidCargoMetadata { .. })
    ));
}
