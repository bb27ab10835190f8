use std::sync::atomic::AtomicBool;
use std::sync::Arc;

use conkit::args::{CargoFeatures, CargoTarget, CompilerRequest, CrateRootArg, RustCrateKind};
use conkit::cancellation::CompilerCancellation;
use conkit::compiler::error::{CompilerError, CompilerOperation};
use conkit::compiler::limits::{CompilerLimits, CompilerUsage};
use conkit::compiler::process::CargoOutput;
use conkit::compiler::project::{CargoMetadata, MetadataPackage, MetadataTarget, ResolveNode};
use conkit::compiler::session::{
    CompilerExtraction, ExtractionAction, ExtractionEvent, ExtractionStage,
};

const SAMPLE_ID: &str = "path+file:///workspace#sample@0.1.0";
const HASH: &str = "0123456789abcdef0123456789abcdef01234567";

fn strings(values: &[&str]) -> Vec<String> {
    values.iter().map(|value| (*value).to_owned()).collect()
}

fn usage() -> Arc<CompilerUsage> {
    CompilerUsage::new(
        CompilerLimits::default(),
        CompilerCancellation::from_flag(Arc::new(AtomicBool::new(false))),
    )
}

fn metadata() -> CargoMetadata {
    CargoMetadata {
        packages: vec![MetadataPackage {
            id: SAMPLE_ID.to_owned(),
            name: "sample".to_owned(),
            targets: vec![
                MetadataTarget {
                    name: "sample".to_owned(),
                    kinds: strings(&["lib"]),
                    crate_types: strings(&["lib"]),
                    src_path: "/workspace/src/lib.rs".to_owned(),
                },
                MetadataTarget {
                    name: "sample-cli".to_owned(),
                    kinds: strings(&["bin"]),
                    crate_types: strings(&["bin"]),
                    src_path: "/workspace/src/main.rs".to_owned(),
                },
            ],
            feature_names: strings(&["default", "serde"]),
        }],
        root_package: Some(SAMPLE_ID.to_owned()),
        workspace_default_members: Some(strings(&[SAMPLE_ID])),
        resolve_nodes: vec![ResolveNode {
            id: SAMPLE_ID.to_owned(),
            features: strings(&["serde"]),
        }],
    }
}

fn request(package: Option<&str>, target_triple: Option<&str>) -> CompilerRequest {
    CompilerRequest {
        manifest: "/workspace/Cargo.toml".to_owned(),
        package: package.map(str::to_owned),
        target: CargoTarget::Automatic,
        features: CargoFeatures::Selected {
            names: strings(&["serde"]),
            include_default: true,
        },
        target_triple: target_triple.map(str::to_owned),
    }
}

fn start(request: CompilerRequest) -> (CompilerExtraction, ExtractionAction) {
    start_expecting(request, None)
}

fn start_expecting(
    request: CompilerRequest,
    expected: Option<CrateRootArg>,
) -> (CompilerExtraction, ExtractionAction) {
    CompilerExtraction::start(
        request,
        "/workspace/Cargo.toml".to_owned(),
        "/temporary/target".to_owned(),
        "/workspace".to_owned(),
        expected,
    )
}

fn components(parts: &[&str]) -> Vec<Vec<u8>> {
    parts.iter().map(|part| part.as_bytes().to_vec()).collect()
}

fn canonicalized() -> ExtractionEvent {
    ExtractionEvent::RootsCanonicalized {
        source: components(&["workspace"]),
        target: components(&["workspace", "src", "lib.rs"]),
    }
}

fn output(text: &[u8]) -> CargoOutput {
    CargoOutput {
        stdout: text.to_vec(),
        stderr: Vec::new(),
    }
}

fn identity_report() -> String {
    format!(
        "rustc 1.90.0-nightly ({HASH} 2026-06-30)\nbinary: rustc\ncommit-hash: {HASH}\n\
         commit-date: 2026-06-30\nhost: x86_64-unknown-linux-gnu\nrelease: 1.90.0-nightly\n"
    )
}

fn run(action: &ExtractionAction) -> (CompilerOperation, Vec<String>) {
    match action {
        ExtractionAction::Run(invocation) => (invocation.operation, invocation.arguments.clone()),
        _ => panic!("expected a Cargo run"),
    }
}

fn advance(
    extraction: CompilerExtraction,
    event: ExtractionEvent,
) -> (CompilerExtraction, ExtractionAction) {
    extraction.advance(event, &usage()).expect("extraction step")
}

fn at_rustdoc(request: CompilerRequest) -> CompilerExtraction {
    let (extraction, _) = start(request);
    let (extraction, _) = advance(extraction, ExtractionEvent::MetadataReported(metadata()));
    let (extraction, _) = advance(extraction, ExtractionEvent::MetadataReported(metadata()));
    let (extraction, _) = advance(extraction, canonicalized());
    let (extraction, _) = advance(
        extraction,
        ExtractionEvent::CompilerVersionReported(output(identity_report().as_bytes())),
    );
    let (extraction, _) = advance(extraction, ExtractionEvent::ProbeCaptured(strings(&["docsrs"])));
    extraction
}

#[test]
fn extraction_runs_each_cargo_step_in_order_and_merges_the_cfg_context() {
    let (extraction, action) = start(request(None, None));
    let (operation, arguments) = run(&action);
    assert_eq!(operation, CompilerOperation::Metadata);
    assert_eq!(
        arguments,
        ["metadata", "--locked", "--format-version", "1", "--manifest-path", "/workspace/Cargo.toml"]
    );

    let (extraction, action) = advance(extraction, ExtractionEvent::MetadataReported(metadata()));
    let (operation, arguments) = run(&action);
    assert_eq!(operation, CompilerOperation::Metadata);
    assert_eq!(&arguments[6..], ["--features", "sample/default,sample/serde"]);

    let (extraction, action) = advance(extraction, ExtractionEvent::MetadataReported(metadata()));
    match &action {
        ExtractionAction::Canonicalize { source_root, target_root } => {
            assert_eq!(source_root, "/workspace");
            assert_eq!(target_root, "/workspace/src/lib.rs");
        }
        _ => panic!("expected the roots to be canonicalized"),
    }

    let (extraction, action) = advance(extraction, canonicalized());
    let crate_root = extraction.crate_root.as_ref().expect("identified crate");
    assert_eq!(crate_root.id(), "sample");
    assert_eq!(crate_root.root(), "src/lib.rs");
    assert_eq!(crate_root.kind(), RustCrateKind::Library);
    let (operation, arguments) = run(&action);
    assert_eq!(operation, CompilerOperation::CompilerVersion);
    assert_eq!(arguments.first().map(String::as_str), Some("rustc"));
    assert_eq!(arguments.last().map(String::as_str), Some("-vV"));

    let (extraction, action) = advance(
        extraction,
        ExtractionEvent::CompilerVersionReported(output(identity_report().as_bytes())),
    );
    match &action {
        ExtractionAction::Probe(invocation) => {
            assert_eq!(invocation.operation, CompilerOperation::RustdocConfigurationProbe);
            assert_eq!(invocation.arguments.first().map(String::as_str), Some("rustdoc"));
        }
        _ => panic!("expected the rustdoc probe"),
    }

    let (extraction, action) = advance(extraction, ExtractionEvent::ProbeCaptured(strings(&["docsrs"])));
    assert_eq!(run(&action).0, CompilerOperation::Rustdoc);

    let (extraction, action) = advance(
        extraction,
        ExtractionEvent::RustdocDocumented {
            includes_private: false,
            target_triple: "x86_64-unknown-linux-gnu".to_owned(),
            item_count: 3,
        },
    );
    let (operation, arguments) = run(&action);
    assert_eq!(operation, CompilerOperation::Configuration);
    let target = arguments
        .windows(2)
        .find(|pair| pair[0] == "--target")
        .expect("documented platform");
    assert_eq!(target[1], "x86_64-unknown-linux-gnu");
    assert_eq!(&arguments[arguments.len() - 2..], ["--print", "cfg"]);

    let (extraction, action) = advance(
        extraction,
        ExtractionEvent::ConfigurationReported(output(b"unix\ntarget_os=\"linux\"\n")),
    );
    assert!(matches!(action, ExtractionAction::Finished));
    match extraction.stage {
        ExtractionStage::Finished {
            project,
            identity,
            target_triple,
            cfg_values,
        } => {
            assert_eq!(project.target_name, "sample");
            assert_eq!(target_triple, "x86_64-unknown-linux-gnu");
            assert_eq!(cfg_values, ["doc", "docsrs", "target_os=\"linux\"", "unix"]);
            assert_eq!(
                identity.contract_value(),
                format!("rustc 1.90.0-nightly ({HASH} 2026-06-30); host=x86_64-unknown-linux-gnu")
            );
        }
        _ => panic!("expected a finished extraction"),
    }
}

#[test]
fn requested_package_is_resolved_by_its_trimmed_package_id() {
    let (extraction, action) = start(request(Some("sample"), None));
    let (operation, arguments) = run(&action);
    assert_eq!(operation, CompilerOperation::PackageId);
    assert_eq!(
        arguments,
        ["pkgid", "--locked", "--manifest-path", "/workspace/Cargo.toml", "--package", "sample"]
    );
    let (extraction, action) = advance(
        extraction,
        ExtractionEvent::PackageIdentified(output(format!("  {SAMPLE_ID}\n").as_bytes())),
    );
    assert_eq!(run(&action).0, CompilerOperation::Metadata);
    match &extraction.stage {
        ExtractionStage::Metadata { package_id } => assert_eq!(package_id.as_deref(), Some(SAMPLE_ID)),
        _ => panic!("expected the metadata stage"),
    }
}

#[test]
fn non_utf8_package_id_output_is_rejected() {
    let (extraction, _) = start(request(Some("sample"), None));
    let error = extraction
        .advance(ExtractionEvent::PackageIdentified(output(&[0xff, 0xfe])), &usage())
        .err()
        .expect("invalid package id output");
    assert!(matches!(error, CompilerError::InvalidPackageIdOutput { .. }));
}

#[test]
fn an_unknown_package_id_ends_the_extraction() {
    let (extraction, _) = start(request(Some("other"), None));
    let (extraction, _) = advance(
        extraction,
        ExtractionEvent::PackageIdentified(output(b"path+file:///elsewhere#other@0.1.0\n")),
    );
    let error = extraction
        .advance(ExtractionEvent::MetadataReported(metadata()), &usage())
        .err()
        .expect("the package id is not in the metadata");
    assert!(matches!(error, CompilerError::ResolvedPackageMissing { .. }));
}

#[test]
fn rustdoc_must_document_the_requested_platform_and_kind() {
    let mismatch = at_rustdoc(request(None, Some("aarch64-unknown-linux-gnu")))
        .advance(
            ExtractionEvent::RustdocDocumented {
                includes_private: false,
                target_triple: "x86_64-unknown-linux-gnu".to_owned(),
                item_count: 1,
            },
            &usage(),
        )
        .err()
        .expect("platform mismatch");
    assert!(matches!(mismatch, CompilerError::RustdocTargetMismatch { .. }));

    let private = at_rustdoc(request(None, None))
        .advance(
            ExtractionEvent::RustdocDocumented {
                includes_private: true,
                target_triple: "x86_64-unknown-linux-gnu".to_owned(),
                item_count: 1,
            },
            &usage(),
        )
        .err()
        .expect("a library is documented without private items");
    assert!(matches!(private, CompilerError::RustdocPrivateItemsMismatch { .. }));
}

#[test]
fn invalid_compiler_identity_ends_the_extraction() {
    let (extraction, _) = start(request(None, None));
    let (extraction, _) = advance(extraction, ExtractionEvent::MetadataReported(metadata()));
    let (extraction, _) = advance(extraction, ExtractionEvent::MetadataReported(metadata()));
    let (extraction, _) = advance(extraction, canonicalized());
    let error = extraction
        .advance(ExtractionEvent::CompilerVersionReported(output(b"not rustc\n")), &usage())
        .err()
        .expect("invalid identity");
    assert!(matches!(error, CompilerError::InvalidCompilerIdentity { .. }));
}

fn at_identify(expected: Option<CrateRootArg>) -> CompilerExtraction {
    let (extraction, _) = start_expecting(request(None, None), expected);
    let (extraction, _) = advance(extraction, ExtractionEvent::MetadataReported(metadata()));
    let (extraction, _) = advance(extraction, ExtractionEvent::MetadataReported(metadata()));
    extraction
}

#[test]
fn an_expected_crate_root_must_match_the_derived_one() {
    let expected = CrateRootArg::from_str("sample=library:src/lib.rs").expect("crate root");
    let (extraction, _) = advance(at_identify(Some(expected.clone())), canonicalized());
    assert_eq!(extraction.crate_root, Some(expected));

    let other = CrateRootArg::from_str("sample=binary:src/main.rs").expect("crate root");
    let error = at_identify(Some(other))
        .advance(canonicalized(), &usage())
        .err()
        .expect("mismatch");
    assert!(matches!(
        error,
        CompilerError::CrateRootMismatch { ref expected, ref actual }
            if expected == "src/main.rs (Binary)" && actual == "src/lib.rs (Library)"
    ));
}

#[test]
fn the_crate_must_lie_below_the_source_root_and_be_utf8() {
    let outside = ExtractionEvent::RootsCanonicalized {
        source: components(&["workspace", "crates"]),
        target: components(&["workspace", "src", "lib.rs"]),
    };
    let error = at_identify(None).advance(outside, &usage()).err().expect("outside");
    assert!(matches!(
        error,
        CompilerError::CargoTargetOutsideSourceRoot { ref source_root, ref target_root }
            if source_root == "/workspace/crates" && target_root == "/workspace/src/lib.rs"
    ));

    let non_utf8 = ExtractionEvent::RootsCanonicalized {
        source: components(&["workspace"]),
        target: vec![b"workspace".to_vec(), vec![b's', 0xff], b"lib.rs".to_vec()],
    };
    let error = at_identify(None).advance(non_utf8, &usage()).err().expect("not UTF-8");
    assert!(matches!(
        error,
        CompilerError::InvalidMappedSourcePath { ref path } if path == "s\u{fffd}/lib.rs"
    ));
}

#[test]
fn an_extraction_awaits_only_the_result_of_its_stage() {
    let (first, _) = start(request(None, None));
    let (second, _) = start(request(Some("pkg"), None));
    let waits_for_id = |x: &CompilerExtraction| x.awaits(&ExtractionEvent::PackageIdentified(output(b"pkg")));
    let waits_for_metadata = |x: &CompilerExtraction| x.awaits(&ExtractionEvent::MetadataReported(metadata()));
    assert_ne!(waits_for_id(&first), waits_for_metadata(&first));
    assert_ne!(waits_for_id(&second), waits_for_metadata(&second));
    assert!(!first.awaits(&canonicalized()));
}

#[test]
fn printed_metadata_that_is_not_a_document_is_invalid_cargo_metadata() {
    let (first, _) = start(request(Some("sample"), None));
    let (metadata_stage, _) = match first
        .advance(ExtractionEvent::PackageIdentified(output(format!("{SAMPLE_ID}\n").as_bytes())), &usage())
    {
        Ok(next) => next,
        Err(error) => panic!("package id: {error:?}"),
    };
    assert!(metadata_stage.awaits(&ExtractionEvent::MetadataPrinted(output(b"{}"))));
    let result = metadata_stage.advance(ExtractionEvent::MetadataPrinted(output(b"not json")), &usage());
    assert!(matches!(result, Err(CompilerError::InvalidCargoMetadata { .. })));
}
