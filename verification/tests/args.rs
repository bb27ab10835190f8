use conkit::contracts::ContractCheckMode;
use conkit::args::{
    CargoFeatures, CargoTarget, CrateRootArg, CrateRootArgError, RequestedExtraction,
    RustCrateKind, SignatureExtractorArg, SignatureOptions, SignatureOptionsError,
    SignatureValueError, SignatureValueKind,
};

fn syntax_options() -> SignatureOptions {
    SignatureOptions {
        signature_extractor: SignatureExtractorArg::Syntax,
        manifest_path: None,
        package: None,
        library: false,
        binary: None,
        features: Vec::new(),
        all_features: false,
        no_default_features: false,
        target: None,
    }
}

fn compiler_options(selection: &[&str]) -> SignatureOptions {
    let mut options = SignatureOptions {
        signature_extractor: SignatureExtractorArg::Compiler,
        manifest_path: Some("Cargo.toml".to_owned()),
        ..syntax_options()
    };
    let mut arguments = selection.iter();
    while let Some(flag) = arguments.next() {
        match *flag {
            "--lib" => options.library = true,
            "--all-features" => options.all_features = true,
            "--no-default-features" => options.no_default_features = true,
            "--package" => {
                let value = arguments.next().expect("package value");
                options.package = Some(SignatureOptions::parse_package(value).expect("package"));
            }
            "--bin" => {
                let value = arguments.next().expect("binary value");
                options.binary = Some(SignatureOptions::parse_binary(value).expect("binary"));
            }
            "--target" => {
                let value = arguments.next().expect("target value");
                options.target = Some(SignatureOptions::parse_target(value).expect("target"));
            }
            "--features" => {
                let value = arguments.next().expect("features value");
                for feature in value.split(',') {
                    options
                        .features
                        .push(SignatureOptions::parse_feature(feature).expect("feature"));
                }
            }
            other => panic!("unexpected fixture flag {other}"),
        }
    }
    options
}

fn compiler_request(options: &SignatureOptions) -> conkit::args::CompilerRequest {
    match options.requested_extraction().expect("compiler request") {
        RequestedExtraction::Compiler(request) => request,
        RequestedExtraction::Syntax => panic!("expected compiler extraction request"),
    }
}

#[test]
fn signature_extraction_defaults_to_portable_syntax_mode() {
    assert!(matches!(
        syntax_options()
            .requested_extraction()
            .expect("default extraction request"),
        RequestedExtraction::Syntax,
    ));
}

#[test]
fn syntax_extraction_rejects_cargo_options() {
    let options = SignatureOptions {
        library: true,
        ..syntax_options()
    };
    assert!(options.has_cargo_options());
    assert_eq!(
        options.requested_extraction(),
        Err(SignatureOptionsError::SyntaxWithCargoOptions)
    );
    assert!(!syntax_options().has_cargo_options());
}

#[test]
fn compiler_extraction_accepts_cargo_native_selection() {
    let options = compiler_options(&[
        "--package",
        "sample@0.1.0",
        "--bin",
        "sample-cli",
        "--features",
        "client,sample/serde",
        "--features",
        "unstable",
        "--target",
        "x86_64-unknown-linux-gnu",
    ]);
    let request = compiler_request(&options);
    assert_eq!(request.manifest, "Cargo.toml");
    assert_eq!(request.package.as_deref(), Some("sample@0.1.0"));
    assert_eq!(request.target, CargoTarget::Binary("sample-cli".to_owned()));
    assert_eq!(
        request.features,
        CargoFeatures::Selected {
            names: vec![
                "client".to_owned(),
                "sample/serde".to_owned(),
                "unstable".to_owned(),
            ],
            include_default: true,
        }
    );
    assert_eq!(request.target_triple.as_deref(), Some("x86_64-unknown-linux-gnu"));
}

#[test]
fn compiler_target_selection_converts_to_closed_variants() {
    for (selection, expected) in [
        (Vec::new(), CargoTarget::Automatic),
        (vec!["--lib"], CargoTarget::Library),
    ] {
        let request = compiler_request(&compiler_options(&selection));
        assert_eq!(request.target, expected);
    }
}

#[test]
fn compiler_feature_selection_converts_to_closed_variants() {
    for selection in [
        Vec::new(),
        vec!["--no-default-features"],
        vec!["--all-features"],
    ] {
        let request = compiler_request(&compiler_options(&selection));
        match selection.as_slice() {
            [] => assert_eq!(request.features, CargoFeatures::Default),
            ["--no-default-features"] => assert_eq!(
                request.features,
                CargoFeatures::Selected {
                    names: Vec::new(),
                    include_default: false,
                }
            ),
            ["--all-features"] => assert_eq!(request.features, CargoFeatures::All),
            other => panic!("unexpected feature selection fixture: {other:?}"),
        }
    }
}

#[test]
fn compiler_extraction_requires_a_manifest_path() {
    let options = SignatureOptions {
        manifest_path: None,
        ..compiler_options(&[])
    };
    assert_eq!(
        options.requested_extraction(),
        Err(SignatureOptionsError::CompilerManifestRequired)
    );
}

#[test]
fn compiler_text_values_reject_empty_whitespace_and_control_content() {
    for (kind, value, expected) in [
        (SignatureValueKind::Package, "", SignatureValueError::Empty { kind: SignatureValueKind::Package }),
        (SignatureValueKind::Package, "sample package", SignatureValueError::Whitespace { kind: SignatureValueKind::Package }),
        (SignatureValueKind::Binary, " sample", SignatureValueError::Whitespace { kind: SignatureValueKind::Binary }),
        (SignatureValueKind::Binary, "sample\ncli", SignatureValueError::Control { kind: SignatureValueKind::Binary }),
        (SignatureValueKind::Feature, "", SignatureValueError::Empty { kind: SignatureValueKind::Feature }),
        (SignatureValueKind::Feature, "serde client", SignatureValueError::Whitespace { kind: SignatureValueKind::Feature }),
        (SignatureValueKind::Target, "", SignatureValueError::Empty { kind: SignatureValueKind::Target }),
        (SignatureValueKind::Target, " x86_64-unknown-linux-gnu", SignatureValueError::Whitespace { kind: SignatureValueKind::Target }),
        (SignatureValueKind::Target, "host-tuple", SignatureValueError::NonConcreteTarget),
        (SignatureValueKind::Target, "targets/custom.json", SignatureValueError::NonConcreteTarget),
        (SignatureValueKind::Target, "./custom-target.json", SignatureValueError::NonConcreteTarget),
    ] {
        assert_eq!(kind.parse(value), Err(expected), "{value:?}");
    }
}

#[test]
fn feature_qualification_and_concrete_targets() {
    assert_eq!(
        SignatureOptions::parse_feature("sample//serde"),
        Err(SignatureValueError::FeatureQualification)
    );
    assert_eq!(
        SignatureOptions::parse_feature("/serde"),
        Err(SignatureValueError::FeatureQualification)
    );
    assert_eq!(
        SignatureOptions::parse_feature("sample/serde").as_deref(),
        Ok("sample/serde")
    );
    assert_eq!(
        SignatureOptions::parse_target("wasm32").as_deref(),
        Err(&SignatureValueError::NonConcreteTarget)
    );
    assert_eq!(
        SignatureOptions::parse_target("aarch64-apple-darwin").as_deref(),
        Ok("aarch64-apple-darwin")
    );
}

#[test]
fn compiler_feature_selection_rejects_duplicates_across_all_spellings() {
    let options = compiler_options(&["--features", "serde,client", "--features", "serde"]);
    let error = options
        .requested_extraction()
        .expect_err("duplicate Cargo features must fail validation");

    assert_eq!(
        error,
        SignatureOptionsError::DuplicateFeature {
            feature: "serde".to_owned()
        }
    );
}

#[test]
fn crate_roots_parse_id_kind_and_relative_path() {
    let root = CrateRootArg::from_str("sample=library:src/lib.rs").expect("valid crate root");
    assert_eq!(root.id(), "sample");
    assert_eq!(root.kind(), RustCrateKind::Library);
    assert_eq!(root.root(), "src/lib.rs");
    let binary = CrateRootArg::from_str("cli=binary:src/main.rs:extra").expect("colon in path");
    assert_eq!(binary.kind(), RustCrateKind::Binary);
    assert_eq!(binary.root(), "src/main.rs:extra");
}

#[test]
fn crate_roots_reject_each_malformed_part() {
    for (value, expected) in [
        ("sample", CrateRootArgError::MissingSeparator),
        ("=library:src/lib.rs", CrateRootArgError::EmptyId),
        ("sam ple=library:src/lib.rs", CrateRootArgError::IdWhitespace),
        ("sam:ple=library:src/lib.rs", CrateRootArgError::IdDelimiter),
        ("sam\u{7}ple=library:src/lib.rs", CrateRootArgError::IdControl),
        ("sample=library", CrateRootArgError::MissingKindSeparator),
        ("sample=:src/lib.rs", CrateRootArgError::EmptyKind),
        ("sample= library:src/lib.rs", CrateRootArgError::KindWhitespace),
        (
            "sample=proc-macro:src/lib.rs",
            CrateRootArgError::UnsupportedKind {
                kind: "proc-macro".to_owned(),
            },
        ),
        ("sample=library:", CrateRootArgError::EmptyRoot),
        ("sample=library: src/lib.rs", CrateRootArgError::RootWhitespace),
        ("sample=library:/src/lib.rs", CrateRootArgError::AbsoluteRoot),
    ] {
        assert_eq!(CrateRootArg::from_str(value), Err(expected), "{value:?}");
    }
}

#[test]
fn check_mode_flags_select_one_mode() {
    assert_eq!(ContractCheckMode::select(true, false), ContractCheckMode::Strict);
    assert_eq!(ContractCheckMode::select(true, true), ContractCheckMode::Strict);
    assert_eq!(ContractCheckMode::select(false, true), ContractCheckMode::Warning);
    assert_eq!(ContractCheckMode::select(false, false), ContractCheckMode::Default);
    assert!(ContractCheckMode::Default.enforces_sketches());
    assert!(ContractCheckMode::Strict.enforces_sketches());
    assert!(!ContractCheckMode::Warning.enforces_sketches());
}

