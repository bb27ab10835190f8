use conkit::compiler::error::CompilerError;
use sha2::Digest;
use conkit::compiler::probe::{
    accept_record, capture_record, cargo_environment, check_capture_size, collect_probe_arguments,
    EnvironmentChange, ProbeRecord, ProbeSession, RustdocProbe, RustdocProbeError,
    RUSTDOC_PROBE_EXIT_CODE, RUSTDOC_PROBE_MAX_ARGUMENT_BYTES, RUSTDOC_PROBE_MAX_ARGUMENT_COUNT,
};

const TARGET: &str = "/tmp/conkit-rustdoc-x1";
const SOURCE: &str = "/tmp/conkit-rustdoc-x1/lib.rs";

fn child_probe(token_byte: char, crate_type: &str) -> RustdocProbe {
    let token = token_byte.to_string().repeat(64);
    RustdocProbe::child(
        format!("{TARGET}/.conkit-rustdoc-probe-{token}.json").into_bytes(),
        token,
        "sample".to_owned(),
        SOURCE.as_bytes().to_vec(),
        TARGET.as_bytes().to_vec(),
        vec![crate_type.to_owned()],
        false,
    )
    .expect("valid private probe")
}

fn arguments() -> Vec<String> {
    vec![
        "--crate-name".to_owned(),
        "sample".to_owned(),
        "--crate-type=lib".to_owned(),
        SOURCE.to_owned(),
        "-o".to_owned(),
        format!("{TARGET}/doc"),
        "-Zunstable-options".to_owned(),
        "--output-format=json".to_owned(),
        "--document-hidden-items".to_owned(),
        "--cfg".to_owned(),
        "docsrs".to_owned(),
        "--cfg=feature=\"serde\"".to_owned(),
    ]
}

fn record(probe: &RustdocProbe, arguments: Vec<String>) -> Result<ProbeRecord, RustdocProbeError> {
    let bytes: Vec<Vec<u8>> = arguments.into_iter().map(String::into_bytes).collect();
    let bytes = collect_probe_arguments(bytes)?;
    let names_source = bytes.iter().map(|argument| argument == SOURCE.as_bytes()).collect();
    probe.record(&bytes, &names_source)
}

#[test]
fn rustdoc_probe_accepts_expected_library_and_binary_invocations() {
    let library = child_probe('a', "lib");
    let accepted = record(&library, arguments()).expect("recognized Cargo rustdoc invocation");
    assert_eq!(accepted.exit_code, RUSTDOC_PROBE_EXIT_CODE);
    assert_eq!(accepted.cfg_values, ["docsrs", "feature=\"serde\""]);

    let binary = child_probe('b', "bin");
    let mut arguments = arguments();
    arguments[2] = "--crate-type=bin".to_owned();
    arguments.push("--document-private-items".to_owned());
    record(&binary, arguments).expect("recognized Cargo binary rustdoc invocation");
}

#[test]
fn rustdoc_probe_output_directory_spellings_are_strict() {
    let probe = child_probe('f', "lib");
    let cargo_arguments = arguments();
    let output_directory = format!("{TARGET}/doc");

    let mut separated_long = cargo_arguments.clone();
    separated_long[4] = "--out-dir".to_owned();
    record(&probe, separated_long).expect("recognized separated long output-directory option");

    let mut joined_long = cargo_arguments.clone();
    joined_long[4] = format!("--out-dir={output_directory}");
    joined_long.remove(5);
    record(&probe, joined_long).expect("recognized joined long output-directory option");

    for unsupported_option in [format!("-o={output_directory}"), format!("-o{output_directory}")] {
        let mut unsupported_short = cargo_arguments.clone();
        unsupported_short[4] = unsupported_option;
        unsupported_short.remove(5);
        assert!(matches!(
            record(&probe, unsupported_short),
            Err(RustdocProbeError::UnexpectedInvocation)
        ));
    }

    let mut missing_short = cargo_arguments.clone();
    missing_short.truncate(5);
    assert!(matches!(
        record(&probe, missing_short),
        Err(RustdocProbeError::MissingOptionValue { option: "-o" })
    ));

    let mut missing_long = cargo_arguments.clone();
    missing_long[4] = "--out-dir".to_owned();
    missing_long.truncate(5);
    assert!(matches!(
        record(&probe, missing_long),
        Err(RustdocProbeError::MissingOptionValue { option: "--out-dir" })
    ));

    let mut duplicate = cargo_arguments.clone();
    duplicate.push("--out-dir".to_owned());
    duplicate.push(output_directory);
    assert!(matches!(
        record(&probe, duplicate),
        Err(RustdocProbeError::UnexpectedInvocation)
    ));

    for invalid_directory in [
        "doc".to_owned(),
        format!("{TARGET}/nested/../doc"),
        "/tmp/outside-doc".to_owned(),
    ] {
        let mut invalid = cargo_arguments.clone();
        invalid[5] = invalid_directory;
        assert!(matches!(
            record(&probe, invalid),
            Err(RustdocProbeError::UnexpectedInvocation)
        ));
    }
}

#[test]
fn rustdoc_probe_rejects_spoofed_limits() {
    let probe = child_probe('d', "lib");
    let mut private_items = arguments();
    private_items.push("--document-private-items".to_owned());
    assert!(matches!(
        record(&probe, private_items),
        Err(RustdocProbeError::UnexpectedInvocation)
    ));
    assert!(matches!(
        record(
            &probe,
            vec!["x".repeat(usize::try_from(RUSTDOC_PROBE_MAX_ARGUMENT_BYTES).expect("limit") + 1)]
        ),
        Err(RustdocProbeError::ArgumentLimit)
    ));
    assert!(matches!(
        record(
            &probe,
            (0..RUSTDOC_PROBE_MAX_ARGUMENT_COUNT + 1).map(|_| "x".to_owned()).collect()
        ),
        Err(RustdocProbeError::ArgumentLimit)
    ));
    let mut invalid_cfg = arguments();
    invalid_cfg.push("--cfg= padded".to_owned());
    assert!(matches!(record(&probe, invalid_cfg), Err(RustdocProbeError::InvalidCfgValue)));
    let mut late_invalid_cfg = arguments();
    late_invalid_cfg.push("--cfg".to_owned());
    late_invalid_cfg.push(" padded".to_owned());
    assert!(matches!(record(&probe, late_invalid_cfg), Err(RustdocProbeError::InvalidCfgValue)));
}

#[test]
fn rustdoc_probe_child_validates_its_environment() {
    let token = "a".repeat(64);
    let capture = format!("{TARGET}/.conkit-rustdoc-probe-{token}.json").into_bytes();
    let child = |token: &str, name: &str, types: Vec<&str>, target: &str, capture: Vec<u8>, exists: bool| {
        RustdocProbe::child(
            capture,
            token.to_owned(),
            name.to_owned(),
            SOURCE.as_bytes().to_vec(),
            target.as_bytes().to_vec(),
            types.into_iter().map(str::to_owned).collect(),
            exists,
        )
        .map(|probe| probe.crate_types)
    };
    assert_eq!(
        child(&token, "sample", vec!["rlib", "lib", "rlib"], TARGET, capture.clone(), false),
        Ok(vec!["lib".to_owned(), "rlib".to_owned()])
    );
    assert_eq!(
        child(&"A".repeat(64), "sample", vec!["lib"], TARGET, capture.clone(), false),
        Err(RustdocProbeError::InvalidToken)
    );
    assert_eq!(
        child(&token, "sam-ple", vec!["lib"], TARGET, capture.clone(), false),
        Err(RustdocProbeError::InvalidCrateName)
    );
    assert_eq!(
        child(&token, "sample", vec![], TARGET, capture.clone(), false),
        Err(RustdocProbeError::InvalidCrateType)
    );
    assert_eq!(
        child(&token, "sample", vec!["lib", "wasm"], TARGET, capture.clone(), false),
        Err(RustdocProbeError::InvalidCrateType)
    );
    assert_eq!(
        child(&token, "sample", vec!["lib"], "relative/conkit-rustdoc-x", capture.clone(), false),
        Err(RustdocProbeError::RelativeBoundaryPath)
    );
    assert_eq!(
        child(&token, "sample", vec!["lib"], TARGET, capture.clone(), true),
        Err(RustdocProbeError::InvalidCapturePath)
    );
    assert_eq!(
        child(&token, "sample", vec!["lib"], "/tmp/other", b"/tmp/other/x.json".to_vec(), false),
        Err(RustdocProbeError::InvalidCapturePath)
    );
}

#[test]
fn rustdoc_probe_record_requires_active_token_exit_and_strict_shape() {
    let token = "c".repeat(64);
    let wrong_exit = ProbeRecord {
        token: token.clone(),
        exit_code: 0,
        cfg_values: vec!["docsrs".to_owned()],
        rejection: None,
    };
    assert!(matches!(
        accept_record(&token, wrong_exit),
        Err(CompilerError::InvalidRustdocProbeCapture { .. })
    ));
    let rejected = ProbeRecord {
        token: token.clone(),
        exit_code: RUSTDOC_PROBE_EXIT_CODE,
        cfg_values: Vec::new(),
        rejection: Some("Cargo produced an unexpected rustdoc invocation".to_owned()),
    };
    assert!(matches!(
        accept_record(&token, rejected),
        Err(CompilerError::InvalidRustdocProbeCapture { message }) if message == "Cargo produced an unexpected rustdoc invocation"
    ));
    let accepted = ProbeRecord {
        token: token.clone(),
        exit_code: RUSTDOC_PROBE_EXIT_CODE,
        cfg_values: vec!["docsrs".to_owned()],
        rejection: None,
    };
    assert_eq!(accept_record(&token, accepted).expect("accepted record"), ["docsrs"]);
}

#[test]
fn rejected_invocation_is_captured_with_its_message() {
    let token = "a".repeat(64);
    let record = capture_record(&token, Err(RustdocProbeError::UnexpectedInvocation));
    assert_eq!(record.token, token);
    assert_eq!(record.exit_code, RUSTDOC_PROBE_EXIT_CODE);
    assert!(record.cfg_values.is_empty());
    assert_eq!(
        record.rejection.as_deref(),
        Some("Cargo produced an unexpected rustdoc invocation")
    );
    let accepted = ProbeRecord {
        token: token.clone(),
        exit_code: RUSTDOC_PROBE_EXIT_CODE,
        cfg_values: vec!["unix".to_owned()],
        rejection: None,
    };
    let kept = capture_record(&token, Ok(accepted));
    assert_eq!(kept.cfg_values, ["unix"]);
    assert!(kept.rejection.is_none());
}

#[test]
fn probe_error_messages_name_the_option() {
    assert_eq!(
        RustdocProbeError::MissingOptionValue { option: "--cfg" }.message(),
        "private rustdoc probe option --cfg is missing its value"
    );
    assert_eq!(
        RustdocProbeError::NonUtf8Option { option: "-o" }.message(),
        "private rustdoc probe option -o is not UTF-8"
    );
    assert_eq!(
        RustdocProbeError::Encode("bad".to_owned()).message(),
        "failed to encode private rustdoc probe capture: bad"
    );
    assert_eq!(
        RustdocProbeError::InvalidToken.message(),
        "private rustdoc probe token is invalid"
    );
}

#[test]
fn capture_size_is_bounded() {
    assert!(check_capture_size(65536).is_ok());
    assert_eq!(check_capture_size(65537), Err(RustdocProbeError::CaptureLimit));
}

fn sample_project(target_name: &str) -> conkit::compiler::project::CargoProject {
    conkit::compiler::project::CargoProject {
        package_id: "path+file:///workspace#sample@0.1.0".to_owned(),
        package_name: "sample".to_owned(),
        target_name: target_name.to_owned(),
        target_root: "/workspace/src/main.rs".to_owned(),
        kind: conkit::args::RustCrateKind::Binary,
        crate_types: vec!["bin".to_owned()],
        has_default_feature: false,
        features: Vec::new(),
    }
}

#[test]
fn parent_session_names_a_capture_the_child_accepts() {
    let seed = b"/tmp/conkit-rustdoc-x1/.conkit-rustdoc-probe-seed-1";
    let session = ProbeSession::parent(
        seed,
        TARGET.as_bytes().to_vec(),
        b"/usr/bin/conkit".to_vec(),
        SOURCE.as_bytes().to_vec(),
        &sample_project("sample-cli"),
    );
    let token = format!("{:x}", sha2::Sha256::digest(seed));
    assert_eq!(session.token, token);
    assert_eq!(
        session.capture_path,
        format!("{TARGET}/.conkit-rustdoc-probe-{token}.json").into_bytes()
    );
    assert_eq!(session.crate_name, "sample_cli");
    let child = RustdocProbe::child(
        session.capture_path.clone(),
        session.token.clone(),
        session.crate_name.clone(),
        session.source_path.clone(),
        session.target_directory.clone(),
        session.crate_types.clone(),
        false,
    );
    assert!(child.is_ok());
}

#[test]
fn cargo_children_get_the_pinned_environment_and_the_probe_session() {
    let render = |changes: Vec<EnvironmentChange>| {
        changes
            .into_iter()
            .map(|change| match change {
                EnvironmentChange::Assign { name, value } => {
                    format!("{name}={}", String::from_utf8(value).expect("text value"))
                }
                EnvironmentChange::Unset { name } => format!("-{name}"),
            })
            .collect::<Vec<_>>()
    };
    let pinned = [
        "CARGO_TERM_COLOR=never",
        "RUST_BACKTRACE=0",
        "RUSTC=rustc",
        "RUSTDOC=rustdoc",
        "RUSTUP_AUTO_INSTALL=0",
        "-RUSTC_WRAPPER",
        "-RUSTC_WORKSPACE_WRAPPER",
    ];
    assert_eq!(render(cargo_environment(None)), pinned);
    let mut project = sample_project("sample");
    project.crate_types = vec!["lib".to_owned(), "rlib".to_owned()];
    let session = ProbeSession::parent(b"seed", TARGET.as_bytes().to_vec(), b"/usr/bin/conkit".to_vec(), SOURCE.as_bytes().to_vec(), &project);
    let probed = render(cargo_environment(Some(&session)));
    assert_eq!(&probed[..7], pinned);
    assert_eq!(
        &probed[7..],
        [
            "RUSTDOC=/usr/bin/conkit".to_owned(),
            format!("CONKIT_INTERNAL_RUSTDOC_PROBE_PATH={TARGET}/.conkit-rustdoc-probe-{}.json", session.token),
            format!("CONKIT_INTERNAL_RUSTDOC_PROBE_TOKEN={}", session.token),
            "CONKIT_INTERNAL_RUSTDOC_PROBE_CRATE=sample".to_owned(),
            format!("CONKIT_INTERNAL_RUSTDOC_PROBE_SOURCE={SOURCE}"),
            format!("CONKIT_INTERNAL_RUSTDOC_PROBE_TARGET_DIR={TARGET}"),
            "CONKIT_INTERNAL_RUSTDOC_PROBE_CRATE_TYPES=lib,rlib".to_owned(),
        ]
    );
}
