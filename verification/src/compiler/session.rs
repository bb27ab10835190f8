//! The course of one compiler extraction: which Cargo invocation runs next,
//! and what each reported result decides. The caller runs the invocations
//! and reports their results; each report either advances the extraction
//! or ends it with the first failure.

use vstd::prelude::*;
use vstd::utf8::*;

use crate::args::{CargoTarget, CompilerRequest, CrateRootArg, RustCrateKind};
use crate::compiler::error::{CompilerError, CompilerOperation, CompilerSemanticResource};
use crate::compiler::extractor::{merged_configuration, spec_identity, string_views, CompilerConfiguration, CompilerIdentity};
use crate::compiler::limits::CompilerUsage;
use crate::compiler::process::{string_from_utf8, CargoOutput};
use crate::compiler::project::{
    check_private_items, check_rustdoc_target, metadata_arguments, metadata_args, optional_view, package_choice,
    package_id_arguments, project_of, rustc_args, rustdoc_args, target_choice, CargoMetadata, CargoProject,
    component_bytes, crate_identity, identity_outcome, parse_cargo_metadata,
};
use crate::text::{chars_of, string_from_chars, trim, trim_chars};

verus! {

/// One Cargo invocation.
pub struct CargoInvocation {
    pub operation: CompilerOperation,
    pub arguments: Vec<String>,
}

/// What the caller does next.
pub enum ExtractionAction {
    /// Run the invocation and report its successful output.
    Run(CargoInvocation),
    /// Run the invocation with the private probe in place of rustdoc and
    /// report the cfg values it captured.
    Probe(CargoInvocation),
    /// Canonicalize both paths and report their components.
    Canonicalize { source_root: String, target_root: String },
    /// Nothing is left to run.
    Finished,
}

/// A result the caller reports.
pub enum ExtractionEvent {
    /// The output of `cargo pkgid`.
    PackageIdentified(CargoOutput),
    /// What `cargo metadata` reported, already read into its model.
    MetadataReported(CargoMetadata),
    /// The output of `cargo metadata`, still to be read.
    MetadataPrinted(CargoOutput),
    /// The components of the canonical source root and target root.
    RootsCanonicalized { source: Vec<Vec<u8>>, target: Vec<Vec<u8>> },
    /// The output of `rustc -vV`.
    CompilerVersionReported(CargoOutput),
    /// The cfg values the probe captured.
    ProbeCaptured(Vec<String>),
    /// What the rustdoc JSON document states of itself.
    RustdocDocumented { includes_private: bool, target_triple: String, item_count: u64 },
    /// The output of `rustc --print cfg`.
    ConfigurationReported(CargoOutput),
}

/// Where an extraction stands, with what it has learned so far.
pub enum ExtractionStage {
    PackageId,
    Metadata { package_id: Option<String> },
    ResolvedMetadata { package_id: Option<String> },
    Identify { project: CargoProject },
    CompilerVersion { project: CargoProject },
    Probe { project: CargoProject, identity: CompilerIdentity },
    Rustdoc { project: CargoProject, identity: CompilerIdentity, rustdoc_cfg_values: Vec<String> },
    Configuration {
        project: CargoProject,
        identity: CompilerIdentity,
        rustdoc_cfg_values: Vec<String>,
        target_triple: String,
    },
    Finished { project: CargoProject, identity: CompilerIdentity, target_triple: String, cfg_values: Vec<String> },
}

/// One compiler extraction for a request, a canonical manifest path, an
/// isolated target directory, the source root the crate must lie below, and
/// the crate root it must have, if one is required; once identified, the
/// crate root it documents.
pub struct CompilerExtraction {
    pub request: CompilerRequest,
    pub manifest: String,
    pub target_directory: String,
    pub source_root: String,
    pub expected: Option<CrateRootArg>,
    pub crate_root: Option<CrateRootArg>,
    pub stage: ExtractionStage,
}

/// `a` runs `operation` with exactly `arguments`.
pub open spec fn runs(a: ExtractionAction, operation: CompilerOperation, arguments: Seq<Seq<char>>) -> bool {
    a matches ExtractionAction::Run(inv) && inv.operation == operation && string_views(inv.arguments@) == arguments
}

/// `a` runs the probe over exactly `arguments`.
pub open spec fn probes(a: ExtractionAction, arguments: Seq<Seq<char>>) -> bool {
    a matches ExtractionAction::Probe(inv) && inv.operation == CompilerOperation::RustdocConfigurationProbe
        && string_views(inv.arguments@) == arguments
}

/// The event an extraction at stage `s` waits for.
pub open spec fn expects(s: ExtractionStage, e: ExtractionEvent) -> bool {
    match s {
        ExtractionStage::PackageId => e is PackageIdentified,
        ExtractionStage::Metadata { .. } => e is MetadataReported || e is MetadataPrinted,
        ExtractionStage::ResolvedMetadata { .. } => e is MetadataReported || e is MetadataPrinted,
        ExtractionStage::Identify { .. } => e is RootsCanonicalized,
        ExtractionStage::CompilerVersion { .. } => e is CompilerVersionReported,
        ExtractionStage::Probe { .. } => e is ProbeCaptured,
        ExtractionStage::Rustdoc { .. } => e is RustdocDocumented,
        ExtractionStage::Configuration { .. } => e is ConfigurationReported,
        ExtractionStage::Finished { .. } => false,
    }
}

/// The package id `cargo pkgid` printed: its trimmed UTF-8 text.
pub open spec fn printed_package_id(stdout: Seq<u8>) -> Seq<char> {
    trim(decode_utf8(stdout))
}

/// The targets of the package a request selects in `m`.
pub open spec fn chosen_targets(m: CargoMetadata, package_id: Option<Seq<char>>) -> Seq<crate::compiler::project::MetadataTarget> {
    m.packages@[package_choice(m, package_id)->Some_0].targets@
}

/// `e` is how selecting in `m` fails: no package for the request, or no
/// target in the chosen package.
pub open spec fn selection_error(m: CargoMetadata, package_id: Option<Seq<char>>, target: CargoTarget, e: CompilerError) -> bool {
    match package_choice(m, package_id) {
        None => crate::compiler::project::package_error(m, package_id, e),
        Some(pi) => target_choice(m.packages@[pi].targets@, target) is None && crate::compiler::project::target_error(
            m.packages@[pi].targets@,
            target,
            e,
        ),
    }
}

/// `e` is how accounting a metadata report fails: cancellation, the
/// deadline, or a metadata package or target limit.
pub open spec fn metadata_accounting_error(e: CompilerError) -> bool {
    ||| e is CompilerExtractionCancelled
    ||| e is ProcessTimeout
    ||| e matches CompilerError::CompilerSemanticLimit { operation, resource, .. } && operation
        == CompilerOperation::Metadata && (resource == CompilerSemanticResource::MetadataPackages || resource
        == CompilerSemanticResource::MetadataTargets)
}

/// The outcome of the first metadata report `m`: the selection it
/// allows names the resolving metadata run; otherwise the accounting or
/// selection error.
pub open spec fn unresolved_outcome(
    x: CompilerExtraction,
    package_id: Option<String>,
    m: CargoMetadata,
    r: Result<(CompilerExtraction, ExtractionAction), CompilerError>,
) -> bool {
    let requested = optional_view(package_id);
    &&& r matches Ok((next, a)) ==> (next.stage matches ExtractionStage::ResolvedMetadata { package_id: kept }
        && kept == package_id && exists|p: CargoProject|
        selected(m, requested, x.request, p) && runs(
            a,
            CompilerOperation::Metadata,
            metadata_args(x.request, x.manifest@, Some(p)),
        ))
    &&& package_choice(m, requested) is None ==> r is Err
    &&& package_choice(m, requested) is Some && target_choice(chosen_targets(m, requested), x.request.target)
        is None ==> r is Err
    &&& r matches Err(e) ==> metadata_accounting_error(e) || selection_error(m, requested, x.request.target, e)
}

/// The outcome of the resolved metadata report `m`: the selected project,
/// whose roots are canonicalized next; otherwise the accounting or
/// selection error.
pub open spec fn resolved_outcome(
    x: CompilerExtraction,
    package_id: Option<String>,
    m: CargoMetadata,
    r: Result<(CompilerExtraction, ExtractionAction), CompilerError>,
) -> bool {
    let requested = optional_view(package_id);
    &&& r matches Ok((next, a)) ==> (next.stage matches ExtractionStage::Identify { project }
        && selected(m, requested, x.request, project) && (a matches ExtractionAction::Canonicalize {
        source_root,
        target_root,
    } && source_root@ == x.source_root@ && target_root@ == project.target_root@))
    &&& package_choice(m, requested) is None ==> r is Err
    &&& package_choice(m, requested) is Some && target_choice(chosen_targets(m, requested), x.request.target)
        is None ==> r is Err
    &&& r matches Err(e) ==> metadata_accounting_error(e) || selection_error(m, requested, x.request.target, e)
}

/// Printed metadata fails as invalid exactly when it is not a metadata
/// document.
pub open spec fn printed_outcome(stdout: Seq<u8>, r: Result<(CompilerExtraction, ExtractionAction), CompilerError>) -> bool {
    (r matches Err(e) && e is InvalidCargoMetadata) <==> crate::compiler::project::metadata_json(stdout) is None
}

/// `m` names a package and a target for the request, and `p` documents them.
pub open spec fn selected(m: CargoMetadata, package_id: Option<Seq<char>>, request: CompilerRequest, p: CargoProject) -> bool {
    &&& package_choice(m, package_id) is Some
    &&& target_choice(chosen_targets(m, package_id), request.target) is Some
    &&& project_of(m, package_choice(m, package_id)->Some_0, target_choice(chosen_targets(m, package_id), request.target)->Some_0, p)
}

/// The arguments of the version query.
pub open spec fn version_args(x: CompilerExtraction, p: CargoProject) -> Seq<Seq<char>> {
    rustc_args(p, x.request, x.manifest@, x.target_directory@, None, seq!["-vV"@])
}

/// The arguments of the cfg query for the documented platform.
pub open spec fn configuration_args(x: CompilerExtraction, p: CargoProject, triple: Seq<char>) -> Seq<Seq<char>> {
    rustc_args(p, x.request, x.manifest@, x.target_directory@, Some(triple), seq!["--print"@, "cfg"@])
}

/// Every Cargo invocation `a` asks for runs with `--locked` right after
/// its subcommand.
pub open spec fn locked(a: ExtractionAction) -> bool {
    match a {
        ExtractionAction::Run(inv) => inv.arguments@.len() > 1 && inv.arguments@[1]@ == "--locked"@,
        ExtractionAction::Probe(inv) => inv.arguments@.len() > 1 && inv.arguments@[1]@ == "--locked"@,
        ExtractionAction::Canonicalize { .. } => true,
        ExtractionAction::Finished => true,
    }
}

/// Each Cargo argument list of an extraction has `--locked` second.
pub proof fn lemma_cargo_arguments_locked(
    p: CargoProject,
    request: CompilerRequest,
    manifest: Seq<char>,
    target_directory: Seq<char>,
    target_override: Option<Seq<char>>,
    compiler_arguments: Seq<Seq<char>>,
    project: Option<CargoProject>,
)
    ensures
        metadata_args(request, manifest, project).len() > 1 && metadata_args(request, manifest, project)[1] == "--locked"@,
        rustc_args(p, request, manifest, target_directory, target_override, compiler_arguments).len() > 1 && rustc_args(
            p,
            request,
            manifest,
            target_directory,
            target_override,
            compiler_arguments,
        )[1] == "--locked"@,
        rustdoc_args(p, request, manifest, target_directory).len() > 1 && rustdoc_args(p, request, manifest, target_directory)[1]
            == "--locked"@,
{
}

proof fn lemma_views_locked(v: Seq<String>, s: Seq<Seq<char>>)
    requires
        string_views(v) == s,
        s.len() > 1,
        s[1] == "--locked"@,
    ensures
        v.len() > 1,
        v[1]@ == "--locked"@,
{
    assert(string_views(v)[1] == v[1]@);
}

fn text_arguments(first: &str, second: Option<&str>) -> (r: Vec<String>)
    ensures
        string_views(r@) == match second {
            Some(s) => seq![first@, s@],
            None => seq![first@],
        },
{
    let mut r: Vec<String> = Vec::new();
    r.push(first.to_owned());
    if let Some(s) = second {
        r.push(s.to_owned());
    }
    assert(string_views(r@) =~= match second {
        Some(s) => seq![first@, s@],
        None => seq![first@],
    });
    r
}

fn target_counts(m: &CargoMetadata) -> (v: Vec<usize>)
    ensures
        v@.len() == m.packages@.len(),
{
    let mut v: Vec<usize> = Vec::new();
    let mut i: usize = 0;
    while i < m.packages.len()
        invariant
            i <= m.packages@.len(),
            v@.len() == i,
        decreases m.packages@.len() - i,
    {
        v.push(m.packages[i].targets.len());
        i += 1;
    }
    v
}

impl CompilerExtraction {
    /// Starts an extraction: it first resolves a requested package's id,
    /// else queries the unresolved metadata.
    pub fn start(
        request: CompilerRequest,
        manifest: String,
        target_directory: String,
        source_root: String,
        expected: Option<CrateRootArg>,
    ) -> (r: (Self, ExtractionAction))
        ensures
            r.0.request == request,
            r.0.manifest@ == manifest@,
            r.0.target_directory@ == target_directory@,
            r.0.source_root@ == source_root@,
            r.0.expected == expected,
            r.0.crate_root is None,
            locked(r.1),
            request.package matches Some(p) ==> (r.0.stage is PackageId && runs(
                r.1,
                CompilerOperation::PackageId,
                seq!["pkgid"@, "--locked"@, "--manifest-path"@, manifest@, "--package"@, p@],
            )),
            request.package is None ==> (r.0.stage matches ExtractionStage::Metadata { package_id } && package_id is None
                && runs(r.1, CompilerOperation::Metadata, metadata_args(request, manifest@, None))),
    {
        let action = match &request.package {
            Some(package) => ExtractionAction::Run(
                CargoInvocation { operation: CompilerOperation::PackageId, arguments: package_id_arguments(&manifest, package) },
            ),
            None => ExtractionAction::Run(
                CargoInvocation {
                    operation: CompilerOperation::Metadata,
                    arguments: metadata_arguments(&request, &manifest, None),
                },
            ),
        };
        proof {
            reveal_strlit("--locked");
            lemma_cargo_arguments_locked(arbitrary(), request, manifest@, seq![], None, seq![], None);
            let arguments = action->Run_0.arguments@;
            if request.package is Some {
                lemma_views_locked(arguments, seq!["pkgid"@, "--locked"@, "--manifest-path"@, manifest@, "--package"@, request.package->Some_0@]);
            } else {
                lemma_views_locked(arguments, metadata_args(request, manifest@, None));
            }
        }
        let stage = match &request.package {
            Some(_) => ExtractionStage::PackageId,
            None => ExtractionStage::Metadata { package_id: None },
        };
        (CompilerExtraction { request, manifest, target_directory, source_root, expected, crate_root: None, stage }, action)
    }
}

/// The text of a successful output, or the failure of its operation.
fn output_text(output: CargoOutput, operation: CompilerOperation) -> (r: Result<String, CompilerError>)
    ensures
        r is Ok <==> valid_utf8(output.stdout@),
        r matches Ok(s) ==> s@ == decode_utf8(output.stdout@),
        r matches Err(e) ==> (e matches CompilerError::NonUtf8ProcessOutput { operation: o, .. } && o == operation),
{
    let ghost bytes = output.stdout@;
    let r = output.utf8_stdout(operation);
    proof {
        if r is Ok {
            vstd::utf8::encode_utf8_decode_utf8(r->Ok_0@);
        }
    }
    r
}

impl CompilerExtraction {
    /// Whether the current stage waits for `event`.
    pub fn awaits(&self, event: &ExtractionEvent) -> (r: bool)
        ensures
            r == expects(self.stage, *event),
    {
        match (&self.stage, event) {
            (ExtractionStage::PackageId, ExtractionEvent::PackageIdentified(_)) => true,
            (ExtractionStage::Metadata { .. }, ExtractionEvent::MetadataReported(_)) => true,
            (ExtractionStage::Metadata { .. }, ExtractionEvent::MetadataPrinted(_)) => true,
            (ExtractionStage::ResolvedMetadata { .. }, ExtractionEvent::MetadataReported(_)) => true,
            (ExtractionStage::ResolvedMetadata { .. }, ExtractionEvent::MetadataPrinted(_)) => true,
            (ExtractionStage::Identify { .. }, ExtractionEvent::RootsCanonicalized { .. }) => true,
            (ExtractionStage::CompilerVersion { .. }, ExtractionEvent::CompilerVersionReported(_)) => true,
            (ExtractionStage::Probe { .. }, ExtractionEvent::ProbeCaptured(_)) => true,
            (ExtractionStage::Rustdoc { .. }, ExtractionEvent::RustdocDocumented { .. }) => true,
            (ExtractionStage::Configuration { .. }, ExtractionEvent::ConfigurationReported(_)) => true,
            _ => false,
        }
    }
}

impl CompilerExtraction {
    /// Takes the result the current stage waits for, and either names the
    /// next invocation or fails with the first error.
    pub fn advance(self, event: ExtractionEvent, usage: &CompilerUsage) -> (r: Result<(Self, ExtractionAction), CompilerError>)
        requires
            expects(self.stage, event),
        ensures
            r matches Ok((next, a)) ==> next.request == self.request && next.manifest@ == self.manifest@
                && next.target_directory@ == self.target_directory@ && next.source_root@ == self.source_root@
                && next.expected == self.expected && locked(a),
            !(self.stage is Identify) ==> (r matches Ok((next, a)) ==> next.crate_root == self.crate_root),
            self.stage is PackageId ==> (event matches ExtractionEvent::PackageIdentified(out) ==> {
                &&& r is Ok <==> valid_utf8(out.stdout@)
                &&& r matches Ok((next, a)) ==> (next.stage matches ExtractionStage::Metadata { package_id }
                    && package_id matches Some(id) && id@ == printed_package_id(out.stdout@) && runs(
                    a,
                    CompilerOperation::Metadata,
                    metadata_args(self.request, self.manifest@, None),
                ))
                &&& r matches Err(e) ==> e is InvalidPackageIdOutput
            }),
            self.stage matches ExtractionStage::Metadata { package_id } ==> {
                &&& event matches ExtractionEvent::MetadataReported(m) ==> unresolved_outcome(self, package_id, m, r)
                &&& event matches ExtractionEvent::MetadataPrinted(out) ==> printed_outcome(out.stdout@, r)
                &&& event matches ExtractionEvent::MetadataPrinted(out) ==> (crate::compiler::project::metadata_json(
                    out.stdout@,
                ) is Some ==> (exists|m: CargoMetadata|
                    #[trigger] crate::compiler::project::parsed_metadata(out.stdout@, m) && unresolved_outcome(self, package_id, m, r)))
            },
            self.stage matches ExtractionStage::ResolvedMetadata { package_id } ==> {
                &&& event matches ExtractionEvent::MetadataReported(m) ==> resolved_outcome(self, package_id, m, r)
                &&& event matches ExtractionEvent::MetadataPrinted(out) ==> printed_outcome(out.stdout@, r)
                &&& event matches ExtractionEvent::MetadataPrinted(out) ==> (crate::compiler::project::metadata_json(
                    out.stdout@,
                ) is Some ==> (exists|m: CargoMetadata|
                    #[trigger] crate::compiler::project::parsed_metadata(out.stdout@, m) && resolved_outcome(self, package_id, m, r)))
            },
            self.stage matches ExtractionStage::Identify { project } ==> (event matches ExtractionEvent::RootsCanonicalized {
                source,
                target,
            } ==> {
                &&& r matches Ok((next, a)) ==> (next.stage matches ExtractionStage::CompilerVersion { project: kept }
                    && kept == project && next.crate_root is Some && identity_outcome(
                    project,
                    component_bytes(source@),
                    component_bytes(target@),
                    self.expected,
                    Ok(next.crate_root->Some_0),
                ) && runs(a, CompilerOperation::CompilerVersion, version_args(self, project)))
                &&& r matches Err(e) ==> identity_outcome(
                    project,
                    component_bytes(source@),
                    component_bytes(target@),
                    self.expected,
                    Err(e),
                )
            }),
            self.stage matches ExtractionStage::CompilerVersion { project } ==> (event matches ExtractionEvent::CompilerVersionReported(
                out,
            ) ==> {
                let text = decode_utf8(out.stdout@);
                &&& !valid_utf8(out.stdout@) ==> (r matches Err(CompilerError::NonUtf8ProcessOutput { operation, .. })
                    && operation == CompilerOperation::CompilerVersion)
                &&& valid_utf8(out.stdout@) && spec_identity(text) is Err ==> (r matches Err(e) && e is InvalidCompilerIdentity)
                &&& valid_utf8(out.stdout@) && spec_identity(text) is Ok ==> (r matches Ok((next, a)) && next.stage matches ExtractionStage::Probe {
                    project: kept,
                    identity,
                } && kept == project && identity.spec_release() == spec_identity(text)->Ok_0.0 && identity.spec_commit_hash()
                    == spec_identity(text)->Ok_0.1 && identity.spec_commit_date() == spec_identity(text)->Ok_0.2
                    && identity.spec_host() == spec_identity(text)->Ok_0.3 && probes(
                    a,
                    rustdoc_args(project, self.request, self.manifest@, self.target_directory@),
                ))
            }),
            self.stage matches ExtractionStage::Probe { project, identity } ==> (event matches ExtractionEvent::ProbeCaptured(
                values,
            ) ==> (r matches Ok((next, a)) && next.stage matches ExtractionStage::Rustdoc {
                project: p,
                identity: i,
                rustdoc_cfg_values,
            } && p == project && i == identity && rustdoc_cfg_values@ == values@ && runs(
                a,
                CompilerOperation::Rustdoc,
                rustdoc_args(project, self.request, self.manifest@, self.target_directory@),
            ))),
            self.stage matches ExtractionStage::Rustdoc { project, identity, rustdoc_cfg_values } ==> (event matches ExtractionEvent::RustdocDocumented {
                includes_private,
                target_triple,
                item_count,
            } ==> {
                &&& includes_private != (project.kind == RustCrateKind::Binary) ==> (r matches Err(e)
                    && e is RustdocPrivateItemsMismatch)
                &&& r matches Ok((next, a)) ==> {
                    &&& includes_private == (project.kind == RustCrateKind::Binary)
                    &&& (self.request.target_triple matches Some(t) ==> t@ == target_triple@)
                    &&& next.stage matches ExtractionStage::Configuration { project: p, identity: i, rustdoc_cfg_values: c, target_triple: d }
                        && p == project && i == identity && c@ == rustdoc_cfg_values@ && d@ == target_triple@
                    &&& runs(a, CompilerOperation::Configuration, configuration_args(self, project, target_triple@))
                }
                &&& includes_private == (project.kind == RustCrateKind::Binary) && (self.request.target_triple matches Some(t)
                    && t@ != target_triple@) ==> r is Err
                &&& r matches Err(e) ==> {
                    ||| e matches CompilerError::RustdocPrivateItemsMismatch { expected, actual } && expected == (
                        project.kind == RustCrateKind::Binary) && actual == includes_private && actual != expected
                    ||| e is CompilerExtractionCancelled
                    ||| e is ProcessTimeout
                    ||| e matches CompilerError::CompilerSemanticLimit { operation, resource, limit, observed_at_least }
                        && operation == CompilerOperation::Rustdoc && resource == CompilerSemanticResource::RustdocItems
                        && limit == usage.spec_limits().rustdoc_items && observed_at_least > limit
                    ||| e matches CompilerError::RustdocTargetMismatch { expected: x, actual: y } && self.request.target_triple
                        matches Some(t) && x@ == t@ && y@ == target_triple@ && t@ != target_triple@
                }
            }),
            self.stage matches ExtractionStage::Configuration { project, identity, rustdoc_cfg_values, target_triple } ==> (
            event matches ExtractionEvent::ConfigurationReported(out) ==> {
                &&& !valid_utf8(out.stdout@) ==> (r matches Err(CompilerError::NonUtf8ProcessOutput { operation, .. })
                    && operation == CompilerOperation::Configuration)
                &&& r matches Ok((next, a)) ==> {
                    &&& valid_utf8(out.stdout@)
                    &&& a is Finished
                    &&& next.stage matches ExtractionStage::Finished { project: p, identity: i, target_triple: d, cfg_values }
                        && p == project && i == identity && d@ == target_triple@ && merged_configuration(
                        string_views(rustdoc_cfg_values@),
                        decode_utf8(out.stdout@),
                        string_views(cfg_values@),
                    )
                }
                &&& r matches Err(e) ==> {
                    ||| e matches CompilerError::NonUtf8ProcessOutput { operation, .. } && operation
                        == CompilerOperation::Configuration && !valid_utf8(out.stdout@)
                    ||| e is CompilerExtractionCancelled
                    ||| e is ProcessTimeout
                    ||| e matches CompilerError::InvalidCompilerConfiguration { value } && valid_utf8(out.stdout@)
                        && crate::compiler::extractor::config_rejection(
                        string_views(rustdoc_cfg_values@),
                        decode_utf8(out.stdout@),
                        value@,
                    )
                }
            }),
    {
        let CompilerExtraction { request, manifest, target_directory, source_root, expected, crate_root, stage } = self;
        match stage {
            ExtractionStage::PackageId => {
                let out = match event {
                    ExtractionEvent::PackageIdentified(out) => out,
                    _ => return vstd::pervasive::unreached(),
                };
                let text = match string_from_utf8(out.stdout) {
                    Ok(text) => text,
                    Err(message) => return Err(CompilerError::InvalidPackageIdOutput { message }),
                };
                proof {
                    vstd::utf8::encode_utf8_decode_utf8(text@);
                }
                let trimmed = trim_chars(chars_of(text.as_str()).as_slice());
                let package_id = string_from_chars(trimmed.as_slice());
                let arguments = metadata_arguments(&request, &manifest, None);
                proof {
                    reveal_strlit("--locked");
                    lemma_cargo_arguments_locked(arbitrary(), request, manifest@, seq![], None, seq![], None);
                    lemma_views_locked(arguments@, metadata_args(request, manifest@, None));
                }
                let action = ExtractionAction::Run(CargoInvocation { operation: CompilerOperation::Metadata, arguments });
                Ok((
                    CompilerExtraction {
                        request,
                        manifest,
                        target_directory,
                        source_root,
                        expected,
                        crate_root,
                        stage: ExtractionStage::Metadata { package_id: Some(package_id) },
                    },
                    action,
                ))
            },
            ExtractionStage::Metadata { package_id } => {
                let metadata = match event {
                    ExtractionEvent::MetadataReported(m) => m,
                    ExtractionEvent::MetadataPrinted(out) => match parse_cargo_metadata(out.stdout.as_slice()) {
                        Ok(m) => m,
                        Err(e) => return Err(e),
                    },
                    _ => return vstd::pervasive::unreached(),
                };
                let counts = target_counts(&metadata);
                match usage.account_metadata(counts.as_slice()) {
                    Ok(()) => {},
                    Err(e) => return Err(e),
                }
                let unresolved = match CargoProject::select(&metadata, &package_id, &request.target) {
                    Ok(p) => p,
                    Err(e) => return Err(e),
                };
                let arguments = metadata_arguments(&request, &manifest, Some(&unresolved));
                proof {
                    reveal_strlit("--locked");
                    lemma_cargo_arguments_locked(unresolved, request, manifest@, seq![], None, seq![], Some(unresolved));
                    lemma_views_locked(arguments@, metadata_args(request, manifest@, Some(unresolved)));
                }
                let action = ExtractionAction::Run(CargoInvocation { operation: CompilerOperation::Metadata, arguments });
                assert(selected(metadata, optional_view(package_id), request, unresolved));
                assert(runs(action, CompilerOperation::Metadata, metadata_args(request, manifest@, Some(unresolved))));
                Ok((
                    CompilerExtraction {
                        request,
                        manifest,
                        target_directory,
                        source_root,
                        expected,
                        crate_root,
                        stage: ExtractionStage::ResolvedMetadata { package_id },
                    },
                    action,
                ))
            },
            ExtractionStage::ResolvedMetadata { package_id } => {
                let metadata = match event {
                    ExtractionEvent::MetadataReported(m) => m,
                    ExtractionEvent::MetadataPrinted(out) => match parse_cargo_metadata(out.stdout.as_slice()) {
                        Ok(m) => m,
                        Err(e) => return Err(e),
                    },
                    _ => return vstd::pervasive::unreached(),
                };
                let counts = target_counts(&metadata);
                match usage.account_metadata(counts.as_slice()) {
                    Ok(()) => {},
                    Err(e) => return Err(e),
                }
                let project = match CargoProject::select(&metadata, &package_id, &request.target) {
                    Ok(p) => p,
                    Err(e) => return Err(e),
                };
                let action = ExtractionAction::Canonicalize {
                    source_root: source_root.clone(),
                    target_root: project.target_root.clone(),
                };
                Ok((
                    CompilerExtraction {
                        request,
                        manifest,
                        target_directory,
                        source_root,
                        expected,
                        crate_root,
                        stage: ExtractionStage::Identify { project },
                    },
                    action,
                ))
            },
            ExtractionStage::Identify { project } => {
                let (source, target) = match event {
                    ExtractionEvent::RootsCanonicalized { source, target } => (source, target),
                    _ => return vstd::pervasive::unreached(),
                };
                let identified = match crate_identity(&project, &source, &target, &expected) {
                    Ok(root) => root,
                    Err(e) => return Err(e),
                };
                let version = text_arguments("-vV", None);
                proof {
                    reveal_strlit("-vV");
                }
                let arguments = project.rustc_arguments(&request, &manifest, &target_directory, &None, &version);
                proof {
                    reveal_strlit("--locked");
                    lemma_cargo_arguments_locked(project, request, manifest@, target_directory@, None, string_views(version@), None);
                    lemma_views_locked(arguments@, rustc_args(project, request, manifest@, target_directory@, None, string_views(version@)));
                }
                let action = ExtractionAction::Run(CargoInvocation { operation: CompilerOperation::CompilerVersion, arguments });
                Ok((
                    CompilerExtraction {
                        request,
                        manifest,
                        target_directory,
                        source_root,
                        expected,
                        crate_root: Some(identified),
                        stage: ExtractionStage::CompilerVersion { project },
                    },
                    action,
                ))
            },
            ExtractionStage::CompilerVersion { project } => {
                let out = match event {
                    ExtractionEvent::CompilerVersionReported(out) => out,
                    _ => return vstd::pervasive::unreached(),
                };
                let text = match output_text(out, CompilerOperation::CompilerVersion) {
                    Ok(text) => text,
                    Err(e) => return Err(e),
                };
                let identity = match CompilerIdentity::parse(text.as_str()) {
                    Ok(identity) => identity,
                    Err(e) => return Err(e),
                };
                let arguments = project.rustdoc_arguments(&request, &manifest, &target_directory);
                proof {
                    reveal_strlit("--locked");
                    lemma_cargo_arguments_locked(project, request, manifest@, target_directory@, None, seq![], None);
                    lemma_views_locked(arguments@, rustdoc_args(project, request, manifest@, target_directory@));
                }
                let action = ExtractionAction::Probe(
                    CargoInvocation { operation: CompilerOperation::RustdocConfigurationProbe, arguments },
                );
                Ok((
                    CompilerExtraction {
                        request,
                        manifest,
                        target_directory,
                        source_root,
                        expected,
                        crate_root,
                        stage: ExtractionStage::Probe { project, identity },
                    },
                    action,
                ))
            },
            ExtractionStage::Probe { project, identity } => {
                let values = match event {
                    ExtractionEvent::ProbeCaptured(values) => values,
                    _ => return vstd::pervasive::unreached(),
                };
                let arguments = project.rustdoc_arguments(&request, &manifest, &target_directory);
                proof {
                    reveal_strlit("--locked");
                    lemma_cargo_arguments_locked(project, request, manifest@, target_directory@, None, seq![], None);
                    lemma_views_locked(arguments@, rustdoc_args(project, request, manifest@, target_directory@));
                }
                let action = ExtractionAction::Run(CargoInvocation { operation: CompilerOperation::Rustdoc, arguments });
                Ok((
                    CompilerExtraction {
                        request,
                        manifest,
                        target_directory,
                        source_root,
                        expected,
                        crate_root,
                        stage: ExtractionStage::Rustdoc { project, identity, rustdoc_cfg_values: values },
                    },
                    action,
                ))
            },
            ExtractionStage::Rustdoc { project, identity, rustdoc_cfg_values } => {
                let (includes_private, target_triple, item_count) = match event {
                    ExtractionEvent::RustdocDocumented { includes_private, target_triple, item_count } => (
                        includes_private,
                        target_triple,
                        item_count,
                    ),
                    _ => return vstd::pervasive::unreached(),
                };
                match check_private_items(project.kind, includes_private) {
                    Ok(()) => {},
                    Err(e) => return Err(e),
                }
                match usage.account_semantic(CompilerOperation::Rustdoc, CompilerSemanticResource::RustdocItems, item_count) {
                    Ok(()) => {},
                    Err(e) => return Err(e),
                }
                match check_rustdoc_target(&request.target_triple, &target_triple) {
                    Ok(()) => {},
                    Err(e) => return Err(e),
                }
                let query = text_arguments("--print", Some("cfg"));
                proof {
                    reveal_strlit("--print");
                    reveal_strlit("cfg");
                }
                let arguments = project.rustc_arguments(
                    &request,
                    &manifest,
                    &target_directory,
                    &Some(target_triple.clone()),
                    &query,
                );
                proof {
                    reveal_strlit("--locked");
                    lemma_cargo_arguments_locked(project, request, manifest@, target_directory@, Some(target_triple@), string_views(query@), None);
                    lemma_views_locked(arguments@, rustc_args(project, request, manifest@, target_directory@, Some(target_triple@), string_views(query@)));
                }
                let action = ExtractionAction::Run(CargoInvocation { operation: CompilerOperation::Configuration, arguments });
                Ok((
                    CompilerExtraction {
                        request,
                        manifest,
                        target_directory,
                        source_root,
                        expected,
                        crate_root,
                        stage: ExtractionStage::Configuration { project, identity, rustdoc_cfg_values, target_triple },
                    },
                    action,
                ))
            },
            ExtractionStage::Configuration { project, identity, rustdoc_cfg_values, target_triple } => {
                let out = match event {
                    ExtractionEvent::ConfigurationReported(out) => out,
                    _ => return vstd::pervasive::unreached(),
                };
                let text = match output_text(out, CompilerOperation::Configuration) {
                    Ok(text) => text,
                    Err(e) => return Err(e),
                };
                let cfg_values = match CompilerConfiguration::merge(usage, text.as_str(), rustdoc_cfg_values) {
                    Ok(values) => values,
                    Err(e) => return Err(e),
                };
                Ok((
                    CompilerExtraction {
                        request,
                        manifest,
                        target_directory,
                        source_root,
                        expected,
                        crate_root,
                        stage: ExtractionStage::Finished { project, identity, target_triple, cfg_values },
                    },
                    ExtractionAction::Finished,
                ))
            },
            ExtractionStage::Finished { .. } => vstd::pervasive::unreached(),
        }
    }
}

} // verus!
