//! Typed failures of compiler extraction produced by the verified core.

use std::time::Duration;

use vstd::prelude::*;

verus! {

/// One Cargo invocation of an extraction.
#[derive(Clone, Copy, Debug, PartialEq, Eq, Structural)]
pub enum CompilerOperation {
    Metadata,
    PackageId,
    CompilerVersion,
    Configuration,
    RustdocConfigurationProbe,
    Rustdoc,
}

impl CompilerOperation {
    /// The operation's user-facing name.
    pub fn name(&self) -> (r: &'static str)
        ensures
            r@ == match *self {
                CompilerOperation::Metadata => "Cargo metadata"@,
                CompilerOperation::PackageId => "Cargo package resolution"@,
                CompilerOperation::CompilerVersion => "Cargo compiler-version query"@,
                CompilerOperation::Configuration => "Cargo cfg query"@,
                CompilerOperation::RustdocConfigurationProbe => "Cargo rustdoc cfg-context probe"@,
                CompilerOperation::Rustdoc => "Cargo rustdoc JSON extraction"@,
            },
    {
        match self {
            CompilerOperation::Metadata => "Cargo metadata",
            CompilerOperation::PackageId => "Cargo package resolution",
            CompilerOperation::CompilerVersion => "Cargo compiler-version query",
            CompilerOperation::Configuration => "Cargo cfg query",
            CompilerOperation::RustdocConfigurationProbe => "Cargo rustdoc cfg-context probe",
            CompilerOperation::Rustdoc => "Cargo rustdoc JSON extraction",
        }
    }
}

/// A Cargo output pipe.
#[derive(Clone, Copy, Debug, PartialEq, Eq, Structural)]
pub enum CompilerStream {
    Stdout,
    Stderr,
}

impl CompilerStream {
    /// The stream's user-facing name.
    pub fn name(&self) -> (r: &'static str)
        ensures
            r@ == match *self {
                CompilerStream::Stdout => "stdout"@,
                CompilerStream::Stderr => "stderr"@,
            },
    {
        match self {
            CompilerStream::Stdout => "stdout",
            CompilerStream::Stderr => "stderr",
        }
    }
}

/// A counted semantic resource of an extraction.
#[derive(Clone, Copy, Debug, PartialEq, Eq, Structural)]
pub enum CompilerSemanticResource {
    MetadataPackages,
    MetadataTargets,
    RustdocItems,
    SourceMappings,
}

impl CompilerSemanticResource {
    /// The resource's user-facing name.
    pub fn name(&self) -> (r: &'static str)
        ensures
            r@ == match *self {
                CompilerSemanticResource::MetadataPackages => "Cargo metadata package count"@,
                CompilerSemanticResource::MetadataTargets => "Cargo metadata target count"@,
                CompilerSemanticResource::RustdocItems => "rustdoc item count"@,
                CompilerSemanticResource::SourceMappings => "rustdoc source-mapping count"@,
            },
    {
        match self {
            CompilerSemanticResource::MetadataPackages => "Cargo metadata package count",
            CompilerSemanticResource::MetadataTargets => "Cargo metadata target count",
            CompilerSemanticResource::RustdocItems => "rustdoc item count",
            CompilerSemanticResource::SourceMappings => "rustdoc source-mapping count",
        }
    }
}

/// Why a rustdoc source span cannot be mapped to bytes.
#[derive(Clone, Copy, Debug, PartialEq, Eq, Structural)]
pub enum SpanDefect {
    OneIndexed,
    LineOutsideFile,
    ColumnOutsideLine,
    EndPrecedesBegin,
    StartUnrepresentable,
    EndUnrepresentable,
}

impl SpanDefect {
    /// The defect's user-facing explanation.
    pub fn text(&self) -> (r: &'static str)
        ensures
            r@ == match *self {
                SpanDefect::OneIndexed => "line and column are one-indexed"@,
                SpanDefect::LineOutsideFile => "line is outside the source file"@,
                SpanDefect::ColumnOutsideLine => "column is outside the source line"@,
                SpanDefect::EndPrecedesBegin => "the inclusive end precedes the beginning"@,
                SpanDefect::StartUnrepresentable => "source start byte cannot be represented by the artifact schema"@,
                SpanDefect::EndUnrepresentable => "source end byte cannot be represented by the artifact schema"@,
            },
    {
        match self {
            SpanDefect::OneIndexed => "line and column are one-indexed",
            SpanDefect::LineOutsideFile => "line is outside the source file",
            SpanDefect::ColumnOutsideLine => "column is outside the source line",
            SpanDefect::EndPrecedesBegin => "the inclusive end precedes the beginning",
            SpanDefect::StartUnrepresentable => "source start byte cannot be represented by the artifact schema",
            SpanDefect::EndUnrepresentable => "source end byte cannot be represented by the artifact schema",
        }
    }
}

/// The target a selection looked for and did not find.
#[derive(Clone, Debug, PartialEq, Eq)]
pub enum TargetRequest {
    /// The package's one library target.
    Library,
    /// The package's one binary target.
    Binary,
    /// The binary target of this name.
    NamedBinary(String),
}

/// Typed failures from compiler extraction.
#[derive(Debug)]
pub enum CompilerError {
    CompilerExtractionCancelled,
    ProcessTimeout { operation: CompilerOperation, timeout: Duration },
    ProcessOutputLimit {
        operation: CompilerOperation,
        stream: CompilerStream,
        limit: u64,
        observed_at_least: u64,
    },
    CompilerArtifactFileLimit {
        operation: CompilerOperation,
        path: String,
        limit: u64,
        observed_at_least: u64,
    },
    CompilerArtifactLimit {
        operation: CompilerOperation,
        path: String,
        limit: u64,
        observed_at_least: u64,
    },
    CompilerSemanticLimit {
        operation: CompilerOperation,
        resource: CompilerSemanticResource,
        limit: u64,
        observed_at_least: u64,
    },
    TemporaryArtifactLimit { path: String, limit: u64, observed_at_least: u64 },
    TemporaryArtifactEntryLimit { path: String, limit: u64, observed_at_least: u64 },
    SupportedToolchainUnavailable { toolchain: &'static str, detail: String },
    CargoFailed { operation: CompilerOperation, status: Option<i32>, stderr: String },
    ProcessFailureWithEvidence { primary: Box<CompilerError>, evidence: String },
    NonUtf8ProcessOutput { operation: CompilerOperation, message: String },
    InvalidCompilerIdentity { defect: crate::compiler::extractor::IdentityDefect },
    InvalidCompilerConfiguration { value: String },
    InvalidRustdocProbeCapture { message: String },
    InvalidMappedSourceUtf8 { path: String },
    InvalidPackageIdOutput { message: String },
    InvalidCargoMetadata { message: String },
    ResolvedPackageMissing { id: String },
    WorkspaceDefaultMembersUnavailable,
    AmbiguousPackage { candidates: Vec<String> },
    TargetMissing { requested: TargetRequest },
    AmbiguousTarget { candidates: Vec<String> },
    CompilerCrateCount { expected: usize, actual: usize },
    RustdocPrivateItemsMismatch { expected: bool, actual: bool },
    RustdocTargetMismatch { expected: String, actual: String },
    RustdocArtifactCount { root: String, count: usize },
    CrateRootMismatch { expected: String, actual: String },
    CargoTargetOutsideSourceRoot { source_root: String, target_root: String },
    InvalidMappedSourcePath { path: String },
    InvalidSourceSpan {
        path: String,
        begin_line: usize,
        begin_column: usize,
        end_line: usize,
        end_column: usize,
        defect: SpanDefect,
    },
}

} // verus!
