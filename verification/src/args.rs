//! Validation of command-line values: Cargo selection values, the
//! relationship between the signature extractor and Cargo-only options, and
//! `--crate-root CRATE_ID=KIND:RELATIVE_PATH` values.

use vstd::prelude::*;

use crate::text::{
    any_control, any_whitespace, chars_equal, chars_of, contains_char, has_char, has_control, has_whitespace, split_bounds,
    split_on, string_from_chars, trimmed, is_trimmed,
};

verus! {

/// The signature extraction capability used by check or generation.
#[derive(Clone, Copy, Debug, PartialEq, Eq, Structural)]
pub enum SignatureExtractorArg {
    /// Parse the exact allowlisted Rust sources without invoking Cargo.
    Syntax,
    /// Invoke the pinned, dated nightly Cargo/rustdoc toolchain.
    Compiler,
}

/// The Cargo target selected for compiler extraction.
#[derive(Clone, Debug, PartialEq, Eq)]
pub enum CargoTarget {
    Library,
    Binary(String),
    Automatic,
}

/// The Cargo features selected for compiler extraction.
#[derive(Clone, Debug, PartialEq, Eq)]
pub enum CargoFeatures {
    All,
    Default,
    Selected { names: Vec<String>, include_default: bool },
}

/// The Cargo inputs of one compiler extraction.
#[derive(Clone, Debug, PartialEq, Eq)]
pub struct CompilerRequest {
    pub manifest: String,
    pub package: Option<String>,
    pub target: CargoTarget,
    pub features: CargoFeatures,
    pub target_triple: Option<String>,
}

/// The one closed extraction request used at runtime.
#[derive(Clone, Debug, PartialEq, Eq)]
pub enum RequestedExtraction {
    Syntax,
    Compiler(CompilerRequest),
}

/// Invalid relationship between extractor selection and Cargo-only options.
#[derive(Clone, Debug, PartialEq, Eq)]
pub enum SignatureOptionsError {
    /// Cargo-only options were supplied while syntax extraction was selected.
    SyntaxWithCargoOptions,
    /// Compiler extraction did not receive a manifest path.
    CompilerManifestRequired,
    /// One feature was repeated across comma-delimited or repeated options.
    DuplicateFeature { feature: String },
}

/// The kind of a Cargo selection value.
#[derive(Clone, Copy, Debug, PartialEq, Eq, Structural)]
pub enum SignatureValueKind {
    Package,
    Binary,
    Feature,
    Target,
}

/// Why a Cargo selection value was rejected.
#[derive(Clone, Copy, Debug, PartialEq, Eq, Structural)]
pub enum SignatureValueError {
    Empty { kind: SignatureValueKind },
    Whitespace { kind: SignatureValueKind },
    Control { kind: SignatureValueKind },
    FeatureQualification,
    NonConcreteTarget,
}

/// `s` ends with `suffix`.
pub open spec fn ends_with(s: Seq<char>, suffix: Seq<char>) -> bool {
    s.len() >= suffix.len() && s.skip(s.len() - suffix.len()) == suffix
}

/// A target that names the host, lacks a `-`, holds a path separator or
/// names a JSON target file.
pub open spec fn non_concrete_target(v: Seq<char>) -> bool {
    ||| v == "host-tuple"@
    ||| !has_char(v, '-')
    ||| has_char(v, '/')
    ||| has_char(v, '\\')
    ||| ends_with(v, ".json"@)
}

/// Some `/`-separated segment of `v` is empty.
pub open spec fn has_empty_segment(v: Seq<char>) -> bool {
    exists|i: int| 0 <= i < split_on(v, '/').len() && (#[trigger] split_on(v, '/')[i]).len() == 0
}

/// Why `v` is not a valid value of `kind`, if it is not.
pub open spec fn value_rejection(kind: SignatureValueKind, v: Seq<char>) -> Option<SignatureValueError> {
    if v.len() == 0 {
        Some(SignatureValueError::Empty { kind })
    } else if has_control(v) {
        Some(SignatureValueError::Control { kind })
    } else if has_whitespace(v) {
        Some(SignatureValueError::Whitespace { kind })
    } else if kind == SignatureValueKind::Feature && has_empty_segment(v) {
        Some(SignatureValueError::FeatureQualification)
    } else if kind == SignatureValueKind::Target && non_concrete_target(v) {
        Some(SignatureValueError::NonConcreteTarget)
    } else {
        None
    }
}

fn has_empty_piece(v: &[char]) -> (r: bool)
    ensures
        r == has_empty_segment(v@),
{
    let bounds = split_bounds(v, '/');
    let mut i: usize = 0;
    while i < bounds.len()
        invariant
            i <= bounds@.len(),
            bounds@.len() == split_on(v@, '/').len(),
            forall|j: int|
                0 <= j < bounds@.len() ==> {
                    &&& 0 <= #[trigger] bounds@[j].0 <= bounds@[j].1 <= v@.len()
                    &&& v@.subrange(bounds@[j].0 as int, bounds@[j].1 as int) == split_on(v@, '/')[j]
                },
            forall|j: int| 0 <= j < i ==> (#[trigger] split_on(v@, '/')[j]).len() > 0,
        decreases bounds@.len() - i,
    {
        let (start, end) = bounds[i];
        if start == end {
            assert(split_on(v@, '/')[i as int].len() == 0);
            return true;
        }
        assert(split_on(v@, '/')[i as int].len() > 0);
        i += 1;
    }
    false
}

fn ends_with_chars(s: &[char], suffix: &[char]) -> (r: bool)
    ensures
        r == ends_with(s@, suffix@),
{
    crate::compiler::extractor::ends_with_chars(s, suffix)
}

impl SignatureValueKind {
    /// Accepts a non-empty value free of control characters and white
    /// space; features must not have an empty `/` segment, and targets must
    /// be concrete target triples.
    pub fn parse(self, value: &str) -> (r: Result<String, SignatureValueError>)
        ensures
            match value_rejection(self, value@) {
                Some(e) => r == Err::<String, SignatureValueError>(e),
                None => r matches Ok(s) && s@ == value@,
            },
    {
        let chars = chars_of(value);
        if chars.len() == 0 {
            return Err(SignatureValueError::Empty { kind: self });
        }
        if any_control(chars.as_slice()) {
            return Err(SignatureValueError::Control { kind: self });
        }
        if any_whitespace(chars.as_slice()) {
            return Err(SignatureValueError::Whitespace { kind: self });
        }
        if self == SignatureValueKind::Feature && has_empty_piece(chars.as_slice()) {
            return Err(SignatureValueError::FeatureQualification);
        }
        if self == SignatureValueKind::Target {
            let host = chars_of("host-tuple");
            let json = chars_of(".json");
            if chars_equal(chars.as_slice(), host.as_slice()) || !contains_char(chars.as_slice(), '-') || contains_char(
                chars.as_slice(),
                '/',
            ) || contains_char(chars.as_slice(), '\\') || ends_with_chars(chars.as_slice(), json.as_slice()) {
                return Err(SignatureValueError::NonConcreteTarget);
            }
        }
        Ok(value.to_owned())
    }
}

/// Cargo-native options for signature extraction.
#[derive(Clone, Debug)]
pub struct SignatureOptions {
    pub signature_extractor: SignatureExtractorArg,
    pub manifest_path: Option<String>,
    pub package: Option<String>,
    pub library: bool,
    pub binary: Option<String>,
    pub features: Vec<String>,
    pub all_features: bool,
    pub no_default_features: bool,
    pub target: Option<String>,
}

/// Some Cargo-only option was given.
pub open spec fn spec_has_cargo_options(o: SignatureOptions) -> bool {
    ||| o.manifest_path is Some
    ||| o.package is Some
    ||| o.library
    ||| o.binary is Some
    ||| o.features@.len() > 0
    ||| o.all_features
    ||| o.no_default_features
    ||| o.target is Some
}

/// Law: syntax extraction admits no Cargo option. Naming a manifest, a
/// package, a library or binary target, any feature or feature switch, or
/// a target triple each counts as a Cargo option on its own.
pub proof fn lemma_each_cargo_option_counts(o: SignatureOptions)
    ensures
        o.manifest_path is Some ==> spec_has_cargo_options(o),
        o.package is Some ==> spec_has_cargo_options(o),
        o.library ==> spec_has_cargo_options(o),
        o.binary is Some ==> spec_has_cargo_options(o),
        o.features@.len() > 0 ==> spec_has_cargo_options(o),
        o.all_features ==> spec_has_cargo_options(o),
        o.no_default_features ==> spec_has_cargo_options(o),
        o.target is Some ==> spec_has_cargo_options(o),
{
}

/// Index `k` repeats an earlier feature, and no earlier index does.
pub open spec fn first_repeat(features: Seq<String>, k: int) -> bool {
    &&& 0 <= k < features.len()
    &&& exists|j: int| 0 <= j < k && (#[trigger] features[j])@ == features[k]@
    &&& forall|a: int, b: int| 0 <= a < b < k ==> (#[trigger] features[a])@ != (#[trigger] features[b])@
}

/// No feature is given twice.
pub open spec fn features_distinct(features: Seq<String>) -> bool {
    forall|a: int, b: int| 0 <= a < b < features.len() ==> (#[trigger] features[a])@ != (#[trigger] features[b])@
}

/// The request that compiler extraction with options `o` stands for.
pub open spec fn spec_compiler_request(o: SignatureOptions, r: CompilerRequest) -> bool {
    &&& o.manifest_path matches Some(m) && r.manifest@ == m@
    &&& r.package == o.package
    &&& r.target_triple == o.target
    &&& if o.library {
        r.target is Library
    } else if o.binary is Some {
        r.target == CargoTarget::Binary(o.binary.unwrap())
    } else {
        r.target is Automatic
    }
    &&& if o.all_features {
        r.features is All
    } else if o.features@.len() == 0 && !o.no_default_features {
        r.features is Default
    } else {
        r.features matches CargoFeatures::Selected { names, include_default } && names@ == o.features@
            && include_default == !o.no_default_features
    }
}

impl SignatureOptions {
    /// Some Cargo-only option was given.
    pub fn has_cargo_options(&self) -> (r: bool)
        ensures
            r == spec_has_cargo_options(*self),
            self.manifest_path is Some ==> r,
            self.package is Some ==> r,
            self.library ==> r,
            self.binary is Some ==> r,
            self.features@.len() > 0 ==> r,
            self.all_features ==> r,
            self.no_default_features ==> r,
            self.target is Some ==> r,
            self.manifest_path is None && self.package is None && !self.library && self.binary is None
                && self.features@.len() == 0 && !self.all_features && !self.no_default_features && self.target is None
                ==> !r,
    {
        self.manifest_path.is_some() || self.package.is_some() || self.library || self.binary.is_some()
            || self.features.len() > 0 || self.all_features || self.no_default_features || self.target.is_some()
    }

    /// Converts the parsed options into the one closed extraction request:
    /// syntax extraction admits no Cargo option, compiler extraction needs a
    /// manifest and distinct features.
    pub fn requested_extraction(&self) -> (r: Result<RequestedExtraction, SignatureOptionsError>)
        ensures
            self.signature_extractor is Syntax ==> if spec_has_cargo_options(*self) {
                r == Err::<RequestedExtraction, SignatureOptionsError>(SignatureOptionsError::SyntaxWithCargoOptions)
            } else {
                r == Ok::<RequestedExtraction, SignatureOptionsError>(RequestedExtraction::Syntax)
            },
            self.signature_extractor is Syntax && (self.manifest_path is Some || self.package is Some || self.library
                || self.binary is Some || self.features@.len() > 0 || self.all_features || self.no_default_features
                || self.target is Some) ==> r == Err::<RequestedExtraction, SignatureOptionsError>(
                SignatureOptionsError::SyntaxWithCargoOptions,
            ),
            self.signature_extractor is Syntax && self.manifest_path is None && self.package is None && !self.library
                && self.binary is None && self.features@.len() == 0 && !self.all_features && !self.no_default_features
                && self.target is None ==> r == Ok::<RequestedExtraction, SignatureOptionsError>(
                RequestedExtraction::Syntax,
            ),
            self.signature_extractor is Compiler && self.manifest_path is None ==> r == Err::<
                RequestedExtraction,
                SignatureOptionsError,
            >(SignatureOptionsError::CompilerManifestRequired),
            self.signature_extractor is Compiler && self.manifest_path is Some ==> {
                &&& features_distinct(self.features@) ==> (r matches Ok(RequestedExtraction::Compiler(request))
                    && spec_compiler_request(*self, request))
                &&& !features_distinct(self.features@) ==> (r matches Err(SignatureOptionsError::DuplicateFeature {
                    feature,
                }) && exists|k: int| first_repeat(self.features@, k) && feature@ == self.features@[k]@)
            },
    {
        match self.signature_extractor {
            SignatureExtractorArg::Syntax => {
                if self.has_cargo_options() {
                    return Err(SignatureOptionsError::SyntaxWithCargoOptions);
                }
                return Ok(RequestedExtraction::Syntax);
            },
            SignatureExtractorArg::Compiler => {
                if self.manifest_path.is_none() {
                    return Err(SignatureOptionsError::CompilerManifestRequired);
                }
            },
        }
        let mut k: usize = 0;
        while k < self.features.len()
            invariant
                k <= self.features@.len(),
                self.signature_extractor is Compiler,
                self.manifest_path is Some,
                forall|a: int, b: int| 0 <= a < b < k ==> (#[trigger] self.features@[a])@ != (#[trigger] self.features@[b])@,
            decreases self.features@.len() - k,
        {
            let current = chars_of(self.features[k].as_str());
            let mut j: usize = 0;
            while j < k
                invariant
                    j <= k < self.features@.len(),
                    self.signature_extractor is Compiler,
                    self.manifest_path is Some,
                    forall|a: int, b: int| 0 <= a < b < k ==> (#[trigger] self.features@[a])@ != (#[trigger] self.features@[b])@,
                    current@ == self.features@[k as int]@,
                    forall|a: int| 0 <= a < j ==> (#[trigger] self.features@[a])@ != self.features@[k as int]@,
                decreases k - j,
            {
                if chars_equal(chars_of(self.features[j].as_str()).as_slice(), current.as_slice()) {
                    proof {
                        assert(self.features@[j as int]@ == self.features@[k as int]@);
                        assert(first_repeat(self.features@, k as int));
                    }
                    return Err(SignatureOptionsError::DuplicateFeature { feature: self.features[k].clone() });
                }
                j += 1;
            }
            k += 1;
        }
        let manifest = match &self.manifest_path {
            Some(m) => m.clone(),
            None => return Err(SignatureOptionsError::CompilerManifestRequired),
        };
        let target = if self.library {
            CargoTarget::Library
        } else {
            match &self.binary {
                Some(binary) => CargoTarget::Binary(binary.clone()),
                None => CargoTarget::Automatic,
            }
        };
        let features = if self.all_features {
            CargoFeatures::All
        } else if self.features.len() == 0 && !self.no_default_features {
            CargoFeatures::Default
        } else {
            CargoFeatures::Selected { names: self.features.clone(), include_default: !self.no_default_features }
        };
        Ok(
            RequestedExtraction::Compiler(
                CompilerRequest {
                    manifest,
                    package: self.package.clone(),
                    target,
                    features,
                    target_triple: self.target.clone(),
                },
            ),
        )
    }

    /// A `--package` value.
    pub fn parse_package(value: &str) -> (r: Result<String, SignatureValueError>)
        ensures
            match value_rejection(SignatureValueKind::Package, value@) {
                Some(e) => r == Err::<String, SignatureValueError>(e),
                None => r matches Ok(s) && s@ == value@,
            },
    {
        SignatureValueKind::Package.parse(value)
    }

    /// A `--bin` value.
    pub fn parse_binary(value: &str) -> (r: Result<String, SignatureValueError>)
        ensures
            match value_rejection(SignatureValueKind::Binary, value@) {
                Some(e) => r == Err::<String, SignatureValueError>(e),
                None => r matches Ok(s) && s@ == value@,
            },
    {
        SignatureValueKind::Binary.parse(value)
    }

    /// A `--features` value.
    pub fn parse_feature(value: &str) -> (r: Result<String, SignatureValueError>)
        ensures
            match value_rejection(SignatureValueKind::Feature, value@) {
                Some(e) => r == Err::<String, SignatureValueError>(e),
                None => r matches Ok(s) && s@ == value@,
            },
    {
        SignatureValueKind::Feature.parse(value)
    }

    /// A `--target` value.
    pub fn parse_target(value: &str) -> (r: Result<String, SignatureValueError>)
        ensures
            match value_rejection(SignatureValueKind::Target, value@) {
                Some(e) => r == Err::<String, SignatureValueError>(e),
                None => r matches Ok(s) && s@ == value@,
            },
    {
        SignatureValueKind::Target.parse(value)
    }
}

/// The kind of an explicit crate root.
#[derive(Clone, Copy, Debug, PartialEq, Eq, Structural)]
pub enum RustCrateKind {
    Library,
    Binary,
}

/// Why a `--crate-root` value was rejected.
#[derive(Clone, Debug, PartialEq, Eq)]
pub enum CrateRootArgError {
    MissingSeparator,
    EmptyId,
    IdWhitespace,
    IdDelimiter,
    IdControl,
    MissingKindSeparator,
    EmptyKind,
    KindWhitespace,
    UnsupportedKind { kind: String },
    EmptyRoot,
    RootWhitespace,
    AbsoluteRoot,
}

/// Why a `--crate-root` value is rejected, as a value of the specification.
pub enum CrateRootRejection {
    MissingSeparator,
    EmptyId,
    IdWhitespace,
    IdDelimiter,
    IdControl,
    MissingKindSeparator,
    EmptyKind,
    KindWhitespace,
    UnsupportedKind(Seq<char>),
    EmptyRoot,
    RootWhitespace,
    AbsoluteRoot,
}

/// `e` reports the rejection `r`.
pub open spec fn crate_root_error_is(e: CrateRootArgError, r: CrateRootRejection) -> bool {
    match r {
        CrateRootRejection::MissingSeparator => e is MissingSeparator,
        CrateRootRejection::EmptyId => e is EmptyId,
        CrateRootRejection::IdWhitespace => e is IdWhitespace,
        CrateRootRejection::IdDelimiter => e is IdDelimiter,
        CrateRootRejection::IdControl => e is IdControl,
        CrateRootRejection::MissingKindSeparator => e is MissingKindSeparator,
        CrateRootRejection::EmptyKind => e is EmptyKind,
        CrateRootRejection::KindWhitespace => e is KindWhitespace,
        CrateRootRejection::UnsupportedKind(k) => e matches CrateRootArgError::UnsupportedKind { kind } && kind@ == k,
        CrateRootRejection::EmptyRoot => e is EmptyRoot,
        CrateRootRejection::RootWhitespace => e is RootWhitespace,
        CrateRootRejection::AbsoluteRoot => e is AbsoluteRoot,
    }
}

/// The index of the first `c` in `v`.
pub open spec fn first_index(v: Seq<char>, c: char) -> Option<int> {
    if exists|i: int| 0 <= i < v.len() && v[i] == c && forall|j: int| 0 <= j < i ==> v[j] != c {
        Some(choose|i: int| 0 <= i < v.len() && v[i] == c && forall|j: int| 0 <= j < i ==> v[j] != c)
    } else {
        None
    }
}

fn find_first(v: &[char], c: char) -> (r: Option<usize>)
    ensures
        r matches Some(i) ==> first_index(v@, c) == Some(i as int) && i < v@.len(),
        r is None ==> first_index(v@, c) is None,
{
    let mut i: usize = 0;
    while i < v.len()
        invariant
            i <= v@.len(),
            forall|j: int| 0 <= j < i ==> v@[j] != c,
        decreases v@.len() - i,
    {
        if v[i] == c {
            proof {
                let k = choose|k: int| 0 <= k < v@.len() && v@[k] == c && forall|j: int| 0 <= j < k ==> v@[j] != c;
                if k < i {
                } else if k > i {
                    assert(v@[i as int] == c);
                }
            }
            return Some(i);
        }
        i += 1;
    }
    None
}

/// A root path that is absolute on Unix hosts (begins with `/`).
pub open spec fn absolute_root(root: Seq<char>) -> bool {
    root.len() > 0 && root[0] == '/'
}

/// The id, kind and relative root of a `CRATE_ID=KIND:RELATIVE_PATH` value,
/// or why it is rejected.
pub open spec fn spec_crate_root(v: Seq<char>) -> Result<(Seq<char>, RustCrateKind, Seq<char>), CrateRootRejection> {
    match first_index(v, '=') {
        None => Err(CrateRootRejection::MissingSeparator),
        Some(eq) => {
            let id = v.take(eq);
            let rest = v.skip(eq + 1);
            if id.len() == 0 {
                Err(CrateRootRejection::EmptyId)
            } else if has_whitespace(id) {
                Err(CrateRootRejection::IdWhitespace)
            } else if has_char(id, ':') || has_char(id, '=') {
                Err(CrateRootRejection::IdDelimiter)
            } else if has_control(id) {
                Err(CrateRootRejection::IdControl)
            } else {
                match first_index(rest, ':') {
                    None => Err(CrateRootRejection::MissingKindSeparator),
                    Some(colon) => {
                        let kind = rest.take(colon);
                        let root = rest.skip(colon + 1);
                        if kind.len() == 0 {
                            Err(CrateRootRejection::EmptyKind)
                        } else if !is_trimmed(kind) {
                            Err(CrateRootRejection::KindWhitespace)
                        } else if kind != "library"@ && kind != "binary"@ {
                            Err(CrateRootRejection::UnsupportedKind(kind))
                        } else if root.len() == 0 {
                            Err(CrateRootRejection::EmptyRoot)
                        } else if !is_trimmed(root) {
                            Err(CrateRootRejection::RootWhitespace)
                        } else if absolute_root(root) {
                            Err(CrateRootRejection::AbsoluteRoot)
                        } else {
                            Ok((id, if kind == "library"@ { RustCrateKind::Library } else { RustCrateKind::Binary }, root))
                        }
                    },
                }
            }
        },
    }
}

/// One parsed `--crate-root CRATE_ID=KIND:RELATIVE_PATH` value.
#[derive(Clone, Debug, PartialEq, Eq)]
pub struct CrateRootArg {
    id: String,
    kind: RustCrateKind,
    root: String,
}

impl CrateRootArg {
    pub closed spec fn spec_id(&self) -> Seq<char> {
        self.id@
    }

    pub closed spec fn spec_kind(&self) -> RustCrateKind {
        self.kind
    }

    pub closed spec fn spec_root(&self) -> Seq<char> {
        self.root@
    }

    /// The crate id.
    pub fn id(&self) -> (s: &str)
        ensures
            s@ == self.spec_id(),
    {
        self.id.as_str()
    }

    /// The crate kind.
    pub fn kind(&self) -> (k: RustCrateKind)
        ensures
            k == self.spec_kind(),
    {
        self.kind
    }

    /// The relative root path.
    pub fn root(&self) -> (s: &str)
        ensures
            s@ == self.spec_root(),
    {
        self.root.as_str()
    }

    /// A crate root of these parts.
    pub(crate) fn from_parts(id: String, kind: RustCrateKind, root: String) -> (r: Self)
        ensures
            r.spec_id() == id@,
            r.spec_kind() == kind,
            r.spec_root() == root@,
    {
        CrateRootArg { id, kind, root }
    }

    /// An equal copy.
    pub fn copied(&self) -> (r: Self)
        ensures
            r == *self,
    {
        CrateRootArg { id: self.id.clone(), kind: self.kind, root: self.root.clone() }
    }

    /// Parses `CRATE_ID=KIND:RELATIVE_PATH`.
    pub fn from_str(value: &str) -> (r: Result<Self, CrateRootArgError>)
        ensures
            match spec_crate_root(value@) {
                Ok((id, kind, root)) => r matches Ok(a) && a.spec_id() == id && a.spec_kind() == kind && a.spec_root()
                    == root,
                Err(rejection) => r matches Err(e) && crate_root_error_is(e, rejection),
            },
    {
        let v = chars_of(value);
        let eq = match find_first(v.as_slice(), '=') {
            Some(eq) => eq,
            None => return Err(CrateRootArgError::MissingSeparator),
        };
        let n = v.len();
        let id = crate::compiler::extractor::copy_range(v.as_slice(), 0, eq);
        let rest = crate::compiler::extractor::copy_range(v.as_slice(), eq + 1, n);
        proof {
            assert(id@ =~= v@.take(eq as int));
            assert(rest@ =~= v@.skip(eq + 1));
        }
        if id.len() == 0 {
            return Err(CrateRootArgError::EmptyId);
        }
        if any_whitespace(id.as_slice()) {
            return Err(CrateRootArgError::IdWhitespace);
        }
        if contains_char(id.as_slice(), ':') || contains_char(id.as_slice(), '=') {
            return Err(CrateRootArgError::IdDelimiter);
        }
        if any_control(id.as_slice()) {
            return Err(CrateRootArgError::IdControl);
        }
        let colon = match find_first(rest.as_slice(), ':') {
            Some(colon) => colon,
            None => return Err(CrateRootArgError::MissingKindSeparator),
        };
        let m = rest.len();
        let kind = crate::compiler::extractor::copy_range(rest.as_slice(), 0, colon);
        let root = crate::compiler::extractor::copy_range(rest.as_slice(), colon + 1, m);
        proof {
            assert(kind@ =~= rest@.take(colon as int));
            assert(root@ =~= rest@.skip(colon + 1));
        }
        if kind.len() == 0 {
            return Err(CrateRootArgError::EmptyKind);
        }
        if !trimmed(kind.as_slice()) {
            return Err(CrateRootArgError::KindWhitespace);
        }
        let library = chars_of("library");
        let binary = chars_of("binary");
        let parsed = if chars_equal(kind.as_slice(), library.as_slice()) {
            RustCrateKind::Library
        } else if chars_equal(kind.as_slice(), binary.as_slice()) {
            RustCrateKind::Binary
        } else {
            return Err(CrateRootArgError::UnsupportedKind { kind: string_from_chars(kind.as_slice()) });
        };
        if root.len() == 0 {
            return Err(CrateRootArgError::EmptyRoot);
        }
        if !trimmed(root.as_slice()) {
            return Err(CrateRootArgError::RootWhitespace);
        }
        if root[0] == '/' {
            return Err(CrateRootArgError::AbsoluteRoot);
        }
        Ok(
            CrateRootArg {
                id: string_from_chars(id.as_slice()),
                kind: parsed,
                root: string_from_chars(root.as_slice()),
            },
        )
    }
}

} // verus!
