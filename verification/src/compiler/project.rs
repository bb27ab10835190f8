//! Cargo package and target selection over what `cargo metadata` reports,
//! and the argument lists of the Cargo invocations of one extraction.

use vstd::prelude::*;

use crate::args::{CargoFeatures, CargoTarget, CompilerRequest, CrateRootArg, RustCrateKind};
use crate::compiler::error::{CompilerError, TargetRequest};
use crate::compiler::extractor::{insert_sorted, strictly_sorted, string_views};
use crate::text::{chars_lt, has_char, lemma_chars_lt_order, str_equal};

verus! {

/// One target of a package, as `cargo metadata` reports it.
#[derive(Clone, Debug)]
pub struct MetadataTarget {
    pub name: String,
    /// The target kinds (`lib`, `bin`, `proc-macro`, ...).
    pub kinds: Vec<String>,
    pub crate_types: Vec<String>,
    pub src_path: String,
}

/// One package, as `cargo metadata` reports it.
#[derive(Clone, Debug)]
pub struct MetadataPackage {
    pub id: String,
    pub name: String,
    pub targets: Vec<MetadataTarget>,
    /// The names of the features the package declares.
    pub feature_names: Vec<String>,
}

/// The features Cargo resolved for one package.
#[derive(Clone, Debug)]
pub struct ResolveNode {
    pub id: String,
    pub features: Vec<String>,
}

/// What package and target selection reads of `cargo metadata`.
#[derive(Clone, Debug)]
pub struct CargoMetadata {
    pub packages: Vec<MetadataPackage>,
    /// The id of the root package, where Cargo names one.
    pub root_package: Option<String>,
    /// The workspace default members; `None` where Cargo does not report them.
    pub workspace_default_members: Option<Vec<String>>,
    /// The resolved nodes; empty where dependencies were not resolved.
    pub resolve_nodes: Vec<ResolveNode>,
}

#[verifier::external_type_specification]
#[verifier::external_body]
pub struct ExCargoMetadataDocument(cargo_metadata::Metadata);

#[verifier::external_type_specification]
#[verifier::external_body]
pub struct ExCargoPackage(cargo_metadata::Package);

/// The document `serde_json` reads of `cargo metadata` output
/// (`serde_json::from_slice` into `cargo_metadata::Metadata`); `None` where
/// the bytes are not such a document. It depends on the bytes alone.
pub uninterp spec fn metadata_json(stdout: Seq<u8>) -> Option<cargo_metadata::Metadata>;

/// The packages of a metadata document (its `packages` field).
pub uninterp spec fn packages_of(document: cargo_metadata::Metadata) -> Seq<cargo_metadata::Package>;

/// What package selection reads of one package: its id, name, targets
/// (name, kinds, crate types, source path) and declared feature names.
pub uninterp spec fn package_view(package: cargo_metadata::Package) -> MetadataPackage;

/// What package selection reads of the rest of a document: the root
/// package's id (`Metadata::root_package`), the workspace default members
/// where Cargo reports them, and the resolved nodes with their features.
pub uninterp spec fn document_view(document: cargo_metadata::Metadata) -> (
    Option<String>,
    Option<Vec<String>>,
    Vec<ResolveNode>,
);

/// Reads `cargo metadata` output as a metadata document
/// (`serde_json::from_slice`); on failure, the error's message.
#[verifier::external_body]
fn metadata_document(stdout: &[u8]) -> (r: Result<cargo_metadata::Metadata, String>)
    ensures
        r is Ok <==> metadata_json(stdout@) is Some,
        r matches Ok(d) ==> metadata_json(stdout@) == Some(d),
{
    serde_json::from_slice(stdout).map_err(|error| error.to_string())
}

/// The packages of a document (its `packages` field).
#[verifier::external_body]
fn document_packages(document: &cargo_metadata::Metadata) -> (r: &Vec<cargo_metadata::Package>)
    ensures
        r@ == packages_of(*document),
{
    &document.packages
}

/// Copies what selection reads of one package into plain values.
#[verifier::external_body]
fn package_model(p: &cargo_metadata::Package) -> (r: MetadataPackage)
    ensures
        r == package_view(*p),
{
    let target = |t: &cargo_metadata::Target| MetadataTarget {
        name: t.name.clone(),
        kinds: t.kind.iter().map(|k| k.to_string()).collect(),
        crate_types: t.crate_types.iter().map(|c| c.to_string()).collect(),
        src_path: t.src_path.to_string(),
    };
    let targets = p.targets.iter().map(target).collect();
    MetadataPackage { id: p.id.repr.clone(), name: p.name.to_string(), targets, feature_names: p.features.keys().cloned().collect() }
}

/// Copies the root package's id, the default members and the resolved
/// nodes of a document into plain values.
#[verifier::external_body]
fn document_model(d: &cargo_metadata::Metadata) -> (r: (Option<String>, Option<Vec<String>>, Vec<ResolveNode>))
    ensures
        r == document_view(*d),
{
    let root = d.root_package().map(|p| p.id.repr.clone());
    let listed = d.workspace_default_members.is_available();
    let members = if listed { Some(d.workspace_default_members.iter().map(|id| id.repr.clone()).collect()) } else { None };
    let node = |n: &cargo_metadata::Node| ResolveNode { id: n.id.repr.clone(), features: n.features.clone() };
    let nodes = d.resolve.as_ref().map(|r| r.nodes.iter().map(node).collect()).unwrap_or_default();
    (root, members, nodes)
}

/// `m` is what selection reads of the metadata document in `stdout`.
pub open spec fn parsed_metadata(stdout: Seq<u8>, m: CargoMetadata) -> bool {
    &&& metadata_json(stdout) matches Some(d)
    &&& m.packages@ == packages_of(d).map_values(|p: cargo_metadata::Package| package_view(p))
    &&& (m.root_package, m.workspace_default_members, m.resolve_nodes) == document_view(d)
}

/// Reads `cargo metadata` output into what package selection needs; output
/// that is not a metadata document fails with the reader's message.
pub fn parse_cargo_metadata(stdout: &[u8]) -> (r: Result<CargoMetadata, CompilerError>)
    ensures
        r is Ok <==> metadata_json(stdout@) is Some,
        r matches Ok(m) ==> parsed_metadata(stdout@, m),
        r matches Err(e) ==> e is InvalidCargoMetadata,
{
    let document = match metadata_document(stdout) {
        Ok(document) => document,
        Err(message) => return Err(CompilerError::InvalidCargoMetadata { message }),
    };
    let listed = document_packages(&document);
    let mut packages: Vec<MetadataPackage> = Vec::new();
    let mut i: usize = 0;
    while i < listed.len()
        invariant
            i <= listed@.len(),
            listed@ == packages_of(document),
            packages@ == listed@.take(i as int).map_values(|p: cargo_metadata::Package| package_view(p)),
        decreases listed@.len() - i,
    {
        let package = package_model(&listed[i]);
        let ghost before = packages@;
        packages.push(package);
        proof {
            assert(listed@.take(i + 1) =~= listed@.take(i as int).push(listed@[i as int]));
            assert(packages@ =~= listed@.take(i + 1).map_values(|p: cargo_metadata::Package| package_view(p)));
        }
        i += 1;
    }
    proof {
        assert(listed@.take(listed@.len() as int) =~= listed@);
    }
    let (root_package, workspace_default_members, resolve_nodes) = document_model(&document);
    Ok(CargoMetadata { packages, root_package, workspace_default_members, resolve_nodes })
}

/// A kind that builds a library.
pub open spec fn library_kind(k: Seq<char>) -> bool {
    k == "lib"@ || k == "rlib"@ || k == "dylib"@ || k == "cdylib"@ || k == "staticlib"@ || k == "proc-macro"@
}

/// A target with a library kind.
pub open spec fn is_library_target(t: MetadataTarget) -> bool {
    exists|i: int| 0 <= i < t.kinds@.len() && library_kind(#[trigger] t.kinds@[i]@)
}

/// Law: a package's lone target that has a library kind (lib, rlib,
/// dylib, cdylib, staticlib or proc-macro) is what a library request and an
/// automatic request select, and it is documented as a library.
pub proof fn lemma_lone_library_target_is_selected(m: CargoMetadata, pi: int, k: int)
    requires
        0 <= pi < m.packages@.len(),
        m.packages@[pi].targets@.len() == 1,
        0 <= k < m.packages@[pi].targets@[0].kinds@.len(),
        ({
            let kind = m.packages@[pi].targets@[0].kinds@[k]@;
            ||| kind == "lib"@
            ||| kind == "rlib"@
            ||| kind == "dylib"@
            ||| kind == "cdylib"@
            ||| kind == "staticlib"@
            ||| kind == "proc-macro"@
        }),
    ensures
        target_choice(m.packages@[pi].targets@, CargoTarget::Library) == Some(0int),
        target_choice(m.packages@[pi].targets@, CargoTarget::Automatic) == Some(0int),
        forall|p: CargoProject| #[trigger] project_of(m, pi, 0, p) ==> p.kind == RustCrateKind::Library,
{
    let ts = m.packages@[pi].targets@;
    assert(library_kind(ts[0].kinds@[k]@));
    assert(is_library_target(ts[0]));
    let lib = |t: MetadataTarget| is_library_target(t);
    assert(positions(ts, lib, 0) =~= seq![]);
    assert(positions(ts, lib, 1) =~= seq![0int]);
    assert(library_positions(ts) =~= seq![0int]);
}

/// A target with the `bin` kind.
pub open spec fn is_binary_target(t: MetadataTarget) -> bool {
    exists|i: int| 0 <= i < t.kinds@.len() && #[trigger] t.kinds@[i]@ == "bin"@
}

/// The positions, in order, of the first `n` items that satisfy `p`.
pub open spec fn positions<T>(s: Seq<T>, p: spec_fn(T) -> bool, n: int) -> Seq<int>
    decreases n,
{
    if n <= 0 {
        seq![]
    } else {
        let previous = positions(s, p, n - 1);
        if p(s[n - 1]) {
            previous.push(n - 1)
        } else {
            previous
        }
    }
}

/// The positions of all items that satisfy `p`.
pub open spec fn all_positions<T>(s: Seq<T>, p: spec_fn(T) -> bool) -> Seq<int> {
    positions(s, p, s.len() as int)
}

/// The library targets' positions.
pub open spec fn library_positions(ts: Seq<MetadataTarget>) -> Seq<int> {
    all_positions(ts, |t: MetadataTarget| is_library_target(t))
}

/// The binary targets' positions.
pub open spec fn binary_positions(ts: Seq<MetadataTarget>) -> Seq<int> {
    all_positions(ts, |t: MetadataTarget| is_binary_target(t))
}

/// The positions of binary targets named `name`.
pub open spec fn named_binary_positions(ts: Seq<MetadataTarget>, name: Seq<char>) -> Seq<int> {
    all_positions(ts, |t: MetadataTarget| is_binary_target(t) && t.name@ == name)
}

/// The names of the targets at `pos`.
pub open spec fn target_names(ts: Seq<MetadataTarget>, pos: Seq<int>) -> Seq<Seq<char>> {
    pos.map_values(|j: int| ts[j].name@)
}

/// `r` picks the one target at `pos`: missing where there is none,
/// ambiguous (naming them) where there are several.
pub open spec fn one_of(ts: Seq<MetadataTarget>, pos: Seq<int>, missing: TargetRequest, r: Result<usize, CompilerError>) -> bool {
    &&& pos.len() == 0 ==> (r matches Err(CompilerError::TargetMissing { requested }) && requested == missing)
    &&& pos.len() == 1 ==> r == Ok::<usize, CompilerError>(pos[0] as usize)
    &&& pos.len() > 1 ==> (r matches Err(CompilerError::AmbiguousTarget { candidates }) && string_views(candidates@)
        == target_names(ts, pos))
}

proof fn lemma_positions_bounded<T>(s: Seq<T>, p: spec_fn(T) -> bool, n: int)
    requires
        n <= s.len(),
    ensures
        positions(s, p, n).len() <= if n < 0 { 0 } else { n },
        forall|k: int| 0 <= k < positions(s, p, n).len() ==> 0 <= #[trigger] positions(s, p, n)[k] < n && p(s[positions(s, p, n)[k]]),
    decreases n,
{
    if n > 0 {
        lemma_positions_bounded(s, p, n - 1);
    }
}

fn kind_is_library(kind: &String) -> (r: bool)
    ensures
        r == library_kind(kind@),
{
    proof {
        reveal_strlit("lib");
        reveal_strlit("rlib");
        reveal_strlit("dylib");
        reveal_strlit("cdylib");
        reveal_strlit("staticlib");
        reveal_strlit("proc-macro");
    }
    str_equal(kind.as_str(), "lib") || str_equal(kind.as_str(), "rlib") || str_equal(kind.as_str(), "dylib")
        || str_equal(kind.as_str(), "cdylib") || str_equal(kind.as_str(), "staticlib") || str_equal(
        kind.as_str(),
        "proc-macro",
    )
}

/// Whether the target builds a library of any kind.
pub fn is_library(target: &MetadataTarget) -> (r: bool)
    ensures
        r == is_library_target(*target),
{
    let mut i: usize = 0;
    while i < target.kinds.len()
        invariant
            i <= target.kinds@.len(),
            forall|j: int| 0 <= j < i ==> !library_kind(#[trigger] target.kinds@[j]@),
        decreases target.kinds@.len() - i,
    {
        if kind_is_library(&target.kinds[i]) {
            return true;
        }
        i += 1;
    }
    false
}

/// Whether the target is a binary.
pub fn is_binary(target: &MetadataTarget) -> (r: bool)
    ensures
        r == is_binary_target(*target),
{
    proof {
        reveal_strlit("bin");
    }
    let mut i: usize = 0;
    while i < target.kinds.len()
        invariant
            i <= target.kinds@.len(),
            forall|j: int| 0 <= j < i ==> #[trigger] target.kinds@[j]@ != "bin"@,
        decreases target.kinds@.len() - i,
    {
        if str_equal(target.kinds[i].as_str(), "bin") {
            return true;
        }
        i += 1;
    }
    false
}

/// Which targets a selection looks at.
enum TargetFilter<'a> {
    Library,
    Binary,
    NamedBinary(&'a String),
}

spec fn filter_holds(f: TargetFilter, t: MetadataTarget) -> bool {
    match f {
        TargetFilter::Library => is_library_target(t),
        TargetFilter::Binary => is_binary_target(t),
        TargetFilter::NamedBinary(name) => is_binary_target(t) && t.name@ == name@,
    }
}

fn matching_targets(targets: &Vec<MetadataTarget>, filter: TargetFilter) -> (v: Vec<usize>)
    ensures
        v@.len() == all_positions(targets@, |t: MetadataTarget| filter_holds(filter, t)).len(),
        forall|k: int|
            0 <= k < v@.len() ==> #[trigger] v@[k] as int == all_positions(targets@, |t: MetadataTarget| filter_holds(filter, t))[k],
{
    let ghost p = |t: MetadataTarget| filter_holds(filter, t);
    let mut v: Vec<usize> = Vec::new();
    let mut i: usize = 0;
    while i < targets.len()
        invariant
            i <= targets@.len(),
            p == (|t: MetadataTarget| filter_holds(filter, t)),
            v@.len() == positions(targets@, p, i as int).len(),
            forall|k: int| 0 <= k < v@.len() ==> #[trigger] v@[k] as int == positions(targets@, p, i as int)[k],
        decreases targets@.len() - i,
    {
        let holds = match filter {
            TargetFilter::Library => is_library(&targets[i]),
            TargetFilter::Binary => is_binary(&targets[i]),
            TargetFilter::NamedBinary(name) => is_binary(&targets[i]) && str_equal(targets[i].name.as_str(), name.as_str()),
        };
        assert(holds == filter_holds(filter, targets@[i as int]));
        if holds {
            v.push(i);
        }
        i += 1;
    }
    v
}

fn names_of(targets: &Vec<MetadataTarget>, chosen: &Vec<usize>) -> (names: Vec<String>)
    requires
        forall|k: int| 0 <= k < chosen@.len() ==> #[trigger] chosen@[k] < targets@.len(),
    ensures
        string_views(names@) == chosen@.map_values(|j: usize| targets@[j as int].name@),
{
    let mut names: Vec<String> = Vec::new();
    let mut k: usize = 0;
    while k < chosen.len()
        invariant
            k <= chosen@.len(),
            forall|k: int| 0 <= k < chosen@.len() ==> #[trigger] chosen@[k] < targets@.len(),
            names@.len() == k,
            forall|j: int| 0 <= j < k ==> (#[trigger] names@[j])@ == targets@[chosen@[j] as int].name@,
        decreases chosen@.len() - k,
    {
        names.push(targets[chosen[k]].name.clone());
        k += 1;
    }
    assert(string_views(names@) =~= chosen@.map_values(|j: usize| targets@[j as int].name@));
    names
}

/// The first of `pos`, where there is one.
pub open spec fn first_of(pos: Seq<int>) -> Option<int> {
    if pos.len() > 0 {
        Some(pos[0])
    } else {
        None
    }
}

/// The target a request selects among `ts`: the one library, the first
/// binary of the given name, or (automatically) the one library, else the
/// one binary when there is no library.
pub open spec fn target_choice(ts: Seq<MetadataTarget>, requested: CargoTarget) -> Option<int> {
    let libs = library_positions(ts);
    let bins = binary_positions(ts);
    match requested {
        CargoTarget::Library => if libs.len() == 1 {
            Some(libs[0])
        } else {
            None
        },
        CargoTarget::Binary(name) => first_of(named_binary_positions(ts, name@)),
        CargoTarget::Automatic => if libs.len() == 1 {
            Some(libs[0])
        } else if libs.len() > 1 {
            None
        } else if bins.len() == 1 {
            Some(bins[0])
        } else {
            None
        },
    }
}

/// `e` reports that none of `pos` was found, or that several were.
pub open spec fn missing_or_ambiguous(ts: Seq<MetadataTarget>, pos: Seq<int>, missing: TargetRequest, e: CompilerError) -> bool {
    if pos.len() == 0 {
        e matches CompilerError::TargetMissing { requested } && requested == missing
    } else {
        e matches CompilerError::AmbiguousTarget { candidates } && string_views(candidates@) == target_names(ts, pos)
    }
}

/// `e` is the error of a request that selects no target among `ts`.
pub open spec fn target_error(ts: Seq<MetadataTarget>, requested: CargoTarget, e: CompilerError) -> bool {
    let libs = library_positions(ts);
    let bins = binary_positions(ts);
    match requested {
        CargoTarget::Library => missing_or_ambiguous(ts, libs, TargetRequest::Library, e),
        CargoTarget::Binary(name) => e matches CompilerError::TargetMissing {
            requested: TargetRequest::NamedBinary(n),
        } && n@ == name@,
        CargoTarget::Automatic => if libs.len() > 1 {
            missing_or_ambiguous(ts, libs, TargetRequest::Library, e)
        } else {
            missing_or_ambiguous(ts, bins, TargetRequest::Binary, e)
        },
    }
}

proof fn lemma_positions_in_range<T>(s: Seq<T>, p: spec_fn(T) -> bool)
    ensures
        forall|k: int|
            0 <= k < all_positions(s, p).len() ==> 0 <= #[trigger] all_positions(s, p)[k] < s.len() && p(
                s[all_positions(s, p)[k]],
            ),
{
    lemma_positions_bounded(s, p, s.len() as int);
}

/// Picks the one target of `chosen`, or reports none or several.
fn one_target(targets: &Vec<MetadataTarget>, chosen: Vec<usize>, missing: TargetRequest) -> (r: Result<usize, CompilerError>)
    requires
        forall|k: int| 0 <= k < chosen@.len() ==> #[trigger] chosen@[k] < targets@.len(),
    ensures
        chosen@.len() == 1 ==> r == Ok::<usize, CompilerError>(chosen@[0]),
        chosen@.len() != 1 ==> (r matches Err(e) && missing_or_ambiguous(
            targets@,
            chosen@.map_values(|j: usize| j as int),
            missing,
            e,
        )),
{
    if chosen.len() == 1 {
        return Ok(chosen[0]);
    }
    if chosen.len() == 0 {
        return Err(CompilerError::TargetMissing { requested: missing });
    }
    let candidates = names_of(targets, &chosen);
    proof {
        assert(string_views(candidates@) =~= target_names(targets@, chosen@.map_values(|j: usize| j as int)));
    }
    Err(CompilerError::AmbiguousTarget { candidates })
}

proof fn lemma_index_view(v: Seq<usize>, pos: Seq<int>)
    requires
        v.len() == pos.len(),
        forall|k: int| 0 <= k < v.len() ==> #[trigger] v[k] as int == pos[k],
    ensures
        v.map_values(|j: usize| j as int) == pos,
{
    assert(v.map_values(|j: usize| j as int) =~= pos);
}

/// Selects the target of a package that the request names.
pub fn select_target(package: &MetadataPackage, requested: &CargoTarget) -> (r: Result<usize, CompilerError>)
    ensures
        target_choice(package.targets@, *requested) matches Some(i) ==> (r matches Ok(j) && j == i),
        target_choice(package.targets@, *requested) is None ==> (r matches Err(e) && target_error(
            package.targets@,
            *requested,
            e,
        )),
        r matches Ok(i) ==> i < package.targets@.len(),
{
    let ts = &package.targets;
    proof {
        lemma_positions_in_range(ts@, |t: MetadataTarget| is_library_target(t));
        lemma_positions_in_range(ts@, |t: MetadataTarget| is_binary_target(t));
    }
    match requested {
        CargoTarget::Library => {
            let libraries = matching_targets(ts, TargetFilter::Library);
            proof {
                assert(all_positions(ts@, |t: MetadataTarget| filter_holds(TargetFilter::Library, t))
                    =~= library_positions(ts@)) by {
                    assert((|t: MetadataTarget| filter_holds(TargetFilter::Library, t)) =~= (|t: MetadataTarget|
                        is_library_target(t)));
                }
                lemma_index_view(libraries@, library_positions(ts@));
            }
            one_target(ts, libraries, TargetRequest::Library)
        },
        CargoTarget::Binary(name) => {
            let named = matching_targets(ts, TargetFilter::NamedBinary(name));
            proof {
                assert((|t: MetadataTarget| filter_holds(TargetFilter::NamedBinary(name), t)) =~= (|t: MetadataTarget|
                    is_binary_target(t) && t.name@ == name@));
                lemma_positions_in_range(ts@, |t: MetadataTarget| is_binary_target(t) && t.name@ == name@);
            }
            if named.len() > 0 {
                Ok(named[0])
            } else {
                Err(CompilerError::TargetMissing { requested: TargetRequest::NamedBinary(name.clone()) })
            }
        },
        CargoTarget::Automatic => {
            let libraries = matching_targets(ts, TargetFilter::Library);
            proof {
                assert((|t: MetadataTarget| filter_holds(TargetFilter::Library, t)) =~= (|t: MetadataTarget|
                    is_library_target(t)));
                lemma_index_view(libraries@, library_positions(ts@));
            }
            if libraries.len() >= 1 {
                return one_target(ts, libraries, TargetRequest::Library);
            }
            let binaries = matching_targets(ts, TargetFilter::Binary);
            proof {
                assert((|t: MetadataTarget| filter_holds(TargetFilter::Binary, t)) =~= (|t: MetadataTarget|
                    is_binary_target(t)));
                lemma_index_view(binaries@, binary_positions(ts@));
            }
            one_target(ts, binaries, TargetRequest::Binary)
        },
    }
}

/// The positions of the packages whose id is `id`.
pub open spec fn packages_with_id(ps: Seq<MetadataPackage>, id: Seq<char>) -> Seq<int> {
    all_positions(ps, |p: MetadataPackage| p.id@ == id)
}

/// The positions of the packages among the workspace default members.
pub open spec fn default_member_positions(ps: Seq<MetadataPackage>, members: Seq<Seq<char>>) -> Seq<int> {
    all_positions(ps, |p: MetadataPackage| members.contains(p.id@))
}

/// The names of the packages at `pos`.
pub open spec fn package_names(ps: Seq<MetadataPackage>, pos: Seq<int>) -> Seq<Seq<char>> {
    pos.map_values(|j: int| ps[j].name@)
}

/// The view of an optional string.
pub open spec fn optional_view(o: Option<String>) -> Option<Seq<char>> {
    match o {
        Some(s) => Some(s@),
        None => None,
    }
}

/// The package a request selects: the first with the requested id; without
/// one, the root package, else the one workspace default member.
pub open spec fn package_choice(m: CargoMetadata, requested: Option<Seq<char>>) -> Option<int> {
    let ps = m.packages@;
    match requested {
        Some(id) => first_of(packages_with_id(ps, id)),
        None => {
            let root = match m.root_package {
                Some(rid) => packages_with_id(ps, rid@),
                None => seq![],
            };
            if root.len() > 0 {
                Some(root[0])
            } else {
                match m.workspace_default_members {
                    None => None,
                    Some(members) => {
                        let defaults = default_member_positions(ps, string_views(members@));
                        if defaults.len() == 1 {
                            Some(defaults[0])
                        } else {
                            None
                        }
                    },
                }
            }
        },
    }
}

/// `e` is the error of a request that selects no package.
pub open spec fn package_error(m: CargoMetadata, requested: Option<Seq<char>>, e: CompilerError) -> bool {
    match requested {
        Some(id) => e matches CompilerError::ResolvedPackageMissing { id: missing } && missing@ == id,
        None => match m.workspace_default_members {
            None => e is WorkspaceDefaultMembersUnavailable,
            Some(members) => e matches CompilerError::AmbiguousPackage { candidates } && string_views(candidates@)
                == package_names(m.packages@, default_member_positions(m.packages@, string_views(members@))),
        },
    }
}

/// Which packages a selection looks at.
enum PackageFilter<'a> {
    Id(&'a String),
    Members(&'a Vec<String>),
}

spec fn package_filter_holds(f: PackageFilter, p: MetadataPackage) -> bool {
    match f {
        PackageFilter::Id(id) => p.id@ == id@,
        PackageFilter::Members(members) => string_views(members@).contains(p.id@),
    }
}

fn matching_packages(packages: &Vec<MetadataPackage>, filter: PackageFilter) -> (v: Vec<usize>)
    ensures
        v@.len() == all_positions(packages@, |p: MetadataPackage| package_filter_holds(filter, p)).len(),
        forall|k: int|
            0 <= k < v@.len() ==> #[trigger] v@[k] as int == all_positions(
                packages@,
                |p: MetadataPackage| package_filter_holds(filter, p),
            )[k],
{
    let ghost q = |p: MetadataPackage| package_filter_holds(filter, p);
    let mut v: Vec<usize> = Vec::new();
    let mut i: usize = 0;
    while i < packages.len()
        invariant
            i <= packages@.len(),
            q == (|p: MetadataPackage| package_filter_holds(filter, p)),
            v@.len() == positions(packages@, q, i as int).len(),
            forall|k: int| 0 <= k < v@.len() ==> #[trigger] v@[k] as int == positions(packages@, q, i as int)[k],
        decreases packages@.len() - i,
    {
        let holds = match filter {
            PackageFilter::Id(id) => str_equal(packages[i].id.as_str(), id.as_str()),
            PackageFilter::Members(members) => crate::compiler::probe::contains_string(members, &packages[i].id),
        };
        assert(holds == package_filter_holds(filter, packages@[i as int]));
        if holds {
            v.push(i);
        }
        i += 1;
    }
    v
}

/// Selects the package a request names, by its position.
pub fn select_package(metadata: &CargoMetadata, requested_package_id: &Option<String>) -> (r: Result<usize, CompilerError>)
    ensures
        package_choice(*metadata, optional_view(*requested_package_id)) matches Some(i) ==> (r matches Ok(j) && j
            == i),
        package_choice(*metadata, optional_view(*requested_package_id)) is None ==> (r matches Err(e) && package_error(
            *metadata,
            optional_view(*requested_package_id),
            e,
        )),
        r matches Ok(i) ==> i < metadata.packages@.len(),
{
    let ps = &metadata.packages;
    if let Some(id) = requested_package_id {
        let found = matching_packages(ps, PackageFilter::Id(id));
        proof {
            assert((|p: MetadataPackage| package_filter_holds(PackageFilter::Id(id), p)) =~= (|p: MetadataPackage|
                p.id@ == id@));
            lemma_positions_in_range(ps@, |p: MetadataPackage| p.id@ == id@);
        }
        if found.len() > 0 {
            return Ok(found[0]);
        }
        return Err(CompilerError::ResolvedPackageMissing { id: id.clone() });
    }
    if let Some(root) = &metadata.root_package {
        let found = matching_packages(ps, PackageFilter::Id(root));
        proof {
            assert((|p: MetadataPackage| package_filter_holds(PackageFilter::Id(root), p)) =~= (|p: MetadataPackage|
                p.id@ == root@));
            lemma_positions_in_range(ps@, |p: MetadataPackage| p.id@ == root@);
        }
        if found.len() > 0 {
            return Ok(found[0]);
        }
    }
    let members = match &metadata.workspace_default_members {
        Some(members) => members,
        None => return Err(CompilerError::WorkspaceDefaultMembersUnavailable),
    };
    let defaults = matching_packages(ps, PackageFilter::Members(members));
    proof {
        assert((|p: MetadataPackage| package_filter_holds(PackageFilter::Members(members), p)) =~= (|p: MetadataPackage|
            string_views(members@).contains(p.id@)));
        lemma_positions_in_range(ps@, |p: MetadataPackage| string_views(members@).contains(p.id@));
    }
    if defaults.len() == 1 {
        return Ok(defaults[0]);
    }
    let mut candidates: Vec<String> = Vec::new();
    let mut k: usize = 0;
    while k < defaults.len()
        invariant
            k <= defaults@.len(),
            forall|j: int| 0 <= j < defaults@.len() ==> #[trigger] defaults@[j] < ps@.len(),
            candidates@.len() == k,
            forall|j: int| 0 <= j < k ==> (#[trigger] candidates@[j])@ == ps@[defaults@[j] as int].name@,
        decreases defaults@.len() - k,
    {
        candidates.push(ps[defaults[k]].name.clone());
        k += 1;
    }
    proof {
        let pos = default_member_positions(ps@, string_views(members@));
        assert(string_views(candidates@) =~= package_names(ps@, pos));
    }
    Err(CompilerError::AmbiguousPackage { candidates })
}

/// `out` is strictly sorted and holds exactly the values of `input`.
pub open spec fn sorted_set_of(out: Seq<Seq<char>>, input: Seq<Seq<char>>) -> bool {
    &&& strictly_sorted(out)
    &&& forall|x: Seq<char>| out.contains(x) <==> input.contains(x)
}

/// The sorted, duplicate-free copy of `values`.
pub fn sorted_distinct(values: &Vec<String>) -> (r: Vec<String>)
    ensures
        sorted_set_of(string_views(r@), string_views(values@)),
{
    let mut r: Vec<String> = Vec::new();
    let mut i: usize = 0;
    while i < values.len()
        invariant
            i <= values@.len(),
            strictly_sorted(string_views(r@)),
            forall|x: Seq<char>|
                string_views(r@).contains(x) <==> string_views(values@).take(i as int).contains(x),
        decreases values@.len() - i,
    {
        insert_sorted(&mut r, values[i].clone());
        proof {
            let before = string_views(values@).take(i as int);
            let after = string_views(values@).take(i + 1);
            assert(after =~= before.push(values@[i as int]@));
            assert forall|x: Seq<char>| after.contains(x) <==> (before.contains(x) || x == values@[i as int]@) by {
                if after.contains(x) {
                    let j = choose|j: int| 0 <= j < after.len() && after[j] == x;
                    if j < i {
                        assert(before[j] == x);
                    }
                }
                if before.contains(x) {
                    let j = choose|j: int| 0 <= j < before.len() && before[j] == x;
                    assert(after[j] == x);
                }
                if x == values@[i as int]@ {
                    assert(after[i as int] == x);
                }
            }
        }
        i += 1;
    }
    assert(string_views(values@).take(values@.len() as int) =~= string_views(values@));
    r
}

/// The positions of the resolve nodes of package `id`.
pub open spec fn node_positions(nodes: Seq<ResolveNode>, id: Seq<char>) -> Seq<int> {
    all_positions(nodes, |n: ResolveNode| n.id@ == id)
}

/// The features Cargo resolved for package `id`: those of its first node.
pub open spec fn resolved_features(m: CargoMetadata, id: Seq<char>) -> Seq<Seq<char>> {
    let pos = node_positions(m.resolve_nodes@, id);
    if pos.len() > 0 {
        string_views(m.resolve_nodes@[pos[0]].features@)
    } else {
        seq![]
    }
}

fn first_node(nodes: &Vec<ResolveNode>, id: &String) -> (r: Option<usize>)
    ensures
        node_positions(nodes@, id@).len() > 0 ==> (r matches Some(i) && i == node_positions(nodes@, id@)[0]),
        node_positions(nodes@, id@).len() == 0 ==> r is None,
        r matches Some(i) ==> i < nodes@.len(),
{
    let ghost q = |n: ResolveNode| n.id@ == id@;
    let mut i: usize = 0;
    while i < nodes.len()
        invariant
            i <= nodes@.len(),
            q == (|n: ResolveNode| n.id@ == id@),
            positions(nodes@, q, i as int).len() == 0,
        decreases nodes@.len() - i,
    {
        if str_equal(nodes[i].id.as_str(), id.as_str()) {
            proof {
                lemma_positions_prefix(nodes@, q, i + 1, nodes@.len() as int);
            }
            return Some(i);
        }
        i += 1;
    }
    None
}

proof fn lemma_positions_prefix<T>(s: Seq<T>, p: spec_fn(T) -> bool, n: int, m: int)
    requires
        0 <= n <= m <= s.len(),
    ensures
        positions(s, p, m).len() >= positions(s, p, n).len(),
        forall|k: int| 0 <= k < positions(s, p, n).len() ==> #[trigger] positions(s, p, m)[k] == positions(s, p, n)[k],
    decreases m - n,
{
    if n < m {
        lemma_positions_prefix(s, p, n, m - 1);
    }
}

/// The package and target that one extraction documents.
#[derive(Debug)]
pub struct CargoProject {
    pub package_id: String,
    pub package_name: String,
    pub target_name: String,
    pub target_root: String,
    pub kind: RustCrateKind,
    /// Sorted and duplicate-free.
    pub crate_types: Vec<String>,
    pub has_default_feature: bool,
    /// The resolved features, sorted and duplicate-free.
    pub features: Vec<String>,
}

/// `p` documents target `ti` of package `pi`.
pub open spec fn project_of(m: CargoMetadata, pi: int, ti: int, p: CargoProject) -> bool {
    let package = m.packages@[pi];
    let target = package.targets@[ti];
    &&& p.package_id@ == package.id@
    &&& p.package_name@ == package.name@
    &&& p.target_name@ == target.name@
    &&& p.target_root@ == target.src_path@
    &&& p.kind == if is_library_target(target) {
        RustCrateKind::Library
    } else {
        RustCrateKind::Binary
    }
    &&& sorted_set_of(string_views(p.crate_types@), string_views(target.crate_types@))
    &&& p.has_default_feature == string_views(package.feature_names@).contains("default"@)
    &&& sorted_set_of(string_views(p.features@), resolved_features(m, package.id@))
}

impl CargoProject {
    /// Selects the package and target that a request names.
    pub fn select(
        metadata: &CargoMetadata,
        requested_package_id: &Option<String>,
        requested_target: &CargoTarget,
    ) -> (r: Result<CargoProject, CompilerError>)
        ensures
            ({
                let requested = optional_view(*requested_package_id);
                &&& package_choice(*metadata, requested) is None ==> (r matches Err(e) && package_error(
                    *metadata,
                    requested,
                    e,
                ))
                &&& package_choice(*metadata, requested) matches Some(pi) ==> {
                    let ts = metadata.packages@[pi].targets@;
                    &&& target_choice(ts, *requested_target) is None ==> (r matches Err(e) && target_error(
                        ts,
                        *requested_target,
                        e,
                    ))
                    &&& target_choice(ts, *requested_target) matches Some(ti) ==> (r matches Ok(p) && project_of(
                        *metadata,
                        pi,
                        ti,
                        p,
                    ))
                }
            }),
    {
        let pi = match select_package(metadata, requested_package_id) {
            Ok(pi) => pi,
            Err(e) => return Err(e),
        };
        let package = &metadata.packages[pi];
        let ti = match select_target(package, requested_target) {
            Ok(ti) => ti,
            Err(e) => return Err(e),
        };
        let target = &package.targets[ti];
        let kind = if is_library(target) {
            RustCrateKind::Library
        } else {
            RustCrateKind::Binary
        };
        let crate_types = sorted_distinct(&target.crate_types);
        let features = match first_node(&metadata.resolve_nodes, &package.id) {
            Some(n) => sorted_distinct(&metadata.resolve_nodes[n].features),
            None => {
                let empty: Vec<String> = Vec::new();
                proof {
                    assert(string_views(empty@) =~= seq![]);
                }
                sorted_distinct(&empty)
            },
        };
        let default_name = "default".to_owned();
        proof {
            reveal_strlit("default");
        }
        let has_default_feature = crate::compiler::probe::contains_string(&package.feature_names, &default_name);
        Ok(CargoProject {
            package_id: package.id.clone(),
            package_name: package.name.clone(),
            target_name: target.name.clone(),
            target_root: target.src_path.clone(),
            kind,
            crate_types,
            has_default_feature,
            features,
        })
    }
}

/// A strictly sorted sequence is determined by the values it holds.
pub proof fn lemma_sorted_set_unique(a: Seq<Seq<char>>, b: Seq<Seq<char>>)
    requires
        strictly_sorted(a),
        strictly_sorted(b),
        forall|x: Seq<char>| a.contains(x) <==> b.contains(x),
    ensures
        a == b,
    decreases a.len(),
{
    if a.len() == 0 {
        if b.len() > 0 {
            assert(b.contains(b[0]));
        }
        assert(a =~= b);
    } else {
        assert(a.contains(a[0]));
        assert(b.contains(b[0]));
        if a[0] != b[0] {
            let j = choose|j: int| 0 <= j < b.len() && b[j] == a[0];
            let i = choose|i: int| 0 <= i < a.len() && a[i] == b[0];
            assert(chars_lt(b[0], b[j]));
            assert(chars_lt(a[0], a[i]));
            lemma_chars_lt_order(a[0], b[0], a[0]);
        }
        let ar = a.drop_first();
        let br = b.drop_first();
        assert forall|i: int, j: int| 0 <= i < j < ar.len() implies chars_lt(#[trigger] ar[i], #[trigger] ar[j]) by {
            assert(ar[i] == a[i + 1] && ar[j] == a[j + 1]);
        }
        assert forall|i: int, j: int| 0 <= i < j < br.len() implies chars_lt(#[trigger] br[i], #[trigger] br[j]) by {
            assert(br[i] == b[i + 1] && br[j] == b[j + 1]);
        }
        assert forall|x: Seq<char>| ar.contains(x) implies br.contains(x) by {
            let i = choose|i: int| 0 <= i < ar.len() && ar[i] == x;
            assert(a[i + 1] == x);
            assert(chars_lt(a[0], x));
            lemma_chars_lt_order(x, x, x);
            assert(b.contains(x));
            let j = choose|j: int| 0 <= j < b.len() && b[j] == x;
            assert(j != 0);
            assert(br[j - 1] == x);
        }
        assert forall|x: Seq<char>| br.contains(x) implies ar.contains(x) by {
            let j = choose|j: int| 0 <= j < br.len() && br[j] == x;
            assert(b[j + 1] == x);
            assert(chars_lt(b[0], x));
            lemma_chars_lt_order(x, x, x);
            assert(a.contains(x));
            let i = choose|i: int| 0 <= i < a.len() && a[i] == x;
            assert(i != 0);
            assert(ar[i - 1] == x);
        }
        lemma_sorted_set_unique(ar, br);
        assert(a =~= seq![a[0]] + ar);
        assert(b =~= seq![b[0]] + br);
    }
}

/// The strictly sorted sequence of the values of `input`.
pub open spec fn sorted_distinct_of(input: Seq<Seq<char>>) -> Seq<Seq<char>> {
    choose|q: Seq<Seq<char>>| sorted_set_of(q, input)
}

proof fn lemma_sorted_distinct_of(q: Seq<Seq<char>>, input: Seq<Seq<char>>)
    requires
        sorted_set_of(q, input),
    ensures
        sorted_distinct_of(input) == q,
{
    let c = sorted_distinct_of(input);
    assert(sorted_set_of(c, input));
    lemma_sorted_set_unique(c, q);
}

/// The values of `q`, separated by commas.
pub open spec fn comma_joined(q: Seq<Seq<char>>) -> Seq<char>
    decreases q.len(),
{
    if q.len() == 0 {
        seq![]
    } else if q.len() == 1 {
        q[0]
    } else {
        comma_joined(q.drop_last()) + seq![','] + q.last()
    }
}

/// Joins strings with commas.
pub fn comma_join(values: &Vec<String>) -> (s: String)
    ensures
        s@ == comma_joined(string_views(values@)),
{
    let mut s = String::new();
    if values.len() == 0 {
        return s;
    }
    crate::text::push_str(&mut s, values[0].as_str());
    let ghost views = string_views(values@);
    assert(views.take(1).drop_last() =~= seq![]);
    let mut i: usize = 1;
    while i < values.len()
        invariant
            1 <= i <= values@.len(),
            views == string_views(values@),
            s@ == comma_joined(views.take(i as int)),
        decreases values@.len() - i,
    {
        crate::text::push_char(&mut s, ',');
        crate::text::push_str(&mut s, values[i].as_str());
        assert(views.take(i + 1).drop_last() =~= views.take(i as int));
        i += 1;
    }
    assert(views.take(values@.len() as int) =~= views);
    s
}

fn push_text(arguments: &mut Vec<String>, text: &str)
    ensures
        string_views(final(arguments)@) == string_views(old(arguments)@).push(text@),
{
    arguments.push(text.to_owned());
    assert(string_views(arguments@) =~= string_views(old(arguments)@).push(text@));
}

fn push_string(arguments: &mut Vec<String>, text: String)
    ensures
        string_views(final(arguments)@) == string_views(old(arguments)@).push(text@),
{
    arguments.push(text);
    assert(string_views(arguments@) =~= string_views(old(arguments)@).push(text@));
}

/// The feature options of a Cargo selection.
pub open spec fn selection_feature_args(features: CargoFeatures) -> Seq<Seq<char>> {
    match features {
        CargoFeatures::Default => seq![],
        CargoFeatures::Selected { names, include_default } => (if names@.len() > 0 {
            seq!["--features"@, comma_joined(string_views(names@))]
        } else {
            seq![]
        }) + (if !include_default {
            seq!["--no-default-features"@]
        } else {
            seq![]
        }),
        CargoFeatures::All => seq!["--all-features"@],
    }
}

/// `--target TRIPLE`, where there is a triple.
pub open spec fn target_args(triple: Option<Seq<char>>) -> Seq<Seq<char>> {
    match triple {
        Some(t) => seq!["--target"@, t],
        None => seq![],
    }
}

/// The options that select the manifest, package, target, features and
/// platform of a Cargo invocation; an override replaces the requested triple.
pub open spec fn cargo_selection_args(
    p: CargoProject,
    request: CompilerRequest,
    manifest: Seq<char>,
    target_override: Option<Seq<char>>,
) -> Seq<Seq<char>> {
    seq!["--manifest-path"@, manifest, "--package"@, p.package_id@] + (match p.kind {
        RustCrateKind::Library => seq!["--lib"@],
        RustCrateKind::Binary => seq!["--bin"@, p.target_name@],
    }) + selection_feature_args(request.features) + target_args(
        match target_override {
            Some(t) => Some(t),
            None => optional_view(request.target_triple),
        },
    )
}

/// `cargo rustc` over the selection, then the compiler's own arguments.
pub open spec fn rustc_args(
    p: CargoProject,
    request: CompilerRequest,
    manifest: Seq<char>,
    target_directory: Seq<char>,
    target_override: Option<Seq<char>>,
    compiler_arguments: Seq<Seq<char>>,
) -> Seq<Seq<char>> {
    seq!["rustc"@, "--locked"@] + cargo_selection_args(p, request, manifest, target_override) + seq![
        "--target-dir"@,
        target_directory,
        "--"@,
    ] + compiler_arguments
}

/// `cargo rustdoc` over the selection, producing JSON with hidden items.
pub open spec fn rustdoc_args(
    p: CargoProject,
    request: CompilerRequest,
    manifest: Seq<char>,
    target_directory: Seq<char>,
) -> Seq<Seq<char>> {
    seq!["rustdoc"@, "--locked"@] + cargo_selection_args(p, request, manifest, None) + seq![
        "--target-dir"@,
        target_directory,
        "--"@,
        "-Z"@,
        "unstable-options"@,
        "--output-format"@,
        "json"@,
        "--document-hidden-items"@,
    ]
}

impl CargoProject {
    /// Appends the options that select this project under `request`.
    pub fn append_cargo_selection(
        &self,
        request: &CompilerRequest,
        manifest: &String,
        target_override: &Option<String>,
        arguments: &mut Vec<String>,
    )
        ensures
            string_views(final(arguments)@) == string_views(old(arguments)@) + cargo_selection_args(
                *self,
                *request,
                manifest@,
                optional_view(*target_override),
            ),
    {
        let ghost start = string_views(arguments@);
        proof {
            reveal_strlit("--manifest-path");
            reveal_strlit("--package");
            reveal_strlit("--lib");
            reveal_strlit("--bin");
            reveal_strlit("--features");
            reveal_strlit("--no-default-features");
            reveal_strlit("--all-features");
            reveal_strlit("--target");
        }
        push_text(arguments, "--manifest-path");
        push_string(arguments, manifest.clone());
        push_text(arguments, "--package");
        push_string(arguments, self.package_id.clone());
        let ghost after_package = string_views(arguments@);
        match self.kind {
            RustCrateKind::Library => push_text(arguments, "--lib"),
            RustCrateKind::Binary => {
                push_text(arguments, "--bin");
                push_string(arguments, self.target_name.clone());
            },
        }
        let ghost after_kind = string_views(arguments@);
        match &request.features {
            CargoFeatures::Default => {},
            CargoFeatures::Selected { names, include_default } => {
                if names.len() > 0 {
                    push_text(arguments, "--features");
                    push_string(arguments, comma_join(names));
                }
                if !*include_default {
                    push_text(arguments, "--no-default-features");
                }
            },
            CargoFeatures::All => push_text(arguments, "--all-features"),
        }
        let ghost after_features = string_views(arguments@);
        assert(after_features =~= after_kind + selection_feature_args(request.features));
        let triple = match target_override {
            Some(t) => Some(t),
            None => match &request.target_triple {
                Some(t) => Some(t),
                None => None,
            },
        };
        if let Some(t) = triple {
            push_text(arguments, "--target");
            push_string(arguments, t.clone());
        }
        assert(string_views(arguments@) =~= start + cargo_selection_args(
            *self,
            *request,
            manifest@,
            optional_view(*target_override),
        ));
    }

    /// `cargo rustc` over this project, forwarding `compiler_arguments`.
    pub fn rustc_arguments(
        &self,
        request: &CompilerRequest,
        manifest: &String,
        target_directory: &String,
        target_override: &Option<String>,
        compiler_arguments: &Vec<String>,
    ) -> (r: Vec<String>)
        ensures
            string_views(r@) == rustc_args(
                *self,
                *request,
                manifest@,
                target_directory@,
                optional_view(*target_override),
                string_views(compiler_arguments@),
            ),
    {
        proof {
            reveal_strlit("rustc");
            reveal_strlit("--locked");
            reveal_strlit("--target-dir");
            reveal_strlit("--");
        }
        let mut arguments: Vec<String> = Vec::new();
        push_text(&mut arguments, "rustc");
        push_text(&mut arguments, "--locked");
        self.append_cargo_selection(request, manifest, target_override, &mut arguments);
        push_text(&mut arguments, "--target-dir");
        push_string(&mut arguments, target_directory.clone());
        push_text(&mut arguments, "--");
        let ghost before = string_views(arguments@);
        let mut i: usize = 0;
        while i < compiler_arguments.len()
            invariant
                i <= compiler_arguments@.len(),
                string_views(arguments@) == before + string_views(compiler_arguments@).take(i as int),
            decreases compiler_arguments@.len() - i,
        {
            push_string(&mut arguments, compiler_arguments[i].clone());
            assert(string_views(compiler_arguments@).take(i + 1) =~= string_views(compiler_arguments@).take(
                i as int,
            ).push(compiler_arguments@[i as int]@));
            i += 1;
        }
        assert(string_views(compiler_arguments@).take(compiler_arguments@.len() as int) =~= string_views(
            compiler_arguments@,
        ));
        assert(string_views(arguments@) =~= rustc_args(
            *self,
            *request,
            manifest@,
            target_directory@,
            optional_view(*target_override),
            string_views(compiler_arguments@),
        ));
        arguments
    }

    /// `cargo rustdoc` over this project into `target_directory`, as JSON
    /// that documents hidden items.
    pub fn rustdoc_arguments(&self, request: &CompilerRequest, manifest: &String, target_directory: &String) -> (r: Vec<
        String,
    >)
        ensures
            string_views(r@) == rustdoc_args(*self, *request, manifest@, target_directory@),
    {
        proof {
            reveal_strlit("rustdoc");
            reveal_strlit("--locked");
            reveal_strlit("--target-dir");
            reveal_strlit("--");
            reveal_strlit("-Z");
            reveal_strlit("unstable-options");
            reveal_strlit("--output-format");
            reveal_strlit("json");
            reveal_strlit("--document-hidden-items");
        }
        let mut arguments: Vec<String> = Vec::new();
        push_text(&mut arguments, "rustdoc");
        push_text(&mut arguments, "--locked");
        self.append_cargo_selection(request, manifest, &None, &mut arguments);
        push_text(&mut arguments, "--target-dir");
        push_string(&mut arguments, target_directory.clone());
        push_text(&mut arguments, "--");
        push_text(&mut arguments, "-Z");
        push_text(&mut arguments, "unstable-options");
        push_text(&mut arguments, "--output-format");
        push_text(&mut arguments, "json");
        push_text(&mut arguments, "--document-hidden-items");
        assert(string_views(arguments@) =~= rustdoc_args(*self, *request, manifest@, target_directory@));
        arguments
    }
}

/// A feature as Cargo's `--features` of the workspace root reads it:
/// qualified by the package name unless it already names a package.
pub open spec fn qualified_feature(package_name: Seq<char>, name: Seq<char>) -> Seq<char> {
    if has_char(name, '/') {
        name
    } else {
        package_name + seq!['/'] + name
    }
}

/// The qualified features a selection asks for, with the package's
/// `default` feature where it is included and declared.
pub open spec fn wanted_features(names: Seq<Seq<char>>, package_name: Seq<char>, with_default: bool) -> Seq<Seq<char>> {
    names.map_values(|n: Seq<char>| qualified_feature(package_name, n)) + if with_default {
        seq![package_name + "/default"@]
    } else {
        seq![]
    }
}

/// The feature options of a metadata query for project `p`.
pub open spec fn feature_args(features: CargoFeatures, p: CargoProject) -> Seq<Seq<char>> {
    let (names, include_default) = match features {
        CargoFeatures::Selected { names, include_default } => (string_views(names@), include_default),
        _ => (seq![], true),
    };
    let q = sorted_distinct_of(wanted_features(names, p.package_name@, include_default && p.has_default_feature));
    if features is All {
        seq!["--all-features"@]
    } else {
        (if q.len() > 0 {
            seq!["--features"@, comma_joined(q)]
        } else {
            seq![]
        }) + (if !include_default {
            seq!["--no-default-features"@]
        } else {
            seq![]
        })
    }
}

fn qualify_feature(package_name: &String, name: &String) -> (r: String)
    ensures
        r@ == qualified_feature(package_name@, name@),
{
    if crate::text::contains_char(crate::text::chars_of(name.as_str()).as_slice(), '/') {
        name.clone()
    } else {
        let mut r = package_name.clone();
        crate::text::push_char(&mut r, '/');
        crate::text::push_str(&mut r, name.as_str());
        r
    }
}

/// Appends the feature options of a metadata query for `project`.
pub fn append_feature_arguments(features: &CargoFeatures, project: &CargoProject, arguments: &mut Vec<String>)
    ensures
        string_views(final(arguments)@) == string_views(old(arguments)@) + feature_args(*features, *project),
{
    proof {
        reveal_strlit("--all-features");
        reveal_strlit("--features");
        reveal_strlit("--no-default-features");
        reveal_strlit("/default");
    }
    let ghost start = string_views(arguments@);
    let empty: Vec<String> = Vec::new();
    let (names, include_default) = match features {
        CargoFeatures::All => {
            push_text(arguments, "--all-features");
            assert(string_views(arguments@) =~= start + feature_args(*features, *project));
            return;
        },
        CargoFeatures::Default => (&empty, true),
        CargoFeatures::Selected { names, include_default } => (names, *include_default),
    };
    let with_default = include_default && project.has_default_feature;
    let ghost wanted = wanted_features(string_views(names@), project.package_name@, with_default);
    let ghost qualified_all = string_views(names@).map_values(|n: Seq<char>| qualified_feature(project.package_name@, n));
    let mut qualified: Vec<String> = Vec::new();
    let mut i: usize = 0;
    while i < names.len()
        invariant
            i <= names@.len(),
            qualified_all == string_views(names@).map_values(|n: Seq<char>| qualified_feature(project.package_name@, n)),
            strictly_sorted(string_views(qualified@)),
            forall|x: Seq<char>| string_views(qualified@).contains(x) <==> qualified_all.take(i as int).contains(x),
        decreases names@.len() - i,
    {
        let item = qualify_feature(&project.package_name, &names[i]);
        insert_sorted(&mut qualified, item);
        proof {
            let before = qualified_all.take(i as int);
            let after = qualified_all.take(i + 1);
            assert(after =~= before.push(qualified_all[i as int]));
            assert forall|x: Seq<char>| after.contains(x) <==> (before.contains(x) || x == qualified_all[i as int]) by {
                if after.contains(x) {
                    let j = choose|j: int| 0 <= j < after.len() && after[j] == x;
                    if j < i {
                        assert(before[j] == x);
                    }
                }
                if before.contains(x) {
                    let j = choose|j: int| 0 <= j < before.len() && before[j] == x;
                    assert(after[j] == x);
                }
                if x == qualified_all[i as int] {
                    assert(after[i as int] == x);
                }
            }
        }
        i += 1;
    }
    assert(qualified_all.take(names@.len() as int) =~= qualified_all);
    if with_default {
        let mut default_feature = project.package_name.clone();
        crate::text::push_str(&mut default_feature, "/default");
        insert_sorted(&mut qualified, default_feature);
    }
    proof {
        assert forall|x: Seq<char>| string_views(qualified@).contains(x) <==> wanted.contains(x) by {
            if with_default {
                let d = project.package_name@ + "/default"@;
                assert(wanted =~= qualified_all.push(d));
                if wanted.contains(x) {
                    let j = choose|j: int| 0 <= j < wanted.len() && wanted[j] == x;
                    if j < qualified_all.len() {
                        assert(qualified_all[j] == x);
                    }
                }
                if qualified_all.contains(x) {
                    let j = choose|j: int| 0 <= j < qualified_all.len() && qualified_all[j] == x;
                    assert(wanted[j] == x);
                }
                if x == d {
                    assert(wanted[qualified_all.len() as int] == x);
                }
            } else {
                assert(wanted =~= qualified_all);
            }
        }
        lemma_sorted_distinct_of(string_views(qualified@), wanted);
    }
    if qualified.len() > 0 {
        push_text(arguments, "--features");
        push_string(arguments, comma_join(&qualified));
    }
    if !include_default {
        push_text(arguments, "--no-default-features");
    }
    proof {
        assert(features is Default ==> string_views(names@) =~= seq![]);
    }
    assert(string_views(arguments@) =~= start + feature_args(*features, *project));
}

/// `cargo metadata` over the manifest; with a project, its features are
/// selected; with a requested triple, only that platform is kept.
pub open spec fn metadata_args(request: CompilerRequest, manifest: Seq<char>, project: Option<CargoProject>) -> Seq<Seq<char>> {
    seq!["metadata"@, "--locked"@, "--format-version"@, "1"@, "--manifest-path"@, manifest] + (match project {
        Some(p) => feature_args(request.features, p),
        None => seq![],
    }) + (match request.target_triple {
        Some(t) => seq!["--filter-platform"@, t@],
        None => seq![],
    })
}

/// The arguments of a `cargo metadata` query.
pub fn metadata_arguments(request: &CompilerRequest, manifest: &String, project: Option<&CargoProject>) -> (r: Vec<String>)
    ensures
        string_views(r@) == metadata_args(
            *request,
            manifest@,
            match project {
                Some(p) => Some(*p),
                None => None,
            },
        ),
{
    proof {
        reveal_strlit("metadata");
        reveal_strlit("--locked");
        reveal_strlit("--format-version");
        reveal_strlit("1");
        reveal_strlit("--manifest-path");
        reveal_strlit("--filter-platform");
    }
    let mut arguments: Vec<String> = Vec::new();
    push_text(&mut arguments, "metadata");
    push_text(&mut arguments, "--locked");
    push_text(&mut arguments, "--format-version");
    push_text(&mut arguments, "1");
    push_text(&mut arguments, "--manifest-path");
    push_string(&mut arguments, manifest.clone());
    if let Some(project) = project {
        append_feature_arguments(&request.features, project, &mut arguments);
    }
    if let Some(target) = &request.target_triple {
        push_text(&mut arguments, "--filter-platform");
        push_string(&mut arguments, target.clone());
    }
    assert(string_views(arguments@) =~= metadata_args(
        *request,
        manifest@,
        match project {
            Some(p) => Some(*p),
            None => None,
        },
    ));
    arguments
}

/// The arguments of a `cargo pkgid` query for `package`.
pub fn package_id_arguments(manifest: &String, package: &String) -> (r: Vec<String>)
    ensures
        string_views(r@) == seq!["pkgid"@, "--locked"@, "--manifest-path"@, manifest@, "--package"@, package@],
{
    proof {
        reveal_strlit("pkgid");
        reveal_strlit("--locked");
        reveal_strlit("--manifest-path");
        reveal_strlit("--package");
    }
    let mut arguments: Vec<String> = Vec::new();
    push_text(&mut arguments, "pkgid");
    push_text(&mut arguments, "--locked");
    push_text(&mut arguments, "--manifest-path");
    push_string(&mut arguments, manifest.clone());
    push_text(&mut arguments, "--package");
    push_string(&mut arguments, package.clone());
    assert(string_views(arguments@) =~= seq!["pkgid"@, "--locked"@, "--manifest-path"@, manifest@, "--package"@, package@]);
    arguments
}

/// The crate identity one extraction must produce.
pub enum CompilerCrateSelection<'root> {
    /// Derived from the selected Cargo target.
    Inferred,
    /// Required to match this explicit or persisted root.
    Expected(&'root CrateRootArg),
}

impl<'root> CompilerCrateSelection<'root> {
    /// The root a selection requires, if any.
    pub fn expected_root(&self) -> (r: Option<CrateRootArg>)
        ensures
            match *self {
                CompilerCrateSelection::Inferred => r is None,
                CompilerCrateSelection::Expected(e) => r == Some(*e),
            },
    {
        match self {
            CompilerCrateSelection::Inferred => None,
            CompilerCrateSelection::Expected(e) => Some(e.copied()),
        }
    }
}

/// Accepts no expected crate root or exactly one.
pub fn validate_expected_crates<'root>(expected_crates: Option<&'root [CrateRootArg]>) -> (r: Result<
    CompilerCrateSelection<'root>,
    CompilerError,
>)
    ensures
        expected_crates is None ==> r matches Ok(CompilerCrateSelection::Inferred),
        expected_crates matches Some(c) ==> (c@.len() == 1 ==> (r matches Ok(CompilerCrateSelection::Expected(root))
            && *root == c@[0])),
        expected_crates matches Some(c) ==> (c@.len() != 1 ==> (r matches Err(
            CompilerError::CompilerCrateCount { expected, actual },
        ) && expected == 1 && actual == c@.len())),
{
    match expected_crates {
        None => Ok(CompilerCrateSelection::Inferred),
        Some(expected) => {
            if expected.len() == 1 {
                Ok(CompilerCrateSelection::Expected(&expected[0]))
            } else {
                Err(CompilerError::CompilerCrateCount { expected: 1, actual: expected.len() })
            }
        },
    }
}

/// Rustdoc documents private items exactly for a binary target.
pub fn check_private_items(kind: RustCrateKind, includes_private: bool) -> (r: Result<(), CompilerError>)
    ensures
        r is Ok <==> includes_private == (kind == RustCrateKind::Binary),
        r matches Err(e) ==> e matches CompilerError::RustdocPrivateItemsMismatch { expected, actual } && expected == (
        kind == RustCrateKind::Binary) && actual == includes_private,
{
    let expected = match kind {
        RustCrateKind::Binary => true,
        RustCrateKind::Library => false,
    };
    if includes_private != expected {
        return Err(CompilerError::RustdocPrivateItemsMismatch { expected, actual: includes_private });
    }
    Ok(())
}

/// Rustdoc documented the requested platform, where one was requested.
pub fn check_rustdoc_target(expected: &Option<String>, actual: &String) -> (r: Result<(), CompilerError>)
    ensures
        r is Ok <==> (expected matches Some(t) ==> t@ == actual@),
        r matches Err(e) ==> (e matches CompilerError::RustdocTargetMismatch { expected: x, actual: a } && expected
            matches Some(t) && x@ == t@ && a@ == actual@),
{
    if let Some(triple) = expected {
        if !str_equal(triple.as_str(), actual.as_str()) {
            return Err(CompilerError::RustdocTargetMismatch { expected: triple.clone(), actual: actual.clone() });
        }
    }
    Ok(())
}

/// The file name rustdoc gives the JSON of crate target `target_name`:
/// the crate name, with `-` spelled `_`, then `.json`.
pub fn rustdoc_json_name(target_name: &str) -> (r: String)
    ensures
        r@ == crate::compiler::probe::rust_crate_name(target_name@) + ".json"@,
{
    let mut name = crate::compiler::probe::crate_identifier(target_name);
    crate::text::push_str(&mut name, ".json");
    proof {
        reveal_strlit(".json");
    }
    name
}

/// A walked entry is the rustdoc JSON: a file named `expected` directly in
/// a directory named `doc`.
pub fn is_rustdoc_json(is_file: bool, file_name: &Option<String>, parent_name: &Option<String>, expected: &str) -> (r: bool)
    ensures
        r == (is_file && (file_name matches Some(f) && f@ == expected@) && (parent_name matches Some(p) && p@ == "doc"@)),
{
    proof {
        reveal_strlit("doc");
    }
    let named = match file_name {
        Some(f) => str_equal(f.as_str(), expected),
        None => false,
    };
    let in_doc = match parent_name {
        Some(p) => str_equal(p.as_str(), "doc"),
        None => false,
    };
    is_file && named && in_doc
}

/// The one rustdoc JSON found below `root`; any other number of candidates
/// is refused with the count.
pub fn select_rustdoc_json(root: &str, candidates: Vec<String>) -> (r: Result<String, CompilerError>)
    ensures
        candidates@.len() == 1 ==> (r matches Ok(path) && path == candidates@[0]),
        candidates@.len() != 1 ==> (r matches Err(e) && (e matches CompilerError::RustdocArtifactCount { root: x, count }
            && x@ == root@ && count == candidates@.len())),
{
    if candidates.len() == 1 {
        let mut candidates = candidates;
        let only = candidates.pop();
        return Ok(only.unwrap());
    }
    Err(CompilerError::RustdocArtifactCount { root: root.to_owned(), count: candidates.len() })
}

/// The byte views of path components.
pub open spec fn component_bytes(c: Seq<Vec<u8>>) -> Seq<Seq<u8>> {
    c.map_values(|v: Vec<u8>| v@)
}

/// Path components joined by `/`.
pub open spec fn slash_joined_bytes(c: Seq<Seq<u8>>) -> Seq<u8>
    decreases c.len(),
{
    if c.len() == 0 {
        seq![]
    } else if c.len() == 1 {
        c[0]
    } else {
        slash_joined_bytes(c.drop_last()) + seq![47u8] + c.last()
    }
}

/// Texts joined by `/`.
pub open spec fn slash_joined_text(c: Seq<Seq<char>>) -> Seq<char>
    decreases c.len(),
{
    if c.len() == 0 {
        seq![]
    } else if c.len() == 1 {
        c[0]
    } else {
        slash_joined_text(c.drop_last()) + seq!['/'] + c.last()
    }
}

/// How an absolute path of `c` is displayed.
pub open spec fn absolute_display(c: Seq<Seq<u8>>) -> Seq<char> {
    crate::compiler::process::lossy_utf8(seq![47u8] + slash_joined_bytes(c))
}

/// `prefix` is a leading run of the components of `path`.
pub open spec fn component_prefix(prefix: Seq<Seq<u8>>, path: Seq<Seq<u8>>) -> bool {
    prefix.len() <= path.len() && forall|i: int| 0 <= i < prefix.len() ==> #[trigger] path[i] == prefix[i]
}

/// A crate kind as messages name it.
pub open spec fn kind_text(kind: RustCrateKind) -> Seq<char> {
    match kind {
        RustCrateKind::Library => "Library"@,
        RustCrateKind::Binary => "Binary"@,
    }
}

/// A crate root with its kind, as mismatch messages show it.
pub open spec fn root_label(root: Seq<char>, kind: RustCrateKind) -> Seq<char> {
    root + " ("@ + kind_text(kind) + ")"@
}

/// The crate root that the target below the source root names: its
/// components after the source root's, decoded and joined by `/`.
pub open spec fn derived_root(source: Seq<Seq<u8>>, target: Seq<Seq<u8>>) -> Seq<char> {
    slash_joined_text(target.skip(source.len() as int).map_values(|b: Seq<u8>| vstd::utf8::decode_utf8(b)))
}

fn join_components(c: &[Vec<u8>]) -> (r: Vec<u8>)
    ensures
        r@ == slash_joined_bytes(component_bytes(c@)),
{
    let mut r: Vec<u8> = Vec::new();
    let mut i: usize = 0;
    while i < c.len()
        invariant
            i <= c@.len(),
            r@ == slash_joined_bytes(component_bytes(c@).take(i as int)),
        decreases c@.len() - i,
    {
        let ghost prior = component_bytes(c@).take(i as int);
        if i > 0 {
            r.push(47u8);
        }
        r = crate::compiler::probe::concat_bytes(&r, &c[i]);
        proof {
            let now = component_bytes(c@).take(i + 1);
            assert(now.drop_last() =~= prior);
            assert(now.last() == c@[i as int]@);
            if i == 0 {
                assert(now =~= seq![c@[0]@]);
            }
        }
        i += 1;
    }
    assert(component_bytes(c@).take(c@.len() as int) =~= component_bytes(c@));
    r
}

fn is_component_prefix(prefix: &[Vec<u8>], path: &[Vec<u8>]) -> (r: bool)
    ensures
        r == component_prefix(component_bytes(prefix@), component_bytes(path@)),
{
    if prefix.len() > path.len() {
        return false;
    }
    let mut i: usize = 0;
    while i < prefix.len()
        invariant
            i <= prefix@.len() <= path@.len(),
            forall|k: int| 0 <= k < i ==> #[trigger] component_bytes(path@)[k] == component_bytes(prefix@)[k],
        decreases prefix@.len() - i,
    {
        if !crate::compiler::probe::bytes_equal(path[i].as_slice(), prefix[i].as_slice()) {
            assert(component_bytes(path@)[i as int] != component_bytes(prefix@)[i as int]);
            return false;
        }
        i += 1;
    }
    true
}

fn copy_components(c: &[Vec<u8>], start: usize) -> (r: Vec<Vec<u8>>)
    requires
        start <= c@.len(),
    ensures
        component_bytes(r@) == component_bytes(c@).skip(start as int),
{
    let mut r: Vec<Vec<u8>> = Vec::new();
    let mut i: usize = start;
    while i < c.len()
        invariant
            start <= i <= c@.len(),
            component_bytes(r@) == component_bytes(c@).subrange(start as int, i as int),
        decreases c@.len() - i,
    {
        let ghost prior = r@;
        r.push(vstd::slice::slice_to_vec(c[i].as_slice()));
        proof {
            assert(component_bytes(r@) =~= component_bytes(prior).push(c@[i as int]@));
            assert(component_bytes(c@).subrange(start as int, i + 1) =~= component_bytes(c@).subrange(
                start as int,
                i as int,
            ).push(c@[i as int]@));
        }
        i += 1;
    }
    assert(component_bytes(c@).subrange(start as int, c@.len() as int) =~= component_bytes(c@).skip(start as int));
    r
}

fn label(root: &str, kind: RustCrateKind) -> (r: String)
    ensures
        r@ == root_label(root@, kind),
{
    let mut r = root.to_owned();
    crate::text::push_str(&mut r, " (");
    match kind {
        RustCrateKind::Library => crate::text::push_str(&mut r, "Library"),
        RustCrateKind::Binary => crate::text::push_str(&mut r, "Binary"),
    }
    crate::text::push_str(&mut r, ")");
    proof {
        reveal_strlit(" (");
        reveal_strlit("Library");
        reveal_strlit("Binary");
        reveal_strlit(")");
    }
    r
}

/// What deriving the crate of `project` gives, from the components of the
/// canonical source root and of the canonical target root.
pub open spec fn identity_outcome(
    project: CargoProject,
    source: Seq<Seq<u8>>,
    target: Seq<Seq<u8>>,
    expected: Option<CrateRootArg>,
    r: Result<CrateRootArg, CompilerError>,
) -> bool {
    if !component_prefix(source, target) {
        r matches Err(CompilerError::CargoTargetOutsideSourceRoot { source_root: s, target_root: t }) && s@
            == absolute_display(source) && t@ == absolute_display(target)
    } else {
        let relative = target.skip(source.len() as int);
        let root = derived_root(source, target);
        if exists|i: int| 0 <= i < relative.len() && !vstd::utf8::valid_utf8(#[trigger] relative[i]) {
            r matches Err(CompilerError::InvalidMappedSourcePath { path }) && path@
                == crate::compiler::process::lossy_utf8(slash_joined_bytes(relative))
        } else {
            match expected {
                None => r matches Ok(c) && c.spec_id() == project.target_name@ && c.spec_kind() == project.kind
                    && c.spec_root() == root,
                Some(e) => if e.spec_root() == root && e.spec_kind() == project.kind {
                    r == Ok::<CrateRootArg, CompilerError>(e)
                } else {
                    r matches Err(CompilerError::CrateRootMismatch { expected: x, actual: a }) && x@ == root_label(
                        e.spec_root(),
                        e.spec_kind(),
                    ) && a@ == root_label(root, project.kind)
                },
            }
        }
    }
}

/// The crate this project documents, from the components of the canonical
/// source root and of the canonical target root: the target must lie below
/// the source root, and each of its components after it must be UTF-8; the
/// crate root is those components joined by `/`, with the target's name and
/// kind. An expected root must agree in root and kind, and is then what is
/// returned.
pub fn crate_identity(
    project: &CargoProject,
    source_root: &Vec<Vec<u8>>,
    target_root: &Vec<Vec<u8>>,
    expected: &Option<CrateRootArg>,
) -> (r: Result<CrateRootArg, CompilerError>)
    ensures
        identity_outcome(*project, component_bytes(source_root@), component_bytes(target_root@), *expected, r),
{
    let ghost source = component_bytes(source_root@);
    let ghost target = component_bytes(target_root@);
    let inside = is_component_prefix(source_root.as_slice(), target_root.as_slice());
    if !inside {
        let mut slash: Vec<u8> = Vec::new();
        slash.push(47u8);
        assert(slash@ =~= seq![47u8]);
        let source_path = crate::compiler::probe::concat_bytes(&slash, &join_components(source_root.as_slice()));
        let target_path = crate::compiler::probe::concat_bytes(&slash, &join_components(target_root.as_slice()));
        return Err(
            CompilerError::CargoTargetOutsideSourceRoot {
                source_root: crate::compiler::process::string_from_utf8_lossy(source_path.as_slice()),
                target_root: crate::compiler::process::string_from_utf8_lossy(target_path.as_slice()),
            },
        );
    }
    assert(component_prefix(source, target));
    let relative_parts = copy_components(target_root.as_slice(), source_root.len());
    let ghost relative = target.skip(source_root@.len() as int);
    assert(component_bytes(relative_parts@) =~= relative);
    let mut root = String::new();
    let ghost mut decoded: Seq<Seq<char>> = seq![];
    let mut k: usize = 0;
    while k < relative_parts.len()
        invariant
            k <= relative_parts@.len(),
            component_bytes(relative_parts@) == relative,
            source == component_bytes(source_root@),
            target == component_bytes(target_root@),
            component_prefix(source, target),
            relative == target.skip(source_root@.len() as int),
            forall|j: int| 0 <= j < k ==> vstd::utf8::valid_utf8(#[trigger] relative[j]),
            decoded == relative.take(k as int).map_values(|b: Seq<u8>| vstd::utf8::decode_utf8(b)),
            root@ == slash_joined_text(decoded),
        decreases relative_parts@.len() - k,
    {
        match crate::compiler::source::str_from_utf8(relative_parts[k].as_slice()) {
            Some(text) => {
                proof {
                    vstd::utf8::encode_utf8_decode_utf8(text@);
                }
                if k > 0 {
                    crate::text::push_char(&mut root, '/');
                }
                crate::text::push_str(&mut root, text);
                proof {
                    let next = relative.take(k + 1).map_values(|b: Seq<u8>| vstd::utf8::decode_utf8(b));
                    assert(next.drop_last() =~= decoded);
                    assert(next.last() == text@);
                    if k == 0 {
                        assert(next =~= seq![text@]);
                    }
                    decoded = next;
                }
            },
            None => {
                assert(!vstd::utf8::valid_utf8(relative[k as int]));
                let joined = join_components(relative_parts.as_slice());
                return Err(
                    CompilerError::InvalidMappedSourcePath {
                        path: crate::compiler::process::string_from_utf8_lossy(joined.as_slice()),
                    },
                );
            },
        }
        k += 1;
    }
    proof {
        assert(relative.take(relative.len() as int) =~= relative);
        assert(!exists|i: int| 0 <= i < relative.len() && !vstd::utf8::valid_utf8(#[trigger] relative[i]));
    }
    match expected {
        None => Ok(CrateRootArg::from_parts(project.target_name.clone(), project.kind, root)),
        Some(expected) => {
            if str_equal(expected.root(), root.as_str()) && expected.kind() == project.kind {
                Ok(expected.copied())
            } else {
                Err(
                    CompilerError::CrateRootMismatch {
                        expected: label(expected.root(), expected.kind()),
                        actual: label(root.as_str(), project.kind),
                    },
                )
            }
        },
    }
}

} // verus!
