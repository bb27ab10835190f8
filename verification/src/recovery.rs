//! Recovery of an interrupted ownership update: which paths are examined,
//! which documents stay owned, which reservation markers are released, and
//! the committed manifest that replaces the interrupted one.

use vstd::prelude::*;

use crate::cancellation::ApplicationCancellation;
use crate::compiler::extractor::{string_views, strictly_sorted};
use crate::compiler::project::{sorted_distinct, sorted_set_of};
use crate::error::CliError;
use crate::ownership::{
    defect_error, first_defect, join_text, joined_text, recovery_decision, sorted_by_path, spec_recovery,
    with_path, ContentDigest, FoundFile, OwnedCatalog, OwnedFile, OwnershipJournal, OwnershipManifest,
    RecoveryDecision, OWNERSHIP_VERSION,
};
use crate::text::str_equal;

verus! {

/// The paths of `files`, in order.
pub open spec fn paths_of(files: Seq<OwnedFile>) -> Seq<Seq<char>> {
    files.map_values(|f: OwnedFile| f.path@)
}

/// The first index below `n` whose document has path `p`.
pub open spec fn position_of(files: Seq<OwnedFile>, p: Seq<char>, n: int) -> Option<int>
    decreases n,
{
    if n <= 0 {
        None
    } else {
        match position_of(files, p, n - 1) {
            Some(i) => Some(i),
            None => if files[n - 1].path@ == p {
                Some(n - 1)
            } else {
                None
            },
        }
    }
}

/// The document of `files` at path `p`, if there is one.
pub open spec fn lookup(files: Seq<OwnedFile>, p: Seq<char>) -> Option<OwnedFile> {
    match position_of(files, p, files.len() as int) {
        Some(i) => Some(files[i]),
        None => None,
    }
}

/// The digest recorded for an optional document.
pub open spec fn digest_view(f: Option<OwnedFile>) -> Option<Seq<char>> {
    match f {
        Some(file) => Some(file.sha256.0@),
        None => None,
    }
}

/// What was found at a path, as digest and marker flag.
pub open spec fn found_view(f: Option<FoundFile>) -> Option<(Seq<char>, bool)> {
    match f {
        Some(file) => Some((file.digest.0@, file.is_reservation_marker)),
        None => None,
    }
}

/// One path of an interrupted update and what was found there.
pub struct ObservedPath {
    pub path: String,
    pub found: Option<FoundFile>,
}

/// What recovery keeps: the documents that stay owned, in the order of the
/// observed paths, and the paths whose reservation markers are released.
pub struct RecoveryPlan {
    pub recovered: Vec<OwnedFile>,
    pub released: Vec<String>,
}

/// The outcome of recovery over the first `n` observed paths: the owned
/// documents and released paths, or the index of the first path whose
/// content neither side of the update recorded.
pub open spec fn recovery_outcome(
    before: Seq<OwnedFile>,
    after: Seq<OwnedFile>,
    observed: Seq<ObservedPath>,
    n: int,
) -> Result<(Seq<OwnedFile>, Seq<Seq<char>>), int>
    decreases n,
{
    if n <= 0 {
        Ok((seq![], seq![]))
    } else {
        match recovery_outcome(before, after, observed, n - 1) {
            Err(i) => Err(i),
            Ok((owned, released)) => {
                let p = observed[n - 1].path@;
                let previous = lookup(before, p);
                let next = lookup(after, p);
                match spec_recovery(found_view(observed[n - 1].found), digest_view(previous), digest_view(next)) {
                    RecoveryDecision::KeepNext => Ok((owned.push(next->Some_0), released)),
                    RecoveryDecision::KeepPrevious => Ok((owned.push(previous->Some_0), released)),
                    RecoveryDecision::ReleaseReservation { keep_previous } => Ok(
                        (if keep_previous {
                            owned.push(previous->Some_0)
                        } else {
                            owned
                        }, released.push(p)),
                    ),
                    RecoveryDecision::Forget => Ok((owned, released)),
                    RecoveryDecision::Conflict => Err(n - 1),
                }
            },
        }
    }
}

/// `e` reports a recovery conflict at `logical` below `root`.
pub open spec fn conflict_error(e: CliError, root: Seq<char>, logical: Seq<char>) -> bool {
    e matches CliError::GeneratedOwnershipRecoveryConflict { path } && path@ == joined_text(root, logical)
}

/// `c` holds the documents of `owned` sorted by path, documents with one
/// path keeping their order.
pub open spec fn sorted_catalog_of(c: Seq<OwnedFile>, owned: Seq<OwnedFile>) -> bool {
    &&& c.to_multiset() == owned.to_multiset()
    &&& sorted_by_path(c)
    &&& forall|p: Seq<char>| #[trigger] with_path(c, p) == with_path(owned, p)
}

pub(crate) fn copy_owned(f: &OwnedFile) -> (r: OwnedFile)
    ensures
        r == *f,
{
    OwnedFile { path: f.path.clone(), sha256: ContentDigest(f.sha256.0.clone()) }
}

fn digest_of(f: Option<&OwnedFile>) -> (r: Option<ContentDigest>)
    ensures
        match f {
            Some(file) => r matches Some(d) && d.0@ == file.sha256.0@,
            None => r is None,
        },
{
    match f {
        Some(file) => Some(ContentDigest(file.sha256.0.clone())),
        None => None,
    }
}

impl OwnedCatalog {
    /// The document at exactly `path`, if the catalog owns one.
    pub fn find(&self, path: &str) -> (r: Option<&OwnedFile>)
        ensures
            match lookup(self.documents@, path@) {
                Some(f) => r matches Some(g) && *g == f,
                None => r is None,
            },
    {
        let mut i: usize = 0;
        while i < self.documents.len()
            invariant
                i <= self.documents@.len(),
                position_of(self.documents@, path@, i as int) is None,
            decreases self.documents@.len() - i,
        {
            if str_equal(self.documents[i].path.as_str(), path) {
                proof {
                    lemma_position_stable(self.documents@, path@, i as int + 1, self.documents@.len() as int);
                }
                return Some(&self.documents[i]);
            }
            i += 1;
        }
        None
    }
}

pub(crate) proof fn lemma_position_stable(files: Seq<OwnedFile>, p: Seq<char>, n: int, m: int)
    requires
        0 <= n <= m,
        position_of(files, p, n) is Some,
    ensures
        position_of(files, p, m) == position_of(files, p, n),
    decreases m - n,
{
    if m > n {
        lemma_position_stable(files, p, n, m - 1);
    }
}

proof fn lemma_outcome_error_stable(
    before: Seq<OwnedFile>,
    after: Seq<OwnedFile>,
    observed: Seq<ObservedPath>,
    n: int,
    m: int,
)
    requires
        0 <= n <= m,
        recovery_outcome(before, after, observed, n) is Err,
    ensures
        recovery_outcome(before, after, observed, m) == recovery_outcome(before, after, observed, n),
    decreases m - n,
{
    if m > n {
        lemma_outcome_error_stable(before, after, observed, n, m - 1);
    }
}

proof fn lemma_lookup_path(files: Seq<OwnedFile>, p: Seq<char>, n: int)
    requires
        0 <= n <= files.len(),
    ensures
        position_of(files, p, n) matches Some(i) ==> 0 <= i < n && files[i].path@ == p,
    decreases n,
{
    if n > 0 {
        lemma_lookup_path(files, p, n - 1);
    }
}

/// Law: recovery keeps only documents that one side of the interrupted
/// update recorded, each at its own path.
pub proof fn lemma_recovery_keeps_recorded(
    before: Seq<OwnedFile>,
    after: Seq<OwnedFile>,
    observed: Seq<ObservedPath>,
    n: int,
)
    requires
        0 <= n <= observed.len(),
        recovery_outcome(before, after, observed, n) is Ok,
    ensures
        forall|k: int|
            0 <= k < recovery_outcome(before, after, observed, n)->Ok_0.0.len() ==> {
                let f = #[trigger] recovery_outcome(before, after, observed, n)->Ok_0.0[k];
                lookup(before, f.path@) == Some(f) || lookup(after, f.path@) == Some(f)
            },
    decreases n,
{
    if n > 0 {
        lemma_recovery_keeps_recorded(before, after, observed, n - 1);
        let p = observed[n - 1].path@;
        lemma_lookup_path(before, p, before.len() as int);
        lemma_lookup_path(after, p, after.len() as int);
        let prior = recovery_outcome(before, after, observed, n - 1)->Ok_0.0;
        let now = recovery_outcome(before, after, observed, n)->Ok_0.0;
        assert forall|k: int| 0 <= k < now.len() implies {
            let f = #[trigger] now[k];
            lookup(before, f.path@) == Some(f) || lookup(after, f.path@) == Some(f)
        } by {
            if k < prior.len() {
                assert(now[k] == prior[k]);
            }
        }
    }
}

/// Every path recorded on either side of an interrupted update, sorted and
/// without repeats.
pub fn recovery_paths(before: &OwnedCatalog, after: &OwnedCatalog) -> (r: Vec<String>)
    ensures
        sorted_set_of(string_views(r@), paths_of(before.documents@) + paths_of(after.documents@)),
{
    let mut all: Vec<String> = Vec::new();
    let mut i: usize = 0;
    while i < before.documents.len()
        invariant
            i <= before.documents@.len(),
            string_views(all@) == paths_of(before.documents@).take(i as int),
        decreases before.documents@.len() - i,
    {
        all.push(before.documents[i].path.clone());
        proof {
            assert(paths_of(before.documents@).take(i + 1) =~= paths_of(before.documents@).take(i as int).push(
                before.documents@[i as int].path@,
            ));
            assert(string_views(all@) =~= paths_of(before.documents@).take(i + 1));
        }
        i += 1;
    }
    let mut j: usize = 0;
    while j < after.documents.len()
        invariant
            j <= after.documents@.len(),
            string_views(all@) == paths_of(before.documents@) + paths_of(after.documents@).take(j as int),
        decreases after.documents@.len() - j,
    {
        proof {
            assert(paths_of(before.documents@).take(before.documents@.len() as int) =~= paths_of(before.documents@));
        }
        let ghost prior = all@;
        all.push(after.documents[j].path.clone());
        proof {
            assert(string_views(all@) =~= string_views(prior).push(after.documents@[j as int].path@));
            assert(paths_of(after.documents@).take(j + 1) =~= paths_of(after.documents@).take(j as int).push(
                after.documents@[j as int].path@,
            ));
            assert(string_views(all@) =~= paths_of(before.documents@) + paths_of(after.documents@).take(j + 1));
        }
        j += 1;
    }
    proof {
        if after.documents@.len() == 0 {
            assert(paths_of(before.documents@).take(before.documents@.len() as int) =~= paths_of(before.documents@));
        }
        assert(paths_of(after.documents@).take(after.documents@.len() as int) =~= paths_of(after.documents@));
    }
    sorted_distinct(&all)
}

/// Walks the observed paths of an interrupted update in order: a file that
/// matches the recorded target is kept as the target, one that matches the
/// earlier record as before, the target's reservation marker is released
/// (keeping the earlier document, if any), a path missing on disk stays
/// owned only when both sides owned it, and any other content is a
/// conflict at that path below `root`.
pub fn plan_recovery(
    root: &String,
    before: &OwnedCatalog,
    after: &OwnedCatalog,
    observed: &Vec<ObservedPath>,
) -> (r: Result<RecoveryPlan, CliError>)
    ensures
        match recovery_outcome(before.documents@, after.documents@, observed@, observed@.len() as int) {
            Ok((owned, released)) => r matches Ok(plan) && plan.recovered@ == owned && string_views(
                plan.released@,
            ) == released,
            Err(i) => r matches Err(e) && conflict_error(e, root@, observed@[i].path@),
        },
{
    let mut recovered: Vec<OwnedFile> = Vec::new();
    let mut released: Vec<String> = Vec::new();
    proof {
        assert(string_views(released@) =~= Seq::<Seq<char>>::empty());
    }
    let mut i: usize = 0;
    while i < observed.len()
        invariant
            i <= observed@.len(),
            recovery_outcome(before.documents@, after.documents@, observed@, i as int) == Ok::<
                (Seq<OwnedFile>, Seq<Seq<char>>),
                int,
            >((recovered@, string_views(released@))),
        decreases observed@.len() - i,
    {
        let entry = &observed[i];
        let previous = before.find(entry.path.as_str());
        let next = after.find(entry.path.as_str());
        let previous_digest = digest_of(previous);
        let next_digest = digest_of(next);
        let decision = recovery_decision(&entry.found, &previous_digest, &next_digest);
        proof {
            assert(string_views(released@).push(entry.path@) =~= string_views(released@.push(entry.path)));
        }
        match decision {
            RecoveryDecision::KeepNext => {
                recovered.push(copy_owned(next.unwrap()));
            },
            RecoveryDecision::KeepPrevious => {
                recovered.push(copy_owned(previous.unwrap()));
            },
            RecoveryDecision::ReleaseReservation { keep_previous } => {
                if keep_previous {
                    recovered.push(copy_owned(previous.unwrap()));
                }
                released.push(entry.path.clone());
            },
            RecoveryDecision::Forget => {},
            RecoveryDecision::Conflict => {
                proof {
                    lemma_outcome_error_stable(
                        before.documents@,
                        after.documents@,
                        observed@,
                        i + 1,
                        observed@.len() as int,
                    );
                }
                return Err(CliError::GeneratedOwnershipRecoveryConflict { path: join_text(root, entry.path.as_str()) });
            },
        }
        i += 1;
    }
    Ok(RecoveryPlan { recovered, released })
}

/// The committed manifest that ends an interrupted update: the recovered
/// documents, sorted by path, at the update's generation, once they pass
/// catalog validation against the manifest at `manifest_path`.
pub fn recovered_manifest(
    generation: u64,
    plan: RecoveryPlan,
    manifest_path: &str,
    cancellation: &ApplicationCancellation,
) -> (r: Result<(OwnershipManifest, Vec<String>), CliError>)
    ensures
        r matches Ok((m, released)) ==> {
            &&& m.version == OWNERSHIP_VERSION
            &&& m.journal matches OwnershipJournal::Committed { generation: g, files }
            &&& g == generation
            &&& sorted_catalog_of(files.documents@, plan.recovered@)
            &&& first_defect(files.documents@, files.documents@.len() as int) is None
            &&& released@ == plan.released@
        },
        r matches Err(e) ==> e is OperationCanceled || exists|c: Seq<OwnedFile>| {
            &&& sorted_catalog_of(c, plan.recovered@)
            &&& #[trigger] first_defect(c, c.len() as int) matches Some(i) && defect_error(c, i, manifest_path@, e)
        },
{
    let ghost owned = plan.recovered@;
    let RecoveryPlan { recovered, released } = plan;
    let catalog = OwnedCatalog::from_files(recovered);
    match catalog.validate(manifest_path, cancellation) {
        Ok(()) => Ok((OwnershipManifest::committed(generation, catalog), released)),
        Err(e) => {
            proof {
                let c = catalog.documents@;
                if !(e is OperationCanceled) {
                    assert(sorted_catalog_of(c, owned));
                    assert(first_defect(c, c.len() as int) is Some);
                }
            }
            Err(e)
        },
    }
}

} // verus!
