//! Admission of a new generation of documents: the requested paths and
//! their digests, host spellings that differ only in case, the next
//! generation number, and the preflight of every write and removal.

use vstd::prelude::*;

use crate::cancellation::ApplicationCancellation;
use crate::compiler::extractor::{lowercase_ascii, string_views};
use crate::error::CliError;
use crate::ownership::{
    case_only_error, defect_error, first_case_only_change, first_defect, OwnedCatalog, document_path, hex_of, is_document, join_text, joined_text, output_preflight, ownership_error, portable_key, sha256,
    spec_output_preflight, ContentDigest, OutputPreflight, OwnedFile,
};
use crate::recovery::{copy_owned, digest_view, lemma_position_stable, lookup, paths_of, position_of, sorted_catalog_of};
use crate::text::{chars_equal, chars_of, push_str, str_equal};

verus! {

/// One document a completed generation asks to write.
pub struct GeneratedDocument {
    pub path: String,
    pub bytes: Vec<u8>,
}

/// The paths of the requested documents, in order.
pub open spec fn requested_paths(docs: Seq<GeneratedDocument>) -> Seq<Seq<char>> {
    docs.map_values(|d: GeneratedDocument| d.path@)
}

/// The first index below `n` whose path has the portable key of path `i`.
pub open spec fn first_same_key(paths: Seq<Seq<char>>, i: int, n: int) -> Option<int>
    decreases n,
{
    if n <= 0 {
        None
    } else {
        match first_same_key(paths, i, n - 1) {
            Some(j) => Some(j),
            None => if portable_key(paths[n - 1]) == portable_key(paths[i]) {
                Some(n - 1)
            } else {
                None
            },
        }
    }
}

/// Requested path `i` is not a direct root YAML document, or collides with
/// an earlier requested path up to ASCII case.
pub open spec fn output_defective(paths: Seq<Seq<char>>, i: int) -> bool {
    !document_path(paths[i]) || first_same_key(paths, i, i) is Some
}

/// The first defective requested path among the first `n`.
pub open spec fn first_output_defect(paths: Seq<Seq<char>>, n: int) -> Option<int>
    decreases n,
{
    if n <= 0 {
        None
    } else {
        match first_output_defect(paths, n - 1) {
            Some(i) => Some(i),
            None => if output_defective(paths, n - 1) {
                Some(n - 1)
            } else {
                None
            },
        }
    }
}

/// `e` reports the defect of requested path `i`.
pub open spec fn output_defect_error(paths: Seq<Seq<char>>, i: int, manifest_path: Seq<char>, e: CliError) -> bool {
    let p = paths[i];
    if !document_path(p) {
        ownership_error(
            e,
            manifest_path,
            "generated path "@ + p + " must be a direct root .yml or .yaml combined document"@,
        )
    } else {
        e matches CliError::PortableGeneratedPathCollision { first, second } && first@ == paths[first_same_key(
            paths,
            i,
            i,
        )->Some_0] && second@ == p
    }
}

/// `files` owns each requested document under its path with the digest of
/// its bytes.
pub open spec fn owns_documents(files: Seq<OwnedFile>, docs: Seq<GeneratedDocument>) -> bool {
    &&& files.len() == docs.len()
    &&& forall|i: int|
        0 <= i < docs.len() ==> (#[trigger] files[i]).path@ == docs[i].path@ && files[i].sha256.0@ == hex_of(
            sha256(docs[i].bytes@),
        )
}

proof fn lemma_output_defect_stable(paths: Seq<Seq<char>>, n: int, m: int)
    requires
        0 <= n <= m,
        first_output_defect(paths, n) is Some,
    ensures
        first_output_defect(paths, m) == first_output_defect(paths, n),
    decreases m - n,
{
    if n < m {
        lemma_output_defect_stable(paths, n, m - 1);
    }
}

proof fn lemma_same_key_found(paths: Seq<Seq<char>>, i: int, n: int, j: int)
    requires
        0 <= j < n,
        portable_key(paths[j]) == portable_key(paths[i]),
        forall|k: int| 0 <= k < j ==> portable_key(#[trigger] paths[k]) != portable_key(paths[i]),
    ensures
        first_same_key(paths, i, n) == Some(j),
    decreases n,
{
    if n > j + 1 {
        lemma_same_key_found(paths, i, n - 1, j);
    } else {
        lemma_same_key_none(paths, i, j);
    }
}

proof fn lemma_same_key_none(paths: Seq<Seq<char>>, i: int, n: int)
    requires
        0 <= n,
        forall|k: int| 0 <= k < n ==> portable_key(#[trigger] paths[k]) != portable_key(paths[i]),
    ensures
        first_same_key(paths, i, n) is None,
    decreases n,
{
    if n > 0 {
        lemma_same_key_none(paths, i, n - 1);
    }
}

/// Admits the documents of a completed generation in order: each path must
/// be a direct root YAML document and differ from every earlier path by
/// more than ASCII case; each admitted document is owned with the digest
/// of its bytes. The first broken rule is reported; cancellation may stop
/// the walk earlier.
pub fn collect_outputs(
    documents: &Vec<GeneratedDocument>,
    manifest_path: &str,
    cancellation: &ApplicationCancellation,
) -> (r: Result<Vec<OwnedFile>, CliError>)
    ensures
        r matches Ok(files) ==> first_output_defect(
            requested_paths(documents@),
            documents@.len() as int,
        ) is None && owns_documents(files@, documents@),
        r matches Err(e) ==> e is OperationCanceled || (first_output_defect(
            requested_paths(documents@),
            documents@.len() as int,
        ) matches Some(i) && output_defect_error(requested_paths(documents@), i, manifest_path@, e)),
{
    let ghost paths = requested_paths(documents@);
    let mut files: Vec<OwnedFile> = Vec::new();
    let mut keys: Vec<Vec<char>> = Vec::new();
    let mut i: usize = 0;
    while i < documents.len()
        invariant
            i <= documents@.len(),
            paths == requested_paths(documents@),
            first_output_defect(paths, i as int) is None,
            keys@.len() == i,
            forall|j: int| 0 <= j < i ==> (#[trigger] keys@[j])@ == portable_key(paths[j]),
            files@.len() == i,
            forall|j: int|
                0 <= j < i ==> (#[trigger] files@[j]).path@ == documents@[j].path@ && files@[j].sha256.0@
                    == hex_of(sha256(documents@[j].bytes@)),
        decreases documents@.len() - i,
    {
        cancellation.checkpoint()?;
        let document = &documents[i];
        assert(paths[i as int] == document.path@);
        if !is_document(&document.path) {
            let mut message = String::new();
            push_str(&mut message, "generated path ");
            push_str(&mut message, document.path.as_str());
            push_str(&mut message, " must be a direct root .yml or .yaml combined document");
            proof {
                reveal_strlit("generated path ");
                reveal_strlit(" must be a direct root .yml or .yaml combined document");
                assert(first_output_defect(paths, i + 1) == Some(i as int));
                lemma_output_defect_stable(paths, i + 1, documents@.len() as int);
            }
            return Err(CliError::InvalidGeneratedOwnership { path: manifest_path.to_owned(), message });
        }
        let key = lowercase_ascii(chars_of(document.path.as_str()).as_slice());
        let mut j: usize = 0;
        while j < keys.len()
            invariant
                j <= keys@.len(),
                keys@.len() == i,
                i < documents@.len(),
                paths == requested_paths(documents@),
                paths[i as int] == document.path@,
                *document == documents@[i as int],
                first_output_defect(paths, i as int) is None,
                document_path(paths[i as int]),
                key@ == portable_key(paths[i as int]),
                forall|k: int| 0 <= k < i ==> (#[trigger] keys@[k])@ == portable_key(paths[k]),
                forall|k: int| 0 <= k < j ==> portable_key(#[trigger] paths[k]) != portable_key(paths[i as int]),
            decreases keys@.len() - j,
        {
            if chars_equal(keys[j].as_slice(), key.as_slice()) {
                proof {
                    lemma_same_key_found(paths, i as int, i as int, j as int);
                    assert(first_output_defect(paths, i + 1) == Some(i as int));
                    lemma_output_defect_stable(paths, i + 1, documents@.len() as int);
                }
                assert(paths[j as int] == documents@[j as int].path@);
                return Err(
                    CliError::PortableGeneratedPathCollision {
                        first: documents[j].path.clone(),
                        second: document.path.clone(),
                    },
                );
            }
            j += 1;
        }
        proof {
            lemma_same_key_none(paths, i as int, i as int);
        }
        let digest = ContentDigest::of(document.bytes.as_slice(), cancellation)?;
        files.push(OwnedFile { path: document.path.clone(), sha256: digest });
        keys.push(key);
        i += 1;
    }
    Ok(files)
}

/// The last index below `n` whose requested path has key `k`.
pub open spec fn last_with_key(paths: Seq<Seq<char>>, k: Seq<char>, n: int) -> Option<int>
    decreases n,
{
    if n <= 0 {
        None
    } else if portable_key(paths[n - 1]) == k {
        Some(n - 1)
    } else {
        last_with_key(paths, k, n - 1)
    }
}

/// A host entry named `name` stands where a request with the same key but
/// another spelling goes.
pub open spec fn misspelled(paths: Seq<Seq<char>>, name: Seq<char>) -> bool {
    match last_with_key(paths, portable_key(name), paths.len() as int) {
        Some(j) => paths[j] != name,
        None => false,
    }
}

/// The first host entry below `n` that is text, has key `k`, and is
/// misspelled.
pub open spec fn first_misspelled(paths: Seq<Seq<char>>, siblings: Seq<Option<String>>, k: Seq<char>, n: int) -> Option<
    int,
>
    decreases n,
{
    if n <= 0 {
        None
    } else {
        match first_misspelled(paths, siblings, k, n - 1) {
            Some(j) => Some(j),
            None => if siblings[n - 1] matches Some(name) && portable_key(name@) == k && misspelled(paths, name@) {
                Some(n - 1)
            } else {
                None
            },
        }
    }
}

/// The first request below `n` that has a misspelled host entry.
pub open spec fn first_spelling_collision(paths: Seq<Seq<char>>, siblings: Seq<Option<String>>, n: int) -> Option<int>
    decreases n,
{
    if n <= 0 {
        None
    } else {
        match first_spelling_collision(paths, siblings, n - 1) {
            Some(o) => Some(o),
            None => if first_misspelled(paths, siblings, portable_key(paths[n - 1]), siblings.len() as int) is Some {
                Some(n - 1)
            } else {
                None
            },
        }
    }
}

/// `e` reports request `o` against its first misspelled host entry below
/// `root`.
pub open spec fn spelling_error(
    paths: Seq<Seq<char>>,
    siblings: Seq<Option<String>>,
    o: int,
    root: Seq<char>,
    e: CliError,
) -> bool {
    let s = first_misspelled(paths, siblings, portable_key(paths[o]), siblings.len() as int)->Some_0;
    e matches CliError::PortableGeneratedPathCollision { first, second } && first@ == joined_text(
        root,
        siblings[s]->Some_0@,
    ) && second@ == paths[o]
}

proof fn lemma_last_with_key_none(paths: Seq<Seq<char>>, k: Seq<char>, n: int)
    requires
        0 <= n <= paths.len(),
        forall|j: int| 0 <= j < n ==> portable_key(#[trigger] paths[j]) != k,
    ensures
        last_with_key(paths, k, n) is None,
    decreases n,
{
    if n > 0 {
        lemma_last_with_key_none(paths, k, n - 1);
    }
}

proof fn lemma_last_with_key_bounds(paths: Seq<Seq<char>>, k: Seq<char>, n: int)
    ensures
        last_with_key(paths, k, n) matches Some(j) ==> 0 <= j < n && portable_key(paths[j]) == k,
    decreases n,
{
    if n > 0 {
        lemma_last_with_key_bounds(paths, k, n - 1);
    }
}

proof fn lemma_first_misspelled_bounds(paths: Seq<Seq<char>>, siblings: Seq<Option<String>>, k: Seq<char>, n: int)
    ensures
        first_misspelled(paths, siblings, k, n) matches Some(j) ==> 0 <= j < n && siblings[j] is Some,
    decreases n,
{
    if n > 0 {
        lemma_first_misspelled_bounds(paths, siblings, k, n - 1);
    }
}

fn last_request_with_key(requested: &Vec<String>, key: &Vec<char>) -> (r: Option<usize>)
    ensures
        r matches Some(j) ==> j < requested@.len() && last_with_key(string_views(requested@), key@, requested@.len() as int)
            == Some(j as int),
        r is None ==> last_with_key(string_views(requested@), key@, requested@.len() as int) is None,
        match last_with_key(string_views(requested@), key@, requested@.len() as int) {
            Some(j) => r == Some(j as usize),
            None => r is None,
        },
{
    let ghost paths = string_views(requested@);
    proof {
        lemma_last_with_key_bounds(paths, key@, requested@.len() as int);
    }
    let mut n: usize = requested.len();
    while n > 0
        invariant
            n <= requested@.len(),
            paths == string_views(requested@),
            last_with_key(paths, key@, requested@.len() as int) == last_with_key(paths, key@, n as int),
        decreases n,
    {
        let candidate = lowercase_ascii(chars_of(requested[n - 1].as_str()).as_slice());
        assert(paths[n - 1] == requested@[n - 1]@);
        if chars_equal(candidate.as_slice(), key.as_slice()) {
            return Some(n - 1);
        }
        n -= 1;
    }
    None
}

proof fn lemma_first_misspelled_stable(
    paths: Seq<Seq<char>>,
    siblings: Seq<Option<String>>,
    k: Seq<char>,
    n: int,
    m: int,
)
    requires
        0 <= n <= m,
        first_misspelled(paths, siblings, k, n) is Some,
    ensures
        first_misspelled(paths, siblings, k, m) == first_misspelled(paths, siblings, k, n),
    decreases m - n,
{
    if n < m {
        lemma_first_misspelled_stable(paths, siblings, k, n, m - 1);
    }
}

proof fn lemma_spelling_collision_stable(paths: Seq<Seq<char>>, siblings: Seq<Option<String>>, n: int, m: int)
    requires
        0 <= n <= m,
        first_spelling_collision(paths, siblings, n) is Some,
    ensures
        first_spelling_collision(paths, siblings, m) == first_spelling_collision(paths, siblings, n),
    decreases m - n,
{
    if n < m {
        lemma_spelling_collision_stable(paths, siblings, n, m - 1);
    }
}

fn first_misspelled_sibling(requested: &Vec<String>, siblings: &Vec<Option<String>>, key: &Vec<char>) -> (r: Option<
    usize,
>)
    ensures
        r matches Some(j) ==> j < siblings@.len() && siblings@[j as int] is Some && first_misspelled(
            string_views(requested@),
            siblings@,
            key@,
            siblings@.len() as int,
        ) == Some(j as int),
        r is None ==> first_misspelled(string_views(requested@), siblings@, key@, siblings@.len() as int) is None,
        match first_misspelled(string_views(requested@), siblings@, key@, siblings@.len() as int) {
            Some(j) => r == Some(j as usize),
            None => r is None,
        },
{
    proof {
        lemma_first_misspelled_bounds(string_views(requested@), siblings@, key@, siblings@.len() as int);
    }
    let ghost paths = string_views(requested@);
    let owner = last_request_with_key(requested, key);
    let mut n: usize = 0;
    while n < siblings.len()
        invariant
            n <= siblings@.len(),
            paths == string_views(requested@),
            first_misspelled(paths, siblings@, key@, n as int) is None,
            paths.len() == requested@.len(),
            owner matches Some(j) ==> j < requested@.len() && last_with_key(paths, key@, requested@.len() as int)
                == Some(j as int),
            owner is None ==> last_with_key(paths, key@, requested@.len() as int) is None,
        decreases siblings@.len() - n,
    {
        if let Some(name) = &siblings[n] {
            let name_key = lowercase_ascii(chars_of(name.as_str()).as_slice());
            assert(name_key@ =~= portable_key(name@));
            if chars_equal(name_key.as_slice(), key.as_slice()) {
                assert(portable_key(name@) == key@);
                if let Some(j) = owner {
                    assert(paths[j as int] == requested@[j as int]@);
                    if !crate::text::str_equal(requested[j].as_str(), name.as_str()) {
                        proof {
                            assert(misspelled(paths, name@));
                            assert(first_misspelled(paths, siblings@, key@, n + 1) == Some(n as int));
                            lemma_first_misspelled_stable(paths, siblings@, key@, n + 1, siblings@.len() as int);
                        }
                        return Some(n);
                    }
                }
            }
        }
        n += 1;
    }
    None
}

/// Rejects host entries beside the requested documents whose names equal
/// a request up to ASCII case but are spelled differently; the first
/// request with such an entry is reported against the first such entry.
/// Entries whose names are not text take no part.
pub fn validate_host_spellings(
    root: &String,
    requested: &Vec<String>,
    siblings: &Vec<Option<String>>,
    cancellation: &ApplicationCancellation,
) -> (r: Result<(), CliError>)
    ensures
        r is Ok ==> first_spelling_collision(string_views(requested@), siblings@, requested@.len() as int) is None,
        r matches Err(e) ==> e is OperationCanceled || (first_spelling_collision(
            string_views(requested@),
            siblings@,
            requested@.len() as int,
        ) matches Some(o) && spelling_error(string_views(requested@), siblings@, o, root@, e)),
{
    let ghost paths = string_views(requested@);
    let mut o: usize = 0;
    while o < requested.len()
        invariant
            o <= requested@.len(),
            paths == string_views(requested@),
            first_spelling_collision(paths, siblings@, o as int) is None,
        decreases requested@.len() - o,
    {
        cancellation.checkpoint()?;
        let key = lowercase_ascii(chars_of(requested[o].as_str()).as_slice());
        assert(paths[o as int] == requested@[o as int]@);
        assert(key@ =~= portable_key(paths[o as int]));
        if let Some(s) = first_misspelled_sibling(requested, siblings, &key) {
            let name = match &siblings[s] {
                Some(n) => n,
                None => &requested[o],
            };
            proof {
                assert(name@ == siblings@[s as int]->Some_0@);
                assert(first_spelling_collision(paths, siblings@, o + 1) == Some(o as int));
                lemma_spelling_collision_stable(paths, siblings@, o + 1, requested@.len() as int);
            }
            return Err(
                CliError::PortableGeneratedPathCollision {
                    first: join_text(root, name.as_str()),
                    second: requested[o].clone(),
                },
            );
        }
        o += 1;
    }
    Ok(())
}

/// A file found where a document goes: the digest of its bytes and the
/// identity of the host file (device and inode).
pub struct Destination {
    pub digest: ContentDigest,
    pub identity: (u64, u64),
}

/// A document and what was found where it goes.
pub struct ObservedFile {
    pub owned: OwnedFile,
    pub found: Option<Destination>,
}

/// What a destination must hold just before its write.
#[derive(Clone, Debug, PartialEq, Eq)]
pub enum Expectation {
    /// No file.
    Missing,
    /// A file with this digest.
    Digest(ContentDigest),
}

/// One change that preflight admitted.
#[derive(Clone, Debug, PartialEq, Eq)]
pub enum PlannedMutation {
    /// Write requested output `output` over what `expected` describes.
    Write { output: usize, expected: Expectation },
    /// Remove previously owned document `owned`, which the generation drops.
    Remove { owned: usize },
}

/// The admitted changes and how many matching unowned files were adopted.
pub struct Preflight {
    pub mutations: Vec<PlannedMutation>,
    pub adopted: usize,
}

/// The documents of observed files, in order.
pub open spec fn owned_files(files: Seq<ObservedFile>) -> Seq<OwnedFile> {
    files.map_values(|f: ObservedFile| f.owned)
}

/// Host identities met so far, with the path each was met at.
pub open spec fn identity_view(ids: Seq<((u64, u64), String)>) -> Seq<((u64, u64), Seq<char>)> {
    ids.map_values(|e: ((u64, u64), String)| (e.0, e.1@))
}

/// The first identity below `n` equal to `id`.
pub open spec fn identity_owner(ids: Seq<((u64, u64), Seq<char>)>, id: (u64, u64), n: int) -> Option<int>
    decreases n,
{
    if n <= 0 {
        None
    } else {
        match identity_owner(ids, id, n - 1) {
            Some(j) => Some(j),
            None => if ids[n - 1].0 == id {
                Some(n - 1)
            } else {
                None
            },
        }
    }
}

/// A preflight failure: kind (0 edited owned file, 1 unowned file, 2 two
/// paths naming one host file) and the paths it names.
pub open spec fn failure_error(f: (nat, Seq<char>, Seq<char>), e: CliError) -> bool {
    if f.0 == 0 {
        e matches CliError::ModifiedGeneratedOutput { path } && path@ == f.1
    } else if f.0 == 1 {
        e matches CliError::UnownedGeneratedOutput { path } && path@ == f.1
    } else {
        e matches CliError::GeneratedOutputAlias { first, second } && first@ == f.1 && second@ == f.2
    }
}

/// Records the host file `id` met at `path`, unless another path already
/// named it.
pub open spec fn register(ids: Seq<((u64, u64), Seq<char>)>, id: (u64, u64), path: Seq<char>) -> Result<
    Seq<((u64, u64), Seq<char>)>,
    (nat, Seq<char>, Seq<char>),
> {
    match identity_owner(ids, id, ids.len() as int) {
        Some(j) => Err((2, ids[j].1, path)),
        None => Ok(ids.push((id, path))),
    }
}

/// Preflight of requested output `k` given the changes, adoptions and
/// identities so far.
pub open spec fn output_step(
    root: Seq<char>,
    outputs: Seq<ObservedFile>,
    previous: Seq<ObservedFile>,
    adopt: bool,
    k: int,
    st: (Seq<PlannedMutation>, nat, Seq<((u64, u64), Seq<char>)>),
) -> Result<(Seq<PlannedMutation>, nat, Seq<((u64, u64), Seq<char>)>), (nat, Seq<char>, Seq<char>)> {
    let o = outputs[k];
    let path = joined_text(root, o.owned.path@);
    let prev = lookup(owned_files(previous), o.owned.path@);
    match o.found {
        None => Ok((st.0.push(PlannedMutation::Write { output: k as usize, expected: Expectation::Missing }), st.1, st.2)),
        Some(d) => match register(st.2, d.identity, path) {
            Err(f) => Err(f),
            Ok(ids) => match spec_output_preflight(Some(d.digest.0@), digest_view(prev), o.owned.sha256.0@, adopt) {
                OutputPreflight::Modified => Err((0, path, seq![])),
                OutputPreflight::Unowned => Err((1, path, seq![])),
                OutputPreflight::WriteOverOwned => Ok(
                    (st.0.push(PlannedMutation::Write { output: k as usize, expected: Expectation::Digest(d.digest) }), st.1, ids),
                ),
                OutputPreflight::Adopt => Ok((st.0, st.1 + 1, ids)),
                _ => Ok((st.0, st.1, ids)),
            },
        },
    }
}

/// Preflight of previously owned document `k`: one the generation keeps is
/// left to its output; one already gone is forgotten; one still there must
/// be unedited and is removed.
pub open spec fn stale_step(
    root: Seq<char>,
    outputs: Seq<ObservedFile>,
    previous: Seq<ObservedFile>,
    k: int,
    st: (Seq<PlannedMutation>, nat, Seq<((u64, u64), Seq<char>)>),
) -> Result<(Seq<PlannedMutation>, nat, Seq<((u64, u64), Seq<char>)>), (nat, Seq<char>, Seq<char>)> {
    let p = previous[k];
    if lookup(owned_files(outputs), p.owned.path@) is Some {
        Ok(st)
    } else {
        match p.found {
            None => Ok(st),
            Some(d) => {
                let path = joined_text(root, p.owned.path@);
                if d.digest.0@ != p.owned.sha256.0@ {
                    Err((0, path, seq![]))
                } else {
                    match register(st.2, d.identity, path) {
                        Err(f) => Err(f),
                        Ok(ids) => Ok((st.0.push(PlannedMutation::Remove { owned: k as usize }), st.1, ids)),
                    }
                }
            },
        }
    }
}

/// Preflight over the first `n` requested outputs.
pub open spec fn outputs_ledger(
    root: Seq<char>,
    outputs: Seq<ObservedFile>,
    previous: Seq<ObservedFile>,
    adopt: bool,
    n: int,
) -> Result<(Seq<PlannedMutation>, nat, Seq<((u64, u64), Seq<char>)>), (nat, Seq<char>, Seq<char>)>
    decreases n,
{
    if n <= 0 {
        Ok((seq![], 0, seq![]))
    } else {
        match outputs_ledger(root, outputs, previous, adopt, n - 1) {
            Err(f) => Err(f),
            Ok(st) => output_step(root, outputs, previous, adopt, n - 1, st),
        }
    }
}

/// Preflight over every requested output, then the first `n` previously
/// owned documents.
pub open spec fn preflight_ledger(
    root: Seq<char>,
    outputs: Seq<ObservedFile>,
    previous: Seq<ObservedFile>,
    adopt: bool,
    n: int,
) -> Result<(Seq<PlannedMutation>, nat, Seq<((u64, u64), Seq<char>)>), (nat, Seq<char>, Seq<char>)>
    decreases n,
{
    if n <= 0 {
        outputs_ledger(root, outputs, previous, adopt, outputs.len() as int)
    } else {
        match preflight_ledger(root, outputs, previous, adopt, n - 1) {
            Err(f) => Err(f),
            Ok(st) => stale_step(root, outputs, previous, n - 1, st),
        }
    }
}

/// A planned change names a requested output, or a previously owned
/// document that no output requests.
pub open spec fn targets_admitted(m: PlannedMutation, outputs: Seq<ObservedFile>, previous: Seq<ObservedFile>) -> bool {
    match m {
        PlannedMutation::Write { output, .. } => output < outputs.len(),
        PlannedMutation::Remove { owned } => owned < previous.len() && lookup(
            owned_files(outputs),
            previous[owned as int].owned.path@,
        ) is None,
    }
}

proof fn lemma_outputs_targets(root: Seq<char>, outputs: Seq<ObservedFile>, previous: Seq<ObservedFile>, adopt: bool, n: int)
    requires
        0 <= n <= outputs.len(),
        outputs.len() <= usize::MAX,
        outputs_ledger(root, outputs, previous, adopt, n) is Ok,
    ensures
        forall|k: int|
            0 <= k < outputs_ledger(root, outputs, previous, adopt, n)->Ok_0.0.len() ==> targets_admitted(
                #[trigger] outputs_ledger(root, outputs, previous, adopt, n)->Ok_0.0[k],
                outputs,
                previous,
            ),
        !adopt ==> outputs_ledger(root, outputs, previous, adopt, n)->Ok_0.1 == 0,
    decreases n,
{
    if n > 0 {
        lemma_outputs_targets(root, outputs, previous, adopt, n - 1);
        let prior = outputs_ledger(root, outputs, previous, adopt, n - 1)->Ok_0.0;
        let now = outputs_ledger(root, outputs, previous, adopt, n)->Ok_0.0;
        assert forall|k: int| 0 <= k < now.len() implies targets_admitted(#[trigger] now[k], outputs, previous) by {
            if k < prior.len() {
                assert(now[k] == prior[k]);
            }
        }
    }
}

/// Law: preflight plans writes only of requested outputs and removals only
/// of previously owned documents that no output requests; without
/// adoption it adopts nothing.
pub proof fn lemma_preflight_targets(
    root: Seq<char>,
    outputs: Seq<ObservedFile>,
    previous: Seq<ObservedFile>,
    adopt: bool,
    n: int,
)
    requires
        0 <= n <= previous.len(),
        outputs.len() <= usize::MAX,
        previous.len() <= usize::MAX,
        preflight_ledger(root, outputs, previous, adopt, n) is Ok,
    ensures
        forall|k: int|
            0 <= k < preflight_ledger(root, outputs, previous, adopt, n)->Ok_0.0.len() ==> targets_admitted(
                #[trigger] preflight_ledger(root, outputs, previous, adopt, n)->Ok_0.0[k],
                outputs,
                previous,
            ),
        !adopt ==> preflight_ledger(root, outputs, previous, adopt, n)->Ok_0.1 == 0,
    decreases n,
{
    if n == 0 {
        lemma_outputs_targets(root, outputs, previous, adopt, outputs.len() as int);
    } else {
        lemma_preflight_targets(root, outputs, previous, adopt, n - 1);
        let prior = preflight_ledger(root, outputs, previous, adopt, n - 1)->Ok_0.0;
        let now = preflight_ledger(root, outputs, previous, adopt, n)->Ok_0.0;
        assert forall|k: int| 0 <= k < now.len() implies targets_admitted(#[trigger] now[k], outputs, previous) by {
            if k < prior.len() {
                assert(now[k] == prior[k]);
            }
        }
    }
}

fn find_observed(files: &Vec<ObservedFile>, path: &str) -> (r: Option<usize>)
    ensures
        r matches Some(i) ==> i < files@.len() && position_of(owned_files(files@), path@, files@.len() as int) == Some(
            i as int,
        ),
        r is None ==> position_of(owned_files(files@), path@, files@.len() as int) is None,
{
    let ghost owned = owned_files(files@);
    let mut i: usize = 0;
    while i < files.len()
        invariant
            i <= files@.len(),
            owned == owned_files(files@),
            position_of(owned, path@, i as int) is None,
        decreases files@.len() - i,
    {
        assert(owned[i as int] == files@[i as int].owned);
        if str_equal(files[i].owned.path.as_str(), path) {
            proof {
                lemma_position_stable(owned, path@, i + 1, files@.len() as int);
            }
            return Some(i);
        }
        i += 1;
    }
    None
}

fn register_identity(ids: &mut Vec<((u64, u64), String)>, id: (u64, u64), path: String) -> (r: Result<(), CliError>)
    ensures
        match register(identity_view(old(ids)@), id, path@) {
            Ok(v) => r is Ok && identity_view(final(ids)@) == v,
            Err(f) => r matches Err(e) && failure_error(f, e),
        },
{
    let ghost view = identity_view(ids@);
    let mut j: usize = 0;
    while j < ids.len()
        invariant
            j <= ids@.len(),
            view == identity_view(ids@),
            identity_owner(view, id, j as int) is None,
        decreases ids@.len() - j,
    {
        assert(view[j as int] == (ids@[j as int].0, ids@[j as int].1@));
        if ids[j].0.0 == id.0 && ids[j].0.1 == id.1 {
            proof {
                assert(identity_owner(view, id, j + 1) == Some(j as int));
                lemma_identity_owner_stable(view, id, j + 1, view.len() as int);
            }
            return Err(CliError::GeneratedOutputAlias { first: ids[j].1.clone(), second: path });
        }
        j += 1;
    }
    let ghost p = path@;
    ids.push((id, path));
    proof {
        assert(identity_view(ids@) =~= view.push((id, p)));
    }
    Ok(())
}

proof fn lemma_identity_owner_stable(ids: Seq<((u64, u64), Seq<char>)>, id: (u64, u64), n: int, m: int)
    requires
        0 <= n <= m,
        identity_owner(ids, id, n) is Some,
    ensures
        identity_owner(ids, id, m) == identity_owner(ids, id, n),
    decreases m - n,
{
    if n < m {
        lemma_identity_owner_stable(ids, id, n, m - 1);
    }
}

proof fn lemma_outputs_error_stable(
    root: Seq<char>,
    outputs: Seq<ObservedFile>,
    previous: Seq<ObservedFile>,
    adopt: bool,
    n: int,
    m: int,
)
    requires
        0 <= n <= m,
        outputs_ledger(root, outputs, previous, adopt, n) is Err,
    ensures
        outputs_ledger(root, outputs, previous, adopt, m) == outputs_ledger(root, outputs, previous, adopt, n),
    decreases m - n,
{
    if n < m {
        lemma_outputs_error_stable(root, outputs, previous, adopt, n, m - 1);
    }
}

proof fn lemma_preflight_error_stable(
    root: Seq<char>,
    outputs: Seq<ObservedFile>,
    previous: Seq<ObservedFile>,
    adopt: bool,
    n: int,
    m: int,
)
    requires
        0 <= n <= m,
        preflight_ledger(root, outputs, previous, adopt, n) is Err,
    ensures
        preflight_ledger(root, outputs, previous, adopt, m) == preflight_ledger(root, outputs, previous, adopt, n),
    decreases m - n,
{
    if n < m {
        lemma_preflight_error_stable(root, outputs, previous, adopt, n, m - 1);
    }
}

fn digest_copy(d: &ContentDigest) -> (r: ContentDigest)
    ensures
        r == *d,
{
    ContentDigest(d.0.clone())
}

/// Preflights a generation below `root`: each requested output whose
/// destination is missing is written; a found destination must name a host
/// file no earlier destination named, and is then decided as
/// [`output_preflight`] decides (rewritten over the found digest, left,
/// adopted, or refused as edited or unowned); afterwards each previously
/// owned document the generation drops and that still exists must be
/// unedited, must name a new host file, and is removed.
pub fn preflight(
    root: &String,
    outputs: &Vec<ObservedFile>,
    previous: &Vec<ObservedFile>,
    adopt_matching: bool,
    cancellation: &ApplicationCancellation,
) -> (r: Result<Preflight, CliError>)
    ensures
        r matches Ok(p) ==> preflight_ledger(root@, outputs@, previous@, adopt_matching, previous@.len() as int) matches Ok(
            st,
        ) && p.mutations@ == st.0 && p.adopted == st.1,
        r matches Err(e) ==> e is OperationCanceled || (preflight_ledger(
            root@,
            outputs@,
            previous@,
            adopt_matching,
            previous@.len() as int,
        ) matches Err(f) && failure_error(f, e)),
{
    let mut mutations: Vec<PlannedMutation> = Vec::new();
    let mut adopted: usize = 0;
    let mut ids: Vec<((u64, u64), String)> = Vec::new();
    proof {
        assert(identity_view(ids@) =~= Seq::<((u64, u64), Seq<char>)>::empty());
    }
    let mut k: usize = 0;
    while k < outputs.len()
        invariant
            k <= outputs@.len(),
            adopted <= k,
            outputs_ledger(root@, outputs@, previous@, adopt_matching, k as int) == Ok::<
                (Seq<PlannedMutation>, nat, Seq<((u64, u64), Seq<char>)>),
                (nat, Seq<char>, Seq<char>),
            >((mutations@, adopted as nat, identity_view(ids@))),
        decreases outputs@.len() - k,
    {
        cancellation.checkpoint()?;
        let output = &outputs[k];
        let path = join_text(root, output.owned.path.as_str());
        match &output.found {
            None => {
                mutations.push(PlannedMutation::Write { output: k, expected: Expectation::Missing });
            },
            Some(found) => {
                let ghost ids_before = identity_view(ids@);
                match register_identity(&mut ids, found.identity, path.clone()) {
                    Ok(()) => {},
                    Err(e) => {
                        proof {
                            lemma_outputs_error_stable(root@, outputs@, previous@, adopt_matching, k + 1, outputs@.len() as int);
                            lemma_preflight_error_stable(root@, outputs@, previous@, adopt_matching, 0, previous@.len() as int);
                        }
                        return Err(e);
                    },
                }
                let owner = find_observed(previous, output.owned.path.as_str());
                let previous_digest = match owner {
                    Some(j) => Some(digest_copy(&previous[j].owned.sha256)),
                    None => None,
                };
                proof {
                    if let Some(j) = owner {
                        assert(owned_files(previous@)[j as int] == previous@[j as int].owned);
                    }
                }
                let found_digest = Some(digest_copy(&found.digest));
                let decision = output_preflight(&found_digest, &previous_digest, &output.owned.sha256, adopt_matching);
                match decision {
                    OutputPreflight::Modified => {
                        proof {
                            lemma_outputs_error_stable(root@, outputs@, previous@, adopt_matching, k + 1, outputs@.len() as int);
                            lemma_preflight_error_stable(root@, outputs@, previous@, adopt_matching, 0, previous@.len() as int);
                        }
                        return Err(CliError::ModifiedGeneratedOutput { path });
                    },
                    OutputPreflight::Unowned => {
                        proof {
                            lemma_outputs_error_stable(root@, outputs@, previous@, adopt_matching, k + 1, outputs@.len() as int);
                            lemma_preflight_error_stable(root@, outputs@, previous@, adopt_matching, 0, previous@.len() as int);
                        }
                        return Err(CliError::UnownedGeneratedOutput { path });
                    },
                    OutputPreflight::WriteOverOwned => {
                        mutations.push(
                            PlannedMutation::Write { output: k, expected: Expectation::Digest(digest_copy(&found.digest)) },
                        );
                    },
                    OutputPreflight::Adopt => {
                        adopted = adopted + 1;
                    },
                    _ => {},
                }
            },
        }
        k += 1;
    }
    let mut n: usize = 0;
    while n < previous.len()
        invariant
            n <= previous@.len(),
            preflight_ledger(root@, outputs@, previous@, adopt_matching, n as int) == Ok::<
                (Seq<PlannedMutation>, nat, Seq<((u64, u64), Seq<char>)>),
                (nat, Seq<char>, Seq<char>),
            >((mutations@, adopted as nat, identity_view(ids@))),
        decreases previous@.len() - n,
    {
        cancellation.checkpoint()?;
        let owned = &previous[n];
        let kept = find_observed(outputs, owned.owned.path.as_str());
        if kept.is_none() {
            if let Some(found) = &owned.found {
                let path = join_text(root, owned.owned.path.as_str());
                if !str_equal(found.digest.0.as_str(), owned.owned.sha256.0.as_str()) {
                    proof {
                        lemma_preflight_error_stable(root@, outputs@, previous@, adopt_matching, n + 1, previous@.len() as int);
                    }
                    return Err(CliError::ModifiedGeneratedOutput { path });
                }
                match register_identity(&mut ids, found.identity, path) {
                    Ok(()) => {},
                    Err(e) => {
                        proof {
                            lemma_preflight_error_stable(root@, outputs@, previous@, adopt_matching, n + 1, previous@.len() as int);
                        }
                        return Err(e);
                    },
                }
                mutations.push(PlannedMutation::Remove { owned: n });
            }
        }
        n += 1;
    }
    Ok(Preflight { mutations, adopted })
}

/// The generation after `previous`, unless the counter is exhausted.
pub fn next_generation(previous: u64, manifest_path: &str) -> (r: Result<u64, CliError>)
    ensures
        previous < u64::MAX ==> r == Ok::<u64, CliError>((previous + 1) as u64),
        previous == u64::MAX ==> (r matches Err(e) && ownership_error(
            e,
            manifest_path@,
            "ownership generation is exhausted"@,
        )),
{
    match previous.checked_add(1) {
        Some(next) => Ok(next),
        None => {
            proof {
                reveal_strlit("ownership generation is exhausted");
            }
            Err(
                CliError::InvalidGeneratedOwnership {
                    path: manifest_path.to_owned(),
                    message: "ownership generation is exhausted".to_owned(),
                },
            )
        },
    }
}

/// Why a generation of `outputs` is refused, once sorted into `after`: the
/// first broken catalog rule, else the first document of `before` whose
/// path changes only in case, else the first request with a host entry
/// spelled differently, else the exhausted generation counter.
pub open spec fn admission_error(
    root: Seq<char>,
    manifest_path: Seq<char>,
    previous_generation: u64,
    before: Seq<OwnedFile>,
    after: Seq<OwnedFile>,
    outputs: Seq<OwnedFile>,
    siblings: Seq<Option<String>>,
    e: CliError,
) -> bool {
    if first_defect(after, after.len() as int) is Some {
        defect_error(after, first_defect(after, after.len() as int)->Some_0, manifest_path, e)
    } else if first_case_only_change(before, after, before.len() as int) is Some {
        case_only_error(before, after, first_case_only_change(before, after, before.len() as int)->Some_0, e)
    } else if first_spelling_collision(paths_of(outputs), siblings, outputs.len() as int) is Some {
        spelling_error(
            paths_of(outputs),
            siblings,
            first_spelling_collision(paths_of(outputs), siblings, outputs.len() as int)->Some_0,
            root,
            e,
        )
    } else {
        previous_generation == u64::MAX && ownership_error(e, manifest_path, "ownership generation is exhausted"@)
    }
}

fn copy_files(files: &Vec<OwnedFile>) -> (r: Vec<OwnedFile>)
    ensures
        r@ == files@,
{
    let mut r: Vec<OwnedFile> = Vec::new();
    let mut i: usize = 0;
    while i < files.len()
        invariant
            i <= files@.len(),
            r@ == files@.take(i as int),
        decreases files@.len() - i,
    {
        r.push(copy_owned(&files[i]));
        proof {
            assert(files@.take(i + 1) =~= files@.take(i as int).push(files@[i as int]));
        }
        i += 1;
    }
    assert(files@.take(files@.len() as int) =~= files@);
    r
}

fn path_list(files: &Vec<OwnedFile>) -> (r: Vec<String>)
    ensures
        string_views(r@) == paths_of(files@),
{
    let mut r: Vec<String> = Vec::new();
    let mut i: usize = 0;
    while i < files.len()
        invariant
            i <= files@.len(),
            string_views(r@) == paths_of(files@).take(i as int),
        decreases files@.len() - i,
    {
        let ghost prior = r@;
        r.push(files[i].path.clone());
        proof {
            assert(string_views(r@) =~= string_views(prior).push(files@[i as int].path@));
            assert(paths_of(files@).take(i + 1) =~= paths_of(files@).take(i as int).push(files@[i as int].path@));
        }
        i += 1;
    }
    assert(paths_of(files@).take(files@.len() as int) =~= paths_of(files@));
    r
}

/// Admits the owned documents of a new generation: sorted by path, they
/// must pass catalog validation against the manifest at `manifest_path`,
/// keep every previously owned path's spelling, have no host entry below
/// `root` spelled differently, and the generation counter must not be
/// exhausted. Returns the next generation and the new catalog.
pub fn admit_generation(
    root: &String,
    manifest_path: &str,
    previous_generation: u64,
    before: &OwnedCatalog,
    outputs: &Vec<OwnedFile>,
    siblings: &Vec<Option<String>>,
    cancellation: &ApplicationCancellation,
) -> (r: Result<(u64, OwnedCatalog), CliError>)
    ensures
        r matches Ok((generation, after)) ==> {
            &&& generation == previous_generation + 1
            &&& sorted_catalog_of(after.documents@, outputs@)
            &&& first_defect(after.documents@, after.documents@.len() as int) is None
            &&& first_case_only_change(before.documents@, after.documents@, before.documents@.len() as int) is None
            &&& first_spelling_collision(paths_of(outputs@), siblings@, outputs@.len() as int) is None
        },
        r matches Err(e) ==> e is OperationCanceled || exists|c: Seq<OwnedFile>| #[trigger]
            sorted_catalog_of(c, outputs@) && admission_error(
                root@,
                manifest_path@,
                previous_generation,
                before.documents@,
                c,
                outputs@,
                siblings@,
                e,
            ),
{
    let after = OwnedCatalog::from_files(copy_files(outputs));
    let ghost c = after.documents@;
    assert(sorted_catalog_of(c, outputs@));
    after.validate(manifest_path, cancellation)?;
    before.validate_transition(&after, cancellation)?;
    let requested = path_list(outputs);
    assert(paths_of(outputs@).len() == outputs@.len());
    validate_host_spellings(root, &requested, siblings, cancellation)?;
    let generation = next_generation(previous_generation, manifest_path)?;
    Ok((generation, after))
}

} // verus!
