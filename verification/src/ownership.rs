//! Ownership metadata of generated contract files: content digests, the
//! version probe, and the per-file decision of interrupted-update recovery.

use sha2::Digest;
use vstd::prelude::*;

use crate::cancellation::ApplicationCancellation;
use crate::error::CliError;
use crate::compiler::extractor::{ascii_lower, lowercase_ascii};
use crate::text::{
    chars_equal, chars_less, chars_lt, lemma_chars_lt_order, chars_of, contains_char, debug_quoted, debug_text, decimal, has_char, push_char,
    push_decimal, push_str, str_equal, string_from_chars,
};

verus! {

/// The SHA-256 digest of `bytes`.
pub uninterp spec fn sha256(bytes: Seq<u8>) -> Seq<u8>;

/// Hashes `bytes` with SHA-256 (`sha2::Sha256::digest`): 32 bytes.
#[verifier::external_body]
fn sha256_digest(bytes: &[u8]) -> (r: Vec<u8>)
    ensures
        r@ == sha256(bytes@),
        r@.len() == 32,
{
    sha2::Sha256::digest(bytes).to_vec()
}

/// The lowercase hexadecimal digit for a value below sixteen.
pub open spec fn hex_digit(d: int) -> char {
    if d < 10 {
        (('0' as u32) + d) as char
    } else {
        (('a' as u32) + d - 10) as char
    }
}

/// Lowercase hexadecimal rendering, two digits per byte (`{:x}`).
pub open spec fn hex_of(bytes: Seq<u8>) -> Seq<char>
    decreases bytes.len(),
{
    if bytes.len() == 0 {
        seq![]
    } else {
        hex_of(bytes.drop_last()) + seq![
            hex_digit(bytes.last() as int / 16),
            hex_digit(bytes.last() as int % 16),
        ]
    }
}

/// A lowercase hexadecimal digit.
pub open spec fn lower_hex(c: char) -> bool {
    ('0' <= c && c <= '9') || ('a' <= c && c <= 'f')
}

/// Exactly 64 lowercase hexadecimal digits.
pub open spec fn valid_digest(s: Seq<char>) -> bool {
    s.len() == 64 && forall|i: int| 0 <= i < s.len() ==> lower_hex(#[trigger] s[i])
}

fn hex_char(d: u8) -> (c: char)
    requires
        d < 16,
    ensures
        c == hex_digit(d as int),
        lower_hex(c),
{
    if d < 10 {
        ((48u8 + d) as char)
    } else {
        ((97u8 + d - 10) as char)
    }
}

/// The lowercase hexadecimal SHA-256 digest of `bytes`.
pub fn sha256_hex(bytes: &[u8]) -> (text: String)
    ensures
        text@ == hex_of(sha256(bytes@)),
{
    let digest = sha256_digest(bytes);
    let mut text = String::new();
    let mut i: usize = 0;
    while i < digest.len()
        invariant
            i <= digest@.len(),
            text@ == hex_of(digest@.take(i as int)),
        decreases digest@.len() - i,
    {
        let byte = digest[i];
        push_char(&mut text, hex_char(byte / 16));
        push_char(&mut text, hex_char(byte % 16));
        proof {
            let t = digest@.take(i + 1);
            assert(t.drop_last() =~= digest@.take(i as int));
            assert(t.last() == byte);
            assert(text@ =~= hex_of(t));
        }
        i += 1;
    }
    proof {
        assert(digest@.take(digest@.len() as int) =~= digest@);
    }
    text
}

/// Lowercase hexadecimal SHA-256 digest stored in ownership metadata.
#[derive(Clone, Debug, PartialEq, Eq)]
pub struct ContentDigest(pub String);

impl ContentDigest {
    /// Computes a lowercase hexadecimal SHA-256 digest; stops once
    /// cancellation was requested.
    pub fn of(bytes: &[u8], cancellation: &ApplicationCancellation) -> (r: Result<Self, CliError>)
        ensures
            r matches Ok(d) ==> d.0@ == hex_of(sha256(bytes@)),
            r matches Err(e) ==> e is OperationCanceled,
    {
        cancellation.checkpoint()?;
        let text = sha256_hex(bytes);
        cancellation.checkpoint()?;
        Ok(ContentDigest(text))
    }

    /// Accepts exactly 64 lowercase hexadecimal digits.
    pub fn validate(&self, manifest_path: &str) -> (r: Result<(), CliError>)
        ensures
            r is Ok <==> valid_digest(self.0@),
            r matches Err(e) ==> (e matches CliError::InvalidGeneratedOwnership { path, message } && path@
                == manifest_path@ && message@ == "invalid SHA-256 digest "@ + debug_text(self.0@)),
    {
        let chars = chars_of(self.0.as_str());
        let mut valid = chars.len() == 64;
        let mut i: usize = 0;
        while valid && i < chars.len()
            invariant
                i <= chars@.len(),
                valid ==> chars@.len() == 64,
                valid ==> forall|j: int| 0 <= j < i ==> lower_hex(#[trigger] chars@[j]),
                !valid ==> !valid_digest(chars@),
            decreases chars@.len() - i,
        {
            let c = chars[i];
            if !(('0' <= c && c <= '9') || ('a' <= c && c <= 'f')) {
                valid = false;
            }
            i += 1;
        }
        if valid {
            return Ok(());
        }
        let mut message = String::new();
        push_str(&mut message, "invalid SHA-256 digest ");
        push_str(&mut message, debug_quoted(self.0.as_str()).as_str());
        proof {
            reveal_strlit("invalid SHA-256 digest ");
        }
        Err(CliError::InvalidGeneratedOwnership { path: manifest_path.to_owned(), message })
    }
}

/// Every digest this crate computes is one that validation accepts.
pub proof fn lemma_computed_digest_is_valid(bytes: Seq<u8>)
    requires
        sha256(bytes).len() == 32,
    ensures
        valid_digest(hex_of(sha256(bytes))),
{
    lemma_hex_of(sha256(bytes));
}

proof fn lemma_hex_of(bytes: Seq<u8>)
    ensures
        hex_of(bytes).len() == 2 * bytes.len(),
        forall|i: int| 0 <= i < hex_of(bytes).len() ==> lower_hex(#[trigger] hex_of(bytes)[i]),
    decreases bytes.len(),
{
    if bytes.len() > 0 {
        lemma_hex_of(bytes.drop_last());
        let hi = bytes.last() as int / 16;
        let lo = bytes.last() as int % 16;
        assert(lower_hex(hex_digit(hi)));
        assert(lower_hex(hex_digit(lo)));
        let h = hex_of(bytes);
        let p = hex_of(bytes.drop_last());
        assert forall|i: int| 0 <= i < h.len() implies lower_hex(#[trigger] h[i]) by {
            if i < p.len() {
                assert(h[i] == p[i]);
            }
        }
    }
}

/// Minimal version probe used before parsing a version-specific manifest.
#[derive(Clone, Copy, Debug)]
pub struct VersionProbe {
    pub version: u32,
}

impl VersionProbe {
    /// Returns the probed ownership wire-format version.
    pub fn version(&self) -> (v: u32)
        ensures
            v == self.version,
    {
        self.version
    }
}

/// What recovery of an interrupted update does with one generated path.
#[derive(Clone, Copy, Debug, PartialEq, Eq, Structural)]
pub enum RecoveryDecision {
    /// Own the file as the update's target recorded it.
    KeepNext,
    /// Own the file as it was before the update.
    KeepPrevious,
    /// Remove the reservation marker; own the previous file, if any.
    ReleaseReservation { keep_previous: bool },
    /// Own nothing at this path.
    Forget,
    /// The file holds content that neither side recorded.
    Conflict,
}

/// The state found at one path: `None` when no file exists there, else the
/// file's digest and whether its bytes are the reservation marker of the
/// update's target.
pub struct FoundFile {
    pub digest: ContentDigest,
    pub is_reservation_marker: bool,
}

/// The decision for one path of an interrupted update, given what was found
/// there and the digests recorded before and after the update.
pub open spec fn spec_recovery(
    found: Option<(Seq<char>, bool)>,
    previous: Option<Seq<char>>,
    next: Option<Seq<char>>,
) -> RecoveryDecision {
    match found {
        Some((digest, marker)) => if next == Some(digest) {
            RecoveryDecision::KeepNext
        } else if previous == Some(digest) {
            RecoveryDecision::KeepPrevious
        } else if next is Some && marker {
            RecoveryDecision::ReleaseReservation { keep_previous: previous is Some }
        } else {
            RecoveryDecision::Conflict
        },
        None => if previous is Some && next is Some {
            RecoveryDecision::KeepNext
        } else {
            RecoveryDecision::Forget
        },
    }
}

fn same_digest(a: &ContentDigest, b: &ContentDigest) -> (r: bool)
    ensures
        r == (a.0@ == b.0@),
{
    crate::text::chars_equal(chars_of(a.0.as_str()).as_slice(), chars_of(b.0.as_str()).as_slice())
}

/// Decides what recovery of an interrupted update does with one path: a
/// file matching the target digest or else the previous digest is kept; the
/// target's reservation marker is released; other content is a conflict; a
/// missing file stays owned only when both sides owned it.
pub fn recovery_decision(
    found: &Option<FoundFile>,
    previous: &Option<ContentDigest>,
    next: &Option<ContentDigest>,
) -> (d: RecoveryDecision)
    ensures
        d == spec_recovery(
            match found {
                Some(f) => Some((f.digest.0@, f.is_reservation_marker)),
                None => None,
            },
            match previous {
                Some(p) => Some(p.0@),
                None => None,
            },
            match next {
                Some(n) => Some(n.0@),
                None => None,
            },
        ),
{
    match found {
        Some(file) => {
            let matches_next = match next {
                Some(n) => same_digest(&file.digest, n),
                None => false,
            };
            if matches_next {
                return RecoveryDecision::KeepNext;
            }
            let matches_previous = match previous {
                Some(p) => same_digest(&file.digest, p),
                None => false,
            };
            if matches_previous {
                return RecoveryDecision::KeepPrevious;
            }
            if next.is_some() && file.is_reservation_marker {
                RecoveryDecision::ReleaseReservation { keep_previous: previous.is_some() }
            } else {
                RecoveryDecision::Conflict
            }
        },
        None => {
            if previous.is_some() && next.is_some() {
                RecoveryDecision::KeepNext
            } else {
                RecoveryDecision::Forget
            }
        },
    }
}


/// What generation preflight does with one requested output.
#[derive(Clone, Copy, Debug, PartialEq, Eq, Structural)]
pub enum OutputPreflight {
    /// Write the output over the owned file, which must still hold the
    /// found digest.
    WriteOverOwned,
    /// The owned file already holds the output.
    Unchanged,
    /// Write the output where no file exists.
    WriteMissing,
    /// Take ownership of a matching file written by someone else.
    Adopt,
    /// The owned file was edited since it was generated.
    Modified,
    /// A file that was never owned stands where the output goes.
    Unowned,
}

/// The preflight decision for one output, given the digest of the file
/// found where it goes (if any), the digest it was owned with (if it was),
/// the output's digest, and whether matching unowned files are adopted.
pub open spec fn spec_output_preflight(
    found: Option<Seq<char>>,
    previous: Option<Seq<char>>,
    output: Seq<char>,
    adopt_matching: bool,
) -> OutputPreflight {
    match found {
        None => OutputPreflight::WriteMissing,
        Some(disk) => match previous {
            Some(owned) => if disk != owned {
                OutputPreflight::Modified
            } else if disk != output {
                OutputPreflight::WriteOverOwned
            } else {
                OutputPreflight::Unchanged
            },
            None => if adopt_matching && disk == output {
                OutputPreflight::Adopt
            } else {
                OutputPreflight::Unowned
            },
        },
    }
}

/// Law: an owned file whose content no longer has the digest it was
/// generated with was edited, and is refused as modified whatever the new
/// output is; an owned file is only kept or overwritten while it still
/// holds what was generated.
pub proof fn lemma_edited_owned_output_is_refused(
    found: Seq<char>,
    owned: Seq<char>,
    output: Seq<char>,
    adopt_matching: bool,
)
    ensures
        found != owned ==> spec_output_preflight(Some(found), Some(owned), output, adopt_matching)
            == OutputPreflight::Modified,
        ({
            let d = spec_output_preflight(Some(found), Some(owned), output, adopt_matching);
            d is Unchanged || d is WriteOverOwned ==> found == owned
        }),
{
}

/// Decides what preflight does with one requested output: a missing file is
/// written; an owned file must be unedited and is rewritten when it
/// differs; an unowned file is adopted only when adoption is requested and
/// it already matches.
pub fn output_preflight(
    found: &Option<ContentDigest>,
    previous: &Option<ContentDigest>,
    output: &ContentDigest,
    adopt_matching: bool,
) -> (d: OutputPreflight)
    ensures
        d == spec_output_preflight(
            match found {
                Some(f) => Some(f.0@),
                None => None,
            },
            match previous {
                Some(p) => Some(p.0@),
                None => None,
            },
            output.0@,
            adopt_matching,
        ),
        found matches Some(f) && previous matches Some(p) && f.0@ != p.0@ ==> d == OutputPreflight::Modified,
        d is Unchanged || d is WriteOverOwned ==> (found matches Some(f) && previous matches Some(p) && f.0@
            == p.0@),
        d is Unchanged ==> (found matches Some(f) && f.0@ == output.0@),
        d is WriteOverOwned ==> (found matches Some(f) && f.0@ != output.0@),
        d is Adopt ==> previous is None && adopt_matching && (found matches Some(f) && f.0@ == output.0@),
        d is WriteMissing <==> found is None,
{
    match found {
        None => OutputPreflight::WriteMissing,
        Some(disk) => match previous {
            Some(owned) => {
                if !same_digest(disk, owned) {
                    OutputPreflight::Modified
                } else if !same_digest(disk, output) {
                    OutputPreflight::WriteOverOwned
                } else {
                    OutputPreflight::Unchanged
                }
            },
            None => {
                if adopt_matching && same_digest(disk, output) {
                    OutputPreflight::Adopt
                } else {
                    OutputPreflight::Unowned
                }
            },
        },
    }
}

/// What preflight does with an owned file the new generation drops: `None`
/// when it is already gone, `Some(true)` to remove it, `Some(false)` when it
/// was edited since it was generated.
pub fn stale_preflight(found: &Option<ContentDigest>, owned: &ContentDigest) -> (d: Option<bool>)
    ensures
        found is None ==> d is None,
        found matches Some(f) ==> d == Some(f.0@ == owned.0@),
{
    match found {
        None => None,
        Some(disk) => Some(same_digest(disk, owned)),
    }
}

/// A path's portable identity: its ASCII letters in lower case.
pub open spec fn portable_key(p: Seq<char>) -> Seq<char> {
    p.map_values(|c: char| ascii_lower(c))
}

/// The index of the first `/` at or after `i`, or the length.
pub open spec fn first_slash_from(p: Seq<char>, i: int) -> int
    decreases p.len() - i,
{
    if i >= p.len() {
        p.len() as int
    } else if p[i] == '/' {
        i
    } else {
        first_slash_from(p, i + 1)
    }
}

/// The index of the last `.` among the first `n` characters, or -1.
pub open spec fn last_dot_before(p: Seq<char>, n: int) -> int
    decreases n,
{
    if n <= 0 {
        -1
    } else if p[n - 1] == '.' {
        n - 1
    } else {
        last_dot_before(p, n - 1)
    }
}

/// The directory that holds ownership metadata below a contracts root.
pub open spec fn ownership_directory() -> Seq<char> {
    ".contract-kit"@
}

/// The path's first component names the metadata directory, in any case.
pub open spec fn reserved_path(p: Seq<char>) -> bool {
    portable_key(p.take(first_slash_from(p, 0))) == ownership_directory()
}

/// A direct root combined document: one component whose extension, after
/// a non-empty stem, is `yml` or `yaml` in any case.
pub open spec fn document_path(p: Seq<char>) -> bool {
    let dot = last_dot_before(p, p.len() as int);
    let extension = portable_key(p.skip(dot + 1));
    &&& !has_char(p, '/')
    &&& dot > 0
    &&& (extension == "yml"@ || extension == "yaml"@)
}

/// One owned document: its logical path and content digest.
#[derive(Clone, Debug, PartialEq, Eq)]
pub struct OwnedFile {
    pub path: String,
    pub sha256: ContentDigest,
}

/// The owned documents, in persisted order.
#[derive(Clone, Debug, Default, PartialEq, Eq)]
pub struct OwnedCatalog {
    pub documents: Vec<OwnedFile>,
}

/// The first index before `n` whose path has the key of entry `i`.
pub open spec fn first_key_match(files: Seq<OwnedFile>, i: int, n: int) -> Option<int>
    decreases n,
{
    if n <= 0 {
        None
    } else {
        match first_key_match(files, i, n - 1) {
            Some(j) => Some(j),
            None => if portable_key(files[n - 1].path@) == portable_key(files[i].path@) {
                Some(n - 1)
            } else {
                None
            },
        }
    }
}

/// Entry `i` breaks a rule: order, the reserved directory, the document
/// shape, the digest, or a portable collision with an earlier entry.
pub open spec fn defective(files: Seq<OwnedFile>, i: int) -> bool {
    ||| (i > 0 && !chars_lt(files[i - 1].path@, files[i].path@))
    ||| reserved_path(files[i].path@)
    ||| !document_path(files[i].path@)
    ||| !valid_digest(files[i].sha256.0@)
    ||| first_key_match(files, i, i) is Some
}

/// The first defective entry among the first `n`.
pub open spec fn first_defect(files: Seq<OwnedFile>, n: int) -> Option<int>
    decreases n,
{
    if n <= 0 {
        None
    } else {
        match first_defect(files, n - 1) {
            Some(i) => Some(i),
            None => if defective(files, n - 1) {
                Some(n - 1)
            } else {
                None
            },
        }
    }
}

/// An ownership error about the document at `path` with `message`.
pub open spec fn ownership_error(e: CliError, path: Seq<char>, message: Seq<char>) -> bool {
    e matches CliError::InvalidGeneratedOwnership { path: p, message: m } && p@ == path && m@ == message
}

/// `e` reports the first rule entry `i` breaks.
pub open spec fn defect_error(files: Seq<OwnedFile>, i: int, manifest_path: Seq<char>, e: CliError) -> bool {
    let p = files[i].path@;
    if i > 0 && !chars_lt(files[i - 1].path@, p) {
        ownership_error(e, manifest_path, "owned document paths must be unique and sorted"@)
    } else if reserved_path(p) {
        ownership_error(e, manifest_path, "reserved ownership path "@ + p)
    } else if !document_path(p) {
        ownership_error(
            e,
            manifest_path,
            "owned document path "@ + p + " must be a direct root .yml or .yaml combined document"@,
        )
    } else if !valid_digest(files[i].sha256.0@) {
        ownership_error(e, manifest_path, "invalid SHA-256 digest "@ + debug_text(files[i].sha256.0@))
    } else {
        e matches CliError::PortableGeneratedPathCollision { first, second } && first@ == files[first_key_match(
            files,
            i,
            i,
        )->Some_0].path@ && second@ == p
    }
}

fn key_of(path: &String) -> (k: Vec<char>)
    ensures
        k@ == portable_key(path@),
{
    lowercase_ascii(chars_of(path.as_str()).as_slice())
}

fn is_reserved(path: &String) -> (r: bool)
    ensures
        r == reserved_path(path@),
{
    let chars = chars_of(path.as_str());
    let mut end: usize = 0;
    while end < chars.len() && chars[end] != '/'
        invariant
            end <= chars@.len(),
            chars@ == path@,
            first_slash_from(chars@, 0) == first_slash_from(chars@, end as int),
        decreases chars@.len() - end,
    {
        end += 1;
    }
    let first = crate::compiler::extractor::copy_range(chars.as_slice(), 0, end);
    let key = lowercase_ascii(first.as_slice());
    let expected = chars_of(".contract-kit");
    proof {
        reveal_strlit(".contract-kit");
        assert(chars@.subrange(0, end as int) =~= chars@.take(end as int));
    }
    chars_equal(key.as_slice(), expected.as_slice())
}

pub(crate) fn is_document(path: &String) -> (r: bool)
    ensures
        r == document_path(path@),
{
    let chars = chars_of(path.as_str());
    if contains_char(chars.as_slice(), '/') {
        return false;
    }
    let mut n: usize = chars.len();
    while n > 0 && chars[n - 1] != '.'
        invariant
            n <= chars@.len(),
            chars@ == path@,
            last_dot_before(chars@, chars@.len() as int) == last_dot_before(chars@, n as int),
        decreases n,
    {
        n -= 1;
    }
    if n <= 1 {
        return false;
    }
    let dot = n - 1;
    let extension = crate::compiler::extractor::copy_range(chars.as_slice(), dot + 1, chars.len());
    let key = lowercase_ascii(extension.as_slice());
    let yml = chars_of("yml");
    let yaml = chars_of("yaml");
    proof {
        reveal_strlit("yml");
        reveal_strlit("yaml");
        assert(chars@.subrange(dot + 1, chars@.len() as int) =~= chars@.skip(dot + 1));
    }
    chars_equal(key.as_slice(), yml.as_slice()) || chars_equal(key.as_slice(), yaml.as_slice())
}

fn string_less(a: &String, b: &String) -> (r: bool)
    ensures
        r == chars_lt(a@, b@),
{
    chars_less(chars_of(a.as_str()).as_slice(), chars_of(b.as_str()).as_slice())
}

proof fn lemma_first_defect_prefix(files: Seq<OwnedFile>, n: int, m: int)
    requires
        0 <= n <= m,
        first_defect(files, n) is Some,
    ensures
        first_defect(files, m) == first_defect(files, n),
    decreases m - n,
{
    if n < m {
        lemma_first_defect_prefix(files, n, m - 1);
    }
}

proof fn lemma_key_match_prefix(files: Seq<OwnedFile>, i: int, n: int)
    requires
        0 <= n,
        first_key_match(files, i, n) is None,
    ensures
        forall|j: int| 0 <= j < n ==> portable_key(#[trigger] files[j].path@) != portable_key(files[i].path@),
    decreases n,
{
    if n > 0 {
        lemma_key_match_prefix(files, i, n - 1);
    }
}

proof fn lemma_key_match_found(files: Seq<OwnedFile>, i: int, n: int, j: int)
    requires
        0 <= j < n,
        portable_key(files[j].path@) == portable_key(files[i].path@),
        forall|k: int| 0 <= k < j ==> portable_key(#[trigger] files[k].path@) != portable_key(files[i].path@),
    ensures
        first_key_match(files, i, n) == Some(j),
    decreases n,
{
    if n > j + 1 {
        lemma_key_match_found(files, i, n - 1, j);
    } else {
        lemma_key_match_none(files, i, j);
    }
}

proof fn lemma_key_match_none(files: Seq<OwnedFile>, i: int, n: int)
    requires
        0 <= n,
        forall|k: int| 0 <= k < n ==> portable_key(#[trigger] files[k].path@) != portable_key(files[i].path@),
    ensures
        first_key_match(files, i, n) is None,
    decreases n,
{
    if n > 0 {
        lemma_key_match_none(files, i, n - 1);
    }
}

impl OwnedCatalog {
    /// Checks every document in order: paths strictly ascending, outside
    /// the metadata directory, direct root YAML documents, valid digests,
    /// and no two paths equal up to ASCII case. The first broken rule is
    /// reported; cancellation may stop the check earlier.
    pub fn validate(&self, manifest_path: &str, cancellation: &ApplicationCancellation) -> (r: Result<(), CliError>)
        ensures
            r is Ok ==> first_defect(self.documents@, self.documents@.len() as int) is None,
            r matches Err(e) ==> e is OperationCanceled || (first_defect(self.documents@, self.documents@.len() as int)
                matches Some(i) && defect_error(self.documents@, i, manifest_path@, e)),
    {
        let files = &self.documents;
        let ghost fs = files@;
        let mut keys: Vec<Vec<char>> = Vec::new();
        let mut i: usize = 0;
        while i < files.len()
            invariant
                i <= fs.len(),
                fs == files@,
                fs == self.documents@,
                first_defect(fs, i as int) is None,
                keys@.len() == i,
                forall|j: int| 0 <= j < i ==> (#[trigger] keys@[j])@ == portable_key(fs[j].path@),
            decreases fs.len() - i,
        {
            cancellation.checkpoint()?;
            let file = &files[i];
            let ghost failing = defect_error(fs, i as int, manifest_path@, CliError::OperationCanceled);
            if i > 0 && !string_less(&files[i - 1].path, &file.path) {
                proof {
                    reveal_strlit("owned document paths must be unique and sorted");
                    assert(defective(fs, i as int));
                    assert(first_defect(fs, i + 1) == Some(i as int));
                    lemma_first_defect_prefix(fs, i + 1, fs.len() as int);
                }
                let e = CliError::InvalidGeneratedOwnership {
                    path: manifest_path.to_owned(),
                    message: "owned document paths must be unique and sorted".to_owned(),
                };
                assert(first_defect(fs, fs.len() as int) == Some(i as int));
                assert(defect_error(fs, i as int, manifest_path@, e));
                return Err(e);
            }
            if is_reserved(&file.path) {
                let mut message = String::new();
                push_str(&mut message, "reserved ownership path ");
                push_str(&mut message, file.path.as_str());
                proof {
                    reveal_strlit("reserved ownership path ");
                    assert(defective(fs, i as int));
                    assert(first_defect(fs, i + 1) == Some(i as int));
                    lemma_first_defect_prefix(fs, i + 1, fs.len() as int);
                }
                return Err(CliError::InvalidGeneratedOwnership { path: manifest_path.to_owned(), message });
            }
            if !is_document(&file.path) {
                let mut message = String::new();
                push_str(&mut message, "owned document path ");
                push_str(&mut message, file.path.as_str());
                push_str(&mut message, " must be a direct root .yml or .yaml combined document");
                proof {
                    reveal_strlit("owned document path ");
                    reveal_strlit(" must be a direct root .yml or .yaml combined document");
                    assert(defective(fs, i as int));
                    assert(first_defect(fs, i + 1) == Some(i as int));
                    lemma_first_defect_prefix(fs, i + 1, fs.len() as int);
                }
                return Err(CliError::InvalidGeneratedOwnership { path: manifest_path.to_owned(), message });
            }
            match file.sha256.validate(manifest_path) {
                Ok(()) => {},
                Err(e) => {
                    proof {
                        assert(defective(fs, i as int));
                        assert(first_defect(fs, i + 1) == Some(i as int));
                        lemma_first_defect_prefix(fs, i + 1, fs.len() as int);
                    }
                    return Err(e);
                },
            }
            let key = key_of(&file.path);
            let mut j: usize = 0;
            while j < keys.len()
                invariant
                    j <= keys@.len(),
                    keys@.len() == i,
                    i < fs.len(),
                    fs == files@,
                    fs == self.documents@,
                    *file == fs[i as int],
                    first_defect(fs, i as int) is None,
                    !(i > 0 && !chars_lt(fs[i - 1].path@, fs[i as int].path@)),
                    !reserved_path(fs[i as int].path@),
                    document_path(fs[i as int].path@),
                    valid_digest(fs[i as int].sha256.0@),
                    key@ == portable_key(fs[i as int].path@),
                    forall|k: int| 0 <= k < i ==> (#[trigger] keys@[k])@ == portable_key(fs[k].path@),
                    forall|k: int| 0 <= k < j ==> portable_key(#[trigger] fs[k].path@) != portable_key(fs[i as int].path@),
                decreases keys@.len() - j,
            {
                if chars_equal(keys[j].as_slice(), key.as_slice()) {
                    proof {
                        lemma_key_match_found(fs, i as int, i as int, j as int);
                        assert(defective(fs, i as int));
                        assert(first_defect(fs, i + 1) == Some(i as int));
                        lemma_first_defect_prefix(fs, i + 1, fs.len() as int);
                    }
                    return Err(
                        CliError::PortableGeneratedPathCollision {
                            first: files[j].path.clone(),
                            second: file.path.clone(),
                        },
                    );
                }
                j += 1;
            }
            proof {
                lemma_key_match_none(fs, i as int, i as int);
                assert(!defective(fs, i as int));
            }
            keys.push(key);
            i += 1;
        }
        Ok(())
    }
}

/// The last entry of `after` among the first `n` whose path has `key`.
pub open spec fn last_key_match(after: Seq<OwnedFile>, key: Seq<char>, n: int) -> Option<int>
    decreases n,
{
    if n <= 0 {
        None
    } else if portable_key(after[n - 1].path@) == key {
        Some(n - 1)
    } else {
        last_key_match(after, key, n - 1)
    }
}

/// Entry `i` of `before` reappears in `after` with only its case changed.
pub open spec fn case_only_change(before: Seq<OwnedFile>, after: Seq<OwnedFile>, i: int) -> bool {
    match last_key_match(after, portable_key(before[i].path@), after.len() as int) {
        Some(j) => after[j].path@ != before[i].path@,
        None => false,
    }
}

/// The first entry among the first `n` of `before` whose case changes.
pub open spec fn first_case_only_change(before: Seq<OwnedFile>, after: Seq<OwnedFile>, n: int) -> Option<int>
    decreases n,
{
    if n <= 0 {
        None
    } else {
        match first_case_only_change(before, after, n - 1) {
            Some(i) => Some(i),
            None => if case_only_change(before, after, n - 1) {
                Some(n - 1)
            } else {
                None
            },
        }
    }
}

/// `e` reports that entry `i` of `before` changes only in case.
pub open spec fn case_only_error(before: Seq<OwnedFile>, after: Seq<OwnedFile>, i: int, e: CliError) -> bool {
    e matches CliError::CaseOnlyGeneratedPathChange { previous, current } && previous@ == before[i].path@
        && current@ == after[last_key_match(after, portable_key(before[i].path@), after.len() as int)->Some_0].path@
}

proof fn lemma_case_change_prefix(before: Seq<OwnedFile>, after: Seq<OwnedFile>, n: int, m: int)
    requires
        0 <= n <= m,
        first_case_only_change(before, after, n) is Some,
    ensures
        first_case_only_change(before, after, m) == first_case_only_change(before, after, n),
    decreases m - n,
{
    if n < m {
        lemma_case_change_prefix(before, after, n, m - 1);
    }
}

impl OwnedCatalog {
    /// Rejects an update that keeps a document but changes only the case of
    /// its path; the first such document of `self` is reported.
    pub fn validate_transition(&self, after: &OwnedCatalog, cancellation: &ApplicationCancellation) -> (r: Result<
        (),
        CliError,
    >)
        ensures
            r is Ok ==> first_case_only_change(self.documents@, after.documents@, self.documents@.len() as int) is None,
            r matches Err(e) ==> e is OperationCanceled || (first_case_only_change(
                self.documents@,
                after.documents@,
                self.documents@.len() as int,
            ) matches Some(i) && case_only_error(self.documents@, after.documents@, i, e)),
    {
        let ghost bs = self.documents@;
        let ghost afs = after.documents@;
        let mut after_keys: Vec<Vec<char>> = Vec::new();
        let mut k: usize = 0;
        while k < after.documents.len()
            invariant
                k <= afs.len(),
                afs == after.documents@,
                after_keys@.len() == k,
                forall|j: int| 0 <= j < k ==> (#[trigger] after_keys@[j])@ == portable_key(afs[j].path@),
            decreases afs.len() - k,
        {
            cancellation.checkpoint()?;
            after_keys.push(key_of(&after.documents[k].path));
            k += 1;
        }
        let mut i: usize = 0;
        while i < self.documents.len()
            invariant
                i <= bs.len(),
                bs == self.documents@,
                afs == after.documents@,
                after_keys@.len() == afs.len(),
                forall|j: int| 0 <= j < afs.len() ==> (#[trigger] after_keys@[j])@ == portable_key(afs[j].path@),
                first_case_only_change(bs, afs, i as int) is None,
            decreases bs.len() - i,
        {
            cancellation.checkpoint()?;
            let key = key_of(&self.documents[i].path);
            let mut n: usize = after_keys.len();
            while n > 0 && !chars_equal(after_keys[n - 1].as_slice(), key.as_slice())
                invariant
                    n <= afs.len(),
                    i < bs.len(),
                    afs == after.documents@,
                    after_keys@.len() == afs.len(),
                    forall|j: int| 0 <= j < afs.len() ==> (#[trigger] after_keys@[j])@ == portable_key(afs[j].path@),
                    key@ == portable_key(bs[i as int].path@),
                    last_key_match(afs, key@, afs.len() as int) == last_key_match(afs, key@, n as int),
                decreases n,
            {
                n -= 1;
            }
            if n > 0 {
                let current = &after.documents[n - 1].path;
                if !str_equal(current.as_str(), self.documents[i].path.as_str()) {
                    proof {
                        assert(case_only_change(bs, afs, i as int));
                        assert(first_case_only_change(bs, afs, i + 1) == Some(i as int));
                        lemma_case_change_prefix(bs, afs, i + 1, bs.len() as int);
                    }
                    return Err(
                        CliError::CaseOnlyGeneratedPathChange {
                            previous: self.documents[i].path.clone(),
                            current: current.clone(),
                        },
                    );
                }
            }
            proof {
                assert(!case_only_change(bs, afs, i as int));
            }
            i += 1;
        }
        Ok(())
    }
}

/// The ownership wire-format version.
pub const OWNERSHIP_VERSION: u32 = 3;

/// Committed or in-progress ownership state.
#[derive(Clone, Debug, PartialEq, Eq)]
pub enum OwnershipJournal {
    /// One fully committed generation.
    Committed { generation: u64, files: OwnedCatalog },
    /// A recoverable transition between two complete catalogs.
    Updating { generation: u64, before: OwnedCatalog, after: OwnedCatalog },
}

/// Versioned ownership state stored below the contracts root.
#[derive(Clone, Debug, PartialEq, Eq)]
pub struct OwnershipManifest {
    pub version: u32,
    pub journal: OwnershipJournal,
}

/// The manifest breaks no rule.
pub open spec fn manifest_ok(m: OwnershipManifest) -> bool {
    &&& m.version == OWNERSHIP_VERSION
    &&& match m.journal {
        OwnershipJournal::Committed { generation, files } => generation > 0 && first_defect(
            files.documents@,
            files.documents@.len() as int,
        ) is None,
        OwnershipJournal::Updating { generation, before, after } => {
            &&& generation > 0
            &&& first_defect(before.documents@, before.documents@.len() as int) is None
            &&& first_defect(after.documents@, after.documents@.len() as int) is None
            &&& first_case_only_change(before.documents@, after.documents@, before.documents@.len() as int) is None
        },
    }
}

/// `e` reports the first rule the manifest breaks: its version, its
/// generation, a document of the (before, then after) catalog, or a
/// case-only change.
pub open spec fn manifest_error(m: OwnershipManifest, path: Seq<char>, e: CliError) -> bool {
    let generation_message = "ownership generation must be greater than zero"@;
    if m.version != OWNERSHIP_VERSION {
        ownership_error(e, path, "unsupported ownership version "@ + decimal(m.version as nat))
    } else {
        match m.journal {
            OwnershipJournal::Committed { generation, files } => if generation == 0 {
                ownership_error(e, path, generation_message)
            } else {
                first_defect(files.documents@, files.documents@.len() as int) matches Some(i) && defect_error(
                    files.documents@,
                    i,
                    path,
                    e,
                )
            },
            OwnershipJournal::Updating { generation, before, after } => if generation == 0 {
                ownership_error(e, path, generation_message)
            } else if first_defect(before.documents@, before.documents@.len() as int) is Some {
                defect_error(before.documents@, first_defect(before.documents@, before.documents@.len() as int)->Some_0, path, e)
            } else if first_defect(after.documents@, after.documents@.len() as int) is Some {
                defect_error(after.documents@, first_defect(after.documents@, after.documents@.len() as int)->Some_0, path, e)
            } else {
                first_case_only_change(before.documents@, after.documents@, before.documents@.len() as int) matches Some(
                    i,
                ) && case_only_error(before.documents@, after.documents@, i, e)
            },
        }
    }
}

fn generation_error(generation: u64, manifest_path: &str) -> (r: Result<(), CliError>)
    ensures
        r is Ok <==> generation > 0,
        r matches Err(e) ==> ownership_error(e, manifest_path@, "ownership generation must be greater than zero"@),
{
    if generation == 0 {
        proof {
            reveal_strlit("ownership generation must be greater than zero");
        }
        return Err(
            CliError::InvalidGeneratedOwnership {
                path: manifest_path.to_owned(),
                message: "ownership generation must be greater than zero".to_owned(),
            },
        );
    }
    Ok(())
}

impl OwnershipManifest {
    /// A committed state of the current version.
    pub fn committed(generation: u64, files: OwnedCatalog) -> (m: Self)
        ensures
            m.version == OWNERSHIP_VERSION,
            m.journal == (OwnershipJournal::Committed { generation, files }),
    {
        OwnershipManifest { version: OWNERSHIP_VERSION, journal: OwnershipJournal::Committed { generation, files } }
    }

    /// An updating state of the current version.
    pub fn updating(generation: u64, before: OwnedCatalog, after: OwnedCatalog) -> (m: Self)
        ensures
            m.version == OWNERSHIP_VERSION,
            m.journal == (OwnershipJournal::Updating { generation, before, after }),
    {
        OwnershipManifest { version: OWNERSHIP_VERSION, journal: OwnershipJournal::Updating { generation, before, after } }
    }

    /// Whether the manifest records an interrupted update.
    pub fn is_updating(&self) -> (r: bool)
        ensures
            r == (self.journal is Updating),
    {
        matches!(self.journal, OwnershipJournal::Updating { .. })
    }

    /// Checks the version, the generation, every catalog, and, during an
    /// update, that no document changes only in case; the first broken rule
    /// is reported.
    pub fn validate(&self, manifest_path: &str, cancellation: &ApplicationCancellation) -> (r: Result<(), CliError>)
        ensures
            r is Ok ==> manifest_ok(*self),
            r matches Err(e) ==> e is OperationCanceled || (!manifest_ok(*self) && manifest_error(*self, manifest_path@, e)),
    {
        cancellation.checkpoint()?;
        if self.version != OWNERSHIP_VERSION {
            let mut message = String::new();
            push_str(&mut message, "unsupported ownership version ");
            push_decimal(&mut message, self.version as u128);
            proof {
                reveal_strlit("unsupported ownership version ");
            }
            return Err(CliError::InvalidGeneratedOwnership { path: manifest_path.to_owned(), message });
        }
        match &self.journal {
            OwnershipJournal::Committed { generation, files } => {
                generation_error(*generation, manifest_path)?;
                files.validate(manifest_path, cancellation)
            },
            OwnershipJournal::Updating { generation, before, after } => {
                generation_error(*generation, manifest_path)?;
                before.validate(manifest_path, cancellation)?;
                after.validate(manifest_path, cancellation)?;
                before.validate_transition(after, cancellation)
            },
        }
    }
}

/// Persisted-order rule: no path is below the one before it.
pub open spec fn sorted_by_path(files: Seq<OwnedFile>) -> bool {
    forall|i: int, j: int| 0 <= i < j < files.len() ==> !chars_lt(#[trigger] files[j].path@, #[trigger] files[i].path@)
}

/// The documents whose path is `p`, in order.
pub open spec fn with_path(files: Seq<OwnedFile>, p: Seq<char>) -> Seq<OwnedFile> {
    files.filter(|f: OwnedFile| f.path@ == p)
}

proof fn lemma_filter_single(d: OwnedFile, p: Seq<char>)
    ensures
        with_path(seq![d], p) == if d.path@ == p {
            seq![d]
        } else {
            Seq::<OwnedFile>::empty()
        },
{
    reveal_with_fuel(Seq::filter, 2);
    assert(seq![d].drop_last() =~= Seq::<OwnedFile>::empty());
    assert(seq![d].last() == d);
}

proof fn lemma_filter_push(s: Seq<OwnedFile>, d: OwnedFile, p: Seq<char>)
    ensures
        with_path(s.push(d), p) == if d.path@ == p {
            with_path(s, p).push(d)
        } else {
            with_path(s, p)
        },
{
    reveal_with_fuel(Seq::filter, 1);
    assert(s.push(d).drop_last() =~= s);
    assert(s.push(d).last() == d);
}

/// Inserting `d` before the first path above it puts `d` after every
/// document of its path, and leaves the other paths' documents in order.
proof fn lemma_insert_keeps_path_order(old: Seq<OwnedFile>, pos: int, d: OwnedFile, taken: Seq<OwnedFile>)
    requires
        0 <= pos <= old.len(),
        forall|k: int| pos <= k < old.len() ==> chars_lt(d.path@, #[trigger] old[k].path@),
        forall|p: Seq<char>| #[trigger] with_path(old, p) == with_path(taken, p),
    ensures
        forall|p: Seq<char>| #[trigger] with_path(old.insert(pos, d), p) == with_path(taken.push(d), p),
{
    let prefix = old.subrange(0, pos);
    let suffix = old.subrange(pos, old.len() as int);
    assert(old =~= prefix + suffix);
    assert(old.insert(pos, d) =~= prefix + seq![d] + suffix);
    assert forall|p: Seq<char>| #[trigger] with_path(old.insert(pos, d), p) == with_path(taken.push(d), p) by {
        let f = |x: OwnedFile| x.path@ == p;
        Seq::filter_distributes_over_add(prefix + seq![d], suffix, f);
        Seq::filter_distributes_over_add(prefix, seq![d], f);
        Seq::filter_distributes_over_add(prefix, suffix, f);
        lemma_filter_single(d, p);
        lemma_filter_push(taken, d, p);
        assert(with_path(old, p) == with_path(taken, p));
        if d.path@ == p {
            assert forall|k: int| 0 <= k < suffix.len() implies !f(#[trigger] suffix[k]) by {
                assert(suffix[k] == old[pos + k]);
                lemma_chars_lt_order(d.path@, d.path@, d.path@);
            }
            assert(suffix.all(|x: OwnedFile| !f(x)));
            suffix.lemma_all_neg_filter_empty(f);
            assert(suffix.filter(f) =~= Seq::<OwnedFile>::empty());
            assert(with_path(old.insert(pos, d), p) =~= with_path(old, p).push(d));
        } else {
            assert(with_path(old.insert(pos, d), p) =~= with_path(old, p));
        }
    }
}

impl OwnedCatalog {
    /// A catalog of `documents` sorted by path; documents with the same
    /// path keep their order.
    pub fn from_files(documents: Vec<OwnedFile>) -> (c: Self)
        ensures
            c.documents@.to_multiset() == documents@.to_multiset(),
            sorted_by_path(c.documents@),
            forall|p: Seq<char>| #[trigger] with_path(c.documents@, p) == with_path(documents@, p),
    {
        broadcast use vstd::seq_lib::to_multiset_insert, vstd::seq_lib::to_multiset_remove;

        let ghost input = documents@;
        let total = documents.len();
        let mut rest = documents;
        let mut out: Vec<OwnedFile> = Vec::new();
        let mut taken: usize = 0;
        proof {
            assert(input.take(0) =~= Seq::<OwnedFile>::empty());
            assert(out@ =~= Seq::<OwnedFile>::empty());
            assert forall|p: Seq<char>| #[trigger] with_path(out@, p) == with_path(input.take(0), p) by {}
        }
        while rest.len() > 0
            invariant
                total == input.len(),
                taken + rest@.len() == input.len(),
                rest@ == input.skip(taken as int),
                out@.to_multiset() == input.take(taken as int).to_multiset(),
                sorted_by_path(out@),
                forall|p: Seq<char>| #[trigger] with_path(out@, p) == with_path(input.take(taken as int), p),
            decreases rest@.len(),
        {
            let ghost before_rest = rest@;
            let d = rest.remove(0);
            assert(d == input[taken as int]);
            let mut pos: usize = 0;
            while pos < out.len() && !string_less(&d.path, &out[pos].path)
                invariant
                    pos <= out@.len(),
                    forall|k: int| 0 <= k < pos ==> !chars_lt(d.path@, #[trigger] out@[k].path@),
                decreases out@.len() - pos,
            {
                pos += 1;
            }
            let ghost old_out = out@;
            proof {
                assert forall|k: int| pos <= k < old_out.len() implies chars_lt(d.path@, #[trigger] old_out[k].path@) by {
                    if k > pos {
                        assert(!chars_lt(old_out[k].path@, old_out[pos as int].path@));
                        lemma_chars_lt_order(d.path@, old_out[pos as int].path@, old_out[k].path@);
                        lemma_chars_lt_order(old_out[k].path@, old_out[pos as int].path@, old_out[k].path@);
                        if !chars_lt(d.path@, old_out[k].path@) {
                            lemma_chars_lt_order(old_out[pos as int].path@, old_out[k].path@, d.path@);
                            lemma_chars_lt_order(d.path@, old_out[k].path@, old_out[pos as int].path@);
                        }
                    }
                }
            }
            out.insert(pos, d);
            proof {
                assert(out@ == old_out.insert(pos as int, d));
                vstd::seq_lib::to_multiset_insert(old_out, pos as int, d);
                assert(input.take(taken + 1) =~= input.take(taken as int).push(d));
                vstd::seq_lib::to_multiset_build(input.take(taken as int), d);
                assert(out@.to_multiset() == input.take(taken + 1).to_multiset());
                lemma_insert_keeps_path_order(old_out, pos as int, d, input.take(taken as int));
                assert forall|i: int, j: int| 0 <= i < j < out@.len() implies !chars_lt(
                    #[trigger] out@[j].path@,
                    #[trigger] out@[i].path@,
                ) by {
                    if i == pos {
                        if j > pos {
                            assert(out@[j] == old_out[j - 1]);
                            lemma_chars_lt_order(d.path@, old_out[j - 1].path@, d.path@);
                        }
                    } else if j == pos {
                        assert(out@[i] == old_out[i]);
                    } else {
                        let oi = if i < pos { i } else { i - 1 };
                        let oj = if j < pos { j } else { j - 1 };
                        assert(out@[i] == old_out[oi] && out@[j] == old_out[oj]);
                    }
                }
                assert(rest@ =~= input.skip(taken + 1));
            }
            taken += 1;
        }
        proof {
            assert(input.take(taken as int) =~= input);
        }
        OwnedCatalog { documents: out }
    }
}

/// The metadata directory below a contracts root.
pub const OWNERSHIP_DIRECTORY: &'static str = ".contract-kit";

/// The ownership manifest's file name.
pub const OWNERSHIP_FILE_NAME: &'static str = "generated-files.json";

/// The prefix of individually atomic manifest writes.
pub const OWNERSHIP_TEMPORARY_PREFIX: &'static str = ".generated-files.json.";

/// The random suffix width of atomic manifest writes.
pub const ATOMIC_TEMPORARY_SUFFIX_LENGTH: usize = 6;

/// `dir` joined with the relative `name` (`Path::join`): a separator is
/// added unless `dir` is empty or already ends with one.
pub open spec fn joined_text(dir: Seq<char>, name: Seq<char>) -> Seq<char> {
    if dir.len() == 0 || dir.last() == '/' {
        dir + name
    } else {
        dir + seq!['/'] + name
    }
}

pub(crate) fn join_text(dir: &String, name: &str) -> (r: String)
    ensures
        r@ == joined_text(dir@, name@),
{
    let chars = chars_of(dir.as_str());
    let mut r = dir.clone();
    if chars.len() > 0 && chars[chars.len() - 1] != '/' {
        push_char(&mut r, '/');
    }
    push_str(&mut r, name);
    r
}

/// The ownership manifest's path below `root`.
pub fn ownership_manifest_path(root: &String) -> (r: String)
    ensures
        r@ == joined_text(joined_text(root@, OWNERSHIP_DIRECTORY@), OWNERSHIP_FILE_NAME@),
{
    let directory = join_text(root, OWNERSHIP_DIRECTORY);
    join_text(&directory, OWNERSHIP_FILE_NAME)
}

/// The prefix of a decoding error about an invalid persisted path.
pub open spec fn path_error_prefix() -> Seq<char> {
    "invalid persisted ownership path: "@
}

/// The start of the last occurrence of `needle` in `hay` that begins
/// before `n`.
pub open spec fn last_occurrence(hay: Seq<char>, needle: Seq<char>, n: int) -> Option<int>
    decreases n,
{
    if n <= 0 {
        None
    } else if n - 1 + needle.len() <= hay.len() && hay.subrange(n - 1, n - 1 + needle.len()) == needle {
        Some(n - 1)
    } else {
        last_occurrence(hay, needle, n - 1)
    }
}

/// What a decoding error says of an invalid persisted path: the text after
/// the prefix, without a trailing ` at line L column C` location.
pub open spec fn path_error_text(message: Seq<char>) -> Option<Seq<char>> {
    let prefix = path_error_prefix();
    if message.len() < prefix.len() || message.take(prefix.len() as int) != prefix {
        None
    } else {
        let rest = message.skip(prefix.len() as int);
        match last_occurrence(rest, " at line "@, rest.len() as int + 1) {
            Some(k) => if crate::compiler::extractor::contains_seq(rest.skip(k + 9), " column "@) {
                Some(rest.take(k))
            } else {
                Some(rest)
            },
            None => Some(rest),
        }
    }
}

fn occurs_at(hay: &Vec<char>, needle: &Vec<char>, start: usize) -> (r: bool)
    ensures
        r == (start + needle@.len() <= hay@.len() && hay@.subrange(start as int, start + needle@.len()) == needle@),
{
    if needle.len() > hay.len() || start > hay.len() - needle.len() {
        return false;
    }
    let window = crate::compiler::extractor::copy_range(hay.as_slice(), start, start + needle.len());
    chars_equal(window.as_slice(), needle.as_slice())
}

/// The path message of a decoding error that reports an invalid persisted
/// path, or `None` for any other decoding error.
pub fn path_error_message(message: &str) -> (r: Option<String>)
    ensures
        match path_error_text(message@) {
            Some(t) => r matches Some(s) && s@ == t,
            None => r is None,
        },
{
    let chars = chars_of(message);
    let prefix = chars_of("invalid persisted ownership path: ");
    proof {
        reveal_strlit("invalid persisted ownership path: ");
    }
    if !crate::compiler::extractor::starts_with_chars(chars.as_slice(), prefix.as_slice()) {
        return None;
    }
    let rest = crate::compiler::extractor::copy_range(chars.as_slice(), prefix.len(), chars.len());
    assert(rest@ =~= message@.skip(prefix@.len() as int));
    let marker = chars_of(" at line ");
    let column = chars_of(" column ");
    proof {
        reveal_strlit(" at line ");
        reveal_strlit(" column ");
    }
    let mut start: usize = rest.len();
    while !occurs_at(&rest, &marker, start) && start > 0
        invariant
            start <= rest@.len(),
            marker@ == " at line "@,
            last_occurrence(rest@, marker@, rest@.len() as int + 1) == last_occurrence(rest@, marker@, start + 1),
        decreases start,
    {
        start -= 1;
    }
    let found = occurs_at(&rest, &marker, start);
    proof {
        if !found {
            assert(start == 0);
            assert(last_occurrence(rest@, marker@, 0) is None);
            assert(last_occurrence(rest@, marker@, 1) is None);
        } else {
            assert(last_occurrence(rest@, marker@, start + 1) == Some(start as int));
        }
    }
    if found {
        let k = start;
        let location = crate::compiler::extractor::copy_range(rest.as_slice(), k + 9, rest.len());
        assert(location@ =~= rest@.skip(k + 9));
        if crate::compiler::extractor::contains_chars(location.as_slice(), column.as_slice()) {
            let kept = crate::compiler::extractor::copy_range(rest.as_slice(), 0, k);
            assert(kept@ =~= rest@.take(k as int));
            return Some(string_from_chars(kept.as_slice()));
        }
    }
    Some(string_from_chars(rest.as_slice()))
}

} // verus!
