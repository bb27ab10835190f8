//! Cargo process results and the bounded evidence of process cleanup.

use std::sync::Arc;

use vstd::prelude::*;
use vstd::utf8::*;

use crate::compiler::error::{CompilerError, CompilerOperation, CompilerStream};
use crate::compiler::extractor::{ascii_lower, contains_chars, contains_seq, lowercase_ascii};
use crate::compiler::limits::CompilerUsage;
use crate::compiler::source::{lemma_encode_utf8_concat, lemma_offset_step, utf8_width};
use crate::text::{chars_of, is_whitespace, push_str, spec_is_whitespace, string_from_chars};

verus! {

/// Byte budget of the detail of one cleanup-evidence entry.
pub const PROCESS_CLEANUP_EVIDENCE_BYTES: usize = 512;

/// The only compiler toolchain extraction runs with.
pub const SUPPORTED_COMPILER_TOOLCHAIN: &'static str = "nightly-2026-07-01";

/// Version of the compiler extractor, independent of the package release.
pub const COMPILER_EXTRACTOR_VERSION: &'static str = "conkit-rustdoc-json-v1";

/// The Cargo executable and the arguments that precede every subcommand.
pub struct CargoProgram {
    pub executable: String,
    pub prefix: Vec<String>,
}

impl CargoProgram {
    /// `cargo +TOOLCHAIN` for the supported toolchain.
    pub fn supported() -> (p: Self)
        ensures
            p.executable@ == "cargo"@,
            p.prefix@.len() == 1,
            p.prefix@[0]@ == seq!['+'] + SUPPORTED_COMPILER_TOOLCHAIN@,
    {
        let mut pinned = String::new();
        crate::text::push_char(&mut pinned, '+');
        push_str(&mut pinned, SUPPORTED_COMPILER_TOOLCHAIN);
        proof {
            reveal_strlit("cargo");
        }
        CargoProgram { executable: "cargo".to_owned(), prefix: vec![pinned] }
    }
}

/// The longest prefix of `s` whose UTF-8 encoding fits in `budget` bytes:
/// what cutting `s` at the last character boundary at or below `budget`
/// leaves.
pub open spec fn fit_prefix(s: Seq<char>, budget: int) -> Seq<char>
    decreases s.len(),
{
    if encode_utf8(s).len() <= budget || s.len() == 0 {
        s
    } else {
        fit_prefix(s.drop_last(), budget)
    }
}

pub open spec fn ellipsis() -> Seq<char> {
    seq!['.', '.', '.']
}

/// A message cut to at most 512 bytes: longer messages keep the prefix that
/// fits in 509 bytes and end with `"..."`.
pub open spec fn bounded_detail(message: Seq<char>) -> Seq<char> {
    if encode_utf8(message).len() > PROCESS_CLEANUP_EVIDENCE_BYTES {
        fit_prefix(message, PROCESS_CLEANUP_EVIDENCE_BYTES - 3) + ellipsis()
    } else {
        message
    }
}

/// One evidence entry: `"; STEP: DETAIL"`.
pub open spec fn evidence_entry(step: Seq<char>, message: Seq<char>) -> Seq<char> {
    seq![';', ' '] + step + seq![':', ' '] + bounded_detail(message)
}

/// Evidence as shown: the entries without the leading `"; "`.
pub open spec fn evidence_text(rendered: Seq<char>) -> Seq<char> {
    if rendered.len() >= 2 && rendered[0] == ';' && rendered[1] == ' ' {
        rendered.skip(2)
    } else {
        rendered
    }
}

/// The UTF-8 length of a prefix never exceeds that of the whole.
pub proof fn lemma_prefix_bytes(s: Seq<char>, k: int)
    requires
        0 <= k <= s.len(),
    ensures
        encode_utf8(s.take(k)).len() <= encode_utf8(s).len(),
{
    assert(s =~= s.take(k) + s.skip(k));
    lemma_encode_utf8_concat(s.take(k), s.skip(k));
}

/// The prefix of `k` characters is the longest that fits when it fits and
/// one more character does not.
proof fn lemma_fit_prefix(s: Seq<char>, budget: int, k: int)
    requires
        0 <= k <= s.len(),
        encode_utf8(s.take(k)).len() <= budget,
        k < s.len() ==> encode_utf8(s.take(k + 1)).len() > budget,
    ensures
        fit_prefix(s, budget) == s.take(k),
    decreases s.len(),
{
    if k == s.len() {
        assert(s.take(k) =~= s);
    } else {
        lemma_prefix_bytes(s, k + 1);
        let d = s.drop_last();
        assert(d.take(k) =~= s.take(k));
        if k < d.len() {
            assert(d.take(k + 1) =~= s.take(k + 1));
        }
        lemma_fit_prefix(d, budget, k);
    }
}

/// The number of leading characters of `chars` that fit in `budget` bytes,
/// and their UTF-8 length.
fn fitting_prefix(chars: &[char], budget: usize) -> (r: (usize, usize))
    ensures
        r.0 <= chars@.len(),
        fit_prefix(chars@, budget as int) == chars@.take(r.0 as int),
        r.1 == encode_utf8(chars@.take(r.0 as int)).len(),
        r.1 <= budget,
{
    let mut k: usize = 0;
    let mut bytes: usize = 0;
    proof {
        assert(chars@.take(0) =~= Seq::<char>::empty());
    }
    while k < chars.len()
        invariant
            k <= chars@.len(),
            bytes == encode_utf8(chars@.take(k as int)).len(),
            bytes <= budget,
        decreases chars@.len() - k,
    {
        let w = utf8_width(chars[k]);
        proof {
            lemma_offset_step(chars@, k as int);
        }
        if w > budget - bytes {
            proof {
                lemma_fit_prefix(chars@, budget as int, k as int);
            }
            return (k, bytes);
        }
        bytes = bytes + w;
        k += 1;
    }
    proof {
        lemma_fit_prefix(chars@, budget as int, k as int);
    }
    (k, bytes)
}

/// Cleanup failures gathered while a Cargo process is torn down, bounded by
/// the operation-wide cleanup-evidence budget.
pub struct ProcessCleanupEvidence {
    usage: Arc<CompilerUsage>,
    rendered: String,
}

impl ProcessCleanupEvidence {
    /// The entries recorded so far, each `"; STEP: DETAIL"`.
    pub closed spec fn spec_rendered(&self) -> Seq<char> {
        self.rendered@
    }

    /// The ledger whose budget bounds the evidence.
    pub closed spec fn spec_usage(&self) -> CompilerUsage {
        *self.usage
    }

    /// Empty evidence charged to `usage`.
    pub fn new(usage: &Arc<CompilerUsage>) -> (e: Self)
        ensures
            e.spec_rendered() == Seq::<char>::empty(),
            e.spec_usage() == **usage,
    {
        ProcessCleanupEvidence { usage: Arc::clone(usage), rendered: String::new() }
    }

    /// Records the failure of a cleanup step; at most what the cleanup
    /// budget still grants of the entry is kept, cut at a character
    /// boundary.
    pub fn record_message(&mut self, step: &str, message: &str)
        ensures
            final(self).spec_usage() == old(self).spec_usage(),
            exists|granted: int|
                0 <= granted <= old(self).spec_usage().spec_limits().cleanup_evidence_bytes
                    && final(self).spec_rendered() == old(self).spec_rendered() + fit_prefix(
                    evidence_entry(step@, message@),
                    granted,
                ),
    {
        let message_chars = chars_of(message);
        let message_bytes = message.as_bytes().len();
        let mut detail = String::new();
        if message_bytes > PROCESS_CLEANUP_EVIDENCE_BYTES {
            let (keep, _) = fitting_prefix(message_chars.as_slice(), PROCESS_CLEANUP_EVIDENCE_BYTES - 3);
            let kept = string_from_chars(crate::compiler::extractor::copy_range(message_chars.as_slice(), 0, keep).as_slice());
            push_str(&mut detail, kept.as_str());
            push_str(&mut detail, "...");
            proof {
                reveal_strlit("...");
                assert(detail@ =~= bounded_detail(message@));
            }
        } else {
            push_str(&mut detail, message);
            proof {
                assert(detail@ =~= bounded_detail(message@));
            }
        }
        let mut entry = String::new();
        push_str(&mut entry, "; ");
        push_str(&mut entry, step);
        push_str(&mut entry, ": ");
        push_str(&mut entry, detail.as_str());
        proof {
            reveal_strlit("; ");
            reveal_strlit(": ");
            assert(entry@ =~= evidence_entry(step@, message@));
        }
        let entry_bytes = entry.as_str().as_bytes().len();
        let reserved = self.usage.reserve_cleanup_evidence(entry_bytes as u64);
        let granted: usize = if reserved >= entry_bytes as u64 {
            entry_bytes
        } else {
            reserved as usize
        };
        let entry_chars = chars_of(entry.as_str());
        let (keep, _) = fitting_prefix(entry_chars.as_slice(), granted);
        let appended = string_from_chars(crate::compiler::extractor::copy_range(entry_chars.as_slice(), 0, keep).as_slice());
        push_str(&mut self.rendered, appended.as_str());
        proof {
            assert(entry_chars@.subrange(0, keep as int) =~= entry_chars@.take(keep as int));
        }
    }

    /// Records the failure of a cleanup step from its displayed error.
    pub fn record<T: std::fmt::Display + ?Sized>(&mut self, step: &str, error: &T)
        ensures
            final(self).spec_usage() == old(self).spec_usage(),
            exists|message: Seq<char>, granted: int|
                0 <= granted <= old(self).spec_usage().spec_limits().cleanup_evidence_bytes
                    && final(self).spec_rendered() == old(self).spec_rendered() + fit_prefix(
                    evidence_entry(step@, message),
                    granted,
                ),
    {
        let message = error.to_string();
        self.record_message(step, message.as_str());
    }

    /// True when nothing was recorded.
    pub fn is_empty(&self) -> (r: bool)
        ensures
            r == (self.spec_rendered().len() == 0),
    {
        self.rendered.as_str().is_empty()
    }

    /// The evidence as shown to users: the entries without the leading
    /// `"; "`.
    pub fn rendered(&self) -> (s: String)
        ensures
            s@ == evidence_text(self.spec_rendered()),
    {
        let chars = chars_of(self.rendered.as_str());
        if chars.len() >= 2 && chars[0] == ';' && chars[1] == ' ' {
            let rest = crate::compiler::extractor::copy_range(chars.as_slice(), 2, chars.len());
            proof {
                assert(chars@.subrange(2, chars@.len() as int) =~= chars@.skip(2));
            }
            string_from_chars(rest.as_slice())
        } else {
            string_from_chars(chars.as_slice())
        }
    }

    /// Wraps `primary` with the evidence, or returns it unchanged when there
    /// is none.
    pub fn attach(self, primary: CompilerError) -> (e: CompilerError)
        ensures
            self.spec_rendered().len() == 0 ==> e == primary,
            self.spec_rendered().len() > 0 ==> (e matches CompilerError::ProcessFailureWithEvidence { primary: p, evidence }
                && *p == primary && evidence@ == evidence_text(self.spec_rendered())),
    {
        if self.is_empty() {
            primary
        } else {
            let evidence = self.rendered();
            CompilerError::ProcessFailureWithEvidence { primary: Box::new(primary), evidence }
        }
    }
}

/// One poll of a running Cargo process: cancellation and the deadline
/// stop it first, then an output stream over its limit, stdout first.
pub fn monitor_check(
    usage: &CompilerUsage,
    operation: CompilerOperation,
    stdout_exceeded: bool,
    stderr_exceeded: bool,
) -> (r: Result<(), CompilerError>)
    ensures
        r is Ok ==> !stdout_exceeded && !stderr_exceeded,
        r matches Err(e) ==> (e is CompilerExtractionCancelled || e is ProcessTimeout || (e matches CompilerError::ProcessOutputLimit {
            operation: o,
            stream,
            limit,
            ..
        } && o == operation && (stream == CompilerStream::Stdout ==> stdout_exceeded && limit
            == usage.spec_limits().stdout_bytes) && (stream == CompilerStream::Stderr ==> !stdout_exceeded
            && stderr_exceeded && limit == usage.spec_limits().stderr_bytes))),
{
    match usage.checkpoint(operation) {
        Ok(()) => {},
        Err(e) => return Err(e),
    }
    if stdout_exceeded {
        return Err(
            CompilerError::ProcessOutputLimit {
                operation,
                stream: CompilerStream::Stdout,
                limit: usage.limits().stdout_bytes,
                observed_at_least: usage.output_observed(CompilerStream::Stdout),
            },
        );
    }
    if stderr_exceeded {
        return Err(
            CompilerError::ProcessOutputLimit {
                operation,
                stream: CompilerStream::Stderr,
                limit: usage.limits().stderr_bytes,
                observed_at_least: usage.output_observed(CompilerStream::Stderr),
            },
        );
    }
    Ok(())
}

/// The message `FromUtf8Error` renders for bytes that are not UTF-8 (where
/// the first invalid sequence starts and how long it is); it depends on the
/// bytes alone.
pub uninterp spec fn utf8_error_text(bytes: Seq<u8>) -> Seq<char>;

/// Parses UTF-8 (`String::from_utf8`); on invalid input, the error's
/// message as `FromUtf8Error` renders it.
#[verifier::external_body]
pub(crate) fn string_from_utf8(bytes: Vec<u8>) -> (r: Result<String, String>)
    ensures
        r is Ok <==> valid_utf8(bytes@),
        r matches Ok(s) ==> encode_utf8(s@) == bytes@,
        r matches Err(m) ==> m@ == utf8_error_text(bytes@),
{
    String::from_utf8(bytes).map_err(|error| error.to_string())
}

/// What `String::from_utf8_lossy` makes of `bytes`.
pub uninterp spec fn lossy_utf8(bytes: Seq<u8>) -> Seq<char>;

/// Decodes UTF-8, replacing invalid sequences with U+FFFD
/// (`String::from_utf8_lossy`); valid input is decoded unchanged.
#[verifier::external_body]
pub(crate) fn string_from_utf8_lossy(bytes: &[u8]) -> (s: String)
    ensures
        s@ == lossy_utf8(bytes@),
        valid_utf8(bytes@) ==> encode_utf8(s@) == bytes@,
{
    String::from_utf8_lossy(bytes).into_owned()
}

/// The trimmed, lossily decoded standard error of a failed Cargo run.
pub open spec fn failure_stderr(stderr: Seq<u8>) -> Seq<char> {
    crate::text::trim(lossy_utf8(stderr))
}

/// Cargo reported that the pinned toolchain is not installed.
pub open spec fn reports_missing_toolchain(stderr: Seq<char>) -> bool {
    let lower = stderr.map_values(|c: char| ascii_lower(c));
    &&& contains_seq(lower, SUPPORTED_COMPILER_TOOLCHAIN@)
    &&& {
        ||| contains_seq(lower, "not installed"@)
        ||| contains_seq(lower, "no release found"@)
        ||| contains_seq(lower, "toolchain is not installed"@)
        ||| contains_seq(lower, "toolchain is not installable"@)
    }
}

/// The captured output of a Cargo run.
pub struct CargoOutput {
    pub stdout: Vec<u8>,
    pub stderr: Vec<u8>,
}

impl CargoOutput {
    /// Standard output as text; invalid UTF-8 fails the operation.
    pub fn utf8_stdout(self, operation: CompilerOperation) -> (r: Result<String, CompilerError>)
        ensures
            r is Ok <==> valid_utf8(self.stdout@),
            r matches Ok(s) ==> encode_utf8(s@) == self.stdout@,
            r matches Err(e) ==> (e matches CompilerError::NonUtf8ProcessOutput { operation: o, message } && o == operation
                && message@ == utf8_error_text(self.stdout@)),
    {
        match string_from_utf8(self.stdout) {
            Ok(text) => Ok(text),
            Err(message) => Err(CompilerError::NonUtf8ProcessOutput { operation, message }),
        }
    }

    /// The failure a non-zero Cargo exit stands for: the pinned toolchain
    /// being unavailable, or a plain Cargo failure with its trimmed stderr.
    pub fn failure_with_status_code(self, operation: CompilerOperation, status: Option<i32>) -> (e: CompilerError)
        ensures
            reports_missing_toolchain(failure_stderr(self.stderr@)) ==> (e matches CompilerError::SupportedToolchainUnavailable {
                toolchain,
                detail,
            } && toolchain@ == SUPPORTED_COMPILER_TOOLCHAIN@ && detail@ == failure_stderr(self.stderr@)),
            !reports_missing_toolchain(failure_stderr(self.stderr@)) ==> (e matches CompilerError::CargoFailed {
                operation: o,
                status: s,
                stderr,
            } && o == operation && s == status && stderr@ == failure_stderr(self.stderr@)),
    {
        let decoded = string_from_utf8_lossy(self.stderr.as_slice());
        let trimmed = crate::text::trim_chars(chars_of(decoded.as_str()).as_slice());
        let lower = lowercase_ascii(trimmed.as_slice());
        let toolchain = chars_of(SUPPORTED_COMPILER_TOOLCHAIN);
        let missing = contains_chars(lower.as_slice(), chars_of("not installed").as_slice())
            || contains_chars(lower.as_slice(), chars_of("no release found").as_slice())
            || contains_chars(lower.as_slice(), chars_of("toolchain is not installed").as_slice())
            || contains_chars(lower.as_slice(), chars_of("toolchain is not installable").as_slice());
        let stderr = string_from_chars(trimmed.as_slice());
        if contains_chars(lower.as_slice(), toolchain.as_slice()) && missing {
            CompilerError::SupportedToolchainUnavailable { toolchain: SUPPORTED_COMPILER_TOOLCHAIN, detail: stderr }
        } else {
            CompilerError::CargoFailed { operation, status, stderr }
        }
    }
}

} // verus!
