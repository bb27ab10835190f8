//! The private rustdoc probe: the analysis of one rustdoc invocation that
//! Cargo launched, which must be the expected JSON documentation run, and
//! the cfg values it carries.
//!
//! Arguments are OS strings given as their bytes (Unix encoding); paths are
//! read with Unix separators.

use vstd::prelude::*;
use vstd::utf8::*;

use crate::compiler::error::CompilerError;
use crate::compiler::extractor::{config_value_ok, insert_sorted, strictly_sorted, string_views, CompilerConfiguration};
use crate::compiler::source::str_from_utf8;
use crate::text::{chars_of, string_from_chars};

verus! {

/// Most arguments one probed invocation may carry.
pub const RUSTDOC_PROBE_MAX_ARGUMENT_COUNT: usize = 4096;

/// Most argument bytes one probed invocation may carry.
pub const RUSTDOC_PROBE_MAX_ARGUMENT_BYTES: u64 = 65536;

/// Most bytes one probe capture may hold.
pub const RUSTDOC_PROBE_MAX_CAPTURE_BYTES: u64 = 65536;

/// The exit code of a probe that captured its invocation.
pub const RUSTDOC_PROBE_EXIT_CODE: u8 = 73;

/// Why the probe rejected its invocation or environment.
#[derive(Debug, PartialEq, Eq)]
pub enum RustdocProbeError {
    IncompleteEnvironment,
    InvalidToken,
    InvalidCrateName,
    InvalidCrateType,
    RelativeBoundaryPath,
    InvalidCapturePath,
    ArgumentLimit,
    CaptureLimit,
    MissingOptionValue { option: &'static str },
    NonUtf8Option { option: &'static str },
    InvalidCfgValue,
    UnexpectedInvocation,
    Encode(String),
    Write(String),
}

/// What the probe records of an accepted invocation.
#[derive(Debug)]
pub struct ProbeRecord {
    pub token: String,
    pub exit_code: u8,
    pub cfg_values: Vec<String>,
    pub rejection: Option<String>,
}

/// The `/`-separated pieces of a byte path.
pub open spec fn byte_pieces(b: Seq<u8>) -> Seq<Seq<u8>>
    decreases b.len(),
{
    if b.len() == 0 {
        seq![Seq::<u8>::empty()]
    } else {
        let previous = byte_pieces(b.drop_last());
        if b.last() == 47u8 {
            previous.push(Seq::<u8>::empty())
        } else {
            previous.update(previous.len() - 1, previous.last().push(b.last()))
        }
    }
}

/// The pieces that name a level: neither empty nor `.`.
pub open spec fn keep_named(pieces: Seq<Seq<u8>>) -> Seq<Seq<u8>>
    decreases pieces.len(),
{
    if pieces.len() == 0 {
        seq![]
    } else {
        let previous = keep_named(pieces.drop_last());
        let last = pieces.last();
        if last.len() == 0 || last == seq![46u8] {
            previous
        } else {
            previous.push(last)
        }
    }
}

/// The named segments of a path, as `Path::components` yields its normal
/// and parent components after the root.
pub open spec fn named_segments(b: Seq<u8>) -> Seq<Seq<u8>> {
    keep_named(byte_pieces(b))
}

/// A Unix path that begins at the root.
pub open spec fn absolute_path(b: Seq<u8>) -> bool {
    b.len() > 0 && b[0] == 47u8
}

/// An absolute output directory inside the target directory without `..`.
pub open spec fn output_directory_ok(output: Seq<u8>, target: Seq<u8>) -> bool {
    &&& absolute_path(output)
    &&& !named_segments(output).contains(seq![46u8, 46u8])
    &&& (target.len() == 0 || (absolute_path(target) && named_segments(target).len() <= named_segments(output).len()
        && named_segments(output).take(named_segments(target).len() as int) == named_segments(target)))
}

/// The argument names a `.rs` file: its last segment is not `..`, and
/// has a stem before the `.rs` extension.
pub open spec fn rust_file(b: Seq<u8>) -> bool {
    let segments = named_segments(b);
    &&& segments.len() > 0
    &&& segments.last() != seq![46u8, 46u8]
    &&& segments.last().len() > 3
    &&& segments.last().skip(segments.last().len() - 3) == seq![46u8, 114u8, 115u8]
}

/// What one argument contributes to the record.
pub enum ProbeEffect {
    Nothing,
    /// A cfg value, and whether it was already validated.
    Cfg(Seq<char>, bool),
    CrateName(Seq<char>),
    CrateType(Seq<char>),
    OutputDirectory(Seq<u8>),
    UnstableOptions,
    JsonOutput,
    HiddenItems,
    PrivateItems,
}

/// Why one argument is rejected, as a value of the specification.
pub enum ProbeRejection {
    MissingOptionValue(Seq<char>),
    NonUtf8Option(Seq<char>),
    InvalidCfgValue,
}

/// The UTF-8 value following option `i`.
pub open spec fn text_value(args: Seq<Seq<u8>>, i: int, option: Seq<char>) -> Result<Seq<char>, ProbeRejection> {
    if i >= args.len() - 1 {
        Err(ProbeRejection::MissingOptionValue(option))
    } else if !valid_utf8(args[i + 1]) {
        Err(ProbeRejection::NonUtf8Option(option))
    } else {
        Ok(decode_utf8(args[i + 1]))
    }
}

/// `s` begins with `prefix`.
pub open spec fn has_prefix(s: Seq<char>, prefix: Seq<char>) -> bool {
    s.len() >= prefix.len() && s.take(prefix.len() as int) == prefix
}

/// The contribution of argument `i` of `args`.
pub open spec fn probe_effect(args: Seq<Seq<u8>>, i: int) -> Result<ProbeEffect, ProbeRejection> {
    if !valid_utf8(args[i]) {
        Ok(ProbeEffect::Nothing)
    } else {
        let text = decode_utf8(args[i]);
        if text == "--cfg"@ {
            match text_value(args, i, "--cfg"@) {
                Ok(v) => Ok(ProbeEffect::Cfg(v, false)),
                Err(e) => Err(e),
            }
        } else if text == "--crate-name"@ {
            match text_value(args, i, "--crate-name"@) {
                Ok(v) => Ok(ProbeEffect::CrateName(v)),
                Err(e) => Err(e),
            }
        } else if text == "--crate-type"@ {
            match text_value(args, i, "--crate-type"@) {
                Ok(v) => Ok(ProbeEffect::CrateType(v)),
                Err(e) => Err(e),
            }
        } else if text == "-o"@ || text == "--out-dir"@ {
            if i >= args.len() - 1 {
                Err(ProbeRejection::MissingOptionValue(text))
            } else {
                Ok(ProbeEffect::OutputDirectory(args[i + 1]))
            }
        } else if text == "-Z"@ {
            match text_value(args, i, "-Z"@) {
                Ok(v) => Ok(if v == "unstable-options"@ { ProbeEffect::UnstableOptions } else { ProbeEffect::Nothing }),
                Err(e) => Err(e),
            }
        } else if text == "--output-format"@ {
            match text_value(args, i, "--output-format"@) {
                Ok(v) => Ok(if v == "json"@ { ProbeEffect::JsonOutput } else { ProbeEffect::Nothing }),
                Err(e) => Err(e),
            }
        } else if text == "--document-hidden-items"@ {
            Ok(ProbeEffect::HiddenItems)
        } else if text == "--document-private-items"@ {
            Ok(ProbeEffect::PrivateItems)
        } else if has_prefix(text, "--cfg="@) {
            let v = text.skip(6);
            if config_value_ok(v) {
                Ok(ProbeEffect::Cfg(v, true))
            } else {
                Err(ProbeRejection::InvalidCfgValue)
            }
        } else if has_prefix(text, "--crate-name="@) {
            Ok(ProbeEffect::CrateName(text.skip(13)))
        } else if has_prefix(text, "--crate-type="@) {
            Ok(ProbeEffect::CrateType(text.skip(13)))
        } else if has_prefix(text, "--out-dir="@) {
            Ok(ProbeEffect::OutputDirectory(encode_utf8(text.skip(10))))
        } else if text == "-Zunstable-options"@ {
            Ok(ProbeEffect::UnstableOptions)
        } else if text == "--output-format=json"@ {
            Ok(ProbeEffect::JsonOutput)
        } else {
            Ok(ProbeEffect::Nothing)
        }
    }
}

/// `e` reports the rejection `r`.
pub open spec fn probe_error_is(e: RustdocProbeError, r: ProbeRejection) -> bool {
    match r {
        ProbeRejection::MissingOptionValue(o) => e matches RustdocProbeError::MissingOptionValue { option } && option@ == o,
        ProbeRejection::NonUtf8Option(o) => e matches RustdocProbeError::NonUtf8Option { option } && option@ == o,
        ProbeRejection::InvalidCfgValue => e is InvalidCfgValue,
    }
}


/// The total length of the arguments.
pub open spec fn argument_bytes(args: Seq<Seq<u8>>) -> int
    decreases args.len(),
{
    if args.len() == 0 {
        0
    } else {
        argument_bytes(args.drop_last()) + args.last().len()
    }
}

proof fn lemma_argument_bytes_monotone(args: Seq<Seq<u8>>, i: int)
    requires
        0 <= i <= args.len(),
    ensures
        argument_bytes(args.take(i)) <= argument_bytes(args),
    decreases args.len() - i,
{
    if i < args.len() {
        lemma_argument_bytes_monotone(args, i + 1);
        assert(args.take(i + 1).drop_last() =~= args.take(i));
    } else {
        assert(args.take(i) =~= args);
    }
}

/// The characters of UTF-8 bytes, when they are UTF-8.
fn utf8_text(bytes: &[u8]) -> (r: Option<Vec<char>>)
    ensures
        r is Some <==> valid_utf8(bytes@),
        r matches Some(c) ==> c@ == decode_utf8(bytes@),
{
    match str_from_utf8(bytes) {
        Some(text) => {
            let chars = chars_of(text);
            proof {
                encode_utf8_decode_utf8(text@);
            }
            Some(chars)
        },
        None => None,
    }
}

/// The named segments of a byte path.
fn named_segments_of(b: &[u8]) -> (r: Vec<Vec<u8>>)
    ensures
        r@.map_values(|v: Vec<u8>| v@) == named_segments(b@),
{
    let mut pieces: Vec<Vec<u8>> = Vec::new();
    pieces.push(Vec::new());
    let mut i: usize = 0;
    proof {
        assert(b@.take(0) =~= Seq::<u8>::empty());
        assert(pieces@.map_values(|v: Vec<u8>| v@) =~= byte_pieces(b@.take(0)));
    }
    while i < b.len()
        invariant
            i <= b@.len(),
            pieces@.map_values(|v: Vec<u8>| v@) == byte_pieces(b@.take(i as int)),
            pieces@.len() >= 1,
        decreases b@.len() - i,
    {
        let ghost before = pieces@.map_values(|v: Vec<u8>| v@);
        proof {
            assert(b@.take(i + 1).drop_last() =~= b@.take(i as int));
            assert(b@.take(i + 1).last() == b@[i as int]);
        }
        if b[i] == 47u8 {
            pieces.push(Vec::new());
            proof {
                assert(pieces@.map_values(|v: Vec<u8>| v@) =~= before.push(Seq::<u8>::empty()));
            }
        } else {
            let mut last = match pieces.pop() {
                Some(last) => last,
                None => Vec::new(),
            };
            last.push(b[i]);
            pieces.push(last);
            proof {
                assert(pieces@.map_values(|v: Vec<u8>| v@) =~= before.update(
                    before.len() - 1,
                    before.last().push(b@[i as int]),
                ));
            }
        }
        i += 1;
    }
    proof {
        assert(b@.take(b@.len() as int) =~= b@);
    }
    let ghost all = pieces@.map_values(|v: Vec<u8>| v@);
    let mut named: Vec<Vec<u8>> = Vec::new();
    let mut k: usize = 0;
    while k < pieces.len()
        invariant
            k <= pieces@.len(),
            all == pieces@.map_values(|v: Vec<u8>| v@),
            named@.map_values(|v: Vec<u8>| v@) == keep_named(all.take(k as int)),
        decreases pieces@.len() - k,
    {
        proof {
            assert(all.take(k + 1).drop_last() =~= all.take(k as int));
            assert(all.take(k + 1).last() == pieces@[k as int]@);
        }
        let piece = &pieces[k];
        let is_dot = piece.len() == 1 && piece[0] == 46u8;
        proof {
            if piece@.len() == 1 {
                assert(is_dot <==> piece@ =~= seq![46u8]);
            } else {
                assert(piece@ != seq![46u8]);
            }
        }
        if piece.len() != 0 && !is_dot {
            let ghost before = named@.map_values(|v: Vec<u8>| v@);
            named.push(piece.clone());
            proof {
                assert(named@.map_values(|v: Vec<u8>| v@) =~= before.push(piece@));
            }
        }
        k += 1;
    }
    proof {
        assert(all.take(pieces@.len() as int) =~= all);
    }
    named
}

pub(crate) fn bytes_equal(a: &[u8], b: &[u8]) -> (r: bool)
    ensures
        r == (a@ == b@),
{
    if a.len() != b.len() {
        return false;
    }
    let mut i: usize = 0;
    while i < a.len()
        invariant
            i <= a@.len(),
            a@.len() == b@.len(),
            forall|j: int| 0 <= j < i ==> a@[j] == b@[j],
        decreases a@.len() - i,
    {
        if a[i] != b[i] {
            return false;
        }
        i += 1;
    }
    assert(a@ =~= b@);
    true
}

/// True when the argument names a `.rs` file.
fn names_rust_file(b: &[u8]) -> (r: bool)
    ensures
        r == rust_file(b@),
{
    let segments = named_segments_of(b);
    let ghost views = segments@.map_values(|v: Vec<u8>| v@);
    if segments.len() == 0 {
        return false;
    }
    let last = &segments[segments.len() - 1];
    assert(views.last() == last@);
    if last.len() == 2 && last[0] == 46u8 && last[1] == 46u8 {
        assert(last@ =~= seq![46u8, 46u8]);
        return false;
    }
    if last.len() <= 3 {
        return false;
    }
    let n = last.len();
    let ends = last[n - 3] == 46u8 && last[n - 2] == 114u8 && last[n - 1] == 115u8;
    proof {
        if last@.len() == 2 {
            assert(last@ != seq![46u8, 46u8]);
        }
        assert(ends <==> last@.skip(n - 3) =~= seq![46u8, 114u8, 115u8]);
    }
    ends
}

/// True when `output` is an absolute directory inside `target` without a
/// `..` segment.
fn output_directory_check(output: &[u8], target: &[u8]) -> (r: bool)
    ensures
        r == output_directory_ok(output@, target@),
{
    if output.len() == 0 || output[0] != 47u8 {
        return false;
    }
    let segments = named_segments_of(output);
    let ghost views = segments@.map_values(|v: Vec<u8>| v@);
    let mut k: usize = 0;
    while k < segments.len()
        invariant
            k <= segments@.len(),
            views == segments@.map_values(|v: Vec<u8>| v@),
            views == named_segments(output@),
            forall|j: int| 0 <= j < k ==> views[j] != seq![46u8, 46u8],
        decreases segments@.len() - k,
    {
        let s = &segments[k];
        if s.len() == 2 && s[0] == 46u8 && s[1] == 46u8 {
            proof {
                assert(views[k as int] =~= seq![46u8, 46u8]);
                assert(named_segments(output@)[k as int] == seq![46u8, 46u8]);
            }
            return false;
        }
        proof {
            if s@.len() == 2 {
                assert(s@ != seq![46u8, 46u8]);
            }
        }
        k += 1;
    }
    if target.len() == 0 {
        return true;
    }
    if target[0] != 47u8 {
        return false;
    }
    let base = named_segments_of(target);
    let ghost base_views = base@.map_values(|v: Vec<u8>| v@);
    if base.len() > segments.len() {
        return false;
    }
    let mut m: usize = 0;
    while m < base.len()
        invariant
            m <= base@.len() <= segments@.len(),
            views == segments@.map_values(|v: Vec<u8>| v@),
            views == named_segments(output@),
            base_views == named_segments(target@),
            target@.len() > 0,
            base_views == base@.map_values(|v: Vec<u8>| v@),
            forall|j: int| 0 <= j < m ==> views[j] == base_views[j],
        decreases base@.len() - m,
    {
        if !bytes_equal(base[m].as_slice(), segments[m].as_slice()) {
            proof {
                assert(views[m as int] == segments@[m as int]@);
                assert(base_views[m as int] == base@[m as int]@);
                assert(views.take(base_views.len() as int)[m as int] != base_views[m as int]);
            }
            return false;
        }
        m += 1;
    }
    assert(views.take(base_views.len() as int) =~= base_views);
    true
}

/// Counts and checks the argument list: at most 4096 arguments of at most
/// 64 KiB in all.
pub fn collect_probe_arguments(incoming: Vec<Vec<u8>>) -> (r: Result<Vec<Vec<u8>>, RustdocProbeError>)
    ensures
        r is Ok <==> incoming@.len() <= RUSTDOC_PROBE_MAX_ARGUMENT_COUNT && argument_bytes(
            incoming@.map_values(|v: Vec<u8>| v@),
        ) <= RUSTDOC_PROBE_MAX_ARGUMENT_BYTES,
        r matches Ok(v) ==> v@ == incoming@,
        r matches Err(e) ==> e == RustdocProbeError::ArgumentLimit,
{
    let ghost views = incoming@.map_values(|v: Vec<u8>| v@);
    let mut total: u64 = 0;
    let mut i: usize = 0;
    while i < incoming.len()
        invariant
            i <= incoming@.len(),
            views == incoming@.map_values(|v: Vec<u8>| v@),
            i <= RUSTDOC_PROBE_MAX_ARGUMENT_COUNT,
            total == argument_bytes(views.take(i as int)),
            total <= RUSTDOC_PROBE_MAX_ARGUMENT_BYTES,
        decreases incoming@.len() - i,
    {
        proof {
            assert(views.take(i + 1).drop_last() =~= views.take(i as int));
            assert(views.take(i + 1).last() == incoming@[i as int]@);
        }
        if i >= RUSTDOC_PROBE_MAX_ARGUMENT_COUNT {
            return Err(RustdocProbeError::ArgumentLimit);
        }
        let length = incoming[i].len() as u64;
        if length > RUSTDOC_PROBE_MAX_ARGUMENT_BYTES - total {
            proof {
                lemma_argument_bytes_monotone(views, i + 1);
            }
            return Err(RustdocProbeError::ArgumentLimit);
        }
        total = total + length;
        i += 1;
    }
    proof {
        assert(views.take(incoming@.len() as int) =~= views);
    }
    Ok(incoming)
}


/// What the arguments contribute, counted so far.
pub struct ProbeTally {
    pub cfgs: Seq<(Seq<char>, bool)>,
    pub names: Seq<Seq<char>>,
    pub types: Seq<Seq<char>>,
    pub dirs: Seq<Seq<u8>>,
    pub sources: int,
    pub unstable: int,
    pub json: int,
    pub hidden: int,
    pub private: int,
}

/// Adds one argument's contribution to a tally.
pub open spec fn add_effect(t: ProbeTally, e: ProbeEffect, names_source: bool) -> ProbeTally {
    let t = ProbeTally { sources: if names_source { t.sources + 1 } else { t.sources }, ..t };
    match e {
        ProbeEffect::Nothing => t,
        ProbeEffect::Cfg(v, checked) => ProbeTally { cfgs: t.cfgs.push((v, checked)), ..t },
        ProbeEffect::CrateName(v) => ProbeTally { names: t.names.push(v), ..t },
        ProbeEffect::CrateType(v) => ProbeTally { types: t.types.push(v), ..t },
        ProbeEffect::OutputDirectory(d) => ProbeTally { dirs: t.dirs.push(d), ..t },
        ProbeEffect::UnstableOptions => ProbeTally { unstable: t.unstable + 1, ..t },
        ProbeEffect::JsonOutput => ProbeTally { json: t.json + 1, ..t },
        ProbeEffect::HiddenItems => ProbeTally { hidden: t.hidden + 1, ..t },
        ProbeEffect::PrivateItems => ProbeTally { private: t.private + 1, ..t },
    }
}

/// The tally of the first `n` arguments, all of which were accepted;
/// `names_source[i]` tells whether argument `i` resolves to the probed
/// source file.
pub open spec fn tally(args: Seq<Seq<u8>>, names_source: Seq<bool>, n: int) -> ProbeTally
    decreases n,
{
    if n <= 0 {
        ProbeTally {
            cfgs: seq![],
            names: seq![],
            types: seq![],
            dirs: seq![],
            sources: 0,
            unstable: 0,
            json: 0,
            hidden: 0,
            private: 0,
        }
    } else {
        add_effect(
            tally(args, names_source, n - 1),
            match probe_effect(args, n - 1) {
                Ok(e) => e,
                Err(_) => ProbeEffect::Nothing,
            },
            rust_file(args[n - 1]) && names_source[n - 1],
        )
    }
}

/// The invocation is the expected rustdoc JSON run of the probed crate.
pub open spec fn expected_invocation(
    t: ProbeTally,
    crate_name: Seq<char>,
    crate_types: Seq<Seq<char>>,
    target: Seq<u8>,
) -> bool {
    &&& t.names.len() == 1
    &&& t.names[0] == crate_name
    &&& t.types.len() == 1
    &&& crate_types.contains(t.types[0])
    &&& t.sources == 1
    &&& t.dirs.len() == 1
    &&& output_directory_ok(t.dirs[0], target)
    &&& t.unstable == 1
    &&& t.json == 1
    &&& t.hidden == 1
    &&& t.private == (if t.types[0] == "bin"@ { 1int } else { 0int })
}

/// The first rejected argument is `k`.
pub open spec fn first_rejected(args: Seq<Seq<u8>>, k: int) -> bool {
    &&& 0 <= k < args.len()
    &&& probe_effect(args, k) is Err
    &&& forall|i: int| 0 <= i < k ==> #[trigger] probe_effect(args, i) is Ok
}

/// Argument `k` is rejected, and `e` reports why.
pub open spec fn rejected_with(args: Seq<Seq<u8>>, k: int, e: RustdocProbeError) -> bool {
    match probe_effect(args, k) {
        Err(rejection) => probe_error_is(e, rejection),
        Ok(_) => false,
    }
}

/// One argument's contribution, in executable form.
pub enum ArgumentEffect {
    Nothing,
    Cfg(String, bool),
    CrateName(String),
    CrateType(String),
    OutputDirectory(Vec<u8>),
    UnstableOptions,
    JsonOutput,
    HiddenItems,
    PrivateItems,
}

pub open spec fn effect_view(e: ArgumentEffect) -> ProbeEffect {
    match e {
        ArgumentEffect::Nothing => ProbeEffect::Nothing,
        ArgumentEffect::Cfg(v, c) => ProbeEffect::Cfg(v@, c),
        ArgumentEffect::CrateName(v) => ProbeEffect::CrateName(v@),
        ArgumentEffect::CrateType(v) => ProbeEffect::CrateType(v@),
        ArgumentEffect::OutputDirectory(d) => ProbeEffect::OutputDirectory(d@),
        ArgumentEffect::UnstableOptions => ProbeEffect::UnstableOptions,
        ArgumentEffect::JsonOutput => ProbeEffect::JsonOutput,
        ArgumentEffect::HiddenItems => ProbeEffect::HiddenItems,
        ArgumentEffect::PrivateItems => ProbeEffect::PrivateItems,
    }
}

pub open spec fn byte_views(v: Seq<Vec<u8>>) -> Seq<Seq<u8>> {
    v.map_values(|b: Vec<u8>| b@)
}

fn literal(text: &Vec<char>, lit: &str) -> (r: bool)
    ensures
        r == (text@ == lit@),
{
    crate::text::chars_equal(text.as_slice(), chars_of(lit).as_slice())
}

fn prefixed(text: &Vec<char>, prefix: &str) -> (r: bool)
    ensures
        r == has_prefix(text@, prefix@),
{
    crate::compiler::extractor::starts_with_chars(text.as_slice(), chars_of(prefix).as_slice())
}

/// The UTF-8 value that follows option `i`.
fn option_text(args: &Vec<Vec<u8>>, i: usize, option: &'static str) -> (r: Result<String, RustdocProbeError>)
    requires
        i < args@.len(),
    ensures
        match text_value(byte_views(args@), i as int, option@) {
            Ok(v) => r matches Ok(s) && s@ == v,
            Err(rejection) => r matches Err(e) && probe_error_is(e, rejection),
        },
{
    if i >= args.len() - 1 {
        return Err(RustdocProbeError::MissingOptionValue { option });
    }
    assert(byte_views(args@)[i + 1] == args@[i + 1]@);
    match utf8_text(args[i + 1].as_slice()) {
        Some(chars) => Ok(string_from_chars(chars.as_slice())),
        None => Err(RustdocProbeError::NonUtf8Option { option }),
    }
}

fn rest_string(text: &Vec<char>, from: usize) -> (s: String)
    requires
        from <= text@.len(),
    ensures
        s@ == text@.skip(from as int),
{
    let rest = crate::compiler::extractor::copy_range(text.as_slice(), from, text.len());
    assert(rest@ =~= text@.skip(from as int));
    string_from_chars(rest.as_slice())
}

/// The contribution of argument `i`.
fn argument_effect(args: &Vec<Vec<u8>>, i: usize) -> (r: Result<ArgumentEffect, RustdocProbeError>)
    requires
        i < args@.len(),
    ensures
        match probe_effect(byte_views(args@), i as int) {
            Ok(e) => r matches Ok(a) && effect_view(a) == e,
            Err(rejection) => r matches Err(e) && probe_error_is(e, rejection),
        },
{
    let ghost views = byte_views(args@);
    assert(views[i as int] == args@[i as int]@);
    let text = match utf8_text(args[i].as_slice()) {
        Some(text) => text,
        None => return Ok(ArgumentEffect::Nothing),
    };
    if literal(&text, "--cfg") {
        let v = option_text(args, i, "--cfg")?;
        return Ok(ArgumentEffect::Cfg(v, false));
    }
    if literal(&text, "--crate-name") {
        let v = option_text(args, i, "--crate-name")?;
        return Ok(ArgumentEffect::CrateName(v));
    }
    if literal(&text, "--crate-type") {
        let v = option_text(args, i, "--crate-type")?;
        return Ok(ArgumentEffect::CrateType(v));
    }
    let short_output = literal(&text, "-o");
    if short_output || literal(&text, "--out-dir") {
        if i >= args.len() - 1 {
            let option: &'static str = if short_output { "-o" } else { "--out-dir" };
            return Err(RustdocProbeError::MissingOptionValue { option });
        }
        assert(views[i + 1] == args@[i + 1]@);
        return Ok(ArgumentEffect::OutputDirectory(args[i + 1].clone()));
    }
    if literal(&text, "-Z") {
        let v = option_text(args, i, "-Z")?;
        let value = chars_of(v.as_str());
        return Ok(if literal(&value, "unstable-options") { ArgumentEffect::UnstableOptions } else { ArgumentEffect::Nothing });
    }
    if literal(&text, "--output-format") {
        let v = option_text(args, i, "--output-format")?;
        let value = chars_of(v.as_str());
        return Ok(if literal(&value, "json") { ArgumentEffect::JsonOutput } else { ArgumentEffect::Nothing });
    }
    if literal(&text, "--document-hidden-items") {
        return Ok(ArgumentEffect::HiddenItems);
    }
    if literal(&text, "--document-private-items") {
        return Ok(ArgumentEffect::PrivateItems);
    }
    if prefixed(&text, "--cfg=") {
        proof {
            reveal_strlit("--cfg=");
        }
        let v = rest_string(&text, 6);
        return match CompilerConfiguration::validated_value(v.as_str()) {
            Ok(valid) => Ok(ArgumentEffect::Cfg(valid, true)),
            Err(_) => Err(RustdocProbeError::InvalidCfgValue),
        };
    }
    if prefixed(&text, "--crate-name=") {
        proof {
            reveal_strlit("--crate-name=");
        }
        return Ok(ArgumentEffect::CrateName(rest_string(&text, 13)));
    }
    if prefixed(&text, "--crate-type=") {
        proof {
            reveal_strlit("--crate-type=");
        }
        return Ok(ArgumentEffect::CrateType(rest_string(&text, 13)));
    }
    if prefixed(&text, "--out-dir=") {
        proof {
            reveal_strlit("--out-dir=");
        }
        let v = rest_string(&text, 10);
        let bytes = vstd::slice::slice_to_vec(v.as_str().as_bytes());
        return Ok(ArgumentEffect::OutputDirectory(bytes));
    }
    if literal(&text, "-Zunstable-options") {
        return Ok(ArgumentEffect::UnstableOptions);
    }
    if literal(&text, "--output-format=json") {
        return Ok(ArgumentEffect::JsonOutput);
    }
    Ok(ArgumentEffect::Nothing)
}


/// The probe of one Cargo-launched rustdoc run: what it expects of the
/// invocation.
pub struct RustdocProbe {
    pub token: String,
    pub crate_name: String,
    pub target_directory: Vec<u8>,
    pub crate_types: Vec<String>,
}

/// The tally in executable form.
struct Tally {
    cfgs: Vec<String>,
    checked: Vec<bool>,
    names: Vec<String>,
    types: Vec<String>,
    dirs: Vec<Vec<u8>>,
    sources: usize,
    unstable: usize,
    json: usize,
    hidden: usize,
    private: usize,
}

spec fn tally_view(t: Tally) -> ProbeTally {
    ProbeTally {
        cfgs: Seq::new(t.cfgs@.len(), |i: int| (t.cfgs@[i]@, t.checked@[i])),
        names: string_views(t.names@),
        types: string_views(t.types@),
        dirs: byte_views(t.dirs@),
        sources: t.sources as int,
        unstable: t.unstable as int,
        json: t.json as int,
        hidden: t.hidden as int,
        private: t.private as int,
    }
}

spec fn tally_wf(t: Tally, n: int) -> bool {
    &&& t.cfgs@.len() == t.checked@.len()
    &&& t.sources <= n
    &&& t.unstable <= n
    &&& t.json <= n
    &&& t.hidden <= n
    &&& t.private <= n
}

pub(crate) fn contains_string(list: &Vec<String>, value: &String) -> (r: bool)
    ensures
        r == string_views(list@).contains(value@),
{
    let target = chars_of(value.as_str());
    let mut i: usize = 0;
    while i < list.len()
        invariant
            i <= list@.len(),
            target@ == value@,
            forall|j: int| 0 <= j < i ==> list@[j]@ != value@,
        decreases list@.len() - i,
    {
        if crate::text::chars_equal(chars_of(list[i].as_str()).as_slice(), target.as_slice()) {
            assert(string_views(list@)[i as int] == value@);
            return true;
        }
        i += 1;
    }
    proof {
        if string_views(list@).contains(value@) {
            let j = choose|j: int| 0 <= j < string_views(list@).len() && string_views(list@)[j] == value@;
            assert(string_views(list@)[j] == list@[j]@);
        }
    }
    false
}

impl RustdocProbe {
    /// Analyses one rustdoc invocation: it must be the JSON documentation
    /// run of the probed crate, once, into the target directory; the result
    /// is the sorted, duplicate-free set of its cfg values.
    /// `names_source[i]` tells whether argument `i` resolves to the probed
    /// source file.
    pub fn record(&self, arguments: &Vec<Vec<u8>>, names_source: &Vec<bool>) -> (r: Result<ProbeRecord, RustdocProbeError>)
        requires
            names_source@.len() == arguments@.len(),
        ensures
            ({
                let args = byte_views(arguments@);
                let t = tally(args, names_source@, args.len() as int);
                &&& (exists|k: int| first_rejected(args, k)) ==> (r matches Err(e) && exists|k: int|
                    first_rejected(args, k) && rejected_with(args, k, e))
                &&& (forall|i: int| 0 <= i < args.len() ==> #[trigger] probe_effect(args, i) is Ok) ==> {
                    &&& !expected_invocation(t, self.crate_name@, string_views(self.crate_types@), self.target_directory@)
                        ==> r == Err::<ProbeRecord, RustdocProbeError>(RustdocProbeError::UnexpectedInvocation)
                    &&& expected_invocation(t, self.crate_name@, string_views(self.crate_types@), self.target_directory@)
                        ==> {
                        &&& (exists|c: int| 0 <= c < t.cfgs.len() && !config_value_ok(#[trigger] t.cfgs[c].0)) ==> r
                            == Err::<ProbeRecord, RustdocProbeError>(RustdocProbeError::InvalidCfgValue)
                        &&& (forall|c: int| 0 <= c < t.cfgs.len() ==> config_value_ok(#[trigger] t.cfgs[c].0)) ==> (r matches Ok(
                            record,
                        ) && record.token@ == self.token@ && record.exit_code == RUSTDOC_PROBE_EXIT_CODE
                            && record.rejection is None && strictly_sorted(string_views(record.cfg_values@))
                            && forall|x: Seq<char>|
                            string_views(record.cfg_values@).contains(x) <==> exists|c: int|
                                0 <= c < t.cfgs.len() && (#[trigger] t.cfgs[c]).0 == x)
                    }
                }
            }),
    {
        let ghost args = byte_views(arguments@);
        let mut t = Tally {
            cfgs: Vec::new(),
            checked: Vec::new(),
            names: Vec::new(),
            types: Vec::new(),
            dirs: Vec::new(),
            sources: 0,
            unstable: 0,
            json: 0,
            hidden: 0,
            private: 0,
        };
        proof {
            let empty = tally(args, names_source@, 0);
            assert(tally_view(t).cfgs =~= empty.cfgs);
            assert(tally_view(t).names =~= empty.names);
            assert(tally_view(t).types =~= empty.types);
            assert(tally_view(t).dirs =~= empty.dirs);
        }
        let mut i: usize = 0;
        while i < arguments.len()
            invariant
                i <= arguments@.len(),
                names_source@.len() == arguments@.len(),
                args == byte_views(arguments@),
                tally_wf(t, i as int),
                tally_view(t) == tally(args, names_source@, i as int),
                forall|j: int| 0 <= j < i ==> #[trigger] probe_effect(args, j) is Ok,
                forall|c: int| 0 <= c < t.cfgs@.len() && t.checked@[c] ==> config_value_ok(#[trigger] t.cfgs@[c]@),
            decreases arguments@.len() - i,
        {
            let names = names_source[i] && names_rust_file(arguments[i].as_slice());
            proof {
                assert(args[i as int] == arguments@[i as int]@);
            }
            let effect = match argument_effect(arguments, i) {
                Ok(effect) => effect,
                Err(e) => {
                    proof {
                        assert(first_rejected(args, i as int));
                    }
                    return Err(e);
                },
            };
            let ghost before = tally_view(t);
            let ghost seen = effect_view(effect);
            if names {
                t.sources = t.sources + 1;
            }
            match effect {
                ArgumentEffect::Nothing => {},
                ArgumentEffect::Cfg(v, checked) => {
                    t.cfgs.push(v);
                    t.checked.push(checked);
                },
                ArgumentEffect::CrateName(v) => {
                    t.names.push(v);
                },
                ArgumentEffect::CrateType(v) => {
                    t.types.push(v);
                },
                ArgumentEffect::OutputDirectory(d) => {
                    t.dirs.push(d);
                },
                ArgumentEffect::UnstableOptions => {
                    t.unstable = t.unstable + 1;
                },
                ArgumentEffect::JsonOutput => {
                    t.json = t.json + 1;
                },
                ArgumentEffect::HiddenItems => {
                    t.hidden = t.hidden + 1;
                },
                ArgumentEffect::PrivateItems => {
                    t.private = t.private + 1;
                },
            }
            proof {
                let expected = add_effect(before, seen, rust_file(args[i as int]) && names_source@[i as int]);
                assert(tally_view(t).cfgs =~= expected.cfgs);
                assert(tally_view(t).names =~= expected.names);
                assert(tally_view(t).types =~= expected.types);
                assert(tally_view(t).dirs =~= expected.dirs);
                assert(tally_view(t) == expected);
            }
            i += 1;
        }
        let ghost final_tally = tally_view(t);
        let ghost expected = expected_invocation(
            final_tally,
            self.crate_name@,
            string_views(self.crate_types@),
            self.target_directory@,
        );
        if t.names.len() != 1 || !crate::text::chars_equal(
            chars_of(t.names[0].as_str()).as_slice(),
            chars_of(self.crate_name.as_str()).as_slice(),
        ) || t.types.len() != 1 || !contains_string(&self.crate_types, &t.types[0]) || t.sources != 1 || t.dirs.len()
            != 1 || !output_directory_check(t.dirs[0].as_slice(), self.target_directory.as_slice()) || t.unstable != 1
            || t.json != 1 || t.hidden != 1 || t.private != (if literal(&chars_of(t.types[0].as_str()), "bin") {
            1
        } else {
            0
        }) {
            proof {
                if expected {
                    assert(final_tally.names[0] == t.names@[0]@);
                    assert(final_tally.types[0] == t.types@[0]@);
                    assert(final_tally.dirs[0] == t.dirs@[0]@);
                }
            }
            return Err(RustdocProbeError::UnexpectedInvocation);
        }
        proof {
            assert(final_tally.names[0] == t.names@[0]@);
            assert(final_tally.types[0] == t.types@[0]@);
            assert(final_tally.dirs[0] == t.dirs@[0]@);
            assert(expected);
        }
        let mut values: Vec<String> = Vec::new();
        let mut c: usize = 0;
        while c < t.cfgs.len()
            invariant
                c <= t.cfgs@.len(),
                t.cfgs@.len() == t.checked@.len(),
                final_tally == tally_view(t),
                args == byte_views(arguments@),
                final_tally == tally(args, names_source@, args.len() as int),
                forall|j: int| 0 <= j < args.len() ==> #[trigger] probe_effect(args, j) is Ok,
                expected,
                expected == expected_invocation(
                    final_tally,
                    self.crate_name@,
                    string_views(self.crate_types@),
                    self.target_directory@,
                ),
                forall|k: int| 0 <= k < t.cfgs@.len() && t.checked@[k] ==> config_value_ok(#[trigger] t.cfgs@[k]@),
                forall|k: int| 0 <= k < c ==> config_value_ok(#[trigger] final_tally.cfgs[k].0),
                strictly_sorted(string_views(values@)),
                forall|x: Seq<char>|
                    string_views(values@).contains(x) <==> exists|k: int| 0 <= k < c && (#[trigger] final_tally.cfgs[k]).0 == x,
            decreases t.cfgs@.len() - c,
        {
            assert(final_tally.cfgs[c as int] == (t.cfgs@[c as int]@, t.checked@[c as int]));
            let value = if t.checked[c] {
                t.cfgs[c].clone()
            } else {
                match CompilerConfiguration::validated_value(t.cfgs[c].as_str()) {
                    Ok(valid) => valid,
                    Err(_) => {
                        proof {
                            assert(!config_value_ok(final_tally.cfgs[c as int].0));
                        }
                        return Err(RustdocProbeError::InvalidCfgValue);
                    },
                }
            };
            insert_sorted(&mut values, value);
            proof {
                assert forall|x: Seq<char>| string_views(values@).contains(x) <==> exists|k: int|
                    0 <= k < c + 1 && (#[trigger] final_tally.cfgs[k]).0 == x by {
                    if x == final_tally.cfgs[c as int].0 {
                        assert(final_tally.cfgs[c as int].0 == x);
                    }
                }
            }
            c += 1;
        }
        Ok(ProbeRecord { token: self.token.clone(), exit_code: RUSTDOC_PROBE_EXIT_CODE, cfg_values: values, rejection: None })
    }
}


/// A 64-digit lowercase hexadecimal session token.
pub open spec fn token_ok(token: Seq<char>) -> bool {
    token.len() == 64 && forall|i: int| 0 <= i < 64 ==> crate::ownership::lower_hex(#[trigger] token[i])
}

/// A crate name: ASCII letters, digits and underscores, at least one.
pub open spec fn crate_name_ok(name: Seq<char>) -> bool {
    name.len() > 0 && forall|i: int|
        0 <= i < name.len() ==> {
            let c = #[trigger] name[i];
            ('0' <= c && c <= '9') || ('a' <= c && c <= 'z') || ('A' <= c && c <= 'Z') || c == '_'
        }
}

/// A crate type rustdoc documents.
pub open spec fn crate_type_ok(t: Seq<char>) -> bool {
    ||| t == "bin"@
    ||| t == "lib"@
    ||| t == "rlib"@
    ||| t == "dylib"@
    ||| t == "cdylib"@
    ||| t == "staticlib"@
    ||| t == "proc-macro"@
}

/// Law: every crate type Cargo hands rustdoc is accepted: bin, lib, rlib,
/// dylib, cdylib, staticlib and proc-macro.
pub proof fn lemma_cargo_crate_types_accepted()
    ensures
        crate_type_ok("bin"@),
        crate_type_ok("lib"@),
        crate_type_ok("rlib"@),
        crate_type_ok("dylib"@),
        crate_type_ok("cdylib"@),
        crate_type_ok("staticlib"@),
        crate_type_ok("proc-macro"@),
{
}

/// The capture file of the session: `.conkit-rustdoc-probe-TOKEN.json`
/// directly in the target directory, whose name starts with
/// `conkit-rustdoc-`.
pub open spec fn capture_path_ok(capture: Seq<u8>, target: Seq<u8>, token: Seq<char>) -> bool {
    let c = named_segments(capture);
    let t = named_segments(target);
    &&& c.len() > 0
    &&& c.last() == encode_utf8(".conkit-rustdoc-probe-"@ + token + ".json"@)
    &&& absolute_path(capture) == absolute_path(target)
    &&& c.drop_last() == t
    &&& t.len() > 0
    &&& t.last() != seq![46u8, 46u8]
    &&& valid_utf8(t.last())
    &&& has_prefix(decode_utf8(t.last()), "conkit-rustdoc-"@)
}

fn all_ascii_word(name: &Vec<char>) -> (r: bool)
    ensures
        r == crate_name_ok(name@),
{
    if name.len() == 0 {
        return false;
    }
    let mut i: usize = 0;
    while i < name.len()
        invariant
            i <= name@.len(),
            forall|j: int|
                0 <= j < i ==> {
                    let c = #[trigger] name@[j];
                    ('0' <= c && c <= '9') || ('a' <= c && c <= 'z') || ('A' <= c && c <= 'Z') || c == '_'
                },
        decreases name@.len() - i,
    {
        let c = name[i];
        if !(('0' <= c && c <= '9') || ('a' <= c && c <= 'z') || ('A' <= c && c <= 'Z') || c == '_') {
            return false;
        }
        i += 1;
    }
    true
}

fn known_crate_type(t: &String) -> (r: bool)
    ensures
        r == crate_type_ok(t@),
{
    let chars = chars_of(t.as_str());
    literal(&chars, "bin") || literal(&chars, "lib") || literal(&chars, "rlib") || literal(&chars, "dylib")
        || literal(&chars, "cdylib") || literal(&chars, "staticlib") || literal(&chars, "proc-macro")
}

fn capture_path_check(capture: &[u8], target: &[u8], token: &String) -> (r: bool)
    ensures
        r == capture_path_ok(capture@, target@, token@),
{
    let c = named_segments_of(capture);
    let t = named_segments_of(target);
    let ghost cv = c@.map_values(|v: Vec<u8>| v@);
    let ghost tv = t@.map_values(|v: Vec<u8>| v@);
    if c.len() == 0 || t.len() == 0 {
        return false;
    }
    let mut expected = String::new();
    crate::text::push_str(&mut expected, ".conkit-rustdoc-probe-");
    crate::text::push_str(&mut expected, token.as_str());
    crate::text::push_str(&mut expected, ".json");
    let expected_bytes = expected.as_str().as_bytes();
    assert(cv.last() == c@[c@.len() - 1]@);
    if !bytes_equal(c[c.len() - 1].as_slice(), expected_bytes) {
        return false;
    }
    let capture_absolute = capture.len() > 0 && capture[0] == 47u8;
    let target_absolute = target.len() > 0 && target[0] == 47u8;
    if capture_absolute != target_absolute || c.len() - 1 != t.len() {
        return false;
    }
    let mut k: usize = 0;
    while k < t.len()
        invariant
            k <= t@.len(),
            t@.len() + 1 == c@.len(),
            cv == c@.map_values(|v: Vec<u8>| v@),
            tv == t@.map_values(|v: Vec<u8>| v@),
            cv == named_segments(capture@),
            tv == named_segments(target@),
            forall|j: int| 0 <= j < k ==> cv[j] == tv[j],
        decreases t@.len() - k,
    {
        if !bytes_equal(c[k].as_slice(), t[k].as_slice()) {
            proof {
                assert(cv[k as int] == c@[k as int]@);
                assert(tv[k as int] == t@[k as int]@);
                assert(cv.drop_last()[k as int] != tv[k as int]);
            }
            return false;
        }
        k += 1;
    }
    assert(cv.drop_last() =~= tv);
    let last = &t[t.len() - 1];
    assert(tv.last() == last@);
    if last.len() == 2 && last[0] == 46u8 && last[1] == 46u8 {
        assert(last@ =~= seq![46u8, 46u8]);
        return false;
    }
    proof {
        if last@.len() == 2 {
            assert(last@ != seq![46u8, 46u8]);
        }
    }
    match utf8_text(last.as_slice()) {
        Some(name) => prefixed(&name, "conkit-rustdoc-"),
        None => false,
    }
}

impl RustdocProbe {
    /// Validates the environment of a probe that Cargo launched: the token,
    /// crate name and crate types (kept sorted and distinct), absolute
    /// source and target paths, and a fresh capture path of the session.
    /// `capture_exists` tells whether something already exists there.
    pub fn child(
        capture_path: Vec<u8>,
        token: String,
        crate_name: String,
        source_path: Vec<u8>,
        target_directory: Vec<u8>,
        crate_types: Vec<String>,
        capture_exists: bool,
    ) -> (r: Result<Self, RustdocProbeError>)
        ensures
            !token_ok(token@) ==> r == Err::<Self, RustdocProbeError>(RustdocProbeError::InvalidToken),
            token_ok(token@) && !crate_name_ok(crate_name@) ==> r == Err::<Self, RustdocProbeError>(
                RustdocProbeError::InvalidCrateName,
            ),
            token_ok(token@) && crate_name_ok(crate_name@) ==> {
                let types = string_views(crate_types@);
                let valid_types = types.len() > 0 && forall|i: int| 0 <= i < types.len() ==> crate_type_ok(#[trigger] types[i]);
                let absolute = absolute_path(source_path@) && absolute_path(target_directory@);
                let capture_ok = capture_path_ok(capture_path@, target_directory@, token@) && !capture_exists;
                &&& !valid_types ==> r == Err::<Self, RustdocProbeError>(RustdocProbeError::InvalidCrateType)
                &&& valid_types && !absolute ==> r == Err::<Self, RustdocProbeError>(RustdocProbeError::RelativeBoundaryPath)
                &&& valid_types && absolute && !capture_ok ==> r == Err::<Self, RustdocProbeError>(
                    RustdocProbeError::InvalidCapturePath,
                )
                &&& valid_types && absolute && capture_ok ==> (r matches Ok(probe) && probe.token@ == token@
                    && probe.crate_name@ == crate_name@ && probe.target_directory@ == target_directory@
                    && strictly_sorted(string_views(probe.crate_types@)) && forall|x: Seq<char>|
                    string_views(probe.crate_types@).contains(x) <==> types.contains(x))
            },
            token_ok(token@) && crate_name_ok(crate_name@) && crate_types@.len() > 0 && (forall|i: int|
                0 <= i < crate_types@.len() ==> {
                    let t = (#[trigger] crate_types@[i])@;
                    ||| t == "bin"@
                    ||| t == "lib"@
                    ||| t == "rlib"@
                    ||| t == "dylib"@
                    ||| t == "cdylib"@
                    ||| t == "staticlib"@
                    ||| t == "proc-macro"@
                }) && absolute_path(source_path@) && absolute_path(target_directory@) && capture_path_ok(
                capture_path@,
                target_directory@,
                token@,
            ) && !capture_exists ==> r is Ok,
    {
        let token_chars = chars_of(token.as_str());
        let mut valid_token = token_chars.len() == 64;
        let mut i: usize = 0;
        while valid_token && i < token_chars.len()
            invariant
                i <= token_chars@.len(),
                token_chars@ == token@,
                valid_token ==> token_chars@.len() == 64,
                valid_token ==> forall|j: int| 0 <= j < i ==> crate::ownership::lower_hex(#[trigger] token_chars@[j]),
                !valid_token ==> !token_ok(token@),
            decreases token_chars@.len() - i,
        {
            let c = token_chars[i];
            if !(('0' <= c && c <= '9') || ('a' <= c && c <= 'f')) {
                valid_token = false;
            }
            i += 1;
        }
        if !valid_token {
            return Err(RustdocProbeError::InvalidToken);
        }
        if !all_ascii_word(&chars_of(crate_name.as_str())) {
            return Err(RustdocProbeError::InvalidCrateName);
        }
        let ghost types = string_views(crate_types@);
        let mut sorted: Vec<String> = Vec::new();
        let mut valid_types = true;
        let mut k: usize = 0;
        while k < crate_types.len()
            invariant
                k <= crate_types@.len(),
                types == string_views(crate_types@),
                strictly_sorted(string_views(sorted@)),
                forall|x: Seq<char>|
                    string_views(sorted@).contains(x) <==> exists|j: int| 0 <= j < k && types[j] == x,
                valid_types == forall|j: int| 0 <= j < k ==> crate_type_ok(#[trigger] types[j]),
            decreases crate_types@.len() - k,
        {
            assert(types[k as int] == crate_types@[k as int]@);
            if !known_crate_type(&crate_types[k]) {
                valid_types = false;
            }
            insert_sorted(&mut sorted, crate_types[k].clone());
            proof {
                assert forall|x: Seq<char>| string_views(sorted@).contains(x) <==> exists|j: int|
                    0 <= j < k + 1 && types[j] == x by {
                    if x == types[k as int] {
                        assert(types[k as int] == x);
                    }
                }
            }
            k += 1;
        }
        proof {
            assert forall|x: Seq<char>| string_views(sorted@).contains(x) <==> types.contains(x) by {
                if types.contains(x) {
                    let j = choose|j: int| 0 <= j < types.len() && types[j] == x;
                    assert(types[j] == x);
                }
            }
        }
        if crate_types.len() == 0 || !valid_types {
            return Err(RustdocProbeError::InvalidCrateType);
        }
        let source_absolute = source_path.len() > 0 && source_path[0] == 47u8;
        let target_absolute = target_directory.len() > 0 && target_directory[0] == 47u8;
        if !source_absolute || !target_absolute {
            return Err(RustdocProbeError::RelativeBoundaryPath);
        }
        if !capture_path_check(capture_path.as_slice(), target_directory.as_slice(), &token) || capture_exists {
            return Err(RustdocProbeError::InvalidCapturePath);
        }
        Ok(RustdocProbe { token, crate_name, target_directory, crate_types: sorted })
    }
}


/// The environment variable naming the capture path.
pub const RUSTDOC_PROBE_PATH_ENV: &'static str = "CONKIT_INTERNAL_RUSTDOC_PROBE_PATH";

/// The environment variable carrying the session token.
pub const RUSTDOC_PROBE_TOKEN_ENV: &'static str = "CONKIT_INTERNAL_RUSTDOC_PROBE_TOKEN";

/// The environment variable naming the probed crate.
pub const RUSTDOC_PROBE_CRATE_ENV: &'static str = "CONKIT_INTERNAL_RUSTDOC_PROBE_CRATE";

/// The environment variable naming the probed source file.
pub const RUSTDOC_PROBE_SOURCE_ENV: &'static str = "CONKIT_INTERNAL_RUSTDOC_PROBE_SOURCE";

/// The environment variable naming the isolated target directory.
pub const RUSTDOC_PROBE_TARGET_DIR_ENV: &'static str = "CONKIT_INTERNAL_RUSTDOC_PROBE_TARGET_DIR";

/// The environment variable listing the accepted crate types.
pub const RUSTDOC_PROBE_CRATE_TYPES_ENV: &'static str = "CONKIT_INTERNAL_RUSTDOC_PROBE_CRATE_TYPES";

/// `dir` joined with the relative `name` (`Path::join`): a separator is
/// added unless `dir` is empty or already ends with one.
pub open spec fn joined_path(dir: Seq<u8>, name: Seq<u8>) -> Seq<u8> {
    if dir.len() == 0 || dir.last() == 47u8 {
        dir + name
    } else {
        dir + seq![47u8] + name
    }
}

/// The file name of the capture of session `token`.
pub open spec fn capture_file_name(token: Seq<char>) -> Seq<u8> {
    encode_utf8(".conkit-rustdoc-probe-"@ + token + ".json"@)
}

/// A target name as a crate name: `-` becomes `_`.
pub open spec fn rust_crate_name(name: Seq<char>) -> Seq<char> {
    name.map_values(|c: char| if c == '-' {
        '_'
    } else {
        c
    })
}

/// `name` with each `-` spelled `_`.
pub(crate) fn crate_identifier(name: &str) -> (r: String)
    ensures
        r@ == rust_crate_name(name@),
{
    let chars = chars_of(name);
    let mut renamed = String::new();
    let mut i: usize = 0;
    while i < chars.len()
        invariant
            i <= chars@.len(),
            chars@ == name@,
            renamed@ == rust_crate_name(chars@.take(i as int)),
        decreases chars@.len() - i,
    {
        let c = if chars[i] == '-' {
            '_'
        } else {
            chars[i]
        };
        crate::text::push_char(&mut renamed, c);
        assert(rust_crate_name(chars@.take(i + 1)) =~= rust_crate_name(chars@.take(i as int)).push(c));
        i += 1;
    }
    assert(chars@.take(chars@.len() as int) =~= chars@);
    renamed
}

/// The parent side of the probe: what the probed rustdoc invocation is
/// told through its environment.
pub struct ProbeSession {
    pub executable: Vec<u8>,
    pub capture_path: Vec<u8>,
    pub token: String,
    pub crate_name: String,
    pub source_path: Vec<u8>,
    pub target_directory: Vec<u8>,
    pub crate_types: Vec<String>,
}

fn bytes_of(s: &str) -> (b: Vec<u8>)
    ensures
        b@ == encode_utf8(s@),
{
    vstd::slice::slice_to_vec(s.as_bytes())
}

pub(crate) fn concat_bytes(a: &Vec<u8>, b: &Vec<u8>) -> (r: Vec<u8>)
    ensures
        r@ == a@ + b@,
{
    let mut r = a.clone();
    let mut i: usize = 0;
    while i < b.len()
        invariant
            i <= b@.len(),
            r@ == a@ + b@.take(i as int),
        decreases b@.len() - i,
    {
        r.push(b[i]);
        assert(b@.take(i + 1) =~= b@.take(i as int).push(b@[i as int]));
        i += 1;
    }
    assert(b@.take(b@.len() as int) =~= b@);
    r
}

impl ProbeSession {
    /// The session for `project`: its token is the SHA-256 of the seed
    /// file's path, its capture lives in the target directory, and the
    /// crate name is the target name with `-` as `_`.
    pub fn parent(
        seed_path: &[u8],
        target_directory: Vec<u8>,
        executable: Vec<u8>,
        source_path: Vec<u8>,
        project: &crate::compiler::project::CargoProject,
    ) -> (s: Self)
        ensures
            s.token@ == crate::ownership::hex_of(crate::ownership::sha256(seed_path@)),
            s.capture_path@ == joined_path(target_directory@, capture_file_name(s.token@)),
            s.crate_name@ == rust_crate_name(project.target_name@),
            string_views(s.crate_types@) == string_views(project.crate_types@),
            s.executable@ == executable@,
            s.source_path@ == source_path@,
            s.target_directory@ == target_directory@,
    {
        let token = crate::ownership::sha256_hex(seed_path);
        let mut name = String::new();
        crate::text::push_str(&mut name, ".conkit-rustdoc-probe-");
        crate::text::push_str(&mut name, token.as_str());
        crate::text::push_str(&mut name, ".json");
        proof {
            reveal_strlit(".conkit-rustdoc-probe-");
            reveal_strlit(".json");
        }
        let name_bytes = bytes_of(name.as_str());
        let capture_path = if target_directory.len() == 0 || target_directory[target_directory.len() - 1] == 47u8 {
            concat_bytes(&target_directory, &name_bytes)
        } else {
            let mut with_separator = target_directory.clone();
            with_separator.push(47u8);
            concat_bytes(&with_separator, &name_bytes)
        };
        let renamed = crate_identifier(project.target_name.as_str());
        let mut crate_types: Vec<String> = Vec::new();
        let mut k: usize = 0;
        while k < project.crate_types.len()
            invariant
                k <= project.crate_types@.len(),
                crate_types@.len() == k,
                forall|j: int| 0 <= j < k ==> (#[trigger] crate_types@[j])@ == project.crate_types@[j]@,
            decreases project.crate_types@.len() - k,
        {
            crate_types.push(project.crate_types[k].clone());
            k += 1;
        }
        assert(string_views(crate_types@) =~= string_views(project.crate_types@));
        ProbeSession {
            executable,
            capture_path,
            token,
            crate_name: renamed,
            source_path,
            target_directory,
            crate_types,
        }
    }
}

proof fn lemma_scalar_has_no_slash(c: u32)
    requires
        c != ('/' as u32),
        is_scalar(c),
    ensures
        forall|j: int| 0 <= j < encode_scalar(c).len() ==> #[trigger] encode_scalar(c)[j] != 47u8,
{
    assert(('/' as u32) == 47);
    if has_width_1_encoding(c) {
        assert((c & 0x7F) as u8 != 47u8) by (bit_vector)
            requires
                c <= 0x7F,
                c != 47,
        ;
    } else {
        assert(forall|x: u32| #[trigger] (0xC0u8 | ((x >> 6) & 0x1F) as u8) != 47u8) by (bit_vector);
        assert(forall|x: u32| #[trigger] (0xE0u8 | ((x >> 12) & 0x0F) as u8) != 47u8) by (bit_vector);
        assert(forall|x: u32| #[trigger] (0xF0u8 | ((x >> 18) & 0x7) as u8) != 47u8) by (bit_vector);
        assert(forall|x: u32| #[trigger] (0x80u8 | (x & 0x3F) as u8) != 47u8) by (bit_vector);
        assert(forall|x: u32| #[trigger] (0x80u8 | ((x >> 6) & 0x3F) as u8) != 47u8) by (bit_vector);
        assert(forall|x: u32| #[trigger] (0x80u8 | ((x >> 12) & 0x3F) as u8) != 47u8) by (bit_vector);
    }
}

proof fn lemma_encoding_has_no_slash(s: Seq<char>)
    requires
        forall|i: int| 0 <= i < s.len() ==> #[trigger] s[i] != '/',
    ensures
        forall|j: int| 0 <= j < encode_utf8(s).len() ==> #[trigger] encode_utf8(s)[j] != 47u8,
    decreases s.len(),
{
    if s.len() > 0 {
        lemma_encoding_has_no_slash(s.drop_first());
        assert(s[0] != '/');
        vstd::utf8::char_is_scalar(s[0]);
        if (s[0] as u32) == ('/' as u32) {
            vstd::utf8::char_u32_cast(s[0], s[0] as u32);
            vstd::utf8::char_u32_cast('/', '/' as u32);
        }
        lemma_scalar_has_no_slash(s[0] as u32);
        let head = encode_scalar(s[0] as u32);
        let rest = encode_utf8(s.drop_first());
        assert forall|j: int| 0 <= j < encode_utf8(s).len() implies #[trigger] encode_utf8(s)[j] != 47u8 by {
            if j < head.len() {
                assert(encode_utf8(s)[j] == head[j]);
            } else {
                assert(encode_utf8(s)[j] == rest[j - head.len()]);
            }
        }
    }
}

proof fn lemma_encoding_length(s: Seq<char>)
    ensures
        encode_utf8(s).len() >= s.len(),
    decreases s.len(),
{
    if s.len() > 0 {
        lemma_encoding_length(s.drop_first());
    }
}

proof fn lemma_pieces_nonempty(b: Seq<u8>)
    ensures
        byte_pieces(b).len() >= 1,
    decreases b.len(),
{
    if b.len() > 0 {
        lemma_pieces_nonempty(b.drop_last());
    }
}

/// Appending bytes without a separator after a finished piece makes them
/// the last piece.
proof fn lemma_pieces_append_name(x: Seq<u8>, name: Seq<u8>)
    requires
        byte_pieces(x).last() == Seq::<u8>::empty(),
        forall|j: int| 0 <= j < name.len() ==> #[trigger] name[j] != 47u8,
    ensures
        byte_pieces(x + name) == byte_pieces(x).drop_last().push(name),
    decreases name.len(),
{
    lemma_pieces_nonempty(x);
    if name.len() == 0 {
        assert(name =~= Seq::<u8>::empty());
        assert(x + name =~= x);
        assert(byte_pieces(x).drop_last().push(name) =~= byte_pieces(x));
    } else {
        let shorter = name.drop_last();
        lemma_pieces_append_name(x, shorter);
        assert((x + name).drop_last() =~= x + shorter);
        assert((x + name).last() == name.last());
        let previous = byte_pieces(x + shorter);
        assert(previous.last() == shorter);
        assert(shorter.push(name.last()) =~= name);
        assert(byte_pieces(x + name) =~= byte_pieces(x).drop_last().push(name));
    }
}

/// A probe session's capture path is one the probed child accepts: it
/// names the session's capture directly inside the target directory.
pub proof fn lemma_session_capture_accepted(target: Seq<u8>, token: Seq<char>)
    requires
        absolute_path(target),
        named_segments(target).len() > 0,
        named_segments(target).last() != seq![46u8, 46u8],
        valid_utf8(named_segments(target).last()),
        has_prefix(decode_utf8(named_segments(target).last()), "conkit-rustdoc-"@),
        forall|i: int| 0 <= i < token.len() ==> #[trigger] token[i] != '/',
    ensures
        capture_path_ok(joined_path(target, capture_file_name(token)), target, token),
{
    let text = ".conkit-rustdoc-probe-"@ + token + ".json"@;
    let name = capture_file_name(token);
    reveal_strlit(".conkit-rustdoc-probe-");
    reveal_strlit(".json");
    assert forall|i: int| 0 <= i < text.len() implies #[trigger] text[i] != '/' by {
        if i >= 22 && i < 22 + token.len() {
            assert(text[i] == token[i - 22]);
        }
    }
    lemma_encoding_has_no_slash(text);
    assert(text.len() >= 27);
    lemma_encoding_length(text);
    assert(name.len() > 1);
    assert(name != seq![46u8]);
    lemma_pieces_nonempty(target);
    let joined = joined_path(target, name);
    if target.last() == 47u8 {
        assert(byte_pieces(target) == byte_pieces(target.drop_last()).push(Seq::<u8>::empty()));
        lemma_pieces_append_name(target, name);
        let pieces = byte_pieces(target);
        assert(keep_named(pieces) == keep_named(pieces.drop_last()));
        assert(pieces.drop_last().push(name).drop_last() =~= pieces.drop_last());
        assert(keep_named(byte_pieces(joined)) == keep_named(pieces).push(name));
    } else {
        let slashed = target.push(47u8);
        assert(slashed.drop_last() =~= target);
        assert(byte_pieces(slashed) == byte_pieces(target).push(Seq::<u8>::empty()));
        lemma_pieces_append_name(slashed, name);
        assert(joined =~= slashed + name);
        assert(byte_pieces(target).push(Seq::<u8>::empty()).drop_last() =~= byte_pieces(target));
        assert(byte_pieces(joined).drop_last() =~= byte_pieces(target));
        assert(keep_named(byte_pieces(joined)) == keep_named(byte_pieces(target)).push(name));
    }
    assert(named_segments(joined) == named_segments(target).push(name));
    assert(named_segments(joined).drop_last() =~= named_segments(target));
    assert(joined[0] == target[0]);
}

/// One change to a Cargo child's environment.
pub enum EnvironmentChange {
    Assign { name: &'static str, value: Vec<u8> },
    Unset { name: &'static str },
}

/// The changes in view: set names with their values, removed names.
pub open spec fn change_view(c: EnvironmentChange) -> (Seq<char>, Option<Seq<u8>>) {
    match c {
        EnvironmentChange::Assign { name, value } => (name@, Some(value@)),
        EnvironmentChange::Unset { name } => (name@, None),
    }
}

/// What every Cargo child gets: plain output, no backtraces, the pinned
/// `rustc` and `rustdoc`, no toolchain installation, and no compiler
/// wrappers.
pub open spec fn pinned_environment() -> Seq<(Seq<char>, Option<Seq<u8>>)> {
    seq![
        ("CARGO_TERM_COLOR"@, Some(encode_utf8("never"@))),
        ("RUST_BACKTRACE"@, Some(encode_utf8("0"@))),
        ("RUSTC"@, Some(encode_utf8("rustc"@))),
        ("RUSTDOC"@, Some(encode_utf8("rustdoc"@))),
        ("RUSTUP_AUTO_INSTALL"@, Some(encode_utf8("0"@))),
        ("RUSTC_WRAPPER"@, None),
        ("RUSTC_WORKSPACE_WRAPPER"@, None),
    ]
}

/// What a probed rustdoc invocation gets in addition: this executable as
/// `rustdoc`, and the session.
pub open spec fn probe_environment(p: ProbeSession) -> Seq<(Seq<char>, Option<Seq<u8>>)> {
    seq![
        ("RUSTDOC"@, Some(p.executable@)),
        (RUSTDOC_PROBE_PATH_ENV@, Some(p.capture_path@)),
        (RUSTDOC_PROBE_TOKEN_ENV@, Some(encode_utf8(p.token@))),
        (RUSTDOC_PROBE_CRATE_ENV@, Some(encode_utf8(p.crate_name@))),
        (RUSTDOC_PROBE_SOURCE_ENV@, Some(p.source_path@)),
        (RUSTDOC_PROBE_TARGET_DIR_ENV@, Some(p.target_directory@)),
        (RUSTDOC_PROBE_CRATE_TYPES_ENV@, Some(encode_utf8(crate::compiler::project::comma_joined(string_views(p.crate_types@))))),
    ]
}

fn set(changes: &mut Vec<EnvironmentChange>, name: &'static str, value: Vec<u8>)
    ensures
        final(changes)@.map_values(|c: EnvironmentChange| change_view(c)) == old(changes)@.map_values(
            |c: EnvironmentChange| change_view(c),
        ).push((name@, Some(value@))),
{
    changes.push(EnvironmentChange::Assign { name, value });
    assert(changes@.map_values(|c: EnvironmentChange| change_view(c)) =~= old(changes)@.map_values(
        |c: EnvironmentChange| change_view(c),
    ).push((name@, Some(value@))));
}

fn remove(changes: &mut Vec<EnvironmentChange>, name: &'static str)
    ensures
        final(changes)@.map_values(|c: EnvironmentChange| change_view(c)) == old(changes)@.map_values(
            |c: EnvironmentChange| change_view(c),
        ).push((name@, None)),
{
    changes.push(EnvironmentChange::Unset { name });
    assert(changes@.map_values(|c: EnvironmentChange| change_view(c)) =~= old(changes)@.map_values(
        |c: EnvironmentChange| change_view(c),
    ).push((name@, None::<Seq<u8>>)));
}

/// The environment changes of a Cargo child, applied in order; a probed
/// rustdoc invocation also carries the probe session.
pub fn cargo_environment(probe: Option<&ProbeSession>) -> (changes: Vec<EnvironmentChange>)
    ensures
        changes@.map_values(|c: EnvironmentChange| change_view(c)) == pinned_environment() + match probe {
            Some(p) => probe_environment(*p),
            None => seq![],
        },
{
    proof {
        reveal_strlit("never");
        reveal_strlit("0");
        reveal_strlit("rustc");
        reveal_strlit("rustdoc");
    }
    let mut changes: Vec<EnvironmentChange> = Vec::new();
    set(&mut changes, "CARGO_TERM_COLOR", bytes_of("never"));
    set(&mut changes, "RUST_BACKTRACE", bytes_of("0"));
    set(&mut changes, "RUSTC", bytes_of("rustc"));
    set(&mut changes, "RUSTDOC", bytes_of("rustdoc"));
    set(&mut changes, "RUSTUP_AUTO_INSTALL", bytes_of("0"));
    remove(&mut changes, "RUSTC_WRAPPER");
    remove(&mut changes, "RUSTC_WORKSPACE_WRAPPER");
    let ghost pinned = changes@.map_values(|c: EnvironmentChange| change_view(c));
    assert(pinned =~= pinned_environment());
    if let Some(p) = probe {
        set(&mut changes, "RUSTDOC", p.executable.clone());
        set(&mut changes, RUSTDOC_PROBE_PATH_ENV, p.capture_path.clone());
        set(&mut changes, RUSTDOC_PROBE_TOKEN_ENV, bytes_of(p.token.as_str()));
        set(&mut changes, RUSTDOC_PROBE_CRATE_ENV, bytes_of(p.crate_name.as_str()));
        set(&mut changes, RUSTDOC_PROBE_SOURCE_ENV, p.source_path.clone());
        set(&mut changes, RUSTDOC_PROBE_TARGET_DIR_ENV, p.target_directory.clone());
        let types = crate::compiler::project::comma_join(&p.crate_types);
        set(&mut changes, RUSTDOC_PROBE_CRATE_TYPES_ENV, bytes_of(types.as_str()));
        assert(changes@.map_values(|c: EnvironmentChange| change_view(c)) =~= pinned_environment() + probe_environment(*p));
    } else {
        assert(changes@.map_values(|c: EnvironmentChange| change_view(c)) =~= pinned_environment() + seq![]);
    }
    changes
}

/// The text a probe error reports.
pub open spec fn probe_error_text(e: RustdocProbeError) -> Seq<char> {
    match e {
        RustdocProbeError::IncompleteEnvironment => "private rustdoc probe environment is incomplete"@,
        RustdocProbeError::InvalidToken => "private rustdoc probe token is invalid"@,
        RustdocProbeError::InvalidCrateName => "private rustdoc probe crate name is invalid"@,
        RustdocProbeError::InvalidCrateType => "private rustdoc probe crate type is invalid"@,
        RustdocProbeError::RelativeBoundaryPath => "private rustdoc probe boundary paths must be absolute"@,
        RustdocProbeError::InvalidCapturePath => "private rustdoc probe capture path is invalid"@,
        RustdocProbeError::ArgumentLimit => "private rustdoc probe arguments exceeded their byte limit"@,
        RustdocProbeError::CaptureLimit => "private rustdoc probe capture exceeded its byte limit"@,
        RustdocProbeError::MissingOptionValue { option } => "private rustdoc probe option "@ + option@
            + " is missing its value"@,
        RustdocProbeError::NonUtf8Option { option } => "private rustdoc probe option "@ + option@ + " is not UTF-8"@,
        RustdocProbeError::InvalidCfgValue => "private rustdoc probe cfg value is invalid"@,
        RustdocProbeError::UnexpectedInvocation => "Cargo produced an unexpected rustdoc invocation"@,
        RustdocProbeError::Encode(detail) => "failed to encode private rustdoc probe capture: "@ + detail@,
        RustdocProbeError::Write(_) => "failed to write private rustdoc probe capture"@,
    }
}

fn option_message(option: &str, tail: &str) -> (s: String)
    ensures
        s@ == "private rustdoc probe option "@ + option@ + tail@,
{
    let mut s = String::new();
    crate::text::push_str(&mut s, "private rustdoc probe option ");
    crate::text::push_str(&mut s, option);
    crate::text::push_str(&mut s, tail);
    proof {
        reveal_strlit("private rustdoc probe option ");
    }
    s
}

impl RustdocProbeError {
    /// The error's message.
    pub fn message(&self) -> (s: String)
        ensures
            s@ == probe_error_text(*self),
    {
        match self {
            RustdocProbeError::IncompleteEnvironment => {
                proof { reveal_strlit("private rustdoc probe environment is incomplete"); }
                "private rustdoc probe environment is incomplete".to_owned()
            },
            RustdocProbeError::InvalidToken => {
                proof { reveal_strlit("private rustdoc probe token is invalid"); }
                "private rustdoc probe token is invalid".to_owned()
            },
            RustdocProbeError::InvalidCrateName => {
                proof { reveal_strlit("private rustdoc probe crate name is invalid"); }
                "private rustdoc probe crate name is invalid".to_owned()
            },
            RustdocProbeError::InvalidCrateType => {
                proof { reveal_strlit("private rustdoc probe crate type is invalid"); }
                "private rustdoc probe crate type is invalid".to_owned()
            },
            RustdocProbeError::RelativeBoundaryPath => {
                proof { reveal_strlit("private rustdoc probe boundary paths must be absolute"); }
                "private rustdoc probe boundary paths must be absolute".to_owned()
            },
            RustdocProbeError::InvalidCapturePath => {
                proof { reveal_strlit("private rustdoc probe capture path is invalid"); }
                "private rustdoc probe capture path is invalid".to_owned()
            },
            RustdocProbeError::ArgumentLimit => {
                proof { reveal_strlit("private rustdoc probe arguments exceeded their byte limit"); }
                "private rustdoc probe arguments exceeded their byte limit".to_owned()
            },
            RustdocProbeError::CaptureLimit => {
                proof { reveal_strlit("private rustdoc probe capture exceeded its byte limit"); }
                "private rustdoc probe capture exceeded its byte limit".to_owned()
            },
            RustdocProbeError::MissingOptionValue { option } => {
                proof { reveal_strlit(" is missing its value"); }
                option_message(option, " is missing its value")
            },
            RustdocProbeError::NonUtf8Option { option } => {
                proof { reveal_strlit(" is not UTF-8"); }
                option_message(option, " is not UTF-8")
            },
            RustdocProbeError::InvalidCfgValue => {
                proof { reveal_strlit("private rustdoc probe cfg value is invalid"); }
                "private rustdoc probe cfg value is invalid".to_owned()
            },
            RustdocProbeError::UnexpectedInvocation => {
                proof { reveal_strlit("Cargo produced an unexpected rustdoc invocation"); }
                "Cargo produced an unexpected rustdoc invocation".to_owned()
            },
            RustdocProbeError::Encode(detail) => {
                let mut s = String::new();
                crate::text::push_str(&mut s, "failed to encode private rustdoc probe capture: ");
                crate::text::push_str(&mut s, detail.as_str());
                proof { reveal_strlit("failed to encode private rustdoc probe capture: "); }
                s
            },
            RustdocProbeError::Write(_) => {
                proof { reveal_strlit("failed to write private rustdoc probe capture"); }
                "failed to write private rustdoc probe capture".to_owned()
            },
        }
    }
}

/// The record a probe captures: the analysis of its invocation, or, when
/// that was rejected, a record of the session that carries the rejection.
pub fn capture_record(token: &String, analysis: Result<ProbeRecord, RustdocProbeError>) -> (r: ProbeRecord)
    ensures
        analysis matches Ok(record) ==> r == record,
        analysis matches Err(e) ==> {
            &&& r.token@ == token@
            &&& r.exit_code == RUSTDOC_PROBE_EXIT_CODE
            &&& r.cfg_values@.len() == 0
            &&& r.rejection matches Some(m) && m@ == probe_error_text(e)
        },
{
    match analysis {
        Ok(record) => record,
        Err(error) => ProbeRecord {
            token: token.clone(),
            exit_code: RUSTDOC_PROBE_EXIT_CODE,
            cfg_values: Vec::new(),
            rejection: Some(error.message()),
        },
    }
}

/// Refuses an encoded capture larger than the capture limit.
pub fn check_capture_size(encoded_bytes: usize) -> (r: Result<(), RustdocProbeError>)
    ensures
        encoded_bytes <= RUSTDOC_PROBE_MAX_CAPTURE_BYTES <==> r is Ok,
        r is Err ==> r == Err::<(), RustdocProbeError>(RustdocProbeError::CaptureLimit),
{
    if encoded_bytes as u64 > RUSTDOC_PROBE_MAX_CAPTURE_BYTES {
        Err(RustdocProbeError::CaptureLimit)
    } else {
        Ok(())
    }
}

/// Accepts the capture a probe wrote for the session `token`: it must carry
/// the token and the probe's exit code, and no rejection; its cfg values
/// are the result.
pub fn accept_record(token: &str, record: ProbeRecord) -> (r: Result<Vec<String>, CompilerError>)
    ensures
        record.token@ != token@ || record.exit_code != RUSTDOC_PROBE_EXIT_CODE ==> (r matches Err(
            CompilerError::InvalidRustdocProbeCapture { message },
        ) && message@ == "probe token or recognized exit code did not match the active session"@),
        record.token@ == token@ && record.exit_code == RUSTDOC_PROBE_EXIT_CODE ==> match record.rejection {
            Some(rejection) => r matches Err(CompilerError::InvalidRustdocProbeCapture { message }) && message@ == rejection@,
            None => r matches Ok(values) && values@ == record.cfg_values@,
        },
{
    if !crate::text::chars_equal(chars_of(record.token.as_str()).as_slice(), chars_of(token).as_slice())
        || record.exit_code != RUSTDOC_PROBE_EXIT_CODE {
        proof {
            reveal_strlit("probe token or recognized exit code did not match the active session");
        }
        return Err(
            CompilerError::InvalidRustdocProbeCapture {
                message: "probe token or recognized exit code did not match the active session".to_owned(),
            },
        );
    }
    match record.rejection {
        Some(rejection) => Err(CompilerError::InvalidRustdocProbeCapture { message: rejection }),
        None => Ok(record.cfg_values),
    }
}

} // verus!
