//! Batched resolution of rustdoc source coordinates to UTF-8 byte ranges.
//!
//! Rustdoc reports item spans as one-indexed `(line, column)` pairs counted
//! in Unicode scalars, with an inclusive end. One pass over a source file
//! resolves every requested coordinate to the byte range of the character
//! found there.

use vstd::prelude::*;
use vstd::utf8::*;

use crate::compiler::error::{CompilerError, CompilerOperation, SpanDefect};
use crate::compiler::limits::CompilerUsage;

verus! {

broadcast use vstd::seq_lib::group_to_multiset_ensures;

/// A rustdoc source span: file name and inclusive one-indexed
/// `(line, column)` endpoints.
#[derive(Debug)]
pub struct RustdocSourceSpan {
    pub filename: String,
    pub begin: (usize, usize),
    pub end: (usize, usize),
}

/// A coordinate as a pair of integers.
pub open spec fn as_pos(c: (usize, usize)) -> (int, int) {
    (c.0 as int, c.1 as int)
}

/// Lexicographic order of coordinates.
pub open spec fn pos_lt(a: (int, int), b: (int, int)) -> bool {
    a.0 < b.0 || (a.0 == b.0 && a.1 < b.1)
}

/// The `(line, column)` of the character at index `k` of `chars`; the line
/// grows after each `'\n'` and the column restarts at one.
pub open spec fn position(chars: Seq<char>, k: int) -> (int, int)
    decreases k,
{
    if k <= 0 {
        (1, 1)
    } else {
        let p = position(chars, k - 1);
        if chars[k - 1] == '\n' {
            (p.0 + 1, 1)
        } else {
            (p.0, p.1 + 1)
        }
    }
}

/// The byte offset at which the character at index `k` begins: the length of
/// the UTF-8 encoding of the characters before it.
pub open spec fn utf8_offset(chars: Seq<char>, k: int) -> int {
    encode_utf8(chars.take(k)).len() as int
}

/// True when `requested` holds the coordinate `p`.
pub open spec fn requested_has(requested: Seq<(usize, usize)>, p: (int, int)) -> bool {
    exists|i: int| 0 <= i < requested.len() && as_pos(#[trigger] requested[i]) == p
}

/// The resolved endpoints of the first `k` characters: in source order, the
/// position and byte range of every character whose position was requested.
pub open spec fn resolved_entries(
    chars: Seq<char>,
    requested: Seq<(usize, usize)>,
    k: int,
) -> Seq<((int, int), int, int)>
    decreases k,
{
    if k <= 0 {
        seq![]
    } else {
        let previous = resolved_entries(chars, requested, k - 1);
        let p = position(chars, k - 1);
        if requested_has(requested, p) {
            previous.push((p, utf8_offset(chars, k - 1), utf8_offset(chars, k)))
        } else {
            previous
        }
    }
}

/// One resolved endpoint as integers.
pub open spec fn entry_view(e: ((usize, usize), usize, usize)) -> ((int, int), int, int) {
    (as_pos(e.0), e.1 as int, e.2 as int)
}

/// True when the coordinates of `entries` strictly increase.
pub open spec fn strictly_sorted(entries: Seq<((usize, usize), usize, usize)>) -> bool {
    forall|i: int, j: int|
        0 <= i < j < entries.len() ==> pos_lt(as_pos(#[trigger] entries[i].0), as_pos(#[trigger] entries[j].0))
}

pub proof fn lemma_encode_utf8_concat(a: Seq<char>, b: Seq<char>)
    ensures
        encode_utf8(a + b) == encode_utf8(a) + encode_utf8(b),
    decreases a.len(),
{
    if a.len() == 0 {
        assert(a + b =~= b);
        assert(encode_utf8(a) =~= Seq::<u8>::empty());
        assert(encode_utf8(a) + encode_utf8(b) =~= encode_utf8(b));
    } else {
        assert((a + b)[0] == a[0]);
        assert((a + b).drop_first() =~= a.drop_first() + b);
        lemma_encode_utf8_concat(a.drop_first(), b);
        assert(encode_utf8(a + b) == encode_scalar(a[0] as u32) + encode_utf8(a.drop_first() + b));
        assert(encode_utf8(a) == encode_scalar(a[0] as u32) + encode_utf8(a.drop_first()));
        assert(encode_utf8(a + b) =~= encode_utf8(a) + encode_utf8(b));
    }
}

pub proof fn lemma_offset_step(chars: Seq<char>, k: int)
    requires
        0 <= k < chars.len(),
    ensures
        utf8_offset(chars, k + 1) == utf8_offset(chars, k) + encode_scalar(chars[k] as u32).len(),
{
    assert(chars.take(k + 1) =~= chars.take(k) + seq![chars[k]]);
    lemma_encode_utf8_concat(chars.take(k), seq![chars[k]]);
    let single = seq![chars[k]];
    assert(single.drop_first() =~= Seq::<char>::empty());
    assert(encode_utf8(single) == encode_scalar(chars[k] as u32) + encode_utf8(single.drop_first()));
    assert(encode_utf8(Seq::<char>::empty()) =~= Seq::<u8>::empty());
    assert(encode_utf8(single) =~= encode_scalar(chars[k] as u32));
}

pub proof fn lemma_offset_bound(chars: Seq<char>, k: int)
    requires
        0 <= k <= chars.len(),
    ensures
        utf8_offset(chars, k) <= encode_utf8(chars).len(),
{
    assert(chars =~= chars.take(k) + chars.skip(k));
    lemma_encode_utf8_concat(chars.take(k), chars.skip(k));
}

proof fn lemma_position_bounds(chars: Seq<char>, k: int)
    requires
        0 <= k,
    ensures
        1 <= position(chars, k).0 <= k + 1,
        1 <= position(chars, k).1 <= k + 1,
    decreases k,
{
    if k > 0 {
        lemma_position_bounds(chars, k - 1);
    }
}

/// The UTF-8 length of one character (`char::len_utf8`).
pub fn utf8_width(c: char) -> (w: usize)
    ensures
        w == encode_scalar(c as u32).len(),
        1 <= w <= 4,
{
    proof {
        char_is_scalar(c);
    }
    let u = c as u32;
    if u < 0x80 {
        1
    } else if u < 0x800 {
        2
    } else if u < 0x10000 {
        3
    } else {
        4
    }
}

/// Parses UTF-8 (`std::str::from_utf8`); `None` when the bytes are not
/// valid UTF-8.
#[verifier::external_body]
pub(crate) fn str_from_utf8(bytes: &[u8]) -> (r: Option<&str>)
    ensures
        r is Some <==> valid_utf8(bytes@),
        r matches Some(s) ==> encode_utf8(s@) == bytes@,
{
    std::str::from_utf8(bytes).ok()
}

/// Sorts coordinates lexicographically (`slice::sort_unstable`).
#[verifier::external_body]
fn sort_coordinates(v: &mut Vec<(usize, usize)>)
    ensures
        final(v)@.to_multiset() == old(v)@.to_multiset(),
        forall|i: int, j: int|
            0 <= i < j < final(v)@.len() ==> !pos_lt(as_pos(#[trigger] final(v)@[j]), as_pos(#[trigger] final(v)@[i])),
{
    v.sort_unstable();
}

/// Lexicographic comparison of two coordinates.
fn coordinate_lt(a: (usize, usize), b: (usize, usize)) -> (r: bool)
    ensures
        r == pos_lt(as_pos(a), as_pos(b)),
{
    a.0 < b.0 || (a.0 == b.0 && a.1 < b.1)
}

/// Equality of two coordinates.
fn coordinate_eq(a: (usize, usize), b: (usize, usize)) -> (r: bool)
    ensures
        r == (a == b),
{
    a.0 == b.0 && a.1 == b.1
}

/// Removes repeated coordinates from a sorted sequence.
fn dedup_sorted(v: &Vec<(usize, usize)>) -> (out: Vec<(usize, usize)>)
    requires
        forall|i: int, j: int| 0 <= i < j < v@.len() ==> !pos_lt(as_pos(#[trigger] v@[j]), as_pos(#[trigger] v@[i])),
    ensures
        forall|i: int, j: int| 0 <= i < j < out@.len() ==> pos_lt(as_pos(#[trigger] out@[i]), as_pos(#[trigger] out@[j])),
        forall|x: (usize, usize)| out@.contains(x) <==> v@.contains(x),
{
    let mut out: Vec<(usize, usize)> = Vec::new();
    let mut i: usize = 0;
    while i < v.len()
        invariant
            i <= v@.len(),
            forall|a: int, b: int| 0 <= a < b < v@.len() ==> !pos_lt(as_pos(#[trigger] v@[b]), as_pos(#[trigger] v@[a])),
            forall|a: int, b: int| 0 <= a < b < out@.len() ==> pos_lt(as_pos(#[trigger] out@[a]), as_pos(#[trigger] out@[b])),
            forall|x: (usize, usize)| out@.contains(x) <==> v@.take(i as int).contains(x),
            i > 0 ==> out@.len() > 0 && out@.last() == v@[i - 1],
            i == 0 ==> out@.len() == 0,
        decreases v@.len() - i,
    {
        let x = v[i];
        let ghost old_out = out@;
        if out.len() == 0 || !coordinate_eq(out[out.len() - 1], x) {
            proof {
                if out@.len() > 0 {
                    assert(!pos_lt(as_pos(v@[i as int]), as_pos(v@[i - 1])));
                    assert forall|a: int| 0 <= a < out@.len() implies pos_lt(as_pos(out@[a]), as_pos(x)) by {
                        if a < out@.len() - 1 {
                            assert(pos_lt(as_pos(out@[a]), as_pos(out@[out@.len() - 1])));
                        }
                    }
                }
            }
            out.push(x);
        }
        proof {
            assert(v@.take(i + 1) =~= v@.take(i as int).push(x));
            assert forall|y: (usize, usize)| out@.contains(y) <==> v@.take(i + 1).contains(y) by {
                if out@.len() > old_out.len() {
                    assert(out@ =~= old_out.push(x));
                    if out@.contains(y) {
                        let k = choose|k: int| 0 <= k < out@.len() && #[trigger] out@[k] == y;
                        if k < old_out.len() {
                            assert(old_out.contains(y));
                            assert(v@.take(i as int).contains(y));
                            let m = choose|m: int| 0 <= m < i && #[trigger] v@.take(i as int)[m] == y;
                            assert(v@.take(i + 1)[m] == y);
                        } else {
                            assert(v@.take(i + 1)[i as int] == y);
                        }
                    }
                    if v@.take(i + 1).contains(y) {
                        let m = choose|m: int| 0 <= m < i + 1 && #[trigger] v@.take(i + 1)[m] == y;
                        if m < i {
                            assert(v@.take(i as int)[m] == y);
                            assert(old_out.contains(y));
                            let k = choose|k: int| 0 <= k < old_out.len() && #[trigger] old_out[k] == y;
                            assert(out@[k] == y);
                        } else {
                            assert(out@[old_out.len() as int] == y);
                        }
                    }
                } else {
                    assert(out@ == old_out);
                    if v@.take(i + 1).contains(y) {
                        let m = choose|m: int| 0 <= m < i + 1 && #[trigger] v@.take(i + 1)[m] == y;
                        if m < i {
                            assert(v@.take(i as int)[m] == y);
                        } else {
                            assert(out@[out@.len() - 1] == y);
                        }
                    }
                    if out@.contains(y) {
                        assert(v@.take(i as int).contains(y));
                        let m = choose|m: int| 0 <= m < i && #[trigger] v@.take(i as int)[m] == y;
                        assert(v@.take(i + 1)[m] == y);
                    }
                }
            }
        }
        i += 1;
    }
    assert(v@.take(v@.len() as int) =~= v@);
    out
}

/// Collects the coordinates requested from one source file.
pub struct SourceEndpointResolver<'source> {
    bytes: &'source [u8],
    requested: Vec<(usize, usize)>,
}

/// Scalars between two cancellation observations of one scan.
pub const CHECKPOINT_SCALARS: usize = 4096;

impl<'source> SourceEndpointResolver<'source> {
    /// The source bytes to be scanned.
    pub closed spec fn spec_bytes(&self) -> Seq<u8> {
        self.bytes@
    }

    /// The coordinates requested so far, with repetitions.
    pub closed spec fn spec_requested(&self) -> Seq<(usize, usize)> {
        self.requested@
    }

    /// Starts a resolver over one source file.
    pub fn new(bytes: &'source [u8]) -> (r: Self)
        ensures
            r.spec_bytes() == bytes@,
            r.spec_requested() == Seq::<(usize, usize)>::empty(),
    {
        SourceEndpointResolver { bytes, requested: Vec::new() }
    }

    /// Requests both endpoints of `span`.
    pub fn request(&mut self, span: &RustdocSourceSpan)
        ensures
            final(self).spec_bytes() == old(self).spec_bytes(),
            final(self).spec_requested() == old(self).spec_requested().push(span.begin).push(span.end),
    {
        self.requested.push(span.begin);
        self.requested.push(span.end);
    }

    /// The number of coordinates requested so far, repetitions included.
    pub fn requested_count(&self) -> (n: usize)
        ensures
            n == self.spec_requested().len(),
    {
        self.requested.len()
    }

    /// Scans the source once and resolves every requested coordinate that
    /// names a character.
    ///
    /// On success the source is valid UTF-8, the endpoints are exactly the
    /// positions of requested characters in source order, each with the byte
    /// range of its character, and the line count is the line after the last
    /// character.
    pub fn resolve(self, usage: &CompilerUsage, path: &str) -> (r: Result<ResolvedSourceEndpoints, CompilerError>)
        requires
            self.spec_bytes().len() < usize::MAX,
        ensures
            r matches Ok(resolution) ==> {
                let chars = decode_utf8(self.spec_bytes());
                &&& valid_utf8(self.spec_bytes())
                &&& resolution.wf()
                &&& resolution.spec_endpoints().map_values(|e| entry_view(e))
                    == resolved_entries(chars, self.spec_requested(), chars.len() as int)
                &&& resolution.spec_line_count() == position(chars, chars.len() as int).0
            },
            !valid_utf8(self.spec_bytes()) ==> r is Err,
            r matches Err(e) ==> e is CompilerExtractionCancelled || e is ProcessTimeout || (
            e matches CompilerError::InvalidMappedSourceUtf8 { path: p } && p@ == path@ && !valid_utf8(
                self.spec_bytes(),
            )),
    {
        usage.checkpoint(CompilerOperation::Rustdoc)?;
        let source = match str_from_utf8(self.bytes) {
            Some(source) => source,
            None => return Err(CompilerError::InvalidMappedSourceUtf8 { path: path.to_owned() }),
        };
        let ghost chars = source@;
        proof {
            decode_utf8_encode_utf8(self.bytes@);
            assert(chars == decode_utf8(self.bytes@)) by {
                encode_utf8_decode_utf8(chars);
            }
        }
        let ghost original = self.requested@;
        let mut requested = self.requested;
        sort_coordinates(&mut requested);
        let sorted = dedup_sorted(&requested);
        proof {
            assert forall|p: (int, int)| requested_has(original, p) <==> requested_has(sorted@, p) by {
                if requested_has(original, p) {
                    let i = choose|i: int| 0 <= i < original.len() && as_pos(#[trigger] original[i]) == p;
                    assert(original.contains(original[i]));
                    assert(original.to_multiset().count(original[i]) > 0);
                    assert(requested@.contains(original[i]));
                    assert(sorted@.contains(original[i]));
                    let j = choose|j: int| 0 <= j < sorted@.len() && sorted@[j] == original[i];
                    assert(as_pos(sorted@[j]) == p);
                }
                if requested_has(sorted@, p) {
                    let j = choose|j: int| 0 <= j < sorted@.len() && as_pos(#[trigger] sorted@[j]) == p;
                    assert(sorted@.contains(sorted@[j]));
                    assert(requested@.contains(sorted@[j]));
                    assert(requested@.to_multiset().count(sorted@[j]) > 0);
                    assert(original.contains(sorted@[j]));
                    let i = choose|i: int| 0 <= i < original.len() && original[i] == sorted@[j];
                    assert(as_pos(original[i]) == p);
                }
            }
        }
        usage.checkpoint(CompilerOperation::Rustdoc)?;
        let mut endpoints: Vec<((usize, usize), usize, usize)> = Vec::new();
        let mut request_index: usize = 0;
        let mut line: usize = 1;
        let mut column: usize = 1;
        let mut byte_start: usize = 0;
        let mut scalar_index: usize = 0;
        for character in it: source.chars()
            invariant
                it.seq() == chars,
                chars == decode_utf8(self.bytes@),
                encode_utf8(chars) == self.bytes@,
                self.bytes@.len() < usize::MAX,
                scalar_index == it.index(),
                (line as int, column as int) == position(chars, it.index() as int),
                byte_start == utf8_offset(chars, it.index() as int),
                request_index <= sorted@.len(),
                forall|a: int, b: int| 0 <= a < b < sorted@.len() ==> pos_lt(as_pos(#[trigger] sorted@[a]), as_pos(#[trigger] sorted@[b])),
                forall|a: int| 0 <= a < request_index ==> pos_lt(as_pos(#[trigger] sorted@[a]), position(chars, it.index() as int)),
                forall|p: (int, int)| requested_has(original, p) <==> requested_has(sorted@, p),
                endpoints@.map_values(|e| entry_view(e)) == resolved_entries(chars, original, it.index() as int),
                forall|a: int| 0 <= a < endpoints@.len() ==> pos_lt(as_pos(#[trigger] endpoints@[a].0), position(chars, it.index() as int)),
                strictly_sorted(endpoints@),
        {
            let ghost k = it.index() as int;
            proof {
                lemma_position_bounds(chars, k + 1);
                lemma_offset_step(chars, k);
                lemma_offset_bound(chars, k + 1);
                assert(chars.len() <= self.bytes@.len()) by {
                    assert(encode_utf8(chars).len() >= chars.len()) by {
                        lemma_utf8_len_at_least_chars(chars);
                    }
                }
            }
            if scalar_index % CHECKPOINT_SCALARS == 0 {
                usage.checkpoint(CompilerOperation::Rustdoc)?;
            }
            let current = (line, column);
            while request_index < sorted.len() && coordinate_lt(sorted[request_index], current)
                invariant
                    request_index <= sorted@.len(),
                    forall|a: int| 0 <= a < request_index ==> pos_lt(as_pos(#[trigger] sorted@[a]), as_pos(current)),
                decreases sorted@.len() - request_index,
            {
                request_index += 1;
            }
            let width = utf8_width(character);
            let ghost before = endpoints@;
            let matched = request_index < sorted.len() && coordinate_eq(sorted[request_index], current);
            proof {
                assert(character == chars[k]);
                assert(requested_has(sorted@, as_pos(current)) == matched) by {
                    if requested_has(sorted@, as_pos(current)) {
                        let j = choose|j: int| 0 <= j < sorted@.len() && as_pos(#[trigger] sorted@[j]) == as_pos(current);
                        if j < request_index {
                            assert(pos_lt(as_pos(sorted@[j]), as_pos(current)));
                        } else if j > request_index {
                            assert(pos_lt(as_pos(sorted@[request_index as int]), as_pos(sorted@[j])));
                        }
                        assert(sorted@[j] == current);
                    }
                }
            }
            if matched {
                endpoints.push((current, byte_start, byte_start + width));
                request_index += 1;
            }
            proof {
                let next = position(chars, k + 1);
                assert(pos_lt(position(chars, k), next));
                if matched {
                    assert(endpoints@.map_values(|e| entry_view(e)) =~= before.map_values(|e| entry_view(e)).push(
                        entry_view((current, byte_start, (byte_start + width) as usize)),
                    ));
                } else {
                    assert(endpoints@ == before);
                }
                assert(resolved_entries(chars, original, k + 1) == (if requested_has(original, position(chars, k)) {
                    resolved_entries(chars, original, k).push((position(chars, k), utf8_offset(chars, k), utf8_offset(chars, k + 1)))
                } else {
                    resolved_entries(chars, original, k)
                }));
            }
            if character == '\n' {
                line += 1;
                column = 1;
            } else {
                column += 1;
            }
            byte_start += width;
            scalar_index += 1;
        }
        usage.checkpoint(CompilerOperation::Rustdoc)?;
        Ok(ResolvedSourceEndpoints { line_count: line, endpoints })
    }
}

proof fn lemma_utf8_len_at_least_chars(chars: Seq<char>)
    ensures
        encode_utf8(chars).len() >= chars.len(),
    decreases chars.len(),
{
    if chars.len() > 0 {
        lemma_utf8_len_at_least_chars(chars.drop_first());
    }
}

/// The endpoints resolved from one source file.
pub struct ResolvedSourceEndpoints {
    line_count: usize,
    endpoints: Vec<((usize, usize), usize, usize)>,
}

impl ResolvedSourceEndpoints {
    /// The number of the line after the last character.
    pub closed spec fn spec_line_count(&self) -> usize {
        self.line_count
    }

    /// The resolved `(coordinate, byte start, byte end)` triples.
    pub closed spec fn spec_endpoints(&self) -> Seq<((usize, usize), usize, usize)> {
        self.endpoints@
    }

    /// Resolved coordinates strictly increase.
    pub open spec fn wf(&self) -> bool {
        strictly_sorted(self.spec_endpoints())
    }

    /// Returns the resolved endpoints.
    pub fn endpoints(&self) -> (e: &Vec<((usize, usize), usize, usize)>)
        ensures
            e@ == self.spec_endpoints(),
    {
        &self.endpoints
    }
}

/// The index of the endpoint at coordinate `c`, if one was resolved there.
pub open spec fn endpoint_index(entries: Seq<((usize, usize), usize, usize)>, c: (usize, usize)) -> Option<int> {
    if exists|i: int| 0 <= i < entries.len() && #[trigger] entries[i].0 == c {
        Some(choose|i: int| 0 <= i < entries.len() && #[trigger] entries[i].0 == c)
    } else {
        None
    }
}

/// The byte offset that `c` denotes, or why it denotes none: a start
/// coordinate denotes where its character begins, an inclusive end
/// coordinate where its character ends.
pub open spec fn spec_lookup(
    entries: Seq<((usize, usize), usize, usize)>,
    line_count: usize,
    c: (usize, usize),
    inclusive_end: bool,
) -> Result<int, SpanDefect> {
    if c.0 == 0 || c.1 == 0 {
        Err(SpanDefect::OneIndexed)
    } else {
        match endpoint_index(entries, c) {
            Some(i) => Ok(if inclusive_end { entries[i].2 as int } else { entries[i].1 as int }),
            None => if c.0 > line_count {
                Err(SpanDefect::LineOutsideFile)
            } else {
                Err(SpanDefect::ColumnOutsideLine)
            },
        }
    }
}

/// True when `e` reports `defect` for `span`.
pub open spec fn span_error(e: CompilerError, span: &RustdocSourceSpan, defect: SpanDefect) -> bool {
    e matches CompilerError::InvalidSourceSpan { path, begin_line, begin_column, end_line, end_column, defect: d }
        && path@ == span.filename@ && begin_line == span.begin.0 && begin_column == span.begin.1
        && end_line == span.end.0 && end_column == span.end.1 && d == defect
}

fn invalid_coordinate(span: &RustdocSourceSpan, defect: SpanDefect) -> (e: CompilerError)
    ensures
        span_error(e, span, defect),
{
    CompilerError::InvalidSourceSpan {
        path: span.filename.clone(),
        begin_line: span.begin.0,
        begin_column: span.begin.1,
        end_line: span.end.0,
        end_column: span.end.1,
        defect,
    }
}

impl ResolvedSourceEndpoints {
    /// The byte range that `span` denotes, or the first defect found: the
    /// start, then the inclusive end, then their order.
    pub open spec fn spec_byte_range(&self, span: &RustdocSourceSpan) -> Result<(int, int), SpanDefect> {
        match spec_lookup(self.spec_endpoints(), self.spec_line_count(), span.begin, false) {
            Err(d) => Err(d),
            Ok(start) => match spec_lookup(self.spec_endpoints(), self.spec_line_count(), span.end, true) {
                Err(d) => Err(d),
                Ok(end) => if end <= start {
                    Err(SpanDefect::EndPrecedesBegin)
                } else {
                    Ok((start, end))
                },
            },
        }
    }

    /// Looks up the byte offset of one coordinate by binary search.
    pub fn byte_offset(
        endpoints: &[((usize, usize), usize, usize)],
        line_count: usize,
        span: &RustdocSourceSpan,
        coordinate: (usize, usize),
        inclusive_end: bool,
    ) -> (r: Result<usize, CompilerError>)
        requires
            strictly_sorted(endpoints@),
        ensures
            match spec_lookup(endpoints@, line_count, coordinate, inclusive_end) {
                Ok(offset) => r matches Ok(v) && v == offset,
                Err(defect) => r matches Err(e) && span_error(e, span, defect),
            },
    {
        if coordinate.0 == 0 || coordinate.1 == 0 {
            return Err(invalid_coordinate(span, SpanDefect::OneIndexed));
        }
        let mut low: usize = 0;
        let mut high: usize = endpoints.len();
        while low < high
            invariant
                low <= high <= endpoints@.len(),
                strictly_sorted(endpoints@),
                coordinate.0 != 0 && coordinate.1 != 0,
                forall|i: int| 0 <= i < low ==> pos_lt(as_pos(#[trigger] endpoints@[i].0), as_pos(coordinate)),
                forall|i: int| high <= i < endpoints@.len() ==> pos_lt(as_pos(coordinate), as_pos(#[trigger] endpoints@[i].0)),
            decreases high - low,
        {
            let middle = low + (high - low) / 2;
            let key = endpoints[middle].0;
            if coordinate_eq(key, coordinate) {
                let (_, start, end) = endpoints[middle];
                proof {
                    assert(endpoints@[middle as int].0 == coordinate);
                    let i = choose|i: int| 0 <= i < endpoints@.len() && #[trigger] endpoints@[i].0 == coordinate;
                    if i < middle {
                        assert(pos_lt(as_pos(endpoints@[i].0), as_pos(endpoints@[middle as int].0)));
                    } else if i > middle {
                        assert(pos_lt(as_pos(endpoints@[middle as int].0), as_pos(endpoints@[i].0)));
                    }
                    assert(i == middle);
                    assert(endpoint_index(endpoints@, coordinate) == Some(middle as int));
                }
                let offset = if inclusive_end { end } else { start };
                return Ok(offset);
            }
            if coordinate_lt(key, coordinate) {
                proof {
                    assert forall|i: int| 0 <= i < middle + 1 implies pos_lt(as_pos(#[trigger] endpoints@[i].0), as_pos(coordinate)) by {
                        if i < middle {
                            assert(pos_lt(as_pos(endpoints@[i].0), as_pos(endpoints@[middle as int].0)));
                        }
                    }
                }
                low = middle + 1;
            } else {
                proof {
                    assert forall|i: int| middle <= i < endpoints@.len() implies pos_lt(as_pos(coordinate), as_pos(#[trigger] endpoints@[i].0)) by {
                        if i > middle {
                            assert(pos_lt(as_pos(endpoints@[middle as int].0), as_pos(endpoints@[i].0)));
                        }
                    }
                }
                high = middle;
            }
        }
        proof {
            assert(!exists|i: int| 0 <= i < endpoints@.len() && #[trigger] endpoints@[i].0 == coordinate) by {
                if exists|i: int| 0 <= i < endpoints@.len() && #[trigger] endpoints@[i].0 == coordinate {
                    let i = choose|i: int| 0 <= i < endpoints@.len() && #[trigger] endpoints@[i].0 == coordinate;
                    if i < low {
                        assert(pos_lt(as_pos(endpoints@[i].0), as_pos(coordinate)));
                    } else {
                        assert(pos_lt(as_pos(coordinate), as_pos(endpoints@[i].0)));
                    }
                }
            }
        }
        if coordinate.0 > line_count {
            Err(invalid_coordinate(span, SpanDefect::LineOutsideFile))
        } else {
            Err(invalid_coordinate(span, SpanDefect::ColumnOutsideLine))
        }
    }

    /// Maps both endpoints of `span` to the byte range of its characters.
    pub fn byte_range(&self, usage: &CompilerUsage, span: &RustdocSourceSpan) -> (r: Result<(usize, usize), CompilerError>)
        requires
            self.wf(),
        ensures
            r matches Ok((start, end)) ==> self.spec_byte_range(span) == Ok::<(int, int), SpanDefect>((start as int, end as int)),
            r matches Err(e) ==> e is CompilerExtractionCancelled || e is ProcessTimeout || (
            self.spec_byte_range(span) matches Err(defect) && span_error(e, span, defect)),
            self.spec_byte_range(span) is Err ==> r is Err,
    {
        usage.checkpoint(CompilerOperation::Rustdoc)?;
        let start = Self::byte_offset(self.endpoints.as_slice(), self.line_count, span, span.begin, false)?;
        let end = Self::byte_offset(self.endpoints.as_slice(), self.line_count, span, span.end, true)?;
        if end <= start {
            return Err(invalid_coordinate(span, SpanDefect::EndPrecedesBegin));
        }
        Ok((start, end))
    }
}

proof fn lemma_offset_monotone(chars: Seq<char>, j: int, k: int)
    requires
        0 <= j <= k <= chars.len(),
    ensures
        utf8_offset(chars, j) <= utf8_offset(chars, k),
{
    assert(chars.take(k) =~= chars.take(j) + chars.subrange(j, k));
    lemma_encode_utf8_concat(chars.take(j), chars.subrange(j, k));
}

proof fn lemma_entry_present(chars: Seq<char>, requested: Seq<(usize, usize)>, n: int, k: int)
    requires
        0 <= k < n,
        requested_has(requested, position(chars, k)),
    ensures
        exists|i: int|
            0 <= i < resolved_entries(chars, requested, n).len() && #[trigger] resolved_entries(chars, requested, n)[i]
                == (position(chars, k), utf8_offset(chars, k), utf8_offset(chars, k + 1)),
    decreases n,
{
    let previous = resolved_entries(chars, requested, n - 1);
    if k < n - 1 {
        lemma_entry_present(chars, requested, n - 1, k);
        let i = choose|i: int|
            0 <= i < previous.len() && #[trigger] previous[i] == (
                position(chars, k),
                utf8_offset(chars, k),
                utf8_offset(chars, k + 1),
            );
        assert(resolved_entries(chars, requested, n)[i] == previous[i]);
    } else {
        assert(resolved_entries(chars, requested, n)[previous.len() as int] == (
            position(chars, k),
            utf8_offset(chars, k),
            utf8_offset(chars, k + 1),
        ));
    }
}

proof fn lemma_entry_origin(chars: Seq<char>, requested: Seq<(usize, usize)>, n: int, i: int)
    requires
        0 <= n,
        0 <= i < resolved_entries(chars, requested, n).len(),
    ensures
        exists|k: int|
            0 <= k < n && #[trigger] position(chars, k) == resolved_entries(chars, requested, n)[i].0
                && resolved_entries(chars, requested, n)[i].1 == utf8_offset(chars, k)
                && resolved_entries(chars, requested, n)[i].2 == utf8_offset(chars, k + 1),
    decreases n,
{
    let previous = resolved_entries(chars, requested, n - 1);
    if i < previous.len() {
        lemma_entry_origin(chars, requested, n - 1, i);
        let k = choose|k: int|
            0 <= k < n - 1 && #[trigger] position(chars, k) == previous[i].0 && previous[i].1 == utf8_offset(chars, k)
                && previous[i].2 == utf8_offset(chars, k + 1);
        assert(resolved_entries(chars, requested, n)[i] == previous[i]);
        assert(position(chars, k) == resolved_entries(chars, requested, n)[i].0);
    } else {
        assert(position(chars, n - 1) == resolved_entries(chars, requested, n)[i].0);
    }
}

proof fn lemma_lookup_character(
    resolution: ResolvedSourceEndpoints,
    chars: Seq<char>,
    requested: Seq<(usize, usize)>,
    c: (usize, usize),
    k: int,
)
    requires
        resolution.wf(),
        resolution.spec_endpoints().map_values(|e| entry_view(e)) == resolved_entries(chars, requested, chars.len() as int),
        requested.contains(c),
        0 <= k < chars.len(),
        position(chars, k) == as_pos(c),
    ensures
        spec_lookup(resolution.spec_endpoints(), resolution.spec_line_count(), c, false) == Ok::<int, SpanDefect>(
            utf8_offset(chars, k),
        ),
        spec_lookup(resolution.spec_endpoints(), resolution.spec_line_count(), c, true) == Ok::<int, SpanDefect>(
            utf8_offset(chars, k + 1),
        ),
{
    let n = chars.len() as int;
    let entries = resolution.spec_endpoints();
    let mapped = entries.map_values(|e| entry_view(e));
    let m = choose|m: int| 0 <= m < requested.len() && requested[m] == c;
    assert(as_pos(requested[m]) == position(chars, k));
    assert(requested_has(requested, position(chars, k)));
    lemma_entry_present(chars, requested, n, k);
    let i = choose|i: int|
        0 <= i < resolved_entries(chars, requested, n).len() && #[trigger] resolved_entries(chars, requested, n)[i]
            == (position(chars, k), utf8_offset(chars, k), utf8_offset(chars, k + 1));
    assert(mapped[i] == entry_view(entries[i]));
    assert(entries[i].0 == c);
    lemma_position_bounds(chars, k);
    assert(c.0 != 0 && c.1 != 0);
    assert(endpoint_index(entries, c) == Some(i)) by {
        let j = choose|j: int| 0 <= j < entries.len() && #[trigger] entries[j].0 == c;
        if j < i {
            assert(pos_lt(as_pos(entries[j].0), as_pos(entries[i].0)));
        } else if j > i {
            assert(pos_lt(as_pos(entries[i].0), as_pos(entries[j].0)));
        }
    }
}

/// A requested coordinate that names a character resolves to that
/// character's bytes; one that names none resolves to no endpoint.
pub proof fn lemma_requested_coordinate_resolution(
    resolution: ResolvedSourceEndpoints,
    chars: Seq<char>,
    requested: Seq<(usize, usize)>,
    c: (usize, usize),
)
    requires
        resolution.wf(),
        resolution.spec_endpoints().map_values(|e| entry_view(e)) == resolved_entries(chars, requested, chars.len() as int),
    ensures
        endpoint_index(resolution.spec_endpoints(), c) is Some ==> exists|k: int|
            0 <= k < chars.len() && #[trigger] position(chars, k) == as_pos(c),
        requested.contains(c) ==> (endpoint_index(resolution.spec_endpoints(), c) is Some <==> exists|k: int|
            0 <= k < chars.len() && #[trigger] position(chars, k) == as_pos(c)),
{
    let n = chars.len() as int;
    let entries = resolution.spec_endpoints();
    let mapped = entries.map_values(|e| entry_view(e));
    if endpoint_index(entries, c) is Some {
        let i = choose|i: int| 0 <= i < entries.len() && #[trigger] entries[i].0 == c;
        assert(mapped[i] == entry_view(entries[i]));
        lemma_entry_origin(chars, requested, n, i);
        let k = choose|k: int|
            0 <= k < n && #[trigger] position(chars, k) == resolved_entries(chars, requested, n)[i].0
                && resolved_entries(chars, requested, n)[i].1 == utf8_offset(chars, k)
                && resolved_entries(chars, requested, n)[i].2 == utf8_offset(chars, k + 1);
        assert(position(chars, k) == as_pos(c));
    }
    if requested.contains(c) {
        if exists|k: int| 0 <= k < chars.len() && #[trigger] position(chars, k) == as_pos(c) {
            let k = choose|k: int| 0 <= k < chars.len() && #[trigger] position(chars, k) == as_pos(c);
            lemma_lookup_character(resolution, chars, requested, c, k);
            lemma_position_bounds(chars, k);
        }
    }
}

/// When both endpoints of a span were requested and name the characters at
/// indices `kb <= ke`, the span maps to the bytes from the start of the first
/// character to the end of the last one.
pub proof fn lemma_span_maps_to_character_bytes(
    resolution: ResolvedSourceEndpoints,
    chars: Seq<char>,
    requested: Seq<(usize, usize)>,
    span: &RustdocSourceSpan,
    kb: int,
    ke: int,
)
    requires
        resolution.wf(),
        resolution.spec_endpoints().map_values(|e| entry_view(e)) == resolved_entries(chars, requested, chars.len() as int),
        requested.contains(span.begin),
        requested.contains(span.end),
        0 <= kb <= ke < chars.len(),
        position(chars, kb) == as_pos(span.begin),
        position(chars, ke) == as_pos(span.end),
    ensures
        resolution.spec_byte_range(span) == Ok::<(int, int), SpanDefect>(
            (utf8_offset(chars, kb), utf8_offset(chars, ke + 1)),
        ),
{
    lemma_lookup_character(resolution, chars, requested, span.begin, kb);
    lemma_lookup_character(resolution, chars, requested, span.end, ke);
    lemma_offset_step(chars, kb);
    lemma_offset_monotone(chars, kb + 1, ke + 1);
    char_is_scalar(chars[kb]);
    assert(encode_scalar(chars[kb] as u32).len() >= 1);
}


/// The index of the character at coordinate `c`, if some character is
/// there.
pub open spec fn char_at(chars: Seq<char>, c: (usize, usize)) -> Option<int> {
    if exists|k: int| 0 <= k < chars.len() && #[trigger] position(chars, k) == as_pos(c) {
        Some(choose|k: int| 0 <= k < chars.len() && #[trigger] position(chars, k) == as_pos(c))
    } else {
        None
    }
}

/// The byte offset that coordinate `c` denotes in `chars`: where its
/// character begins, or for an inclusive end where it ends; or why it
/// denotes none.
pub open spec fn coordinate_offset(chars: Seq<char>, c: (usize, usize), inclusive_end: bool) -> Result<int, SpanDefect> {
    if c.0 == 0 || c.1 == 0 {
        Err(SpanDefect::OneIndexed)
    } else {
        match char_at(chars, c) {
            Some(k) => Ok(if inclusive_end { utf8_offset(chars, k + 1) } else { utf8_offset(chars, k) }),
            None => if c.0 > position(chars, chars.len() as int).0 {
                Err(SpanDefect::LineOutsideFile)
            } else {
                Err(SpanDefect::ColumnOutsideLine)
            },
        }
    }
}

/// The byte range of the characters `span` covers in `chars`, or the first
/// defect: the start, then the inclusive end, then their order.
pub open spec fn span_bytes(chars: Seq<char>, span: &RustdocSourceSpan) -> Result<(int, int), SpanDefect> {
    match coordinate_offset(chars, span.begin, false) {
        Err(d) => Err(d),
        Ok(start) => match coordinate_offset(chars, span.end, true) {
            Err(d) => Err(d),
            Ok(end) => if end <= start {
                Err(SpanDefect::EndPrecedesBegin)
            } else {
                Ok((start, end))
            },
        },
    }
}

proof fn lemma_lookup_matches(
    resolution: ResolvedSourceEndpoints,
    chars: Seq<char>,
    requested: Seq<(usize, usize)>,
    c: (usize, usize),
    inclusive_end: bool,
)
    requires
        resolution.wf(),
        resolution.spec_endpoints().map_values(|e| entry_view(e)) == resolved_entries(chars, requested, chars.len() as int),
        resolution.spec_line_count() == position(chars, chars.len() as int).0,
        requested.contains(c),
    ensures
        spec_lookup(resolution.spec_endpoints(), resolution.spec_line_count(), c, inclusive_end) == coordinate_offset(
            chars,
            c,
            inclusive_end,
        ),
{
    if c.0 != 0 && c.1 != 0 {
        match char_at(chars, c) {
            Some(k) => {
                lemma_lookup_character(resolution, chars, requested, c, k);
            },
            None => {
                lemma_requested_coordinate_resolution(resolution, chars, requested, c);
            },
        }
    }
}

/// Whatever else was requested from a file, a span whose endpoints were
/// requested maps to the byte range of the characters it covers.
pub proof fn lemma_byte_range_is_span_bytes(
    resolution: ResolvedSourceEndpoints,
    chars: Seq<char>,
    requested: Seq<(usize, usize)>,
    span: &RustdocSourceSpan,
)
    requires
        resolution.wf(),
        resolution.spec_endpoints().map_values(|e| entry_view(e)) == resolved_entries(chars, requested, chars.len() as int),
        resolution.spec_line_count() == position(chars, chars.len() as int).0,
        requested.contains(span.begin),
        requested.contains(span.end),
    ensures
        resolution.spec_byte_range(span) == span_bytes(chars, span),
{
    lemma_lookup_matches(resolution, chars, requested, span.begin, false);
    lemma_lookup_matches(resolution, chars, requested, span.end, true);
}


proof fn lemma_entry_requested(chars: Seq<char>, requested: Seq<(usize, usize)>, n: int, i: int)
    requires
        0 <= n,
        0 <= i < resolved_entries(chars, requested, n).len(),
    ensures
        requested_has(requested, resolved_entries(chars, requested, n)[i].0),
    decreases n,
{
    let previous = resolved_entries(chars, requested, n - 1);
    if i < previous.len() {
        lemma_entry_requested(chars, requested, n - 1, i);
        assert(resolved_entries(chars, requested, n)[i] == previous[i]);
    }
}

/// A resolution holds at most one endpoint per distinct requested
/// coordinate, however often each was requested and however long the
/// source is.
pub proof fn lemma_endpoints_bounded_by_unique_requests(
    resolution: ResolvedSourceEndpoints,
    chars: Seq<char>,
    requested: Seq<(usize, usize)>,
)
    requires
        resolution.wf(),
        resolution.spec_endpoints().map_values(|e| entry_view(e)) == resolved_entries(chars, requested, chars.len() as int),
    ensures
        resolution.spec_endpoints().len() <= requested.to_set().len(),
{
    broadcast use vstd::seq_lib::seq_to_set_is_finite;
    let entries = resolution.spec_endpoints();
    let n = chars.len() as int;
    let coords = entries.map_values(|e: ((usize, usize), usize, usize)| e.0);
    assert(coords.no_duplicates()) by {
        assert forall|i: int, j: int| 0 <= i < coords.len() && 0 <= j < coords.len() && i != j implies coords[i]
            != coords[j] by {
            if i < j {
                assert(pos_lt(as_pos(entries[i].0), as_pos(entries[j].0)));
            } else {
                assert(pos_lt(as_pos(entries[j].0), as_pos(entries[i].0)));
            }
        }
    }
    coords.unique_seq_to_set();
    assert(coords.to_set().subset_of(requested.to_set())) by {
        assert forall|c: (usize, usize)| coords.to_set().contains(c) implies requested.to_set().contains(c) by {
            let i = choose|i: int| 0 <= i < coords.len() && coords[i] == c;
            let mapped = entries.map_values(|e| entry_view(e));
            assert(mapped[i] == entry_view(entries[i]));
            lemma_entry_requested(chars, requested, n, i);
            let j = choose|j: int| 0 <= j < requested.len() && as_pos(#[trigger] requested[j]) == as_pos(c);
            assert(requested[j] == c);
        }
    }
    vstd::set_lib::lemma_len_subset(coords.to_set(), requested.to_set());
}

} // verus!
