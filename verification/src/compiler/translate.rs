//! Translation of rustdoc item spans into source provenance: each local item
//! with a span in a mapped source file gets the exact byte range of the
//! characters its span covers; each local item without a span is attributed
//! to the crate root.

use vstd::prelude::*;
use vstd::utf8::*;

use crate::compiler::error::{CompilerError, CompilerOperation, CompilerSemanticResource};
use crate::compiler::limits::CompilerUsage;
use crate::compiler::source::{
    lemma_byte_range_is_span_bytes, position, resolved_entries, span_bytes, span_error, entry_view, ResolvedSourceEndpoints,
    RustdocSourceSpan, SourceEndpointResolver,
};

verus! {

/// One rustdoc item as translation sees it: its id, its crate, its span, and
/// the index of the mapped source file its span names, when that file is one
/// of the selected sources.
pub struct SourceItem {
    pub item_id: u32,
    pub crate_id: u32,
    pub span: Option<RustdocSourceSpan>,
    pub mapped_file: Option<usize>,
}

/// A selected source file: its catalog path and bytes.
pub struct MappedSourceFile {
    pub path: String,
    pub bytes: Vec<u8>,
}

/// Where an item's source comes from.
#[derive(Debug)]
pub enum CompilerSourceProvenance {
    /// The compiler generated the item; it is attributed to the crate root.
    CompilerGenerated { crate_root: String },
    /// The item's span covers these bytes of a selected source file.
    Exact { file: String, byte_start: u64, byte_end: u64 },
}

/// The provenance of one rustdoc item.
#[derive(Debug)]
pub struct CompilerSourcePath {
    pub rustdoc_item_id: u32,
    pub provenance: CompilerSourceProvenance,
}

/// An item of the local crate that is either generated or spans a mapped
/// source file.
pub open spec fn translated(item: SourceItem) -> bool {
    item.crate_id == 0 && (item.span is None || item.mapped_file is Some)
}

/// The indices of the translated items among the first `n`, in order.
pub open spec fn kept_items(items: Seq<SourceItem>, n: int) -> Seq<int>
    decreases n,
{
    if n <= 0 {
        seq![]
    } else if translated(items[n - 1]) {
        kept_items(items, n - 1).push(n - 1)
    } else {
        kept_items(items, n - 1)
    }
}

/// The coordinates requested from file `f` for the pending items.
pub open spec fn file_requests(items: Seq<SourceItem>, pending: Seq<int>, f: usize) -> Seq<(usize, usize)>
    decreases pending.len(),
{
    if pending.len() == 0 {
        seq![]
    } else {
        let previous = file_requests(items, pending.drop_last(), f);
        let item = items[pending.last()];
        if item.span is Some && item.mapped_file == Some(f) {
            previous.push(item.span.unwrap().begin).push(item.span.unwrap().end)
        } else {
            previous
        }
    }
}

/// `m` is the provenance of `item`.
pub open spec fn describes(
    m: CompilerSourcePath,
    item: SourceItem,
    files: Seq<MappedSourceFile>,
    crate_root: Seq<char>,
) -> bool {
    &&& m.rustdoc_item_id == item.item_id
    &&& match item.span {
        None => m.provenance matches CompilerSourceProvenance::CompilerGenerated { crate_root: r } && r@ == crate_root,
        Some(span) => {
            &&& item.mapped_file matches Some(f)
            &&& m.provenance matches CompilerSourceProvenance::Exact { file, byte_start, byte_end }
            &&& file@ == files[f as int].path@
            &&& valid_utf8(files[f as int].bytes@)
            &&& span_bytes(decode_utf8(files[f as int].bytes@), &span) == Ok::<(int, int), crate::compiler::error::SpanDefect>(
                (byte_start as int, byte_end as int),
            )
        },
    }
}

/// `e` reports that `item`'s source file is not UTF-8 or that its span
/// covers no characters of it.
pub open spec fn item_failure(e: CompilerError, item: SourceItem, files: Seq<MappedSourceFile>) -> bool {
    match item.span {
        None => false,
        Some(span) => match item.mapped_file {
            None => false,
            Some(f) => {
                ||| (e is InvalidMappedSourceUtf8 && !valid_utf8(files[f as int].bytes@))
                ||| (valid_utf8(files[f as int].bytes@) && match span_bytes(decode_utf8(files[f as int].bytes@), &span) {
                    Err(d) => span_error(e, &span, d),
                    Ok(_) => false,
                })
            },
        },
    }
}

proof fn lemma_kept_prefix(items: Seq<SourceItem>, i: int, n: int)
    requires
        0 <= i <= n,
    ensures
        kept_items(items, i).len() <= kept_items(items, n).len(),
        kept_items(items, n).take(kept_items(items, i).len() as int) == kept_items(items, i),
    decreases n - i,
{
    if i < n {
        lemma_kept_prefix(items, i, n - 1);
        let a = kept_items(items, i);
        let b = kept_items(items, n - 1);
        let c = kept_items(items, n);
        if translated(items[n - 1]) {
            assert(c.take(a.len() as int) =~= b.take(a.len() as int));
        }
    } else {
        assert(kept_items(items, n).take(kept_items(items, n).len() as int) =~= kept_items(items, n));
    }
}

proof fn lemma_kept_bounds(items: Seq<SourceItem>, n: int)
    requires
        0 <= n <= items.len(),
    ensures
        forall|j: int|
            0 <= j < kept_items(items, n).len() ==> 0 <= #[trigger] kept_items(items, n)[j] < n && translated(
                items[kept_items(items, n)[j]],
            ),
    decreases n,
{
    if n > 0 {
        lemma_kept_bounds(items, n - 1);
        let previous = kept_items(items, n - 1);
        let current = kept_items(items, n);
        assert forall|j: int| 0 <= j < current.len() implies 0 <= #[trigger] current[j] < n && translated(
            items[current[j]],
        ) by {
            if j < previous.len() {
                assert(current[j] == previous[j]);
            }
        }
    }
}

proof fn lemma_requests_contain(items: Seq<SourceItem>, pending: Seq<int>, f: usize, j: int)
    requires
        0 <= j < pending.len(),
        items[pending[j]].span is Some,
        items[pending[j]].mapped_file == Some(f),
    ensures
        file_requests(items, pending, f).contains(items[pending[j]].span.unwrap().begin),
        file_requests(items, pending, f).contains(items[pending[j]].span.unwrap().end),
    decreases pending.len(),
{
    let previous = file_requests(items, pending.drop_last(), f);
    let all = file_requests(items, pending, f);
    let span = items[pending[j]].span.unwrap();
    if j < pending.len() - 1 {
        assert(pending.drop_last()[j] == pending[j]);
        lemma_requests_contain(items, pending.drop_last(), f, j);
        let a = choose|a: int| 0 <= a < previous.len() && previous[a] == span.begin;
        let b = choose|b: int| 0 <= b < previous.len() && previous[b] == span.end;
        assert(all[a] == span.begin);
        assert(all[b] == span.end);
    } else {
        assert(all[all.len() - 2] == span.begin);
        assert(all[all.len() - 1] == span.end);
    }
}

/// The resolution recorded for file `f` was made from the file's bytes and
/// every coordinate the pending items request from it.
pub open spec fn resolution_of(
    res: ResolvedSourceEndpoints,
    bytes: Seq<u8>,
    requested: Seq<(usize, usize)>,
) -> bool {
    let chars = decode_utf8(bytes);
    &&& valid_utf8(bytes)
    &&& res.wf()
    &&& res.spec_endpoints().map_values(|e| entry_view(e)) == resolved_entries(chars, requested, chars.len() as int)
    &&& res.spec_line_count() == position(chars, chars.len() as int).0
}

/// Resolves every coordinate the pending items request from file `f`.
fn resolve_file(
    usage: &CompilerUsage,
    items: &Vec<SourceItem>,
    pending: &Vec<usize>,
    file: &MappedSourceFile,
    f: usize,
    path: &str,
) -> (r: Result<ResolvedSourceEndpoints, CompilerError>)
    requires
        file.bytes@.len() < usize::MAX,
        forall|j: int| 0 <= j < pending@.len() ==> (#[trigger] pending@[j]) < items@.len(),
    ensures
        r matches Ok(res) ==> resolution_of(
            res,
            file.bytes@,
            file_requests(items@, pending@.map_values(|p: usize| p as int), f),
        ),
        r matches Err(e) ==> e is CompilerExtractionCancelled || e is ProcessTimeout || (
        e matches CompilerError::InvalidMappedSourceUtf8 { path: p } && p@ == path@ && !valid_utf8(file.bytes@)),
{
    let ghost indices = pending@.map_values(|p: usize| p as int);
    let mut resolver = SourceEndpointResolver::new(file.bytes.as_slice());
    let mut k: usize = 0;
    while k < pending.len()
        invariant
            k <= pending@.len(),
            indices == pending@.map_values(|p: usize| p as int),
            forall|j: int| 0 <= j < pending@.len() ==> (#[trigger] pending@[j]) < items@.len(),
            resolver.spec_bytes() == file.bytes@,
            resolver.spec_requested() == file_requests(items@, indices.take(k as int), f),
        decreases pending@.len() - k,
    {
        let item = &items[pending[k]];
        proof {
            assert(indices.take(k + 1).drop_last() =~= indices.take(k as int));
            assert(indices.take(k + 1).last() == pending@[k as int] as int);
        }
        match &item.span {
            Some(span) => {
                if item.mapped_file == Some(f) {
                    resolver.request(span);
                }
            },
            None => {},
        }
        k += 1;
    }
    proof {
        assert(indices.take(pending@.len() as int) =~= indices);
    }
    resolver.resolve(usage, path)
}

/// The kept items a mapping pass takes when `remaining` mappings are left:
/// the first `remaining + 1` of them (one more than fits, so that the
/// overflow is charged), and whether every kept item fits. Cancellation is
/// observed before each item.
pub fn mapping_window(usage: &CompilerUsage, items: &Vec<SourceItem>, remaining: u64) -> (r: Result<
    (Vec<usize>, bool),
    CompilerError,
>)
    ensures
        r matches Ok((window, complete)) ==> {
            let kept = kept_items(items@, items@.len() as int);
            let ceiling = crate::catalog::sat_add(remaining, 1);
            &&& window@.map_values(|p: usize| p as int) == kept.take(
                if kept.len() <= ceiling { kept.len() as int } else { ceiling as int },
            )
            &&& complete == (kept.len() < ceiling)
        },
        r matches Err(e) ==> e is CompilerExtractionCancelled || e is ProcessTimeout,
{
    let ceiling = remaining.saturating_add(1);
    let mut pending: Vec<usize> = Vec::new();
    let mut i: usize = 0;
    while i < items.len()
        invariant
            i <= items@.len(),
            ceiling == crate::catalog::sat_add(remaining, 1),
            pending@.map_values(|p: usize| p as int) == kept_items(items@, i as int),
            pending@.len() <= ceiling,
        ensures
            i <= items@.len(),
            pending@.map_values(|p: usize| p as int) == kept_items(items@, i as int),
            pending@.len() <= ceiling,
            i == items@.len() || pending@.len() >= ceiling,
        decreases items@.len() - i,
    {
        usage.checkpoint(CompilerOperation::Rustdoc)?;
        if pending.len() as u64 >= ceiling {
            break;
        }
        let item = &items[i];
        if item.crate_id == 0 && (item.span.is_none() || item.mapped_file.is_some()) {
            let ghost before = pending@;
            pending.push(i);
            proof {
                assert(pending@.map_values(|p: usize| p as int) =~= before.map_values(|p: usize| p as int).push(i as int));
            }
        }
        i += 1;
    }
    let complete = (pending.len() as u64) < ceiling;
    proof {
        let kept = kept_items(items@, items@.len() as int);
        lemma_kept_prefix(items@, i as int, items@.len() as int);
        assert(pending@.map_values(|p: usize| p as int).len() == pending@.len());
        if i == items@.len() {
            assert(kept.take(kept.len() as int) =~= kept);
        }
    }
    Ok((pending, complete))
}

/// Translates the spans of local rustdoc items into source provenance, in
/// item order, stopping after one item more than the remaining mapping
/// budget. Items of other crates, and items whose span names no selected
/// source, are skipped. Each mapping is charged to the shared ledger, so a
/// walk cut short by the budget ends in the source-mapping limit error.
pub fn translate_source_mappings(
    usage: &CompilerUsage,
    items: &Vec<SourceItem>,
    files: &Vec<MappedSourceFile>,
    crate_root: &str,
) -> (r: Result<Vec<CompilerSourcePath>, CompilerError>)
    requires
        forall|i: int|
            0 <= i < items@.len() ==> ((#[trigger] items@[i]).mapped_file matches Some(f) ==> f < files@.len()),
        forall|f: int| 0 <= f < files@.len() ==> (#[trigger] files@[f]).bytes@.len() < usize::MAX,
    ensures
        r matches Ok(m) ==> {
            let kept = kept_items(items@, items@.len() as int);
            &&& m@.len() == kept.len()
            &&& forall|i: int| 0 <= i < m@.len() ==> describes(#[trigger] m@[i], items@[kept[i]], files@, crate_root@)
        },
        r matches Err(e) ==> {
            ||| e is CompilerExtractionCancelled
            ||| e is ProcessTimeout
            ||| e matches CompilerError::CompilerSemanticLimit { operation, resource, limit, observed_at_least }
                && operation == CompilerOperation::Rustdoc && resource == CompilerSemanticResource::SourceMappings
                && limit == usage.spec_limits().source_mappings && (observed_at_least > limit || observed_at_least
                == u64::MAX)
            ||| exists|i: int| 0 <= i < items@.len() && translated(#[trigger] items@[i]) && item_failure(e, items@[i], files@)
        },
        kept_items(items@, items@.len() as int).len() > usage.spec_limits().source_mappings ==> r is Err,
{
    usage.checkpoint(CompilerOperation::Rustdoc)?;
    let remaining = usage.remaining_source_mappings();
    let ghost budget = usage.spec_limits().source_mappings;
    let (pending, complete) = mapping_window(usage, items, remaining)?;
    let ghost indices = pending@.map_values(|p: usize| p as int);
    assert(indices.len() == pending@.len());
    proof {
        let kept = kept_items(items@, items@.len() as int);
        lemma_kept_bounds(items@, items@.len() as int);
        assert forall|j: int| 0 <= j < indices.len() implies indices[j] == kept[j] by {
            assert(indices[j] == kept.take(indices.len() as int)[j]);
        }
        assert forall|j: int| 0 <= j < pending@.len() implies (#[trigger] pending@[j]) < items@.len() && translated(
            items@[pending@[j] as int],
        ) by {
            assert(indices[j] == pending@[j] as int);
        }
    }
    let mut resolutions: Vec<Option<ResolvedSourceEndpoints>> = Vec::new();
    while resolutions.len() < files.len()
        invariant
            resolutions@.len() <= files@.len(),
            forall|g: int| 0 <= g < resolutions@.len() ==> (#[trigger] resolutions@[g]) is None,
        decreases files@.len() - resolutions@.len(),
    {
        resolutions.push(None);
    }
    let mut mappings: Vec<CompilerSourcePath> = Vec::new();
    let mut j: usize = 0;
    while j < pending.len()
        invariant
            j <= pending@.len(),
            indices == pending@.map_values(|p: usize| p as int),
            indices.len() <= kept_items(items@, items@.len() as int).len(),
            kept_items(items@, items@.len() as int).take(indices.len() as int) == indices,
            forall|k: int| 0 <= k < pending@.len() ==> (#[trigger] pending@[k]) < items@.len() && translated(
                items@[pending@[k] as int],
            ),
            forall|i: int|
                0 <= i < items@.len() ==> ((#[trigger] items@[i]).mapped_file matches Some(f) ==> f < files@.len()),
            forall|f: int| 0 <= f < files@.len() ==> (#[trigger] files@[f]).bytes@.len() < usize::MAX,
            resolutions@.len() == files@.len(),
            forall|g: int|
                0 <= g < resolutions@.len() ==> ((#[trigger] resolutions@[g]) matches Some(res) ==> resolution_of(
                    res,
                    files@[g].bytes@,
                    file_requests(items@, indices, g as usize),
                )),
            mappings@.len() == j,
            forall|k: int|
                0 <= k < j ==> describes(#[trigger] mappings@[k], items@[indices[k]], files@, crate_root@),
            complete ==> indices.len() == kept_items(items@, items@.len() as int).len(),
            complete ==> kept_items(items@, items@.len() as int).len() <= budget,
            indices.len() == pending@.len(),
            budget == usage.spec_limits().source_mappings,
        decreases pending@.len() - j,
    {
        usage.checkpoint(CompilerOperation::Rustdoc)?;
        let index = pending[j];
        let item = &items[index];
        proof {
            assert(indices[j as int] == index as int);
            assert(kept_items(items@, items@.len() as int)[j as int] == index as int);
        }
        let provenance = match &item.span {
            None => CompilerSourceProvenance::CompilerGenerated { crate_root: crate_root.to_owned() },
            Some(span) => {
                let f = match item.mapped_file {
                    Some(f) => f,
                    None => {
                        assert(false);
                        0
                    },
                };
                if resolutions[f].is_none() {
                    let resolved = match resolve_file(usage, items, &pending, &files[f], f, span.filename.as_str()) {
                        Ok(resolved) => resolved,
                        Err(e) => {
                            proof {
                                assert(translated(items@[index as int]));
                            }
                            return Err(e);
                        },
                    };
                    resolutions.set(f, Some(resolved));
                }
                let (byte_start, byte_end) = match &resolutions[f] {
                    Some(res) => {
                        proof {
                            lemma_requests_contain(items@, indices, f, j as int);
                            lemma_byte_range_is_span_bytes(
                                *res,
                                decode_utf8(files@[f as int].bytes@),
                                file_requests(items@, indices, f),
                                span,
                            );
                        }
                        match res.byte_range(usage, span) {
                            Ok(range) => range,
                            Err(e) => {
                                proof {
                                    assert(translated(items@[index as int]));
                                }
                                return Err(e);
                            },
                        }
                    },
                    None => {
                        assert(false);
                        (0, 0)
                    },
                };
                CompilerSourceProvenance::Exact {
                    file: files[f].path.clone(),
                    byte_start: byte_start as u64,
                    byte_end: byte_end as u64,
                }
            },
        };
        usage.account_semantic(CompilerOperation::Rustdoc, CompilerSemanticResource::SourceMappings, 1)?;
        mappings.push(CompilerSourcePath { rustdoc_item_id: item.item_id, provenance });
        j += 1;
    }
    if !complete {
        let limit = usage.limits().source_mappings;
        return Err(
            CompilerError::CompilerSemanticLimit {
                operation: CompilerOperation::Rustdoc,
                resource: CompilerSemanticResource::SourceMappings,
                limit,
                observed_at_least: limit.saturating_add(1),
            },
        );
    }
    Ok(mappings)
}

} // verus!
