//! Path roles, resolution of a missing path suffix, and lexical containment
//! of resolved paths.
//!
//! A resolved path is the list of its components: the root `/` first, then
//! one name per level, none of them `.` or `..`.

use vstd::prelude::*;

use crate::error::CliError;
use crate::text::{chars_equal, chars_of, has_char};

verus! {

/// User-visible role assigned to a filesystem path during overlap validation.
#[derive(Clone, Copy, Debug, PartialEq, Eq, Structural)]
pub enum PathRole {
    Source,
    Contracts,
    Report,
    ArchiveDirectory,
    ArchiveFile,
    GeneratedOutput,
}

impl PathRole {
    /// The role's user-facing name.
    pub fn name(&self) -> (r: &'static str)
        ensures
            r@ == match *self {
                PathRole::Source => "source"@,
                PathRole::Contracts => "contracts"@,
                PathRole::Report => "report"@,
                PathRole::ArchiveDirectory => "archive directory"@,
                PathRole::ArchiveFile => "archive file"@,
                PathRole::GeneratedOutput => "generated output"@,
            },
    {
        match self {
            PathRole::Source => "source",
            PathRole::Contracts => "contracts",
            PathRole::Report => "report",
            PathRole::ArchiveDirectory => "archive directory",
            PathRole::ArchiveFile => "archive file",
            PathRole::GeneratedOutput => "generated output",
        }
    }
}

/// The character views of strings.
pub open spec fn views(v: Seq<String>) -> Seq<Seq<char>> {
    v.map_values(|s: String| s@)
}

/// A component below the root: a non-empty name that is neither `.` nor
/// `..` and holds no separator.
pub open spec fn name_component(c: Seq<char>) -> bool {
    c.len() > 0 && c != "."@ && c != ".."@ && !has_char(c, '/')
}

/// Components of an absolute, normalized path: the root (`/` on Unix, a
/// drive or share prefix with its separator elsewhere), then names.
pub open spec fn normalized(p: Seq<Seq<char>>) -> bool {
    &&& p.len() >= 1
    &&& p[0].len() > 0
    &&& forall|i: int| 1 <= i < p.len() ==> name_component(#[trigger] p[i])
}

/// `PathBuf::pop` on an absolute path: the root has no parent.
pub open spec fn pop_component(p: Seq<Seq<char>>) -> Seq<Seq<char>> {
    if p.len() > 1 {
        p.drop_last()
    } else {
        p
    }
}

/// Appends `suffix` to `base` the way `PathBuf` pushes do: `.` is skipped
/// and `..` drops the last component.
pub open spec fn restore(base: Seq<Seq<char>>, suffix: Seq<Seq<char>>) -> Seq<Seq<char>>
    decreases suffix.len(),
{
    if suffix.len() == 0 {
        base
    } else {
        let c = suffix.last();
        let before = restore(base, suffix.drop_last());
        if c == "."@ {
            before
        } else if c == ".."@ {
            pop_component(before)
        } else {
            before.push(c)
        }
    }
}

/// A component as a host compares it: as spelled, or with ASCII letters
/// folded to lower case where the host's file names ignore their case.
pub open spec fn fold_component(fold_case: bool, c: Seq<char>) -> Seq<char> {
    if fold_case {
        crate::ownership::portable_key(c)
    } else {
        c
    }
}

/// A path's components as a host compares them.
pub open spec fn comparable(fold_case: bool, p: Seq<Seq<char>>) -> Seq<Seq<char>> {
    if fold_case {
        p.map_values(|c: Seq<char>| crate::ownership::portable_key(c))
    } else {
        p
    }
}

/// `a` is a component-wise prefix of `b`: the path `a` contains `b`.
pub open spec fn path_contains(a: Seq<Seq<char>>, b: Seq<Seq<char>>) -> bool {
    a.len() <= b.len() && b.take(a.len() as int) == a
}

/// The number of leading components `a` and `b` share.
pub open spec fn shared_prefix(a: Seq<Seq<char>>, b: Seq<Seq<char>>, n: int) -> bool {
    &&& 0 <= n <= a.len()
    &&& n <= b.len()
    &&& a.take(n) == b.take(n)
    &&& (n < a.len() && n < b.len() ==> a[n] != b[n])
}

/// The relative path from `origin` to `destination`: one `..` per
/// unshared origin component, then the unshared destination components.
pub open spec fn relative_components(origin: Seq<Seq<char>>, destination: Seq<Seq<char>>, shared: int) -> Seq<
    Seq<char>,
> {
    Seq::new((origin.len() - shared) as nat, |i: int| ".."@) + destination.skip(shared)
}

/// Symlink-aware absolute path used for containment and overlap decisions.
#[derive(Debug)]
pub struct ResolvedPath {
    role: PathRole,
    original: String,
    resolved: Vec<String>,
    fold_case: bool,
}

fn string_of(s: &str) -> (r: String)
    ensures
        r@ == s@,
{
    s.to_owned()
}

impl ResolvedPath {
    pub closed spec fn spec_role(&self) -> PathRole {
        self.role
    }

    pub closed spec fn spec_original(&self) -> Seq<char> {
        self.original@
    }

    /// The resolved components.
    pub closed spec fn spec_resolved(&self) -> Seq<Seq<char>> {
        views(self.resolved@)
    }

    /// Whether the host compares components without regard to ASCII case.
    pub closed spec fn spec_fold_case(&self) -> bool {
        self.fold_case
    }

    /// This path contains `other`, components compared as this path's host
    /// compares them.
    pub open spec fn spec_contains(self, other: Self) -> bool {
        path_contains(
            comparable(self.spec_fold_case(), self.spec_resolved()),
            comparable(self.spec_fold_case(), other.spec_resolved()),
        )
    }

    /// Neither path contains the other.
    pub open spec fn spec_disjoint(self, other: Self) -> bool {
        !self.spec_contains(other) && !other.spec_contains(self)
    }

    /// The path as the user spelled it.
    pub fn original(&self) -> (s: &str)
        ensures
            s@ == self.spec_original(),
    {
        self.original.as_str()
    }

    /// The role of the path.
    pub fn role(&self) -> (r: PathRole)
        ensures
            r == self.spec_role(),
    {
        self.role
    }

    /// The resolved components.
    pub fn resolved(&self) -> (v: &Vec<String>)
        ensures
            views(v@) == self.spec_resolved(),
    {
        &self.resolved
    }

    /// Completes resolution: `ancestor` is the canonical nearest existing
    /// ancestor, and `missing_suffix` the components removed from the
    /// absolute path to reach it, innermost first. They are restored in
    /// their original order: `.` is skipped and `..` goes up a level, while
    /// other names keep their spelling. `fold_case` says whether the host
    /// compares file names without regard to ASCII case.
    pub fn from_resolved_ancestor(
        role: PathRole,
        original: String,
        ancestor: Vec<String>,
        missing_suffix: Vec<String>,
        fold_case: bool,
    ) -> (p: Self)
        requires
            normalized(views(ancestor@)),
            forall|i: int|
                0 <= i < missing_suffix@.len() ==> (#[trigger] missing_suffix@[i])@.len() > 0 && !has_char(
                    missing_suffix@[i]@,
                    '/',
                ),
        ensures
            p.spec_role() == role,
            p.spec_original() == original@,
            p.spec_resolved() == restore(views(ancestor@), views(missing_suffix@).reverse()),
            normalized(p.spec_resolved()),
            p.spec_fold_case() == fold_case,
    {
        let mut resolved = ancestor;
        let ghost base = views(resolved@);
        let dot = chars_of(".");
        let dotdot = chars_of("..");
        proof {
            reveal_strlit(".");
            reveal_strlit("..");
        }
        let mut k: usize = missing_suffix.len();
        while k > 0
            invariant
                k <= missing_suffix@.len(),
                dot@ == "."@,
                dotdot@ == ".."@,
                views(resolved@) == restore(base, views(missing_suffix@).reverse().take(missing_suffix@.len() - k)),
                normalized(views(resolved@)),
                forall|i: int|
                    0 <= i < missing_suffix@.len() ==> (#[trigger] missing_suffix@[i])@.len() > 0 && !has_char(
                        missing_suffix@[i]@,
                        '/',
                    ),
            decreases k,
        {
            k -= 1;
            let ghost done = views(missing_suffix@).reverse().take(missing_suffix@.len() - k - 1);
            let ghost next = views(missing_suffix@).reverse().take(missing_suffix@.len() - k);
            proof {
                assert(next.drop_last() =~= done);
                assert(next.last() == missing_suffix@[k as int]@);
            }
            let component = chars_of(missing_suffix[k].as_str());
            if chars_equal(component.as_slice(), dot.as_slice()) {
            } else if chars_equal(component.as_slice(), dotdot.as_slice()) {
                if resolved.len() > 1 {
                    let ghost before = views(resolved@);
                    resolved.pop();
                    proof {
                        assert(views(resolved@) =~= before.drop_last());
                    }
                }
            } else {
                let ghost before = views(resolved@);
                resolved.push(missing_suffix[k].clone());
                proof {
                    assert(views(resolved@) =~= before.push(missing_suffix@[k as int]@));
                }
            }
        }
        proof {
            assert(views(missing_suffix@).reverse().take(missing_suffix@.len() as int) =~= views(missing_suffix@).reverse());
        }
        ResolvedPath { role, original, resolved, fold_case }
    }

    /// True when two components name the same entry: the same spelling, or,
    /// where the host ignores case, the same spelling up to ASCII case.
    pub fn components_match(left: &str, right: &str, fold_case: bool) -> (r: bool)
        ensures
            r == (fold_component(fold_case, left@) == fold_component(fold_case, right@)),
    {
        if fold_case {
            let l = crate::compiler::extractor::lowercase_ascii(chars_of(left).as_slice());
            let r = crate::compiler::extractor::lowercase_ascii(chars_of(right).as_slice());
            chars_equal(l.as_slice(), r.as_slice())
        } else {
            chars_equal(chars_of(left).as_slice(), chars_of(right).as_slice())
        }
    }

    /// True when this path contains `candidate` (or is the same path),
    /// components compared as this path's host compares them.
    pub fn contains(&self, candidate: &Self) -> (r: bool)
        ensures
            r == self.spec_contains(*candidate),
    {
        let ghost a = comparable(self.fold_case, self.spec_resolved());
        let ghost b = comparable(self.fold_case, candidate.spec_resolved());
        if self.resolved.len() > candidate.resolved.len() {
            return false;
        }
        let mut i: usize = 0;
        while i < self.resolved.len()
            invariant
                i <= self.resolved@.len() <= candidate.resolved@.len(),
                a == comparable(self.fold_case, views(self.resolved@)),
                b == comparable(self.fold_case, views(candidate.resolved@)),
                forall|j: int| 0 <= j < i ==> a[j] == b[j],
            decreases self.resolved@.len() - i,
        {
            proof {
                assert(a[i as int] == fold_component(self.fold_case, self.resolved@[i as int]@));
                assert(b[i as int] == fold_component(self.fold_case, candidate.resolved@[i as int]@));
            }
            if !Self::components_match(self.resolved[i].as_str(), candidate.resolved[i].as_str(), self.fold_case) {
                proof {
                    assert(b.take(a.len() as int)[i as int] != a[i as int]);
                }
                return false;
            }
            i += 1;
        }
        assert(b.take(a.len() as int) =~= a);
        true
    }

    /// Requires every path to be disjoint from every other path: neither
    /// path of any pair contains the other. A refusal names the first
    /// overlapping pair, in the order pairs are checked.
    pub fn ensure_disjoint(paths: &[Self]) -> (r: Result<(), CliError>)
        ensures
            r is Ok <==> forall|i: int, j: int|
                0 <= i < j < paths@.len() ==> (#[trigger] paths@[i]).spec_disjoint(#[trigger] paths@[j]),
            r matches Err(e) ==> exists|i: int, j: int|
                0 <= i < j < paths@.len() && !(#[trigger] paths@[i]).spec_disjoint(#[trigger] paths@[j]) && (
                e matches CliError::OverlappingPaths { first_role, first_path, second_role, second_path }
                    && first_role == paths@[i].spec_role() && first_path@ == paths@[i].spec_original()
                    && second_role == paths@[j].spec_role() && second_path@ == paths@[j].spec_original()) && (
                forall|a: int, b: int|
                    0 <= a < b < paths@.len() && (a < i || (a == i && b < j)) ==> (#[trigger] paths@[a]).spec_disjoint(#[trigger] paths@[b])),
    {
        let mut i: usize = 0;
        while i < paths.len()
            invariant
                i <= paths@.len(),
                forall|a: int, b: int|
                    0 <= a < i && a < b < paths@.len() ==> (#[trigger] paths@[a]).spec_disjoint(#[trigger] paths@[b]),
            decreases paths@.len() - i,
        {
            let mut j: usize = i + 1;
            while j < paths.len()
                invariant
                    i < paths@.len(),
                    i + 1 <= j <= paths@.len(),
                    forall|a: int, b: int|
                        0 <= a < i && a < b < paths@.len() ==> (#[trigger] paths@[a]).spec_disjoint(#[trigger] paths@[b]),
                    forall|b: int| i < b < j ==> paths@[i as int].spec_disjoint(#[trigger] paths@[b]),
                decreases paths@.len() - j,
            {
                let left = &paths[i];
                let right = &paths[j];
                if left.contains(right) || right.contains(left) {
                    return Err(
                        CliError::OverlappingPaths {
                            first_role: left.role,
                            first_path: left.original.clone(),
                            second_role: right.role,
                            second_path: right.original.clone(),
                        },
                    );
                }
                j += 1;
            }
            i += 1;
        }
        Ok(())
    }

    /// The relative path from this location to `target`: one `..` for each
    /// component of this path past the shared prefix, then the rest of
    /// `target`; an error when the paths share no component.
    pub fn relative_path_to(&self, target: &Self) -> (r: Result<Vec<String>, CliError>)
        ensures
            r matches Ok(relative) ==> exists|shared: int|
                shared_prefix(
                    comparable(self.spec_fold_case(), self.spec_resolved()),
                    comparable(self.spec_fold_case(), target.spec_resolved()),
                    shared,
                ) && shared > 0 && views(relative@) == relative_components(
                    self.spec_resolved(),
                    target.spec_resolved(),
                    shared,
                ),
            r matches Err(e) ==> shared_prefix(
                comparable(self.spec_fold_case(), self.spec_resolved()),
                comparable(self.spec_fold_case(), target.spec_resolved()),
                0,
            ) && (e matches CliError::PathResolution { role, path, message } && role == target.spec_role() && path@
                == target.spec_original() && message@ == "paths do not share a filesystem prefix"@),
            normalized(self.spec_resolved()) && normalized(target.spec_resolved()) && self.spec_resolved()[0]
                == target.spec_resolved()[0] ==> r is Ok,
    {
        let ghost a = self.spec_resolved();
        let ghost b = target.spec_resolved();
        let ghost ca = comparable(self.fold_case, a);
        let ghost cb = comparable(self.fold_case, b);
        let mut shared: usize = 0;
        while shared < self.resolved.len() && shared < target.resolved.len() && Self::components_match(
            self.resolved[shared].as_str(),
            target.resolved[shared].as_str(),
            self.fold_case,
        )
            invariant
                shared <= self.resolved@.len(),
                shared <= target.resolved@.len(),
                a == views(self.resolved@),
                b == views(target.resolved@),
                ca == comparable(self.fold_case, a),
                cb == comparable(self.fold_case, b),
                ca.take(shared as int) == cb.take(shared as int),
            decreases self.resolved@.len() - shared,
        {
            proof {
                assert(ca[shared as int] == fold_component(self.fold_case, a[shared as int]));
                assert(cb[shared as int] == fold_component(self.fold_case, b[shared as int]));
                assert(ca.take(shared + 1) =~= ca.take(shared as int).push(ca[shared as int]));
                assert(cb.take(shared + 1) =~= cb.take(shared as int).push(cb[shared as int]));
            }
            shared += 1;
        }
        proof {
            if shared < a.len() && shared < b.len() {
                assert(ca[shared as int] == fold_component(self.fold_case, a[shared as int]));
                assert(cb[shared as int] == fold_component(self.fold_case, b[shared as int]));
            }
            assert(shared_prefix(ca, cb, shared as int));
        }
        if shared == 0 {
            proof {
                reveal_strlit("paths do not share a filesystem prefix");
                if normalized(a) && normalized(b) && a[0] == b[0] {
                    assert(ca[0] == fold_component(self.fold_case, a[0]));
                    assert(cb[0] == fold_component(self.fold_case, b[0]));
                    assert(ca.take(1) =~= cb.take(1));
                }
            }
            return Err(
                CliError::PathResolution {
                    role: target.role,
                    path: target.original.clone(),
                    message: string_of("paths do not share a filesystem prefix"),
                },
            );
        }
        let mut relative: Vec<String> = Vec::new();
        let mut k: usize = shared;
        while k < self.resolved.len()
            invariant
                shared <= k <= self.resolved@.len(),
                views(relative@) == Seq::new((k - shared) as nat, |i: int| ".."@),
            decreases self.resolved@.len() - k,
        {
            let ghost before = views(relative@);
            let up = string_of("..");
            relative.push(up);
            proof {
                assert(views(relative@) =~= before.push(".."@));
                assert(views(relative@) =~= Seq::new((k + 1 - shared) as nat, |i: int| ".."@));
            }
            k += 1;
        }
        let ghost ups = views(relative@);
        let mut m: usize = shared;
        while m < target.resolved.len()
            invariant
                shared <= m <= target.resolved@.len(),
                b == views(target.resolved@),
                views(relative@) == ups + b.subrange(shared as int, m as int),
            decreases target.resolved@.len() - m,
        {
            let ghost before = views(relative@);
            let name = target.resolved[m].clone();
            relative.push(name);
            proof {
                assert(views(relative@) =~= before.push(b[m as int]));
            }
            m += 1;
            assert(views(relative@) =~= ups + b.subrange(shared as int, m as int));
        }
        proof {
            assert(b.subrange(shared as int, b.len() as int) =~= b.skip(shared as int));
            assert(views(relative@) =~= relative_components(a, b, shared as int));
        }
        Ok(relative)
    }
}

/// Following the relative path from `origin` leads to `destination`:
/// restoring `relative_components(origin, destination, shared)` onto
/// `origin` yields `destination` for normalized paths.
pub proof fn lemma_relative_path_round_trip(origin: Seq<Seq<char>>, destination: Seq<Seq<char>>, shared: int)
    requires
        normalized(origin),
        normalized(destination),
        shared_prefix(origin, destination, shared),
        shared > 0,
    ensures
        restore(origin, relative_components(origin, destination, shared)) == destination,
{
    let ups = Seq::new((origin.len() - shared) as nat, |i: int| ".."@);
    let rest = destination.skip(shared);
    lemma_restore_ups(origin, (origin.len() - shared) as nat);
    assert(origin.take(shared) == destination.take(shared));
    lemma_restore_append(origin, ups, rest);
    lemma_restore_names(origin.take(shared), rest);
    assert(origin.take(shared) + rest =~= destination);
}

/// Restoring `n` parent steps onto a normalized path keeps all but its last
/// `n` components, as long as the root stays.
proof fn lemma_restore_ups(p: Seq<Seq<char>>, n: nat)
    requires
        normalized(p),
        n < p.len(),
    ensures
        restore(p, Seq::new(n, |i: int| ".."@)) == p.take(p.len() - n),
    decreases n,
{
    reveal_strlit("..");
    reveal_strlit(".");
    let s = Seq::new(n, |i: int| ".."@);
    if n == 0 {
        assert(p.take(p.len() as int) =~= p);
    } else {
        assert(s.drop_last() =~= Seq::new((n - 1) as nat, |i: int| ".."@));
        lemma_restore_ups(p, (n - 1) as nat);
        assert(s.last() == ".."@);
        assert(".."@.len() != "."@.len());
        assert(p.take(p.len() - (n - 1)).drop_last() =~= p.take(p.len() - n));
    }
}

/// Restoring `a + b` is restoring `a`, then `b`.
proof fn lemma_restore_append(p: Seq<Seq<char>>, a: Seq<Seq<char>>, b: Seq<Seq<char>>)
    ensures
        restore(p, a + b) == restore(restore(p, a), b),
    decreases b.len(),
{
    if b.len() == 0 {
        assert(a + b =~= a);
    } else {
        assert((a + b).drop_last() =~= a + b.drop_last());
        assert((a + b).last() == b.last());
        lemma_restore_append(p, a, b.drop_last());
    }
}

/// Restoring plain names appends them.
proof fn lemma_restore_names(p: Seq<Seq<char>>, names: Seq<Seq<char>>)
    requires
        forall|i: int| 0 <= i < names.len() ==> name_component(#[trigger] names[i]),
    ensures
        restore(p, names) == p + names,
    decreases names.len(),
{
    reveal_strlit(".");
    reveal_strlit("..");
    if names.len() == 0 {
        assert(p + names =~= p);
    } else {
        lemma_restore_names(p, names.drop_last());
        assert(name_component(names.last()));
        assert(p + names =~= (p + names.drop_last()).push(names.last()));
    }
}


/// Containment of resolved paths is a partial order: every path contains
/// itself, containment is transitive, and paths that contain each other
/// are the same path.
pub proof fn lemma_containment_order(a: Seq<Seq<char>>, b: Seq<Seq<char>>, c: Seq<Seq<char>>)
    ensures
        path_contains(a, a),
        path_contains(a, b) && path_contains(b, c) ==> path_contains(a, c),
        path_contains(a, b) && path_contains(b, a) ==> a == b,
{
    assert(a.take(a.len() as int) =~= a);
    if path_contains(a, b) && path_contains(b, c) {
        assert(c.take(a.len() as int) =~= c.take(b.len() as int).take(a.len() as int));
    }
    if path_contains(a, b) && path_contains(b, a) {
        assert(b.take(b.len() as int) =~= b);
    }
}

} // verus!
