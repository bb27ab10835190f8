//! Compiler identity and compiler/rustdoc configuration values.

use vstd::prelude::*;

use crate::compiler::error::{CompilerError, CompilerOperation};
use crate::compiler::limits::CompilerUsage;
use crate::text::{
    any_control, chars_less, chars_lt, chars_of, has_control, is_control, is_trimmed, lemma_chars_lt_order, push_str, spec_is_control,
    split_bounds, split_on, string_from_chars, strip_cr, trimmed,
};
use vstd::utf8::encode_utf8;

verus! {

/// Why a `rustc -vV` report was rejected, as a value of the specification.
pub enum IdentityRejection {
    EmptyOrControl,
    Banner,
    MalformedField(Seq<char>),
    InvalidField(Seq<char>),
    MissingField(Seq<char>),
    FieldValues,
}

/// Why a `rustc -vV` report was rejected.
#[derive(Debug)]
pub enum IdentityDefect {
    /// The report is empty or holds a control character other than a line end.
    EmptyOrControl,
    /// The first line is not a canonical `rustc` version banner.
    Banner,
    /// A field line has no `": "` separator.
    MalformedField { line: String },
    /// A field name or value is empty, padded, control-bearing, or repeated.
    InvalidField { name: String },
    /// A required field is absent.
    MissingField { field: &'static str },
    /// The release, commit hash, commit date, or host is not acceptable.
    FieldValues,
}

impl IdentityDefect {
    /// What a user reads of the defect.
    pub open spec fn spec_message(self) -> Seq<char> {
        match self {
            IdentityDefect::EmptyOrControl => "output is empty or contains unsupported control characters"@,
            IdentityDefect::Banner => "first line is not a canonical rustc version banner"@,
            IdentityDefect::MalformedField { line } => "malformed verbose-version field "@ + crate::text::debug_text(
                line@,
            ),
            IdentityDefect::InvalidField { name } => "invalid or duplicate verbose-version field "@
                + crate::text::debug_text(name@),
            IdentityDefect::MissingField { field } => "missing verbose-version field "@ + crate::text::debug_text(
                field@,
            ),
            IdentityDefect::FieldValues => "nightly release, commit, date, or host field is invalid"@,
        }
    }

    /// The defect as a user reads it.
    pub fn message(&self) -> (s: String)
        ensures
            s@ == self.spec_message(),
    {
        let mut s = String::new();
        match self {
            IdentityDefect::EmptyOrControl => {
                crate::text::push_str(&mut s, "output is empty or contains unsupported control characters");
            },
            IdentityDefect::Banner => {
                crate::text::push_str(&mut s, "first line is not a canonical rustc version banner");
            },
            IdentityDefect::MalformedField { line } => {
                crate::text::push_str(&mut s, "malformed verbose-version field ");
                crate::text::push_str(&mut s, crate::text::debug_quoted(line.as_str()).as_str());
            },
            IdentityDefect::InvalidField { name } => {
                crate::text::push_str(&mut s, "invalid or duplicate verbose-version field ");
                crate::text::push_str(&mut s, crate::text::debug_quoted(name.as_str()).as_str());
            },
            IdentityDefect::MissingField { field } => {
                crate::text::push_str(&mut s, "missing verbose-version field ");
                crate::text::push_str(&mut s, crate::text::debug_quoted(field).as_str());
            },
            IdentityDefect::FieldValues => {
                crate::text::push_str(&mut s, "nightly release, commit, date, or host field is invalid");
            },
        }
        proof {
            reveal_strlit("output is empty or contains unsupported control characters");
            reveal_strlit("first line is not a canonical rustc version banner");
            reveal_strlit("malformed verbose-version field ");
            reveal_strlit("invalid or duplicate verbose-version field ");
            reveal_strlit("missing verbose-version field ");
            reveal_strlit("nightly release, commit, date, or host field is invalid");
        }
        s
    }
}

/// True when `d` reports the rejection `r`.
pub open spec fn defect_is(d: IdentityDefect, r: IdentityRejection) -> bool {
    match r {
        IdentityRejection::EmptyOrControl => d is EmptyOrControl,
        IdentityRejection::Banner => d is Banner,
        IdentityRejection::MalformedField(l) => d matches IdentityDefect::MalformedField { line } && line@ == l,
        IdentityRejection::InvalidField(n) => d matches IdentityDefect::InvalidField { name } && name@ == n,
        IdentityRejection::MissingField(n) => d matches IdentityDefect::MissingField { field } && field@ == n,
        IdentityRejection::FieldValues => d is FieldValues,
    }
}

/// A character allowed in a compiler report: anything but a control
/// character, except the line ends `'\n'` and `'\r'`.
pub open spec fn report_char_ok(c: char) -> bool {
    !spec_is_control(c) || c == '\n' || c == '\r'
}

/// The lines of a report: split at `'\n'`, each without one trailing `'\r'`.
pub open spec fn identity_lines(out: Seq<char>) -> Seq<Seq<char>> {
    split_on(out, '\n').map_values(|l: Seq<char>| strip_cr(l))
}

/// `": "` begins at index `i` of `l`.
pub open spec fn separator_at(l: Seq<char>, i: int) -> bool {
    0 <= i && i + 1 < l.len() && l[i] == ':' && l[i + 1] == ' '
}

/// The index of the first `": "` of `l`.
pub open spec fn first_separator(l: Seq<char>) -> Option<int> {
    if exists|i: int| separator_at(l, i) && forall|j: int| 0 <= j < i ==> !separator_at(l, j) {
        Some(choose|i: int| separator_at(l, i) && forall|j: int| 0 <= j < i ==> !separator_at(l, j))
    } else {
        None
    }
}

/// A field name and value are non-empty, unpadded and free of control
/// characters.
pub open spec fn field_ok(name: Seq<char>, value: Seq<char>) -> bool {
    &&& name.len() > 0
    &&& value.len() > 0
    &&& is_trimmed(name)
    &&& is_trimmed(value)
    &&& !has_control(name)
    &&& !has_control(value)
}

/// True when some field is called `name`.
pub open spec fn has_name(fields: Seq<(Seq<char>, Seq<char>)>, name: Seq<char>) -> bool {
    exists|j: int| 0 <= j < fields.len() && (#[trigger] fields[j]).0 == name
}

/// The fields of lines `1..n`, or the first malformed line (`true`) or
/// invalid field name (`false`).
pub open spec fn scan_fields(lines: Seq<Seq<char>>, n: int) -> Result<
    Seq<(Seq<char>, Seq<char>)>,
    (bool, Seq<char>),
>
    decreases n,
{
    if n <= 1 {
        Ok(seq![])
    } else {
        match scan_fields(lines, n - 1) {
            Err(e) => Err(e),
            Ok(fields) => {
                let line = lines[n - 1];
                if line.len() == 0 {
                    Ok(fields)
                } else {
                    match first_separator(line) {
                        None => Err((true, line)),
                        Some(i) => {
                            let name = line.take(i);
                            let value = line.skip(i + 2);
                            if !field_ok(name, value) || has_name(fields, name) {
                                Err((false, name))
                            } else {
                                Ok(fields.push((name, value)))
                            }
                        },
                    }
                }
            },
        }
    }
}

/// The value of the field called `name`.
pub open spec fn field_value(fields: Seq<(Seq<char>, Seq<char>)>, name: Seq<char>) -> Option<Seq<char>> {
    if has_name(fields, name) {
        Some(fields[choose|j: int| 0 <= j < fields.len() && (#[trigger] fields[j]).0 == name].1)
    } else {
        None
    }
}

pub open spec fn rustc_prefix() -> Seq<char> {
    seq!['r', 'u', 's', 't', 'c', ' ']
}

pub open spec fn nightly_suffix() -> Seq<char> {
    seq!['-', 'n', 'i', 'g', 'h', 't', 'l', 'y']
}

pub open spec fn release_key() -> Seq<char> {
    seq!['r', 'e', 'l', 'e', 'a', 's', 'e']
}

pub open spec fn commit_hash_key() -> Seq<char> {
    seq!['c', 'o', 'm', 'm', 'i', 't', '-', 'h', 'a', 's', 'h']
}

pub open spec fn commit_date_key() -> Seq<char> {
    seq!['c', 'o', 'm', 'm', 'i', 't', '-', 'd', 'a', 't', 'e']
}

pub open spec fn host_key() -> Seq<char> {
    seq!['h', 'o', 's', 't']
}

/// ASCII hexadecimal digit.
pub open spec fn is_hex(c: char) -> bool {
    ('0' <= c && c <= '9') || ('a' <= c && c <= 'f') || ('A' <= c && c <= 'F')
}

/// ASCII decimal digit.
pub open spec fn is_digit(c: char) -> bool {
    '0' <= c && c <= '9'
}

/// A character allowed in a host triple.
pub open spec fn host_char_ok(c: char) -> bool {
    ('0' <= c && c <= '9') || ('a' <= c && c <= 'z') || ('A' <= c && c <= 'Z') || c == '-' || c == '_' || c == '.'
}

/// ASCII lowercase of one character.
pub open spec fn ascii_lower(c: char) -> char {
    if 'A' <= c && c <= 'Z' {
        ((c as u32) + 32) as char
    } else {
        c
    }
}

/// True when `needle` occurs in `hay`.
pub open spec fn contains_seq(hay: Seq<char>, needle: Seq<char>) -> bool {
    exists|i: int| 0 <= i && i + needle.len() <= hay.len() && #[trigger] hay.subrange(i, i + needle.len()) == needle
}

/// The nightly release, commit hash, commit date and host are well formed,
/// and the banner names the release.
pub open spec fn identity_values_ok(
    banner: Seq<char>,
    release: Seq<char>,
    hash: Seq<char>,
    date: Seq<char>,
    host: Seq<char>,
) -> bool {
    &&& release.len() >= 8 && release.skip(release.len() - 8) == nightly_suffix()
    &&& hash.len() == 40
    &&& forall|i: int| 0 <= i < hash.len() ==> is_hex(#[trigger] hash[i])
    &&& date.len() == 10
    &&& forall|i: int|
        0 <= i < 10 ==> if i == 4 || i == 7 {
            #[trigger] date[i] == '-'
        } else {
            is_digit(date[i])
        }
    &&& host.len() > 0
    &&& forall|i: int| 0 <= i < host.len() ==> host_char_ok(#[trigger] host[i])
    &&& contains_seq(banner, release)
}

/// A report is non-empty and holds no control character but line ends.
pub open spec fn report_ok(out: Seq<char>) -> bool {
    out.len() > 0 && forall|i: int| 0 <= i < out.len() ==> report_char_ok(#[trigger] out[i])
}

/// The first line is an unpadded, control-free `rustc ` banner.
pub open spec fn banner_ok(banner: Seq<char>) -> bool {
    is_trimmed(banner) && banner.len() >= 6 && banner.take(6) == rustc_prefix() && !has_control(banner)
}

/// The identity reported by `rustc -vV`: release, commit hash, commit date
/// and host; or why the report is rejected.
pub open spec fn spec_identity(out: Seq<char>) -> Result<
    (Seq<char>, Seq<char>, Seq<char>, Seq<char>),
    IdentityRejection,
> {
    let lines = identity_lines(out);
    let banner = lines[0];
    if !report_ok(out) {
        Err(IdentityRejection::EmptyOrControl)
    } else if !banner_ok(banner) {
        Err(IdentityRejection::Banner)
    } else {
        match scan_fields(lines, lines.len() as int) {
            Err((true, line)) => Err(IdentityRejection::MalformedField(line)),
            Err((false, name)) => Err(IdentityRejection::InvalidField(name)),
            Ok(fields) => identity_from_fields(banner, fields),
        }
    }
}

/// The identity named by the parsed fields of a report with banner `banner`.
pub open spec fn identity_from_fields(banner: Seq<char>, fields: Seq<(Seq<char>, Seq<char>)>) -> Result<
    (Seq<char>, Seq<char>, Seq<char>, Seq<char>),
    IdentityRejection,
> {
    match (
        field_value(fields, release_key()),
        field_value(fields, commit_hash_key()),
        field_value(fields, commit_date_key()),
        field_value(fields, host_key()),
    ) {
        (None, _, _, _) => Err(IdentityRejection::MissingField(release_key())),
        (Some(_), None, _, _) => Err(IdentityRejection::MissingField(commit_hash_key())),
        (Some(_), Some(_), None, _) => Err(IdentityRejection::MissingField(commit_date_key())),
        (Some(_), Some(_), Some(_), None) => Err(IdentityRejection::MissingField(host_key())),
        (Some(release), Some(hash), Some(date), Some(host)) => if identity_values_ok(banner, release, hash, date, host) {
            Ok((release, hash.map_values(|c: char| ascii_lower(c)), date, host))
        } else {
            Err(IdentityRejection::FieldValues)
        },
    }
}

/// Copies `chars[start..end]`.
pub fn copy_range(chars: &[char], start: usize, end: usize) -> (v: Vec<char>)
    requires
        start <= end <= chars@.len(),
    ensures
        v@ == chars@.subrange(start as int, end as int),
{
    let mut v: Vec<char> = Vec::new();
    let mut i = start;
    while i < end
        invariant
            start <= i <= end <= chars@.len(),
            v@ == chars@.subrange(start as int, i as int),
        decreases end - i,
    {
        v.push(chars[i]);
        i += 1;
        assert(v@ =~= chars@.subrange(start as int, i as int));
    }
    v
}

fn report_chars_ok(chars: &[char]) -> (r: bool)
    ensures
        r == forall|i: int| 0 <= i < chars@.len() ==> report_char_ok(#[trigger] chars@[i]),
{
    let mut i: usize = 0;
    while i < chars.len()
        invariant
            i <= chars@.len(),
            forall|j: int| 0 <= j < i ==> report_char_ok(#[trigger] chars@[j]),
        decreases chars@.len() - i,
    {
        let c = chars[i];
        if is_control(c) && c != '\n' && c != '\r' {
            return false;
        }
        i += 1;
    }
    true
}

/// True when `s` begins with `prefix`.
pub fn starts_with_chars(s: &[char], prefix: &[char]) -> (r: bool)
    ensures
        r == (s@.len() >= prefix@.len() && s@.take(prefix@.len() as int) == prefix@),
{
    if s.len() < prefix.len() {
        return false;
    }
    let mut i: usize = 0;
    while i < prefix.len()
        invariant
            i <= prefix@.len() <= s@.len(),
            forall|j: int| 0 <= j < i ==> s@[j] == prefix@[j],
        decreases prefix@.len() - i,
    {
        if s[i] != prefix[i] {
            assert(s@.take(prefix@.len() as int)[i as int] != prefix@[i as int]);
            return false;
        }
        i += 1;
    }
    assert(s@.take(prefix@.len() as int) =~= prefix@);
    true
}

/// True when `s` ends with `suffix`.
pub fn ends_with_chars(s: &[char], suffix: &[char]) -> (r: bool)
    ensures
        r == (s@.len() >= suffix@.len() && s@.skip(s@.len() - suffix@.len()) == suffix@),
{
    if s.len() < suffix.len() {
        return false;
    }
    let offset = s.len() - suffix.len();
    let mut i: usize = 0;
    while i < suffix.len()
        invariant
            i <= suffix@.len(),
            offset + suffix@.len() == s@.len(),
            s@.len() == s.len(),
            forall|j: int| 0 <= j < i ==> s@[offset + j] == suffix@[j],
        decreases suffix@.len() - i,
    {
        if s[offset + i] != suffix[i] {
            assert(s@.skip(offset as int)[i as int] != suffix@[i as int]);
            return false;
        }
        i += 1;
    }
    assert(s@.skip(offset as int) =~= suffix@);
    true
}

/// Finds the first `": "` of `line`.
pub fn find_separator(line: &[char]) -> (r: Option<usize>)
    ensures
        r matches Some(i) ==> first_separator(line@) == Some(i as int),
        r is None ==> first_separator(line@) is None,
{
    let mut i: usize = 0;
    while line.len() > 1 && i < line.len() - 1
        invariant
            forall|j: int| 0 <= j < i ==> !separator_at(line@, j),
        decreases line@.len() - i,
    {
        if line[i] == ':' && line[i + 1] == ' ' {
            proof {
                assert(separator_at(line@, i as int));
                let k = choose|k: int| separator_at(line@, k) && forall|j: int| 0 <= j < k ==> !separator_at(line@, j);
                if k < i {
                } else if k > i {
                    assert(!separator_at(line@, i as int));
                }
            }
            return Some(i);
        }
        i += 1;
    }
    proof {
        assert forall|k: int| !separator_at(line@, k) by {
            if separator_at(line@, k) && k >= i {
            }
        }
    }
    None
}

/// The views of parsed fields.
pub open spec fn fields_view(fields: Seq<(Vec<char>, Vec<char>)>) -> Seq<(Seq<char>, Seq<char>)> {
    fields.map_values(|f: (Vec<char>, Vec<char>)| (f.0@, f.1@))
}

/// True when `a` and `b` hold the same characters.
fn same_chars(a: &[char], b: &[char]) -> (r: bool)
    ensures
        r == (a@ == b@),
{
    crate::text::chars_equal(a, b)
}

/// Finds the field called `name`.
fn find_field(fields: &Vec<(Vec<char>, Vec<char>)>, name: &[char]) -> (r: Option<usize>)
    ensures
        r matches Some(j) ==> j < fields@.len() && fields@[j as int].0@ == name@,
        r is None ==> !has_name(fields_view(fields@), name@),
{
    let mut j: usize = 0;
    while j < fields.len()
        invariant
            j <= fields@.len(),
            forall|k: int| 0 <= k < j ==> fields@[k].0@ != name@,
        decreases fields@.len() - j,
    {
        if same_chars(fields[j].0.as_slice(), name) {
            return Some(j);
        }
        j += 1;
    }
    proof {
        if has_name(fields_view(fields@), name@) {
            let k = choose|k: int| 0 <= k < fields_view(fields@).len() && (#[trigger] fields_view(fields@)[k]).0 == name@;
            assert(fields_view(fields@)[k] == (fields@[k].0@, fields@[k].1@));
        }
    }
    None
}

fn all_hex(s: &[char]) -> (r: bool)
    ensures
        r == forall|i: int| 0 <= i < s@.len() ==> is_hex(#[trigger] s@[i]),
{
    let mut i: usize = 0;
    while i < s.len()
        invariant
            i <= s@.len(),
            forall|j: int| 0 <= j < i ==> is_hex(#[trigger] s@[j]),
        decreases s@.len() - i,
    {
        let c = s[i];
        if !(('0' <= c && c <= '9') || ('a' <= c && c <= 'f') || ('A' <= c && c <= 'F')) {
            return false;
        }
        i += 1;
    }
    true
}

fn date_shaped(s: &[char]) -> (r: bool)
    ensures
        r == (s@.len() == 10 && forall|i: int|
            0 <= i < 10 ==> if i == 4 || i == 7 {
                #[trigger] s@[i] == '-'
            } else {
                is_digit(s@[i])
            }),
{
    if s.len() != 10 {
        return false;
    }
    let mut i: usize = 0;
    while i < 10
        invariant
            i <= 10,
            s@.len() == 10,
            forall|j: int|
                0 <= j < i ==> if j == 4 || j == 7 {
                    #[trigger] s@[j] == '-'
                } else {
                    is_digit(s@[j])
                },
        decreases 10 - i,
    {
        let c = s[i];
        if i == 4 || i == 7 {
            if c != '-' {
                return false;
            }
        } else if !('0' <= c && c <= '9') {
            return false;
        }
        i += 1;
    }
    true
}

fn host_ok(s: &[char]) -> (r: bool)
    ensures
        r == (s@.len() > 0 && forall|i: int| 0 <= i < s@.len() ==> host_char_ok(#[trigger] s@[i])),
{
    if s.len() == 0 {
        return false;
    }
    let mut i: usize = 0;
    while i < s.len()
        invariant
            i <= s@.len(),
            forall|j: int| 0 <= j < i ==> host_char_ok(#[trigger] s@[j]),
        decreases s@.len() - i,
    {
        let c = s[i];
        if !(('0' <= c && c <= '9') || ('a' <= c && c <= 'z') || ('A' <= c && c <= 'Z') || c == '-' || c == '_'
            || c == '.') {
            return false;
        }
        i += 1;
    }
    true
}

/// True when `needle` occurs in `hay`.
pub fn contains_chars(hay: &[char], needle: &[char]) -> (r: bool)
    ensures
        r == contains_seq(hay@, needle@),
{
    if needle.len() > hay.len() {
        return false;
    }
    let last = hay.len() - needle.len();
    let mut i: usize = 0;
    let mut done = false;
    while !done
        invariant
            last + needle@.len() == hay@.len(),
            hay@.len() == hay.len(),
            i <= last,
            forall|j: int| 0 <= j < i ==> #[trigger] hay@.subrange(j, j + needle@.len()) != needle@,
            done ==> forall|j: int| 0 <= j <= last ==> #[trigger] hay@.subrange(j, j + needle@.len()) != needle@,
        decreases last - i + (if done { 0int } else { 1int }),
    {
        let mut k: usize = 0;
        let mut same = true;
        while k < needle.len()
            invariant
                i <= last,
                last + needle@.len() == hay@.len(),
                hay@.len() == hay.len(),
                k <= needle@.len(),
                same == forall|m: int| 0 <= m < k ==> hay@[i + m] == needle@[m],
            decreases needle@.len() - k,
        {
            if hay[i + k] != needle[k] {
                same = false;
            }
            k += 1;
        }
        if same {
            assert(hay@.subrange(i as int, i + needle@.len()) =~= needle@);
            return true;
        }
        proof {
            let m = choose|m: int| 0 <= m < needle@.len() && hay@[i + m] != needle@[m];
            assert(hay@.subrange(i as int, i + needle@.len())[m] != needle@[m]);
        }
        if i == last {
            done = true;
        } else {
            i += 1;
        }
    }
    proof {
        assert forall|j: int| 0 <= j && j + needle@.len() <= hay@.len() implies #[trigger] hay@.subrange(
            j,
            j + needle@.len(),
        ) != needle@ by {
            assert(j <= last);
        }
    }
    false
}

pub fn lowercase_ascii(s: &[char]) -> (r: Vec<char>)
    ensures
        r@ == s@.map_values(|c: char| ascii_lower(c)),
{
    let mut r: Vec<char> = Vec::new();
    let mut i: usize = 0;
    while i < s.len()
        invariant
            i <= s@.len(),
            r@ == s@.take(i as int).map_values(|c: char| ascii_lower(c)),
        decreases s@.len() - i,
    {
        let c = s[i];
        let lowered = if 'A' <= c && c <= 'Z' {
            ((c as u8) + 32) as char
        } else {
            c
        };
        assert(lowered == ascii_lower(c));
        r.push(lowered);
        i += 1;
        assert(r@ =~= s@.take(i as int).map_values(|c: char| ascii_lower(c)));
    }
    assert(s@.take(s@.len() as int) =~= s@);
    r
}

proof fn lemma_scan_error_persists(lines: Seq<Seq<char>>, n: int, m: int)
    requires
        n <= m,
        scan_fields(lines, n) is Err,
    ensures
        scan_fields(lines, m) == scan_fields(lines, n),
    decreases m - n,
{
    if n < m {
        lemma_scan_error_persists(lines, n, m - 1);
    }
}

/// The compiler identity recorded in contracts.
#[derive(Debug)]
pub struct CompilerIdentity {
    release: String,
    commit_hash: String,
    commit_date: String,
    host: String,
}

fn identity_error(defect: IdentityDefect) -> (e: CompilerError)
    ensures
        e == (CompilerError::InvalidCompilerIdentity { defect }),
{
    CompilerError::InvalidCompilerIdentity { defect }
}

impl CompilerIdentity {
    pub closed spec fn spec_release(&self) -> Seq<char> {
        self.release@
    }

    pub closed spec fn spec_commit_hash(&self) -> Seq<char> {
        self.commit_hash@
    }

    pub closed spec fn spec_commit_date(&self) -> Seq<char> {
        self.commit_date@
    }

    pub closed spec fn spec_host(&self) -> Seq<char> {
        self.host@
    }

    /// Parses the verbose version report of the pinned nightly `rustc`.
    pub fn parse(output: &str) -> (r: Result<Self, CompilerError>)
        ensures
            match spec_identity(output@) {
                Ok((release, hash, date, host)) => r matches Ok(id) && id.spec_release() == release
                    && id.spec_commit_hash() == hash && id.spec_commit_date() == date && id.spec_host() == host,
                Err(rejection) => r matches Err(CompilerError::InvalidCompilerIdentity { defect }) && defect_is(
                    defect,
                    rejection,
                ),
            },
    {
        let chars = chars_of_report(output);
        let bounds = split_bounds(chars.as_slice(), '\n');
        let ghost lines_spec = identity_lines(chars@);
        let mut lines: Vec<Vec<char>> = Vec::new();
        let mut i: usize = 0;
        while i < bounds.len()
            invariant
                i <= bounds@.len(),
                bounds@.len() == split_on(chars@, '\n').len(),
                forall|j: int|
                    0 <= j < bounds@.len() ==> {
                        &&& 0 <= #[trigger] bounds@[j].0 <= bounds@[j].1 <= chars@.len()
                        &&& chars@.subrange(bounds@[j].0 as int, bounds@[j].1 as int) == split_on(chars@, '\n')[j]
                    },
                lines_spec == identity_lines(chars@),
                lines@.len() == i,
                forall|j: int| 0 <= j < i ==> (#[trigger] lines@[j])@ == lines_spec[j],
            decreases bounds@.len() - i,
        {
            let (start, end) = bounds[i];
            let stop = if end > start && chars[end - 1] == '\r' { end - 1 } else { end };
            let line = copy_range(chars.as_slice(), start, stop);
            proof {
                let piece = split_on(chars@, '\n')[i as int];
                assert(lines_spec[i as int] == strip_cr(piece));
                if end > start && chars@[end - 1] == '\r' {
                    assert(chars@.subrange(start as int, stop as int) =~= piece.drop_last());
                }
            }
            lines.push(line);
            i += 1;
        }
        let ghost out = output@;
        assert(chars@ == out);
        if chars.len() == 0 || !report_chars_ok(chars.as_slice()) {
            return Err(identity_error(IdentityDefect::EmptyOrControl));
        }
        proof {
            crate::text::lemma_split_on_nonempty(chars@, '\n');
            assert(lines_spec.len() >= 1);
            assert(fields_view(Seq::<(Vec<char>, Vec<char>)>::empty()) =~= Seq::<(Seq<char>, Seq<char>)>::empty());
        }
        let banner = lines[0].as_slice();
        let prefix = ['r', 'u', 's', 't', 'c', ' '];
        if !trimmed(banner) || !starts_with_chars(banner, prefix.as_slice()) || any_control(banner) {
            assert(prefix@ == rustc_prefix());
            return Err(identity_error(IdentityDefect::Banner));
        }
        assert(prefix@ == rustc_prefix());
        let mut fields: Vec<(Vec<char>, Vec<char>)> = Vec::new();
        let mut n: usize = 1;
        while n < lines.len()
            invariant
                1 <= n <= lines@.len(),
                lines@.len() == lines_spec.len(),
                forall|j: int| 0 <= j < lines@.len() ==> (#[trigger] lines@[j])@ == lines_spec[j],
                scan_fields(lines_spec, n as int) == Ok::<Seq<(Seq<char>, Seq<char>)>, (bool, Seq<char>)>(fields_view(fields@)),
                lines_spec == identity_lines(output@),
                report_ok(output@),
                banner_ok(lines_spec[0]),
                forall|a: int, b: int| 0 <= a < b < fields@.len() ==> (#[trigger] fields@[a]).0@ != (#[trigger] fields@[b]).0@,
            decreases lines@.len() - n,
        {
            let line = lines[n].as_slice();
            assert(line@ == lines_spec[n as int]);
            if line.len() != 0 {
                match find_separator(line) {
                    None => {
                        proof {
                            assert(scan_fields(lines_spec, n + 1) == Err::<Seq<(Seq<char>, Seq<char>)>, (bool, Seq<char>)>((true, line@)));
                            lemma_scan_error_persists(lines_spec, n + 1, lines_spec.len() as int);
                        }
                        return Err(identity_error(IdentityDefect::MalformedField { line: string_from_chars(line) }));
                    },
                    Some(at) => {
                        let name = copy_range(line, 0, at);
                        let value = copy_range(line, at + 2, line.len());
                        assert(name@ == line@.take(at as int));
                        assert(value@ =~= line@.skip(at + 2));
                        let duplicate = find_field(&fields, name.as_slice()).is_some();
                        proof {
                            if duplicate {
                                let j = choose|j: int| 0 <= j < fields@.len() && fields@[j].0@ == name@;
                                assert(fields_view(fields@)[j] == (fields@[j].0@, fields@[j].1@));
                            }
                        }
                        if name.len() == 0 || value.len() == 0 || !trimmed(name.as_slice()) || !trimmed(value.as_slice())
                            || any_control(name.as_slice()) || any_control(value.as_slice()) || duplicate {
                            proof {
                                assert(scan_fields(lines_spec, n + 1) == Err::<Seq<(Seq<char>, Seq<char>)>, (bool, Seq<char>)>((false, name@)));
                                lemma_scan_error_persists(lines_spec, n + 1, lines_spec.len() as int);
                            }
                            return Err(identity_error(IdentityDefect::InvalidField { name: string_from_chars(name.as_slice()) }));
                        }
                        proof {
                            assert forall|k: int| 0 <= k < fields@.len() implies (#[trigger] fields@[k]).0@ != name@ by {
                                assert(fields_view(fields@)[k] == (fields@[k].0@, fields@[k].1@));
                            }
                        }
                        let ghost before = fields@;
                        fields.push((name, value));
                        proof {
                            assert(fields_view(fields@) =~= fields_view(before).push((name@, value@)));
                        }
                    },
                }
            }
            n += 1;
        }
        assert(scan_fields(lines_spec, lines_spec.len() as int) == Ok::<Seq<(Seq<char>, Seq<char>)>, (bool, Seq<char>)>(fields_view(fields@)));
        Self::from_fields(banner, &fields)
    }

    /// Looks up a required field's value.
    fn required_field(fields: &Vec<(Vec<char>, Vec<char>)>, name: &[char]) -> (r: Option<Vec<char>>)
        requires
            forall|a: int, b: int| 0 <= a < b < fields@.len() ==> (#[trigger] fields@[a]).0@ != (#[trigger] fields@[b]).0@,
        ensures
            r matches Some(v) ==> field_value(fields_view(fields@), name@) == Some(v@),
            r is None ==> field_value(fields_view(fields@), name@) is None,
    {
        match find_field(fields, name) {
            Some(j) => {
                let value = copy_range(fields[j].1.as_slice(), 0, fields[j].1.len());
                proof {
                    let view = fields_view(fields@);
                    assert(view[j as int] == (fields@[j as int].0@, fields@[j as int].1@));
                    assert(has_name(view, name@));
                    let k = choose|k: int| 0 <= k < view.len() && (#[trigger] view[k]).0 == name@;
                    assert(view[k] == (fields@[k].0@, fields@[k].1@));
                    if k != j {
                        if k < j {
                            assert(fields@[k].0@ != fields@[j as int].0@);
                        } else {
                            assert(fields@[j as int].0@ != fields@[k].0@);
                        }
                    }
                    assert(fields@[j as int].1@.subrange(0, fields@[j as int].1@.len() as int) =~= fields@[j as int].1@);
                }
                Some(value)
            },
            None => None,
        }
    }

    /// Builds the identity from the parsed fields of a report whose first
    /// line is `banner`.
    fn from_fields(banner: &[char], fields: &Vec<(Vec<char>, Vec<char>)>) -> (r: Result<Self, CompilerError>)
        requires
            forall|a: int, b: int| 0 <= a < b < fields@.len() ==> (#[trigger] fields@[a]).0@ != (#[trigger] fields@[b]).0@,
        ensures
            match identity_from_fields(banner@, fields_view(fields@)) {
                Ok((release, hash, date, host)) => r matches Ok(id) && id.spec_release() == release
                    && id.spec_commit_hash() == hash && id.spec_commit_date() == date && id.spec_host() == host,
                Err(rejection) => r matches Err(CompilerError::InvalidCompilerIdentity { defect }) && defect_is(
                    defect,
                    rejection,
                ),
            },
    {
        let release_name = ['r', 'e', 'l', 'e', 'a', 's', 'e'];
        let hash_name = ['c', 'o', 'm', 'm', 'i', 't', '-', 'h', 'a', 's', 'h'];
        let date_name = ['c', 'o', 'm', 'm', 'i', 't', '-', 'd', 'a', 't', 'e'];
        let host_name = ['h', 'o', 's', 't'];
        assert(release_name@ == release_key());
        assert(hash_name@ == commit_hash_key());
        assert(date_name@ == commit_date_key());
        assert(host_name@ == host_key());
        let release = match Self::required_field(fields, release_name.as_slice()) {
            Some(v) => v,
            None => {
                proof {
                    reveal_strlit("release");
                    assert("release"@ == release_key());
                }
                return Err(identity_error(IdentityDefect::MissingField { field: "release" }));
            },
        };
        let commit_hash = match Self::required_field(fields, hash_name.as_slice()) {
            Some(v) => v,
            None => {
                proof {
                    reveal_strlit("commit-hash");
                    assert("commit-hash"@ == commit_hash_key());
                }
                return Err(identity_error(IdentityDefect::MissingField { field: "commit-hash" }));
            },
        };
        let commit_date = match Self::required_field(fields, date_name.as_slice()) {
            Some(v) => v,
            None => {
                proof {
                    reveal_strlit("commit-date");
                    assert("commit-date"@ == commit_date_key());
                }
                return Err(identity_error(IdentityDefect::MissingField { field: "commit-date" }));
            },
        };
        let host = match Self::required_field(fields, host_name.as_slice()) {
            Some(v) => v,
            None => {
                proof {
                    reveal_strlit("host");
                    assert("host"@ == host_key());
                }
                return Err(identity_error(IdentityDefect::MissingField { field: "host" }));
            },
        };
        let nightly = ['-', 'n', 'i', 'g', 'h', 't', 'l', 'y'];
        assert(nightly@ == nightly_suffix());
        if !ends_with_chars(release.as_slice(), nightly.as_slice()) || commit_hash.len() != 40 || !all_hex(
            commit_hash.as_slice(),
        ) || !date_shaped(commit_date.as_slice()) || !host_ok(host.as_slice()) || !contains_chars(
            banner,
            release.as_slice(),
        ) {
            return Err(identity_error(IdentityDefect::FieldValues));
        }
        let lowered = lowercase_ascii(commit_hash.as_slice());
        Ok(
            CompilerIdentity {
                release: string_from_chars(release.as_slice()),
                commit_hash: string_from_chars(lowered.as_slice()),
                commit_date: string_from_chars(commit_date.as_slice()),
                host: string_from_chars(host.as_slice()),
            },
        )
    }

    /// The identity as recorded in contracts:
    /// `rustc RELEASE (HASH DATE); host=HOST`.
    pub fn contract_value(&self) -> (s: String)
        ensures
            s@ == rustc_prefix() + self.spec_release() + seq![' ', '('] + self.spec_commit_hash() + seq![' ']
                + self.spec_commit_date() + seq![')', ';', ' ', 'h', 'o', 's', 't', '='] + self.spec_host(),
    {
        let mut s = String::new();
        push_str(&mut s, "rustc ");
        push_str(&mut s, self.release.as_str());
        push_str(&mut s, " (");
        push_str(&mut s, self.commit_hash.as_str());
        push_str(&mut s, " ");
        push_str(&mut s, self.commit_date.as_str());
        push_str(&mut s, "); host=");
        push_str(&mut s, self.host.as_str());
        proof {
            reveal_strlit("rustc ");
            reveal_strlit(" (");
            reveal_strlit(" ");
            reveal_strlit("); host=");
        }
        s
    }
}

/// A configuration value is non-empty, unpadded, at most 4096 UTF-8 bytes
/// long and free of control characters.
pub open spec fn config_value_ok(v: Seq<char>) -> bool {
    &&& v.len() > 0
    &&& is_trimmed(v)
    &&& encode_utf8(v).len() <= 4096
    &&& !has_control(v)
}

/// The lines of `s` as `str::lines` yields them (split at `'\n'`, each but
/// the last without one trailing `'\r'`), followed by an empty piece when
/// `s` is empty or ends with a line feed.
pub open spec fn line_pieces(s: Seq<char>) -> Seq<Seq<char>> {
    let p = split_on(s, '\n');
    Seq::new(p.len(), |i: int| if i < p.len() - 1 { strip_cr(p[i]) } else { p[i] })
}

pub open spec fn doc_value() -> Seq<char> {
    seq!['d', 'o', 'c']
}

/// Every configuration input in order: `doc`, the rustdoc-specific values,
/// then the pieces of the rustc `--print cfg` output.
pub open spec fn config_inputs(rustdoc: Seq<Seq<char>>, rustc: Seq<char>) -> Seq<Seq<char>> {
    seq![doc_value()] + rustdoc + line_pieces(rustc)
}

/// Input `i` is validated: `doc` and rustdoc values always are, rustc
/// lines only when non-empty.
pub open spec fn config_considered(rustdoc: Seq<Seq<char>>, rustc: Seq<char>, i: int) -> bool {
    0 <= i < config_inputs(rustdoc, rustc).len() && (i <= rustdoc.len() || config_inputs(rustdoc, rustc)[i].len() > 0)
}

/// Values in strictly increasing order.
pub open spec fn strictly_sorted(s: Seq<Seq<char>>) -> bool {
    forall|i: int, j: int| 0 <= i < j < s.len() ==> chars_lt(#[trigger] s[i], #[trigger] s[j])
}

/// The character views of strings.
pub open spec fn string_views(v: Seq<String>) -> Seq<Seq<char>> {
    v.map_values(|s: String| s@)
}

/// Inserts `item` into a strictly sorted list unless it is already there.
pub fn insert_sorted(values: &mut Vec<String>, item: String)
    requires
        strictly_sorted(string_views(old(values)@)),
    ensures
        strictly_sorted(string_views(final(values)@)),
        forall|x: Seq<char>|
            string_views(final(values)@).contains(x) <==> (string_views(old(values)@).contains(x) || x == item@),
{
    let key = chars_of(item.as_str());
    let ghost old_views = string_views(values@);
    let mut p: usize = 0;
    while p < values.len() && chars_less(chars_of(values[p].as_str()).as_slice(), key.as_slice())
        invariant
            p <= values@.len(),
            old_views == string_views(values@),
            strictly_sorted(old_views),
            key@ == item@,
            forall|j: int| 0 <= j < p ==> chars_lt(#[trigger] old_views[j], item@),
        decreases values@.len() - p,
    {
        p += 1;
    }
    if p < values.len() && crate::text::chars_equal(chars_of(values[p].as_str()).as_slice(), key.as_slice()) {
        proof {
            assert(old_views[p as int] == item@);
        }
        return;
    }
    proof {
        if p < values@.len() {
            lemma_chars_lt_order(old_views[p as int], item@, item@);
            assert(chars_lt(item@, old_views[p as int]));
            assert forall|j: int| p <= j < old_views.len() implies chars_lt(item@, #[trigger] old_views[j]) by {
                if j > p {
                    lemma_chars_lt_order(item@, old_views[p as int], old_views[j]);
                }
            }
        }
    }
    values.insert(p, item);
    proof {
        let nv = string_views(values@);
        assert(nv =~= old_views.insert(p as int, item@));
        assert forall|i: int, j: int| 0 <= i < j < nv.len() implies chars_lt(#[trigger] nv[i], #[trigger] nv[j]) by {
            if j < p {
            } else if i < p && j == p {
            } else if i < p {
                lemma_chars_lt_order(old_views[i], item@, old_views[j - 1]);
            } else if i == p {
            } else {
            }
        }
        assert forall|x: Seq<char>| nv.contains(x) <==> (old_views.contains(x) || x == item@) by {
            if nv.contains(x) {
                let k = choose|k: int| 0 <= k < nv.len() && nv[k] == x;
                if k < p {
                    assert(old_views[k] == x);
                } else if k > p {
                    assert(old_views[k - 1] == x);
                }
            }
            if old_views.contains(x) {
                let k = choose|k: int| 0 <= k < old_views.len() && old_views[k] == x;
                if k < p {
                    assert(nv[k] == x);
                } else {
                    assert(nv[k + 1] == x);
                }
            }
            if x == item@ {
                assert(nv[p as int] == x);
            }
        }
    }
}

/// Merges of compiler and rustdoc configuration values.
pub struct CompilerConfiguration;

/// `values` is the merge of the rustdoc cfg values and the rustc cfg
/// report: every considered value is valid, and `values` holds them once
/// each, sorted.
pub open spec fn merged_configuration(rustdoc: Seq<Seq<char>>, rustc: Seq<char>, values: Seq<Seq<char>>) -> bool {
    &&& forall|i: int| #[trigger] config_considered(rustdoc, rustc, i) ==> config_value_ok(config_inputs(rustdoc, rustc)[i])
    &&& strictly_sorted(values)
    &&& forall|x: Seq<char>|
        values.contains(x) <==> exists|i: int| #[trigger] config_considered(rustdoc, rustc, i) && config_inputs(rustdoc, rustc)[i] == x
}

/// `value` is the first considered configuration input that is not a
/// valid cfg value.
pub open spec fn config_rejection(rustdoc: Seq<Seq<char>>, rustc: Seq<char>, value: Seq<char>) -> bool {
    exists|k: int|
        {
            &&& #[trigger] config_considered(rustdoc, rustc, k)
            &&& !config_value_ok(config_inputs(rustdoc, rustc)[k])
            &&& config_inputs(rustdoc, rustc)[k] == value
            &&& forall|j: int|
                0 <= j < k && #[trigger] config_considered(rustdoc, rustc, j) ==> config_value_ok(
                    config_inputs(rustdoc, rustc)[j],
                )
        }
}

impl CompilerConfiguration {
    /// Accepts a configuration value that is non-empty, unpadded, at most
    /// 4096 bytes long and free of control characters.
    pub fn validated_value(value: &str) -> (r: Result<String, CompilerError>)
        ensures
            config_value_ok(value@) ==> (r matches Ok(v) && v@ == value@),
            !config_value_ok(value@) ==> (r matches Err(CompilerError::InvalidCompilerConfiguration { value: v })
                && v@ == value@),
    {
        let chars = chars_of(value);
        if chars.len() == 0 || !trimmed(chars.as_slice()) || value.as_bytes().len() > 4096 || any_control(chars.as_slice()) {
            return Err(CompilerError::InvalidCompilerConfiguration { value: value.to_owned() });
        }
        Ok(value.to_owned())
    }

    /// The sorted, duplicate-free union of `doc`, the rustdoc-specific
    /// values and the non-empty lines of the rustc `--print cfg` output,
    /// each of which must be a valid value.
    pub fn merge(usage: &CompilerUsage, rustc_output: &str, rustdoc_values: Vec<String>) -> (r: Result<
        Vec<String>,
        CompilerError,
    >)
        ensures
            r matches Ok(values) ==> merged_configuration(string_views(rustdoc_values@), rustc_output@, string_views(values@)),
            r matches Err(CompilerError::InvalidCompilerConfiguration { value }) ==> config_rejection(
                string_views(rustdoc_values@),
                rustc_output@,
                value@,
            ),
            r matches Err(e) ==> (e is CompilerExtractionCancelled || e is ProcessTimeout
                || e is InvalidCompilerConfiguration),
    {
        let ghost rustdoc = string_views(rustdoc_values@);
        let ghost rustc = rustc_output@;
        let ghost inputs = config_inputs(rustdoc, rustc);
        let mut all: Vec<String> = Vec::new();
        let doc = String::from_str("doc");
        proof {
            reveal_strlit("doc");
            assert(doc@ == doc_value());
        }
        all.push(doc);
        proof {
            assert(inputs[0] == doc_value());
            assert(string_views(all@) =~= inputs.take(1));
        }
        let mut i: usize = 0;
        while i < rustdoc_values.len()
            invariant
                i <= rustdoc_values@.len(),
                rustdoc == string_views(rustdoc_values@),
                string_views(all@) =~= inputs.take(i + 1),
                inputs == config_inputs(rustdoc, rustc),
                rustc == rustc_output@,
            decreases rustdoc_values@.len() - i,
        {
            let copy = rustdoc_values[i].clone();
            let ghost before = string_views(all@);
            all.push(copy);
            proof {
                assert(inputs[i + 1] == rustdoc[i as int]);
                assert(string_views(all@) =~= before.push(rustdoc[i as int]));
                assert(inputs.take(i + 2) =~= inputs.take(i + 1).push(inputs[i + 1]));
            }
            i += 1;
        }
        let chars = chars_of(rustc_output);
        let bounds = split_bounds(chars.as_slice(), '\n');
        let mut b: usize = 0;
        while b < bounds.len()
            invariant
                b <= bounds@.len(),
                bounds@.len() == split_on(chars@, '\n').len(),
                chars@ == rustc,
                forall|j: int|
                    0 <= j < bounds@.len() ==> {
                        &&& 0 <= #[trigger] bounds@[j].0 <= bounds@[j].1 <= chars@.len()
                        &&& chars@.subrange(bounds@[j].0 as int, bounds@[j].1 as int) == split_on(chars@, '\n')[j]
                    },
                string_views(all@) =~= inputs.take(1 + rustdoc.len() + b),
                inputs == config_inputs(rustdoc, rustc),
                rustdoc.len() == rustdoc_values@.len(),
            decreases bounds@.len() - b,
        {
            let (start, end) = bounds[b];
            let stop = if b + 1 < bounds.len() && end > start && chars[end - 1] == '\r' { end - 1 } else { end };
            let line = crate::compiler::extractor::copy_range(chars.as_slice(), start, stop);
            proof {
                let piece = split_on(chars@, '\n')[b as int];
                assert(line_pieces(rustc)[b as int] == line@) by {
                    if b + 1 < bounds@.len() && end > start && chars@[end - 1] == '\r' {
                        assert(chars@.subrange(start as int, stop as int) =~= piece.drop_last());
                    }
                }
            }
            let ghost before = string_views(all@);
            all.push(string_from_chars(line.as_slice()));
            proof {
                let at = 1 + rustdoc.len() + b;
                assert(inputs[at] == line_pieces(rustc)[b as int]);
                assert(string_views(all@) =~= before.push(line@));
                assert(inputs.take(at + 1) =~= inputs.take(at).push(inputs[at]));
            }
            b += 1;
        }
        proof {
            assert(inputs.len() == 1 + rustdoc.len() + bounds@.len());
            assert(inputs.take(inputs.len() as int) =~= inputs);
        }
        let mut values: Vec<String> = Vec::new();
        let mut k: usize = 0;
        while k < all.len()
            invariant
                k <= all@.len(),
                string_views(all@) == inputs,
                inputs == config_inputs(rustdoc, rustc),
                rustdoc.len() == rustdoc_values@.len(),
                strictly_sorted(string_views(values@)),
                rustdoc == string_views(rustdoc_values@),
                rustc == rustc_output@,
                forall|j: int| 0 <= j < k && config_considered(rustdoc, rustc, j) ==> config_value_ok(inputs[j]),
                forall|x: Seq<char>|
                    string_views(values@).contains(x) <==> exists|j: int|
                        0 <= j < k && #[trigger] config_considered(rustdoc, rustc, j) && inputs[j] == x,
            decreases all@.len() - k,
        {
            match usage.checkpoint(CompilerOperation::Configuration) {
                Err(e) => return Err(e),
                Ok(()) => {},
            }
            let candidate = all[k].as_str();
            assert(candidate@ == inputs[k as int]);
            if k <= rustdoc_values.len() || !candidate.is_empty() {
                match Self::validated_value(candidate) {
                    Err(e) => {
                        proof {
                            assert(config_considered(rustdoc, rustc, k as int));
                            assert(!config_value_ok(inputs[k as int]));
                            assert(rustdoc == string_views(rustdoc_values@));
                        }
                        return Err(e);
                    },
                    Ok(v) => {
                        let ghost before = string_views(values@);
                        insert_sorted(&mut values, v);
                        proof {
                            assert forall|x: Seq<char>| string_views(values@).contains(x) <==> exists|j: int|
                                0 <= j < k + 1 && #[trigger] config_considered(rustdoc, rustc, j) && inputs[j] == x by {
                                if x == inputs[k as int] {
                                    assert(config_considered(rustdoc, rustc, k as int));
                                }
                            }
                        }
                    },
                }
            } else {
                proof {
                    assert(!config_considered(rustdoc, rustc, k as int));
                }
            }
            k += 1;
        }
        Ok(values)
    }
}

proof fn lemma_scanned_fields_ok(lines: Seq<Seq<char>>, n: int)
    requires
        scan_fields(lines, n) is Ok,
    ensures
        forall|j: int|
            0 <= j < scan_fields(lines, n)->Ok_0.len() ==> field_ok(
                (#[trigger] scan_fields(lines, n)->Ok_0[j]).0,
                scan_fields(lines, n)->Ok_0[j].1,
            ),
    decreases n,
{
    if n > 1 {
        lemma_scan_error_free_prefix(lines, n);
        lemma_scanned_fields_ok(lines, n - 1);
    }
}

proof fn lemma_scan_error_free_prefix(lines: Seq<Seq<char>>, n: int)
    requires
        n > 1,
        scan_fields(lines, n) is Ok,
    ensures
        scan_fields(lines, n - 1) is Ok,
{
}

proof fn lemma_no_control_concat(a: Seq<char>, b: Seq<char>)
    requires
        !has_control(a),
        !has_control(b),
    ensures
        !has_control(a + b),
{
    assert forall|i: int| 0 <= i < (a + b).len() implies !spec_is_control(#[trigger] (a + b)[i]) by {
        if i < a.len() {
            assert((a + b)[i] == a[i]);
        } else {
            assert((a + b)[i] == b[i - a.len()]);
        }
    }
}

/// Every identity a report yields renders, as recorded in contracts,
/// without a control character.
pub proof fn lemma_identity_control_free(out: Seq<char>)
    requires
        spec_identity(out) is Ok,
    ensures
        ({
            let (release, hash, date, host) = spec_identity(out)->Ok_0;
            !has_control(
                rustc_prefix() + release + seq![' ', '('] + hash + seq![' '] + date + seq![')', ';', ' ', 'h', 'o', 's', 't', '=']
                    + host,
            )
        }),
{
    let lines = identity_lines(out);
    let fields = scan_fields(lines, lines.len() as int)->Ok_0;
    lemma_scanned_fields_ok(lines, lines.len() as int);
    let (release, hash, date, host) = spec_identity(out)->Ok_0;
    assert forall|key: Seq<char>| #[trigger] field_value(fields, key) is Some implies !has_control(
        field_value(fields, key)->Some_0,
    ) by {
        let j = choose|j: int| 0 <= j < fields.len() && (#[trigger] fields[j]).0 == key;
        assert(field_ok(fields[j].0, fields[j].1));
    }
    assert(field_value(fields, release_key()) is Some);
    assert(field_value(fields, commit_hash_key()) is Some);
    assert(field_value(fields, commit_date_key()) is Some);
    assert(field_value(fields, host_key()) is Some);
    let raw_hash = field_value(fields, commit_hash_key())->Some_0;
    assert(!has_control(hash)) by {
        assert forall|i: int| 0 <= i < hash.len() implies !spec_is_control(#[trigger] hash[i]) by {
            assert(hash[i] == ascii_lower(raw_hash[i]));
            assert(!spec_is_control(raw_hash[i]));
        }
    }
    let p1 = seq![' ', '('];
    let p2 = seq![' '];
    let p3 = seq![')', ';', ' ', 'h', 'o', 's', 't', '='];
    assert(!has_control(rustc_prefix()));
    assert(!has_control(p1));
    assert(!has_control(p2));
    assert(!has_control(p3));
    lemma_no_control_concat(rustc_prefix(), release);
    lemma_no_control_concat(rustc_prefix() + release, p1);
    lemma_no_control_concat(rustc_prefix() + release + p1, hash);
    lemma_no_control_concat(rustc_prefix() + release + p1 + hash, p2);
    lemma_no_control_concat(rustc_prefix() + release + p1 + hash + p2, date);
    lemma_no_control_concat(rustc_prefix() + release + p1 + hash + p2 + date, p3);
    lemma_no_control_concat(rustc_prefix() + release + p1 + hash + p2 + date + p3, host);
}

/// Copies the characters of a report.
fn chars_of_report(output: &str) -> (v: Vec<char>)
    ensures
        v@ == output@,
{
    crate::text::chars_of(output)
}

} // verus!
