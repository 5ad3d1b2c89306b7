//! Semantic versions as plain values, the standard version mappers, and
//! the decimal rendering used when versions are written back into
//! manifests.

use vstd::prelude::*;
use crate::errors::Error;
use crate::semver_io::{build_ok, prerelease_ok, spec_build_ok, spec_prerelease_ok};
use crate::strutil::{push_str, str_prefix, str_suffix, string_push};

verus! {

/// A semantic version held field by field: the numeric triple plus the
/// pre-release identifier and the build metadata, both as bare strings
/// (empty string means absent).
#[derive(Debug, PartialEq, Eq)]
pub struct Version {
    pub major: u64,
    pub minor: u64,
    pub patch: u64,
    pub pre: String,
    pub build: String,
}

/// The mathematical image of a `Version`.
pub struct VersionView {
    pub major: int,
    pub minor: int,
    pub patch: int,
    pub pre: Seq<char>,
    pub build: Seq<char>,
}

impl View for Version {
    type V = VersionView;

    open spec fn view(&self) -> VersionView {
        VersionView {
            major: self.major as int,
            minor: self.minor as int,
            patch: self.patch as int,
            pre: self.pre@,
            build: self.build@,
        }
    }
}

impl Clone for Version {
    fn clone(&self) -> (r: Self)
        ensures
            r == *self,
    {
        Version {
            major: self.major,
            minor: self.minor,
            patch: self.patch,
            pre: self.pre.clone(),
            build: self.build.clone(),
        }
    }
}

impl Version {
    pub fn new(major: u64, minor: u64, patch: u64) -> (r: Version)
        ensures
            r@.major == major && r@.minor == minor && r@.patch == patch,
            r@.pre == Seq::<char>::empty() && r@.build == Seq::<char>::empty(),
    {
        Version { major, minor, patch, pre: String::new(), build: String::new() }
    }

    pub open spec fn is_pre_release(&self) -> bool {
        self@.pre.len() > 0
    }
}

/// One decimal digit as a character.
pub open spec fn spec_digit_char(d: int) -> char {
    ((48 + d) as u8) as char
}

/// The decimal rendering of a non-negative integer.
pub open spec fn spec_dec(n: int) -> Seq<char>
    decreases n,
{
    if n < 10 {
        seq![spec_digit_char(n)]
    } else {
        spec_dec(n / 10).push(spec_digit_char(n % 10))
    }
}

/// Renders `n` in decimal.
pub fn u64_dec(n: u64) -> (r: String)
    ensures
        r@ == spec_dec(n as int),
    decreases n,
{
    if n < 10 {
        let mut s = String::new();
        string_push(&mut s, (48 + (n as u8)) as char);
        s
    } else {
        let mut s = u64_dec(n / 10);
        string_push(&mut s, (48 + ((n % 10) as u8)) as char);
        s
    }
}

/// The canonical string of a version: `major.minor.patch`, then `-pre`
/// if a pre-release is set, then `+build` if build metadata is set.
pub open spec fn spec_version_str(v: VersionView) -> Seq<char> {
    let base = spec_dec(v.major) + seq!['.'] + spec_dec(v.minor) + seq!['.'] + spec_dec(v.patch);
    let with_pre = if v.pre.len() > 0 {
        base + seq!['-'] + v.pre
    } else {
        base
    };
    if v.build.len() > 0 {
        with_pre + seq!['+'] + v.build
    } else {
        with_pre
    }
}

/// Renders a version exactly as it is written into manifests.
pub fn version_string(v: &Version) -> (r: String)
    ensures
        r@ == spec_version_str(v@),
{
    let mut s = u64_dec(v.major);
    string_push(&mut s, '.');
    let m = u64_dec(v.minor);
    push_str(&mut s, m.as_str());
    string_push(&mut s, '.');
    let p = u64_dec(v.patch);
    push_str(&mut s, p.as_str());
    if !v.pre.as_str().is_empty() {
        string_push(&mut s, '-');
        push_str(&mut s, v.pre.as_str());
    }
    if !v.build.as_str().is_empty() {
        string_push(&mut s, '+');
        push_str(&mut s, v.build.as_str());
    }
    s
}

pub open spec fn spec_is_digit(c: char) -> bool {
    '0' <= c && c <= '9'
}

pub open spec fn spec_all_digits(s: Seq<char>) -> bool {
    s.len() > 0 && forall|i: int| 0 <= i < s.len() ==> spec_is_digit(s[i])
}

/// The value of a digit string, most significant digit first.
pub open spec fn spec_digits_val(s: Seq<char>) -> int
    decreases s.len(),
{
    if s.len() == 0 {
        0
    } else {
        spec_digits_val(s.drop_last()) * 10 + (s.last() as int - 48)
    }
}

/// What `u32::from_str` makes of `s`: an optional leading `+`, then
/// decimal digits whose value fits.
pub open spec fn spec_parse_u32(s: Seq<char>) -> Option<u32> {
    let digits = if s.len() > 0 && s[0] == '+' {
        s.subrange(1, s.len() as int)
    } else {
        s
    };
    if spec_all_digits(digits) && spec_digits_val(digits) <= u32::MAX {
        Some(spec_digits_val(digits) as u32)
    } else {
        None
    }
}

proof fn lemma_digits_val_step(s: Seq<char>, i: int)
    requires
        0 <= i < s.len(),
    ensures
        spec_digits_val(s.subrange(0, i + 1)) == spec_digits_val(s.subrange(0, i)) * 10 + (s[i] as int
            - 48),
{
    assert(s.subrange(0, i + 1).drop_last() =~= s.subrange(0, i));
    assert(s.subrange(0, i + 1).last() == s[i]);
}

proof fn lemma_digits_val_grows(s: Seq<char>, i: int)
    requires
        0 <= i <= s.len(),
        forall|j: int| 0 <= j < s.len() ==> spec_is_digit(s[j]),
        spec_digits_val(s.subrange(0, i)) >= 0,
    ensures
        spec_digits_val(s) >= spec_digits_val(s.subrange(0, i)),
    decreases s.len() - i,
{
    if i == s.len() {
        assert(s.subrange(0, i) =~= s);
    } else {
        lemma_digits_val_step(s, i);
        assert(s[i] as int - 48 >= 0);
        lemma_digits_val_grows(s, i + 1);
    }
}

/// Reads a decimal `u32` exactly as `u32::from_str` does.
#[verifier::loop_isolation(false)]
pub fn parse_u32_dec(s: &str) -> (r: Option<u32>)
    ensures
        r == spec_parse_u32(s@),
{
    let len = s.unicode_len();
    let start: usize = if len > 0 && s.get_char(0) == '+' {
        1
    } else {
        0
    };
    let ghost digits = if s@.len() > 0 && s@[0] == '+' {
        s@.subrange(1, s@.len() as int)
    } else {
        s@
    };
    proof {
        assert(digits =~= s@.subrange(start as int, s@.len() as int));
    }
    if len == start {
        assert(!spec_all_digits(digits));
        return None;
    }
    for i in start..len
        invariant
            len == s@.len(),
            start <= i <= len,
            start <= 1,
            digits == s@.subrange(start as int, s@.len() as int),
            forall|j: int| start <= j < i ==> spec_is_digit(s@[j]),
    {
        let c = s.get_char(i);
        if !('0' <= c && c <= '9') {
            proof {
                assert(digits[i - start] == s@[i as int]);
                assert(!spec_all_digits(digits));
            }
            return None;
        }
    }
    assert(spec_all_digits(digits));
    let mut val: u64 = 0;
    for i in start..len
        invariant
            len == s@.len(),
            start <= i <= len,
            start <= 1,
            digits == s@.subrange(start as int, s@.len() as int),
            spec_all_digits(digits),
            val == spec_digits_val(digits.subrange(0, i - start)),
            val <= u32::MAX,
    {
        let c = s.get_char(i);
        proof {
            assert(digits[i - start] == s@[i as int]);
            assert(spec_is_digit(s@[i as int]));
        }
        let d: u64 = (c as u32 - 48) as u64;
        let nv: u64 = val * 10 + d;
        proof {
            lemma_digits_val_step(digits, i - start);
        }
        if nv > (u32::MAX as u64) {
            proof {
                lemma_digits_val_grows(digits, i + 1 - start);
                assert(digits.subrange(0, digits.len() as int) =~= digits);
            }
            return None;
        }
        val = nv;
    }
    proof {
        assert(digits.subrange(0, (len - start) as int) =~= digits);
    }
    Some(val as u32)
}

/// Index of the last `.` in `s`, if any.
pub open spec fn spec_last_dot(s: Seq<char>) -> Option<int>
    decreases s.len(),
{
    if s.len() == 0 {
        None
    } else if s.last() == '.' {
        Some(s.len() - 1)
    } else {
        spec_last_dot(s.drop_last())
    }
}

#[verifier::loop_isolation(false)]
fn last_dot(s: &str) -> (r: Option<usize>)
    ensures
        match r {
            Some(i) => spec_last_dot(s@) == Some(i as int) && i < s@.len(),
            None => spec_last_dot(s@) is None,
        },
{
    let len = s.unicode_len();
    let mut found: Option<usize> = None;
    for i in 0..len
        invariant
            len == s@.len(),
            match found {
                Some(k) => spec_last_dot(s@.subrange(0, i as int)) == Some(k as int) && k < i,
                None => spec_last_dot(s@.subrange(0, i as int)) is None,
            },
    {
        proof {
            assert(s@.subrange(0, i + 1).drop_last() =~= s@.subrange(0, i as int));
            assert(s@.subrange(0, i + 1).last() == s@[i as int]);
        }
        if s.get_char(i) == '.' {
            found = Some(i);
        }
    }
    proof {
        assert(s@.subrange(0, len as int) =~= s@);
    }
    found
}

/// Where the last dot-separated component of a pre-release string
/// begins.
pub open spec fn spec_tail_start(pre: Seq<char>) -> int {
    match spec_last_dot(pre) {
        Some(i) => i + 1,
        None => 0,
    }
}

/// The candidate produced by `bump-pre` when the whole string is not
/// numeric: the final dot-separated component is incremented if it is
/// numeric, else `.1` is appended.
pub open spec fn spec_bump_pre_candidate(pre: Seq<char>) -> Seq<char> {
    let ts = spec_tail_start(pre);
    let tail = pre.subrange(ts, pre.len() as int);
    match spec_parse_u32(tail) {
        Some(n) => pre.subrange(0, ts) + spec_dec(n + 1),
        None => pre + seq!['.', '1'],
    }
}

/// What `bump-pre` does to a pre-release string: an empty one becomes
/// `1`; a numeric one is incremented; otherwise the candidate above is
/// taken if `semver` accepts it.
pub open spec fn spec_bump_pre(pre: Seq<char>) -> Option<Seq<char>> {
    if pre.len() == 0 {
        Some(seq!['1'])
    } else if spec_parse_u32(pre) is Some {
        Some(spec_dec(spec_parse_u32(pre)->Some_0 + 1))
    } else {
        let cand = spec_bump_pre_candidate(pre);
        if spec_prerelease_ok(cand) {
            Some(cand)
        } else {
            None
        }
    }
}

/// The machine limits under which `bump-pre` cannot overflow.
pub open spec fn spec_bump_pre_in_range(pre: Seq<char>) -> bool {
    spec_parse_u32(pre) != Some(u32::MAX) && spec_parse_u32(
        pre.subrange(spec_tail_start(pre), pre.len() as int),
    ) != Some(u32::MAX)
}

fn bump_pre_string(pre: &str) -> (r: Option<String>)
    requires
        spec_bump_pre_in_range(pre@),
    ensures
        match r {
            Some(p) => spec_bump_pre(pre@) == Some(p@),
            None => spec_bump_pre(pre@) is None,
        },
{
    let len = pre.unicode_len();
    if len == 0 {
        let mut s = String::new();
        string_push(&mut s, '1');
        return Some(s);
    }
    if let Some(n) = parse_u32_dec(pre) {
        return Some(u64_dec((n as u64) + 1));
    }
    let ts: usize = match last_dot(pre) {
        Some(i) => i + 1,
        None => 0,
    };
    let tail = str_suffix(pre, ts);
    match parse_u32_dec(tail.as_str()) {
        Some(n) => {
            let mut out = str_prefix(pre, ts);
            let inc = u64_dec((n as u64) + 1);
            push_str(&mut out, inc.as_str());
            proof {
                assert(out@ =~= spec_bump_pre_candidate(pre@));
            }
            if prerelease_ok(out.as_str()) {
                Some(out)
            } else {
                None
            }
        },
        None => {
            let mut out = pre.to_owned();
            string_push(&mut out, '.');
            string_push(&mut out, '1');
            proof {
                assert(out@ =~= spec_bump_pre_candidate(pre@));
            }
            if prerelease_ok(out.as_str()) {
                Some(out)
            } else {
                None
            }
        },
    }
}

/// The ten standard version mappers.
#[derive(Clone, Debug, PartialEq, Eq)]
pub enum VersionMapper {
    /// Clear pre-release and build metadata.
    Release,
    /// Increment the pre-release suffix; set it to `1` if absent.
    BumpPre,
    /// Clear the pre-release, increment the patch number.
    BumpPatch,
    /// Clear the pre-release, increment minor, zero patch.
    BumpMinor,
    /// Clear the pre-release, increment major, zero minor and patch.
    BumpMajor,
    /// Next breaking release: bump major when major is non-zero, else
    /// minor when minor is non-zero, else patch (clearing the build
    /// metadata in that last case).  The pre-release is cleared.
    BumpBreaking,
    /// Like `BumpBreaking`, but force the given pre-release tag.
    BumpToDev { pre_tag: String },
    /// Hard-set the whole version.
    SetVersion { version: Version },
    /// Set the pre-release to the given string.
    SetPre { pre: String },
    /// Set the build metadata to the given string.
    SetBuild { meta: String },
}

/// The numeric part of a breaking bump, shared by `BumpBreaking` and
/// `BumpToDev`.
pub open spec fn spec_breaking_nums(v: VersionView) -> VersionView {
    if v.major != 0 {
        VersionView { major: v.major + 1, minor: 0, patch: 0, ..v }
    } else if v.minor != 0 {
        VersionView { minor: v.minor + 1, patch: 0, ..v }
    } else {
        VersionView { patch: v.patch + 1, build: Seq::empty(), ..v }
    }
}

/// Whether the mapper's own arguments are acceptable to `semver`; a
/// mapper with a rejected argument is a configuration error.
pub open spec fn spec_mapper_ok(m: &VersionMapper) -> bool {
    match m {
        VersionMapper::BumpToDev { pre_tag } => spec_prerelease_ok(pre_tag@),
        VersionMapper::SetPre { pre } => spec_prerelease_ok(pre@),
        VersionMapper::SetBuild { meta } => spec_build_ok(meta@),
        _ => true,
    }
}

/// The machine limits under which applying the mapper cannot overflow.
pub open spec fn spec_mapper_in_range(m: &VersionMapper, v: VersionView) -> bool {
    match m {
        VersionMapper::BumpPre => spec_bump_pre_in_range(v.pre),
        VersionMapper::BumpPatch => v.patch < u64::MAX,
        VersionMapper::BumpMinor => v.minor < u64::MAX,
        VersionMapper::BumpMajor => v.major < u64::MAX,
        VersionMapper::BumpBreaking | VersionMapper::BumpToDev { .. } => (v.major != 0 ==> v.major
            < u64::MAX) && (v.major == 0 && v.minor != 0 ==> v.minor < u64::MAX) && (v.major == 0
            && v.minor == 0 ==> v.patch < u64::MAX),
        _ => true,
    }
}

/// What the mapper assigns: `None` means the package is left alone.
pub open spec fn spec_apply_mapper(m: &VersionMapper, v: VersionView) -> Option<VersionView> {
    match m {
        VersionMapper::Release => Some(
            VersionView { pre: Seq::empty(), build: Seq::empty(), ..v },
        ),
        VersionMapper::BumpPre => match spec_bump_pre(v.pre) {
            Some(p) => Some(VersionView { pre: p, ..v }),
            None => None,
        },
        VersionMapper::BumpPatch => Some(
            VersionView { patch: v.patch + 1, pre: Seq::empty(), ..v },
        ),
        VersionMapper::BumpMinor => Some(
            VersionView { minor: v.minor + 1, patch: 0, pre: Seq::empty(), ..v },
        ),
        VersionMapper::BumpMajor => Some(
            VersionView { major: v.major + 1, minor: 0, patch: 0, pre: Seq::empty(), ..v },
        ),
        VersionMapper::BumpBreaking => Some(
            VersionView { pre: Seq::empty(), ..spec_breaking_nums(v) },
        ),
        VersionMapper::BumpToDev { pre_tag } => Some(
            VersionView { pre: pre_tag@, ..spec_breaking_nums(v) },
        ),
        VersionMapper::SetVersion { version } => Some(version@),
        VersionMapper::SetPre { pre } => Some(VersionView { pre: pre@, ..v }),
        VersionMapper::SetBuild { meta } => Some(VersionView { build: meta@, ..v }),
    }
}

/// Applies a version mapper.  A mapper whose own argument `semver`
/// rejects yields a parse error; `Ok(None)` means the mapper declined
/// and the package keeps its version.
pub fn apply_mapper(m: &VersionMapper, v: &Version) -> (r: Result<Option<Version>, Error>)
    requires
        spec_mapper_in_range(m, v@),
    ensures
        r is Err <==> !spec_mapper_ok(m),
        match r {
            Ok(Some(nv)) => spec_apply_mapper(m, v@) == Some(nv@),
            Ok(None) => spec_apply_mapper(m, v@) is None,
            Err(_) => true,
        },
{
    match m {
        VersionMapper::Release => Ok(
            Some(
                Version {
                    major: v.major,
                    minor: v.minor,
                    patch: v.patch,
                    pre: String::new(),
                    build: String::new(),
                },
            ),
        ),
        VersionMapper::BumpPre => match bump_pre_string(v.pre.as_str()) {
            Some(p) => Ok(
                Some(
                    Version {
                        major: v.major,
                        minor: v.minor,
                        patch: v.patch,
                        pre: p,
                        build: v.build.clone(),
                    },
                ),
            ),
            None => Ok(None),
        },
        VersionMapper::BumpPatch => Ok(
            Some(
                Version {
                    major: v.major,
                    minor: v.minor,
                    patch: v.patch + 1,
                    pre: String::new(),
                    build: v.build.clone(),
                },
            ),
        ),
        VersionMapper::BumpMinor => Ok(
            Some(
                Version {
                    major: v.major,
                    minor: v.minor + 1,
                    patch: 0,
                    pre: String::new(),
                    build: v.build.clone(),
                },
            ),
        ),
        VersionMapper::BumpMajor => Ok(
            Some(
                Version {
                    major: v.major + 1,
                    minor: 0,
                    patch: 0,
                    pre: String::new(),
                    build: v.build.clone(),
                },
            ),
        ),
        VersionMapper::BumpBreaking => {
            let mut nv = breaking_nums(v);
            nv.pre = String::new();
            Ok(Some(nv))
        },
        VersionMapper::BumpToDev { pre_tag } => {
            if !prerelease_ok(pre_tag.as_str()) {
                return Err(
                    Error::Parse(String::from_str("the pre-release tag is not valid semver")),
                );
            }
            let mut nv = breaking_nums(v);
            nv.pre = pre_tag.clone();
            Ok(Some(nv))
        },
        VersionMapper::SetVersion { version } => Ok(Some(version.clone())),
        VersionMapper::SetPre { pre } => {
            if !prerelease_ok(pre.as_str()) {
                return Err(
                    Error::Parse(String::from_str("the pre-release is not valid semver")),
                );
            }
            Ok(
                Some(
                    Version {
                        major: v.major,
                        minor: v.minor,
                        patch: v.patch,
                        pre: pre.clone(),
                        build: v.build.clone(),
                    },
                ),
            )
        },
        VersionMapper::SetBuild { meta } => {
            if !build_ok(meta.as_str()) {
                return Err(
                    Error::Parse(String::from_str("the build metadata is not valid semver")),
                );
            }
            Ok(
                Some(
                    Version {
                        major: v.major,
                        minor: v.minor,
                        patch: v.patch,
                        pre: v.pre.clone(),
                        build: meta.clone(),
                    },
                ),
            )
        },
    }
}

/// The numeric changes of a breaking bump.
fn breaking_nums(v: &Version) -> (r: Version)
    requires
        (v@.major != 0 ==> v@.major < u64::MAX),
        (v@.major == 0 && v@.minor != 0 ==> v@.minor < u64::MAX),
        (v@.major == 0 && v@.minor == 0 ==> v@.patch < u64::MAX),
    ensures
        r@ == spec_breaking_nums(v@),
{
    if v.major != 0 {
        Version {
            major: v.major + 1,
            minor: 0,
            patch: 0,
            pre: v.pre.clone(),
            build: v.build.clone(),
        }
    } else if v.minor != 0 {
        Version {
            major: v.major,
            minor: v.minor + 1,
            patch: 0,
            pre: v.pre.clone(),
            build: v.build.clone(),
        }
    } else {
        Version {
            major: v.major,
            minor: v.minor,
            patch: v.patch + 1,
            pre: v.pre.clone(),
            build: String::new(),
        }
    }
}

} // verus!

verus! {

/// Decides the machine-limit side conditions of a mapper at run time.
pub fn mapper_in_range(m: &VersionMapper, v: &Version) -> (r: bool)
    ensures
        r == spec_mapper_in_range(m, v@),
{
    match m {
        VersionMapper::BumpPre => {
            let plen = v.pre.as_str().unicode_len();
            let whole = parse_u32_dec(v.pre.as_str());
            let ts: usize = match last_dot(v.pre.as_str()) {
                Some(i) => i + 1,
                None => 0,
            };
            let tail = str_suffix(v.pre.as_str(), ts);
            let tail_parse = parse_u32_dec(tail.as_str());
            let whole_max = match whole {
                Some(n) => n == u32::MAX,
                None => false,
            };
            let tail_max = match tail_parse {
                Some(n) => n == u32::MAX,
                None => false,
            };
            !whole_max && !tail_max
        },
        VersionMapper::BumpPatch => v.patch < u64::MAX,
        VersionMapper::BumpMinor => v.minor < u64::MAX,
        VersionMapper::BumpMajor => v.major < u64::MAX,
        VersionMapper::BumpBreaking | VersionMapper::BumpToDev { .. } => {
            if v.major != 0 {
                v.major < u64::MAX
            } else if v.minor != 0 {
                v.minor < u64::MAX
            } else {
                v.patch < u64::MAX
            }
        },
        _ => true,
    }
}

} // verus!
