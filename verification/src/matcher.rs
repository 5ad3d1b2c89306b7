//! A small query language over package name and version: comparators
//! on strings, field-wise version predicates, and `&&`/`||` grouping
//! with parentheses.

use vstd::prelude::*;
use crate::semver_io::parse_version;
use crate::strutil::{spec_ends_with, spec_starts_with, str_ends_with, str_eq, str_starts_with,
    str_suffix, string_push};
use crate::version::{spec_all_digits, spec_digits_val, spec_is_digit, Version, VersionView};

verus! {

/// A package as the matcher sees it: its name and its version.
pub struct Package {
    name: String,
    version: Version,
}

pub struct PackageView {
    pub name: Seq<char>,
    pub version: VersionView,
}

impl View for Package {
    type V = PackageView;

    closed spec fn view(&self) -> PackageView {
        PackageView { name: self.name@, version: self.version@ }
    }
}

impl Package {
    pub fn new(name: String, version: Version) -> (r: Package)
        ensures
            r@.name == name@ && r@.version == version@,
    {
        Package { name, version }
    }

    pub fn version(&self) -> (r: &Version)
        ensures
            r@ == self@.version,
    {
        &self.version
    }

    pub fn name(&self) -> (r: &String)
        ensures
            r@ == self@.name,
    {
        &self.name
    }
}

/// A comparison on a string: equality, inequality, prefix or suffix.
pub enum Comparator {
    Eq(String),
    Neq(String),
    Starts(String),
    Ends(String),
}

impl Comparator {
    pub open spec fn spec_matches(&self, name: Seq<char>) -> bool {
        match self {
            Comparator::Eq(v) => name == v@,
            Comparator::Neq(v) => name != v@,
            Comparator::Starts(v) => spec_starts_with(name, v@),
            Comparator::Ends(v) => spec_ends_with(name, v@),
        }
    }

    pub fn matches(&self, name: &String) -> (r: bool)
        ensures
            r == self.spec_matches(name@),
    {
        match self {
            Comparator::Eq(v) => str_eq(name.as_str(), v.as_str()),
            Comparator::Neq(v) => !str_eq(name.as_str(), v.as_str()),
            Comparator::Starts(v) => str_starts_with(name.as_str(), v.as_str()),
            Comparator::Ends(v) => str_ends_with(name.as_str(), v.as_str()),
        }
    }
}

/// A predicate on a version: the whole version, one numeric field, or
/// a comparator on the pre-release or build-metadata string.
pub enum VersionMatch {
    Full(Version),
    Major(u64),
    Minor(u64),
    Patch(u64),
    Pre(Comparator),
    Build(Comparator),
    Not(Box<VersionMatch>),
}

impl VersionMatch {
    pub open spec fn spec_matches(&self, v: VersionView) -> bool
        decreases self,
    {
        match self {
            VersionMatch::Full(f) => f@ == v,
            VersionMatch::Major(m) => v.major == m as int,
            VersionMatch::Minor(m) => v.minor == m as int,
            VersionMatch::Patch(p) => v.patch == p as int,
            VersionMatch::Pre(p) => p.spec_matches(v.pre),
            VersionMatch::Build(b) => b.spec_matches(v.build),
            VersionMatch::Not(inner) => !inner.spec_matches(v),
        }
    }

    pub fn matches(&self, v: &Version) -> (r: bool)
        ensures
            r == self.spec_matches(v@),
        decreases self,
    {
        match self {
            VersionMatch::Full(f) => {
                f.major == v.major && f.minor == v.minor && f.patch == v.patch && str_eq(
                    f.pre.as_str(),
                    v.pre.as_str(),
                ) && str_eq(f.build.as_str(), v.build.as_str())
            },
            VersionMatch::Major(m) => *m == v.major,
            VersionMatch::Minor(m) => *m == v.minor,
            VersionMatch::Patch(p) => *p == v.patch,
            VersionMatch::Pre(p) => p.matches(&v.pre),
            VersionMatch::Build(b) => b.matches(&v.build),
            VersionMatch::Not(inner) => !inner.matches(v),
        }
    }
}

/// A whole query: a version predicate, a name predicate, or a boolean
/// combination of queries.
pub enum Matcher {
    Version(VersionMatch),
    Name(Comparator),
    And(Box<Matcher>, Box<Matcher>),
    Or(Box<Matcher>, Box<Matcher>),
}

impl Matcher {
    pub open spec fn spec_matches(&self, pkg: PackageView) -> bool
        decreases self,
    {
        match self {
            Matcher::Version(v) => v.spec_matches(pkg.version),
            Matcher::Name(comp) => comp.spec_matches(pkg.name),
            Matcher::And(a, b) => a.spec_matches(pkg) && b.spec_matches(pkg),
            Matcher::Or(a, b) => a.spec_matches(pkg) || b.spec_matches(pkg),
        }
    }

    pub fn matches(&self, pkg: &Package) -> (r: bool)
        ensures
            r == self.spec_matches(pkg@),
        decreases self,
    {
        match self {
            Matcher::Version(v) => v.matches(pkg.version()),
            Matcher::Name(comp) => comp.matches(pkg.name()),
            Matcher::And(a, b) => a.matches(pkg) && b.matches(pkg),
            Matcher::Or(a, b) => a.matches(pkg) || b.matches(pkg),
        }
    }
}

/// What `u64::from_str` makes of `s`.
pub open spec fn spec_parse_u64_str(s: Seq<char>) -> Option<u64> {
    let digits = if s.len() > 0 && s[0] == '+' {
        s.subrange(1, s.len() as int)
    } else {
        s
    };
    if spec_all_digits(digits) && spec_digits_val(digits) <= u64::MAX {
        Some(spec_digits_val(digits) as u64)
    } else {
        None
    }
}

proof fn lemma_digits_val_step64(s: Seq<char>, i: int)
    requires
        0 <= i < s.len(),
    ensures
        spec_digits_val(s.subrange(0, i + 1)) == spec_digits_val(s.subrange(0, i)) * 10 + (s[i] as int
            - 48),
{
    assert(s.subrange(0, i + 1).drop_last() =~= s.subrange(0, i));
    assert(s.subrange(0, i + 1).last() == s[i]);
}

proof fn lemma_digits_val_grows64(s: Seq<char>, i: int)
    requires
        0 <= i <= s.len(),
        forall|j: int| 0 <= j < s.len() ==> spec_is_digit(s[j]),
        spec_digits_val(s.subrange(0, i)) >= 0,
    ensures
        spec_digits_val(s) >= spec_digits_val(s.subrange(0, i)),
    decreases s.len() - i,
{
    if i == s.len() {
        assert(s.subrange(0, i) =~= s);
    } else {
        lemma_digits_val_step64(s, i);
        lemma_digits_val_grows64(s, i + 1);
    }
}

/// Reads a decimal `u64` exactly as `u64::from_str` does.
#[verifier::loop_isolation(false)]
fn parse_u64_dec(s: &str) -> (r: Option<u64>)
    ensures
        r == spec_parse_u64_str(s@),
{
    let len = s.unicode_len();
    let start: usize = if len > 0 && s.get_char(0) == '+' {
        1
    } else {
        0
    };
    let ghost digits = if s@.len() > 0 && s@[0] == '+' {
        s@.subrange(1, s@.len() as int)
    } else {
        s@
    };
    proof {
        assert(digits =~= s@.subrange(start as int, s@.len() as int));
    }
    if len == start {
        assert(!spec_all_digits(digits));
        return None;
    }
    for i in start..len
        invariant
            forall|j: int| start <= j < i ==> spec_is_digit(s@[j]),
    {
        let c = s.get_char(i);
        if !('0' <= c && c <= '9') {
            proof {
                assert(digits[i - start] == s@[i as int]);
                assert(!spec_all_digits(digits));
            }
            return None;
        }
    }
    assert(spec_all_digits(digits));
    let mut val: u64 = 0;
    for i in start..len
        invariant
            val == spec_digits_val(digits.subrange(0, i - start)),
    {
        let c = s.get_char(i);
        proof {
            assert(digits[i - start] == s@[i as int]);
            assert(spec_is_digit(s@[i as int]));
        }
        let d: u64 = (c as u32 - 48) as u64;
        proof {
            lemma_digits_val_step64(digits, i - start);
        }
        if val > u64::MAX / 10 || (val == u64::MAX / 10 && d > u64::MAX % 10) {
            proof {
                assert(val * 10 + d > u64::MAX) by (nonlinear_arith)
                    requires
                        val > u64::MAX / 10 || (val == u64::MAX / 10 && d > u64::MAX % 10),
                        0 <= d <= 9,
                        val >= 0,
                ;
                lemma_digits_val_grows64(digits, i + 1 - start);
                assert(digits.subrange(0, digits.len() as int) =~= digits);
            }
            return None;
        }
        proof {
            assert(val * 10 + d <= u64::MAX) by (nonlinear_arith)
                requires
                    !(val > u64::MAX / 10 || (val == u64::MAX / 10 && d > u64::MAX % 10)),
                    0 <= d <= 9,
                    0 <= val,
            ;
        }
        val = val * 10 + d;
    }
    proof {
        assert(digits.subrange(0, (len - start) as int) =~= digits);
    }
    Some(val)
}

} // verus!

verus! {

/// One lexical item of a query: a bare token, a parenthesis, or one of
/// the two connectives.
enum LexItem {
    Token(Vec<char>),
    OpenParen,
    CloseParen,
    And,
    Or,
}

/// Splits a query into tokens, parentheses and connectives.  `&` and
/// `|` may be doubled; spaces separate tokens.
#[verifier::loop_isolation(false)]
fn lex(input: &str) -> (r: Vec<LexItem>) {
    let len = input.unicode_len();
    let mut result: Vec<LexItem> = Vec::new();
    let mut token: Vec<char> = Vec::new();
    let mut i: usize = 0;
    while i < len
        invariant
            i <= len,
        decreases len - i,
    {
        let c = input.get_char(i);
        if c == '&' {
            if token.len() > 0 {
                result.push(LexItem::Token(token));
                token = Vec::new();
            }
            result.push(LexItem::And);
            i = i + 1;
            if i < len && input.get_char(i) == '&' {
                i = i + 1;
            }
        } else if c == '|' {
            if token.len() > 0 {
                result.push(LexItem::Token(token));
                token = Vec::new();
            }
            result.push(LexItem::Or);
            i = i + 1;
            if i < len && input.get_char(i) == '|' {
                i = i + 1;
            }
        } else if c == '(' {
            if token.len() > 0 {
                result.push(LexItem::Token(token));
                token = Vec::new();
            }
            result.push(LexItem::OpenParen);
            i = i + 1;
        } else if c == ')' {
            if token.len() > 0 {
                result.push(LexItem::Token(token));
                token = Vec::new();
            }
            result.push(LexItem::CloseParen);
            i = i + 1;
        } else if c == ' ' {
            i = i + 1;
        } else {
            token.push(c);
            i = i + 1;
        }
    }
    if token.len() > 0 {
        result.push(LexItem::Token(token));
    }
    result
}

/// A parenthesis tree over lexical items.
enum Node {
    Entry(LexItem),
    Children(Vec<Node>),
}

/// Builds the parenthesis tree.  The lexical items stand in reverse
/// order, so the next item is popped off the end; a closing
/// parenthesis ends the current group.
#[verifier::loop_isolation(false)]
fn traverse(stack: &mut Vec<LexItem>) -> (r: Node)
    ensures
        final(stack)@.len() <= old(stack)@.len(),
    decreases old(stack)@.len(),
{
    let mut current_nodes: Vec<Node> = Vec::new();
    let ghost len0 = stack@.len();
    loop
        invariant
            stack@.len() <= len0,
        decreases stack@.len(),
    {
        let next = stack.pop();
        match next {
            None => {
                break;
            },
            Some(LexItem::CloseParen) => {
                return Node::Children(current_nodes);
            },
            Some(LexItem::OpenParen) => {
                let child = traverse(stack);
                current_nodes.push(child);
            },
            Some(other) => {
                current_nodes.push(Node::Entry(other));
            },
        }
    }
    Node::Children(current_nodes)
}

} // verus!

verus! {

broadcast use vstd::std_specs::vec::axiom_vec_index_decreases;

fn chars_to_string(v: &Vec<char>) -> (r: String)
    ensures
        r@ == v@,
{
    let mut out = String::new();
    let len = v.len();
    for i in 0..len
        invariant
            len == v@.len(),
            out@ == v@.subrange(0, i as int),
    {
        string_push(&mut out, v[i]);
        proof {
            assert(v@.subrange(0, i as int).push(v@[i as int]) =~= v@.subrange(0, i + 1));
        }
    }
    proof {
        assert(v@.subrange(0, len as int) =~= v@);
    }
    out
}

/// Reads one comparator: `^=` prefix, `$=` suffix, `!=` inequality,
/// `==` or `=` equality, each followed by the operand.
fn make_comparator(input: &str) -> (r: Result<Comparator, String>)
    ensures
        ({
            let s = input@;
            if s.len() >= 2 && s[0] == '^' && s[1] == '=' {
                r matches Ok(Comparator::Starts(v)) && v@ == s.skip(2)
            } else if s.len() >= 2 && s[0] == '$' && s[1] == '=' {
                r matches Ok(Comparator::Ends(v)) && v@ == s.skip(2)
            } else if s.len() >= 2 && s[0] == '!' && s[1] == '=' {
                r matches Ok(Comparator::Neq(v)) && v@ == s.skip(2)
            } else if s.len() >= 2 && s[0] == '=' && s[1] == '=' {
                r matches Ok(Comparator::Eq(v)) && v@ == s.skip(2)
            } else if s.len() >= 1 && s[0] == '=' {
                r matches Ok(Comparator::Eq(v)) && v@ == s.skip(1)
            } else {
                r is Err
            }
        }),
{
    let len = input.unicode_len();
    if len >= 2 {
        let c0 = input.get_char(0);
        let c1 = input.get_char(1);
        if c0 == '^' && c1 == '=' {
            return Ok(Comparator::Starts(str_suffix(input, 2)));
        }
        if c0 == '$' && c1 == '=' {
            return Ok(Comparator::Ends(str_suffix(input, 2)));
        }
        if c0 == '!' && c1 == '=' {
            return Ok(Comparator::Neq(str_suffix(input, 2)));
        }
        if c0 == '=' && c1 == '=' {
            return Ok(Comparator::Eq(str_suffix(input, 2)));
        }
    }
    if len >= 1 && input.get_char(0) == '=' {
        return Ok(Comparator::Eq(str_suffix(input, 1)));
    }
    Err("Could not parse comparator".to_owned())
}

/// How a matcher argument starts: `!=` negates, `==` and `=` affirm;
/// the rest of the text is the operand.
pub open spec fn spec_sign_split(s: Seq<char>) -> Option<(bool, Seq<char>)> {
    if s.len() >= 2 && s[0] == '!' && s[1] == '=' {
        Some((false, s.skip(2)))
    } else if s.len() >= 2 && s[0] == '=' && s[1] == '=' {
        Some((true, s.skip(2)))
    } else if s.len() >= 1 && s[0] == '=' {
        Some((true, s.skip(1)))
    } else {
        None
    }
}

/// Strips the `!=`/`==`/`=` head off a matcher argument.
fn parse_into(input: &str) -> (r: Result<(bool, String), String>)
    ensures
        match r {
            Ok(p) => spec_sign_split(input@) matches Some(q) && p.0 == q.0 && p.1@ == q.1,
            Err(_) => spec_sign_split(input@) is None,
        },
{
    let len = input.unicode_len();
    if len >= 2 {
        let c0 = input.get_char(0);
        let c1 = input.get_char(1);
        if c0 == '!' && c1 == '=' {
            return Ok((false, str_suffix(input, 2)));
        }
        if c0 == '=' && c1 == '=' {
            return Ok((true, str_suffix(input, 2)));
        }
    }
    if len >= 1 && input.get_char(0) == '=' {
        return Ok((true, str_suffix(input, 1)));
    }
    Err("could not parse matcher".to_owned())
}

/// Reads a signed numeric matcher argument.
fn parse_u64(input: &str) -> (r: Result<(bool, u64), String>)
    ensures
        match r {
            Ok(p) => spec_sign_split(input@) matches Some(q) && p.0 == q.0 && spec_parse_u64_str(
                q.1,
            ) == Some(p.1),
            Err(_) => match spec_sign_split(input@) {
                Some(q) => spec_parse_u64_str(q.1) is None,
                None => true,
            },
        },
{
    match parse_into(input) {
        Ok((pos, rest)) => match parse_u64_dec(rest.as_str()) {
            Some(n) => Ok((pos, n)),
            None => Err("Could not parse version number".to_owned()),
        },
        Err(e) => Err(e),
    }
}

/// Wraps the inner predicate in a negation when the argument was
/// negated.
fn parse_maybe_not(pos: bool, inner: VersionMatch) -> (r: VersionMatch)
    ensures
        pos ==> r == inner,
        !pos ==> (r matches VersionMatch::Not(b) && *b == inner),
{
    if pos {
        inner
    } else {
        VersionMatch::Not(Box::new(inner))
    }
}

/// Does the text begin like a comparator?
pub open spec fn spec_comparator_head(s: Seq<char>) -> bool {
    ||| (s.len() >= 2 && s[0] == '^' && s[1] == '=')
    ||| (s.len() >= 2 && s[0] == '$' && s[1] == '=')
    ||| (s.len() >= 2 && s[0] == '!' && s[1] == '=')
    ||| (s.len() >= 1 && s[0] == '=')
}

/// Which comparator the text denotes.
pub open spec fn spec_comparator_of(s: Seq<char>, c: &Comparator) -> bool {
    if s.len() >= 2 && s[0] == '^' && s[1] == '=' {
        c matches Comparator::Starts(v) && v@ == s.skip(2)
    } else if s.len() >= 2 && s[0] == '$' && s[1] == '=' {
        c matches Comparator::Ends(v) && v@ == s.skip(2)
    } else if s.len() >= 2 && s[0] == '!' && s[1] == '=' {
        c matches Comparator::Neq(v) && v@ == s.skip(2)
    } else if s.len() >= 2 && s[0] == '=' && s[1] == '=' {
        c matches Comparator::Eq(v) && v@ == s.skip(2)
    } else if s.len() >= 1 && s[0] == '=' {
        c matches Comparator::Eq(v) && v@ == s.skip(1)
    } else {
        false
    }
}

/// The version predicate for one numeric field, possibly negated.
pub open spec fn spec_num_match(field: int, n: u64, vm: &VersionMatch) -> bool {
    if field == 0 {
        vm == VersionMatch::Major(n)
    } else if field == 1 {
        vm == VersionMatch::Minor(n)
    } else {
        vm == VersionMatch::Patch(n)
    }
}

/// What a numeric version-field token must parse to.
pub open spec fn spec_num_field(arg: Seq<char>, r: &Result<Matcher, String>, field: int) -> bool {
    match spec_sign_split(arg) {
        Some(q) => match spec_parse_u64_str(q.1) {
            Some(n) => match r {
                Ok(m) => m matches Matcher::Version(vm) && (if q.0 {
                    spec_num_match(field, n, vm)
                } else {
                    vm matches VersionMatch::Not(inner) && spec_num_match(field, n, inner)
                }),
                Err(_) => false,
            },
            None => r is Err,
        },
        None => r is Err,
    }
}

/// What a pre-release or build comparator token must parse to.
pub open spec fn spec_comp_field(arg: Seq<char>, r: &Result<Matcher, String>, pre: bool) -> bool {
    match r {
        Ok(m) => m matches Matcher::Version(vm) && (if pre {
            vm matches VersionMatch::Pre(c) && spec_comparator_of(arg, c)
        } else {
            vm matches VersionMatch::Build(c) && spec_comparator_of(arg, c)
        }),
        Err(_) => !spec_comparator_head(arg),
    }
}

/// What a full-version token must parse to.
pub open spec fn spec_full_version_field(arg: Seq<char>, r: &Result<Matcher, String>) -> bool {
    match spec_sign_split(arg) {
        Some(q) => match crate::semver_io::spec_parsed_version(q.1) {
            Some(vv) => match r {
                Ok(m) => m matches Matcher::Version(vm) && (if q.0 {
                    vm matches VersionMatch::Full(v) && v@ == vv
                } else {
                    vm matches VersionMatch::Not(inner) && (**inner) matches VersionMatch::Full(v)
                        && v@ == vv
                }),
                Err(_) => false,
            },
            None => r is Err,
        },
        None => r is Err,
    }
}

/// Reads one bare token: `version…` or `name…` with their arguments.
/// The result is pinned branch by branch: a `version.` field token
/// yields the corresponding numeric or comparator predicate, a bare
/// `version` token a full-version predicate, and a `name` token a
/// name comparator; everything else is an error.
#[verifier::rlimit(60)]
fn parse_token(inp: &Vec<char>) -> (r: Result<Matcher, String>)
    ensures
        ({
            let s = inp@;
            if spec_starts_with(s, "version"@) {
                if s.len() >= 8 && s[7] == '.' {
                    if spec_starts_with(s.skip(8), "major"@) {
                        spec_num_field(s.skip(13), &r, 0)
                    } else if spec_starts_with(s.skip(8), "minor"@) {
                        spec_num_field(s.skip(13), &r, 1)
                    } else if spec_starts_with(s.skip(8), "patch"@) {
                        spec_num_field(s.skip(13), &r, 2)
                    } else if spec_starts_with(s.skip(8), "pre"@) {
                        spec_comp_field(s.skip(11), &r, true)
                    } else if spec_starts_with(s.skip(8), "build"@) {
                        spec_comp_field(s.skip(13), &r, false)
                    } else {
                        r is Err
                    }
                } else {
                    spec_full_version_field(s.skip(7), &r)
                }
            } else if spec_starts_with(s, "name"@) {
                match r {
                    Ok(m) => m matches Matcher::Name(c) && spec_comparator_of(s.skip(4), &c),
                    Err(_) => !spec_comparator_head(s.skip(4)),
                }
            } else {
                r is Err
            }
        }),
{
    let input = chars_to_string(inp);
    let t = input.as_str();
    let len = t.unicode_len();
    if str_starts_with(t, "version") {
        proof {
            reveal_strlit("version");
        }
        if len >= 8 && t.get_char(7) == '.' {
            let rest = str_suffix(t, 8);
            if str_starts_with(rest.as_str(), "major") {
                proof {
                    reveal_strlit("major");
                }
                let arg = str_suffix(t, 13);
                match parse_u64(arg.as_str()) {
                    Ok((pos, v)) => Ok(
                        Matcher::Version(parse_maybe_not(pos, VersionMatch::Major(v))),
                    ),
                    Err(e) => Err(e),
                }
            } else if str_starts_with(rest.as_str(), "minor") {
                proof {
                    reveal_strlit("minor");
                }
                let arg = str_suffix(t, 13);
                match parse_u64(arg.as_str()) {
                    Ok((pos, v)) => Ok(
                        Matcher::Version(parse_maybe_not(pos, VersionMatch::Minor(v))),
                    ),
                    Err(e) => Err(e),
                }
            } else if str_starts_with(rest.as_str(), "patch") {
                proof {
                    reveal_strlit("patch");
                }
                let arg = str_suffix(t, 13);
                match parse_u64(arg.as_str()) {
                    Ok((pos, v)) => Ok(
                        Matcher::Version(parse_maybe_not(pos, VersionMatch::Patch(v))),
                    ),
                    Err(e) => Err(e),
                }
            } else if str_starts_with(rest.as_str(), "pre") {
                proof {
                    reveal_strlit("pre");
                }
                let arg = str_suffix(t, 11);
                match make_comparator(arg.as_str()) {
                    Ok(c) => Ok(Matcher::Version(VersionMatch::Pre(c))),
                    Err(e) => Err(e),
                }
            } else if str_starts_with(rest.as_str(), "build") {
                proof {
                    reveal_strlit("build");
                }
                let arg = str_suffix(t, 13);
                match make_comparator(arg.as_str()) {
                    Ok(c) => Ok(Matcher::Version(VersionMatch::Build(c))),
                    Err(e) => Err(e),
                }
            } else {
                Err("Unknown version definition".to_owned())
            }
        } else {
            let arg = str_suffix(t, 7);
            match parse_into(arg.as_str()) {
                Ok((pos, rest)) => match parse_version(rest.as_str()) {
                    Some(v) => Ok(
                        Matcher::Version(parse_maybe_not(pos, VersionMatch::Full(v))),
                    ),
                    None => Err("Can't parse version".to_owned()),
                },
                Err(e) => Err(e),
            }
        }
    } else if str_starts_with(t, "name") {
        proof {
            reveal_strlit("name");
        }
        let arg = str_suffix(t, 4);
        match make_comparator(arg.as_str()) {
            Ok(c) => Ok(Matcher::Name(c)),
            Err(e) => Err(e),
        }
    } else {
        Err("Unknown Token".to_owned())
    }
}

/// Turns a parenthesis tree into a matcher: tokens become leaf
/// matchers, `&&`/`||` combine a finished matcher with the next item,
/// and bare adjacency conjoins.
#[verifier::loop_isolation(false)]
fn translate(inp: Node) -> (r: Result<Matcher, String>)
    decreases inp,
{
    let ghost inp0 = inp;
    match inp {
        Node::Entry(l) => {
            match l {
                LexItem::Token(t) => parse_token(&t),
                _ => Err("Item not supported".to_owned()),
            }
        },
        Node::Children(ch) => {
            let mut ch = ch;
            let ghost orig = ch;
            let ghost consumed: int = 0;
            let mut matchers: Vec<Matcher> = Vec::new();
            loop
                invariant
                    ch@.len() <= orig@.len(),
                    forall|k: int| 0 <= k < ch@.len() ==> ch@[k] == orig@[orig@.len() - ch@.len()
                        + k],
                decreases ch@.len(),
            {
                if ch.len() == 0 {
                    break;
                }
                let ghost pre_len = ch@.len();
                let n = ch.remove(0);
                proof {
                    let idx = orig@.len() - pre_len;
                    assert(n == orig[idx]);
                    assert(decreases_to!(orig => orig[idx]));
                    assert(decreases_to!(inp0 => orig));
                    assert(decreases_to!(inp0 => n));
                }
                match n {
                    Node::Entry(LexItem::Token(t)) => {
                        match parse_token(&t) {
                            Ok(m) => matchers.push(m),
                            Err(e) => {
                                return Err(e);
                            },
                        }
                    },
                    Node::Entry(LexItem::And) => {
                        let prev = match matchers.pop() {
                            Some(p) => p,
                            None => {
                                return Err("no item before and".to_owned());
                            },
                        };
                        if ch.len() == 0 {
                            return Err("missing item after and".to_owned());
                        }
                        let ghost pre_len2 = ch@.len();
                        let next_node = ch.remove(0);
                        proof {
                            let idx2 = orig@.len() - pre_len2;
                            assert(next_node == orig[idx2]);
                            assert(decreases_to!(orig => orig[idx2]));
                            assert(decreases_to!(inp0 => next_node));
                        }
                        let next = match translate(next_node) {
                            Ok(m) => m,
                            Err(e) => {
                                return Err(e);
                            },
                        };
                        matchers.push(Matcher::And(Box::new(prev), Box::new(next)));
                    },
                    Node::Entry(LexItem::Or) => {
                        let prev = match matchers.pop() {
                            Some(p) => p,
                            None => {
                                return Err("no item before or".to_owned());
                            },
                        };
                        if ch.len() == 0 {
                            return Err("missing item after or".to_owned());
                        }
                        let ghost pre_len2 = ch@.len();
                        let next_node = ch.remove(0);
                        proof {
                            let idx2 = orig@.len() - pre_len2;
                            assert(next_node == orig[idx2]);
                            assert(decreases_to!(orig => orig[idx2]));
                            assert(decreases_to!(inp0 => next_node));
                        }
                        let next = match translate(next_node) {
                            Ok(m) => m,
                            Err(e) => {
                                return Err(e);
                            },
                        };
                        matchers.push(Matcher::Or(Box::new(prev), Box::new(next)));
                    },
                    Node::Entry(_) => {
                        return Err("Item not supported".to_owned());
                    },
                    other => {
                        let sub = match translate(other) {
                            Ok(m) => m,
                            Err(e) => {
                                return Err(e);
                            },
                        };
                        matchers.push(sub);
                    },
                }
            }
            if matchers.len() == 0 {
                return Err("empty query".to_owned());
            }
            let mut cur = matchers.remove(0);
            while matchers.len() > 0
                decreases matchers@.len(),
            {
                let next = matchers.remove(0);
                cur = Matcher::And(Box::new(cur), Box::new(next));
            }
            Ok(cur)
        },
    }
}

/// Parses a whole query string.
pub fn parse(input: &str) -> (r: Result<Matcher, String>) {
    let mut items = lex(input);
    let mut stack: Vec<LexItem> = Vec::new();
    while items.len() > 0
        decreases items@.len(),
    {
        match items.pop() {
            Some(x) => stack.push(x),
            None => {
                break;
            },
        }
    }
    let node = traverse(&mut stack);
    translate(node)
}

} // verus!
