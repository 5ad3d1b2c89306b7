//! Small verified helpers on strings, used throughout the crate.

use vstd::prelude::*;

verus! {

/// Relies on String::push: appends the given character to the end of the string.
#[verifier::external_body]
pub fn string_push(s: &mut String, c: char)
    ensures
        final(s)@ == old(s)@.push(c),
{
    s.push(c);
}

/// Character-wise equality of two string slices.
pub fn str_eq(a: &str, b: &str) -> (r: bool)
    ensures
        r == (a@ == b@),
{
    let alen = a.unicode_len();
    let blen = b.unicode_len();
    if alen != blen {
        return false;
    }
    for i in 0..alen
        invariant
            alen == a@.len(),
            blen == b@.len(),
            alen == blen,
            forall|j: int| 0 <= j < i ==> a@[j] == b@[j],
    {
        if a.get_char(i) != b.get_char(i) {
            return false;
        }
    }
    proof {
        assert(a@ =~= b@);
    }
    true
}

/// Does `a` start with `p`, character for character?
pub open spec fn spec_starts_with(a: Seq<char>, p: Seq<char>) -> bool {
    p.len() <= a.len() && a.subrange(0, p.len() as int) == p
}

pub fn str_starts_with(a: &str, p: &str) -> (r: bool)
    ensures
        r == spec_starts_with(a@, p@),
{
    let alen = a.unicode_len();
    let plen = p.unicode_len();
    if plen > alen {
        assert(!spec_starts_with(a@, p@));
        return false;
    }
    for i in 0..plen
        invariant
            alen == a@.len(),
            plen == p@.len(),
            plen <= alen,
            forall|j: int| 0 <= j < i ==> a@[j] == p@[j],
    {
        if a.get_char(i) != p.get_char(i) {
            assert(a@.subrange(0, p@.len() as int)[i as int] != p@[i as int]);
            return false;
        }
    }
    proof {
        assert(a@.subrange(0, p@.len() as int) =~= p@);
    }
    true
}

/// Does `a` end with `p`, character for character?
pub open spec fn spec_ends_with(a: Seq<char>, p: Seq<char>) -> bool {
    p.len() <= a.len() && a.subrange(a.len() - p.len(), a.len() as int) == p
}

pub fn str_ends_with(a: &str, p: &str) -> (r: bool)
    ensures
        r == spec_ends_with(a@, p@),
{
    let alen = a.unicode_len();
    let plen = p.unicode_len();
    if plen > alen {
        assert(!spec_ends_with(a@, p@));
        return false;
    }
    let off = alen - plen;
    for i in 0..plen
        invariant
            alen == a@.len(),
            plen == p@.len(),
            plen <= alen,
            off == alen - plen,
            forall|j: int| 0 <= j < i ==> a@[off + j] == p@[j],
    {
        if a.get_char(off + i) != p.get_char(i) {
            assert(a@.subrange(a@.len() - p@.len(), a@.len() as int)[i as int] != p@[i as int]);
            return false;
        }
    }
    proof {
        assert(a@.subrange(a@.len() - p@.len(), a@.len() as int) =~= p@);
    }
    true
}

/// Appends every character of `b` to `a`.
pub fn push_str(a: &mut String, b: &str)
    ensures
        final(a)@ == old(a)@ + b@,
{
    let blen = b.unicode_len();
    for i in 0..blen
        invariant
            blen == b@.len(),
            a@ == old(a)@ + b@.subrange(0, i as int),
    {
        string_push(a, b.get_char(i));
        proof {
            assert(old(a)@ + b@.subrange(0, i as int) + seq![b@[i as int]] =~= old(a)@
                + b@.subrange(0, i + 1));
        }
    }
    proof {
        assert(old(a)@ + b@.subrange(0, blen as int) =~= old(a)@ + b@);
    }
}

/// The characters of `s` with every occurrence of `from` replaced by `to`.
pub open spec fn spec_replace_char(s: Seq<char>, from: char, to: char) -> Seq<char> {
    s.map_values(|c: char| if c == from { to } else { c })
}

pub fn replace_char(s: &str, from: char, to: char) -> (r: String)
    ensures
        r@ == spec_replace_char(s@, from, to),
{
    let len = s.unicode_len();
    let mut out = String::new();
    for i in 0..len
        invariant
            len == s@.len(),
            out@ == spec_replace_char(s@.subrange(0, i as int), from, to),
    {
        let c = s.get_char(i);
        if c == from {
            string_push(&mut out, to);
        } else {
            string_push(&mut out, c);
        }
        proof {
            assert(spec_replace_char(s@.subrange(0, i + 1), from, to) =~= spec_replace_char(
                s@.subrange(0, i as int),
                from,
                to,
            ).push(if s@[i as int] == from {
                to
            } else {
                s@[i as int]
            }));
        }
    }
    proof {
        assert(s@.subrange(0, len as int) =~= s@);
    }
    out
}

/// Position of the first occurrence of `c` in `s`, if any.
pub fn find_char(s: &str, c: char) -> (r: Option<usize>)
    ensures
        match r {
            Some(i) => 0 <= i < s@.len() && s@[i as int] == c && forall|j: int|
                0 <= j < i ==> s@[j] != c,
            None => forall|j: int| 0 <= j < s@.len() ==> s@[j] != c,
        },
{
    let len = s.unicode_len();
    for i in 0..len
        invariant
            len == s@.len(),
            forall|j: int| 0 <= j < i ==> s@[j] != c,
    {
        if s.get_char(i) == c {
            return Some(i);
        }
    }
    None
}

/// The first `upto` characters of `s`.
pub fn str_prefix(s: &str, upto: usize) -> (r: String)
    requires
        upto <= s@.len(),
    ensures
        r@ == s@.subrange(0, upto as int),
{
    let mut out = String::new();
    for i in 0..upto
        invariant
            upto <= s@.len(),
            out@ == s@.subrange(0, i as int),
    {
        string_push(&mut out, s.get_char(i));
        proof {
            assert(s@.subrange(0, i as int).push(s@[i as int]) =~= s@.subrange(0, i + 1));
        }
    }
    out
}

/// The characters of `s` strictly after position `from`.
pub fn str_suffix(s: &str, from: usize) -> (r: String)
    requires
        from <= s@.len(),
    ensures
        r@ == s@.subrange(from as int, s@.len() as int),
{
    let len = s.unicode_len();
    let mut out = String::new();
    for i in from..len
        invariant
            len == s@.len(),
            from <= len,
            out@ == s@.subrange(from as int, i as int),
    {
        string_push(&mut out, s.get_char(i));
        proof {
            assert(s@.subrange(from as int, i as int).push(s@[i as int]) =~= s@.subrange(
                from as int,
                i + 1,
            ));
        }
    }
    out
}

} // verus!
