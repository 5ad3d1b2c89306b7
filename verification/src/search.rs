//! Whole-identifier text search, the approximation behind dead
//! dependency detection: an alias with hyphens replaced by underscores
//! must occur in some source file as a full identifier.

use vstd::prelude::*;

verus! {

/// A character that can be part of an identifier.
pub open spec fn spec_ident_char(c: char) -> bool {
    ('a' <= c && c <= 'z') || ('A' <= c && c <= 'Z') || ('0' <= c && c <= '9') || c == '_'
}

fn is_ident_char(c: char) -> (r: bool)
    ensures
        r == spec_ident_char(c),
{
    ('a' <= c && c <= 'z') || ('A' <= c && c <= 'Z') || ('0' <= c && c <= '9') || c == '_'
}

/// Does `ident` occur in `text` starting at `i`, bounded by
/// non-identifier characters?
pub open spec fn spec_whole_match_at(text: Seq<char>, ident: Seq<char>, i: int) -> bool {
    &&& 0 <= i
    &&& i + ident.len() <= text.len()
    &&& text.subrange(i, i + ident.len()) == ident
    &&& (i == 0 || !spec_ident_char(text[i - 1]))
    &&& (i + ident.len() == text.len() || !spec_ident_char(text[i + ident.len()]))
}

/// Does `ident` occur anywhere in `text` as a whole identifier?
pub open spec fn spec_contains_ident(text: Seq<char>, ident: Seq<char>) -> bool {
    exists|i: int| spec_whole_match_at(text, ident, i)
}

/// Scans a text for a whole-identifier occurrence.
#[verifier::loop_isolation(false)]
pub fn contains_ident(text: &str, ident: &str) -> (r: bool)
    requires
        ident@.len() > 0,
    ensures
        r == spec_contains_ident(text@, ident@),
{
    let tlen = text.unicode_len();
    let ilen = ident.unicode_len();
    if ilen > tlen {
        assert forall|i: int| !spec_whole_match_at(text@, ident@, i) by {}
        return false;
    }
    let last_start = tlen - ilen;
    let mut s: usize = 0;
    while s <= last_start
        invariant
            s <= last_start + 1,
            forall|i: int| 0 <= i < s ==> !spec_whole_match_at(text@, ident@, i),
        decreases last_start + 1 - s,
    {
        let mut boundary_ok = true;
        if s > 0 && is_ident_char(text.get_char(s - 1)) {
            boundary_ok = false;
        }
        if boundary_ok && s + ilen < tlen && is_ident_char(text.get_char(s + ilen)) {
            boundary_ok = false;
        }
        if boundary_ok {
            let mut mismatch: Option<usize> = None;
            let mut j: usize = 0;
            while j < ilen
                invariant
                    j <= ilen,
                    mismatch is None ==> forall|q: int| 0 <= q < j ==> text@[s + q] == ident@[q],
                    mismatch matches Some(q) ==> 0 <= q < ilen && text@[s + q as int] != ident@[
                        q as int],
                decreases ilen - j,
            {
                if text.get_char(s + j) != ident.get_char(j) {
                    mismatch = Some(j);
                    break;
                }
                j = j + 1;
            }
            match mismatch {
                None => {
                    proof {
                        assert(text@.subrange(s as int, s + ident@.len()) =~= ident@);
                        assert(spec_whole_match_at(text@, ident@, s as int));
                    }
                    return true;
                },
                Some(q) => {
                    proof {
                        assert(text@.subrange(s as int, s + ident@.len())[q as int] != ident@[
                        q as int]);
                        assert(!spec_whole_match_at(text@, ident@, s as int));
                    }
                },
            }
        }
        proof {
            assert(!spec_whole_match_at(text@, ident@, s as int));
        }
        s = s + 1;
    }
    proof {
        assert forall|i: int| !spec_whole_match_at(text@, ident@, i) by {
            if 0 <= i <= last_start {
            }
        }
    }
    false
}

/// Does any of the files contain the identifier?
pub open spec fn spec_used_in_files(files: Seq<String>, ident: Seq<char>) -> bool {
    exists|f: int| 0 <= f < files.len() && spec_contains_ident((#[trigger] files[f])@, ident)
}

#[verifier::loop_isolation(false)]
pub fn used_in_files(files: &Vec<String>, ident: &str) -> (r: bool)
    requires
        ident@.len() > 0,
    ensures
        r == spec_used_in_files(files@, ident@),
{
    let len = files.len();
    for f in 0..len
        invariant
            forall|q: int| 0 <= q < f ==> !spec_contains_ident((#[trigger] files@[q])@, ident@),
    {
        if contains_ident(files[f].as_str(), ident) {
            return true;
        }
    }
    false
}

} // verus!
