//! Readme handling: deciding whether a readme is up to date by
//! content hash, composing regenerated readmes, and rewriting
//! relative documentation links to their hosted form.

use vstd::prelude::*;
use crate::clean::spec_first_slash;
use crate::strutil::{push_str, spec_starts_with, str_prefix, str_starts_with, str_suffix,
    string_push};

verus! {

/// How readme generation should treat an existing file.
#[derive(Debug, PartialEq, Eq, Structural)]
pub enum GenerateReadmeMode {
    /// Generate the readme only when it is missing.
    IfMissing,
    /// Generate and append to the existing file.
    Append,
    /// Generate and overwrite the existing file.
    Overwrite,
}

/// The outcome of a readme check.
#[derive(Debug, PartialEq, Eq, Structural)]
pub enum CheckReadmeResult {
    Skipped,
    Missing,
    UpdateNeeded,
    UpToDate,
}

impl CheckReadmeResult {
    /// A short human-readable label.
    pub fn describe(&self) -> (r: &'static str)
        ensures
            match self {
                CheckReadmeResult::Skipped => r@ == "Skipped"@,
                CheckReadmeResult::Missing => r@ == "Missing"@,
                CheckReadmeResult::UpdateNeeded => r@ == "Update needed"@,
                CheckReadmeResult::UpToDate => r@ == "Up-to-date"@,
            },
    {
        match self {
            CheckReadmeResult::Skipped => "Skipped",
            CheckReadmeResult::Missing => "Missing",
            CheckReadmeResult::UpdateNeeded => "Update needed",
            CheckReadmeResult::UpToDate => "Up-to-date",
        }
    }
}

/// The SHA-1 digest of a text's UTF-8 encoding.
pub uninterp spec fn spec_sha1(text: Seq<char>) -> Seq<u8>;

/// Relies on sha1::Sha1 through the digest interface: the twenty-byte
/// digest is a function of the text alone.
#[verifier::external_body]
fn sha1_digest(text: &str) -> (r: Vec<u8>)
    ensures
        r@ == spec_sha1(text@),
        r@.len() == 20,
{
    <sha1::Sha1 as sha1::Digest>::digest(text.as_bytes()).to_vec()
}

/// Compares two texts by SHA-1, exactly as the readme check does.
#[verifier::loop_isolation(false)]
pub fn readme_matches(existing: &str, generated: &str) -> (r: bool)
    ensures
        r == (spec_sha1(existing@) == spec_sha1(generated@)),
{
    let a = sha1_digest(existing);
    let b = sha1_digest(generated);
    for i in 0..20usize
        invariant
            forall|j: int| 0 <= j < i ==> a@[j] == b@[j],
    {
        if a[i] != b[i] {
            return false;
        }
    }
    proof {
        assert(a@ =~= b@);
    }
    true
}

/// Checks one package's readme against the freshly generated text.
pub fn check_pkg_readme(existing: Option<&String>, generated: &String) -> (r: CheckReadmeResult)
    ensures
        match existing {
            None => r == CheckReadmeResult::Missing,
            Some(e) => r == (if spec_sha1(e@) == spec_sha1(generated@) {
                CheckReadmeResult::UpToDate
            } else {
                CheckReadmeResult::UpdateNeeded
            }),
        },
{
    match existing {
        None => CheckReadmeResult::Missing,
        Some(e) => {
            if readme_matches(e.as_str(), generated.as_str()) {
                CheckReadmeResult::UpToDate
            } else {
                CheckReadmeResult::UpdateNeeded
            }
        },
    }
}

/// What a generation run writes: nothing when an existing readme is
/// kept, the generated text appended to the old one, or the generated
/// text alone.
pub fn compose_readme(
    mode: &GenerateReadmeMode,
    existing: Option<&String>,
    generated: &String,
) -> (r: Option<String>)
    ensures
        match (mode, existing) {
            (GenerateReadmeMode::IfMissing, Some(_)) => r is None,
            (GenerateReadmeMode::Append, Some(e)) => r matches Some(out) && out@ == e@ + seq![
                '\n',
            ] + generated@,
            _ => r matches Some(out) && out@ == generated@,
        },
{
    match (mode, existing) {
        (GenerateReadmeMode::IfMissing, Some(_)) => None,
        (GenerateReadmeMode::Append, Some(e)) => {
            let mut out = e.clone();
            string_push(&mut out, '\n');
            push_str(&mut out, generated.as_str());
            Some(out)
        },
        _ => Some(generated.clone()),
    }
}

/// The characters of `s` with every occurrence of `pat` removed,
/// scanning left to right.
pub open spec fn spec_remove_all(s: Seq<char>, pat: Seq<char>) -> Seq<char>
    decreases s.len(),
{
    if pat.len() == 0 || s.len() == 0 {
        s
    } else if s.len() >= pat.len() && s.subrange(0, pat.len() as int) == pat {
        spec_remove_all(s.skip(pat.len() as int), pat)
    } else {
        seq![s[0]] + spec_remove_all(s.skip(1), pat)
    }
}

/// Removes every occurrence of `pat` from `s`.
#[verifier::rlimit(30)]
#[verifier::loop_isolation(false)]
fn remove_occurrences(s: &str, pat: &str) -> (r: String)
    requires
        pat@.len() > 0,
    ensures
        r@ == spec_remove_all(s@, pat@),
{
    let len = s.unicode_len();
    let plen = pat.unicode_len();
    let mut out = String::new();
    let mut i: usize = 0;
    proof {
        assert(s@.skip(0) =~= s@);
        assert(out@ + spec_remove_all(s@, pat@) =~= spec_remove_all(s@, pat@));
    }
    while i < len
        invariant
            i <= len,
            out@ + spec_remove_all(s@.skip(i as int), pat@) == spec_remove_all(s@, pat@),
        decreases len - i,
    {
        let mut is_match = plen <= len - i;
        if is_match {
            let mut j: usize = 0;
            let mut mismatch: Option<usize> = None;
            while j < plen
                invariant
                    j <= plen,
                    i + plen <= len,
                    mismatch is None ==> forall|q: int| 0 <= q < j ==> s@[i + q] == pat@[q],
                    mismatch matches Some(q) ==> 0 <= q < plen && s@[i + q as int] != pat@[
                        q as int],
                decreases plen - j,
            {
                if s.get_char(i + j) != pat.get_char(j) {
                    mismatch = Some(j);
                    break;
                }
                j = j + 1;
            }
            match mismatch {
                None => {
                    proof {
                        assert(s@.skip(i as int).subrange(0, pat@.len() as int) =~= pat@);
                    }
                },
                Some(q) => {
                    is_match = false;
                    proof {
                        assert(s@.skip(i as int).subrange(0, pat@.len() as int)[q as int] != pat@[
                        q as int]);
                        assert(s@.skip(i as int).subrange(0, pat@.len() as int) != pat@);
                    }
                },
            }
        } else {
            proof {
                assert(s@.skip(i as int).len() < pat@.len());
            }
        }
        if is_match {
            proof {
                assert(s@.skip(i as int).skip(pat@.len() as int) =~= s@.skip(i + plen));
            }
            i = i + plen;
        } else {
            string_push(&mut out, s.get_char(i));
            proof {
                assert(s@.skip(i as int)[0] == s@[i as int]);
                assert(s@.skip(i as int).skip(1) =~= s@.skip(i + 1));
                assert(spec_remove_all(s@.skip(i as int), pat@) =~= seq![s@[i as int]]
                    + spec_remove_all(s@.skip(i + 1), pat@));
            }
            i = i + 1;
        }
    }
    proof {
        assert(s@.skip(len as int).len() == 0);
        assert(out@ + spec_remove_all(s@.skip(len as int), pat@) =~= out@);
    }
    out
}

/// The hosted form of a link inside the package's own documentation.
pub open spec fn spec_relative_doc_link(
    title: Seq<char>,
    url: Seq<char>,
    pkg_name: Seq<char>,
    doc_uri: Option<Seq<char>>,
) -> Seq<char> {
    "["@ + title + "]("@ + (match doc_uri {
        Some(u) => u,
        None => "https://docs.rs/"@ + pkg_name,
    }) + "/latest/"@ + crate::strutil::spec_replace_char(pkg_name, '-', '_') + "/"@ + url + ")"@
}

/// Builds a documentation link into the package's own pages: the doc
/// URI (or the default registry documentation host followed by the
/// package name), `/latest/`, the package name with hyphens as
/// underscores, and the page.
pub fn make_relative_doc_link(
    title: &str,
    url: &str,
    pkg_name: &str,
    doc_uri: Option<&str>,
) -> (r: String)
    ensures
        r@ == spec_relative_doc_link(
            title@,
            url@,
            pkg_name@,
            match doc_uri {
                Some(u) => Some(u@),
                None => None,
            },
        ),
{
    let mut out = String::new();
    push_str(&mut out, "[");
    push_str(&mut out, title);
    push_str(&mut out, "](");
    match doc_uri {
        Some(u) => {
            push_str(&mut out, u);
        },
        None => {
            push_str(&mut out, "https://docs.rs/");
            push_str(&mut out, pkg_name);
        },
    }
    push_str(&mut out, "/latest/");
    let underscored = crate::strutil::replace_char(pkg_name, '-', '_');
    push_str(&mut out, underscored.as_str());
    push_str(&mut out, "/");
    push_str(&mut out, url);
    push_str(&mut out, ")");
    out
}

/// The hosted form of a link into a sibling package's documentation:
/// the part before the first slash names the sibling.
pub open spec fn spec_sibling_doc_link(
    title: Seq<char>,
    url: Seq<char>,
    doc_uri: Option<Seq<char>>,
) -> Seq<char>
    recommends
        spec_first_slash(url) is Some,
{
    let fs = spec_first_slash(url)->0;
    let sibling = url.subrange(0, fs);
    let rest = url.skip(fs + 1);
    "["@ + title + "]("@ + (match doc_uri {
        Some(u) => u,
        None => "https://docs.rs/"@,
    }) + crate::strutil::spec_replace_char(sibling, '_', '-') + "/latest/"@ + sibling + "/"@
        + spec_remove_all(rest, "index.html"@) + ")"@
}

/// Builds a documentation link into a sibling package's pages.
pub fn make_sibling_doc_link(title: &str, url: &str, doc_uri: Option<&str>) -> (r: String)
    requires
        exists|i: int| 0 <= i < url@.len() && url@[i] == '/',
    ensures
        r@ == spec_sibling_doc_link(
            title@,
            url@,
            match doc_uri {
                Some(u) => Some(u@),
                None => None,
            },
        ),
{
    let fs = match crate::strutil::find_char(url, '/') {
        Some(i) => i,
        None => {
            proof {
                let w = choose|i: int| 0 <= i < url@.len() && url@[i] == '/';
                assert(false);
            }
            0
        },
    };
    proof {
        crate::clean::lemma_first_slash_some(url@, fs as int);
    }
    let ulen = url.unicode_len();
    let sibling = str_prefix(url, fs);
    let rest = str_suffix(url, fs + 1);
    let mut out = String::new();
    push_str(&mut out, "[");
    push_str(&mut out, title);
    push_str(&mut out, "](");
    match doc_uri {
        Some(u) => {
            push_str(&mut out, u);
        },
        None => {
            push_str(&mut out, "https://docs.rs/");
        },
    }
    let dashed = crate::strutil::replace_char(sibling.as_str(), '_', '-');
    push_str(&mut out, dashed.as_str());
    push_str(&mut out, "/latest/");
    push_str(&mut out, sibling.as_str());
    push_str(&mut out, "/");
    proof {
        reveal_strlit("index.html");
    }
    let stripped = remove_occurrences(rest.as_str(), "index.html");
    push_str(&mut out, stripped.as_str());
    push_str(&mut out, ")");
    out
}

/// How one matched markdown link is rewritten: absolute links stay;
/// `../sibling/...` links go to the sibling's documentation; other
/// relative links (with an optional `./` head) go to the package's
/// own documentation.  A sibling link without a further slash is left
/// alone.
pub open spec fn spec_rewrite_matched(
    whole: Seq<char>,
    title: Seq<char>,
    url: Option<Seq<char>>,
    pkg_name: Seq<char>,
    doc_uri: Option<Seq<char>>,
) -> Seq<char> {
    match url {
        None => whole,
        Some(u) => if spec_starts_with(u, "http"@) {
            whole
        } else if spec_starts_with(u, "../"@) {
            if spec_first_slash(u.skip(3)) is Some {
                spec_sibling_doc_link(title, u.skip(3), doc_uri)
            } else {
                whole
            }
        } else if spec_starts_with(u, "./"@) {
            spec_relative_doc_link(title, u.skip(2), pkg_name, doc_uri)
        } else {
            spec_relative_doc_link(title, u, pkg_name, doc_uri)
        },
    }
}

/// Rewrites one matched markdown link.
pub fn rewrite_matched_doc_link(
    whole: &str,
    title: &str,
    url: Option<&str>,
    pkg_name: &str,
    doc_uri: Option<&str>,
) -> (r: String)
    ensures
        r@ == spec_rewrite_matched(
            whole@,
            title@,
            match url {
                Some(u) => Some(u@),
                None => None,
            },
            pkg_name@,
            match doc_uri {
                Some(u) => Some(u@),
                None => None,
            },
        ),
{
    match url {
        None => whole.to_owned(),
        Some(u) => {
            if str_starts_with(u, "http") {
                whole.to_owned()
            } else if str_starts_with(u, "../") {
                proof {
                    reveal_strlit("../");
                }
                let tail = str_suffix(u, 3);
                match crate::strutil::find_char(tail.as_str(), '/') {
                    Some(i) => {
                        proof {
                            crate::clean::lemma_first_slash_some(tail@, i as int);
                        }
                        make_sibling_doc_link(title, tail.as_str(), doc_uri)
                    },
                    None => {
                        proof {
                            crate::clean::lemma_first_slash_none(tail@);
                        }
                        whole.to_owned()
                    },
                }
            } else if str_starts_with(u, "./") {
                proof {
                    reveal_strlit("./");
                }
                let tail = str_suffix(u, 2);
                make_relative_doc_link(title, tail.as_str(), pkg_name, doc_uri)
            } else {
                make_relative_doc_link(title, u, pkg_name, doc_uri)
            }
        },
    }
}

/// The readme with every markdown link rewritten to its hosted form.
pub uninterp spec fn spec_links_rewritten(
    pkg_name: Seq<char>,
    readme: Seq<char>,
    doc_uri: Option<Seq<char>>,
) -> Seq<char>;

/// Relies on regex::Regex::replace_all: the markdown links are found
/// by a fixed pattern, and each match is handed to the verified
/// rewriter above; the result is a function of the three inputs
/// alone.
#[verifier::external_body]
pub fn rewrite_doc_links(pkg_name: &str, readme: &str, doc_uri: Option<&str>) -> (r: String)
    ensures
        r@ == spec_links_rewritten(
            pkg_name@,
            readme@,
            match doc_uri {
                Some(u) => Some(u@),
                None => None,
            },
        ),
{
    let re = regex::Regex::new(r#"\[(?P<text>[^\]]+)\]\((?P<url>[^ )]+)(?: "(?P<title>.+)")?\)"#)
        .expect("the link pattern is a fixed valid regex");
    re.replace_all(
        readme,
        |caps: &regex::Captures| {
            let whole = caps.get(0).map(|m| m.as_str()).unwrap_or("");
            let text = caps.name("text").map(|m| m.as_str()).unwrap_or("");
            let url = caps.name("url").map(|m| m.as_str());
            rewrite_matched_doc_link(whole, text, url, pkg_name, doc_uri)
        },
    ).into_owned()
}

} // verus!
