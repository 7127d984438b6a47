//! The link rewriter: URLs found in free text are pointed at mirror
//! hosts. Finding URLs and rewriting a URL's host are the regex and url
//! crates' work behind trusted wrappers; which links are rewritten, and
//! how the output is assembled, is decided here.

use vstd::prelude::*;
use vstd::string::StringExecFns;

use crate::text::{spec_ends_with, str_ends_with, str_eq, texts_view};

verus! {

/// The text split by the URL pattern into alternating pieces: a gap,
/// a match, a gap, and so on, ending with a gap.
pub uninterp spec fn url_split_of(text: Seq<char>) -> Seq<Seq<char>>;

/// Relies on regex::Regex::find_iter with the URL pattern: matches are
/// non-overlapping and in order, so the pieces are a function of the
/// text alone.
#[verifier::external_body]
fn split_on_urls(text: &str) -> (r: Vec<String>)
    ensures
        texts_view(r@) == url_split_of(text@),
{
    let re = regex::Regex::new(
        r"https?://[[:word:].-]+(?:\.[[:word:].-]+)+[[:word:]\-._~:/?#\[\]@!$&'()*+,;=]+",
    ).unwrap();
    let mut pieces = Vec::new();
    let mut last: usize = 0;
    for m in re.find_iter(text) {
        pieces.push(text[last..m.start()].to_string());
        pieces.push(m.as_str().to_string());
        last = m.end();
    }
    pieces.push(text[last..].to_string());
    pieces
}

/// The host of a URL text, when it parses and has one.
pub uninterp spec fn url_host_of(s: Seq<char>) -> Option<Seq<char>>;

/// Relies on url::Url::parse and Url::host_str; the host is a function
/// of the text alone.
#[verifier::external_body]
fn url_host(s: &str) -> (r: Option<String>)
    ensures
        (r is Some) == (url_host_of(s@) is Some),
        r matches Some(h) ==> url_host_of(s@) == Some(h@),
{
    url::Url::parse(s).ok().and_then(|u| u.host_str().map(str::to_owned))
}

/// The URL text rewritten to the given host, serialised as url writes
/// it.
pub uninterp spec fn rehosted_of(s: Seq<char>, host: Seq<char>) -> Option<Seq<char>>;

/// Relies on url::Url::parse, set_host and the url Display impl; the
/// result is a function of the arguments alone. A failed set_host
/// leaves the URL as parsed, as the caller's text then shows.
#[verifier::external_body]
fn rehost(s: &str, host: &str) -> (r: Option<String>)
    ensures
        (r is Some) == (rehosted_of(s@, host@) is Some),
        r matches Some(u) ==> rehosted_of(s@, host@) == Some(u@),
{
    let mut u = url::Url::parse(s).ok()?;
    let _ = u.set_host(Some(host));
    Some(u.to_string())
}

/// As [`rehosted_of`], with the query string dropped as well.
pub uninterp spec fn rehosted_no_query_of(s: Seq<char>, host: Seq<char>) -> Option<Seq<char>>;

/// Relies on url::Url::parse, set_host, set_query(None) and the url
/// Display impl; the result is a function of the arguments alone.
#[verifier::external_body]
fn rehost_drop_query(s: &str, host: &str) -> (r: Option<String>)
    ensures
        (r is Some) == (rehosted_no_query_of(s@, host@) is Some),
        r matches Some(u) ==> rehosted_no_query_of(s@, host@) == Some(u@),
{
    let mut u = url::Url::parse(s).ok()?;
    let _ = u.set_host(Some(host));
    u.set_query(None);
    Some(u.to_string())
}

/// The rewritten URL followed by the original in a source note.
pub open spec fn spec_with_source(u: Seq<char>, original: Seq<char>) -> Seq<char> {
    u + " ([source]("@ + original + "))"@
}

/// How one matched URL is replaced: Twitter and X links go to
/// nitter.net with the query dropped, Medium links go to scribe.rip,
/// and anything else stays as it is.
pub open spec fn spec_replace_url(s: Seq<char>) -> Seq<char> {
    match url_host_of(s) {
        None => s,
        Some(h) => if h == "x.com"@ || spec_ends_with(h, "twitter.com"@) {
            match rehosted_no_query_of(s, "nitter.net"@) {
                Some(u) => spec_with_source(u, s),
                None => s,
            }
        } else if spec_ends_with(h, "medium.com"@) {
            match rehosted_of(s, "scribe.rip"@) {
                Some(u) => spec_with_source(u, s),
                None => s,
            }
        } else {
            s
        },
    }
}

fn with_source(u: String, original: &str) -> (r: String)
    ensures
        r@ == spec_with_source(u@, original@),
{
    let r = u.concat(" ([source](").concat(original).concat("))");
    proof {
        assert(r@ =~= spec_with_source(u@, original@));
    }
    r
}

/// Rewrite one matched URL, or hand it back unchanged.
pub fn maybe_replace_url(url0: &str) -> (r: String)
    ensures
        r@ == spec_replace_url(url0@),
{
    match url_host(url0) {
        None => String::from_str(url0),
        Some(host) => {
            if str_eq(host.as_str(), "x.com") || str_ends_with(host.as_str(), "twitter.com") {
                match rehost_drop_query(url0, "nitter.net") {
                    Some(u) => with_source(u, url0),
                    None => String::from_str(url0),
                }
            } else if str_ends_with(host.as_str(), "medium.com") {
                match rehost(url0, "scribe.rip") {
                    Some(u) => with_source(u, url0),
                    None => String::from_str(url0),
                }
            } else {
                String::from_str(url0)
            }
        },
    }
}

/// The whole text with every piece in place: gaps kept, matches
/// replaced.
pub open spec fn splice_upto(pieces: Seq<Seq<char>>, k: int) -> Seq<char>
    decreases k,
{
    if k <= 0 {
        Seq::<char>::empty()
    } else {
        splice_upto(pieces, k - 1) + (if (k - 1) % 2 == 0 {
            pieces[k - 1]
        } else {
            spec_replace_url(pieces[k - 1])
        })
    }
}

/// The text with every known social-media link rewritten.
pub open spec fn spec_substitute_urls(text: Seq<char>) -> Seq<char> {
    splice_upto(url_split_of(text), url_split_of(text).len() as int)
}

/// Rewrite known social-media links inside free text.
pub fn substitute_urls(text: &str) -> (r: String)
    ensures
        r@ == spec_substitute_urls(text@),
{
    let pieces = split_on_urls(text);
    let ghost pv = texts_view(pieces@);
    let mut out = String::new();
    let mut i: usize = 0;
    while i < pieces.len()
        invariant
            0 <= i <= pieces@.len(),
            pv == texts_view(pieces@),
            pv.len() == pieces@.len(),
            pv == url_split_of(text@),
            out@ == splice_upto(pv, i as int),
        decreases pieces@.len() - i,
    {
        proof {
            assert(pv[i as int] == pieces@[i as int]@);
        }
        if i % 2 == 0 {
            out.append(pieces[i].as_str());
        } else {
            let replaced = maybe_replace_url(pieces[i].as_str());
            out.append(replaced.as_str());
        }
        i += 1;
    }
    out
}

} // verus!
