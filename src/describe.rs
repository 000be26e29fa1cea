//! Human-readable name and description of a workspace URI or path.

use vstd::prelude::*;
use vstd::string::*;
use crate::text::{chars_of, decode_or_keep, decoded_or_raw, percent_decode, percent_decoded};

verus! {

/// The parts of a parsed URL that a description needs: the scheme, whether
/// it names a host, and the path as it stands in the URL (percent-encoded).
pub uninterp spec fn url_parts(s: Seq<char>) -> Option<(Seq<char>, bool, Seq<char>)>;

/// The parts of a parsed URL that a description needs.
pub struct UrlParts {
    pub scheme: String,
    pub has_host: bool,
    pub path: String,
}

/// Relies on `url::Url::parse`, read through `Url::scheme`, `Url::host` and
/// `Url::path`: `None` where the text is no absolute URL.
#[verifier::external_body]
fn parse_url(s: &str) -> (r: Option<UrlParts>)
    ensures
        r matches Some(p) ==> url_parts(s@) == Some((p.scheme@, p.has_host, p.path@)),
        r is None ==> url_parts(s@) is None,
{
    match url::Url::parse(s) {
        Ok(u) => Some(
            UrlParts {
                scheme: u.scheme().to_string(),
                has_host: u.host().is_some(),
                path: u.path().to_string(),
            },
        ),
        Err(_) => None,
    }
}

/// `s` without the slashes at its end.
pub open spec fn trim_end_slashes(s: Seq<char>) -> Seq<char>
    decreases s.len(),
{
    if s.len() > 0 && s.last() == '/' {
        trim_end_slashes(s.drop_last())
    } else {
        s
    }
}

/// Where the last segment of `t` starts: just after its last slash, or 0.
pub open spec fn segment_start(t: Seq<char>) -> int
    decreases t.len(),
{
    if t.len() == 0 || t.last() == '/' {
        t.len() as int
    } else {
        segment_start(t.drop_last())
    }
}

/// The last non-empty segment between slashes, if any.
pub open spec fn last_segment(s: Seq<char>) -> Option<Seq<char>> {
    let t = trim_end_slashes(s);
    if t.len() == 0 {
        None
    } else {
        Some(t.subrange(segment_start(t), t.len() as int))
    }
}

/// The name and the description of `u`, given how it parses as a URL, the
/// decoded path of that URL, and `u` decoded as a whole.
///
/// A URL is named by the last segment of its decoded path, or by the whole
/// text; a local file URL (scheme `file`, no host) is described by its
/// decoded path, or by its path as it stands where that does not decode;
/// another URL by the decoded text. Text that is no URL is named by the last
/// segment of its decoded form, or by that form, and described by it.
pub open spec fn describe_parsed(
    u: Seq<char>,
    parsed: Option<(Seq<char>, bool, Seq<char>)>,
    decoded_path: Option<Seq<char>>,
    decoded_uri: Seq<char>,
) -> (Seq<char>, Seq<char>) {
    match parsed {
        Some((scheme, has_host, path)) => {
            let name = match decoded_path {
                Some(d) => match last_segment(d) {
                    Some(n) => n,
                    None => u,
                },
                None => u,
            };
            let description = if scheme == "file"@ && !has_host {
                match decoded_path {
                    Some(d) => d,
                    None => path,
                }
            } else {
                decoded_uri
            };
            (name, description)
        },
        None => {
            let name = match last_segment(decoded_uri) {
                Some(n) => n,
                None => decoded_uri,
            };
            (name, decoded_uri)
        },
    }
}

/// The name and the description of a workspace URI or path.
pub open spec fn name_and_description(u: Seq<char>) -> (Seq<char>, Seq<char>) {
    match url_parts(u) {
        Some(p) => describe_parsed(u, Some(p), percent_decoded(p.2), decoded_or_raw(u)),
        None => describe_parsed(u, None, None, decoded_or_raw(u)),
    }
}

/// The last non-empty segment of `s` between slashes.
pub fn name_from_uri(s: &str) -> (r: Option<String>)
    ensures
        r matches Some(n) ==> last_segment(s@) == Some(n@),
        r is None ==> last_segment(s@) is None,
{
    let c = chars_of(s);
    let mut e: usize = c.len();
    assert(s@.take(e as int) =~= s@);
    while e > 0 && c[e - 1] == '/'
        invariant
            c@ == s@,
            e <= s@.len(),
            trim_end_slashes(s@) == trim_end_slashes(s@.take(e as int)),
        decreases e,
    {
        assert(s@.take(e as int).drop_last() =~= s@.take(e - 1));
        e = e - 1;
    }
    let ghost t = s@.take(e as int);
    assert(trim_end_slashes(t) == t);
    if e == 0 {
        return None;
    }
    let mut b: usize = e;
    assert(t.take(b as int) =~= t);
    while b > 0 && c[b - 1] != '/'
        invariant
            c@ == s@,
            b <= e,
            e <= s@.len(),
            t == s@.take(e as int),
            segment_start(t) == segment_start(t.take(b as int)),
        decreases b,
    {
        assert(t.take(b as int).drop_last() =~= t.take(b - 1));
        b = b - 1;
    }
    assert(segment_start(t.take(b as int)) == b);
    let seg = s.substring_char(b, e);
    assert(seg@ =~= t.subrange(b as int, e as int));
    Some(String::from_str(seg))
}

/// Whether `s` is `file`.
fn is_file_scheme(s: &String) -> (r: bool)
    ensures
        r == (s@ == "file"@),
{
    let file = String::from_str("file");
    *s == file
}

/// The text of the parts of a parsed URL.
pub open spec fn parts_view(p: Option<UrlParts>) -> Option<(Seq<char>, bool, Seq<char>)> {
    match p {
        Some(p) => Some((p.scheme@, p.has_host, p.path@)),
        None => None,
    }
}

/// The name and the description of `uri`, given its URL parts, the decoded
/// path of the URL, and `uri` decoded as a whole.
pub fn describe_parsed_uri(
    uri: &str,
    parts: Option<UrlParts>,
    decoded_path: Option<String>,
    decoded_uri: String,
) -> (r: (String, String))
    ensures
        (r.0@, r.1@) == describe_parsed(uri@, parts_view(parts), opt_text(decoded_path), decoded_uri@),
{
    match parts {
        Some(parts) => {
            let name = match &decoded_path {
                Some(d) => match name_from_uri(d.as_str()) {
                    Some(n) => n,
                    None => String::from_str(uri),
                },
                None => String::from_str(uri),
            };
            let description = if is_file_scheme(&parts.scheme) && !parts.has_host {
                match decoded_path {
                    Some(d) => d,
                    None => parts.path,
                }
            } else {
                decoded_uri
            };
            (name, description)
        },
        None => {
            let name = match name_from_uri(decoded_uri.as_str()) {
                Some(n) => n,
                None => decoded_uri.clone(),
            };
            (name, decoded_uri)
        },
    }
}

/// The text of an optional string.
pub open spec fn opt_text(o: Option<String>) -> Option<Seq<char>> {
    match o {
        Some(s) => Some(s@),
        None => None,
    }
}

/// The name and the description of a workspace URI or path.
pub fn name_and_description_of_uri(uri: &str) -> (r: (String, String))
    ensures
        (r.0@, r.1@) == name_and_description(uri@),
{
    let parts = parse_url(uri);
    let decoded_path = match &parts {
        Some(p) => percent_decode(p.path.as_str()),
        None => None,
    };
    let decoded_uri = decode_or_keep(uri);
    describe_parsed_uri(uri, parts, decoded_path, decoded_uri)
}

} // verus!
