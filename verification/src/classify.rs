//! Which downloader a submitted link goes to: YouTube links go to yt-dlp,
//! magnet, HTTP(S) and FTP links go to aria2c. URL parsing itself is done by
//! the `url` crate.

use vstd::prelude::*;
use crate::text::{trim, trimmed, trim_start, trim_end, is_ws, ascii_lowercase, starts_with, chars_of, starts_with_ignore_ascii_case, text_eq};

verus! {

/// Whether `url::Url::parse` accepts `input`.
pub uninterp spec fn url_parses(input: Seq<char>) -> bool;

/// `Url::scheme` of the URL that `url::Url::parse` makes of `input`.
pub uninterp spec fn url_scheme(input: Seq<char>) -> Seq<char>;

/// `Url::host_str` of the URL that `url::Url::parse` makes of `input`.
pub uninterp spec fn url_host(input: Seq<char>) -> Option<Seq<char>>;

/// The text of an optional string.
pub open spec fn opt_view(o: Option<String>) -> Option<Seq<char>> {
    match o {
        Some(s) => Some(s@),
        None => None,
    }
}

/// Parses `input` with `url::Url::parse`; on success hands back the parsed
/// URL's `Url::scheme` and `Url::host_str` as owned strings. The contract
/// names the parse outcome, the scheme and the host; of the scheme it adds
/// what the `url` documentation promises: it is lower-case ASCII. It also
/// states what the parser's scheme state shows: without a base URL, an input
/// parses only if, after leading control characters and spaces (code points
/// up to U+0020), it starts with an ASCII letter.
#[verifier::external_body]
fn parse_scheme_and_host(input: &str) -> (r: Option<(String, Option<String>)>)
    ensures
        r is Some <==> url_parses(input@),
        r matches Some(p) ==> p.0@ == url_scheme(input@) && opt_view(p.1) == url_host(input@),
        r matches Some(p) ==> forall|i: int|
            0 <= i < p.0@.len() ==> (#[trigger] p.0@[i] as u32) < 128 && !(65 <= p.0@[i] as u32
                <= 90),
        r is Some ==> input@.len() > 0 && (is_ascii_letter(input@[0]) || input@[0] as u32 <= 0x20),
{
    match url::Url::parse(input) {
        Ok(u) => Some(
            (
                u.scheme().to_string(),
                match u.host_str() {
                    Some(h) => Some(h.to_string()),
                    None => None,
                },
            ),
        ),
        Err(_) => None,
    }
}

/// `c` is an ASCII letter.
pub open spec fn is_ascii_letter(c: char) -> bool {
    65 <= c as u32 <= 90 || 97 <= c as u32 <= 122
}

/// `s` could be taken for a command-line option: it starts with `-`.
pub open spec fn looks_like_option(s: Seq<char>) -> bool {
    s.len() > 0 && s[0] == '-'
}

proof fn lemma_trim_end_keeps_first(s: Seq<char>)
    requires
        s.len() > 0,
        !is_ws(s[0]),
    ensures
        trim_end(s).len() > 0,
        trim_end(s)[0] == s[0],
    decreases s.len(),
{
    if is_ws(s.last()) {
        if s.len() == 1 {
            assert(s.last() == s[0]);
        } else {
            assert(s.drop_last()[0] == s[0]);
            lemma_trim_end_keeps_first(s.drop_last());
        }
    }
}

/// A text that starts with `-` still starts with `-` once trimmed.
proof fn lemma_option_survives_trim(raw: Seq<char>)
    requires
        looks_like_option(raw),
    ensures
        trimmed(raw).len() > 0,
        trimmed(raw)[0] == '-',
{
    assert(!is_ws(raw[0]));
    assert(trim_start(raw) == raw);
    lemma_trim_end_keeps_first(raw);
}

/// The hosts that count as YouTube.
pub open spec fn is_youtube_host(h: Seq<char>) -> bool {
    ||| h == "youtube.com"@
    ||| h == "www.youtube.com"@
    ||| h == "m.youtube.com"@
    ||| h == "music.youtube.com"@
    ||| h == "youtu.be"@
}

/// A parsed URL with this scheme and host is a YouTube link.
pub open spec fn youtube_parts(scheme: Seq<char>, host: Option<Seq<char>>) -> bool {
    &&& (scheme == "http"@ || scheme == "https"@)
    &&& host matches Some(h) && is_youtube_host(h)
}

/// aria2c fetches parsed URLs with this scheme.
pub open spec fn aria2c_scheme(scheme: Seq<char>) -> bool {
    scheme == "http"@ || scheme == "https"@ || scheme == "ftp"@
}

/// `raw`, trimmed, is a non-empty http(s) URL whose host is a YouTube host.
pub open spec fn youtube_url(raw: Seq<char>) -> bool {
    let t = trimmed(raw);
    &&& t.len() > 0
    &&& url_parses(t)
    &&& youtube_parts(url_scheme(t), url_host(t))
}

/// `raw`, trimmed, is non-empty and either starts with `magnet:` in any ASCII
/// case, or parses as a URL with scheme http, https or ftp.
pub open spec fn aria2c_url(raw: Seq<char>) -> bool {
    let t = trimmed(raw);
    &&& t.len() > 0
    &&& {
        ||| starts_with(ascii_lowercase(t), "magnet:"@)
        ||| url_parses(t) && aria2c_scheme(url_scheme(t))
    }
}

/// Whether `raw` is a YouTube link that yt-dlp should fetch.
pub fn is_valid_youtube_url(raw: &str) -> (r: bool)
    ensures
        r == youtube_url(raw@),
        r ==> !looks_like_option(raw@),
{
    let t = trim(raw);
    if t.as_str().is_empty() {
        return false;
    }
    match parse_scheme_and_host(t.as_str()) {
        None => false,
        Some((scheme, host)) => {
            proof {
                if looks_like_option(raw@) {
                    lemma_option_survives_trim(raw@);
                }
            }
            is_youtube_scheme_and_host(&scheme, &host)
        },
    }
}

/// Whether a parsed URL with this scheme and host is a YouTube link.
pub fn is_youtube_scheme_and_host(scheme: &String, host: &Option<String>) -> (r: bool)
    ensures
        r == youtube_parts(scheme@, opt_view(*host)),
{
    if !text_eq(scheme, "http") && !text_eq(scheme, "https") {
        return false;
    }
    match host {
        None => false,
        Some(h) => {
            text_eq(h, "youtube.com") || text_eq(h, "www.youtube.com") || text_eq(
                h,
                "m.youtube.com",
            ) || text_eq(h, "music.youtube.com") || text_eq(h, "youtu.be")
        },
    }
}

/// Whether aria2c fetches parsed URLs with this scheme.
pub fn is_aria2c_scheme(scheme: &String) -> (r: bool)
    ensures
        r == aria2c_scheme(scheme@),
{
    text_eq(scheme, "http") || text_eq(scheme, "https") || text_eq(scheme, "ftp")
}

/// Whether `raw` is a link that aria2c should fetch.
pub fn is_aria2c_url(raw: &str) -> (r: bool)
    ensures
        r == aria2c_url(raw@),
        r ==> !looks_like_option(raw@),
{
    let t = trim(raw);
    if t.as_str().is_empty() {
        return false;
    }
    proof {
        if looks_like_option(raw@) {
            lemma_option_survives_trim(raw@);
        }
    }
    let tv = chars_of(t.as_str());
    if starts_with_ignore_ascii_case(&tv, "magnet:") {
        proof {
            reveal_strlit("magnet:");
            assert(ascii_lowercase(t@).subrange(0, 7)[0] == 'm');
            assert(ascii_lowercase(t@)[0] == 'm');
        }
        return true;
    }
    match parse_scheme_and_host(t.as_str()) {
        None => false,
        Some((scheme, _host)) => is_aria2c_scheme(&scheme),
    }
}

/// Every link that goes to yt-dlp would also be accepted by aria2c: the
/// YouTube check is the narrower of the two.
pub proof fn youtube_urls_are_aria2c_urls(raw: Seq<char>)
    requires
        youtube_url(raw),
    ensures
        aria2c_url(raw),
{
}

/// A link is a YouTube link exactly when, trimmed, it is non-empty and parses
/// as a URL whose scheme is http or https and whose host is youtube.com,
/// www.youtube.com, m.youtube.com, music.youtube.com or youtu.be.
pub proof fn youtube_links_are_exactly_youtube_hosts(raw: Seq<char>)
    ensures
        youtube_url(raw) <==> {
            let t = trimmed(raw);
            &&& t.len() > 0
            &&& url_parses(t)
            &&& (url_scheme(t) == "http"@ || url_scheme(t) == "https"@)
            &&& url_host(t) matches Some(h) && (h == "youtube.com"@ || h == "www.youtube.com"@
                || h == "m.youtube.com"@ || h == "music.youtube.com"@ || h == "youtu.be"@)
        },
{
}

} // verus!
