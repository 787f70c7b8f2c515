//! The headers the HTTP client sends: the defaults of every request and the
//! extra ones some sites need.
use vstd::prelude::*;
use crate::text::{ends_with, str_ends_with};
use crate::urls::{parse_url, url_parse};

verus! {

/// The user agent every page request names.
pub const USER_AGENT: &'static str = "Mozilla/5.0 (Windows NT 10.0; Win64; x64) AppleWebKit/537.36 (KHTML, like Gecko) Chrome/120.0.0.0 Safari/537.36";

pub open spec fn pairs_of(v: Seq<(&'static str, &'static str)>) -> Seq<(Seq<char>, Seq<char>)> {
    v.map_values(|p: (&'static str, &'static str)| (p.0@, p.1@))
}

pub open spec fn default_headers_view() -> Seq<(Seq<char>, Seq<char>)> {
    seq![
        ("accept"@, "text/html,application/xhtml+xml,application/xml;q=0.9,*/*;q=0.8"@),
        ("accept-language"@, "en-US,en;q=0.9"@),
        ("accept-encoding"@, "gzip, deflate, br"@),
        ("Upgrade-Insecure-Requests"@, "1"@),
        ("Sec-Fetch-Dest"@, "document"@),
        ("Sec-Fetch-Mode"@, "navigate"@),
        ("Sec-Fetch-Site"@, "none"@),
        ("Sec-Fetch-User"@, "?1"@),
        ("DNT"@, "1"@),
    ]
}

fn push_pair(v: &mut Vec<(&'static str, &'static str)>, name: &'static str, value: &'static str)
    ensures
        pairs_of(final(v)@) == pairs_of(old(v)@).push((name@, value@)),
{
    v.push((name, value));
    assert(pairs_of(v@) =~= pairs_of(old(v)@).push((name@, value@)));
}

/// The headers every request carries, in order.
pub fn build_headers() -> (r: Vec<(&'static str, &'static str)>)
    ensures
        pairs_of(r@) == default_headers_view(),
{
    let mut v: Vec<(&'static str, &'static str)> = Vec::new();
    push_pair(&mut v, "accept", "text/html,application/xhtml+xml,application/xml;q=0.9,*/*;q=0.8");
    push_pair(&mut v, "accept-language", "en-US,en;q=0.9");
    push_pair(&mut v, "accept-encoding", "gzip, deflate, br");
    push_pair(&mut v, "Upgrade-Insecure-Requests", "1");
    push_pair(&mut v, "Sec-Fetch-Dest", "document");
    push_pair(&mut v, "Sec-Fetch-Mode", "navigate");
    push_pair(&mut v, "Sec-Fetch-Site", "none");
    push_pair(&mut v, "Sec-Fetch-User", "?1");
    push_pair(&mut v, "DNT", "1");
    assert(pairs_of(v@) =~= default_headers_view());
    v
}

/// The consent cookie that keeps Google and YouTube from showing their
/// consent page.
pub open spec fn consent_headers() -> Seq<(Seq<char>, Seq<char>)> {
    seq![("Cookie"@, "SOCS=CAE=; CONSENT=YES+cb"@)]
}

/// What Amazon wants to see before it serves a page rather than a robot
/// check.
pub open spec fn amazon_headers() -> Seq<(Seq<char>, Seq<char>)> {
    seq![
        ("Accept"@, "text/html,application/xhtml+xml,application/xml;q=0.9,image/avif,image/webp,image/apng,*/*;q=0.8"@),
        ("Accept-Language"@, "en-US,en;q=0.9"@),
        ("Cache-Control"@, "no-cache"@),
        ("Pragma"@, "no-cache"@),
        ("Sec-Ch-Ua"@, "\"Chromium\";v=\"120\", \"Google Chrome\";v=\"120\", \"Not-A.Brand\";v=\"99\""@),
        ("Sec-Ch-Ua-Mobile"@, "?0"@),
        ("Sec-Ch-Ua-Platform"@, "\"Windows\""@),
    ]
}

pub open spec fn is_google(host: Seq<char>) -> bool {
    ends_with(host, "youtube.com"@) || ends_with(host, "google.com"@)
}

pub open spec fn is_amazon(host: Seq<char>) -> bool {
    ||| ends_with(host, "amazon.com"@)
    ||| ends_with(host, "amazon.in"@)
    ||| ends_with(host, "amazon.co.uk"@)
    ||| ends_with(host, "amazon.de"@)
}

/// The extra headers a page request to `url` carries, by its host: the
/// consent cookie for Google and YouTube, browser headers for Amazon, none
/// for other hosts or a URL that does not parse.
pub open spec fn extra_headers_view(url: Seq<char>) -> Seq<(Seq<char>, Seq<char>)> {
    match url_parse(url) {
        Some(p) => {
            let host = match p.host {
                Some(h) => h,
                None => Seq::empty(),
            };
            (if is_google(host) {
                consent_headers()
            } else {
                Seq::empty()
            }) + (if is_amazon(host) {
                amazon_headers()
            } else {
                Seq::empty()
            })
        },
        None => Seq::empty(),
    }
}

/// The extra headers of a page request to `url`.
pub fn request_headers(url: &str) -> (r: Vec<(&'static str, &'static str)>)
    ensures
        pairs_of(r@) == extra_headers_view(url@),
{
    let mut v: Vec<(&'static str, &'static str)> = Vec::new();
    assert(pairs_of(v@) =~= Seq::<(Seq<char>, Seq<char>)>::empty());
    match parse_url(url) {
        Ok(p) => {
            let host: &str = match &p.host {
                Some(h) => h.as_str(),
                None => "",
            };
            proof {
                reveal_strlit("");
            }
            assert(host@ == match url_parse(url@)->Some_0.host {
                Some(h) => h,
                None => Seq::<char>::empty(),
            });
            if str_ends_with(host, "youtube.com") || str_ends_with(host, "google.com") {
                push_pair(&mut v, "Cookie", "SOCS=CAE=; CONSENT=YES+cb");
            }
            let ghost after_google = pairs_of(v@);
            if str_ends_with(host, "amazon.com") || str_ends_with(host, "amazon.in") || str_ends_with(
                host,
                "amazon.co.uk",
            ) || str_ends_with(host, "amazon.de") {
                push_pair(
                    &mut v,
                    "Accept",
                    "text/html,application/xhtml+xml,application/xml;q=0.9,image/avif,image/webp,image/apng,*/*;q=0.8",
                );
                push_pair(&mut v, "Accept-Language", "en-US,en;q=0.9");
                push_pair(&mut v, "Cache-Control", "no-cache");
                push_pair(&mut v, "Pragma", "no-cache");
                push_pair(
                    &mut v,
                    "Sec-Ch-Ua",
                    "\"Chromium\";v=\"120\", \"Google Chrome\";v=\"120\", \"Not-A.Brand\";v=\"99\"",
                );
                push_pair(&mut v, "Sec-Ch-Ua-Mobile", "?0");
                push_pair(&mut v, "Sec-Ch-Ua-Platform", "\"Windows\"");
                assert(pairs_of(v@) =~= after_google + amazon_headers());
            } else {
                assert(pairs_of(v@) =~= after_google + Seq::<(Seq<char>, Seq<char>)>::empty());
            }
            v
        },
        Err(_) => v,
    }
}

} // verus!
