//! BitFox: every URL is inspected before the pipeline fetches it and is
//! allowed, blocked or flagged.
use vstd::prelude::*;
use crate::browser::assets::{split_chars, split_on};
use crate::text::{
    ascii_lower, ascii_lower_str, chars_of, digits_value, ends_with, is_digit, lemma_digits_grow, starts_with,
    str_ends_with, str_eq, str_starts_with, strs_view, utf8_len, utf8_len_capped,
};
use crate::urls::{parse_url, url_parse};

pub mod js_hooks;

verus! {

#[derive(Debug, Clone, Copy, PartialEq, Eq, Structural)]
pub enum BitFoxDecision {
    Allow,
    Block,
    Flag,
    Verify,
}

/// What is known of a request when it is inspected.
pub struct BitFoxContext {
    pub request_url: String,
    pub content_type: String,
    pub origin_signature: Option<String>,
    pub payload_hash: String,
    pub timestamp: i64,
    pub session_id: String,
}

/// `s` without one leading `+`.
pub open spec fn unsigned_text(s: Seq<char>) -> Seq<char> {
    if s.len() > 0 && s[0] == '+' {
        s.drop_first()
    } else {
        s
    }
}

/// Decimal digits worth at most 255.
pub open spec fn byte_digits(d: Seq<char>) -> Option<u8> {
    if d.len() > 0 && (forall|i: int| 0 <= i < d.len() ==> #[trigger] is_digit(d[i])) && digits_value(d) <= 255 {
        Some(digits_value(d) as u8)
    } else {
        None
    }
}

/// `str::parse::<u8>`: an optional `+`, then decimal digits worth at most 255.
pub open spec fn parse_u8(s: Seq<char>) -> Option<u8> {
    byte_digits(unsigned_text(s))
}

pub fn parse_u8_exec(s: &[char]) -> (r: Option<u8>)
    ensures
        r == parse_u8(s@),
{
    let start: usize = if s.len() > 0 && s[0] == '+' { 1 } else { 0 };
    let ghost d = unsigned_text(s@);
    assert(d =~= s@.skip(start as int));
    if start >= s.len() {
        return None;
    }
    let mut v: u32 = 0;
    let mut i = start;
    assert(d.take(0) =~= Seq::<char>::empty());
    while i < s.len()
        invariant
            start <= i <= s@.len(),
            d == s@.skip(start as int),
            d == unsigned_text(s@),
            forall|j: int| 0 <= j < i - start ==> #[trigger] is_digit(d[j]),
            v as nat == digits_value(d.take(i - start)),
            v <= 255,
        decreases s@.len() - i,
    {
        let c = s[i];
        assert(d[i - start] == c);
        if !('0' <= c && c <= '9') {
            assert(!is_digit(d[i - start]));
            return None;
        }
        let ghost t = d.take(i - start + 1);
        assert(t.drop_last() =~= d.take(i - start));
        assert(t.last() == c);
        v = v * 10 + (c as u32 - '0' as u32);
        i = i + 1;
        assert(v as nat == digits_value(d.take(i - start)));
        if v > 255 {
            proof {
                if forall|j: int| 0 <= j < d.len() ==> #[trigger] is_digit(d[j]) {
                    lemma_digits_grow(d, i - start);
                }
            }
            return None;
        }
    }
    assert(d.take(d.len() as int) =~= d);
    Some(v as u8)
}

/// Four dot-separated parts that each parse as a `u8`, or a bracketed IPv6
/// host.
pub open spec fn is_ip(host: Seq<char>) -> bool {
    let parts = split_on(host, '.');
    (parts.len() == 4 && forall|i: int| 0 <= i < 4 ==> #[trigger] parse_u8(parts[i]) is Some) || (starts_with(
        host,
        "["@,
    ) && ends_with(host, "]"@))
}

/// The parts that parse as a `u8`, in order.
pub open spec fn octets(parts: Seq<Seq<char>>) -> Seq<u8>
    decreases parts.len(),
{
    if parts.len() == 0 {
        Seq::empty()
    } else {
        let prev = octets(parts.drop_last());
        match parse_u8(parts.last()) {
            Some(b) => prev.push(b),
            None => prev,
        }
    }
}

/// Exactly four octets parse and they are in 10/8, 172.16/12, 192.168/16,
/// 127/8 or 169.254/16.
pub open spec fn is_private(host: Seq<char>) -> bool {
    let o = octets(split_on(host, '.'));
    o.len() == 4 && (o[0] == 10 || (o[0] == 172 && 16 <= o[1] <= 31) || (o[0] == 192 && o[1] == 168) || o[0] == 127 || (
    o[0] == 169 && o[1] == 254))
}

/// Whether `host` is written as an IP address; see `is_ip`.
pub fn is_ip_address(host: &str) -> (r: bool)
    ensures
        r == is_ip(host@),
{
    let cs = chars_of(host);
    let parts = split_chars(cs.as_slice(), '.');
    let ghost pv = strs_view(parts@);
    if parts.len() == 4 {
        let mut all = true;
        let mut i: usize = 0;
        while i < 4
            invariant
                i <= 4,
                parts@.len() == 4,
                pv == strs_view(parts@),
                all == forall|j: int| 0 <= j < i ==> #[trigger] parse_u8(pv[j]) is Some,
            decreases 4 - i,
        {
            assert(pv[i as int] == parts@[i as int]@);
            if parse_u8_exec(parts[i].as_slice()).is_none() {
                all = false;
            }
            i = i + 1;
            assert(all == forall|j: int| 0 <= j < i ==> #[trigger] parse_u8(pv[j]) is Some) by {
                if !all {
                    if !(parse_u8(pv[i - 1]) is Some) {
                    } else {
                        let j0 = choose|j: int| 0 <= j < i - 1 && !(parse_u8(pv[j]) is Some);
                        assert(!(parse_u8(pv[j0]) is Some));
                    }
                }
            }
        }
        if all {
            return true;
        }
    }
    str_starts_with(host, "[") && str_ends_with(host, "]")
}

/// Whether `host` is an address of a private or local network; see
/// `is_private`.
pub fn is_private_ip(host: &str) -> (r: bool)
    ensures
        r == is_private(host@),
{
    let cs = chars_of(host);
    let parts = split_chars(cs.as_slice(), '.');
    let ghost pv = strs_view(parts@);
    let mut o: Vec<u8> = Vec::new();
    let mut i: usize = 0;
    assert(pv.take(0) =~= Seq::<Seq<char>>::empty());
    while i < parts.len()
        invariant
            i <= parts@.len(),
            pv == strs_view(parts@),
            o@ == octets(pv.take(i as int)),
        decreases parts@.len() - i,
    {
        let ghost t = pv.take(i + 1);
        assert(t.drop_last() =~= pv.take(i as int));
        assert(t.last() == parts@[i as int]@);
        match parse_u8_exec(parts[i].as_slice()) {
            Some(b) => o.push(b),
            None => {},
        }
        i = i + 1;
    }
    assert(pv.take(parts@.len() as int) =~= pv);
    if o.len() != 4 {
        return false;
    }
    let a = o[0];
    let b = o[1];
    a == 10 || (a == 172 && 16 <= b && b <= 31) || (a == 192 && b == 168) || a == 127 || (a == 169 && b == 254)
}

/// Ad, tracker and malware domains, matched as the host or a suffix of it.
pub open spec fn block_domains() -> Seq<Seq<char>> {
    seq![
        "doubleclick.net"@, "googlesyndication.com"@, "googleadservices.com"@, "adnxs.com"@,
        "amazon-adsystem.com"@, "adsystem.com"@, "moatads.com"@, "taboola.com"@, "outbrain.com"@,
        "advertising.com"@, "adsrvr.org"@, "casalemedia.com"@, "pubmatic.com"@, "rubiconproject.com"@,
        "openx.net"@, "servedby-buysellads.com"@, "buysellads.com"@, "carbonads.net"@,
        "scorecardresearch.com"@, "quantserve.com"@, "chartbeat.com"@, "newrelic.com"@, "nr-data.net"@,
        "hotjar.com"@, "mouseflow.com"@, "crazyegg.com"@, "fullstory.com"@, "loggly.com"@, "mixpanel.com"@,
        "segment.com"@, "segment.io"@, "amplitude.com"@, "optimizely.com"@, "omtrdc.net"@, "demdex.net"@,
        "bluekai.com"@, "addthis.com"@, "addthisedge.com"@, "sharethis.com"@, "sentry.io"@, "bugsnag.com"@,
    ]
}

fn block_domain_list() -> (r: Vec<&'static str>)
    ensures
        r@.map_values(|s: &str| s@) == block_domains(),
{
    let v: Vec<&'static str> = vec![
        "doubleclick.net", "googlesyndication.com", "googleadservices.com", "adnxs.com",
        "amazon-adsystem.com", "adsystem.com", "moatads.com", "taboola.com", "outbrain.com",
        "advertising.com", "adsrvr.org", "casalemedia.com", "pubmatic.com", "rubiconproject.com",
        "openx.net", "servedby-buysellads.com", "buysellads.com", "carbonads.net",
        "scorecardresearch.com", "quantserve.com", "chartbeat.com", "newrelic.com", "nr-data.net",
        "hotjar.com", "mouseflow.com", "crazyegg.com", "fullstory.com", "loggly.com", "mixpanel.com",
        "segment.com", "segment.io", "amplitude.com", "optimizely.com", "omtrdc.net", "demdex.net",
        "bluekai.com", "addthis.com", "addthisedge.com", "sharethis.com", "sentry.io", "bugsnag.com",
    ];
    assert(v@.map_values(|s: &str| s@) =~= block_domains());
    v
}

/// Ports used by backdoors, IRC and Tor, which are flagged.
pub open spec fn suspicious_ports() -> Seq<u16> {
    seq![4444u16, 4445, 1337, 31337, 6667, 6668, 6669, 8888, 9001, 9030]
}

/// `host` is `d` or a subdomain of it.
pub open spec fn on_domain(host: Seq<char>, d: Seq<char>) -> bool {
    host == d || ends_with(host, "."@ + d)
}

/// The decision for a request URL, the checks in this order: a URL that does
/// not parse is blocked; an IP host is blocked when private and flagged
/// otherwise; local hosts are blocked; listed ad and tracker domains are
/// blocked; suspicious ports, schemes other than http and https, and hosts
/// over 80 bytes are flagged; anything else is allowed.
pub open spec fn inspect(url: Seq<char>) -> BitFoxDecision {
    match url_parse(url) {
        None => BitFoxDecision::Block,
        Some(u) => {
            let host = ascii_lower(
                match u.host {
                    Some(h) => h,
                    None => Seq::empty(),
                },
            );
            if is_ip(host) {
                if is_private(host) {
                    BitFoxDecision::Block
                } else {
                    BitFoxDecision::Flag
                }
            } else if host == "localhost"@ || host == "127.0.0.1"@ || starts_with(host, "127."@) || host
                == "[::1]"@ || ends_with(host, ".local"@) {
                BitFoxDecision::Block
            } else if exists|i: int| 0 <= i < block_domains().len() && on_domain(host, #[trigger] block_domains()[i]) {
                BitFoxDecision::Block
            } else if u.port matches Some(p) && suspicious_ports().contains(p) {
                BitFoxDecision::Flag
            } else if u.scheme != "http"@ && u.scheme != "https"@ {
                BitFoxDecision::Flag
            } else if utf8_len(host) > 80 {
                BitFoxDecision::Flag
            } else {
                BitFoxDecision::Allow
            }
        },
    }
}

fn on_listed_domain(host: &str) -> (r: bool)
    ensures
        r == exists|i: int| 0 <= i < block_domains().len() && on_domain(host@, #[trigger] block_domains()[i]),
{
    let list = block_domain_list();
    let ghost lv = list@.map_values(|s: &str| s@);
    let mut i: usize = 0;
    while i < list.len()
        invariant
            i <= list@.len(),
            lv == list@.map_values(|s: &str| s@),
            lv == block_domains(),
            forall|j: int| 0 <= j < i ==> !on_domain(host@, #[trigger] block_domains()[j]),
        decreases list@.len() - i,
    {
        let d = list[i];
        assert(lv[i as int] == d@);
        let mut dotted = ".".to_owned();
        dotted.append(d);
        if str_eq(host, d) || str_ends_with(host, dotted.as_str()) {
            assert(on_domain(host@, block_domains()[i as int]));
            return true;
        }
        i = i + 1;
    }
    false
}

fn is_suspicious_port(p: u16) -> (r: bool)
    ensures
        r == suspicious_ports().contains(p),
{
    let ports: [u16; 10] = [4444, 4445, 1337, 31337, 6667, 6668, 6669, 8888, 9001, 9030];
    assert(ports@ =~= suspicious_ports());
    let mut i: usize = 0;
    while i < 10
        invariant
            i <= 10,
            ports@ == suspicious_ports(),
            forall|j: int| 0 <= j < i ==> ports@[j] != p,
        decreases 10 - i,
    {
        if ports[i] == p {
            assert(ports@[i as int] == p);
            return true;
        }
        i = i + 1;
    }
    false
}

/// Inspects a request; see `inspect`.
pub fn bitfox_inspect(ctx: BitFoxContext) -> (r: BitFoxDecision)
    ensures
        r == inspect(ctx.request_url@),
{
    let parsed = match parse_url(ctx.request_url.as_str()) {
        Ok(u) => u,
        Err(_) => return BitFoxDecision::Block,
    };
    proof {
        reveal_strlit("");
    }
    let host = match &parsed.host {
        Some(h) => ascii_lower_str(h.as_str()),
        None => ascii_lower_str(""),
    };
    assert(""@ =~= Seq::<char>::empty());
    let h = host.as_str();
    if is_ip_address(h) {
        if is_private_ip(h) {
            return BitFoxDecision::Block;
        }
        return BitFoxDecision::Flag;
    }
    if str_eq(h, "localhost") || str_eq(h, "127.0.0.1") || str_starts_with(h, "127.") || str_eq(h, "[::1]")
        || str_ends_with(h, ".local") {
        return BitFoxDecision::Block;
    }
    if on_listed_domain(h) {
        return BitFoxDecision::Block;
    }
    match parsed.port {
        Some(p) => {
            if is_suspicious_port(p) {
                return BitFoxDecision::Flag;
            }
        },
        None => {},
    }
    let sc = parsed.scheme.as_str();
    if !str_eq(sc, "http") && !str_eq(sc, "https") {
        return BitFoxDecision::Flag;
    }
    let hc = chars_of(h);
    if utf8_len_capped(hc.as_slice()) > 80 {
        return BitFoxDecision::Flag;
    }
    BitFoxDecision::Allow
}

} // verus!
