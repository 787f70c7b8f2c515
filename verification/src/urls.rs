//! What the engine takes from the `url` crate, parsing and joining, each
//! returned as plain values; and form-encoding as `form_urlencoded` does it.
use vstd::prelude::*;
use vstd::string::*;
use crate::text::push_char;
use crate::tui::events::{hex_digit, hex_digit_exec};

verus! {

/// The parts of a parsed URL that the engine reads.
pub struct ParsedUrl {
    /// The serialization (`Url::to_string`).
    pub href: String,
    pub scheme: String,
    pub host: Option<String>,
    pub port: Option<u16>,
    pub path: String,
    /// Decoded `name=value` pairs of the query, in order.
    pub query: Vec<(String, String)>,
    /// Path segments, `None` for a URL that cannot be a base.
    pub segments: Option<Vec<String>>,
}

pub struct ParsedUrlView {
    pub href: Seq<char>,
    pub scheme: Seq<char>,
    pub host: Option<Seq<char>>,
    pub port: Option<u16>,
    pub path: Seq<char>,
    pub query: Seq<(Seq<char>, Seq<char>)>,
    pub segments: Option<Seq<Seq<char>>>,
}

pub open spec fn pairs_view(v: Seq<(String, String)>) -> Seq<(Seq<char>, Seq<char>)> {
    v.map_values(|p: (String, String)| (p.0@, p.1@))
}

pub open spec fn segs_view(v: Option<Vec<String>>) -> Option<Seq<Seq<char>>> {
    match v {
        Some(s) => Some(s@.map_values(|x: String| x@)),
        None => None,
    }
}

impl View for ParsedUrl {
    type V = ParsedUrlView;

    open spec fn view(&self) -> ParsedUrlView {
        ParsedUrlView {
            href: self.href@,
            scheme: self.scheme@,
            host: match self.host {
                Some(h) => Some(h@),
                None => None,
            },
            port: self.port,
            path: self.path@,
            query: pairs_view(self.query@),
            segments: segs_view(self.segments),
        }
    }
}

/// `url::Url::parse(s)`, read as its parts; `None` when parsing fails.
pub uninterp spec fn url_parse(s: Seq<char>) -> Option<ParsedUrlView>;

/// `Url::parse(base)` then `join(href)`, serialized; `None` when either fails.
pub uninterp spec fn url_join(base: Seq<char>, href: Seq<char>) -> Option<Seq<char>>;

/// The bytes `byte_serialize` keeps as they are: ASCII letters and digits
/// and `*`, `-`, `.`, `_`.
pub open spec fn form_unchanged(b: u8) -> bool {
    b == 0x2A || b == 0x2D || b == 0x2E || (0x30 <= b <= 0x39) || (0x41 <= b <= 0x5A) || b == 0x5F || (0x61 <= b
        <= 0x7A)
}

/// One byte encoded: kept, a space as `+`, anything else as `%` and two
/// upper-case hex digits.
pub open spec fn form_byte(b: u8) -> Seq<char> {
    if form_unchanged(b) {
        seq![b as char]
    } else if b == 0x20 {
        seq!['+']
    } else {
        seq!['%', hex_digit(b / 16), hex_digit(b % 16)]
    }
}

pub open spec fn form_bytes(bs: Seq<u8>) -> Seq<char>
    decreases bs.len(),
{
    if bs.len() == 0 {
        Seq::empty()
    } else {
        form_bytes(bs.drop_last()) + form_byte(bs.last())
    }
}

/// `url::form_urlencoded::byte_serialize` of the UTF-8 bytes of `s`.
pub closed spec fn form_urlencoded(s: Seq<char>) -> Seq<char> {
    form_bytes(vstd::utf8::encode_utf8(s))
}

/// Parses `s` with `url::Url::parse` and copies out the parts the engine
/// reads. The contract names the result; it says nothing of the error value.
#[verifier::external_body]
pub(crate) fn parse_url(s: &str) -> (r: Result<ParsedUrl, url::ParseError>)
    ensures
        r is Ok <==> url_parse(s@) is Some,
        r matches Ok(u) ==> url_parse(s@) == Some(u@),
{
    let u = url::Url::parse(s)?;
    Ok(ParsedUrl {
        href: u.to_string(),
        scheme: u.scheme().to_string(),
        host: u.host_str().map(|h| h.to_string()),
        port: u.port(),
        path: u.path().to_string(),
        query: u.query_pairs().map(|(k, v)| (k.into_owned(), v.into_owned())).collect(),
        segments: u.path_segments().map(|it| it.map(|x| x.to_string()).collect()),
    })
}

/// Resolves `href` against `base` with `Url::parse` and `Url::join`.
#[verifier::external_body]
pub(crate) fn join_url(base: &str, href: &str) -> (r: Option<String>)
    ensures
        match r {
            Some(t) => url_join(base@, href@) == Some(t@),
            None => url_join(base@, href@) is None,
        },
{
    let b = url::Url::parse(base).ok()?;
    b.join(href).ok().map(|u| u.to_string())
}

/// `application/x-www-form-urlencoded` encoding of `s`, as
/// `url::form_urlencoded::byte_serialize` does it.
pub(crate) fn form_urlencode(s: &str) -> (r: String)
    ensures
        r@ == form_urlencoded(s@),
{
    let bytes = s.as_bytes();
    let ghost bv = bytes@;
    let mut out = String::new();
    let mut i: usize = 0;
    assert(bv.take(0) =~= Seq::<u8>::empty());
    while i < bytes.len()
        invariant
            i <= bytes@.len(),
            bv == bytes@,
            out@ == form_bytes(bv.take(i as int)),
        decreases bytes@.len() - i,
    {
        assert(bv.take(i + 1).drop_last() =~= bv.take(i as int));
        let b = bytes[i];
        let ghost before = out@;
        if b == 0x2A || b == 0x2D || b == 0x2E || (0x30 <= b && b <= 0x39) || (0x41 <= b && b <= 0x5A) || b == 0x5F
            || (0x61 <= b && b <= 0x7A) {
            push_char(&mut out, b as char);
            assert(out@ =~= before + seq![b as char]);
        } else if b == 0x20 {
            push_char(&mut out, '+');
            assert(out@ =~= before + seq!['+']);
        } else {
            push_char(&mut out, '%');
            push_char(&mut out, hex_digit_exec(b / 16));
            push_char(&mut out, hex_digit_exec(b % 16));
            assert(out@ =~= before + seq!['%', hex_digit(b / 16), hex_digit(b % 16)]);
        }
        i = i + 1;
    }
    assert(bv.take(bytes@.len() as int) =~= bv);
    out
}

} // verus!
