//! The DevTools server's side of a connection: which connections it
//! accepts, which go on to the WebSocket protocol, and what its HTTP
//! discovery endpoints answer.
use vstd::prelude::*;
use crate::browser::json::{jstr, json_views, jarr, lemma_json_views, obj6, obj7, push_json, JsonValue, JsonView};
use crate::cdp::session::jstr_v;
use crate::mcp::server::lines_of;
use crate::text::{
    chars_of, contains_exec, contains_seq, starts_with, starts_with_exec, str_eq, string_from, strs_view, to_lower,
    trim, trim_chars, trim_start, unicode_lower,
};

verus! {

/// `str::trim_start_matches(p)`: every leading copy of `p` removed.
pub open spec fn strip_all(s: Seq<char>, p: Seq<char>) -> Seq<char>
    decreases s.len(),
{
    if p.len() > 0 && starts_with(s, p) {
        strip_all(s.skip(p.len() as int), p)
    } else {
        s
    }
}

/// An origin on this machine.
pub open spec fn local_origin(o: Seq<char>) -> bool {
    ||| starts_with(o, "http://localhost"@)
    ||| starts_with(o, "http://127.0.0.1"@)
    ||| starts_with(o, "https://localhost"@)
}

/// A header line naming an `Origin` that is not on this machine.
pub open spec fn foreign_origin_line(l: Seq<char>) -> bool {
    let lo = unicode_lower(l);
    starts_with(lo, "origin:"@) && !local_origin(trim(strip_all(lo, "origin:"@)))
}

/// A header line asking to upgrade to WebSocket.
pub open spec fn upgrade_line(l: Seq<char>) -> bool {
    let lo = unicode_lower(l);
    starts_with(trim_start(lo), "upgrade"@) && contains_seq(lo, "websocket"@)
}

/// What the server does with a new connection.
#[derive(Debug, Clone, Copy, PartialEq, Eq, Structural)]
pub enum CdpConnection {
    /// Closed at once: not from this machine, or from a foreign page.
    Reject,
    /// Upgraded to the WebSocket protocol.
    WebSocket,
    /// Answered over plain HTTP.
    Http,
}

/// The fate of a connection whose request starts with `head`, from a peer
/// on this machine or not.
pub open spec fn connection_of(head: Seq<char>, loopback: bool) -> CdpConnection {
    let ls = lines_of(head);
    if !loopback {
        CdpConnection::Reject
    } else if exists|i: int| 0 <= i < ls.len() && foreign_origin_line(#[trigger] ls[i]) {
        CdpConnection::Reject
    } else if exists|i: int| 0 <= i < ls.len() && upgrade_line(#[trigger] ls[i]) {
        CdpConnection::WebSocket
    } else {
        CdpConnection::Http
    }
}

fn strip_all_exec(s: Vec<char>, p: &[char]) -> (r: Vec<char>)
    ensures
        r@ == strip_all(s@, p@),
{
    if p.len() == 0 {
        return s;
    }
    let ghost s0 = s@;
    let mut rest: Vec<char> = s;
    while starts_with_exec(rest.as_slice(), p)
        invariant
            p@.len() > 0,
            strip_all(rest@, p@) == strip_all(s0, p@),
        decreases rest@.len(),
    {
        let mut next: Vec<char> = Vec::new();
        let mut k: usize = p.len();
        while k < rest.len()
            invariant
                p@.len() <= k <= rest@.len(),
                next@ == rest@.subrange(p@.len() as int, k as int),
            decreases rest@.len() - k,
        {
            next.push(rest[k]);
            k = k + 1;
        }
        assert(next@ =~= rest@.skip(p@.len() as int));
        rest = next;
    }
    rest
}

fn lower_chars(line: &[char]) -> (r: Vec<char>)
    ensures
        r@ == unicode_lower(line@),
{
    let s = string_from(line);
    let lo = to_lower(s.as_str());
    chars_of(lo.as_str())
}

fn lit(s: &str) -> (r: Vec<char>)
    ensures
        r@ == s@,
{
    chars_of(s)
}

fn foreign_origin_exec(line: &[char]) -> (r: bool)
    ensures
        r == foreign_origin_line(line@),
{
    let lo = lower_chars(line);
    let key = lit("origin:");
    if !starts_with_exec(lo.as_slice(), key.as_slice()) {
        return false;
    }
    let rest = strip_all_exec(lo, key.as_slice());
    let origin = trim_chars(rest.as_slice());
    let a = lit("http://localhost");
    let b = lit("http://127.0.0.1");
    let c = lit("https://localhost");
    !(starts_with_exec(origin.as_slice(), a.as_slice()) || starts_with_exec(origin.as_slice(), b.as_slice())
        || starts_with_exec(origin.as_slice(), c.as_slice()))
}

fn upgrade_exec(line: &[char]) -> (r: bool)
    ensures
        r == upgrade_line(line@),
{
    let lo = lower_chars(line);
    let mut i: usize = 0;
    assert(lo@.skip(0) =~= lo@);
    while i < lo.len() && crate::text::is_ws_exec(lo[i])
        invariant
            i <= lo@.len(),
            trim_start(lo@.skip(i as int)) == trim_start(lo@),
        decreases lo@.len() - i,
    {
        assert(lo@.skip(i as int).drop_first() =~= lo@.skip(i + 1));
        i = i + 1;
    }
    let mut tail: Vec<char> = Vec::new();
    let mut k: usize = i;
    while k < lo.len()
        invariant
            i <= k <= lo@.len(),
            tail@ == lo@.subrange(i as int, k as int),
        decreases lo@.len() - k,
    {
        tail.push(lo[k]);
        k = k + 1;
    }
    assert(tail@ =~= lo@.skip(i as int));
    proof {
        if i < lo@.len() {
            assert(trim_start(lo@.skip(i as int)) == lo@.skip(i as int));
        } else {
            assert(lo@.skip(i as int) =~= Seq::<char>::empty());
        }
    }
    let up = lit("upgrade");
    let ws = lit("websocket");
    starts_with_exec(tail.as_slice(), up.as_slice()) && contains_exec(lo.as_slice(), ws.as_slice())
}

/// Decides what to do with a connection from a peer (on this machine or
/// not) whose request starts with `head`.
pub fn classify_connection(head: &str, loopback: bool) -> (r: CdpConnection)
    ensures
        r == connection_of(head@, loopback),
{
    if !loopback {
        return CdpConnection::Reject;
    }
    let cs = chars_of(head);
    let ls = crate::mcp::server::lines_exec(cs.as_slice());
    let ghost lv = lines_of(head@);
    let mut i: usize = 0;
    while i < ls.len()
        invariant
            strs_view(ls@) == lv,
            lv == lines_of(head@),
            loopback,
            i <= ls@.len(),
            forall|j: int| 0 <= j < i ==> !foreign_origin_line(#[trigger] lv[j]),
        decreases ls@.len() - i,
    {
        assert(ls@[i as int]@ == lv[i as int]);
        if foreign_origin_exec(ls[i].as_slice()) {
            return CdpConnection::Reject;
        }
        i = i + 1;
    }
    let mut k: usize = 0;
    while k < ls.len()
        invariant
            strs_view(ls@) == lv,
            lv == lines_of(head@),
            loopback,
            k <= ls@.len(),
            forall|j: int| 0 <= j < lv.len() ==> !foreign_origin_line(#[trigger] lv[j]),
            forall|j: int| 0 <= j < k ==> !upgrade_line(#[trigger] lv[j]),
        decreases ls@.len() - k,
    {
        assert(ls@[k as int]@ == lv[k as int]);
        if upgrade_exec(ls[k].as_slice()) {
            assert(upgrade_line(lv[k as int]));
            return CdpConnection::WebSocket;
        }
        k = k + 1;
    }
    CdpConnection::Http
}

/// A request carrying an `Origin` header from outside this machine is
/// refused, whatever else it asks for; so is every peer not on this machine.
pub proof fn lemma_foreign_origins_rejected(head: Seq<char>, loopback: bool, i: int)
    requires
        0 <= i < lines_of(head).len(),
        foreign_origin_line(lines_of(head)[i]),
    ensures
        connection_of(head, loopback) == CdpConnection::Reject,
        connection_of(head, false) == CdpConnection::Reject,
{
}

/// The discovery endpoints.
#[derive(Debug, Clone, Copy, PartialEq, Eq, Structural)]
pub enum CdpHttpRoute {
    /// `/json/version`: the browser's description.
    Version,
    /// `/json` or `/json/list`: the list of targets.
    List,
    /// `/json/new`: the page target.
    New,
    NotFound,
}

pub open spec fn http_route_of(path: Seq<char>) -> CdpHttpRoute {
    if path == "/json/version"@ || path == "/json/version/"@ {
        CdpHttpRoute::Version
    } else if path == "/json"@ || path == "/json/"@ || path == "/json/list"@ || path == "/json/list/"@ {
        CdpHttpRoute::List
    } else if path == "/json/new"@ {
        CdpHttpRoute::New
    } else {
        CdpHttpRoute::NotFound
    }
}

/// Which endpoint a request path names.
pub fn http_route(path: &str) -> (r: CdpHttpRoute)
    ensures
        r == http_route_of(path@),
{
    if str_eq(path, "/json/version") || str_eq(path, "/json/version/") {
        CdpHttpRoute::Version
    } else if str_eq(path, "/json") || str_eq(path, "/json/") || str_eq(path, "/json/list") || str_eq(
        path,
        "/json/list/",
    ) {
        CdpHttpRoute::List
    } else if str_eq(path, "/json/new") {
        CdpHttpRoute::New
    } else {
        CdpHttpRoute::NotFound
    }
}

/// The body of a 404.
pub const NOT_FOUND_BODY: &'static str = "{\"error\":\"not found\"}";

pub open spec fn version_view(browser_id: Seq<char>) -> JsonView {
    JsonView::Object(
        seq![
            ("Browser"@, jstr_v("Bose/0.2.0"@)),
            ("Protocol-Version"@, jstr_v("1.3"@)),
            (
                "User-Agent"@,
                jstr_v(
                    "Mozilla/5.0 (Windows NT 10.0; Win64; x64) AppleWebKit/537.36 (KHTML, like Gecko) Bose/0.2.0 Safari/537.36"@,
                ),
            ),
            ("V8-Version"@, jstr_v("QuickJS"@)),
            ("WebKit-Version"@, jstr_v("537.36"@)),
            ("webSocketDebuggerUrl"@, jstr_v("ws://localhost:9222/devtools/browser/"@ + browser_id)),
        ],
    )
}

/// The browser's description at `/json/version`.
pub fn json_version_body(browser_id: &str) -> (r: JsonValue)
    ensures
        r@ == version_view(browser_id@),
{
    let mut ws = "ws://localhost:9222/devtools/browser/".to_owned();
    ws.append(browser_id);
    obj6(
        "Browser",
        jstr("Bose/0.2.0"),
        "Protocol-Version",
        jstr("1.3"),
        "User-Agent",
        jstr(
            "Mozilla/5.0 (Windows NT 10.0; Win64; x64) AppleWebKit/537.36 (KHTML, like Gecko) Bose/0.2.0 Safari/537.36",
        ),
        "V8-Version",
        jstr("QuickJS"),
        "WebKit-Version",
        jstr("537.36"),
        "webSocketDebuggerUrl",
        JsonValue::Str(ws),
    )
}

pub open spec fn target_view(target_id: Seq<char>, url: Seq<char>) -> JsonView {
    JsonView::Object(
        seq![
            ("description"@, jstr_v(""@)),
            ("devtoolsFrontendUrl"@, jstr_v("/devtools/inspector.html?ws=localhost:9222/devtools/page/"@ + target_id)),
            ("id"@, jstr_v(target_id)),
            ("title"@, jstr_v("Bose Browser"@)),
            ("type"@, jstr_v("page"@)),
            ("url"@, jstr_v(url)),
            ("webSocketDebuggerUrl"@, jstr_v("ws://localhost:9222/devtools/page/"@ + target_id)),
        ],
    )
}

/// The page target, showing `url` (the loaded page's, or `about:blank`).
pub fn build_target_info(target_id: &str, url: &str) -> (r: JsonValue)
    ensures
        r@ == target_view(target_id@, url@),
{
    let mut front = "/devtools/inspector.html?ws=localhost:9222/devtools/page/".to_owned();
    front.append(target_id);
    let mut ws = "ws://localhost:9222/devtools/page/".to_owned();
    ws.append(target_id);
    obj7(
        "description",
        jstr(""),
        "devtoolsFrontendUrl",
        JsonValue::Str(front),
        "id",
        jstr(target_id),
        "title",
        jstr("Bose Browser"),
        "type",
        jstr("page"),
        "url",
        jstr(url),
        "webSocketDebuggerUrl",
        JsonValue::Str(ws),
    )
}

/// The list of targets at `/json`: the page target alone.
pub fn json_list_body(target_id: &str, url: &str) -> (r: JsonValue)
    ensures
        r@ == JsonView::Array(seq![target_view(target_id@, url@)]),
{
    let t = build_target_info(target_id, url);
    let ghost g = t@;
    let mut v: Vec<JsonValue> = Vec::new();
    proof {
        lemma_json_views(v@);
    }
    push_json(&mut v, t);
    assert(json_views(v@) =~= seq![g]);
    jarr(v)
}

} // verus!
