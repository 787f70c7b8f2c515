//! The tool server's HTTP side: where a request's head ends, what it asks
//! for, and the JSON-RPC methods it answers.
use vstd::prelude::*;
use crate::browser::json::{
    get_key, jarr, json_pretty, json_views, jstr, lemma_json_views, obj0, obj1, obj2, obj3, obj4, pretty_json,
    push_json, JsonValue, JsonView,
};
use crate::cdp::session::{empty_arr, empty_obj, jstr_v, opt_doc, opt_text, page_url_or_blank, param_str};
use crate::dom::document::{DocView, Document};
use crate::dom::serializer::{ser, DomSerializer};
use crate::mcp::protocol::{
    err_view, ok_view, opt_json, rpc_err, rpc_ok, JsonRpcRequest, RpcErrorCode, PROTOCOL_VERSION, SERVER_NAME,
    SERVER_VERSION,
};
use crate::mcp::tools::{collect_visible_text, links_view, tool_list, tool_list_view, visible_text};
use crate::browser::assets::{split_chars, split_on};
use crate::text::{
    ascii_lower, chars_of, decimal, decimal_string, digits_u64, is_ws_exec, lower_char_exec, split_words, starts_with,
    str_eq, string_from, strs_view, trim, trim_chars, trim_start, unsigned_value, utf8_len, utf8_len_capped, words,
};

verus! {

/// `\r\n\r\n` starts at `i`.
pub open spec fn crlf2_at(buf: Seq<u8>, i: int) -> bool {
    0 <= i && i + 4 <= buf.len() && buf[i] == 13 && buf[i + 1] == 10 && buf[i + 2] == 13 && buf[i + 3] == 10
}

/// Where the first blank line (`\r\n\r\n`) of a request starts.
pub fn find_header_end(buf: &[u8]) -> (r: Option<usize>)
    ensures
        match r {
            Some(i) => crlf2_at(buf@, i as int) && forall|j: int| 0 <= j < i ==> !#[trigger] crlf2_at(buf@, j),
            None => forall|j: int| 0 <= j ==> !#[trigger] crlf2_at(buf@, j),
        },
{
    if buf.len() < 4 {
        return None;
    }
    let mut i: usize = 0;
    while i <= buf.len() - 4
        invariant
            forall|j: int| 0 <= j < i ==> !#[trigger] crlf2_at(buf@, j),
            buf@.len() >= 4,
            i <= buf@.len() - 3,
        decreases buf@.len() - i,
    {
        if buf[i] == 13 && buf[i + 1] == 10 && buf[i + 2] == 13 && buf[i + 3] == 10 {
            return Some(i);
        }
        i = i + 1;
    }
    None
}


/// What a request asks for.
pub enum McpStep {
    /// The response, complete.
    Respond(JsonValue),
    /// Run the tool with these arguments, then respond with `rpc_ok` of its
    /// result.
    CallTool(String, JsonValue),
}

pub enum McpStepView {
    Respond(JsonView),
    CallTool(Seq<char>, JsonView),
}

impl View for McpStep {
    type V = McpStepView;

    open spec fn view(&self) -> McpStepView {
        match self {
            McpStep::Respond(v) => McpStepView::Respond(v@),
            McpStep::CallTool(n, a) => McpStepView::CallTool(n@, a@),
        }
    }
}

pub open spec fn flag(name: Seq<char>) -> (Seq<char>, JsonView) {
    (name, JsonView::Bool(false))
}

pub open spec fn initialize_view() -> JsonView {
    JsonView::Object(
        seq![
            (
                "capabilities"@,
                JsonView::Object(
                    seq![
                        ("prompts"@, JsonView::Object(seq![flag("listChanged"@)])),
                        ("resources"@, JsonView::Object(seq![flag("listChanged"@), flag("subscribe"@)])),
                        ("tools"@, JsonView::Object(seq![flag("listChanged"@)])),
                    ],
                ),
            ),
            ("protocolVersion"@, jstr_v(PROTOCOL_VERSION@)),
            ("serverInfo"@, JsonView::Object(seq![("name"@, jstr_v(SERVER_NAME@)), ("version"@, jstr_v(SERVER_VERSION@))])),
        ],
    )
}

pub open spec fn resource_view(desc: Seq<char>, mime: Seq<char>, name: Seq<char>, uri: Seq<char>) -> JsonView {
    JsonView::Object(
        seq![
            ("description"@, jstr_v(desc)),
            ("mimeType"@, jstr_v(mime)),
            ("name"@, jstr_v(name)),
            ("uri"@, jstr_v(uri)),
        ],
    )
}

/// The page's HTML, text and links, offered as resources.
pub open spec fn resources_view(url: Seq<char>) -> JsonView {
    JsonView::Object(
        seq![
            (
                "resources"@,
                JsonView::Array(
                    seq![
                        resource_view(
                            "Serialized Bose DOM for "@ + url,
                            "text/html"@,
                            "Current page HTML"@,
                            "bose://page/html"@,
                        ),
                        resource_view(
                            "Visible text of current page"@,
                            "text/plain"@,
                            "Current page text"@,
                            "bose://page/text"@,
                        ),
                        resource_view(
                            "All hyperlinks on current page"@,
                            "application/json"@,
                            "Current page links"@,
                            "bose://page/links"@,
                        ),
                    ],
                ),
            ),
        ],
    )
}

/// The text of a resource: what the `get_content`, `get_text` and
/// `get_links` tools give (their error message without a page); `None` for
/// an unknown URI.
pub open spec fn resource_text(uri: Seq<char>, doc: Option<DocView>) -> Option<Seq<char>> {
    if uri == "bose://page/html"@ {
        Some(
            match doc {
                Some(d) => ser(d.nodes, 0, d.nodes.len()),
                None => "No page loaded. Use navigate first."@,
            },
        )
    } else if uri == "bose://page/text"@ {
        Some(
            match doc {
                Some(d) => visible_text(d.nodes, 0, 0),
                None => "No page loaded. Use navigate first."@,
            },
        )
    } else if uri == "bose://page/links"@ {
        Some(
            match doc {
                Some(d) => json_pretty(JsonView::Array(links_view(d))),
                None => "No page loaded."@,
            },
        )
    } else {
        None
    }
}

pub open spec fn contents_view(uri: Seq<char>, text: Seq<char>) -> JsonView {
    JsonView::Object(
        seq![
            (
                "contents"@,
                JsonView::Array(
                    seq![
                        JsonView::Object(
                            seq![("mimeType"@, jstr_v("text/plain"@)), ("text"@, jstr_v(text)), ("uri"@, jstr_v(uri))],
                        ),
                    ],
                ),
            ),
        ],
    )
}

pub open spec fn prompts_view() -> JsonView {
    JsonView::Object(
        seq![
            (
                "prompts"@,
                JsonView::Array(
                    seq![
                        JsonView::Object(
                            seq![
                                ("arguments"@, empty_arr()),
                                ("description"@, jstr_v("Summarize the current page content"@)),
                                ("name"@, jstr_v("summarize_page"@)),
                            ],
                        ),
                        JsonView::Object(
                            seq![
                                (
                                    "arguments"@,
                                    JsonView::Array(
                                        seq![
                                            JsonView::Object(
                                                seq![
                                                    ("description"@, jstr_v("Comma-separated field names to extract"@)),
                                                    ("name"@, jstr_v("fields"@)),
                                                    ("required"@, JsonView::Bool(false)),
                                                ],
                                            ),
                                        ],
                                    ),
                                ),
                                ("description"@, jstr_v("Extract structured data from the current page"@)),
                                ("name"@, jstr_v("extract_data"@)),
                            ],
                        ),
                    ],
                ),
            ),
        ],
    )
}

/// One user message with the given text.
pub open spec fn messages_view(text: Seq<char>) -> JsonView {
    JsonView::Object(
        seq![
            (
                "messages"@,
                JsonView::Array(
                    seq![
                        JsonView::Object(
                            seq![
                                ("content"@, JsonView::Object(seq![("text"@, jstr_v(text)), ("type"@, jstr_v("text"@))])),
                                ("role"@, jstr_v("user"@)),
                            ],
                        ),
                    ],
                ),
            ),
        ],
    )
}

pub open spec fn extract_fields(params: JsonView) -> Seq<char> {
    match get_key(params, "arguments"@) {
        Some(a) => param_str(a, "fields"@, "title, description, links"@),
        None => "title, description, links"@,
    }
}

/// The step for a request with `id`, `method` and `params`, given the
/// loaded page's URL and document (each `None` without a page).
pub open spec fn mcp_dispatch(
    id: Option<JsonView>,
    method: Seq<char>,
    params: Option<JsonView>,
    url: Option<Seq<char>>,
    doc: Option<DocView>,
) -> McpStepView {
    let p = match params {
        Some(v) => v,
        None => empty_obj(),
    };
    let ok = |v: JsonView| McpStepView::Respond(ok_view(id, v));
    if method == "initialize"@ {
        ok(initialize_view())
    } else if method == "initialized"@ || method == "notifications/initialized"@ || method == "ping"@ {
        ok(empty_obj())
    } else if method == "tools/list"@ {
        ok(JsonView::Object(seq![("tools"@, tool_list_view())]))
    } else if method == "tools/call"@ {
        let name = param_str(p, "name"@, ""@);
        if name.len() == 0 {
            McpStepView::Respond(err_view(id, RpcErrorCode::InvalidParams, "Missing tool name"@))
        } else {
            McpStepView::CallTool(
                name,
                match get_key(p, "arguments"@) {
                    Some(a) => a,
                    None => empty_obj(),
                },
            )
        }
    } else if method == "resources/list"@ {
        ok(resources_view(page_url_or_blank(url)))
    } else if method == "resources/read"@ {
        let uri = param_str(p, "uri"@, ""@);
        match resource_text(uri, doc) {
            Some(t) => ok(contents_view(uri, t)),
            None => McpStepView::Respond(err_view(id, RpcErrorCode::InvalidParams, "Unknown resource: "@ + uri)),
        }
    } else if method == "prompts/list"@ {
        ok(prompts_view())
    } else if method == "prompts/get"@ {
        let name = param_str(p, "name"@, ""@);
        let u = page_url_or_blank(url);
        if name == "summarize_page"@ {
            ok(
                messages_view(
                    "Please summarize the content of this page: "@ + u
                        + "\n\nUse the get_text tool to read its content first."@,
                ),
            )
        } else if name == "extract_data"@ {
            ok(
                messages_view(
                    "Extract the following fields from this page: "@ + extract_fields(p) + "\nURL: "@ + u
                        + "\n\nUse query_selector and get_text tools to find the data."@,
                ),
            )
        } else {
            McpStepView::Respond(err_view(id, RpcErrorCode::InvalidParams, "Unknown prompt: "@ + name))
        }
    } else {
        McpStepView::Respond(err_view(id, RpcErrorCode::MethodNotFound, "Method not found: "@ + method))
    }
}

fn msg(s: &str) -> (r: String)
    ensures
        r@ == s@,
{
    s.to_owned()
}

fn flag_false() -> (r: JsonValue)
    ensures
        r@ == JsonView::Bool(false),
{
    JsonValue::Bool(false)
}

fn initialize_result() -> (r: JsonValue)
    ensures
        r@ == initialize_view(),
{
    let caps = obj3(
        "prompts",
        obj1("listChanged", flag_false()),
        "resources",
        obj2("listChanged", flag_false(), "subscribe", flag_false()),
        "tools",
        obj1("listChanged", flag_false()),
    );
    obj3(
        "capabilities",
        caps,
        "protocolVersion",
        jstr(PROTOCOL_VERSION),
        "serverInfo",
        obj2("name", jstr(SERVER_NAME), "version", jstr(SERVER_VERSION)),
    )
}

fn resource(desc: String, mime: &str, name: &str, uri: &str) -> (r: JsonValue)
    ensures
        r@ == resource_view(desc@, mime@, name@, uri@),
{
    obj4("description", JsonValue::Str(desc), "mimeType", jstr(mime), "name", jstr(name), "uri", jstr(uri))
}

fn resources_list(url: &str) -> (r: JsonValue)
    ensures
        r@ == resources_view(url@),
{
    let mut d = msg("Serialized Bose DOM for ");
    d.append(url);
    let mut v: Vec<JsonValue> = Vec::new();
    proof {
        lemma_json_views(v@);
    }
    push_json(&mut v, resource(d, "text/html", "Current page HTML", "bose://page/html"));
    push_json(&mut v, resource(msg("Visible text of current page"), "text/plain", "Current page text", "bose://page/text"));
    push_json(
        &mut v,
        resource(msg("All hyperlinks on current page"), "application/json", "Current page links", "bose://page/links"),
    );
    assert(json_views(v@) =~= match resources_view(url@) {
        JsonView::Object(m) => match m[0].1 {
            JsonView::Array(a) => a,
            _ => Seq::empty(),
        },
        _ => Seq::empty(),
    });
    obj1("resources", jarr(v))
}

fn one_item(x: JsonValue) -> (r: JsonValue)
    ensures
        r@ == JsonView::Array(seq![x@]),
{
    let ghost g = x@;
    let mut v: Vec<JsonValue> = Vec::new();
    proof {
        lemma_json_views(v@);
    }
    push_json(&mut v, x);
    assert(json_views(v@) =~= seq![g]);
    jarr(v)
}

fn prompts_list() -> (r: JsonValue)
    ensures
        r@ == prompts_view(),
{
    let mut none: Vec<JsonValue> = Vec::new();
    proof {
        lemma_json_views(none@);
    }
    assert(json_views(none@) =~= Seq::<JsonView>::empty());
    let p1 = obj3(
        "arguments",
        jarr(none),
        "description",
        jstr("Summarize the current page content"),
        "name",
        jstr("summarize_page"),
    );
    let field = obj3(
        "description",
        jstr("Comma-separated field names to extract"),
        "name",
        jstr("fields"),
        "required",
        flag_false(),
    );
    let p2 = obj3(
        "arguments",
        one_item(field),
        "description",
        jstr("Extract structured data from the current page"),
        "name",
        jstr("extract_data"),
    );
    let ghost g1 = p1@;
    let ghost g2 = p2@;
    let mut v: Vec<JsonValue> = Vec::new();
    proof {
        lemma_json_views(v@);
    }
    push_json(&mut v, p1);
    push_json(&mut v, p2);
    assert(json_views(v@) =~= seq![g1, g2]);
    obj1("prompts", jarr(v))
}

fn messages(text: String) -> (r: JsonValue)
    ensures
        r@ == messages_view(text@),
{
    let m = obj2("content", obj2("text", JsonValue::Str(text), "type", jstr("text")), "role", jstr("user"));
    obj1("messages", one_item(m))
}

fn resource_text_exec(uri: &str, doc: Option<&Document>) -> (r: Option<String>)
    ensures
        match r {
            Some(t) => resource_text(uri@, opt_doc(doc)) == Some(t@),
            None => resource_text(uri@, opt_doc(doc)) is None,
        },
{
    if str_eq(uri, "bose://page/html") {
        Some(
            match doc {
                Some(d) => match DomSerializer::serialize(d) {
                    Ok(h) => h,
                    Err(_) => String::new(),
                },
                None => msg("No page loaded. Use navigate first."),
            },
        )
    } else if str_eq(uri, "bose://page/text") {
        Some(
            match doc {
                Some(d) => collect_visible_text(d, 0),
                None => msg("No page loaded. Use navigate first."),
            },
        )
    } else if str_eq(uri, "bose://page/links") {
        Some(
            match doc {
                Some(d) => links_text(d),
                None => msg("No page loaded."),
            },
        )
    } else {
        None
    }
}

fn links_text(d: &Document) -> (r: String)
    ensures
        r@ == json_pretty(JsonView::Array(links_view(d@))),
{
    let arr = crate::mcp::tools::links_array(d);
    pretty_json(&arr)
}


fn param_str_exec<'a>(params: Option<&'a JsonValue>, key: &str, dflt: &'a str) -> (r: &'a str)
    ensures
        r@ == param_str(
            match params {
                Some(p) => p@,
                None => empty_obj(),
            },
            key@,
            dflt@,
        ),
{
    match params {
        Some(p) => match p.get_key(key) {
            Some(v) => match v.as_str() {
                Some(t) => t,
                None => dflt,
            },
            None => dflt,
        },
        None => dflt,
    }
}

fn arguments_of(params: Option<&JsonValue>) -> (r: Option<&JsonValue>)
    ensures
        match r {
            Some(a) => get_key(
                match params {
                    Some(p) => p@,
                    None => empty_obj(),
                },
                "arguments"@,
            ) == Some(a@),
            None => get_key(
                match params {
                    Some(p) => p@,
                    None => empty_obj(),
                },
                "arguments"@,
            ) is None,
        },
{
    match params {
        Some(p) => p.get_key("arguments"),
        None => None,
    }
}

/// Handles one JSON-RPC request, given the loaded page's URL and document
/// (each `None` without a page).
pub fn dispatch(req: &JsonRpcRequest, url: Option<&str>, doc: Option<&Document>) -> (r: McpStep)
    ensures
        r@ == mcp_dispatch(
            opt_json(req.id),
            req.method@,
            opt_json(req.params),
            opt_text(url),
            opt_doc(doc),
        ),
{
    proof {
        reveal_strlit("");
    }
    let id = match &req.id {
        Some(v) => Some(v.duplicate()),
        None => None,
    };
    let method = req.method.as_str();
    let params = match &req.params {
        Some(p) => Some(p),
        None => None,
    };
    if str_eq(method, "initialize") {
        McpStep::Respond(rpc_ok(id, initialize_result()))
    } else if str_eq(method, "initialized") || str_eq(method, "notifications/initialized") || str_eq(method, "ping") {
        McpStep::Respond(rpc_ok(id, obj0()))
    } else if str_eq(method, "tools/list") {
        McpStep::Respond(rpc_ok(id, obj1("tools", tool_list())))
    } else if str_eq(method, "tools/call") {
        let name = param_str_exec(params, "name", "");
        proof {
            reveal_strlit("");
        }
        assert(""@ =~= Seq::<char>::empty());
        if str_eq(name, "") {
            McpStep::Respond(rpc_err(id, RpcErrorCode::InvalidParams, msg("Missing tool name")))
        } else {
            let args = match arguments_of(params) {
                Some(a) => a.duplicate(),
                None => obj0(),
            };
            proof {
                if name@.len() == 0 {
                    assert(name@ =~= Seq::<char>::empty());
                }
            }
            McpStep::CallTool(name.to_owned(), args)
        }
    } else if str_eq(method, "resources/list") {
        let u = match url {
            Some(u) => u,
            None => "about:blank",
        };
        McpStep::Respond(rpc_ok(id, resources_list(u)))
    } else if str_eq(method, "resources/read") {
        let uri = param_str_exec(params, "uri", "");
        match resource_text_exec(uri, doc) {
            Some(t) => {
                let item = obj3("mimeType", jstr("text/plain"), "text", JsonValue::Str(t), "uri", jstr(uri));
                McpStep::Respond(rpc_ok(id, obj1("contents", one_item(item))))
            },
            None => {
                let mut m = msg("Unknown resource: ");
                m.append(uri);
                McpStep::Respond(rpc_err(id, RpcErrorCode::InvalidParams, m))
            },
        }
    } else if str_eq(method, "prompts/list") {
        McpStep::Respond(rpc_ok(id, prompts_list()))
    } else if str_eq(method, "prompts/get") {
        let name = param_str_exec(params, "name", "");
        let u = match url {
            Some(u) => u,
            None => "about:blank",
        };
        if str_eq(name, "summarize_page") {
            let mut t = msg("Please summarize the content of this page: ");
            t.append(u);
            t.append("\n\nUse the get_text tool to read its content first.");
            McpStep::Respond(rpc_ok(id, messages(t)))
        } else if str_eq(name, "extract_data") {
            let fields = match arguments_of(params) {
                Some(a) => param_str_exec(Some(a), "fields", "title, description, links"),
                None => "title, description, links",
            };
            let mut t = msg("Extract the following fields from this page: ");
            t.append(fields);
            t.append("\nURL: ");
            t.append(u);
            t.append("\n\nUse query_selector and get_text tools to find the data.");
            McpStep::Respond(rpc_ok(id, messages(t)))
        } else {
            let mut m = msg("Unknown prompt: ");
            m.append(name);
            McpStep::Respond(rpc_err(id, RpcErrorCode::InvalidParams, m))
        }
    } else {
        let mut m = msg("Method not found: ");
        m.append(method);
        McpStep::Respond(rpc_err(id, RpcErrorCode::MethodNotFound, m))
    }
}


/// A line without the `\r` of its `\r\n` ending.
pub open spec fn strip_cr(l: Seq<char>) -> Seq<char> {
    if l.len() > 0 && l.last() == '\r' {
        l.drop_last()
    } else {
        l
    }
}

pub proof fn lemma_split_nonempty(s: Seq<char>, c: char)
    ensures
        split_on(s, c).len() >= 1,
    decreases s.len(),
{
    if s.len() > 0 {
        lemma_split_nonempty(s.drop_last(), c);
    }
}

/// The lines of `s` as `str::lines` gives them: cut at each `\n`, a `\r`
/// before it dropped, and no empty last line after a final `\n`.
pub open spec fn lines_of(s: Seq<char>) -> Seq<Seq<char>> {
    let p = split_on(s, '\n');
    let full = Seq::new((p.len() - 1) as nat, |i: int| strip_cr(p[i]));
    if p.last().len() == 0 {
        full
    } else {
        full.push(p.last())
    }
}

pub(crate) fn lines_exec(s: &[char]) -> (r: Vec<Vec<char>>)
    ensures
        strs_view(r@) == lines_of(s@),
{
    let pieces = split_chars(s, '\n');
    proof {
        lemma_split_nonempty(s@, '\n');
    }
    let ghost p = split_on(s@, '\n');
    assert(pieces@.len() == p.len());
    let mut out: Vec<Vec<char>> = Vec::new();
    let mut i: usize = 0;
    let last = pieces.len() - 1;
    while i < last
        invariant
            strs_view(pieces@) == p,
            p.len() >= 1,
            last == p.len() - 1,
            i <= last,
            strs_view(out@) =~= Seq::new(i as nat, |k: int| strip_cr(p[k])),
        decreases last - i,
    {
        assert(pieces@[i as int]@ == p[i as int]);
        let mut v: Vec<char> = pieces[i].clone();
        assert(v@ == p[i as int]);
        if v.len() > 0 && v[v.len() - 1] == '\r' {
            v.pop();
            assert(v@ =~= p[i as int].drop_last());
        }
        assert(v@ == strip_cr(p[i as int]));
        let ghost before = strs_view(out@);
        out.push(v);
        assert(strs_view(out@) =~= before.push(strip_cr(p[i as int])));
        i = i + 1;
    }
    assert(pieces@[last as int]@ == p.last());
    if pieces[last].len() > 0 {
        let ghost before = strs_view(out@);
        out.push(pieces[last].clone());
        assert(strs_view(out@) =~= before.push(p.last()));
    }
    assert(strs_view(out@) =~= lines_of(s@));
    out
}

pub open spec fn is_length_line(l: Seq<char>) -> bool {
    starts_with(ascii_lower(l), "content-length"@)
}

/// `str::parse::<usize>`: an optional `+`, then decimal digits.
pub open spec fn parse_usize(t: Seq<char>) -> Option<nat> {
    let d = if t.len() > 0 && t[0] == '+' {
        t.drop_first()
    } else {
        t
    };
    match unsigned_value(d) {
        Some(n) => if n <= usize::MAX {
            Some(n)
        } else {
            None
        },
        None => None,
    }
}

/// The number after the first `:` of a line (up to a second `:`), 0 when
/// there is none.
pub open spec fn length_value(l: Seq<char>) -> nat {
    let parts = split_on(l, ':');
    if parts.len() >= 2 {
        match parse_usize(trim(parts[1])) {
            Some(n) => n,
            None => 0,
        }
    } else {
        0
    }
}

/// The `Content-Length` of a request head: the value on the first line
/// that starts with it (any case), 0 when there is none or it is no number.
pub open spec fn content_length_of(head: Seq<char>) -> nat {
    let ls = lines_of(head);
    if exists|i: int| 0 <= i < ls.len() && is_length_line(#[trigger] ls[i]) {
        let i = choose|i: int|
            0 <= i < ls.len() && is_length_line(#[trigger] ls[i]) && forall|j: int|
                0 <= j < i ==> !is_length_line(#[trigger] ls[j]);
        length_value(ls[i])
    } else {
        0
    }
}

fn is_length_line_exec(l: &[char]) -> (r: bool)
    ensures
        r == is_length_line(l@),
{
    let p: Vec<char> = chars_of("content-length");
    proof {
        reveal_strlit("content-length");
    }
    if l.len() < p.len() {
        return false;
    }
    let mut i: usize = 0;
    while i < p.len()
        invariant
            p@ == "content-length"@,
            i <= p@.len(),
            p@.len() <= l@.len(),
            forall|j: int| 0 <= j < i ==> #[trigger] ascii_lower(l@)[j] == p@[j],
        decreases p@.len() - i,
    {
        if lower_char_exec(l[i]) != p[i] {
            assert(ascii_lower(l@)[i as int] != p@[i as int]);
            return false;
        }
        i = i + 1;
    }
    assert(ascii_lower(l@).take(p@.len() as int) =~= p@);
    true
}

fn parse_usize_exec(t: &[char]) -> (r: Option<usize>)
    ensures
        match r {
            Some(n) => parse_usize(t@) == Some(n as nat),
            None => parse_usize(t@) is None,
        },
{
    let start: usize = if t.len() > 0 && t[0] == '+' {
        1
    } else {
        0
    };
    assert(t@.skip(start as int) =~= (if t@.len() > 0 && t@[0] == '+' {
        t@.drop_first()
    } else {
        t@
    }));
    match digits_u64(t, start) {
        Some(n) => if n <= usize::MAX as u64 {
            Some(n as usize)
        } else {
            None
        },
        None => None,
    }
}

fn length_value_exec(l: &[char]) -> (r: usize)
    ensures
        r == length_value(l@),
{
    let parts = split_chars(l, ':');
    if parts.len() >= 2 {
        assert(parts@[1]@ == split_on(l@, ':')[1]);
        let t = trim_chars(parts[1].as_slice());
        match parse_usize_exec(t.as_slice()) {
            Some(n) => n,
            None => 0,
        }
    } else {
        0
    }
}

/// The `Content-Length` of a request head; see `content_length_of`.
pub fn content_length(head: &str) -> (r: usize)
    ensures
        r == content_length_of(head@),
{
    let cs = chars_of(head);
    let ls = lines_exec(cs.as_slice());
    let ghost lv = lines_of(head@);
    let mut i: usize = 0;
    while i < ls.len()
        invariant
            strs_view(ls@) == lv,
            lv == lines_of(head@),
            i <= ls@.len(),
            forall|j: int| 0 <= j < i ==> !is_length_line(#[trigger] lv[j]),
        decreases ls@.len() - i,
    {
        assert(ls@[i as int]@ == lv[i as int]);
        if is_length_line_exec(ls[i].as_slice()) {
            let ghost k = choose|k: int|
                0 <= k < lv.len() && is_length_line(#[trigger] lv[k]) && forall|j: int|
                    0 <= j < k ==> !is_length_line(#[trigger] lv[j]);
            assert(0 <= i < lv.len() && is_length_line(lv[i as int]) && forall|j: int|
                0 <= j < i ==> !is_length_line(#[trigger] lv[j]));
            assert(k == i) by {
                if k < i {
                    assert(!is_length_line(lv[k]));
                }
                if k > i {
                    assert(!is_length_line(lv[i as int]));
                }
            }
            return length_value_exec(ls[i].as_slice());
        }
        i = i + 1;
    }
    0
}

/// The method and path of the request line (`GET` and `/` when missing).
pub open spec fn request_target_of(head: Seq<char>) -> (Seq<char>, Seq<char>) {
    let ls = lines_of(head);
    let first = if ls.len() > 0 {
        ls[0]
    } else {
        Seq::empty()
    };
    let w = words(first);
    (
        if w.len() > 0 {
            w[0]
        } else {
            "GET"@
        },
        if w.len() > 1 {
            w[1]
        } else {
            "/"@
        },
    )
}

/// The method and path of a request head's first line.
pub fn request_target(head: &str) -> (r: (String, String))
    ensures
        (r.0@, r.1@) == request_target_of(head@),
{
    let cs = chars_of(head);
    let ls = lines_exec(cs.as_slice());
    let first: Vec<char> = if ls.len() > 0 {
        ls[0].clone()
    } else {
        Vec::new()
    };
    let w = split_words(first.as_slice());
    let method = if w.len() > 0 {
        string_from(w[0].as_slice())
    } else {
        "GET".to_owned()
    };
    let path = if w.len() > 1 {
        string_from(w[1].as_slice())
    } else {
        "/".to_owned()
    };
    (method, path)
}

/// What the server does with a request.
#[derive(Debug, Clone, Copy, PartialEq, Eq, Structural)]
pub enum Route {
    /// `OPTIONS`: answered with `PREFLIGHT_RESPONSE`.
    Preflight,
    /// `GET /` or `GET /mcp`: the server's description.
    Info,
    /// `GET /tools`: the tool catalogue.
    Tools,
    /// `POST /rpc`, `POST /` or `POST /mcp`: a JSON-RPC request or batch.
    Rpc,
    /// Anything else: 404.
    NotFound,
}

pub open spec fn route_of(method: Seq<char>, path: Seq<char>) -> Route {
    if method == "OPTIONS"@ {
        Route::Preflight
    } else if method == "GET"@ && (path == "/"@ || path == "/mcp"@) {
        Route::Info
    } else if method == "GET"@ && path == "/tools"@ {
        Route::Tools
    } else if method == "POST"@ && (path == "/rpc"@ || path == "/"@ || path == "/mcp"@) {
        Route::Rpc
    } else {
        Route::NotFound
    }
}

/// Where a request with `method` and `path` goes.
pub fn route(method: &str, path: &str) -> (r: Route)
    ensures
        r == route_of(method@, path@),
{
    if str_eq(method, "OPTIONS") {
        Route::Preflight
    } else if str_eq(method, "GET") && (str_eq(path, "/") || str_eq(path, "/mcp")) {
        Route::Info
    } else if str_eq(method, "GET") && str_eq(path, "/tools") {
        Route::Tools
    } else if str_eq(method, "POST") && (str_eq(path, "/rpc") || str_eq(path, "/") || str_eq(path, "/mcp")) {
        Route::Rpc
    } else {
        Route::NotFound
    }
}

/// The answer to a CORS preflight.
pub const PREFLIGHT_RESPONSE: &'static str = "HTTP/1.1 204 No Content\r\nAccess-Control-Allow-Origin: *\r\nAccess-Control-Allow-Methods: POST, GET, OPTIONS\r\nAccess-Control-Allow-Headers: Content-Type\r\nConnection: close\r\n\r\n";

pub open spec fn info_view() -> JsonView {
    JsonView::Object(
        seq![
            ("endpoints"@, JsonView::Object(seq![("rpc"@, jstr_v("POST /rpc"@)), ("tools"@, jstr_v("GET /tools"@))])),
            ("name"@, jstr_v(SERVER_NAME@)),
            ("protocol"@, jstr_v(PROTOCOL_VERSION@)),
            ("transport"@, jstr_v("http"@)),
            ("version"@, jstr_v(SERVER_VERSION@)),
        ],
    )
}

/// The description `GET /` gives of the server.
pub fn info_body() -> (r: JsonValue)
    ensures
        r@ == info_view(),
{
    crate::browser::json::obj5(
        "endpoints",
        obj2("rpc", jstr("POST /rpc"), "tools", jstr("GET /tools")),
        "name",
        jstr(SERVER_NAME),
        "protocol",
        jstr(PROTOCOL_VERSION),
        "transport",
        jstr("http"),
        "version",
        jstr(SERVER_VERSION),
    )
}

pub open spec fn not_found_view() -> JsonView {
    JsonView::Object(
        seq![
            ("error"@, jstr_v("not found"@)),
            ("paths"@, JsonView::Array(seq![jstr_v("/"@), jstr_v("/rpc"@), jstr_v("/tools"@)])),
        ],
    )
}

/// The body of a 404.
pub fn not_found_body() -> (r: JsonValue)
    ensures
        r@ == not_found_view(),
{
    let mut v: Vec<JsonValue> = Vec::new();
    proof {
        lemma_json_views(v@);
    }
    push_json(&mut v, jstr("/"));
    push_json(&mut v, jstr("/rpc"));
    push_json(&mut v, jstr("/tools"));
    assert(json_views(v@) =~= seq![jstr_v("/"@), jstr_v("/rpc"@), jstr_v("/tools"@)]);
    obj2("error", jstr("not found"), "paths", jarr(v))
}

pub open spec fn capped_len(s: Seq<char>) -> nat {
    if utf8_len(s) <= usize::MAX {
        utf8_len(s)
    } else {
        usize::MAX as nat
    }
}

/// An HTTP/1.1 response with a JSON body, its length in bytes, open CORS
/// and `Connection: close`.
pub fn http_response(status: &str, body: &str) -> (r: String)
    ensures
        r@ == "HTTP/1.1 "@ + status@ + "\r\nContent-Type: application/json\r\nContent-Length: "@ + decimal(
            capped_len(body@),
        ) + "\r\nAccess-Control-Allow-Origin: *\r\nConnection: close\r\n\r\n"@ + body@,
{
    let cs = chars_of(body);
    let n = utf8_len_capped(cs.as_slice());
    let mut r = msg("HTTP/1.1 ");
    r.append(status);
    r.append("\r\nContent-Type: application/json\r\nContent-Length: ");
    r.append(decimal_string(n as u128).as_str());
    r.append("\r\nAccess-Control-Allow-Origin: *\r\nConnection: close\r\n\r\n");
    r.append(body);
    r
}

/// Whether a request body is a batch: its first character that is not
/// white space is `[`.
pub fn is_batch(body: &str) -> (r: bool)
    ensures
        r == (trim_start(body@).len() > 0 && trim_start(body@)[0] == '['),
{
    let cs = chars_of(body);
    let mut i: usize = 0;
    assert(cs@.skip(0) =~= cs@);
    while i < cs.len() && is_ws_exec(cs[i])
        invariant
            i <= cs@.len(),
            cs@ == body@,
            trim_start(cs@.skip(i as int)) == trim_start(body@),
        decreases cs@.len() - i,
    {
        assert(cs@.skip(i as int).drop_first() =~= cs@.skip(i + 1));
        i = i + 1;
    }
    if i < cs.len() {
        assert(trim_start(cs@.skip(i as int)) == cs@.skip(i as int));
        cs[i] == '['
    } else {
        assert(cs@.skip(i as int) =~= Seq::<char>::empty());
        false
    }
}


proof fn lemma_response_members(id: Option<JsonView>, result: JsonView, code: RpcErrorCode, message: Seq<char>)
    ensures
        get_key(ok_view(id, result), "id"@) == Some(crate::mcp::protocol::id_view(id)),
        get_key(ok_view(id, result), "jsonrpc"@) == Some(JsonView::Str("2.0"@)),
        get_key(err_view(id, code, message), "id"@) == Some(crate::mcp::protocol::id_view(id)),
        get_key(err_view(id, code, message), "jsonrpc"@) == Some(JsonView::Str("2.0"@)),
{
    reveal_strlit("id");
    reveal_strlit("jsonrpc");
    reveal_strlit("error");
    reveal_strlit("result");
    let ok = ok_view(id, result)->Object_0;
    assert(ok.drop_first().drop_first().drop_first() =~= Seq::<(Seq<char>, JsonView)>::empty());
    let er = err_view(id, code, message)->Object_0;
    assert(er.drop_first().drop_first().drop_first() =~= Seq::<(Seq<char>, JsonView)>::empty());
    assert(ok.drop_first()[0].0 == "jsonrpc"@);
    assert(crate::browser::json::member(ok.drop_first(), "jsonrpc"@) == Some(JsonView::Str("2.0"@)));
    assert(er.drop_first()[0].0 == "id"@);
    assert(crate::browser::json::member(er.drop_first(), "id"@) == Some(crate::mcp::protocol::id_view(id)));
    assert(er.drop_first().drop_first()[0].0 == "jsonrpc"@);
    assert(crate::browser::json::member(er.drop_first().drop_first(), "jsonrpc"@) == Some(JsonView::Str("2.0"@)));
    assert(crate::browser::json::member(er.drop_first(), "jsonrpc"@) == Some(JsonView::Str("2.0"@)));
}

/// Every response the server gives carries `"jsonrpc": "2.0"` and the
/// request's id (`null` for a request without one), whatever the method.
pub proof fn lemma_responses_answer_the_request(
    id: Option<JsonView>,
    method: Seq<char>,
    params: Option<JsonView>,
    url: Option<Seq<char>>,
    doc: Option<DocView>,
)
    ensures
        mcp_dispatch(id, method, params, url, doc) matches McpStepView::Respond(v) ==> get_key(v, "id"@) == Some(
            crate::mcp::protocol::id_view(id),
        ) && get_key(v, "jsonrpc"@) == Some(JsonView::Str("2.0"@)),
{
    match mcp_dispatch(id, method, params, url, doc) {
        McpStepView::Respond(v) => {
            let p = match params {
                Some(x) => x,
                None => empty_obj(),
            };
            let u = page_url_or_blank(url);
            lemma_response_members(id, initialize_view(), RpcErrorCode::InvalidParams, "Missing tool name"@);
            lemma_response_members(id, empty_obj(), RpcErrorCode::MethodNotFound, "Method not found: "@ + method);
            lemma_response_members(
                id,
                JsonView::Object(seq![("tools"@, tool_list_view())]),
                RpcErrorCode::InvalidParams,
                "Unknown resource: "@ + param_str(p, "uri"@, ""@),
            );
            lemma_response_members(
                id,
                resources_view(u),
                RpcErrorCode::InvalidParams,
                "Unknown prompt: "@ + param_str(p, "name"@, ""@),
            );
            lemma_response_members(id, prompts_view(), RpcErrorCode::InvalidParams, ""@);
            match resource_text(param_str(p, "uri"@, ""@), doc) {
                Some(t) => lemma_response_members(
                    id,
                    contents_view(param_str(p, "uri"@, ""@), t),
                    RpcErrorCode::InvalidParams,
                    ""@,
                ),
                None => {},
            }
            lemma_response_members(
                id,
                messages_view(
                    "Please summarize the content of this page: "@ + u
                        + "\n\nUse the get_text tool to read its content first."@,
                ),
                RpcErrorCode::InvalidParams,
                ""@,
            );
            lemma_response_members(
                id,
                messages_view(
                    "Extract the following fields from this page: "@ + extract_fields(p) + "\nURL: "@ + u
                        + "\n\nUse query_selector and get_text tools to find the data."@,
                ),
                RpcErrorCode::InvalidParams,
                ""@,
            );
        },
        _ => {},
    }
}

} // verus!
