//! The tools the server offers, and what each answers about the loaded page.
use vstd::prelude::*;
use crate::browser::assets::{assets_total, AssetsView, PageAssets};
use crate::browser::json::{
    as_u64_spec, get_key, jarr, jnum, jnum_exec, json_pretty, json_views, jstr, lemma_json_views, obj1, obj2, obj3,
    obj6, pretty_json, push_json, JsonValue, JsonView,
};
use crate::cdp::session::{jstr_v, opt_doc, selector_all, selector_first};
use crate::dom::document::{doc_text, tagged, DocView, Document};
use crate::dom::node::{attr_of, tag_of, DataView, NodeData, NodeId, NodeView};
use crate::dom::query::{parse_sel, selector_error, DomQuery};
use crate::dom::serializer::{ser_list, DomSerializer};
use crate::error::BrowserError;
use crate::text::{chars_of, decimal, decimal_string, str_eq, string_from, trim, trim_str};

verus! {

/// The visible text under `id`: each non-blank text node trimmed and
/// followed by a space, scripts and styles left out, at most 512 levels down.
pub open spec fn visible_text(nodes: Seq<NodeView>, id: NodeId, depth: nat) -> Seq<char>
    decreases 513 - depth, 0nat,
{
    if depth > 512 || id >= nodes.len() {
        Seq::empty()
    } else {
        match nodes[id as int].data {
            DataView::Text { content } => if trim(content).len() == 0 {
                Seq::empty()
            } else {
                trim(content) + " "@
            },
            DataView::Element { tag_name, .. } => if tag_name == "script"@ || tag_name == "style"@ {
                Seq::empty()
            } else {
                visible_list(nodes, nodes[id as int].children, depth + 1)
            },
            _ => visible_list(nodes, nodes[id as int].children, depth + 1),
        }
    }
}

pub open spec fn visible_list(nodes: Seq<NodeView>, ids: Seq<NodeId>, depth: nat) -> Seq<char>
    decreases 513 - depth, ids.len() + 1,
{
    if ids.len() == 0 || depth > 513 {
        Seq::empty()
    } else {
        visible_list(nodes, ids.drop_last(), depth) + visible_text(nodes, ids.last(), depth)
    }
}

fn collect_text_depth(doc: &Document, node_id: NodeId, depth: usize) -> (r: String)
    requires
        depth <= 513,
    ensures
        r@ == visible_text(doc@.nodes, node_id, depth as nat),
    decreases 513 - depth, 0nat,
{
    if depth > 512 || node_id >= doc.nodes.len() {
        return String::new();
    }
    let node = &doc.nodes[node_id];
    assert(doc@.nodes[node_id as int] == node@);
    let walk_kids = match &node.data {
        NodeData::Text { content } => {
            let t = trim_str(content.as_str());
            if t.as_str().is_empty() {
                return String::new();
            }
            let mut out = t;
            out.append(" ");
            return out;
        },
        NodeData::Element { tag_name, .. } => !(str_eq(tag_name.as_str(), "script") || str_eq(tag_name.as_str(), "style")),
        _ => true,
    };
    if !walk_kids {
        return String::new();
    }
    let kids = &node.children;
    let mut out = String::new();
    let mut i: usize = 0;
    assert(kids@.take(0) =~= Seq::<NodeId>::empty());
    while i < kids.len()
        invariant
            i <= kids@.len(),
            depth <= 512,
            out@ == visible_list(doc@.nodes, kids@.take(i as int), depth as nat + 1),
        decreases kids@.len() - i,
    {
        let ghost t = kids@.take(i + 1);
        assert(t.drop_last() =~= kids@.take(i as int));
        let part = collect_text_depth(doc, kids[i], depth + 1);
        out.append(part.as_str());
        i = i + 1;
    }
    assert(kids@.take(kids@.len() as int) =~= kids@);
    out
}

/// The visible text of the page under `node_id`; see `visible_text`.
pub fn collect_visible_text(doc: &Document, node_id: NodeId) -> (r: String)
    ensures
        r@ == visible_text(doc@.nodes, node_id, 0),
{
    collect_text_depth(doc, node_id, 0)
}


/// What each tool says of itself in the catalogue.
pub const NAVIGATE_DESC: &'static str = "Navigate the Bose engine to a URL. Returns the page title, node count, and whether navigation succeeded.";
pub const GET_CONTENT_DESC: &'static str = "Return the full serialized HTML of the current page as processed by the Bose engine.";
pub const GET_TEXT_DESC: &'static str = "Return the visible text content of the current page (all text nodes joined, no HTML tags).";
pub const GET_TITLE_DESC: &'static str = "Return the <title> of the current page.";
pub const GET_LINKS_DESC: &'static str = "Return all hyperlinks on the current page as [{href, text}] objects.";
pub const QUERY_SELECTOR_DESC: &'static str = "Find the first element matching a CSS selector. Returns its tag, id, class, text content, and inner HTML.";
pub const QUERY_SELECTOR_ALL_DESC: &'static str = "Find all elements matching a CSS selector. Returns an array of {tag, id, class, text} objects.";
pub const EVALUATE_DESC: &'static str = "Evaluate a JavaScript expression in an isolated QuickJS context. Returns the string result.";
pub const GET_NODE_INFO_DESC: &'static str = "Return detailed information about a DOM node by its nodeId (from query_selector).";
pub const PAGE_STATUS_DESC: &'static str = "Return current browser state: URL, title, node count, BitFox engine version.";
pub const GET_ASSETS_DESC: &'static str = "Return all external asset URLs found on the current page: stylesheets, scripts, images, fonts.";
pub const RELOAD_DESC: &'static str = "Force-reload the current URL, bypassing the navigation cache.";

pub const URL_ARG_DESC: &'static str = "Absolute URL to navigate to (http:// or https://)";
pub const SELECTOR_ARG_DESC: &'static str = "CSS selector, e.g. 'h1', '#main', '.article'";
pub const SELECTORS_ARG_DESC: &'static str = "CSS selector";
pub const LIMIT_ARG_DESC: &'static str = "Max results (default 50)";
pub const EXPRESSION_ARG_DESC: &'static str = "JavaScript expression to evaluate";
pub const NODE_ID_ARG_DESC: &'static str = "Arena node ID";

/// An argument of a tool: its type and what it is.
pub open spec fn arg_view(ty: Seq<char>, desc: Seq<char>) -> JsonView {
    JsonView::Object(seq![("description"@, jstr_v(desc)), ("type"@, jstr_v(ty))])
}

/// The input schema of a tool: its arguments and the one it requires.
pub open spec fn schema_view(props: Seq<(Seq<char>, JsonView)>, required: Option<Seq<char>>) -> JsonView {
    match required {
        Some(r) => JsonView::Object(
            seq![
                ("properties"@, JsonView::Object(props)),
                ("required"@, JsonView::Array(seq![jstr_v(r)])),
                ("type"@, jstr_v("object"@)),
            ],
        ),
        None => JsonView::Object(seq![("properties"@, JsonView::Object(props)), ("type"@, jstr_v("object"@))]),
    }
}

pub open spec fn tool_view(name: Seq<char>, desc: Seq<char>, schema: JsonView) -> JsonView {
    JsonView::Object(seq![("description"@, jstr_v(desc)), ("inputSchema"@, schema), ("name"@, jstr_v(name))])
}

/// A tool that takes no argument.
pub open spec fn bare_tool_view(name: Seq<char>, desc: Seq<char>) -> JsonView {
    tool_view(name, desc, schema_view(Seq::empty(), None))
}

/// A tool with one required argument.
pub open spec fn one_arg_tool_view(name: Seq<char>, desc: Seq<char>, arg: Seq<char>, ty: Seq<char>, arg_desc: Seq<char>) -> JsonView {
    tool_view(name, desc, schema_view(seq![(arg, arg_view(ty, arg_desc))], Some(arg)))
}

/// The catalogue of tools, as `tools/list` and `GET /tools` give it.
pub open spec fn tool_list_view() -> JsonView {
    JsonView::Array(
        seq![
            one_arg_tool_view("navigate"@, NAVIGATE_DESC@, "url"@, "string"@, URL_ARG_DESC@),
            bare_tool_view("get_content"@, GET_CONTENT_DESC@),
            bare_tool_view("get_text"@, GET_TEXT_DESC@),
            bare_tool_view("get_title"@, GET_TITLE_DESC@),
            bare_tool_view("get_links"@, GET_LINKS_DESC@),
            one_arg_tool_view("query_selector"@, QUERY_SELECTOR_DESC@, "selector"@, "string"@, SELECTOR_ARG_DESC@),
            tool_view(
                "query_selector_all"@,
                QUERY_SELECTOR_ALL_DESC@,
                schema_view(
                    seq![
                        (
                            "limit"@,
                            JsonView::Object(
                                seq![
                                    ("default"@, JsonView::Number("50"@)),
                                    ("description"@, jstr_v(LIMIT_ARG_DESC@)),
                                    ("type"@, jstr_v("integer"@)),
                                ],
                            ),
                        ),
                        ("selector"@, arg_view("string"@, SELECTORS_ARG_DESC@)),
                    ],
                    Some("selector"@),
                ),
            ),
            one_arg_tool_view("evaluate"@, EVALUATE_DESC@, "expression"@, "string"@, EXPRESSION_ARG_DESC@),
            one_arg_tool_view("get_node_info"@, GET_NODE_INFO_DESC@, "node_id"@, "integer"@, NODE_ID_ARG_DESC@),
            bare_tool_view("page_status"@, PAGE_STATUS_DESC@),
            bare_tool_view("get_assets"@, GET_ASSETS_DESC@),
            bare_tool_view("reload"@, RELOAD_DESC@),
        ],
    )
}

fn arg_exec(ty: &str, desc: &str) -> (r: JsonValue)
    ensures
        r@ == arg_view(ty@, desc@),
{
    obj2("description", jstr(desc), "type", jstr(ty))
}

fn one_str(s: &str) -> (r: JsonValue)
    ensures
        r@ == JsonView::Array(seq![jstr_v(s@)]),
{
    let mut a: Vec<JsonValue> = Vec::new();
    a.push(jstr(s));
    proof {
        lemma_json_views(a@);
    }
    assert(json_views(a@) =~= seq![jstr_v(s@)]);
    jarr(a)
}

fn tool_exec(name: &str, desc: &str, schema: JsonValue) -> (r: JsonValue)
    ensures
        r@ == tool_view(name@, desc@, schema@),
{
    obj3("description", jstr(desc), "inputSchema", schema, "name", jstr(name))
}

fn bare_tool(name: &str, desc: &str) -> (r: JsonValue)
    ensures
        r@ == bare_tool_view(name@, desc@),
{
    let props = crate::browser::json::obj0();
    tool_exec(name, desc, obj2("properties", props, "type", jstr("object")))
}

fn one_arg_tool(name: &str, desc: &str, arg: &str, ty: &str, arg_desc: &str) -> (r: JsonValue)
    ensures
        r@ == one_arg_tool_view(name@, desc@, arg@, ty@, arg_desc@),
{
    let props = obj1(arg, arg_exec(ty, arg_desc));
    tool_exec(name, desc, obj3("properties", props, "required", one_str(arg), "type", jstr("object")))
}

/// The catalogue of tools.
pub fn tool_list() -> (r: JsonValue)
    ensures
        r@ == tool_list_view(),
{
    let limit = obj3(
        "default",
        crate::browser::json::jnum_text("50"),
        "description",
        jstr(LIMIT_ARG_DESC),
        "type",
        jstr("integer"),
    );
    let qsa_props = obj2("limit", limit, "selector", arg_exec("string", SELECTORS_ARG_DESC));
    let qsa = tool_exec(
        "query_selector_all",
        QUERY_SELECTOR_ALL_DESC,
        obj3("properties", qsa_props, "required", one_str("selector"), "type", jstr("object")),
    );
    let mut v: Vec<JsonValue> = Vec::new();
    proof {
        lemma_json_views(v@);
    }
    push_json(&mut v, one_arg_tool("navigate", NAVIGATE_DESC, "url", "string", URL_ARG_DESC));
    push_json(&mut v, bare_tool("get_content", GET_CONTENT_DESC));
    push_json(&mut v, bare_tool("get_text", GET_TEXT_DESC));
    push_json(&mut v, bare_tool("get_title", GET_TITLE_DESC));
    push_json(&mut v, bare_tool("get_links", GET_LINKS_DESC));
    push_json(&mut v, one_arg_tool("query_selector", QUERY_SELECTOR_DESC, "selector", "string", SELECTOR_ARG_DESC));
    push_json(&mut v, qsa);
    push_json(&mut v, one_arg_tool("evaluate", EVALUATE_DESC, "expression", "string", EXPRESSION_ARG_DESC));
    push_json(&mut v, one_arg_tool("get_node_info", GET_NODE_INFO_DESC, "node_id", "integer", NODE_ID_ARG_DESC));
    push_json(&mut v, bare_tool("page_status", PAGE_STATUS_DESC));
    push_json(&mut v, bare_tool("get_assets", GET_ASSETS_DESC));
    push_json(&mut v, bare_tool("reload", RELOAD_DESC));
    assert(json_views(v@) =~= match tool_list_view() {
        JsonView::Array(a) => a,
        _ => Seq::empty(),
    });
    jarr(v)
}


pub open spec fn text_content_view(text: Seq<char>) -> JsonView {
    JsonView::Array(seq![JsonView::Object(seq![("text"@, jstr_v(text)), ("type"@, jstr_v("text"@))])])
}

/// `{"content": [{"type": "text", "text": text}]}`.
pub open spec fn text_result_view(text: Seq<char>) -> JsonView {
    JsonView::Object(seq![("content"@, text_content_view(text))])
}

/// A text result flagged `"isError": true`.
pub open spec fn tool_error_view(msg: Seq<char>) -> JsonView {
    JsonView::Object(seq![("content"@, text_content_view(msg)), ("isError"@, JsonView::Bool(true))])
}

/// The first `n` characters of `s`.
pub open spec fn prefix(s: Seq<char>, n: nat) -> Seq<char> {
    if s.len() <= n {
        s
    } else {
        s.take(n as int)
    }
}

pub open spec fn or_blank(o: Option<Seq<char>>) -> Seq<char> {
    match o {
        Some(s) => s,
        None => Seq::empty(),
    }
}

/// Tag, id, class, text (500 characters at most) and inner HTML (2000 at
/// most) of a node; `null` for a slot that does not exist.
pub open spec fn node_summary_view(d: DocView, id: NodeId) -> JsonView {
    if id >= d.nodes.len() {
        JsonView::Null
    } else {
        let n = d.nodes[id as int];
        JsonView::Object(
            seq![
                ("class"@, jstr_v(or_blank(attr_of(n.data, "class"@)))),
                ("id"@, jstr_v(or_blank(attr_of(n.data, "id"@)))),
                ("innerHTML"@, jstr_v(prefix(ser_list(d.nodes, n.children, d.nodes.len()), 2000))),
                ("nodeId"@, jnum(id as nat)),
                ("tag"@, jstr_v(or_blank(tag_of(n.data)))),
                ("text"@, jstr_v(prefix(doc_text(d, id), 500))),
            ],
        )
    }
}

/// The text of the first `<title>`, empty without one.
pub open spec fn title_of(d: DocView) -> Seq<char> {
    match crate::dom::document::find_tag(d, "title"@) {
        Some(t) => doc_text(d, t),
        None => Seq::empty(),
    }
}

pub open spec fn link_view(d: DocView, id: NodeId) -> JsonView {
    JsonView::Object(
        seq![
            ("href"@, jstr_v(or_blank(attr_of(d.nodes[id as int].data, "href"@)))),
            ("text"@, jstr_v(prefix(trim(doc_text(d, id)), 200))),
        ],
    )
}

/// `href` and text (trimmed, 200 characters at most) of every `<a>`.
pub open spec fn links_view(d: DocView) -> Seq<JsonView> {
    Seq::new(tagged(d, "a"@).len(), |i: int| link_view(d, tagged(d, "a"@)[i]))
}

pub open spec fn no_page() -> Seq<char> {
    "No page loaded."@
}

pub open spec fn no_page_navigate() -> Seq<char> {
    "No page loaded. Use navigate first."@
}

pub open spec fn missing(arg: Seq<char>) -> Seq<char> {
    "Missing required argument: "@ + arg
}

pub open spec fn arg_str(args: JsonView, key: Seq<char>) -> Option<Seq<char>> {
    match get_key(args, key) {
        Some(JsonView::Str(s)) => Some(s),
        _ => None,
    }
}

pub open spec fn arg_u64(args: JsonView, key: Seq<char>) -> Option<u64> {
    match get_key(args, key) {
        Some(v) => as_u64_spec(v),
        None => None,
    }
}

pub open spec fn selector_failure(sel: Seq<char>) -> JsonView {
    tool_error_view("Selector error: Parse error: "@ + selector_error(sel))
}

pub open spec fn query_selector_view(args: JsonView, doc: Option<DocView>) -> JsonView {
    match arg_str(args, "selector"@) {
        None => tool_error_view(missing("selector"@)),
        Some(sel) => match doc {
            None => tool_error_view(no_page()),
            Some(d) => match parse_sel(trim(sel)) {
                None => selector_failure(sel),
                Some(_) => match selector_first(d, 0, sel) {
                    Some(id) => text_result_view(json_pretty(node_summary_view(d, id))),
                    None => tool_error_view("No element matched '"@ + sel + "'"@),
                },
            },
        },
    }
}

pub open spec fn summaries_view(d: DocView, ids: Seq<NodeId>) -> Seq<JsonView> {
    Seq::new(ids.len(), |i: int| node_summary_view(d, ids[i]))
}

pub open spec fn query_selector_all_view(args: JsonView, doc: Option<DocView>) -> JsonView {
    let limit: nat = match arg_u64(args, "limit"@) {
        Some(n) => (n as usize) as nat,
        None => 50,
    };
    match arg_str(args, "selector"@) {
        None => tool_error_view(missing("selector"@)),
        Some(sel) => match doc {
            None => tool_error_view(no_page()),
            Some(d) => match parse_sel(trim(sel)) {
                None => selector_failure(sel),
                Some(_) => {
                    let ids = selector_all(d, 0, sel);
                    let kept = if ids.len() <= limit {
                        ids
                    } else {
                        ids.take(limit as int)
                    };
                    text_result_view(
                        "Found "@ + decimal(kept.len()) + " element(s):\n"@ + json_pretty(
                            JsonView::Array(summaries_view(d, kept)),
                        ),
                    )
                },
            },
        },
    }
}

pub open spec fn node_info_view(args: JsonView, doc: Option<DocView>) -> JsonView {
    match arg_u64(args, "node_id"@) {
        None => tool_error_view(missing("node_id"@)),
        Some(n) => match doc {
            None => tool_error_view(no_page()),
            Some(d) => if (n as usize) >= d.nodes.len() {
                tool_error_view("nodeId "@ + decimal((n as usize) as nat) + " not found"@)
            } else {
                text_result_view(json_pretty(node_summary_view(d, n as usize)))
            },
        },
    }
}

pub open spec fn page_status_text(url: Seq<char>, title: Seq<char>, nodes: nat, assets: nat, ts: Seq<char>) -> Seq<char> {
    "URL:        "@ + url + "\nTitle:      "@ + title + "\nDOM nodes:  "@ + decimal(nodes) + "\nAssets:     "@
        + decimal(assets) + "\nTimestamp:  "@ + ts
        + "\nEngine:     Bose/0.4.0\nAllocator:  mimalloc\nJS engine:  QuickJS\nCDP:        ws://127.0.0.1:9222\nMCP:        http://127.0.0.1:9223"@
}

pub open spec fn strings_json(v: Seq<Seq<char>>) -> JsonView {
    JsonView::Array(Seq::new(v.len(), |i: int| jstr_v(v[i])))
}

pub open spec fn assets_json(a: AssetsView) -> JsonView {
    JsonView::Object(
        seq![
            ("fonts"@, strings_json(a.fonts)),
            ("images"@, strings_json(a.images)),
            ("prefetch"@, strings_json(a.prefetch)),
            ("scripts"@, strings_json(a.scripts)),
            ("stylesheets"@, strings_json(a.stylesheets)),
            ("total"@, jnum(assets_total(a))),
        ],
    )
}

/// What a tool call asks for.
pub enum ToolStep {
    /// The result, complete.
    Done(JsonValue),
    /// Navigate to the URL, then answer with `navigate_result`.
    Navigate(String),
    /// Evaluate the expression, then answer with `text_result` of its value.
    Evaluate(String),
    /// Reload the URL, then answer with `reload_result`.
    Reload(String),
}

pub enum ToolStepView {
    Done(JsonView),
    Navigate(Seq<char>),
    Evaluate(Seq<char>),
    Reload(Seq<char>),
}

impl View for ToolStep {
    type V = ToolStepView;

    open spec fn view(&self) -> ToolStepView {
        match self {
            ToolStep::Done(v) => ToolStepView::Done(v@),
            ToolStep::Navigate(u) => ToolStepView::Navigate(u@),
            ToolStep::Evaluate(e) => ToolStepView::Evaluate(e@),
            ToolStep::Reload(u) => ToolStepView::Reload(u@),
        }
    }
}

pub open spec fn opt_assets(a: Option<&PageAssets>) -> Option<AssetsView> {
    match a {
        Some(x) => Some(x@),
        None => None,
    }
}

/// The step for tool `name` with `args`, given the loaded page's URL,
/// document and assets (each `None` without a page) and its load time
/// written with three decimals.
pub open spec fn tool_step(
    name: Seq<char>,
    args: JsonView,
    url: Option<Seq<char>>,
    doc: Option<DocView>,
    assets: Option<AssetsView>,
    ts: Seq<char>,
) -> ToolStepView {
    let done = |v: JsonView| ToolStepView::Done(v);
    if name == "navigate"@ {
        match arg_str(args, "url"@) {
            Some(u) => ToolStepView::Navigate(u),
            None => done(tool_error_view(missing("url"@))),
        }
    } else if name == "get_content"@ {
        match doc {
            Some(d) => done(text_result_view(crate::dom::serializer::ser(d.nodes, 0, d.nodes.len()))),
            None => done(tool_error_view(no_page_navigate())),
        }
    } else if name == "get_text"@ {
        match doc {
            Some(d) => done(text_result_view(visible_text(d.nodes, 0, 0))),
            None => done(tool_error_view(no_page_navigate())),
        }
    } else if name == "get_title"@ {
        match doc {
            Some(d) => done(text_result_view(title_of(d))),
            None => done(tool_error_view(no_page())),
        }
    } else if name == "get_links"@ {
        match doc {
            Some(d) => done(text_result_view(json_pretty(JsonView::Array(links_view(d))))),
            None => done(tool_error_view(no_page())),
        }
    } else if name == "query_selector"@ {
        done(query_selector_view(args, doc))
    } else if name == "query_selector_all"@ {
        done(query_selector_all_view(args, doc))
    } else if name == "evaluate"@ {
        match arg_str(args, "expression"@) {
            Some(e) => ToolStepView::Evaluate(e),
            None => done(tool_error_view(missing("expression"@))),
        }
    } else if name == "get_node_info"@ {
        done(node_info_view(args, doc))
    } else if name == "page_status"@ {
        done(
            text_result_view(
                page_status_text(
                    match url {
                        Some(u) => u,
                        None => "about:blank"@,
                    },
                    match doc {
                        Some(d) => title_of(d),
                        None => Seq::empty(),
                    },
                    match doc {
                        Some(d) => d.nodes.len(),
                        None => 0,
                    },
                    match assets {
                        Some(a) => assets_total(a),
                        None => 0,
                    },
                    ts,
                ),
            ),
        )
    } else if name == "get_assets"@ {
        match assets {
            Some(a) => done(text_result_view(json_pretty(assets_json(a)))),
            None => done(tool_error_view(no_page())),
        }
    } else if name == "reload"@ {
        match url {
            Some(u) => ToolStepView::Reload(u),
            None => done(tool_error_view(no_page_navigate())),
        }
    } else {
        done(tool_error_view("Unknown tool: "@ + name))
    }
}

fn text_content(text: String) -> (r: JsonValue)
    ensures
        r@ == text_content_view(text@),
{
    let item = obj2("text", JsonValue::Str(text), "type", jstr("text"));
    let mut a: Vec<JsonValue> = Vec::new();
    proof {
        lemma_json_views(a@);
    }
    push_json(&mut a, item);
    assert(json_views(a@) =~= match text_content_view(text@) {
        JsonView::Array(x) => x,
        _ => Seq::empty(),
    });
    jarr(a)
}

/// `{"content": [{"type": "text", "text": text}]}`.
pub fn text_result(text: String) -> (r: JsonValue)
    ensures
        r@ == text_result_view(text@),
{
    obj1("content", text_content(text))
}

/// A text result flagged as an error.
pub fn tool_error(msg: String) -> (r: JsonValue)
    ensures
        r@ == tool_error_view(msg@),
{
    obj2("content", text_content(msg), "isError", JsonValue::Bool(true))
}

fn prefix_exec(s: &str, n: usize) -> (r: String)
    ensures
        r@ == prefix(s@, n as nat),
{
    let cs = chars_of(s);
    if cs.len() <= n {
        s.to_owned()
    } else {
        let mut out = String::new();
        crate::text::append_range(&mut out, cs.as_slice(), 0, n);
        assert(out@ =~= s@.take(n as int));
        out
    }
}

fn or_blank_exec(o: Option<&str>) -> (r: String)
    ensures
        r@ == or_blank(crate::dom::node::opt_str_view(o)),
{
    match o {
        Some(s) => s.to_owned(),
        None => String::new(),
    }
}

/// Tag, id, class, text and inner HTML of a node, `null` without one.
pub fn node_summary(doc: &Document, id: NodeId) -> (r: JsonValue)
    ensures
        r@ == node_summary_view(doc@, id),
{
    let node = match doc.get(id) {
        Some(n) => n,
        None => return JsonValue::Null,
    };
    let tag = or_blank_exec(node.tag_name());
    let id_attr = or_blank_exec(node.attr("id"));
    let class_attr = or_blank_exec(node.attr("class"));
    let text = doc.get_text_content(id);
    let inner = match DomSerializer::serialize_children(doc, id) {
        Ok(h) => h,
        Err(_) => String::new(),
    };
    obj6(
        "class",
        JsonValue::Str(class_attr),
        "id",
        JsonValue::Str(id_attr),
        "innerHTML",
        JsonValue::Str(prefix_exec(inner.as_str(), 2000)),
        "nodeId",
        jnum_exec(id),
        "tag",
        JsonValue::Str(tag),
        "text",
        JsonValue::Str(prefix_exec(text.as_str(), 500)),
    )
}

fn msg(s: &str) -> (r: String)
    ensures
        r@ == s@,
{
    s.to_owned()
}

fn tool_get_content(doc: Option<&Document>) -> (r: JsonValue)
    ensures
        r@ == (match opt_doc(doc) {
            Some(d) => text_result_view(crate::dom::serializer::ser(d.nodes, 0, d.nodes.len())),
            None => tool_error_view(no_page_navigate()),
        }),
{
    match doc {
        Some(d) => match DomSerializer::serialize(d) {
            Ok(html) => text_result(html),
            Err(_) => tool_error(msg("Serialize error")),
        },
        None => tool_error(msg("No page loaded. Use navigate first.")),
    }
}

fn tool_get_text(doc: Option<&Document>) -> (r: JsonValue)
    ensures
        r@ == (match opt_doc(doc) {
            Some(d) => text_result_view(visible_text(d.nodes, 0, 0)),
            None => tool_error_view(no_page_navigate()),
        }),
{
    match doc {
        Some(d) => text_result(collect_visible_text(d, 0)),
        None => tool_error(msg("No page loaded. Use navigate first.")),
    }
}

fn tool_get_title(doc: Option<&Document>) -> (r: JsonValue)
    ensures
        r@ == (match opt_doc(doc) {
            Some(d) => text_result_view(title_of(d)),
            None => tool_error_view(no_page()),
        }),
{
    match doc {
        Some(d) => text_result(d.get_title()),
        None => tool_error(msg("No page loaded.")),
    }
}

/// `href` and text of every `<a>` of the page, as a JSON array.
pub(crate) fn links_array(d: &Document) -> (r: JsonValue)
    ensures
        r@ == JsonView::Array(links_view(d@)),
{
    let anchors = d.get_elements_by_tag("a");
    let mut links: Vec<JsonValue> = Vec::new();
    let mut i: usize = 0;
    proof {
        lemma_json_views(links@);
    }
    while i < anchors.len()
        invariant
            i <= anchors@.len(),
            anchors@ == tagged(d@, "a"@),
            json_views(links@) =~= links_view(d@).take(i as int),
        decreases anchors@.len() - i,
    {
        let id = anchors[i];
        proof {
            crate::dom::document::lemma_tagged_in_range(d@, "a"@);
        }
        let href = match d.get(id) {
            Some(n) => or_blank_exec(n.attr("href")),
            None => String::new(),
        };
        let t = trim_str(d.get_text_content(id).as_str());
        let text = prefix_exec(t.as_str(), 200);
        push_json(&mut links, obj2("href", JsonValue::Str(href), "text", JsonValue::Str(text)));
        assert(links_view(d@).take(i + 1) =~= links_view(d@).take(i as int).push(link_view(d@, id)));
        i = i + 1;
    }
    assert(links_view(d@).take(anchors@.len() as int) =~= links_view(d@));
    jarr(links)
}

fn tool_get_links(doc: Option<&Document>) -> (r: JsonValue)
    ensures
        r@ == (match opt_doc(doc) {
            Some(d) => text_result_view(json_pretty(JsonView::Array(links_view(d)))),
            None => tool_error_view(no_page()),
        }),
{
    match doc {
        Some(d) => {
            let arr = links_array(d);
            text_result(pretty_json(&arr))
        },
        None => tool_error(msg("No page loaded.")),
    }
}


fn missing_exec(arg: &str) -> (r: String)
    ensures
        r@ == missing(arg@),
{
    let mut t = msg("Missing required argument: ");
    t.append(arg);
    t
}

fn arg_str_exec<'a>(args: &'a JsonValue, key: &str) -> (r: Option<&'a str>)
    ensures
        crate::dom::node::opt_str_view(r) == arg_str(args@, key@),
{
    match args.get_key(key) {
        Some(v) => v.as_str(),
        None => None,
    }
}

fn arg_u64_exec(args: &JsonValue, key: &str) -> (r: Option<u64>)
    ensures
        r == arg_u64(args@, key@),
{
    match args.get_key(key) {
        Some(v) => v.as_u64(),
        None => None,
    }
}

fn selector_failure_exec(e: BrowserError, sel: &str) -> (r: JsonValue)
    requires
        e matches BrowserError::Parse(m) && m@ == selector_error(sel@),
    ensures
        r@ == selector_failure(sel@),
{
    let mut t = msg("Selector error: Parse error: ");
    match e {
        BrowserError::Parse(m) => t.append(m.as_str()),
        _ => {},
    }
    tool_error(t)
}

fn tool_query_selector(args: &JsonValue, doc: Option<&Document>) -> (r: JsonValue)
    ensures
        r@ == query_selector_view(args@, opt_doc(doc)),
{
    let selector = match arg_str_exec(args, "selector") {
        Some(s) => s,
        None => return tool_error(missing_exec("selector")),
    };
    let d = match doc {
        Some(d) => d,
        None => return tool_error(msg("No page loaded.")),
    };
    match DomQuery::query_selector_from(d, 0, selector) {
        Ok(Some(id)) => {
            let summary = node_summary(d, id);
            text_result(pretty_json(&summary))
        },
        Ok(None) => {
            let mut t = msg("No element matched '");
            t.append(selector);
            t.append("'");
            tool_error(t)
        },
        Err(e) => selector_failure_exec(e, selector),
    }
}

fn tool_query_selector_all(args: &JsonValue, doc: Option<&Document>) -> (r: JsonValue)
    ensures
        r@ == query_selector_all_view(args@, opt_doc(doc)),
{
    let selector = match arg_str_exec(args, "selector") {
        Some(s) => s,
        None => return tool_error(missing_exec("selector")),
    };
    let limit: usize = match arg_u64_exec(args, "limit") {
        Some(n) => #[verifier::truncate] (n as usize),
        None => 50,
    };
    let d = match doc {
        Some(d) => d,
        None => return tool_error(msg("No page loaded.")),
    };
    match DomQuery::query_selector_all_from(d, 0, selector) {
        Ok(ids) => {
            let ghost kept = if ids@.len() <= limit {
                ids@
            } else {
                ids@.take(limit as int)
            };
            let mut results: Vec<JsonValue> = Vec::new();
            let mut i: usize = 0;
            proof {
                lemma_json_views(results@);
            }
            while i < ids.len() && i < limit
                invariant
                    i <= ids@.len(),
                    i <= limit,
                    kept == (if ids@.len() <= limit {
                        ids@
                    } else {
                        ids@.take(limit as int)
                    }),
                    json_views(results@) =~= summaries_view(d@, kept).take(i as int),
                decreases ids@.len() - i,
            {
                push_json(&mut results, node_summary(d, ids[i]));
                assert(summaries_view(d@, kept).take(i + 1) =~= summaries_view(d@, kept).take(i as int).push(
                    node_summary_view(d@, ids@[i as int]),
                ));
                i = i + 1;
            }
            assert(summaries_view(d@, kept).take(i as int) =~= summaries_view(d@, kept));
            proof {
                lemma_json_views(results@);
            }
            assert(results@.len() == kept.len());
            let n = results.len();
            let mut t = msg("Found ");
            t.append(decimal_string(n as u128).as_str());
            t.append(" element(s):\n");
            let arr = jarr(results);
            t.append(pretty_json(&arr).as_str());
            text_result(t)
        },
        Err(e) => selector_failure_exec(e, selector),
    }
}

fn tool_get_node_info(args: &JsonValue, doc: Option<&Document>) -> (r: JsonValue)
    ensures
        r@ == node_info_view(args@, opt_doc(doc)),
{
    let node_id: NodeId = match arg_u64_exec(args, "node_id") {
        Some(n) => n as NodeId,
        None => return tool_error(missing_exec("node_id")),
    };
    let d = match doc {
        Some(d) => d,
        None => return tool_error(msg("No page loaded.")),
    };
    if d.get(node_id).is_none() {
        let mut t = msg("nodeId ");
        t.append(decimal_string(node_id as u128).as_str());
        t.append(" not found");
        return tool_error(t);
    }
    let summary = node_summary(d, node_id);
    text_result(pretty_json(&summary))
}

fn tool_page_status(url: Option<&str>, doc: Option<&Document>, assets: Option<&PageAssets>, timestamp: &str) -> (r:
    JsonValue)
    requires
        assets matches Some(a) ==> assets_total(a@) <= usize::MAX,
    ensures
        r@ == text_result_view(
            page_status_text(
                match url {
                    Some(u) => u@,
                    None => "about:blank"@,
                },
                match opt_doc(doc) {
                    Some(d) => title_of(d),
                    None => Seq::empty(),
                },
                match opt_doc(doc) {
                    Some(d) => d.nodes.len(),
                    None => 0,
                },
                match opt_assets(assets) {
                    Some(a) => assets_total(a),
                    None => 0,
                },
                timestamp@,
            ),
        ),
{
    let (title, nodes): (String, usize) = match doc {
        Some(d) => (d.get_title(), d.nodes.len()),
        None => (String::new(), 0),
    };
    let total: usize = match assets {
        Some(a) => a.total(),
        None => 0,
    };
    let mut t = msg("URL:        ");
    match url {
        Some(u) => t.append(u),
        None => t.append("about:blank"),
    }
    t.append("\nTitle:      ");
    t.append(title.as_str());
    t.append("\nDOM nodes:  ");
    t.append(decimal_string(nodes as u128).as_str());
    t.append("\nAssets:     ");
    t.append(decimal_string(total as u128).as_str());
    t.append("\nTimestamp:  ");
    t.append(timestamp);
    t.append(
        "\nEngine:     Bose/0.4.0\nAllocator:  mimalloc\nJS engine:  QuickJS\nCDP:        ws://127.0.0.1:9222\nMCP:        http://127.0.0.1:9223",
    );
    text_result(t)
}

fn strings_json_exec(v: &Vec<String>) -> (r: JsonValue)
    ensures
        r@ == strings_json(crate::browser::assets::strings_view(v@)),
{
    let ghost sv = crate::browser::assets::strings_view(v@);
    let mut out: Vec<JsonValue> = Vec::new();
    let mut i: usize = 0;
    proof {
        lemma_json_views(out@);
    }
    while i < v.len()
        invariant
            i <= v@.len(),
            sv == crate::browser::assets::strings_view(v@),
            json_views(out@) =~= match strings_json(sv) {
                JsonView::Array(a) => a.take(i as int),
                _ => Seq::empty(),
            },
        decreases v@.len() - i,
    {
        push_json(&mut out, JsonValue::Str(v[i].clone()));
        i = i + 1;
    }
    assert(json_views(out@) =~= match strings_json(sv) {
        JsonView::Array(a) => a,
        _ => Seq::empty(),
    });
    jarr(out)
}

fn tool_get_assets(assets: Option<&PageAssets>) -> (r: JsonValue)
    requires
        assets matches Some(a) ==> assets_total(a@) <= usize::MAX,
    ensures
        r@ == (match opt_assets(assets) {
            Some(a) => text_result_view(json_pretty(assets_json(a))),
            None => tool_error_view(no_page()),
        }),
{
    match assets {
        Some(a) => {
            let out = obj6(
                "fonts",
                strings_json_exec(&a.fonts),
                "images",
                strings_json_exec(&a.images),
                "prefetch",
                strings_json_exec(&a.prefetch),
                "scripts",
                strings_json_exec(&a.scripts),
                "stylesheets",
                strings_json_exec(&a.stylesheets),
                "total",
                jnum_exec(a.total()),
            );
            text_result(pretty_json(&out))
        },
        None => tool_error(msg("No page loaded.")),
    }
}

/// Runs tool `name` with `args` against the loaded page (its URL, document
/// and assets, each `None` without a page; `timestamp` is its load time
/// with three decimals), or says what outside work the tool needs.
pub fn call_tool(
    name: &str,
    args: &JsonValue,
    url: Option<&str>,
    doc: Option<&Document>,
    assets: Option<&PageAssets>,
    timestamp: &str,
) -> (r: ToolStep)
    requires
        assets matches Some(a) ==> assets_total(a@) <= usize::MAX,
    ensures
        r@ == tool_step(name@, args@, crate::cdp::session::opt_text(url), opt_doc(doc), opt_assets(assets), timestamp@),
{
    if str_eq(name, "navigate") {
        match arg_str_exec(args, "url") {
            Some(u) => ToolStep::Navigate(u.to_owned()),
            None => ToolStep::Done(tool_error(missing_exec("url"))),
        }
    } else if str_eq(name, "get_content") {
        ToolStep::Done(tool_get_content(doc))
    } else if str_eq(name, "get_text") {
        ToolStep::Done(tool_get_text(doc))
    } else if str_eq(name, "get_title") {
        ToolStep::Done(tool_get_title(doc))
    } else if str_eq(name, "get_links") {
        ToolStep::Done(tool_get_links(doc))
    } else if str_eq(name, "query_selector") {
        ToolStep::Done(tool_query_selector(args, doc))
    } else if str_eq(name, "query_selector_all") {
        ToolStep::Done(tool_query_selector_all(args, doc))
    } else if str_eq(name, "evaluate") {
        match arg_str_exec(args, "expression") {
            Some(e) => ToolStep::Evaluate(e.to_owned()),
            None => ToolStep::Done(tool_error(missing_exec("expression"))),
        }
    } else if str_eq(name, "get_node_info") {
        ToolStep::Done(tool_get_node_info(args, doc))
    } else if str_eq(name, "page_status") {
        ToolStep::Done(tool_page_status(url, doc, assets, timestamp))
    } else if str_eq(name, "get_assets") {
        ToolStep::Done(tool_get_assets(assets))
    } else if str_eq(name, "reload") {
        match url {
            Some(u) => ToolStep::Reload(u.to_owned()),
            None => ToolStep::Done(tool_error(msg("No page loaded. Use navigate first."))),
        }
    } else {
        let mut t = msg("Unknown tool: ");
        t.append(name);
        ToolStep::Done(tool_error(t))
    }
}

/// The result of the `navigate` tool once navigating to `url` ended with
/// `outcome` (`Err` holding the error's text), given the page then loaded.
pub fn navigate_result(url: &str, outcome: Result<(), String>, page_url: Option<&str>, doc: Option<&Document>) -> (r:
    JsonValue)
    ensures
        r@ == (match outcome {
            Ok(_) => match (page_url, doc) {
                (Some(u), Some(d)) => text_result_view(
                    "Navigated to: "@ + u@ + "\nTitle: "@ + title_of(d@) + "\nNodes in DOM: "@ + decimal(
                        d@.nodes.len(),
                    ) + "\nEngine: Bose"@,
                ),
                _ => text_result_view("Navigated to: "@ + url@),
            },
            Err(e) => tool_error_view("Navigation failed: "@ + e@),
        }),
{
    match outcome {
        Ok(_) => match (page_url, doc) {
            (Some(u), Some(d)) => {
                let mut t = msg("Navigated to: ");
                t.append(u);
                t.append("\nTitle: ");
                t.append(d.get_title().as_str());
                t.append("\nNodes in DOM: ");
                t.append(decimal_string(d.nodes.len() as u128).as_str());
                t.append("\nEngine: Bose");
                text_result(t)
            },
            _ => {
                let mut t = msg("Navigated to: ");
                t.append(url);
                text_result(t)
            },
        },
        Err(e) => {
            let mut t = msg("Navigation failed: ");
            t.append(e.as_str());
            tool_error(t)
        },
    }
}

/// The result of the `reload` tool once reloading `url` ended with `outcome`.
pub fn reload_result(url: &str, outcome: Result<(), String>) -> (r: JsonValue)
    ensures
        r@ == (match outcome {
            Ok(_) => text_result_view("Reloaded: "@ + url@),
            Err(e) => tool_error_view("Reload failed: "@ + e@),
        }),
{
    match outcome {
        Ok(_) => {
            let mut t = msg("Reloaded: ");
            t.append(url);
            text_result(t)
        },
        Err(e) => {
            let mut t = msg("Reload failed: ");
            t.append(e.as_str());
            tool_error(t)
        },
    }
}

} // verus!
