//! One DevTools protocol session: which domains are enabled, and the answer
//! to each command. Commands that need the network, the script engine or a
//! fresh identifier come back as a step for the caller to perform; the
//! functions after `dispatch` turn its outcome into the answer.
use vstd::prelude::*;
use crate::browser::json::{
    as_i64_spec, as_str, as_u64_spec, get_key, jarr, jnum_exec, jnum_text, jstr, json_views, lemma_json_views,
    obj0, obj1, obj2, obj3, obj4, obj5, obj6, obj7, JsonValue, JsonView, jnum, json_parse, member, parse_json,
};
use crate::cdp::domains::dom::{cdp_node, flat_attrs, DomConverter};
use crate::dom::document::{DocView, Document};
use crate::dom::node::{attrs_view, DataView, NodeData, NodeId};
use crate::dom::query::{from_order, matching, parse_sel, DomQuery};
use crate::dom::serializer::{ser, DomSerializer};
use crate::dom::tree::first_of;
use crate::text::{str_eq, trim};
use crate::urls::{parse_url, url_parse};

verus! {

/// Which protocol domains the client has enabled.
#[derive(Clone, Copy)]
pub struct SessionState {
    pub page_enabled: bool,
    pub runtime_enabled: bool,
    pub dom_enabled: bool,
    pub network_enabled: bool,
}

/// A session with the page target `target_id`.
pub struct CdpSession {
    pub target_id: String,
    pub state: SessionState,
}

/// What a command asks for.
pub enum CdpStep {
    /// The answer, complete, with no events.
    Reply(JsonValue),
    /// Navigate to the URL, then answer with `navigate_reply`.
    Navigate(String),
    /// Evaluate the expression in the page, then answer with `evaluate_reply`.
    Evaluate(String),
    /// Make a fresh session id, then answer with `attach_reply`.
    NewSession,
    /// Set the attribute on the node of the loaded page, then answer `{}`.
    SetAttribute(NodeId, String, String),
    /// Remove the attribute from the node of the loaded page, then answer `{}`.
    RemoveAttribute(NodeId, String),
}

pub enum CdpStepView {
    Reply(JsonView),
    Navigate(Seq<char>),
    Evaluate(Seq<char>),
    NewSession,
    SetAttribute(NodeId, Seq<char>, Seq<char>),
    RemoveAttribute(NodeId, Seq<char>),
}

impl View for CdpStep {
    type V = CdpStepView;

    open spec fn view(&self) -> CdpStepView {
        match self {
            CdpStep::Reply(v) => CdpStepView::Reply(v@),
            CdpStep::Navigate(u) => CdpStepView::Navigate(u@),
            CdpStep::Evaluate(e) => CdpStepView::Evaluate(e@),
            CdpStep::NewSession => CdpStepView::NewSession,
            CdpStep::SetAttribute(n, a, v) => CdpStepView::SetAttribute(*n, a@, v@),
            CdpStep::RemoveAttribute(n, a) => CdpStepView::RemoveAttribute(*n, a@),
        }
    }
}

pub open spec fn jstr_v(s: Seq<char>) -> JsonView {
    JsonView::Str(s)
}

pub open spec fn empty_obj() -> JsonView {
    JsonView::Object(Seq::empty())
}

pub open spec fn empty_arr() -> JsonView {
    JsonView::Array(Seq::empty())
}

/// A numeric parameter read with `as_u64`, 0 when absent.
pub open spec fn param_node(params: JsonView, key: Seq<char>) -> NodeId {
    match get_key(params, key) {
        Some(v) => match as_u64_spec(v) {
            Some(n) => n as NodeId,
            None => 0,
        },
        None => 0,
    }
}

/// A depth parameter read with `as_i64` (or `dflt`) and cut to an `i32`.
pub open spec fn param_depth(params: JsonView, dflt: i64) -> i32 {
    let d = match get_key(params, "depth"@) {
        Some(v) => match as_i64_spec(v) {
            Some(n) => n,
            None => dflt,
        },
        None => dflt,
    };
    d as i32
}

/// A string parameter, `dflt` when absent or not a string.
pub open spec fn param_str(params: JsonView, key: Seq<char>, dflt: Seq<char>) -> Seq<char> {
    match get_key(params, key) {
        Some(JsonView::Str(s)) => s,
        _ => dflt,
    }
}

/// The URL of the page, `about:blank` when there is none.
pub open spec fn page_url_or_blank(url: Option<Seq<char>>) -> Seq<char> {
    match url {
        Some(u) => u,
        None => "about:blank"@,
    }
}

pub open spec fn browser_version_view() -> JsonView {
    JsonView::Object(
        seq![
            ("jsVersion"@, jstr_v("QuickJS"@)),
            ("product"@, jstr_v("Bose/0.2.0"@)),
            ("protocolVersion"@, jstr_v("1.3"@)),
            ("revision"@, jstr_v("@bose"@)),
            (
                "userAgent"@,
                jstr_v(
                    "Mozilla/5.0 (Windows NT 10.0; Win64; x64) AppleWebKit/537.36 (KHTML, like Gecko) Bose/0.2.0 Safari/537.36"@,
                ),
            ),
        ],
    )
}

pub open spec fn target_infos_view(target: Seq<char>, url: Seq<char>) -> JsonView {
    JsonView::Object(
        seq![
            (
                "targetInfos"@,
                JsonView::Array(
                    seq![
                        JsonView::Object(
                            seq![
                                ("attached"@, JsonView::Bool(true)),
                                ("browserContextId"@, jstr_v("default"@)),
                                ("canAccessOpener"@, JsonView::Bool(false)),
                                ("targetId"@, jstr_v(target)),
                                ("title"@, jstr_v("Bose Browser"@)),
                                ("type"@, jstr_v("page"@)),
                                ("url"@, jstr_v(url)),
                            ],
                        ),
                    ],
                ),
            ),
        ],
    )
}

pub open spec fn target_info_view(target: Seq<char>, url: Seq<char>) -> JsonView {
    JsonView::Object(
        seq![
            (
                "targetInfo"@,
                JsonView::Object(
                    seq![
                        ("attached"@, JsonView::Bool(true)),
                        ("browserContextId"@, jstr_v("default"@)),
                        ("targetId"@, jstr_v(target)),
                        ("title"@, jstr_v("Bose Browser"@)),
                        ("type"@, jstr_v("page"@)),
                        ("url"@, jstr_v(url)),
                    ],
                ),
            ),
        ],
    )
}

pub open spec fn frame_tree_view(target: Seq<char>, url: Seq<char>) -> JsonView {
    JsonView::Object(
        seq![
            (
                "frameTree"@,
                JsonView::Object(
                    seq![
                        ("childFrames"@, empty_arr()),
                        (
                            "frame"@,
                            JsonView::Object(
                                seq![
                                    ("id"@, jstr_v(target)),
                                    ("loaderId"@, jstr_v("loader-main"@)),
                                    ("mimeType"@, jstr_v("text/html"@)),
                                    ("securityOrigin"@, jstr_v("null"@)),
                                    ("url"@, jstr_v(url)),
                                ],
                            ),
                        ),
                    ],
                ),
            ),
        ],
    )
}

pub open spec fn n_v(t: Seq<char>) -> JsonView {
    JsonView::Number(t)
}

pub open spec fn layout_metrics_view() -> JsonView {
    JsonView::Object(
        seq![
            (
                "contentSize"@,
                JsonView::Object(
                    seq![("height"@, n_v("800"@)), ("width"@, n_v("1280"@)), ("x"@, n_v("0"@)), ("y"@, n_v("0"@))],
                ),
            ),
            (
                "layoutViewport"@,
                JsonView::Object(
                    seq![
                        ("clientHeight"@, n_v("800"@)),
                        ("clientWidth"@, n_v("1280"@)),
                        ("pageX"@, n_v("0"@)),
                        ("pageY"@, n_v("0"@)),
                    ],
                ),
            ),
            (
                "visualViewport"@,
                JsonView::Object(
                    seq![
                        ("clientHeight"@, n_v("800"@)),
                        ("clientWidth"@, n_v("1280"@)),
                        ("offsetX"@, n_v("0"@)),
                        ("offsetY"@, n_v("0"@)),
                        ("pageX"@, n_v("0"@)),
                        ("pageY"@, n_v("0"@)),
                        ("scale"@, n_v("1.0"@)),
                    ],
                ),
            ),
        ],
    )
}

/// Eight zeros, the quad of an empty box.
pub open spec fn zeros8_view() -> JsonView {
    JsonView::Array(Seq::new(8, |i: int| n_v("0"@)))
}

pub open spec fn box_model_view() -> JsonView {
    JsonView::Object(
        seq![
            (
                "model"@,
                JsonView::Object(
                    seq![
                        ("border"@, zeros8_view()),
                        ("content"@, zeros8_view()),
                        ("height"@, n_v("0"@)),
                        ("margin"@, zeros8_view()),
                        ("padding"@, zeros8_view()),
                        ("width"@, n_v("0"@)),
                    ],
                ),
            ),
        ],
    )
}

/// The answer of a command that neither changes the session nor needs
/// anything but the target id; `{}` for every command not named here.
pub open spec fn constant_reply(method: Seq<char>, target: Seq<char>) -> JsonView {
    if method == "Browser.getVersion"@ {
        browser_version_view()
    } else if method == "Target.createTarget"@ {
        JsonView::Object(seq![("targetId"@, jstr_v(target))])
    } else if method == "Page.getLayoutMetrics"@ {
        layout_metrics_view()
    } else if method == "Page.captureScreenshot"@ || method == "Page.printToPDF"@ {
        JsonView::Object(seq![("data"@, jstr_v(""@))])
    } else if method == "Page.addScriptToEvaluateOnNewDocument"@ {
        JsonView::Object(seq![("identifier"@, jstr_v("1"@))])
    } else if method == "Runtime.callFunctionOn"@ {
        JsonView::Object(
            seq![("result"@, JsonView::Object(seq![("type"@, jstr_v("undefined"@)), ("value"@, JsonView::Null)]))],
        )
    } else if method == "Runtime.getProperties"@ {
        JsonView::Object(seq![("internalProperties"@, empty_arr()), ("result"@, empty_arr())])
    } else if method == "DOM.getBoxModel"@ {
        box_model_view()
    } else if method == "DOM.getContentQuads"@ {
        JsonView::Object(seq![("quads"@, JsonView::Array(seq![zeros8_view()]))])
    } else if method == "DOM.resolveNode"@ {
        JsonView::Object(
            seq![
                (
                    "object"@,
                    JsonView::Object(
                        seq![
                            ("className"@, jstr_v("HTMLElement"@)),
                            ("objectId"@, jstr_v("1"@)),
                            ("type"@, jstr_v("object"@)),
                        ],
                    ),
                ),
            ],
        )
    } else if method == "CSS.getComputedStyleForNode"@ {
        JsonView::Object(seq![("computedStyle"@, empty_arr())])
    } else if method == "CSS.getMatchedStylesForNode"@ {
        JsonView::Object(
            seq![("cssKeyframesRules"@, empty_arr()), ("inherited"@, empty_arr()), ("matchedCSSRules"@, empty_arr())],
        )
    } else if method == "CSS.getInlineStylesForNode"@ {
        JsonView::Object(
            seq![
                (
                    "inlineStyle"@,
                    JsonView::Object(
                        seq![
                            ("cssProperties"@, empty_arr()),
                            ("cssText"@, jstr_v(""@)),
                            ("shorthandEntries"@, empty_arr()),
                        ],
                    ),
                ),
            ],
        )
    } else if method == "Network.getCookies"@ || method == "Network.getAllCookies"@ || method
        == "Storage.getCookies"@ {
        JsonView::Object(seq![("cookies"@, empty_arr())])
    } else if method == "Emulation.canEmulate"@ {
        JsonView::Object(seq![("result"@, JsonView::Bool(true))])
    } else if method == "Debugger.enable"@ {
        JsonView::Object(seq![("debuggerId"@, jstr_v("bose-debugger"@))])
    } else if method == "Performance.getMetrics"@ {
        JsonView::Object(seq![("metrics"@, empty_arr())])
    } else if method == "AZ.getState"@ {
        JsonView::Object(
            seq![("engine"@, jstr_v("Bose"@)), ("state"@, jstr_v("ready"@)), ("version"@, jstr_v("0.2.0"@))],
        )
    } else {
        empty_obj()
    }
}

/// The document root that `DOM.getDocument` reports before a page is ready.
pub open spec fn blank_root_view() -> JsonView {
    JsonView::Object(
        seq![
            ("backendNodeId"@, n_v("0"@)),
            ("childNodeCount"@, n_v("0"@)),
            ("localName"@, jstr_v(""@)),
            ("nodeId"@, n_v("0"@)),
            ("nodeName"@, jstr_v("#document"@)),
            ("nodeType"@, n_v("9"@)),
            ("nodeValue"@, jstr_v(""@)),
        ],
    )
}

/// The first node below `parent` that the selector matches.
pub open spec fn selector_first(d: DocView, parent: NodeId, sel: Seq<char>) -> Option<NodeId> {
    match parse_sel(trim(sel)) {
        Some(s) => first_of(matching(d.nodes, from_order(d.nodes, parent), s, false)),
        None => None,
    }
}

/// Every node below `parent` that the selector matches, in document order.
pub open spec fn selector_all(d: DocView, parent: NodeId, sel: Seq<char>) -> Seq<NodeId> {
    match parse_sel(trim(sel)) {
        Some(s) => matching(d.nodes, from_order(d.nodes, parent), s, false),
        None => Seq::empty(),
    }
}

pub open spec fn ids_view(ids: Seq<NodeId>) -> Seq<JsonView> {
    Seq::new(ids.len(), |i: int| jnum(ids[i] as nat))
}

pub open spec fn get_document_reply(params: JsonView, doc: Option<DocView>) -> JsonView {
    let root = match doc {
        Some(d) => cdp_node(d.nodes, 0, param_depth(params, 2) as int, d.nodes.len()),
        None => blank_root_view(),
    };
    JsonView::Object(seq![("root"@, root)])
}

pub open spec fn flattened_reply(doc: Option<DocView>) -> JsonView {
    let nodes = match doc {
        Some(d) => Seq::new(d.nodes.len(), |id: int| cdp_node(d.nodes, id as NodeId, 0, d.nodes.len())),
        None => Seq::empty(),
    };
    JsonView::Object(seq![("nodes"@, JsonView::Array(nodes))])
}

pub open spec fn query_selector_reply(params: JsonView, doc: Option<DocView>) -> JsonView {
    let found: NodeId = match doc {
        Some(d) => match selector_first(d, param_node(params, "nodeId"@), param_str(params, "selector"@, "*"@)) {
            Some(i) => i,
            None => 0,
        },
        None => 0,
    };
    JsonView::Object(seq![("nodeId"@, jnum(found as nat))])
}

pub open spec fn query_selector_all_reply(params: JsonView, doc: Option<DocView>) -> JsonView {
    let found = match doc {
        Some(d) => selector_all(d, param_node(params, "nodeId"@), param_str(params, "selector"@, "*"@)),
        None => Seq::empty(),
    };
    JsonView::Object(seq![("nodeIds"@, JsonView::Array(ids_view(found)))])
}

pub open spec fn attributes_reply(params: JsonView, doc: Option<DocView>) -> JsonView {
    let id = param_node(params, "nodeId"@);
    let flat = match doc {
        Some(d) => if id < d.nodes.len() {
            match d.nodes[id as int].data {
                DataView::Element { attrs, .. } => flat_attrs(attrs),
                _ => Seq::empty(),
            }
        } else {
            Seq::empty()
        },
        None => Seq::empty(),
    };
    JsonView::Object(seq![("attributes"@, JsonView::Array(flat))])
}

pub open spec fn outer_html_reply(params: JsonView, doc: Option<DocView>) -> JsonView {
    let html = match doc {
        Some(d) => ser(d.nodes, param_node(params, "nodeId"@), d.nodes.len()),
        None => Seq::empty(),
    };
    JsonView::Object(seq![("outerHTML"@, jstr_v(html))])
}

pub open spec fn describe_node_reply(params: JsonView, doc: Option<DocView>) -> JsonView {
    let node = match doc {
        Some(d) => cdp_node(d.nodes, param_node(params, "nodeId"@), param_depth(params, 1) as int, d.nodes.len()),
        None => JsonView::Null,
    };
    JsonView::Object(seq![("node"@, node)])
}

/// The session state and the step for `method`, given the URL of the loaded
/// page (if any) and its document (if it is complete).
pub open spec fn cdp_dispatch(
    st: SessionState,
    target: Seq<char>,
    method: Seq<char>,
    params: JsonView,
    url: Option<Seq<char>>,
    doc: Option<DocView>,
) -> (SessionState, CdpStepView) {
    let reply = |v: JsonView| (st, CdpStepView::Reply(v));
    if method == "Target.getTargets"@ {
        reply(target_infos_view(target, page_url_or_blank(url)))
    } else if method == "Target.getTargetInfo"@ {
        reply(target_info_view(target, page_url_or_blank(url)))
    } else if method == "Target.attachToTarget"@ {
        (st, CdpStepView::NewSession)
    } else if method == "Page.enable"@ || method == "Page.disable"@ {
        (SessionState { page_enabled: method == "Page.enable"@, ..st }, CdpStepView::Reply(empty_obj()))
    } else if method == "Page.navigate"@ {
        (st, CdpStepView::Navigate(param_str(params, "url"@, "about:blank"@)))
    } else if method == "Page.reload"@ {
        match url {
            Some(u) => (st, CdpStepView::Navigate(u)),
            None => reply(empty_obj()),
        }
    } else if method == "Page.getFrameTree"@ {
        reply(frame_tree_view(target, page_url_or_blank(url)))
    } else if method == "Runtime.enable"@ || method == "Runtime.disable"@ {
        (SessionState { runtime_enabled: method == "Runtime.enable"@, ..st }, CdpStepView::Reply(empty_obj()))
    } else if method == "Runtime.evaluate"@ {
        (st, CdpStepView::Evaluate(param_str(params, "expression"@, "undefined"@)))
    } else if method == "DOM.enable"@ || method == "DOM.disable"@ {
        (SessionState { dom_enabled: method == "DOM.enable"@, ..st }, CdpStepView::Reply(empty_obj()))
    } else if method == "DOM.getDocument"@ {
        reply(get_document_reply(params, doc))
    } else if method == "DOM.getFlattenedDocument"@ {
        reply(flattened_reply(doc))
    } else if method == "DOM.querySelector"@ {
        reply(query_selector_reply(params, doc))
    } else if method == "DOM.querySelectorAll"@ {
        reply(query_selector_all_reply(params, doc))
    } else if method == "DOM.getAttributes"@ {
        reply(attributes_reply(params, doc))
    } else if method == "DOM.getOuterHTML"@ {
        reply(outer_html_reply(params, doc))
    } else if method == "DOM.setAttributeValue"@ {
        (
            st,
            CdpStepView::SetAttribute(
                param_node(params, "nodeId"@),
                param_str(params, "name"@, ""@),
                param_str(params, "value"@, ""@),
            ),
        )
    } else if method == "DOM.removeAttribute"@ {
        (st, CdpStepView::RemoveAttribute(param_node(params, "nodeId"@), param_str(params, "name"@, ""@)))
    } else if method == "DOM.describeNode"@ {
        reply(describe_node_reply(params, doc))
    } else if method == "Network.enable"@ || method == "Network.disable"@ {
        (SessionState { network_enabled: method == "Network.enable"@, ..st }, CdpStepView::Reply(empty_obj()))
    } else {
        reply(constant_reply(method, target))
    }
}

/// `{"id": id, "result": result}`.
pub open spec fn response_view(id: JsonView, result: JsonView) -> JsonView {
    JsonView::Object(seq![("id"@, id), ("result"@, result)])
}

/// The scheme and host of a URL, `scheme://host`; empty when the URL does
/// not parse.
pub open spec fn origin_of(url: Seq<char>) -> Seq<char> {
    match url_parse(url) {
        Some(p) => p.scheme + "://"@ + match p.host {
            Some(h) => h,
            None => Seq::empty(),
        },
        None => Seq::empty(),
    }
}

pub open spec fn timestamp_event(method: Seq<char>, ts: Seq<char>) -> JsonView {
    JsonView::Object(
        seq![("method"@, jstr_v(method)), ("params"@, JsonView::Object(seq![("timestamp"@, n_v(ts))]))],
    )
}

/// The answer and events of `Page.navigate` once the navigation ended with
/// `outcome` (`Err` holding the error's text).
pub open spec fn navigate_reply_view(
    frame: Seq<char>,
    loader: Seq<char>,
    url: Seq<char>,
    ts: Seq<char>,
    outcome: Result<(), Seq<char>>,
) -> (JsonView, Seq<JsonView>) {
    match outcome {
        Ok(_) => (
            JsonView::Object(seq![("frameId"@, jstr_v(frame)), ("loaderId"@, jstr_v(loader))]),
            seq![
                JsonView::Object(
                    seq![
                        ("method"@, jstr_v("Page.frameNavigated"@)),
                        (
                            "params"@,
                            JsonView::Object(
                                seq![
                                    (
                                        "frame"@,
                                        JsonView::Object(
                                            seq![
                                                ("id"@, jstr_v(frame)),
                                                ("loaderId"@, jstr_v(loader)),
                                                ("mimeType"@, jstr_v("text/html"@)),
                                                ("securityOrigin"@, jstr_v(origin_of(url))),
                                                ("url"@, jstr_v(url)),
                                            ],
                                        ),
                                    ),
                                    ("type"@, jstr_v("Navigation"@)),
                                ],
                            ),
                        ),
                    ],
                ),
                timestamp_event("Page.domContentEventFired"@, ts),
                timestamp_event("Page.loadEventFired"@, ts),
            ],
        ),
        Err(e) => (
            JsonView::Object(
                seq![("errorText"@, jstr_v(e)), ("frameId"@, jstr_v(frame)), ("loaderId"@, jstr_v(loader))],
            ),
            Seq::empty(),
        ),
    }
}

fn zeros8() -> (r: JsonValue)
    ensures
        r@ == zeros8_view(),
{
    let mut v: Vec<JsonValue> = Vec::new();
    let mut i: usize = 0;
    while i < 8
        invariant
            i <= 8,
            v@.len() == i,
            forall|j: int| 0 <= j < i ==> #[trigger] v@[j]@ == n_v("0"@),
        decreases 8 - i,
    {
        v.push(jnum_text("0"));
        i = i + 1;
    }
    proof {
        lemma_json_views(v@);
        assert forall|j: int| 0 <= j < 8 implies #[trigger] json_views(v@)[j] == n_v("0"@) by {
            assert(v@[j]@ == n_v("0"@));
        }
    }
    assert(json_views(v@) =~= Seq::new(8, |i: int| n_v("0"@)));
    jarr(v)
}

fn one(v: JsonValue) -> (r: JsonValue)
    ensures
        r@ == JsonView::Array(seq![v@]),
{
    let ghost g = v@;
    let mut a: Vec<JsonValue> = Vec::new();
    a.push(v);
    proof {
        lemma_json_views(a@);
    }
    assert(json_views(a@) =~= seq![g]);
    jarr(a)
}

fn arr0() -> (r: JsonValue)
    ensures
        r@ == empty_arr(),
{
    let a: Vec<JsonValue> = Vec::new();
    proof {
        lemma_json_views(a@);
    }
    assert(json_views(a@) =~= Seq::<JsonView>::empty());
    jarr(a)
}

fn browser_get_version() -> (r: JsonValue)
    ensures
        r@ == browser_version_view(),
{
    obj5(
        "jsVersion",
        jstr("QuickJS"),
        "product",
        jstr("Bose/0.2.0"),
        "protocolVersion",
        jstr("1.3"),
        "revision",
        jstr("@bose"),
        "userAgent",
        jstr(
            "Mozilla/5.0 (Windows NT 10.0; Win64; x64) AppleWebKit/537.36 (KHTML, like Gecko) Bose/0.2.0 Safari/537.36",
        ),
    )
}

fn target_get_targets(target: &str, url: &str) -> (r: JsonValue)
    ensures
        r@ == target_infos_view(target@, url@),
{
    let info = obj7(
        "attached",
        JsonValue::Bool(true),
        "browserContextId",
        jstr("default"),
        "canAccessOpener",
        JsonValue::Bool(false),
        "targetId",
        jstr(target),
        "title",
        jstr("Bose Browser"),
        "type",
        jstr("page"),
        "url",
        jstr(url),
    );
    obj1("targetInfos", one(info))
}

fn target_get_info(target: &str, url: &str) -> (r: JsonValue)
    ensures
        r@ == target_info_view(target@, url@),
{
    let info = obj6(
        "attached",
        JsonValue::Bool(true),
        "browserContextId",
        jstr("default"),
        "targetId",
        jstr(target),
        "title",
        jstr("Bose Browser"),
        "type",
        jstr("page"),
        "url",
        jstr(url),
    );
    obj1("targetInfo", info)
}

fn page_get_frame_tree(target: &str, url: &str) -> (r: JsonValue)
    ensures
        r@ == frame_tree_view(target@, url@),
{
    let frame = obj5(
        "id",
        jstr(target),
        "loaderId",
        jstr("loader-main"),
        "mimeType",
        jstr("text/html"),
        "securityOrigin",
        jstr("null"),
        "url",
        jstr(url),
    );
    obj1("frameTree", obj2("childFrames", arr0(), "frame", frame))
}

fn page_get_layout_metrics() -> (r: JsonValue)
    ensures
        r@ == layout_metrics_view(),
{
    let content = obj4("height", jnum_text("800"), "width", jnum_text("1280"), "x", jnum_text("0"), "y", jnum_text("0"));
    let layout = obj4(
        "clientHeight",
        jnum_text("800"),
        "clientWidth",
        jnum_text("1280"),
        "pageX",
        jnum_text("0"),
        "pageY",
        jnum_text("0"),
    );
    let visual = obj7(
        "clientHeight",
        jnum_text("800"),
        "clientWidth",
        jnum_text("1280"),
        "offsetX",
        jnum_text("0"),
        "offsetY",
        jnum_text("0"),
        "pageX",
        jnum_text("0"),
        "pageY",
        jnum_text("0"),
        "scale",
        jnum_text("1.0"),
    );
    obj3("contentSize", content, "layoutViewport", layout, "visualViewport", visual)
}

fn box_model() -> (r: JsonValue)
    ensures
        r@ == box_model_view(),
{
    let model = obj6(
        "border",
        zeros8(),
        "content",
        zeros8(),
        "height",
        jnum_text("0"),
        "margin",
        zeros8(),
        "padding",
        zeros8(),
        "width",
        jnum_text("0"),
    );
    obj1("model", model)
}

fn constant_reply_exec(method: &str, target: &str) -> (r: JsonValue)
    ensures
        r@ == constant_reply(method@, target@),
{
    if str_eq(method, "Browser.getVersion") {
        browser_get_version()
    } else if str_eq(method, "Target.createTarget") {
        obj1("targetId", jstr(target))
    } else if str_eq(method, "Page.getLayoutMetrics") {
        page_get_layout_metrics()
    } else if str_eq(method, "Page.captureScreenshot") || str_eq(method, "Page.printToPDF") {
        obj1("data", jstr(""))
    } else if str_eq(method, "Page.addScriptToEvaluateOnNewDocument") {
        obj1("identifier", jstr("1"))
    } else if str_eq(method, "Runtime.callFunctionOn") {
        obj1("result", obj2("type", jstr("undefined"), "value", JsonValue::Null))
    } else if str_eq(method, "Runtime.getProperties") {
        obj2("internalProperties", arr0(), "result", arr0())
    } else if str_eq(method, "DOM.getBoxModel") {
        box_model()
    } else if str_eq(method, "DOM.getContentQuads") {
        obj1("quads", one(zeros8()))
    } else if str_eq(method, "DOM.resolveNode") {
        obj1("object", obj3("className", jstr("HTMLElement"), "objectId", jstr("1"), "type", jstr("object")))
    } else if str_eq(method, "CSS.getComputedStyleForNode") {
        obj1("computedStyle", arr0())
    } else if str_eq(method, "CSS.getMatchedStylesForNode") {
        obj3("cssKeyframesRules", arr0(), "inherited", arr0(), "matchedCSSRules", arr0())
    } else if str_eq(method, "CSS.getInlineStylesForNode") {
        obj1("inlineStyle", obj3("cssProperties", arr0(), "cssText", jstr(""), "shorthandEntries", arr0()))
    } else if str_eq(method, "Network.getCookies") || str_eq(method, "Network.getAllCookies") || str_eq(
        method,
        "Storage.getCookies",
    ) {
        obj1("cookies", arr0())
    } else if str_eq(method, "Emulation.canEmulate") {
        obj1("result", JsonValue::Bool(true))
    } else if str_eq(method, "Debugger.enable") {
        obj1("debuggerId", jstr("bose-debugger"))
    } else if str_eq(method, "Performance.getMetrics") {
        obj1("metrics", arr0())
    } else if str_eq(method, "AZ.getState") {
        obj3("engine", jstr("Bose"), "state", jstr("ready"), "version", jstr("0.2.0"))
    } else {
        obj0()
    }
}


pub open spec fn opt_doc(doc: Option<&Document>) -> Option<DocView> {
    match doc {
        Some(d) => Some(d@),
        None => None,
    }
}

pub open spec fn opt_text(o: Option<&str>) -> Option<Seq<char>> {
    match o {
        Some(s) => Some(s@),
        None => None,
    }
}

fn param_node_exec(params: &JsonValue, key: &str) -> (r: NodeId)
    ensures
        r == param_node(params@, key@),
{
    match params.get_key(key) {
        Some(v) => match v.as_u64() {
            Some(n) => n as NodeId,
            None => 0,
        },
        None => 0,
    }
}

fn param_depth_exec(params: &JsonValue, dflt: i64) -> (r: i32)
    ensures
        r == param_depth(params@, dflt),
{
    let d: i64 = match params.get_key("depth") {
        Some(v) => match v.as_i64() {
            Some(n) => n,
            None => dflt,
        },
        None => dflt,
    };
    d as i32
}

fn param_str_exec<'a>(params: &'a JsonValue, key: &str, dflt: &'a str) -> (r: &'a str)
    ensures
        r@ == param_str(params@, key@, dflt@),
{
    match params.get_key(key) {
        Some(v) => match v.as_str() {
            Some(s) => s,
            None => dflt,
        },
        None => dflt,
    }
}

fn blank_root() -> (r: JsonValue)
    ensures
        r@ == blank_root_view(),
{
    obj7(
        "backendNodeId",
        jnum_text("0"),
        "childNodeCount",
        jnum_text("0"),
        "localName",
        jstr(""),
        "nodeId",
        jnum_text("0"),
        "nodeName",
        jstr("#document"),
        "nodeType",
        jnum_text("9"),
        "nodeValue",
        jstr(""),
    )
}

fn dom_get_document(params: &JsonValue, doc: Option<&Document>) -> (r: JsonValue)
    ensures
        r@ == get_document_reply(params@, opt_doc(doc)),
{
    let depth = param_depth_exec(params, 2);
    let root = match doc {
        Some(d) => DomConverter::node_to_cdp(d, 0, depth),
        None => blank_root(),
    };
    obj1("root", root)
}

fn dom_get_flattened(doc: Option<&Document>) -> (r: JsonValue)
    ensures
        r@ == flattened_reply(opt_doc(doc)),
{
    let mut nodes: Vec<JsonValue> = Vec::new();
    match doc {
        Some(d) => {
            let mut id: usize = 0;
            while id < d.nodes.len()
                invariant
                    id <= d@.nodes.len(),
                    nodes@.len() == id,
                    forall|j: int|
                        0 <= j < id ==> #[trigger] nodes@[j]@ == cdp_node(d@.nodes, j as NodeId, 0, d@.nodes.len()),
                decreases d@.nodes.len() - id,
            {
                let v = DomConverter::node_to_cdp(d, id, 0);
                let keep = match &v {
                    JsonValue::Null => false,
                    _ => true,
                };
                if keep {
                    nodes.push(v);
                } else {
                    assert(v@ == JsonView::Null);
                    assert(false);
                }
                id = id + 1;
            }
            proof {
                lemma_json_views(nodes@);
                assert forall|j: int| 0 <= j < d@.nodes.len() implies #[trigger] json_views(nodes@)[j] == cdp_node(
                    d@.nodes,
                    j as NodeId,
                    0,
                    d@.nodes.len(),
                ) by {
                    assert(nodes@[j]@ == cdp_node(d@.nodes, j as NodeId, 0, d@.nodes.len()));
                }
                assert(json_views(nodes@) =~= Seq::new(
                    d@.nodes.len(),
                    |id: int| cdp_node(d@.nodes, id as NodeId, 0, d@.nodes.len()),
                ));
            }
        },
        None => {
            proof {
                lemma_json_views(nodes@);
            }
            assert(json_views(nodes@) =~= Seq::<JsonView>::empty());
        },
    }
    obj1("nodes", jarr(nodes))
}

fn ids_array(ids: &Vec<NodeId>) -> (r: JsonValue)
    ensures
        r@ == JsonView::Array(ids_view(ids@)),
{
    let mut out: Vec<JsonValue> = Vec::new();
    let mut i: usize = 0;
    while i < ids.len()
        invariant
            i <= ids@.len(),
            out@.len() == i,
            forall|j: int| 0 <= j < i ==> #[trigger] out@[j]@ == jnum(ids@[j] as nat),
        decreases ids@.len() - i,
    {
        out.push(jnum_exec(ids[i]));
        i = i + 1;
    }
    proof {
        lemma_json_views(out@);
        assert forall|j: int| 0 <= j < ids@.len() implies #[trigger] json_views(out@)[j] == jnum(ids@[j] as nat) by {
            assert(out@[j]@ == jnum(ids@[j] as nat));
        }
    }
    assert(json_views(out@) =~= ids_view(ids@));
    jarr(out)
}

fn dom_query_selector(params: &JsonValue, doc: Option<&Document>) -> (r: JsonValue)
    ensures
        r@ == query_selector_reply(params@, opt_doc(doc)),
{
    let node_id = param_node_exec(params, "nodeId");
    let selector = param_str_exec(params, "selector", "*");
    let found: NodeId = match doc {
        Some(d) => match DomQuery::query_selector_from(d, node_id, selector) {
            Ok(Some(i)) => i,
            _ => 0,
        },
        None => 0,
    };
    obj1("nodeId", jnum_exec(found))
}

fn dom_query_selector_all(params: &JsonValue, doc: Option<&Document>) -> (r: JsonValue)
    ensures
        r@ == query_selector_all_reply(params@, opt_doc(doc)),
{
    let node_id = param_node_exec(params, "nodeId");
    let selector = param_str_exec(params, "selector", "*");
    let found: Vec<NodeId> = match doc {
        Some(d) => match DomQuery::query_selector_all_from(d, node_id, selector) {
            Ok(v) => v,
            Err(_) => Vec::new(),
        },
        None => Vec::new(),
    };
    assert(found@ =~= match opt_doc(doc) {
        Some(d) => selector_all(d, node_id, selector@),
        None => Seq::empty(),
    });
    obj1("nodeIds", ids_array(&found))
}

fn dom_get_attributes(params: &JsonValue, doc: Option<&Document>) -> (r: JsonValue)
    ensures
        r@ == attributes_reply(params@, opt_doc(doc)),
{
    let node_id = param_node_exec(params, "nodeId");
    let mut flat: Vec<JsonValue> = Vec::new();
    proof {
        lemma_json_views(flat@);
    }
    assert(json_views(flat@) =~= Seq::<JsonView>::empty());
    match doc {
        Some(d) => match d.get(node_id) {
            Some(n) => match &n.data {
                NodeData::Element { attrs, .. } => {
                    flat = crate::cdp::domains::dom::flat_attrs_exec(attrs);
                },
                _ => {},
            },
            None => {},
        },
        None => {},
    }
    obj1("attributes", jarr(flat))
}

fn dom_get_outer_html(params: &JsonValue, doc: Option<&Document>) -> (r: JsonValue)
    ensures
        r@ == outer_html_reply(params@, opt_doc(doc)),
{
    let node_id = param_node_exec(params, "nodeId");
    let html = match doc {
        Some(d) => match DomSerializer::serialize_node(d, node_id) {
            Ok(h) => h,
            Err(_) => String::new(),
        },
        None => String::new(),
    };
    obj1("outerHTML", JsonValue::Str(html))
}

fn dom_describe_node(params: &JsonValue, doc: Option<&Document>) -> (r: JsonValue)
    ensures
        r@ == describe_node_reply(params@, opt_doc(doc)),
{
    let node_id = param_node_exec(params, "nodeId");
    let depth = param_depth_exec(params, 1);
    let node = match doc {
        Some(d) => DomConverter::node_to_cdp(d, node_id, depth),
        None => JsonValue::Null,
    };
    obj1("node", node)
}

impl SessionState {
    /// Every domain disabled.
    pub fn new() -> (r: Self)
        ensures
            !r.page_enabled && !r.runtime_enabled && !r.dom_enabled && !r.network_enabled,
    {
        SessionState { page_enabled: false, runtime_enabled: false, dom_enabled: false, network_enabled: false }
    }
}

impl CdpSession {
    /// A session for the page target `target_id`, every domain disabled.
    pub fn new(target_id: String) -> (r: Self)
        ensures
            r.target_id@ == target_id@,
            !r.state.page_enabled && !r.state.runtime_enabled && !r.state.dom_enabled && !r.state.network_enabled,
    {
        CdpSession { target_id, state: SessionState::new() }
    }

    /// Handles `method` with `params`, given the URL of the loaded page (if
    /// any) and its document (if it is complete).
    pub fn dispatch(&mut self, method: &str, params: &JsonValue, url: Option<&str>, doc: Option<&Document>) -> (r:
        CdpStep)
        ensures
            final(self).target_id == old(self).target_id,
            (final(self).state, r@) == cdp_dispatch(
                old(self).state,
                old(self).target_id@,
                method@,
                params@,
                opt_text(url),
                opt_doc(doc),
            ),
    {
        let url_or_blank: &str = match url {
            Some(u) => u,
            None => "about:blank",
        };
        if str_eq(method, "Target.getTargets") {
            CdpStep::Reply(target_get_targets(self.target_id.as_str(), url_or_blank))
        } else if str_eq(method, "Target.getTargetInfo") {
            CdpStep::Reply(target_get_info(self.target_id.as_str(), url_or_blank))
        } else if str_eq(method, "Target.attachToTarget") {
            CdpStep::NewSession
        } else if str_eq(method, "Page.enable") || str_eq(method, "Page.disable") {
            self.state.page_enabled = str_eq(method, "Page.enable");
            CdpStep::Reply(obj0())
        } else if str_eq(method, "Page.navigate") {
            CdpStep::Navigate(param_str_exec(params, "url", "about:blank").to_owned())
        } else if str_eq(method, "Page.reload") {
            match url {
                Some(u) => CdpStep::Navigate(u.to_owned()),
                None => CdpStep::Reply(obj0()),
            }
        } else if str_eq(method, "Page.getFrameTree") {
            CdpStep::Reply(page_get_frame_tree(self.target_id.as_str(), url_or_blank))
        } else if str_eq(method, "Runtime.enable") || str_eq(method, "Runtime.disable") {
            self.state.runtime_enabled = str_eq(method, "Runtime.enable");
            CdpStep::Reply(obj0())
        } else if str_eq(method, "Runtime.evaluate") {
            CdpStep::Evaluate(param_str_exec(params, "expression", "undefined").to_owned())
        } else if str_eq(method, "DOM.enable") || str_eq(method, "DOM.disable") {
            self.state.dom_enabled = str_eq(method, "DOM.enable");
            CdpStep::Reply(obj0())
        } else if str_eq(method, "DOM.getDocument") {
            CdpStep::Reply(dom_get_document(params, doc))
        } else if str_eq(method, "DOM.getFlattenedDocument") {
            CdpStep::Reply(dom_get_flattened(doc))
        } else if str_eq(method, "DOM.querySelector") {
            CdpStep::Reply(dom_query_selector(params, doc))
        } else if str_eq(method, "DOM.querySelectorAll") {
            CdpStep::Reply(dom_query_selector_all(params, doc))
        } else if str_eq(method, "DOM.getAttributes") {
            CdpStep::Reply(dom_get_attributes(params, doc))
        } else if str_eq(method, "DOM.getOuterHTML") {
            CdpStep::Reply(dom_get_outer_html(params, doc))
        } else if str_eq(method, "DOM.setAttributeValue") {
            CdpStep::SetAttribute(
                param_node_exec(params, "nodeId"),
                param_str_exec(params, "name", "").to_owned(),
                param_str_exec(params, "value", "").to_owned(),
            )
        } else if str_eq(method, "DOM.removeAttribute") {
            CdpStep::RemoveAttribute(param_node_exec(params, "nodeId"), param_str_exec(params, "name", "").to_owned())
        } else if str_eq(method, "DOM.describeNode") {
            CdpStep::Reply(dom_describe_node(params, doc))
        } else if str_eq(method, "Network.enable") || str_eq(method, "Network.disable") {
            self.state.network_enabled = str_eq(method, "Network.enable");
            CdpStep::Reply(obj0())
        } else {
            CdpStep::Reply(constant_reply_exec(method, self.target_id.as_str()))
        }
    }
}

/// `scheme://host` of a URL, empty when it does not parse.
pub fn security_origin(url: &str) -> (r: String)
    ensures
        r@ == origin_of(url@),
{
    match parse_url(url) {
        Ok(p) => {
            let mut s = p.scheme.clone();
            s.append("://");
            match &p.host {
                Some(h) => s.append(h.as_str()),
                None => {},
            }
            assert(s@ =~= origin_of(url@));
            s
        },
        Err(_) => String::new(),
    }
}

fn timestamp_event_exec(method: &str, ts: &str) -> (r: JsonValue)
    ensures
        r@ == timestamp_event(method@, ts@),
{
    obj2("method", jstr(method), "params", obj1("timestamp", jnum_text(ts)))
}

/// The answer and events of `Page.navigate` for frame `frame_id` and loader
/// `loader_id`, once navigating to `url` ended with `outcome`; `timestamp`
/// is the time of the load as a JSON number.
pub fn navigate_reply(frame_id: &str, loader_id: &str, url: &str, timestamp: &str, outcome: Result<(), String>) -> (r: (
    JsonValue,
    Vec<JsonValue>,
))
    ensures
        (r.0@, json_views(r.1@)) == navigate_reply_view(
            frame_id@,
            loader_id@,
            url@,
            timestamp@,
            match outcome {
                Ok(_) => Ok(()),
                Err(e) => Err(e@),
            },
        ),
{
    match outcome {
        Ok(_) => {
            let origin = security_origin(url);
            let frame = obj5(
                "id",
                jstr(frame_id),
                "loaderId",
                jstr(loader_id),
                "mimeType",
                jstr("text/html"),
                "securityOrigin",
                JsonValue::Str(origin),
                "url",
                jstr(url),
            );
            let nav = obj2(
                "method",
                jstr("Page.frameNavigated"),
                "params",
                obj2("frame", frame, "type", jstr("Navigation")),
            );
            let ghost g0 = nav@;
            let e1 = timestamp_event_exec("Page.domContentEventFired", timestamp);
            let e2 = timestamp_event_exec("Page.loadEventFired", timestamp);
            let ghost g1 = e1@;
            let ghost g2 = e2@;
            let mut events: Vec<JsonValue> = Vec::new();
            events.push(nav);
            events.push(e1);
            events.push(e2);
            proof {
                lemma_json_views(events@);
            }
            assert(json_views(events@) =~= seq![g0, g1, g2]);
            (obj2("frameId", jstr(frame_id), "loaderId", jstr(loader_id)), events)
        },
        Err(e) => {
            let events: Vec<JsonValue> = Vec::new();
            proof {
                lemma_json_views(events@);
            }
            assert(json_views(events@) =~= Seq::<JsonView>::empty());
            (obj3("errorText", JsonValue::Str(e), "frameId", jstr(frame_id), "loaderId", jstr(loader_id)), events)
        },
    }
}

/// `{"result": {"type": "string", "value": result}}`, the answer of
/// `Runtime.evaluate`.
pub fn evaluate_reply(result: &str) -> (r: JsonValue)
    ensures
        r@ == JsonView::Object(
            seq![("result"@, JsonView::Object(seq![("type"@, jstr_v("string"@)), ("value"@, jstr_v(result@))]))],
        ),
{
    obj1("result", obj2("type", jstr("string"), "value", jstr(result)))
}

/// `{"sessionId": session_id}`, the answer of `Target.attachToTarget`.
pub fn attach_reply(session_id: &str) -> (r: JsonValue)
    ensures
        r@ == JsonView::Object(seq![("sessionId"@, jstr_v(session_id@))]),
{
    obj1("sessionId", jstr(session_id))
}

/// `{"id": id, "result": result}`, the response to a command.
pub fn response(id: JsonValue, result: JsonValue) -> (r: JsonValue)
    ensures
        r@ == response_view(id@, result@),
{
    obj2("id", id, "result", result)
}

/// `{"error": {"code": -32700, "message": "Parse error: " + detail}, "id": 0}`.
pub open spec fn cdp_parse_error_view(detail: Seq<char>) -> JsonView {
    JsonView::Object(
        seq![
            (
                "error"@,
                JsonView::Object(seq![("code"@, n_v("-32700"@)), ("message"@, jstr_v("Parse error: "@ + detail))]),
            ),
            ("id"@, n_v("0"@)),
        ],
    )
}

/// The response to a message that is not a command, with the parser's
/// account of what is wrong.
pub fn parse_error_response(detail: &str) -> (r: JsonValue)
    ensures
        r@ == cdp_parse_error_view(detail@),
{
    let mut m = "Parse error: ".to_owned();
    m.append(detail);
    obj2("error", obj2("code", jnum_text("-32700"), "message", JsonValue::Str(m)), "id", jnum_text("0"))
}

/// A command read from a message, given what `serde_json` makes of it: an
/// object with an `id` that is a `u64`, a string `method`, and `params`,
/// `{}` when absent or `null`; other members are ignored. Any other message
/// is answered with a parse error.
pub open spec fn cdp_message(parsed: Result<JsonView, Seq<char>>) -> Result<(u64, Seq<char>, JsonView), JsonView> {
    match parsed {
        Err(m) => Err(cdp_parse_error_view(m)),
        Ok(JsonView::Object(ms)) => match member(ms, "id"@) {
            None => Err(cdp_parse_error_view("missing field `id`"@)),
            Some(idv) => match as_u64_spec(idv) {
                None => Err(cdp_parse_error_view("invalid type: expected u64"@)),
                Some(id) => match member(ms, "method"@) {
                    None => Err(cdp_parse_error_view("missing field `method`"@)),
                    Some(JsonView::Str(method)) => Ok(
                        (
                            id,
                            method,
                            match member(ms, "params"@) {
                                None => JsonView::Object(Seq::empty()),
                                Some(JsonView::Null) => JsonView::Object(Seq::empty()),
                                Some(p) => p,
                            },
                        ),
                    ),
                    Some(_) => Err(cdp_parse_error_view("invalid type: expected a string"@)),
                },
            },
        },
        Ok(_) => Err(cdp_parse_error_view("invalid type: expected struct CdpMessage"@)),
    }
}

/// Reads a command's id, method and parameters from a message, or gives the
/// reply to a message that is not one; see `cdp_message`.
pub fn read_cdp_message(message: &str) -> (r: Result<(u64, String, JsonValue), JsonValue>)
    ensures
        match r {
            Ok((id, method, params)) => cdp_message(json_parse(message@)) == Ok::<(u64, Seq<char>, JsonView), JsonView>(
                (id, method@, params@),
            ),
            Err(reply) => cdp_message(json_parse(message@)) == Err::<(u64, Seq<char>, JsonView), JsonView>(reply@),
        },
{
    let v = match parse_json(message) {
        Ok(v) => v,
        Err(m) => return Err(parse_error_response(m.as_str())),
    };
    match &v {
        JsonValue::Object(_) => {},
        _ => return Err(parse_error_response("invalid type: expected struct CdpMessage")),
    }
    let id = match v.get_key("id") {
        None => return Err(parse_error_response("missing field `id`")),
        Some(idv) => match idv.as_u64() {
            None => return Err(parse_error_response("invalid type: expected u64")),
            Some(n) => n,
        },
    };
    let method = match v.get_key("method") {
        None => return Err(parse_error_response("missing field `method`")),
        Some(m) => match m.as_str() {
            None => return Err(parse_error_response("invalid type: expected a string")),
            Some(s) => s.to_owned(),
        },
    };
    let params = match v.get_key("params") {
        None => obj0(),
        Some(JsonValue::Null) => obj0(),
        Some(p) => p.duplicate(),
    };
    Ok((id, method, params))
}


/// The enable and disable commands of the Page, Runtime, DOM and Network
/// domains.
pub open spec fn is_toggle(method: Seq<char>) -> bool {
    ||| method == "Page.enable"@
    ||| method == "Page.disable"@
    ||| method == "Runtime.enable"@
    ||| method == "Runtime.disable"@
    ||| method == "DOM.enable"@
    ||| method == "DOM.disable"@
    ||| method == "Network.enable"@
    ||| method == "Network.disable"@
}

/// Only the enable and disable commands change the session's state, each
/// only its own domain's flag: `enable` sets it and `disable` clears it.
pub proof fn lemma_only_toggles_change_state(
    st: SessionState,
    target: Seq<char>,
    method: Seq<char>,
    params: JsonView,
    url: Option<Seq<char>>,
    doc: Option<DocView>,
)
    ensures
        !is_toggle(method) ==> cdp_dispatch(st, target, method, params, url, doc).0 == st,
{
}


/// Each enable command sets its domain's flag and each disable command
/// clears it, leaving the other flags as they were.
pub proof fn lemma_toggles_set_their_flag(
    st: SessionState,
    target: Seq<char>,
    method: Seq<char>,
    params: JsonView,
    url: Option<Seq<char>>,
    doc: Option<DocView>,
)
    ensures
        ({
            let st2 = cdp_dispatch(st, target, method, params, url, doc).0;
            &&& method == "Page.enable"@ ==> st2 == SessionState { page_enabled: true, ..st }
            &&& method == "Page.disable"@ ==> st2 == SessionState { page_enabled: false, ..st }
            &&& method == "Runtime.enable"@ ==> st2 == SessionState { runtime_enabled: true, ..st }
            &&& method == "Runtime.disable"@ ==> st2 == SessionState { runtime_enabled: false, ..st }
            &&& method == "DOM.enable"@ ==> st2 == SessionState { dom_enabled: true, ..st }
            &&& method == "DOM.disable"@ ==> st2 == SessionState { dom_enabled: false, ..st }
            &&& method == "Network.enable"@ ==> st2 == SessionState { network_enabled: true, ..st }
            &&& method == "Network.disable"@ ==> st2 == SessionState { network_enabled: false, ..st }
        }),
{
    reveal_strlit("Target.getTargets");
    assert("Target.getTargets"@[0] == 'T');
    reveal_strlit("Target.getTargetInfo");
    assert("Target.getTargetInfo"@[0] == 'T');
    reveal_strlit("Target.attachToTarget");
    assert("Target.attachToTarget"@[0] == 'T');
    reveal_strlit("Page.enable");
    assert("Page.enable"@[0] == 'P');
    assert("Page.enable"@.len() == 11);
    reveal_strlit("Page.disable");
    assert("Page.disable"@[0] == 'P');
    assert("Page.disable"@.len() == 12);
    reveal_strlit("Runtime.enable");
    assert("Runtime.enable"@[0] == 'R');
    assert("Runtime.enable"@.len() == 14);
    reveal_strlit("Runtime.disable");
    assert("Runtime.disable"@[0] == 'R');
    assert("Runtime.disable"@.len() == 15);
    reveal_strlit("DOM.enable");
    assert("DOM.enable"@[0] == 'D');
    assert("DOM.enable"@.len() == 10);
    reveal_strlit("DOM.disable");
    assert("DOM.disable"@[0] == 'D');
    assert("DOM.disable"@.len() == 11);
    reveal_strlit("Network.enable");
    assert("Network.enable"@[0] == 'N');
    assert("Network.enable"@.len() == 14);
    reveal_strlit("Network.disable");
    assert("Network.disable"@[0] == 'N');
    assert("Network.disable"@.len() == 15);
    reveal_strlit("Page.navigate");
    assert("Page.navigate"@[0] == 'P');
    reveal_strlit("Page.reload");
    assert("Page.reload"@[0] == 'P');
    reveal_strlit("Page.getFrameTree");
    assert("Page.getFrameTree"@[0] == 'P');
    reveal_strlit("Runtime.evaluate");
    assert("Runtime.evaluate"@[0] == 'R');
    reveal_strlit("DOM.getDocument");
    assert("DOM.getDocument"@[0] == 'D');
    reveal_strlit("DOM.getFlattenedDocument");
    assert("DOM.getFlattenedDocument"@[0] == 'D');
    reveal_strlit("DOM.querySelector");
    assert("DOM.querySelector"@[0] == 'D');
    reveal_strlit("DOM.querySelectorAll");
    assert("DOM.querySelectorAll"@[0] == 'D');
    reveal_strlit("DOM.getAttributes");
    assert("DOM.getAttributes"@[0] == 'D');
    reveal_strlit("DOM.getOuterHTML");
    assert("DOM.getOuterHTML"@[0] == 'D');
    reveal_strlit("DOM.setAttributeValue");
    assert("DOM.setAttributeValue"@[0] == 'D');
    reveal_strlit("DOM.removeAttribute");
    assert("DOM.removeAttribute"@[0] == 'D');
    reveal_strlit("DOM.describeNode");
    assert("DOM.describeNode"@[0] == 'D');
}

} // verus!
