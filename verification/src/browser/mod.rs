//! Page-level logic of the browser: which scripts a page runs and how they
//! are budgeted, its external assets, and the navigation helpers.
use vstd::prelude::*;
use crate::dom::document::Document;
use crate::dom::node::{attr_lookup, attrs_view, nodes_view, AttrView, DataView, Node, NodeData, NodeView};
use crate::text::{
    ascii_lower, ascii_lower_str, contains_seq, starts_with, str_contains, str_eq, str_starts_with, trim, trim_str,
};
use crate::urls::{join_url, parse_url, url_join, url_parse};

pub mod assets;
pub mod json;
pub mod spa;
pub mod video;
pub mod pipeline;
pub mod session;
pub mod nav_cache;

verus! {

/// Lifecycle of the current page.
#[derive(Debug, Clone, Copy, PartialEq, Eq, Structural)]
pub enum DocumentReadyState {
    Loading,
    Complete,
}

/// A script the page runs, in document order.
#[derive(Debug)]
pub enum ScriptRequest {
    Inline(String),
    External(String),
}

pub enum RequestView {
    Inline(Seq<char>),
    External(Seq<char>),
}

impl View for ScriptRequest {
    type V = RequestView;

    open spec fn view(&self) -> RequestView {
        match self {
            ScriptRequest::Inline(s) => RequestView::Inline(s@),
            ScriptRequest::External(s) => RequestView::External(s@),
        }
    }
}

pub open spec fn requests_view(v: Seq<ScriptRequest>) -> Seq<RequestView> {
    v.map_values(|r: ScriptRequest| r@)
}

impl ScriptRequest {
    /// Equality of two requests: same kind and same text.
    pub fn same(&self, other: &ScriptRequest) -> (r: bool)
        ensures
            r == (self@ == other@),
    {
        match (self, other) {
            (ScriptRequest::Inline(a), ScriptRequest::Inline(b)) => str_eq(a.as_str(), b.as_str()),
            (ScriptRequest::External(a), ScriptRequest::External(b)) => str_eq(a.as_str(), b.as_str()),
            _ => false,
        }
    }
}

/// Where a `<script src>` points, or `None` when it is not fetched: blank,
/// `data:` or `javascript:` sources, and absolute URLs of other schemes than
/// http, https and file. A scheme-relative source takes the base's scheme
/// (https when the base does not parse); a relative one is joined onto the
/// base.
pub open spec fn script_url(src0: Seq<char>, base: Seq<char>) -> Option<Seq<char>> {
    let src = trim(src0);
    let lower = ascii_lower(src);
    if src.len() == 0 {
        None
    } else if starts_with(lower, "data:"@) || starts_with(lower, "javascript:"@) {
        None
    } else if starts_with(src, "//"@) {
        let scheme = match url_parse(base) {
            Some(u) => u.scheme,
            None => "https"@,
        };
        Some(scheme + ":"@ + src)
    } else {
        match url_parse(src) {
            Some(u) => if u.scheme == "http"@ || u.scheme == "https"@ || u.scheme == "file"@ {
                Some(u.href)
            } else {
                None
            },
            None => url_join(base, src),
        }
    }
}

/// Resolves a script source against the page URL; see `script_url`.
pub fn resolve_script_url(src: &str, base_url: &str) -> (r: Option<String>)
    ensures
        match r {
            Some(s) => script_url(src@, base_url@) == Some(s@),
            None => script_url(src@, base_url@) is None,
        },
{
    let src = trim_str(src);
    let s = src.as_str();
    if s.is_empty() {
        return None;
    }
    let lower = ascii_lower_str(s);
    if str_starts_with(lower.as_str(), "data:") || str_starts_with(lower.as_str(), "javascript:") {
        return None;
    }
    if str_starts_with(s, "//") {
        let mut out = match parse_url(base_url) {
            Ok(u) => u.scheme,
            Err(_) => "https".to_owned(),
        };
        out.append(":");
        out.append(s);
        return Some(out);
    }
    match parse_url(s) {
        Ok(u) => {
            let sc = u.scheme.as_str();
            if str_eq(sc, "http") || str_eq(sc, "https") || str_eq(sc, "file") {
                Some(u.href)
            } else {
                None
            }
        },
        Err(_) => join_url(base_url, s),
    }
}

/// A `type` attribute whose lower-cased value mentions `module`.
pub open spec fn is_module_script(attrs: Seq<AttrView>) -> bool {
    exists|j: int|
        0 <= j < attrs.len() && #[trigger] attrs[j].name == "type"@ && contains_seq(
            ascii_lower(attrs[j].value),
            "module"@,
        )
}

/// The text of the text nodes among `ids`, in order.
pub open spec fn direct_text(nodes: Seq<NodeView>, ids: Seq<usize>) -> Seq<char>
    decreases ids.len(),
{
    if ids.len() == 0 {
        Seq::empty()
    } else {
        direct_text(nodes, ids.drop_last()) + (if ids.last() < nodes.len() {
            match nodes[ids.last() as int].data {
                DataView::Text { content } => content,
                _ => Seq::empty(),
            }
        } else {
            Seq::empty()
        })
    }
}

/// The requests after looking at one more arena slot.
pub open spec fn request_step(nodes: Seq<NodeView>, base: Seq<char>, prev: Seq<RequestView>, n: NodeView) -> Seq<
    RequestView,
> {
    match n.data {
        DataView::Element { tag_name, attrs, .. } => {
            if tag_name != "script"@ || is_module_script(attrs) {
                prev
            } else {
                match attr_lookup(attrs, "src"@) {
                    Some(src) => match script_url(src, base) {
                        Some(u) => if prev.contains(RequestView::External(u)) {
                            prev
                        } else {
                            prev.push(RequestView::External(u))
                        },
                        None => prev,
                    },
                    None => {
                        let t = trim(direct_text(nodes, n.children));
                        if t.len() > 0 {
                            prev.push(RequestView::Inline(t))
                        } else {
                            prev
                        }
                    },
                }
            }
        },
        _ => prev,
    }
}

/// The requests of the first `k` arena slots.
pub open spec fn requests_upto(nodes: Seq<NodeView>, base: Seq<char>, k: nat) -> Seq<RequestView>
    decreases k,
{
    if k == 0 {
        Seq::empty()
    } else {
        request_step(nodes, base, requests_upto(nodes, base, (k - 1) as nat), nodes[k - 1])
    }
}

fn has_module_type(attrs: &Vec<crate::dom::node::Attribute>) -> (r: bool)
    ensures
        r == is_module_script(attrs_view(attrs@)),
{
    let ghost av = attrs_view(attrs@);
    let mut i: usize = 0;
    while i < attrs.len()
        invariant
            i <= attrs@.len(),
            av == attrs_view(attrs@),
            forall|j: int|
                0 <= j < i ==> !(#[trigger] av[j].name == "type"@ && contains_seq(ascii_lower(av[j].value), "module"@)),
        decreases attrs@.len() - i,
    {
        assert(av[i as int] == attrs@[i as int]@);
        if str_eq(attrs[i].name.as_str(), "type") {
            let low = ascii_lower_str(attrs[i].value.as_str());
            if str_contains(low.as_str(), "module") {
                assert(av[i as int].name == "type"@ && contains_seq(ascii_lower(av[i as int].value), "module"@));
                return true;
            }
        }
        i = i + 1;
    }
    false
}

fn direct_text_of(nodes: &[Node], ids: &Vec<usize>) -> (r: String)
    ensures
        r@ == direct_text(nodes_view(nodes@), ids@),
{
    let mut out = String::new();
    let mut i: usize = 0;
    assert(ids@.take(0) =~= Seq::<usize>::empty());
    while i < ids.len()
        invariant
            i <= ids@.len(),
            out@ == direct_text(nodes_view(nodes@), ids@.take(i as int)),
        decreases ids@.len() - i,
    {
        let ghost t = ids@.take(i as int + 1);
        assert(t.drop_last() =~= ids@.take(i as int));
        let id = ids[i];
        if id < nodes.len() {
            assert(nodes_view(nodes@)[id as int] == nodes@[id as int]@);
            match &nodes[id].data {
                NodeData::Text { content } => out.append(content.as_str()),
                _ => {},
            }
        }
        i = i + 1;
    }
    assert(ids@.take(ids@.len() as int) =~= ids@);
    out
}

fn contains_external(out: &Vec<ScriptRequest>, url: &String) -> (r: bool)
    ensures
        r == requests_view(out@).contains(RequestView::External(url@)),
{
    let ghost rv = requests_view(out@);
    let mut i: usize = 0;
    while i < out.len()
        invariant
            i <= out@.len(),
            rv == requests_view(out@),
            forall|j: int| 0 <= j < i ==> rv[j] != RequestView::External(url@),
        decreases out@.len() - i,
    {
        assert(rv[i as int] == out@[i as int]@);
        match &out[i] {
            ScriptRequest::External(u) => {
                if str_eq(u.as_str(), url.as_str()) {
                    assert(rv[i as int] == RequestView::External(url@));
                    return true;
                }
            },
            _ => {},
        }
        i = i + 1;
    }
    false
}

/// The scripts a page runs, in arena order: inline scripts with their
/// trimmed text when it is not blank, external scripts by their resolved URL,
/// each URL once. Module scripts and sources that do not resolve are left
/// out.
pub fn collect_script_requests(doc: &Document, base_url: &str) -> (r: Vec<ScriptRequest>)
    ensures
        requests_view(r@) == requests_upto(doc@.nodes, base_url@, doc@.nodes.len()),
{
    let nodes = doc.nodes.as_slice();
    let ghost nv = nodes_view(nodes@);
    let mut out: Vec<ScriptRequest> = Vec::new();
    let mut k: usize = 0;
    assert(requests_view(out@) =~= Seq::<RequestView>::empty());
    while k < nodes.len()
        invariant
            k <= nodes@.len(),
            nv == nodes_view(nodes@),
            nv == doc@.nodes,
            requests_view(out@) == requests_upto(nv, base_url@, k as nat),
        decreases nodes@.len() - k,
    {
        let node = &nodes[k];
        assert(nv[k as int] == node@);
        let ghost prev = requests_view(out@);
        match &node.data {
            NodeData::Element { tag_name, attrs, .. } => {
                if str_eq(tag_name.as_str(), "script") && !has_module_type(attrs) {
                    match node.attr("src") {
                        Some(src) => {
                            match resolve_script_url(src, base_url) {
                                Some(u) => {
                                    if !contains_external(&out, &u) {
                                        out.push(ScriptRequest::External(u));
                                        assert(requests_view(out@) =~= prev.push(out@.last()@));
                                    }
                                },
                                None => {},
                            }
                        },
                        None => {
                            let text = direct_text_of(nodes, &node.children);
                            let t = trim_str(text.as_str());
                            if !t.as_str().is_empty() {
                                out.push(ScriptRequest::Inline(t));
                                assert(requests_view(out@) =~= prev.push(out@.last()@));
                            }
                        },
                    }
                }
            },
            _ => {},
        }
        k = k + 1;
    }
    out
}

// ── Fetch budget for external scripts ───────────────────────────────────────

/// At most this many external scripts are fetched per page.
pub const MAX_EXTERNAL_SCRIPTS: usize = 64;

/// A single external script larger than this is skipped.
pub const MAX_SINGLE_SCRIPT_BYTES: usize = 12 * 1024 * 1024;

/// External scripts stop once their bytes would pass this total.
pub const MAX_TOTAL_SCRIPT_BYTES: usize = 32 * 1024 * 1024;

/// What has been spent on external scripts so far.
pub struct ScriptBudget {
    pub external_seen: usize,
    pub total_bytes: usize,
}

/// What to do next with a request or a fetched script.
pub enum ScriptStep {
    /// Run this script text.
    Run(String),
    /// Fetch this URL and report the outcome to `accept_fetched`.
    Fetch(String),
    /// Go on with the next request.
    Skip,
    /// Run nothing more from the remaining requests.
    Stop,
}

/// What a fetch of an external script gave.
pub enum FetchOutcome {
    /// The fetch failed or timed out.
    Failed,
    /// The body: its length in bytes and its text, decoded as lossy UTF-8.
    Fetched { byte_len: usize, text: String },
}

pub open spec fn budget_wf(b: ScriptBudget) -> bool {
    b.external_seen <= MAX_EXTERNAL_SCRIPTS && b.total_bytes <= MAX_TOTAL_SCRIPT_BYTES
}

impl ScriptBudget {
    pub fn new() -> (r: Self)
        ensures
            r.external_seen == 0,
            r.total_bytes == 0,
            budget_wf(r),
    {
        ScriptBudget { external_seen: 0, total_bytes: 0 }
    }

    /// Decides on a request: a non-empty inline script runs, an empty one is
    /// skipped; an external one is fetched while fewer than
    /// `MAX_EXTERNAL_SCRIPTS` were, and skipped after that.
    pub fn plan_request(&mut self, req: ScriptRequest) -> (r: ScriptStep)
        requires
            budget_wf(*old(self)),
        ensures
            budget_wf(*final(self)),
            final(self).total_bytes == old(self).total_bytes,
            match req@ {
                RequestView::Inline(code) => final(self).external_seen == old(self).external_seen && (if code.len()
                    == 0 {
                    r is Skip
                } else {
                    r matches ScriptStep::Run(s) && s@ == code
                }),
                RequestView::External(url) => if old(self).external_seen >= MAX_EXTERNAL_SCRIPTS {
                    r is Skip && final(self).external_seen == old(self).external_seen
                } else {
                    r matches ScriptStep::Fetch(u) && u@ == url && final(self).external_seen
                        == old(self).external_seen + 1
                },
            },
    {
        match req {
            ScriptRequest::Inline(code) => {
                if code.as_str().is_empty() {
                    ScriptStep::Skip
                } else {
                    ScriptStep::Run(code)
                }
            },
            ScriptRequest::External(url) => {
                if self.external_seen >= MAX_EXTERNAL_SCRIPTS {
                    ScriptStep::Skip
                } else {
                    self.external_seen = self.external_seen + 1;
                    ScriptStep::Fetch(url)
                }
            },
        }
    }

    /// Decides on a fetched external script: failures, empty bodies and
    /// bodies over `MAX_SINGLE_SCRIPT_BYTES` are skipped; a body that would
    /// take the total past `MAX_TOTAL_SCRIPT_BYTES` stops the scripts;
    /// otherwise its bytes count and its text runs unless it is blank.
    pub fn accept_fetched(&mut self, outcome: FetchOutcome) -> (r: ScriptStep)
        requires
            budget_wf(*old(self)),
        ensures
            budget_wf(*final(self)),
            final(self).external_seen == old(self).external_seen,
            match outcome {
                FetchOutcome::Failed => r is Skip && final(self).total_bytes == old(self).total_bytes,
                FetchOutcome::Fetched { byte_len, text } => if byte_len == 0 || byte_len
                    > MAX_SINGLE_SCRIPT_BYTES {
                    r is Skip && final(self).total_bytes == old(self).total_bytes
                } else if old(self).total_bytes + byte_len > MAX_TOTAL_SCRIPT_BYTES {
                    r is Stop && final(self).total_bytes == old(self).total_bytes
                } else {
                    final(self).total_bytes == old(self).total_bytes + byte_len && (if trim(text@).len() == 0 {
                        r is Skip
                    } else {
                        r matches ScriptStep::Run(s) && s@ == text@
                    })
                },
            },
    {
        match outcome {
            FetchOutcome::Failed => ScriptStep::Skip,
            FetchOutcome::Fetched { byte_len, text } => {
                if byte_len == 0 || byte_len > MAX_SINGLE_SCRIPT_BYTES {
                    return ScriptStep::Skip;
                }
                if self.total_bytes + byte_len > MAX_TOTAL_SCRIPT_BYTES {
                    return ScriptStep::Stop;
                }
                self.total_bytes = self.total_bytes + byte_len;
                let t = trim_str(text.as_str());
                if t.as_str().is_empty() {
                    ScriptStep::Skip
                } else {
                    ScriptStep::Run(text)
                }
            },
        }
    }
}

} // verus!
