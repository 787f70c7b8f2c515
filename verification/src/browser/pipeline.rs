//! The navigation pipeline: the stages a request goes through, what each
//! stage decides, and which stages a configuration yields.
use vstd::prelude::*;
use crate::bitfox::js_hooks::HookVerdict;
use crate::bitfox::{bitfox_inspect, inspect, BitFoxContext, BitFoxDecision};
use crate::browser::spa::{
    hydrate_from_scripts_checked, hydrate_safe, hydrate_spec, inject_spec, inject_youtube_search_ui, is_shell,
    is_spa_shell, is_youtube_url, rewrite_youtube_watch_fallback, strip_external_resources, stripped_upto,
    unlink_all, watch_fallback, YOUTUBE_SEARCH_HTML,
};
use crate::dom::document::{
    append_spec, create_spec, doc_wf, element_data, find_tag, xhtml_ns, DocView, Document,
};
use crate::dom::node::{AttrView, Attribute, DataView, NodeData};
use crate::dom::parser::{parsed_doc, HtmlParser};
use crate::dom::serializer::{ser, DomSerializer};
use crate::error::{BrowserError, BrowserResult};
use crate::text::{
    ascii_lower, ascii_lower_str, decimal, decimal_string, ends_with, starts_with, str_ends_with, str_starts_with,
    trim, trim_str,
};
use crate::urls::{parse_url, url_parse};

verus! {

/// What a stage tells the pipeline.
pub enum StageResult {
    Continue,
    Complete(String),
    Block { reason: String },
}

/// The state a request carries through the stages.
pub struct PipelineContext {
    pub url: String,
    pub raw_html: Option<String>,
    pub document: Option<Document>,
    pub final_content: Option<String>,
}

impl PipelineContext {
    pub fn new(url: String) -> (r: Self)
        ensures
            r.url@ == url@,
            r.raw_html is None,
            r.document is None,
            r.final_content is None,
    {
        PipelineContext { url, raw_html: None, document: None, final_content: None }
    }
}

// ── URL normalization ───────────────────────────────────────────────────────

/// A scheme written without its `:` or with one slash gets its `://`.
pub open spec fn fix_scheme(url: Seq<char>) -> Seq<char> {
    let lower = ascii_lower(url);
    if starts_with(lower, "https//"@) {
        "https://"@ + url.skip(7)
    } else if starts_with(lower, "https:/"@) && !starts_with(lower, "https://"@) {
        "https://"@ + url.skip(7)
    } else if starts_with(lower, "http//"@) {
        "http://"@ + url.skip(6)
    } else if starts_with(lower, "http:/"@) && !starts_with(lower, "http://"@) {
        "http://"@ + url.skip(6)
    } else {
        url
    }
}

/// A scheme written twice is kept once.
pub open spec fn undouble(url: Seq<char>) -> Seq<char> {
    let lower = ascii_lower(url);
    if starts_with(lower, "https://https://"@) {
        "https://"@ + url.skip(16)
    } else if starts_with(lower, "http://http://"@) {
        "http://"@ + url.skip(14)
    } else {
        url
    }
}

/// Anything not starting with `http://` or `https://` is taken as https.
pub open spec fn with_scheme(url: Seq<char>) -> Seq<char> {
    if starts_with(url, "http://"@) || starts_with(url, "https://"@) {
        url
    } else {
        "https://"@ + url
    }
}

/// The text of a typed address after trimming and the scheme repairs.
pub open spec fn normalized_text(url: Seq<char>) -> Seq<char> {
    with_scheme(undouble(fix_scheme(trim(url))))
}

fn replace_prefix(s: &str, n: usize, prefix: &str) -> (r: String)
    requires
        n <= s@.len(),
    ensures
        r@ == prefix@ + s@.skip(n as int),
{
    let cs = crate::text::chars_of(s);
    let mut out = prefix.to_owned();
    crate::text::append_range(&mut out, cs.as_slice(), n, cs.len());
    assert(cs@.subrange(n as int, cs@.len() as int) =~= s@.skip(n as int));
    out
}

/// The normalized form of a typed address: trimmed, its scheme repaired and
/// defaulted to https, then parsed and written back by the URL parser. An
/// address that does not parse is an error.
pub fn normalize_url(url: &str) -> (r: BrowserResult<String>)
    ensures
        match url_parse(normalized_text(url@)) {
            Some(u) => r matches Ok(s) && s@ == u.href,
            None => r matches Err(BrowserError::UrlParse(_)),
        },
{
    proof {
        reveal_strlit("https//");
        reveal_strlit("https:/");
        reveal_strlit("http//");
        reveal_strlit("http:/");
        reveal_strlit("https://https://");
        reveal_strlit("http://http://");
    }
    let t = trim_str(url);
    let lower = ascii_lower_str(t.as_str());
    let l = lower.as_str();
    let u1 = if str_starts_with(l, "https//") {
        replace_prefix(t.as_str(), 7, "https://")
    } else if str_starts_with(l, "https:/") && !str_starts_with(l, "https://") {
        replace_prefix(t.as_str(), 7, "https://")
    } else if str_starts_with(l, "http//") {
        replace_prefix(t.as_str(), 6, "http://")
    } else if str_starts_with(l, "http:/") && !str_starts_with(l, "http://") {
        replace_prefix(t.as_str(), 6, "http://")
    } else {
        t
    };
    assert(u1@ == fix_scheme(trim(url@)));
    let lower2 = ascii_lower_str(u1.as_str());
    let l2 = lower2.as_str();
    let u2 = if str_starts_with(l2, "https://https://") {
        replace_prefix(u1.as_str(), 16, "https://")
    } else if str_starts_with(l2, "http://http://") {
        replace_prefix(u1.as_str(), 14, "http://")
    } else {
        u1
    };
    assert(u2@ == undouble(fix_scheme(trim(url@))));
    let u3 = if str_starts_with(u2.as_str(), "http://") || str_starts_with(u2.as_str(), "https://") {
        u2
    } else {
        let mut s = "https://".to_owned();
        s.append(u2.as_str());
        s
    };
    assert(u3@ == normalized_text(url@));
    match parse_url(u3.as_str()) {
        Ok(p) => Ok(p.href),
        Err(e) => Err(BrowserError::UrlParse(e)),
    }
}

// ── Stages ──────────────────────────────────────────────────────────────────

pub struct NormalizeUrlStage;

pub struct JsSecurityStage;

pub struct ParseHtmlStage {
    pub parser: HtmlParser,
}

pub struct BitFoxStage;

pub struct YoutubeHydrateStage;

pub struct SerializeStage;

impl NormalizeUrlStage {
    /// Replaces the context's URL by its normalized form; see
    /// `normalize_url`.
    pub fn process(&self, ctx: &mut PipelineContext) -> (r: BrowserResult<StageResult>)
        ensures
            match url_parse(normalized_text(old(ctx).url@)) {
                Some(u) => r matches Ok(StageResult::Continue) && final(ctx).url@ == u.href,
                None => r matches Err(BrowserError::UrlParse(_)) && final(ctx).url@ == old(ctx).url@,
            },
            final(ctx).raw_html == old(ctx).raw_html,
            final(ctx).final_content == old(ctx).final_content,
    {
        match normalize_url(ctx.url.as_str()) {
            Ok(u) => {
                ctx.url = u;
                Ok(StageResult::Continue)
            },
            Err(e) => Err(e),
        }
    }
}

impl JsSecurityStage {
    /// Follows the decision of the URL hooks: a block stops the request
    /// with its reason, a new address becomes the URL, an allow lets the
    /// request go on.
    pub fn apply_verdict(&self, ctx: &mut PipelineContext, verdict: HookVerdict) -> (r: StageResult)
        ensures
            match verdict {
                HookVerdict::Allow => r is Continue && final(ctx).url == old(ctx).url,
                HookVerdict::Block { reason } => (r matches StageResult::Block { reason: x } && x@ == reason@)
                    && final(ctx).url == old(ctx).url,
                HookVerdict::Rewrite(u) => r is Continue && final(ctx).url@ == u@,
            },
            final(ctx).raw_html == old(ctx).raw_html,
            final(ctx).final_content == old(ctx).final_content,
    {
        match verdict {
            HookVerdict::Allow => StageResult::Continue,
            HookVerdict::Block { reason } => StageResult::Block { reason },
            HookVerdict::Rewrite(u) => {
                ctx.url = u;
                StageResult::Continue
            },
        }
    }
}

impl BitFoxStage {
    /// Inspects the context's URL as an HTML request made at `timestamp` in
    /// session `session_id`; a URL that BitFox blocks stops the request.
    pub fn process(&self, ctx: &PipelineContext, timestamp: i64, session_id: String) -> (r: StageResult)
        ensures
            if inspect(ctx.url@) == BitFoxDecision::Block {
                r matches StageResult::Block { reason } && reason@ == "BitFox blocked this URL"@
            } else {
                r is Continue
            },
    {
        let bfctx = BitFoxContext {
            request_url: ctx.url.clone(),
            content_type: "text/html".to_owned(),
            origin_signature: None,
            payload_hash: String::new(),
            timestamp,
            session_id,
        };
        match bitfox_inspect(bfctx) {
            BitFoxDecision::Block => StageResult::Block { reason: "BitFox blocked this URL".to_owned() },
            _ => StageResult::Continue,
        }
    }
}

pub open spec fn raw_or_empty(raw: Option<String>) -> Seq<char> {
    match raw {
        Some(s) => s@,
        None => Seq::empty(),
    }
}

impl ParseHtmlStage {
    /// Parses the fetched page (nothing when none was fetched) into the
    /// context's document.
    pub fn process(&self, ctx: &mut PipelineContext) -> (r: BrowserResult<StageResult>)
        ensures
            r matches Ok(StageResult::Continue),
            final(ctx).document matches Some(d) && d@ == parsed_doc(raw_or_empty(old(ctx).raw_html), old(ctx).url@)
                && doc_wf(d@),
            final(ctx).url == old(ctx).url,
            final(ctx).raw_html == old(ctx).raw_html,
            final(ctx).final_content == old(ctx).final_content,
    {
        proof {
            reveal_strlit("");
        }
        let html = match &ctx.raw_html {
            Some(h) => h.as_str(),
            None => "",
        };
        assert(html@ == raw_or_empty(ctx.raw_html));
        match self.parser.parse(html, ctx.url.as_str()) {
            Ok(doc) => {
                ctx.document = Some(doc);
                Ok(StageResult::Continue)
            },
            Err(e) => Err(e),
        }
    }
}

/// The host of the URL, when it parses and has one.
pub open spec fn host_of(url: Seq<char>) -> Seq<char> {
    match url_parse(url) {
        Some(u) => match u.host {
            Some(h) => h,
            None => Seq::empty(),
        },
        None => Seq::empty(),
    }
}

/// What the YouTube stage does to a document: a watch page is replaced by
/// its fallback; otherwise an application shell is rendered from its page
/// data, or given the search form when that fails; either way its scripts and
/// stylesheets are detached after.
pub open spec fn youtube_stage_doc(d: DocView, raw: Seq<char>, url: Seq<char>) -> DocView {
    match watch_fallback(d, raw, url) {
        Some(d2) => unlink_all(d2, stripped_upto(d2.nodes, d2.nodes.len())),
        None => if is_shell(d) {
            let d2 = match hydrate_spec(d, raw) {
                Some(h) => h,
                None => if is_youtube_url(url) {
                    match find_tag(d, "body"@) {
                        Some(b) => inject_spec(d, b, YOUTUBE_SEARCH_HTML@),
                        None => d,
                    }
                } else {
                    d
                },
            };
            unlink_all(d2, stripped_upto(d2.nodes, d2.nodes.len()))
        } else {
            d
        },
    }
}

impl YoutubeHydrateStage {
    /// On YouTube hosts, renders what the page's scripts would have; see
    /// `youtube_stage_doc`. Other pages and contexts without a document are
    /// left alone. Where rendering the page data would cut a string inside a
    /// character, the request fails with a parse error and the document is
    /// left as the fallback check found it.
    pub fn process(&self, ctx: &mut PipelineContext) -> (r: BrowserResult<StageResult>)
        requires
            old(ctx).document matches Some(d) ==> doc_wf(d@),
        ensures
            final(ctx).url == old(ctx).url,
            final(ctx).raw_html == old(ctx).raw_html,
            final(ctx).final_content == old(ctx).final_content,
            final(ctx).document matches Some(d) ==> doc_wf(d@),
            match old(ctx).document {
                None => r matches Ok(StageResult::Continue) && final(ctx).document is None,
                Some(d0) => {
                    let h = host_of(old(ctx).url@);
                    let raw = raw_or_empty(old(ctx).raw_html);
                    if !(ends_with(h, "youtube.com"@) || ends_with(h, "youtu.be"@)) {
                        r matches Ok(StageResult::Continue) && final(ctx).document matches Some(d)
                            && d@ == d0@
                    } else if watch_fallback(d0@, raw, old(ctx).url@) is None && is_shell(d0@)
                        && !hydrate_safe(d0@, raw) {
                        r matches Err(BrowserError::Parse(_)) && final(ctx).document matches Some(d) && d@ == d0@
                    } else {
                        r matches Ok(StageResult::Continue) && final(ctx).document matches Some(d) && d@
                            == youtube_stage_doc(d0@, raw, old(ctx).url@)
                    }
                },
            },
    {
        proof {
            reveal_strlit("");
        }
        let host = match parse_url(ctx.url.as_str()) {
            Ok(u) => match u.host {
                Some(h) => h,
                None => String::new(),
            },
            Err(_) => String::new(),
        };
        let is_youtube = str_ends_with(host.as_str(), "youtube.com") || str_ends_with(host.as_str(), "youtu.be");
        let url = ctx.url.clone();
        let raw: String = match &ctx.raw_html {
            Some(h) => h.clone(),
            None => String::new(),
        };
        assert(raw@ == raw_or_empty(ctx.raw_html));
        match ctx.document.take() {
            None => Ok(StageResult::Continue),
            Some(mut doc) => {
                if !is_youtube {
                    ctx.document = Some(doc);
                    return Ok(StageResult::Continue);
                }
                if rewrite_youtube_watch_fallback(&mut doc, raw.as_str(), url.as_str()) {
                    strip_external_resources(&mut doc);
                    ctx.document = Some(doc);
                    return Ok(StageResult::Continue);
                }
                if is_spa_shell(&doc) {
                    match hydrate_from_scripts_checked(&mut doc, raw.as_str()) {
                        Some(done) => {
                            if !done {
                                inject_youtube_search_ui(&mut doc, url.as_str());
                            }
                        },
                        None => {
                            ctx.document = Some(doc);
                            return Err(
                                BrowserError::Parse("page data holds text that cannot be cut at 200 bytes".to_owned()),
                            );
                        },
                    }
                    strip_external_resources(&mut doc);
                }
                ctx.document = Some(doc);
                Ok(StageResult::Continue)
            },
        }
    }
}

// ── Serialization and the engine badge ──────────────────────────────────────

/// The badge's CSS.
pub const BADGE_STYLE: &'static str = "position:fixed;bottom:8px;right:8px;z-index:2147483647;background:#000080;color:#fff;font-family:'MS Sans Serif',Arial,sans-serif;font-size:11px;padding:4px 10px;border:2px solid #fff;box-shadow:2px 2px 0 #000;pointer-events:none;    ";

/// The badge's text: node count and host (the URL itself when it does not
/// parse or has no host).
pub open spec fn badge_text(count: nat, url: Seq<char>) -> Seq<char> {
    let host = match url_parse(url) {
        Some(u) => match u.host {
            Some(h) => h,
            None => url,
        },
        None => url,
    };
    "Bose \u{2713} | "@ + decimal(count) + " nodes | "@ + host
}

/// The document with a `<style>` and a `<div id="az-engine-badge">` appended
/// to the body; unchanged without a body.
pub open spec fn badge_spec(d: DocView, url: Seq<char>) -> DocView {
    match find_tag(d, "body"@) {
        None => d,
        Some(body) => {
            let (d1, style) = create_spec(d, element_data("style"@, Seq::empty()));
            let (d2, style_text) = create_spec(
                d1,
                DataView::Text { content: "#az-engine-badge{"@ + BADGE_STYLE@ + "}"@ },
            );
            let d3 = append_spec(d2, style, style_text);
            let (d4, div) = create_spec(
                d3,
                element_data(
                    "div"@,
                    seq![
                        AttrView { name: "id"@, value: "az-engine-badge"@ },
                        AttrView { name: "style"@, value: BADGE_STYLE@ },
                    ],
                ),
            );
            let (d5, text) = create_spec(d4, DataView::Text { content: badge_text(d.nodes.len(), url) });
            let d6 = append_spec(d5, div, text);
            append_spec(append_spec(d6, body, style), body, div)
        },
    }
}

/// Appends the engine badge to the body; see `badge_spec`.
pub fn inject_engine_badge(doc: &mut Document, url: &str)
    requires
        doc_wf(old(doc)@),
    ensures
        doc_wf(final(doc)@),
        final(doc)@ == badge_spec(old(doc)@, url@),
{
    let node_count = doc.nodes.len();
    let host = match parse_url(url) {
        Ok(u) => match u.host {
            Some(h) => h,
            None => url.to_owned(),
        },
        Err(_) => url.to_owned(),
    };
    let body_id = match doc.find_element("body") {
        Some(id) => id,
        None => return,
    };
    let mut text = "Bose \u{2713} | ".to_owned();
    let n = decimal_string(node_count as u128);
    text.append(n.as_str());
    text.append(" nodes | ");
    text.append(host.as_str());
    let no_attrs: Vec<Attribute> = Vec::new();
    assert(crate::dom::node::attrs_view(no_attrs@) =~= Seq::<AttrView>::empty());
    let style_id = doc.create_node(
        NodeData::Element { tag_name: "style".to_owned(), namespace: "http://www.w3.org/1999/xhtml".to_owned(), attrs: no_attrs },
    );
    let mut css = "#az-engine-badge{".to_owned();
    css.append(BADGE_STYLE);
    css.append("}");
    let style_text_id = doc.create_node(NodeData::Text { content: css });
    doc.append_child(style_id, style_text_id);
    let mut attrs: Vec<Attribute> = Vec::new();
    attrs.push(Attribute { name: "id".to_owned(), value: "az-engine-badge".to_owned() });
    attrs.push(Attribute { name: "style".to_owned(), value: BADGE_STYLE.to_owned() });
    assert(crate::dom::node::attrs_view(attrs@) =~= seq![
        AttrView { name: "id"@, value: "az-engine-badge"@ },
        AttrView { name: "style"@, value: BADGE_STYLE@ },
    ]);
    let div_id = doc.create_node(
        NodeData::Element { tag_name: "div".to_owned(), namespace: "http://www.w3.org/1999/xhtml".to_owned(), attrs },
    );
    let text_id = doc.create_node(NodeData::Text { content: text });
    doc.append_child(div_id, text_id);
    doc.append_child(body_id, style_id);
    doc.append_child(body_id, div_id);
}

/// The page text the serialize stage produces, before the response hooks:
/// the document with the badge serialized, or the fetched text as it is.
pub open spec fn page_output(doc: Option<DocView>, raw: Seq<char>, url: Seq<char>) -> Seq<char> {
    match doc {
        Some(d) => {
            let b = badge_spec(d, url);
            ser(b.nodes, 0, b.nodes.len())
        },
        None => raw,
    }
}

pub open spec fn opt_doc_view(d: Option<Document>) -> Option<DocView> {
    match d {
        Some(x) => Some(x@),
        None => None,
    }
}

impl SerializeStage {
    /// The page text; see `page_output`. The document gets the badge.
    pub fn render(&self, ctx: &mut PipelineContext) -> (r: String)
        requires
            old(ctx).document matches Some(d) ==> doc_wf(d@),
        ensures
            r@ == page_output(opt_doc_view(old(ctx).document), raw_or_empty(old(ctx).raw_html), old(ctx).url@),
            final(ctx).url == old(ctx).url,
            final(ctx).raw_html == old(ctx).raw_html,
            final(ctx).final_content == old(ctx).final_content,
            match old(ctx).document {
                Some(d) => final(ctx).document matches Some(d2) && d2@ == badge_spec(d@, old(ctx).url@),
                None => final(ctx).document is None,
            },
    {
        proof {
            reveal_strlit("");
        }
        let url = ctx.url.clone();
        match ctx.document.take() {
            Some(mut doc) => {
                inject_engine_badge(&mut doc, url.as_str());
                let out = match DomSerializer::serialize(&doc) {
                    Ok(s) => s,
                    Err(_) => String::new(),
                };
                ctx.document = Some(doc);
                out
            },
            None => match &ctx.raw_html {
                Some(h) => h.clone(),
                None => String::new(),
            },
        }
    }

    /// Records the final page text (after the response hooks) and completes
    /// the request with it.
    pub fn complete(&self, ctx: &mut PipelineContext, html: String) -> (r: StageResult)
        ensures
            final(ctx).final_content matches Some(c) && c@ == html@,
            r matches StageResult::Complete(s) && s@ == html@,
            final(ctx).url == old(ctx).url,
            final(ctx).raw_html == old(ctx).raw_html,
    {
        ctx.final_content = Some(html.clone());
        StageResult::Complete(html)
    }
}

// ── Configuration ───────────────────────────────────────────────────────────

/// The stages a request runs through, by name, in order.
pub struct PipelineConfig {
    pub stages: Vec<String>,
}

pub open spec fn default_stage_names() -> Seq<Seq<char>> {
    seq![
        "NormalizeUrl"@,
        "JsSecurity"@,
        "BitFox"@,
        "HttpFetch"@,
        "ParseHtml"@,
        "YoutubeHydrate"@,
        "Serialize"@,
    ]
}

impl Default for PipelineConfig {
    fn default() -> (r: Self)
        ensures
            r.stages@.map_values(|s: String| s@) == default_stage_names(),
    {
        let mut stages: Vec<String> = Vec::new();
        stages.push("NormalizeUrl".to_owned());
        stages.push("JsSecurity".to_owned());
        stages.push("BitFox".to_owned());
        stages.push("HttpFetch".to_owned());
        stages.push("ParseHtml".to_owned());
        stages.push("YoutubeHydrate".to_owned());
        stages.push("Serialize".to_owned());
        assert(stages@.map_values(|s: String| s@) =~= default_stage_names());
        PipelineConfig { stages }
    }
}

#[derive(Debug, Clone, Copy, PartialEq, Eq, Structural)]
pub enum StageKind {
    NormalizeUrl,
    JsSecurity,
    BitFox,
    HttpFetch,
    ParseHtml,
    YoutubeHydrate,
    Serialize,
}

pub open spec fn stage_of(name: Seq<char>) -> Option<StageKind> {
    if name == "NormalizeUrl"@ {
        Some(StageKind::NormalizeUrl)
    } else if name == "JsSecurity"@ {
        Some(StageKind::JsSecurity)
    } else if name == "BitFox"@ {
        Some(StageKind::BitFox)
    } else if name == "HttpFetch"@ {
        Some(StageKind::HttpFetch)
    } else if name == "ParseHtml"@ {
        Some(StageKind::ParseHtml)
    } else if name == "YoutubeHydrate"@ {
        Some(StageKind::YoutubeHydrate)
    } else if name == "Serialize"@ {
        Some(StageKind::Serialize)
    } else {
        None
    }
}

/// The stages of the first `k` names: unknown names are skipped and a fetch
/// or parse stage named again is not added twice.
pub open spec fn planned(names: Seq<Seq<char>>) -> Seq<StageKind>
    decreases names.len(),
{
    if names.len() == 0 {
        Seq::empty()
    } else {
        let prev = planned(names.drop_last());
        match stage_of(names.last()) {
            Some(k) => if (k == StageKind::HttpFetch || k == StageKind::ParseHtml) && prev.contains(k) {
                prev
            } else {
                prev.push(k)
            },
            None => prev,
        }
    }
}

/// The configured stages, followed by a fetch, a parse and a serialize stage
/// when the configuration lacks them.
pub open spec fn stage_plan(names: Seq<Seq<char>>) -> Seq<StageKind> {
    let p = planned(names);
    let p1 = if p.contains(StageKind::HttpFetch) {
        p
    } else {
        p.push(StageKind::HttpFetch)
    };
    let p2 = if p1.contains(StageKind::ParseHtml) {
        p1
    } else {
        p1.push(StageKind::ParseHtml)
    };
    if p2.contains(StageKind::Serialize) {
        p2
    } else {
        p2.push(StageKind::Serialize)
    }
}

fn has_kind(v: &Vec<StageKind>, k: StageKind) -> (r: bool)
    ensures
        r == v@.contains(k),
{
    let mut i: usize = 0;
    while i < v.len()
        invariant
            i <= v@.len(),
            forall|j: int| 0 <= j < i ==> v@[j] != k,
        decreases v@.len() - i,
    {
        if v[i] == k {
            assert(v@[i as int] == k);
            return true;
        }
        i = i + 1;
    }
    false
}

fn stage_of_exec(name: &str) -> (r: Option<StageKind>)
    ensures
        r == stage_of(name@),
{
    if crate::text::str_eq(name, "NormalizeUrl") {
        Some(StageKind::NormalizeUrl)
    } else if crate::text::str_eq(name, "JsSecurity") {
        Some(StageKind::JsSecurity)
    } else if crate::text::str_eq(name, "BitFox") {
        Some(StageKind::BitFox)
    } else if crate::text::str_eq(name, "HttpFetch") {
        Some(StageKind::HttpFetch)
    } else if crate::text::str_eq(name, "ParseHtml") {
        Some(StageKind::ParseHtml)
    } else if crate::text::str_eq(name, "YoutubeHydrate") {
        Some(StageKind::YoutubeHydrate)
    } else if crate::text::str_eq(name, "Serialize") {
        Some(StageKind::Serialize)
    } else {
        None
    }
}

/// The stages a configuration yields; see `stage_plan`.
pub fn build_stages(cfg: &PipelineConfig) -> (r: Vec<StageKind>)
    ensures
        r@ == stage_plan(cfg.stages@.map_values(|s: String| s@)),
{
    let ghost names = cfg.stages@.map_values(|s: String| s@);
    let mut out: Vec<StageKind> = Vec::new();
    let mut i: usize = 0;
    assert(names.take(0) =~= Seq::<Seq<char>>::empty());
    while i < cfg.stages.len()
        invariant
            i <= cfg.stages@.len(),
            names == cfg.stages@.map_values(|s: String| s@),
            out@ == planned(names.take(i as int)),
        decreases cfg.stages@.len() - i,
    {
        let ghost t = names.take(i + 1);
        assert(t.drop_last() =~= names.take(i as int));
        assert(t.last() == cfg.stages@[i as int]@);
        match stage_of_exec(cfg.stages[i].as_str()) {
            Some(k) => {
                if (k == StageKind::HttpFetch || k == StageKind::ParseHtml) && has_kind(&out, k) {
                } else {
                    out.push(k);
                }
            },
            None => {},
        }
        i = i + 1;
    }
    assert(names.take(cfg.stages@.len() as int) =~= names);
    if !has_kind(&out, StageKind::HttpFetch) {
        out.push(StageKind::HttpFetch);
    }
    if !has_kind(&out, StageKind::ParseHtml) {
        out.push(StageKind::ParseHtml);
    }
    if !has_kind(&out, StageKind::Serialize) {
        out.push(StageKind::Serialize);
    }
    out
}

/// What the pipeline does after a stage: go on, finish with the page, or
/// fail the navigation with the block reason.
pub enum StageFlow {
    Next,
    Done(String),
    Fail(BrowserError),
}

pub fn after_stage(result: StageResult) -> (r: StageFlow)
    ensures
        match result {
            StageResult::Continue => r is Next,
            StageResult::Complete(h) => r matches StageFlow::Done(x) && x@ == h@,
            StageResult::Block { reason } => r matches StageFlow::Fail(BrowserError::Navigation(x)) && x@
                == reason@,
        },
{
    match result {
        StageResult::Continue => StageFlow::Next,
        StageResult::Complete(h) => StageFlow::Done(h),
        StageResult::Block { reason } => StageFlow::Fail(BrowserError::Navigation(reason)),
    }
}

/// The page when every stage went on without completing: the recorded final
/// content, or a navigation error.
pub fn no_stage_completed(ctx: &PipelineContext) -> (r: BrowserResult<String>)
    ensures
        match ctx.final_content {
            Some(c) => r matches Ok(s) && s@ == c@,
            None => r matches Err(BrowserError::Navigation(m)) && m@ == "Pipeline: no output"@,
        },
{
    match &ctx.final_content {
        Some(c) => Ok(c.clone()),
        None => Err(BrowserError::Navigation("Pipeline: no output".to_owned())),
    }
}

} // verus!
