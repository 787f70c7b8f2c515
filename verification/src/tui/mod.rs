//! The terminal front end's state and key handling, and the page content it
//! shows.
use vstd::prelude::*;
use crate::browser::video::{detect_videos, infos_view, page_videos, VideoInfo};
use crate::dom::document::Document;
use crate::dom::forms::Form;
use crate::dom::node::{nodes_view, tag_of, Node, NodeView};
use crate::dom::walker::{inline_script_count, lines_view, links_view, title_spec, walk_document, walked, with_references};
use crate::text::str_eq;
use crate::tui::app::PageContent;

pub mod app;
pub mod events;
pub mod view;

verus! {

/// The index of the first `<body>` in the arena, if any.
pub open spec fn first_body(nodes: Seq<NodeView>) -> Option<int> {
    if exists|i: int| 0 <= i < nodes.len() && tag_of(#[trigger] nodes[i].data) == Some("body"@) {
        Some(
            choose|i: int|
                0 <= i < nodes.len() && tag_of(#[trigger] nodes[i].data) == Some("body"@) && forall|j: int|
                    0 <= j < i ==> tag_of(#[trigger] nodes[j].data) != Some("body"@),
        )
    } else {
        None
    }
}

/// Where the page is walked from: the first `<body>`, else the root.
pub open spec fn walk_start(nodes: Seq<NodeView>) -> usize {
    match first_body(nodes) {
        Some(i) => nodes[i].id,
        None => 0,
    }
}

fn find_body(nodes: &Vec<Node>) -> (r: usize)
    ensures
        r == walk_start(nodes_view(nodes@)),
{
    let ghost nv = nodes_view(nodes@);
    let mut i: usize = 0;
    while i < nodes.len()
        invariant
            nv == nodes_view(nodes@),
            nv.len() == nodes@.len(),
            i <= nodes@.len(),
            forall|j: int| 0 <= j < i ==> tag_of(#[trigger] nv[j].data) != Some("body"@),
        decreases nodes@.len() - i,
    {
        assert(nv[i as int] == nodes@[i as int]@);
        let is_body = match nodes[i].tag_name() {
            Some(t) => str_eq(t, "body"),
            None => false,
        };
        if is_body {
            let ghost k = choose|k: int|
                0 <= k < nv.len() && tag_of(#[trigger] nv[k].data) == Some("body"@) && forall|j: int|
                    0 <= j < k ==> tag_of(#[trigger] nv[j].data) != Some("body"@);
            assert(tag_of(nv[i as int].data) == Some("body"@));
            assert(k == i) by {
                if k < i {
                    assert(tag_of(nv[k].data) != Some("body"@));
                }
                if k > i {
                    assert(tag_of(nv[i as int].data) != Some("body"@));
                }
            }
            return nodes[i].id;
        }
        i = i + 1;
    }
    0
}

/// The page content the front end shows for `url` after loading for
/// `elapsed_ms`: without a page, an `Error` page with status 0; with one,
/// the walk of its document from the first `<body>` (or the root) against
/// `page_url`, status 200, one empty entry per inline script, and the videos found
/// for `page_url`.
pub fn extract_page_content(doc: Option<&Document>, page_url: &str, url: &str, elapsed_ms: u64) -> (r: PageContent)
    ensures
        r.load_time_ms == elapsed_ms,
        r.html@.len() == 0,
        r.forms@.len() == 0,
        match doc {
            None => r.url@ == url@ && r.title@ == "Error"@ && r.status == 0 && r.links@.len() == 0
                && r.scripts@.len() == 0 && r.videos@.len() == 0 && r.rendered_lines@.len() == 0,
            Some(d) => {
                let nv = nodes_view(d.nodes@);
                let w = walked(nv, walk_start(nv), page_url@);
                &&& r.url@ == page_url@
                &&& r.status == 200
                &&& r.title@ == title_spec(nv, page_url@)
                &&& links_view(r.links@) == w.links
                &&& lines_view(r.rendered_lines@) == with_references(w.lines, w.links)
                &&& r.scripts@.len() == inline_script_count(nv)
                &&& forall|i: int| 0 <= i < r.scripts@.len() ==> (#[trigger] r.scripts@[i])@.len() == 0
                &&& infos_view(r.videos@) == page_videos(""@, page_url@)
            },
        },
{
    match doc {
        None => PageContent {
            url: url.to_owned(),
            title: "Error".to_owned(),
            html: String::new(),
            links: Vec::new(),
            scripts: Vec::new(),
            load_time_ms: elapsed_ms,
            status: 0,
            videos: Vec::new(),
            forms: Vec::new(),
            rendered_lines: Vec::new(),
        },
        Some(d) => {
            let body_id = find_body(&d.nodes);
            let result = walk_document(d.nodes.as_slice(), body_id, page_url);
            let mut scripts: Vec<String> = Vec::new();
            let mut i: usize = 0;
            while i < result.script_count
                invariant
                    i <= result.script_count,
                    scripts@.len() == i,
                    forall|j: int| 0 <= j < i ==> (#[trigger] scripts@[j])@.len() == 0,
                decreases result.script_count - i,
            {
                scripts.push(String::new());
                i = i + 1;
            }
            let videos: Vec<VideoInfo> = detect_videos("", page_url);
            let forms: Vec<Form> = Vec::new();
            PageContent {
                url: page_url.to_owned(),
                title: result.title,
                html: String::new(),
                links: result.links,
                scripts,
                load_time_ms: elapsed_ms,
                status: 200,
                videos,
                forms,
                rendered_lines: result.lines,
            }
        },
    }
}

} // verus!
