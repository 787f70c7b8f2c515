//! What the terminal browser shows and remembers: mode, page, links,
//! history, and the status line.
use vstd::prelude::*;
use crate::browser::video::VideoInfo;
use crate::dom::forms::Form;
use crate::dom::walker::{links_view, Link, LinkView, RichLine};
use crate::text::{contains_seq, decimal, decimal_string, str_contains, str_eq};

verus! {

#[derive(Debug, Clone, Copy, PartialEq, Eq, Structural)]
pub enum AppMode {
    NewTab,
    Loading,
    Page,
    Input,
}

#[derive(Debug, Clone, Copy, PartialEq, Eq, Structural)]
pub enum ViewMode {
    Terminal,
    PageView,
}

/// A loaded page as the front end keeps it.
pub struct PageContent {
    pub url: String,
    pub title: String,
    pub html: String,
    pub links: Vec<Link>,
    pub scripts: Vec<String>,
    pub load_time_ms: u64,
    pub status: u16,
    pub videos: Vec<VideoInfo>,
    pub forms: Vec<Form>,
    /// Inline-rendered lines, ready for the terminal renderer.
    pub rendered_lines: Vec<RichLine>,
}

pub struct App {
    pub mode: AppMode,
    pub view_mode: ViewMode,
    pub url_input: String,
    pub search_input: String,
    pub current_page: Option<PageContent>,
    pub scroll_offset: u16,
    pub selected_link: Option<usize>,
    pub links: Vec<Link>,
    pub status_text: String,
    pub complexity: u8,
    pub history: Vec<String>,
    pub history_idx: usize,
    pub bookmarks: Vec<(&'static str, &'static str)>,
    pub selected_bm: usize,
    pub should_quit: bool,
    pub bitfox_status: String,
    pub dom_nodes: u32,
    pub script_count: u32,
    pub loading_url: Option<String>,
}

/// Every field of `b` but the link selection and the status line is as in
/// `a`.
pub open spec fn same_but_selection(a: App, b: App) -> bool {
    &&& b.mode == a.mode
    &&& b.view_mode == a.view_mode
    &&& b.url_input == a.url_input
    &&& b.search_input == a.search_input
    &&& b.current_page == a.current_page
    &&& b.scroll_offset == a.scroll_offset
    &&& b.links == a.links
    &&& b.complexity == a.complexity
    &&& b.history == a.history
    &&& b.history_idx == a.history_idx
    &&& b.bookmarks == a.bookmarks
    &&& b.selected_bm == a.selected_bm
    &&& b.should_quit == a.should_quit
    &&& b.bitfox_status == a.bitfox_status
    &&& b.dom_nodes == a.dom_nodes
    &&& b.script_count == a.script_count
    &&& b.loading_url == a.loading_url
}

pub open spec fn strings_view(v: Seq<String>) -> Seq<Seq<char>> {
    v.map_values(|s: String| s@)
}

/// The history after visiting `url`: entries after the current one are
/// dropped, `url` is added unless it is already the last entry, and the
/// current entry becomes the last one.
pub open spec fn pushed_history(h: Seq<Seq<char>>, idx: int, url: Seq<char>) -> (Seq<Seq<char>>, int) {
    let t = if idx + 1 < h.len() {
        h.take(idx + 1)
    } else {
        h
    };
    let t2 = if t.len() > 0 && t.last() == url {
        t
    } else {
        t.push(url)
    };
    (t2, t2.len() - 1)
}

/// A score of how much script a page carries, from 0 to 8.
pub open spec fn complexity_of(scripts: nat, links: nat, html: Seq<char>) -> u8 {
    let s = (if scripts > 20 {
        3int
    } else if scripts > 10 {
        2int
    } else {
        0int
    }) + (if links > 100 {
        1int
    } else {
        0int
    }) + (if contains_seq(html, "react"@) || contains_seq(html, "angular"@) || contains_seq(html, "vue"@) {
        2int
    } else {
        0int
    });
    if s > 8 {
        8
    } else {
        s as u8
    }
}

/// Loading a page other than the one shown, from any point in the history,
/// drops the pages ahead of it, puts the new page last and current, and
/// leaves the page that was shown one step back.
pub proof fn lemma_back_returns_to_previous(h: Seq<Seq<char>>, idx: int, url: Seq<char>)
    requires
        0 <= idx < h.len(),
        h[idx] != url,
    ensures
        ({
            let (h2, i2) = pushed_history(h, idx, url);
            &&& i2 == idx + 1
            &&& h2.len() == idx + 2
            &&& h2[i2] == url
            &&& h2[i2 - 1] == h[idx]
            &&& h2.take(idx + 1) == h.take(idx + 1)
        }),
{
    let (h2, i2) = pushed_history(h, idx, url);
    assert(h2.take(idx + 1) =~= h.take(idx + 1));
}

pub open spec fn link_status(href: Seq<char>) -> Seq<char> {
    "Link: "@ + href
}

fn record_visit(history: &mut Vec<String>, idx: &mut usize, url: &str)
    requires
        *old(idx) < usize::MAX,
    ensures
        (strings_view(final(history)@), *final(idx) as int) == pushed_history(
            strings_view(old(history)@),
            *old(idx) as int,
            url@,
        ),
{
    let ghost h0 = strings_view(history@);
    history.truncate(*idx + 1);
    assert(strings_view(history@) =~= (if *idx + 1 < h0.len() {
        h0.take(*idx + 1)
    } else {
        h0
    }));
    let ghost t = strings_view(history@);
    let n = history.len();
    let same = n > 0 && str_eq(history[n - 1].as_str(), url);
    if !same {
        history.push(url.to_owned());
        assert(strings_view(history@) =~= t.push(url@));
    }
    *idx = history.len() - 1;
}

impl App {
    pub fn new() -> (r: Self)
        ensures
            r.mode == AppMode::NewTab,
            r.view_mode == ViewMode::Terminal,
            r.url_input@ == Seq::<char>::empty(),
            r.search_input@ == Seq::<char>::empty(),
            r.current_page is None,
            r.scroll_offset == 0,
            r.selected_link is None,
            r.links@.len() == 0,
            r.status_text@ == "Ready — type to search, Enter to go"@,
            r.complexity == 0,
            r.history@.len() == 0,
            r.history_idx == 0,
            r.bookmarks@.len() == 7,
            r.selected_bm == 0,
            !r.should_quit,
            r.bitfox_status@ == "engine"@,
            r.dom_nodes == 0,
            r.script_count == 0,
            r.loading_url is None,
    {
        let mut bookmarks: Vec<(&'static str, &'static str)> = Vec::new();
        bookmarks.push(("Search", "https://search.brave.com"));
        bookmarks.push(("GitHub", "https://github.com"));
        bookmarks.push(("Wikipedia", "https://wikipedia.org"));
        bookmarks.push(("HN", "https://news.ycombinator.com"));
        bookmarks.push(("YouTube", "https://youtube.com"));
        bookmarks.push(("Reddit", "https://reddit.com"));
        bookmarks.push(("Maps", "https://maps.google.com"));
        App {
            mode: AppMode::NewTab,
            view_mode: ViewMode::Terminal,
            url_input: String::new(),
            search_input: String::new(),
            current_page: None,
            scroll_offset: 0,
            selected_link: None,
            links: Vec::new(),
            status_text: "Ready — type to search, Enter to go".to_owned(),
            complexity: 0,
            history: Vec::new(),
            history_idx: 0,
            bookmarks,
            selected_bm: 0,
            should_quit: false,
            bitfox_status: "engine".to_owned(),
            dom_nodes: 0,
            script_count: 0,
            loading_url: None,
        }
    }

    fn update_status_from_link(&mut self)
        ensures
            final(self).selected_link == old(self).selected_link,
            same_but_selection(*old(self), *final(self)),
            match old(self).selected_link {
                Some(i) => if i < old(self).links@.len() {
                    final(self).status_text@ == link_status(old(self).links@[i as int].href@)
                } else {
                    final(self).status_text == old(self).status_text
                },
                None => final(self).status_text == old(self).status_text,
            },
    {
        match self.selected_link {
            Some(idx) => {
                if idx < self.links.len() {
                    let mut s = "Link: ".to_owned();
                    s.append(self.links[idx].href.as_str());
                    self.status_text = s;
                }
            },
            None => {},
        }
    }

    /// Selects the next link, wrapping to the first; the status line shows
    /// its target. Without links nothing changes.
    pub fn next_link(&mut self)
        requires
            old(self).selected_link != Some(usize::MAX),
        ensures
            old(self).links@.len() == 0 ==> final(self).selected_link == old(self).selected_link
                && final(self).status_text == old(self).status_text,
            old(self).links@.len() > 0 ==> final(self).selected_link == Some(
                match old(self).selected_link {
                    None => 0usize,
                    Some(i) => ((i + 1) % (old(self).links@.len() as int)) as usize,
                },
            ) && final(self).status_text@ == link_status(
                old(self).links@[final(self).selected_link->Some_0 as int].href@,
            ),
            same_but_selection(*old(self), *final(self)),
    {
        if self.links.len() == 0 {
            return;
        }
        let n = self.links.len();
        self.selected_link = Some(
            match self.selected_link {
                None => 0,
                Some(i) => (i + 1) % n,
            },
        );
        self.update_status_from_link();
    }

    /// Selects the previous link, wrapping to the last; the status line
    /// shows its target. Without links nothing changes.
    pub fn prev_link(&mut self)
        ensures
            old(self).links@.len() == 0 ==> final(self).selected_link == old(self).selected_link
                && final(self).status_text == old(self).status_text,
            old(self).links@.len() > 0 ==> final(self).selected_link == Some(
                match old(self).selected_link {
                    None => (old(self).links@.len() - 1) as usize,
                    Some(i) => if i == 0 {
                        (old(self).links@.len() - 1) as usize
                    } else {
                        (i - 1) as usize
                    },
                },
            ),
            old(self).links@.len() > 0 && final(self).selected_link->Some_0 < old(self).links@.len() ==> final(self).status_text@ == link_status(old(self).links@[final(self).selected_link->Some_0 as int].href@),
            same_but_selection(*old(self), *final(self)),
    {
        if self.links.len() == 0 {
            return;
        }
        let last = self.links.len() - 1;
        self.selected_link = Some(
            match self.selected_link {
                None => last,
                Some(0) => last,
                Some(i) => i - 1,
            },
        );
        self.update_status_from_link();
    }

    /// The target of the selected link, if one is selected.
    pub fn follow_selected_link(&mut self) -> (r: Option<String>)
        ensures
            match old(self).selected_link {
                Some(i) => if i < old(self).links@.len() {
                    r matches Some(h) && h@ == old(self).links@[i as int].href@
                } else {
                    r is None
                },
                None => r is None,
            },
            *final(self) == *old(self),
    {
        match self.selected_link {
            Some(i) => if i < self.links.len() {
                Some(self.links[i].href.clone())
            } else {
                None
            },
            None => None,
        }
    }

    /// Steps back in history and gives the entry stepped to; at the first
    /// entry nothing changes.
    pub fn go_back(&mut self) -> (r: Option<String>)
        ensures
            old(self).history_idx > 0 ==> final(self).history_idx == old(self).history_idx - 1 && (if final(self).history_idx < old(self).history@.len() {
                r matches Some(u) && u@ == old(self).history@[final(self).history_idx as int]@
            } else {
                r is None
            }),
            old(self).history_idx == 0 ==> final(self).history_idx == 0 && r is None,
            final(self).history == old(self).history,
            final(self).mode == old(self).mode,
            final(self).links == old(self).links,
    {
        if self.history_idx > 0 {
            self.history_idx = self.history_idx - 1;
            if self.history_idx < self.history.len() {
                Some(self.history[self.history_idx].clone())
            } else {
                None
            }
        } else {
            None
        }
    }

    /// Records a visit to `url`; see `pushed_history`.
    pub fn push_history(&mut self, url: &str)
        requires
            old(self).history_idx < usize::MAX,
        ensures
            (strings_view(final(self).history@), final(self).history_idx as int) == pushed_history(
                strings_view(old(self).history@),
                old(self).history_idx as int,
                url@,
            ),
            final(self).mode == old(self).mode,
            final(self).links == old(self).links,
            final(self).status_text == old(self).status_text,
    {
        record_visit(&mut self.history, &mut self.history_idx, url);
    }

    /// Scores how much script the page carries; see `complexity_of`.
    pub fn detect_complexity(content: &PageContent) -> (r: u8)
        ensures
            r == complexity_of(content.scripts@.len(), content.links@.len(), content.html@),
    {
        let mut score: u8 = 0;
        if content.scripts.len() > 20 {
            score = score + 3;
        } else if content.scripts.len() > 10 {
            score = score + 2;
        }
        if content.links.len() > 100 {
            score = score + 1;
        }
        let h = content.html.as_str();
        if str_contains(h, "react") || str_contains(h, "angular") || str_contains(h, "vue") {
            score = score + 2;
        }
        if score > 8 {
            8
        } else {
            score
        }
    }

    /// Shows a loaded page: its links (none selected), the top of the page,
    /// its address in the input, a visit in history, and a status line with
    /// the link count and load time.
    pub fn load_page(&mut self, content: PageContent)
        requires
            old(self).history_idx < usize::MAX,
        ensures
            final(self).complexity == complexity_of(content.scripts@.len(), content.links@.len(), content.html@),
            final(self).script_count == content.scripts@.len() as u32,
            links_view(final(self).links@) == links_view(content.links@),
            final(self).selected_link is None,
            final(self).scroll_offset == 0,
            final(self).status_text@ == "Done — "@ + decimal(content.links@.len()) + " links, "@ + decimal(
                content.load_time_ms as nat,
            ) + "ms"@,
            final(self).url_input@ == content.url@,
            (strings_view(final(self).history@), final(self).history_idx as int) == pushed_history(
                strings_view(old(self).history@),
                old(self).history_idx as int,
                content.url@,
            ),
            final(self).current_page matches Some(p) && p.url@ == content.url@ && p.title@ == content.title@
                && p.html@ == content.html@,
            final(self).mode == AppMode::Page,
            final(self).loading_url is None,
    {
        self.complexity = Self::detect_complexity(&content);
        self.script_count = content.scripts.len() as u32;
        let links = content.links.clone();
        assert(links_view(links@) =~= links_view(content.links@));
        self.links = links;
        self.selected_link = None;
        self.scroll_offset = 0;
        let mut s = "Done — ".to_owned();
        let a = decimal_string(content.links.len() as u128);
        s.append(a.as_str());
        s.append(" links, ");
        let b = decimal_string(content.load_time_ms as u128);
        s.append(b.as_str());
        s.append("ms");
        self.status_text = s;
        self.url_input = content.url.clone();
        let u = content.url.clone();
        record_visit(&mut self.history, &mut self.history_idx, u.as_str());
        self.current_page = Some(content);
        self.mode = AppMode::Page;
        self.loading_url = None;
    }

    /// Shows an error on the status line and leaves loading: back to the
    /// page when there is one, else to the new tab.
    pub fn set_error(&mut self, msg: String)
        ensures
            final(self).status_text@ == "Error: "@ + msg@,
            final(self).mode == (if old(self).current_page is Some {
                AppMode::Page
            } else {
                AppMode::NewTab
            }),
            final(self).loading_url is None,
            final(self).history == old(self).history,
            final(self).history_idx == old(self).history_idx,
    {
        let mut s = "Error: ".to_owned();
        s.append(msg.as_str());
        self.status_text = s;
        self.mode = if self.current_page.is_some() { AppMode::Page } else { AppMode::NewTab };
        self.loading_url = None;
    }
}

} // verus!
