//! External asset URLs of a document: stylesheets, scripts, images, fonts and
//! prefetch hints found on `<link>`, `<script src>` and `<img>` elements.
use vstd::prelude::*;
use crate::dom::document::Document;
use crate::dom::node::{attr_of, tag_of, nodes_view, DataView, Node, NodeData, NodeView};
use crate::text::{contains_seq, starts_with, str_contains, str_eq, str_starts_with, words, split_words, chars_of, string_from, strs_view};
use crate::urls::{join_url, parse_url, url_join, url_parse};

verus! {

/// Deepest level of the tree that is read; nodes below it are not visited.
pub const MAX_ASSET_DEPTH: usize = 512;

pub struct PageAssets {
    pub stylesheets: Vec<String>,
    pub scripts: Vec<String>,
    pub images: Vec<String>,
    pub fonts: Vec<String>,
    pub prefetch: Vec<String>,
}

#[verifier::ext_equal]
pub struct AssetsView {
    pub stylesheets: Seq<Seq<char>>,
    pub scripts: Seq<Seq<char>>,
    pub images: Seq<Seq<char>>,
    pub fonts: Seq<Seq<char>>,
    pub prefetch: Seq<Seq<char>>,
}

pub open spec fn strings_view(v: Seq<String>) -> Seq<Seq<char>> {
    v.map_values(|s: String| s@)
}

impl View for PageAssets {
    type V = AssetsView;

    open spec fn view(&self) -> AssetsView {
        AssetsView {
            stylesheets: strings_view(self.stylesheets@),
            scripts: strings_view(self.scripts@),
            images: strings_view(self.images@),
            fonts: strings_view(self.fonts@),
            prefetch: strings_view(self.prefetch@),
        }
    }
}

pub open spec fn no_assets() -> AssetsView {
    AssetsView {
        stylesheets: Seq::empty(),
        scripts: Seq::empty(),
        images: Seq::empty(),
        fonts: Seq::empty(),
        prefetch: Seq::empty(),
    }
}

pub open spec fn assets_total(a: AssetsView) -> nat {
    a.stylesheets.len() + a.scripts.len() + a.images.len() + a.fonts.len() + a.prefetch.len()
}

impl Default for PageAssets {
    fn default() -> (r: Self)
        ensures
            r@ == no_assets(),
    {
        let r = PageAssets {
            stylesheets: Vec::new(),
            scripts: Vec::new(),
            images: Vec::new(),
            fonts: Vec::new(),
            prefetch: Vec::new(),
        };
        assert(r@ =~= no_assets());
        r
    }
}

impl Clone for PageAssets {
    fn clone(&self) -> (r: Self)
        ensures
            r@ == self@,
    {
        let r = PageAssets {
            stylesheets: self.stylesheets.clone(),
            scripts: self.scripts.clone(),
            images: self.images.clone(),
            fonts: self.fonts.clone(),
            prefetch: self.prefetch.clone(),
        };
        assert(r@.stylesheets =~= self@.stylesheets);
        assert(r@.scripts =~= self@.scripts);
        assert(r@.images =~= self@.images);
        assert(r@.fonts =~= self@.fonts);
        assert(r@.prefetch =~= self@.prefetch);
        r
    }
}

impl PageAssets {
    /// Number of URLs over all five lists.
    pub fn total(&self) -> (r: usize)
        requires
            assets_total(self@) <= usize::MAX,
        ensures
            r == assets_total(self@),
    {
        self.stylesheets.len() + self.scripts.len() + self.images.len() + self.fonts.len() + self.prefetch.len()
    }
}

/// Where an asset URL points: absolute URLs (and scheme-relative ones) as they
/// are; a path from the root after the base's scheme and host; anything else
/// joined onto the base, or as it is when that fails.
pub open spec fn resolve_asset(href: Seq<char>, base: Seq<char>) -> Seq<char> {
    if starts_with(href, "http://"@) || starts_with(href, "https://"@) || starts_with(href, "//"@) {
        href
    } else if starts_with(href, "/"@) && url_parse(base) is Some {
        let u = url_parse(base).unwrap();
        u.scheme + "://"@ + (match u.host {
            Some(h) => h,
            None => Seq::empty(),
        }) + href
    } else {
        match url_join(base, href) {
            Some(t) => t,
            None => href,
        }
    }
}

/// `s` cut at every `c`, as `str::split` does: `n` separators give `n + 1`
/// pieces, empty ones included.
pub open spec fn split_on(s: Seq<char>, c: char) -> Seq<Seq<char>>
    decreases s.len(),
{
    if s.len() == 0 {
        seq![Seq::empty()]
    } else {
        let prev = split_on(s.drop_last(), c);
        if s.last() == c {
            prev.push(Seq::empty())
        } else {
            prev.update(prev.len() - 1, prev.last().push(s.last()))
        }
    }
}

/// The image URLs of a `srcset`: the first word of each comma-separated
/// candidate, resolved.
pub open spec fn srcset_images(pieces: Seq<Seq<char>>, base: Seq<char>) -> Seq<Seq<char>>
    decreases pieces.len(),
{
    if pieces.len() == 0 {
        Seq::empty()
    } else {
        let prev = srcset_images(pieces.drop_last(), base);
        let w = words(pieces.last());
        if w.len() > 0 && w[0].len() > 0 {
            prev.push(resolve_asset(w[0], base))
        } else {
            prev
        }
    }
}

pub open spec fn or_empty(o: Option<Seq<char>>) -> Seq<char> {
    match o {
        Some(s) => s,
        None => Seq::empty(),
    }
}

/// What one node adds to the lists.
pub open spec fn node_assets(a: AssetsView, data: DataView, base: Seq<char>) -> AssetsView {
    match data {
        DataView::Element { tag_name, .. } => {
            if tag_name == "link"@ {
                let rel = or_empty(attr_of(data, "rel"@));
                let href = or_empty(attr_of(data, "href"@));
                let url = resolve_asset(href, base);
                if href.len() == 0 {
                    a
                } else if contains_seq(rel, "stylesheet"@) {
                    AssetsView { stylesheets: a.stylesheets.push(url), ..a }
                } else if rel == "preload"@ || rel == "prefetch"@ {
                    let as_attr = or_empty(attr_of(data, "as"@));
                    if as_attr == "font"@ {
                        AssetsView { fonts: a.fonts.push(url), ..a }
                    } else if as_attr == "style"@ {
                        AssetsView { stylesheets: a.stylesheets.push(url), ..a }
                    } else if as_attr == "script"@ {
                        AssetsView { scripts: a.scripts.push(url), ..a }
                    } else {
                        AssetsView { prefetch: a.prefetch.push(url), ..a }
                    }
                } else {
                    a
                }
            } else if tag_name == "script"@ {
                match attr_of(data, "src"@) {
                    Some(src) => if src.len() > 0 {
                        AssetsView { scripts: a.scripts.push(resolve_asset(src, base)), ..a }
                    } else {
                        a
                    },
                    None => a,
                }
            } else if tag_name == "img"@ {
                let a1 = match attr_of(data, "src"@) {
                    Some(src) => if src.len() > 0 {
                        AssetsView { images: a.images.push(resolve_asset(src, base)), ..a }
                    } else {
                        a
                    },
                    None => a,
                };
                match attr_of(data, "srcset"@) {
                    Some(ss) => AssetsView { images: a1.images + srcset_images(split_on(ss, ','), base), ..a1 },
                    None => a1,
                }
            } else {
                a
            }
        },
        _ => a,
    }
}

/// The lists after visiting node `id` and, while `f > 0`, its children one
/// level further down, in document order.
pub open spec fn assets_walk(nodes: Seq<NodeView>, base: Seq<char>, a: AssetsView, id: usize, f: nat) -> AssetsView
    decreases f, 0nat,
{
    if id >= nodes.len() {
        a
    } else {
        let a1 = node_assets(a, nodes[id as int].data, base);
        if f == 0 {
            a1
        } else {
            assets_list(nodes, base, a1, nodes[id as int].children, (f - 1) as nat)
        }
    }
}

pub open spec fn assets_list(nodes: Seq<NodeView>, base: Seq<char>, a: AssetsView, ids: Seq<usize>, f: nat) -> AssetsView
    decreases f, ids.len() + 1,
{
    if ids.len() == 0 {
        a
    } else {
        assets_list(nodes, base, assets_walk(nodes, base, a, ids[0], f), ids.drop_first(), f)
    }
}

/// A relative reference (not absolute, not scheme-relative, not rooted) is
/// resolved by joining it onto the base URL whenever that join succeeds.
pub proof fn lemma_relative_href_joined(href: Seq<char>, base: Seq<char>, joined: Seq<char>)
    requires
        href.len() > 0,
        href[0] != '/',
        !starts_with(href, "http://"@),
        !starts_with(href, "https://"@),
        url_join(base, href) == Some(joined),
    ensures
        resolve_asset(href, base) == joined,
{
    reveal_strlit("//");
    reveal_strlit("/");
    if starts_with(href, "//"@) {
        assert(href.take(2)[0] == href[0]);
    }
    if starts_with(href, "/"@) {
        assert(href.take(1)[0] == href[0]);
    }
}

/// A `<link rel="stylesheet">` with a non-empty `href` adds exactly one URL, the
/// `href` resolved against the base, at the end of the stylesheets; the other
/// lists are left as they were.
pub proof fn lemma_stylesheet_link_resolved(a: AssetsView, data: DataView, base: Seq<char>, href: Seq<char>)
    requires
        tag_of(data) == Some("link"@),
        attr_of(data, "href"@) == Some(href),
        href.len() > 0,
        contains_seq(or_empty(attr_of(data, "rel"@)), "stylesheet"@),
    ensures
        node_assets(a, data, base) == (AssetsView { stylesheets: a.stylesheets.push(resolve_asset(href, base)), ..a }),
{
}

/// For a relative `href` on a base that the URL parser accepts, the stylesheet
/// recorded for a `<link rel="stylesheet">` is the base joined with `href`, not the
/// `href` as written.
pub proof fn lemma_relative_stylesheet_joined(
    a: AssetsView,
    data: DataView,
    base: Seq<char>,
    href: Seq<char>,
    joined: Seq<char>,
)
    requires
        tag_of(data) == Some("link"@),
        attr_of(data, "href"@) == Some(href),
        contains_seq(or_empty(attr_of(data, "rel"@)), "stylesheet"@),
        href.len() > 0,
        href[0] != '/',
        !starts_with(href, "http://"@),
        !starts_with(href, "https://"@),
        url_join(base, href) == Some(joined),
    ensures
        node_assets(a, data, base).stylesheets == a.stylesheets.push(joined),
        node_assets(a, data, base).scripts == a.scripts,
        node_assets(a, data, base).images == a.images,
        node_assets(a, data, base).fonts == a.fonts,
        node_assets(a, data, base).prefetch == a.prefetch,
{
    lemma_relative_href_joined(href, base, joined);
    lemma_stylesheet_link_resolved(a, data, base, href);
}

/// A `<link rel="preload">` or `<link rel="prefetch">` hint with a non-empty `href`
/// adds the resolved URL to one list, chosen by its `as`: fonts for `font`,
/// stylesheets for `style`, scripts for `script`, the prefetch list otherwise.
pub proof fn lemma_preload_hint_routed(a: AssetsView, data: DataView, base: Seq<char>, href: Seq<char>)
    requires
        tag_of(data) == Some("link"@),
        attr_of(data, "href"@) == Some(href),
        href.len() > 0,
        or_empty(attr_of(data, "rel"@)) == "preload"@ || or_empty(attr_of(data, "rel"@)) == "prefetch"@,
        !contains_seq(or_empty(attr_of(data, "rel"@)), "stylesheet"@),
    ensures
        ({
            let url = resolve_asset(href, base);
            let as_attr = or_empty(attr_of(data, "as"@));
            let r = node_assets(a, data, base);
            &&& as_attr == "font"@ ==> r == (AssetsView { fonts: a.fonts.push(url), ..a })
            &&& as_attr == "style"@ ==> r == (AssetsView { stylesheets: a.stylesheets.push(url), ..a })
            &&& as_attr == "script"@ ==> r == (AssetsView { scripts: a.scripts.push(url), ..a })
            &&& (as_attr != "font"@ && as_attr != "style"@ && as_attr != "script"@) ==> r == (AssetsView {
                prefetch: a.prefetch.push(url),
                ..a
            })
        }),
{
    reveal_strlit("font");
    reveal_strlit("style");
    reveal_strlit("script");
    assert("font"@[0] != "style"@[0]);
    assert("font"@[0] != "script"@[0]);
    assert("style"@.len() != "script"@.len());
}

/// A `<script src>` with a non-empty `src` adds that URL, resolved against the
/// base, at the end of the scripts and nothing else.
pub proof fn lemma_script_src_resolved(a: AssetsView, data: DataView, base: Seq<char>, src: Seq<char>)
    requires
        tag_of(data) == Some("script"@),
        attr_of(data, "src"@) == Some(src),
        src.len() > 0,
    ensures
        node_assets(a, data, base) == (AssetsView { scripts: a.scripts.push(resolve_asset(src, base)), ..a }),
{
    reveal_strlit("script");
    reveal_strlit("link");
    assert("script"@[0] != "link"@[0]);
}

/// An `<img>` with a non-empty `src` and no `srcset` adds that URL, resolved
/// against the base, at the end of the images and nothing else.
pub proof fn lemma_img_src_resolved(a: AssetsView, data: DataView, base: Seq<char>, src: Seq<char>)
    requires
        tag_of(data) == Some("img"@),
        attr_of(data, "src"@) == Some(src),
        attr_of(data, "srcset"@) is None,
        src.len() > 0,
    ensures
        node_assets(a, data, base) == (AssetsView { images: a.images.push(resolve_asset(src, base)), ..a }),
{
    reveal_strlit("img");
    reveal_strlit("link");
    reveal_strlit("script");
    assert("img"@[0] != "link"@[0]);
    assert("img"@[0] != "script"@[0]);
}

/// Resolves an asset URL found in a page at `base`.
fn resolve(href: &str, base: &str) -> (r: String)
    ensures
        r@ == resolve_asset(href@, base@),
{
    if str_starts_with(href, "http://") || str_starts_with(href, "https://") || str_starts_with(href, "//") {
        return href.to_owned();
    }
    if str_starts_with(href, "/") {
        match parse_url(base) {
            Ok(u) => {
                let mut out = String::new();
                out.append(u.scheme.as_str());
                out.append("://");
                match &u.host {
                    Some(h) => out.append(h.as_str()),
                    None => {},
                }
                out.append(href);
                return out;
            },
            Err(_) => {},
        }
    }
    match join_url(base, href) {
        Some(t) => t,
        None => href.to_owned(),
    }
}

/// `s` split at every `c`.
pub fn split_chars(s: &[char], c: char) -> (r: Vec<Vec<char>>)
    ensures
        strs_view(r@) == split_on(s@, c),
{
    let mut pieces: Vec<Vec<char>> = Vec::new();
    let mut cur: Vec<char> = Vec::new();
    let mut i: usize = 0;
    assert(s@.take(0) =~= Seq::<char>::empty());
    assert(strs_view(pieces@).push(cur@) =~= split_on(s@.take(0), c));
    while i < s.len()
        invariant
            i <= s@.len(),
            strs_view(pieces@).push(cur@) == split_on(s@.take(i as int), c),
        decreases s@.len() - i,
    {
        let ghost t = s@.take(i as int + 1);
        assert(t.drop_last() =~= s@.take(i as int));
        assert(t.last() == s@[i as int]);
        let ghost prev = strs_view(pieces@).push(cur@);
        if s[i] == c {
            pieces.push(cur);
            cur = Vec::new();
            assert(strs_view(pieces@).push(cur@) =~= prev.push(Seq::empty()));
        } else {
            cur.push(s[i]);
            assert(strs_view(pieces@).push(cur@) =~= prev.update(prev.len() - 1, prev.last().push(s@[i as int])));
        }
        i = i + 1;
    }
    assert(s@.take(s@.len() as int) =~= s@);
    pieces.push(cur);
    pieces
}

fn push_resolved(list: &mut Vec<String>, href: &str, base: &str)
    ensures
        strings_view(final(list)@) == strings_view(old(list)@).push(resolve_asset(href@, base@)),
{
    let r = resolve(href, base);
    list.push(r);
    assert(strings_view(list@) =~= strings_view(old(list)@).push(resolve_asset(href@, base@)));
}

/// Adds the image candidates of a `srcset` value.
fn push_srcset(images: &mut Vec<String>, srcset: &str, base: &str)
    ensures
        strings_view(final(images)@) == strings_view(old(images)@) + srcset_images(split_on(srcset@, ','), base@),
{
    let chars = chars_of(srcset);
    let pieces = split_chars(chars.as_slice(), ',');
    let ghost ps = strs_view(pieces@);
    let mut i: usize = 0;
    assert(ps.take(0) =~= Seq::<Seq<char>>::empty());
    assert(strings_view(images@) =~= strings_view(old(images)@) + srcset_images(ps.take(0), base@));
    while i < pieces.len()
        invariant
            i <= pieces@.len(),
            ps == strs_view(pieces@),
            strings_view(images@) == strings_view(old(images)@) + srcset_images(ps.take(i as int), base@),
        decreases pieces@.len() - i,
    {
        let ghost t = ps.take(i as int + 1);
        assert(t.drop_last() =~= ps.take(i as int));
        assert(t.last() == pieces@[i as int]@);
        let w = split_words(pieces[i].as_slice());
        if w.len() > 0 && w[0].len() > 0 {
            assert(strs_view(w@)[0] == w@[0]@);
            let url = string_from(w[0].as_slice());
            let ghost before = strings_view(images@);
            push_resolved(images, url.as_str(), base);
            assert(strings_view(images@) =~= strings_view(old(images)@) + srcset_images(t, base@));
        } else {
            assert(strs_view(w@).len() == w@.len());
            assert(w@.len() > 0 ==> strs_view(w@)[0] == w@[0]@);
        }
        i = i + 1;
    }
    assert(ps.take(pieces@.len() as int) =~= ps);
}

fn collect_node(assets: &mut PageAssets, node: &Node, base: &str)
    ensures
        final(assets)@ == node_assets(old(assets)@, node@.data, base@),
{
    let ghost a0 = assets@;
    proof {
        reveal_strlit("");
    }
    match &node.data {
        NodeData::Element { tag_name, .. } => {
            let tag = tag_name.as_str();
            if str_eq(tag, "link") {
                let rel = match node.attr("rel") {
                    Some(r) => r,
                    None => "",
                };
                let href = match node.attr("href") {
                    Some(h) => h,
                    None => "",
                };
                assert(or_empty(attr_of(node@.data, "rel"@)) == rel@);
                assert(or_empty(attr_of(node@.data, "href"@)) == href@);
                assert(tag_of(node@.data) == Some("link"@));
                if href.is_empty() {
                } else if str_contains(rel, "stylesheet") {
                    push_resolved(&mut assets.stylesheets, href, base);
                } else if str_eq(rel, "preload") || str_eq(rel, "prefetch") {
                    let as_attr = match node.attr("as") {
                        Some(a) => a,
                        None => "",
                    };
                    assert(or_empty(attr_of(node@.data, "as"@)) == as_attr@);
                    assert(or_empty(attr_of(node@.data, "href"@)) == href@);
                    if str_eq(as_attr, "font") {
                        push_resolved(&mut assets.fonts, href, base);
                        assert(assets@.fonts =~= a0.fonts.push(resolve_asset(href@, base@)));
                        assert(assets@ =~= AssetsView { fonts: a0.fonts.push(resolve_asset(href@, base@)), ..a0 });
                    } else if str_eq(as_attr, "style") {
                        push_resolved(&mut assets.stylesheets, href, base);
                    } else if str_eq(as_attr, "script") {
                        push_resolved(&mut assets.scripts, href, base);
                    } else {
                        push_resolved(&mut assets.prefetch, href, base);
                    }
                    assert(assets@ =~= node_assets(a0, node@.data, base@));
                }
                assert(assets@ =~= node_assets(a0, node@.data, base@));
            } else if str_eq(tag, "script") {
                match node.attr("src") {
                    Some(src) => {
                        if !src.is_empty() {
                            push_resolved(&mut assets.scripts, src, base);
                        }
                    },
                    None => {},
                }
                assert(assets@ =~= node_assets(a0, node@.data, base@));
            } else if str_eq(tag, "img") {
                match node.attr("src") {
                    Some(src) => {
                        if !src.is_empty() {
                            push_resolved(&mut assets.images, src, base);
                        }
                    },
                    None => {},
                }
                match node.attr("srcset") {
                    Some(ss) => push_srcset(&mut assets.images, ss, base),
                    None => {},
                }
                assert(assets@ =~= node_assets(a0, node@.data, base@));
            } else {
                assert(assets@ =~= node_assets(a0, node@.data, base@));
            }
        },
        _ => {},
    }
    assert(assets@ =~= node_assets(a0, node@.data, base@));
}

fn walk_children(nodes: &[Node], kids: &Vec<usize>, start: usize, base: &str, assets: &mut PageAssets, f: usize)
    requires
        start <= kids@.len(),
    ensures
        final(assets)@ == assets_list(nodes_view(nodes@), base@, old(assets)@, kids@.skip(start as int), f as nat),
    decreases f, kids@.len() - start + 1,
{
    if start >= kids.len() {
        assert(kids@.skip(start as int).len() == 0);
        return;
    }
    walk_depth(nodes, kids[start], base, assets, f);
    walk_children(nodes, kids, start + 1, base, assets, f);
    assert(kids@.skip(start as int).drop_first() =~= kids@.skip(start + 1));
}

/// Visits node `id` and, `f` levels down at most, its descendants.
fn walk_depth(nodes: &[Node], id: usize, base: &str, assets: &mut PageAssets, f: usize)
    ensures
        final(assets)@ == assets_walk(nodes_view(nodes@), base@, old(assets)@, id, f as nat),
    decreases f, 0nat,
{
    if id >= nodes.len() {
        return;
    }
    let node = &nodes[id];
    assert(nodes_view(nodes@)[id as int] == node@);
    collect_node(assets, node, base);
    if f > 0 {
        walk_children(nodes, &node.children, 0, base, assets, f - 1);
        assert(node.children@.skip(0) =~= node.children@);
    }
}

/// Every external asset URL of the document, read from the root down to
/// `MAX_ASSET_DEPTH` levels, in document order.
pub fn extract_assets(doc: &Document, base_url: &str) -> (r: PageAssets)
    ensures
        r@ == assets_walk(doc@.nodes, base_url@, no_assets(), 0, MAX_ASSET_DEPTH as nat),
{
    let mut assets = PageAssets::default();
    walk_depth(doc.nodes.as_slice(), 0, base_url, &mut assets, MAX_ASSET_DEPTH);
    assets
}

} // verus!
