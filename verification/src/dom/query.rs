//! Simple CSS selectors (`tag`, `#id`, `.class` and their compounds).
use vstd::prelude::*;
use vstd::string::StringExecFns;
use crate::dom::document::Document;
use crate::dom::node::{Node, NodeId, NodeView, attr_of, is_element_view, nodes_view, tag_of};
use crate::dom::tree::{doc_order, first_of, pre_list, preorder};
use crate::error::{BrowserError, BrowserResult};
use crate::text::{
    ascii_lower, ascii_lower_str, chars_eq, chars_of, split_words, str_eq, string_from, strs_view, trim,
    trim_chars, words,
};

verus! {

struct SimpleSelector {
    tag: Option<String>,
    id: Option<String>,
    classes: Vec<String>,
}

pub struct SelView {
    pub tag: Option<Seq<char>>,
    pub id: Option<Seq<char>>,
    pub classes: Seq<Seq<char>>,
}

pub open spec fn opt_string_view(o: Option<String>) -> Option<Seq<char>> {
    match o {
        Some(s) => Some(s@),
        None => None,
    }
}

impl View for SimpleSelector {
    type V = SelView;

    closed spec fn view(&self) -> SelView {
        SelView {
            tag: opt_string_view(self.tag),
            id: opt_string_view(self.id),
            classes: self.classes@.map_values(|s: String| s@),
        }
    }
}

/// Records a finished token: as the tag (lower-cased), the id, or a class.
pub open spec fn flush_spec(sel: SelView, mode: char, token: Seq<char>) -> SelView {
    if token.len() == 0 {
        sel
    } else if mode == 't' {
        SelView { tag: Some(ascii_lower(token)), id: sel.id, classes: sel.classes }
    } else if mode == '#' {
        SelView { tag: sel.tag, id: Some(token), classes: sel.classes }
    } else if mode == '.' {
        SelView { tag: sel.tag, id: sel.id, classes: sel.classes.push(token) }
    } else {
        sel
    }
}

pub open spec fn is_combinator(c: char) -> bool {
    c == ' ' || c == '>' || c == '+' || c == '~'
}

pub open spec fn empty_sel() -> SelView {
    SelView { tag: None, id: None, classes: Seq::empty() }
}

/// Scanner state after `s`: selector so far, pending token, token kind;
/// `None` once a combinator was seen.
pub open spec fn parse_state(s: Seq<char>) -> Option<(SelView, Seq<char>, char)>
    decreases s.len(),
{
    if s.len() == 0 {
        Some((empty_sel(), Seq::empty(), 't'))
    } else {
        match parse_state(s.drop_last()) {
            None => None,
            Some((sel, cur, mode)) => {
                let c = s.last();
                if c == '#' {
                    Some((flush_spec(sel, mode, cur), Seq::empty(), '#'))
                } else if c == '.' {
                    Some((flush_spec(sel, mode, cur), Seq::empty(), '.'))
                } else if is_combinator(c) {
                    None
                } else {
                    Some((sel, cur.push(c), mode))
                }
            },
        }
    }
}

/// The selector that `s` denotes, `None` for one with a combinator.
pub open spec fn parse_sel(s: Seq<char>) -> Option<SelView> {
    match parse_state(s) {
        Some((sel, cur, mode)) => Some(flush_spec(sel, mode, cur)),
        None => None,
    }
}

pub open spec fn has_class(n: NodeView, class: Seq<char>) -> bool {
    match attr_of(n.data, "class"@) {
        Some(c) => words(c).contains(class),
        None => false,
    }
}

pub open spec fn sel_matches(n: NodeView, sel: SelView) -> bool {
    &&& is_element_view(n.data)
    &&& (sel.tag matches Some(t) ==> tag_of(n.data) == Some(t))
    &&& (sel.id matches Some(i) ==> attr_of(n.data, "id"@) == Some(i))
    &&& forall|k: int| 0 <= k < sel.classes.len() ==> has_class(n, #[trigger] sel.classes[k])
}

pub open spec fn selector_error(s: Seq<char>) -> Seq<char> {
    "Complex selector not supported: "@ + trim(s)
}

/// Ids in `order` matching `sel`, except the document node when `skip_root`.
pub open spec fn matching(nodes: Seq<NodeView>, order: Seq<NodeId>, sel: SelView, skip_root: bool) -> Seq<NodeId> {
    order.filter(|i: NodeId| !(skip_root && i == 0) && i < nodes.len() && sel_matches(nodes[i as int], sel))
}

pub open spec fn from_order(nodes: Seq<NodeView>, parent: NodeId) -> Seq<NodeId> {
    pre_list(nodes, if parent < nodes.len() { nodes[parent as int].children } else { Seq::empty() }, nodes.len(), false)
}

fn flush(sel: &mut SimpleSelector, mode: char, token: &[char])
    ensures
        final(sel)@ == flush_spec(old(sel)@, mode, token@),
{
    if token.len() == 0 {
        return;
    }
    let ghost s0 = sel@;
    if mode == 't' {
        let t = string_from(token);
        sel.tag = Some(ascii_lower_str(t.as_str()));
    } else if mode == '#' {
        sel.id = Some(string_from(token));
    } else if mode == '.' {
        let ghost c0 = sel.classes@;
        sel.classes.push(string_from(token));
        assert(sel.classes@.map_values(|s: String| s@) =~= c0.map_values(|s: String| s@).push(token@));
    }
}

fn parse_selector(s: &str) -> (r: BrowserResult<SimpleSelector>)
    ensures
        match r {
            Ok(sel) => parse_sel(s@) == Some(sel@),
            Err(e) => parse_sel(s@) is None && (e matches BrowserError::Parse(m) && m@ == "Complex selector not supported: "@ + s@),
        },
{
    let mut sel = SimpleSelector { tag: None, id: None, classes: Vec::new() };
    assert(sel@.classes =~= Seq::<Seq<char>>::empty());
    let mut current: Vec<char> = Vec::new();
    let mut mode: char = 't';
    let v = chars_of(s);
    let mut i: usize = 0;
    while i < v.len()
        invariant
            i <= v@.len(),
            v@ == s@,
            parse_state(v@.take(i as int)) == Some((sel@, current@, mode)),
        decreases v@.len() - i,
    {
        let ch = v[i];
        assert(v@.take(i + 1).drop_last() =~= v@.take(i as int));
        if ch == '#' {
            flush(&mut sel, mode, current.as_slice());
            current = Vec::new();
            mode = '#';
        } else if ch == '.' {
            flush(&mut sel, mode, current.as_slice());
            current = Vec::new();
            mode = '.';
        } else if ch == ' ' || ch == '>' || ch == '+' || ch == '~' {
            proof { lemma_parse_none_stays(v@, i as int); }
            let mut m = String::new();
            m.append("Complex selector not supported: ");
            m.append(s);
            return Err(BrowserError::Parse(m));
        } else {
            current.push(ch);
        }
        i = i + 1;
        assert(current@ =~= parse_state(v@.take(i as int)).unwrap().1);
    }
    assert(v@.take(i as int) =~= v@);
    flush(&mut sel, mode, current.as_slice());
    Ok(sel)
}

proof fn lemma_parse_none_stays(s: Seq<char>, i: int)
    requires
        0 <= i < s.len(),
        parse_state(s.take(i + 1)) is None,
    ensures
        parse_state(s) is None,
    decreases s.len() - i,
{
    if i + 1 < s.len() {
        assert(s.take(i + 2).drop_last() =~= s.take(i + 1));
        lemma_parse_none_stays(s, i + 1);
    } else {
        assert(s.take(i + 1) =~= s);
    }
}

/// A run of characters that neither starts a new token nor is a combinator.
pub open spec fn plain_token(c: Seq<char>) -> bool {
    forall|i: int| 0 <= i < c.len() ==> #[trigger] c[i] != '#' && c[i] != '.' && !is_combinator(c[i])
}

proof fn lemma_parse_state_plain(s: Seq<char>, c: Seq<char>)
    requires
        parse_state(s) is Some,
        plain_token(c),
    ensures
        parse_state(s + c) == Some(
            (parse_state(s).unwrap().0, parse_state(s).unwrap().1 + c, parse_state(s).unwrap().2),
        ),
    decreases c.len(),
{
    let st = parse_state(s).unwrap();
    if c.len() == 0 {
        assert(s + c =~= s);
        assert(st.1 + c =~= st.1);
    } else {
        let c0 = c.drop_last();
        assert(plain_token(c0)) by {
            assert forall|i: int| 0 <= i < c0.len() implies #[trigger] c0[i] != '#' && c0[i] != '.'
                && !is_combinator(c0[i]) by {
                assert(c0[i] == c[i]);
            }
        }
        lemma_parse_state_plain(s, c0);
        assert((s + c).drop_last() =~= s + c0);
        assert((s + c).last() == c[c.len() - 1]);
        assert((st.1 + c0).push(c.last()) =~= st.1 + c);
    }
}

/// Appending `.name` to a simple selector keeps its tag, its id and every class it
/// had, in order, and adds `name` as one more class; an element then matches the
/// longer selector exactly when it matches the shorter one and has class `name`.
pub proof fn lemma_class_appended(s: Seq<char>, name: Seq<char>)
    requires
        parse_sel(s) is Some,
        name.len() > 0,
        plain_token(name),
    ensures
        parse_sel(s + "."@ + name) == Some(
            SelView {
                tag: parse_sel(s).unwrap().tag,
                id: parse_sel(s).unwrap().id,
                classes: parse_sel(s).unwrap().classes.push(name),
            },
        ),
        forall|n: NodeView|
            sel_matches(n, parse_sel(s + "."@ + name).unwrap()) <==> (sel_matches(
                n,
                parse_sel(s).unwrap(),
            ) && has_class(n, name)),
{
    reveal_strlit(".");
    let st = parse_state(s).unwrap();
    let sel0 = parse_sel(s).unwrap();
    let s1 = s + "."@;
    assert(s1.drop_last() =~= s);
    assert(s1.last() == '.');
    assert(parse_state(s1) == Some((sel0, Seq::<char>::empty(), '.')));
    lemma_parse_state_plain(s1, name);
    assert(Seq::<char>::empty() + name =~= name);
    let sel1 = parse_sel(s1 + name).unwrap();
    assert(sel1.classes == sel0.classes.push(name));
    assert forall|n: NodeView| sel_matches(n, sel1) <==> (sel_matches(n, sel0) && has_class(n, name)) by {
        if sel_matches(n, sel1) {
            assert(has_class(n, sel1.classes[sel0.classes.len() as int]));
            assert forall|k: int| 0 <= k < sel0.classes.len() implies has_class(n, #[trigger] sel0.classes[k]) by {
                assert(sel1.classes[k] == sel0.classes[k]);
            }
        }
        if sel_matches(n, sel0) && has_class(n, name) {
            assert forall|k: int| 0 <= k < sel1.classes.len() implies has_class(n, #[trigger] sel1.classes[k]) by {
                if k < sel0.classes.len() {
                    assert(sel1.classes[k] == sel0.classes[k]);
                }
            }
        }
    }
}

/// A bare word is a tag selector: its tag is the word in lower case, with no id
/// and no class.
pub proof fn lemma_tag_selector(t: Seq<char>)
    requires
        t.len() > 0,
        plain_token(t),
    ensures
        parse_sel(t) == Some(SelView { tag: Some(ascii_lower(t)), id: None, classes: Seq::empty() }),
{
    let e = Seq::<char>::empty();
    assert(parse_state(e) == Some((empty_sel(), e, 't')));
    lemma_parse_state_plain(e, t);
    assert(e + t =~= t);
}

/// Appending `#name` to a simple selector sets its id to `name` and keeps its tag
/// and its classes.
pub proof fn lemma_id_appended(s: Seq<char>, name: Seq<char>)
    requires
        parse_sel(s) is Some,
        name.len() > 0,
        plain_token(name),
    ensures
        parse_sel(s + "#"@ + name) == Some(
            SelView { tag: parse_sel(s).unwrap().tag, id: Some(name), classes: parse_sel(s).unwrap().classes },
        ),
{
    reveal_strlit("#");
    let sel0 = parse_sel(s).unwrap();
    let s1 = s + "#"@;
    assert(s1.drop_last() =~= s);
    assert(s1.last() == '#');
    assert(parse_state(s1) == Some((sel0, Seq::<char>::empty(), '#')));
    lemma_parse_state_plain(s1, name);
    assert(Seq::<char>::empty() + name =~= name);
}

fn has_word(words_v: &Vec<Vec<char>>, w: &[char]) -> (r: bool)
    ensures
        r == strs_view(words_v@).contains(w@),
{
    let mut k: usize = 0;
    while k < words_v.len()
        invariant
            k <= words_v@.len(),
            forall|j: int| 0 <= j < k ==> strs_view(words_v@)[j] != w@,
        decreases words_v@.len() - k,
    {
        if chars_eq(words_v[k].as_slice(), w) {
            assert(strs_view(words_v@)[k as int] == w@);
            return true;
        }
        k = k + 1;
    }
    false
}

fn matches_selector(node: &Node, sel: &SimpleSelector) -> (r: bool)
    ensures
        r == sel_matches(node@, sel@),
{
    if !node.is_element() {
        return false;
    }
    if let Some(tag) = &sel.tag {
        match node.tag_name() {
            Some(t) => if !str_eq(t, tag.as_str()) {
                return false;
            },
            None => return false,
        }
    }
    if let Some(id) = &sel.id {
        match node.attr("id") {
            Some(v) => if !str_eq(v, id.as_str()) {
                return false;
            },
            None => return false,
        }
    }
    let ghost cl = sel@.classes;
    let mut k: usize = 0;
    while k < sel.classes.len()
        invariant
            k <= sel.classes@.len(),
            cl == sel@.classes,
            cl.len() == sel.classes@.len(),
            forall|j: int| 0 <= j < k ==> has_class(node@, #[trigger] cl[j]),
        decreases sel.classes@.len() - k,
    {
        let class = &sel.classes[k];
        let found = match node.attr("class") {
            Some(c) => {
                let cv = chars_of(c);
                let ws = split_words(cv.as_slice());
                let want = chars_of(class.as_str());
                has_word(&ws, want.as_slice())
            },
            None => false,
        };
        assert(cl[k as int] == class@);
        if !found {
            return false;
        }
        k = k + 1;
    }
    true
}

/// Ids of `order` whose nodes match `sel`.
fn collect_matching(doc: &Document, order: &Vec<NodeId>, sel: &SimpleSelector, skip_root: bool, first_only: bool) -> (r: Vec<NodeId>)
    ensures
        first_only ==> r@ == (match first_of(matching(doc@.nodes, order@, sel@, skip_root)) {
            Some(i) => seq![i],
            None => Seq::empty(),
        }),
        !first_only ==> r@ == matching(doc@.nodes, order@, sel@, skip_root),
{
    let ghost p = |i: NodeId| !(skip_root && i == 0) && i < doc@.nodes.len() && sel_matches(doc@.nodes[i as int], sel@);
    let mut out: Vec<NodeId> = Vec::new();
    let mut k: usize = 0;
    while k < order.len()
        invariant
            k <= order@.len(),
            p == (|i: NodeId| !(skip_root && i == 0) && i < doc@.nodes.len() && sel_matches(doc@.nodes[i as int], sel@)),
            out@ == order@.take(k as int).filter(p),
            first_only ==> out@.len() == 0,
        decreases order@.len() - k,
    {
        let id = order[k];
        proof { crate::dom::document::lemma_filter_step(order@, k as int, p); }
        if !(skip_root && id == 0) && id < doc.nodes.len() && matches_selector(&doc.nodes[id], sel) {
            if first_only {
                proof { lemma_first_match(order@, k as int, p); }
                let mut one = Vec::new();
                one.push(id);
                assert(one@ =~= seq![id]);
                return one;
            }
            out.push(id);
        }
        k = k + 1;
    }
    assert(order@.take(k as int) =~= order@);
    out
}

proof fn lemma_first_match(s: Seq<NodeId>, k: int, p: spec_fn(NodeId) -> bool)
    requires
        0 <= k < s.len(),
        s.take(k).filter(p).len() == 0,
        p(s[k]),
    ensures
        first_of(s.filter(p)) == Some(s[k]),
{
    crate::dom::document::lemma_filter_step(s, k, p);
    assert(s =~= s.take(k + 1) + s.skip(k + 1));
    Seq::filter_distributes_over_add(s.take(k + 1), s.skip(k + 1), p);
}

pub struct DomQuery;

impl DomQuery {
    /// The first element after the document node, in document order, that
    /// matches `selector`.
    pub fn query_selector(doc: &Document, selector: &str) -> (r: BrowserResult<Option<NodeId>>)
        ensures
            match parse_sel(trim(selector@)) {
                Some(sel) => r == Ok::<Option<NodeId>, BrowserError>(first_of(matching(doc@.nodes, doc_order(doc@.nodes), sel, true))),
                None => r matches Err(BrowserError::Parse(m)) && m@ == selector_error(selector@),
            },
    {
        let t = trim_str_ref(selector);
        let parsed = parse_selector(t.as_str())?;
        let order = root_order(doc);
        let found = collect_matching(doc, &order, &parsed, true, true);
        if found.len() > 0 {
            Ok(Some(found[0]))
        } else {
            Ok(None)
        }
    }

    /// Every element after the document node matching `selector`.
    pub fn query_selector_all(doc: &Document, selector: &str) -> (r: BrowserResult<Vec<NodeId>>)
        ensures
            match parse_sel(trim(selector@)) {
                Some(sel) => r matches Ok(v) && v@ == matching(doc@.nodes, doc_order(doc@.nodes), sel, true),
                None => r matches Err(BrowserError::Parse(m)) && m@ == selector_error(selector@),
            },
    {
        let t = trim_str_ref(selector);
        let parsed = parse_selector(t.as_str())?;
        let order = root_order(doc);
        Ok(collect_matching(doc, &order, &parsed, true, false))
    }

    /// The first element below `parent_id` matching `selector`.
    pub fn query_selector_from(doc: &Document, parent_id: NodeId, selector: &str) -> (r: BrowserResult<Option<NodeId>>)
        ensures
            match parse_sel(trim(selector@)) {
                Some(sel) => r == Ok::<Option<NodeId>, BrowserError>(first_of(matching(doc@.nodes, from_order(doc@.nodes, parent_id), sel, false))),
                None => r matches Err(BrowserError::Parse(m)) && m@ == selector_error(selector@),
            },
    {
        let t = trim_str_ref(selector);
        let parsed = parse_selector(t.as_str())?;
        let order = below(doc, parent_id);
        let found = collect_matching(doc, &order, &parsed, false, true);
        if found.len() > 0 {
            Ok(Some(found[0]))
        } else {
            Ok(None)
        }
    }

    /// Every element below `parent_id` matching `selector`.
    pub fn query_selector_all_from(doc: &Document, parent_id: NodeId, selector: &str) -> (r: BrowserResult<Vec<NodeId>>)
        ensures
            match parse_sel(trim(selector@)) {
                Some(sel) => r matches Ok(v) && v@ == matching(doc@.nodes, from_order(doc@.nodes, parent_id), sel, false),
                None => r matches Err(BrowserError::Parse(m)) && m@ == selector_error(selector@),
            },
    {
        let t = trim_str_ref(selector);
        let parsed = parse_selector(t.as_str())?;
        let order = below(doc, parent_id);
        Ok(collect_matching(doc, &order, &parsed, false, false))
    }
}

fn trim_str_ref(s: &str) -> (r: String)
    ensures
        r@ == trim(s@),
{
    let v = chars_of(s);
    let t = trim_chars(v.as_slice());
    string_from(t.as_slice())
}

fn root_order(doc: &Document) -> (r: Vec<NodeId>)
    ensures
        r@ == doc_order(doc@.nodes),
{
    let mut start = Vec::new();
    start.push(0usize);
    assert(start@ =~= seq![0usize]);
    preorder(doc.nodes.as_slice(), &start, doc.nodes.len(), false)
}

fn below(doc: &Document, parent: NodeId) -> (r: Vec<NodeId>)
    ensures
        r@ == from_order(doc@.nodes, parent),
{
    let start: Vec<NodeId> = match doc.get(parent) {
        Some(n) => n.children.clone(),
        None => Vec::new(),
    };
    assert(start@ =~= (if parent < doc@.nodes.len() { doc@.nodes[parent as int].children } else { Seq::empty() }));
    preorder(doc.nodes.as_slice(), &start, doc.nodes.len(), false)
}

} // verus!
