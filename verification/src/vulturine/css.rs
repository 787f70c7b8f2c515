//! The CSS the software renderer reads without measuring anything: inline
//! `style` declarations, display defaults, heading levels and white space.
use vstd::prelude::*;
use crate::browser::assets::{split_chars, split_on};
use crate::text::{
    append_range, ascii_lower, ascii_lower_str, chars_of, find_from, find_from_exec, lemma_find_from, push_char, str_eq, strs_view,
    trim, trim_str,
};

verus! {

/// A `name: value` declaration cut at its first `:`, both sides trimmed and
/// ASCII lower-cased; none without a `:`.
pub open spec fn decl_pair(d: Seq<char>) -> Option<(Seq<char>, Seq<char>)> {
    match find_from(d, seq![':'], 0) {
        Some(p) => Some((ascii_lower(trim(d.take(p))), ascii_lower(trim(d.skip(p + 1))))),
        None => None,
    }
}

/// The declarations of the pieces `ds`, in order, skipping pieces without
/// a `:`.
pub open spec fn decl_pairs(ds: Seq<Seq<char>>) -> Seq<(Seq<char>, Seq<char>)>
    decreases ds.len(),
{
    if ds.len() == 0 {
        Seq::empty()
    } else {
        let pre = decl_pairs(ds.drop_last());
        match decl_pair(ds.last()) {
            Some(p) => pre.push(p),
            None => pre,
        }
    }
}

pub open spec fn str_pairs_view(v: Seq<(String, String)>) -> Seq<(Seq<char>, Seq<char>)> {
    v.map_values(|p: (String, String)| (p.0@, p.1@))
}

/// The declarations of an inline `style` attribute, in the order written,
/// split at every `;`. A later declaration of a property overrides an
/// earlier one when they are collected into a map.
pub fn parse_inline(style: &str) -> (r: Vec<(String, String)>)
    ensures
        str_pairs_view(r@) == decl_pairs(split_on(style@, ';')),
{
    let cs = chars_of(style);
    let pieces = split_chars(cs.as_slice(), ';');
    let ghost ds = strs_view(pieces@);
    let colon: Vec<char> = vec![':'];
    assert(colon@ =~= seq![':']);
    let mut out: Vec<(String, String)> = Vec::new();
    let mut i: usize = 0;
    while i < pieces.len()
        invariant
            i <= pieces@.len(),
            ds == strs_view(pieces@),
            ds == split_on(style@, ';'),
            colon@ == seq![':'],
            str_pairs_view(out@) == decl_pairs(ds.take(i as int)),
        decreases pieces@.len() - i,
    {
        let d = &pieces[i];
        assert(ds.take(i + 1).drop_last() =~= ds.take(i as int));
        assert(ds.take(i + 1).last() == d@);
        match find_from_exec(d.as_slice(), colon.as_slice(), 0) {
            Some(p) => {
                proof {
                    lemma_find_from(d@, seq![':'], 0);
                    assert(seq![':'].len() == 1);
                }
                let n = d.len();
                let mut k = String::new();
                append_range(&mut k, d.as_slice(), 0, p);
                let mut v = String::new();
                append_range(&mut v, d.as_slice(), p + 1, n);
                assert(k@ =~= d@.take(p as int));
                assert(v@ =~= d@.skip(p + 1));
                let kt = trim_str(k.as_str());
                let vt = trim_str(v.as_str());
                let kl = ascii_lower_str(kt.as_str());
                let vl = ascii_lower_str(vt.as_str());
                out.push((kl, vl));
                assert(str_pairs_view(out@) =~= decl_pairs(ds.take(i as int)).push(
                    (ascii_lower(trim(d@.take(p as int))), ascii_lower(trim(d@.skip(p + 1)))),
                ));
            },
            None => {},
        }
        i = i + 1;
    }
    assert(ds.take(pieces@.len() as int) =~= ds);
    out
}

/// The tags laid out inline by default.
pub open spec fn is_inline_tag(t: Seq<char>) -> bool {
    ||| t == "span"@
    ||| t == "a"@
    ||| t == "strong"@
    ||| t == "em"@
    ||| t == "b"@
    ||| t == "i"@
    ||| t == "u"@
    ||| t == "s"@
    ||| t == "code"@
    ||| t == "label"@
    ||| t == "small"@
    ||| t == "sup"@
    ||| t == "sub"@
    ||| t == "abbr"@
}

/// The `display` a tag has without a style: `inline` for the phrasing tags,
/// `block` for the rest.
pub fn default_display(tag: &str) -> (r: &'static str)
    ensures
        r@ == (if is_inline_tag(tag@) {
            "inline"@
        } else {
            "block"@
        }),
{
    if str_eq(tag, "span") || str_eq(tag, "a") || str_eq(tag, "strong") || str_eq(tag, "em") || str_eq(tag, "b")
        || str_eq(tag, "i") || str_eq(tag, "u") || str_eq(tag, "s") || str_eq(tag, "code") || str_eq(tag, "label")
        || str_eq(tag, "small") || str_eq(tag, "sup") || str_eq(tag, "sub") || str_eq(tag, "abbr") {
        "inline"
    } else {
        "block"
    }
}

/// The level of a heading tag `h1` to `h6`.
pub open spec fn heading_level_of(t: Seq<char>) -> Option<u8> {
    if t == "h1"@ {
        Some(1u8)
    } else if t == "h2"@ {
        Some(2u8)
    } else if t == "h3"@ {
        Some(3u8)
    } else if t == "h4"@ {
        Some(4u8)
    } else if t == "h5"@ {
        Some(5u8)
    } else if t == "h6"@ {
        Some(6u8)
    } else {
        None
    }
}

pub fn heading_level(tag: &str) -> (r: Option<u8>)
    ensures
        r == heading_level_of(tag@),
{
    if str_eq(tag, "h1") {
        Some(1)
    } else if str_eq(tag, "h2") {
        Some(2)
    } else if str_eq(tag, "h3") {
        Some(3)
    } else if str_eq(tag, "h4") {
        Some(4)
    } else if str_eq(tag, "h5") {
        Some(5)
    } else if str_eq(tag, "h6") {
        Some(6)
    } else {
        None
    }
}

/// Newline, carriage return and tab read as a space.
pub open spec fn space_of(c: char) -> char {
    if c == '\n' || c == '\r' || c == '\t' {
        ' '
    } else {
        c
    }
}

/// The collapsed text of `s`, and whether it ends in a space (or is still
/// empty).
pub open spec fn collapse_state(s: Seq<char>) -> (Seq<char>, bool)
    decreases s.len(),
{
    if s.len() == 0 {
        (Seq::empty(), true)
    } else {
        let (o, sp) = collapse_state(s.drop_last());
        let c = space_of(s.last());
        if c == ' ' {
            if sp {
                (o, true)
            } else {
                (o.push(' '), true)
            }
        } else {
            (o.push(c), false)
        }
    }
}

/// White space collapsed: tabs and line breaks read as spaces, runs of
/// spaces become one, and leading spaces are dropped (one trailing space
/// may stay).
pub fn collapse_ws(s: &str) -> (r: String)
    ensures
        r@ == collapse_state(s@).0,
{
    let cs = chars_of(s);
    let mut out = String::new();
    let mut space = true;
    let mut i: usize = 0;
    while i < cs.len()
        invariant
            i <= cs@.len(),
            cs@ == s@,
            collapse_state(cs@.take(i as int)) == (out@, space),
        decreases cs@.len() - i,
    {
        assert(cs@.take(i + 1).drop_last() =~= cs@.take(i as int));
        let c = cs[i];
        let c2 = if c == '\n' || c == '\r' || c == '\t' {
            ' '
        } else {
            c
        };
        if c2 == ' ' {
            if !space {
                push_char(&mut out, ' ');
                space = true;
            }
        } else {
            push_char(&mut out, c2);
            space = false;
        }
        i = i + 1;
    }
    assert(cs@.take(cs@.len() as int) =~= cs@);
    out
}

} // verus!
