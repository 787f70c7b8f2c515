//! Forms read straight from page text: a scan for `<form`, its attributes,
//! and the `<input>` and `<textarea>` tags inside it.
//!
//! Tag and attribute names are matched on a copy of the text in which each
//! character is lower-cased by the Unicode rules (one that lower-cases to
//! several characters is kept as written), so every character of the copy
//! stands where its original stands; values are read from the text as
//! written at the same positions.
use vstd::prelude::*;
use crate::text::{
    chars_of, find_from, find_from_exec, lemma_find_from, lemma_find_skip, push_char, string_from, to_lower,
    to_upper, unicode_lower, unicode_upper,
};

verus! {

pub struct FormField {
    pub name: String,
    pub field_type: String,
    pub value: String,
    pub placeholder: String,
}

pub struct FieldView {
    pub name: Seq<char>,
    pub field_type: Seq<char>,
    pub value: Seq<char>,
    pub placeholder: Seq<char>,
}

impl View for FormField {
    type V = FieldView;

    open spec fn view(&self) -> FieldView {
        FieldView {
            name: self.name@,
            field_type: self.field_type@,
            value: self.value@,
            placeholder: self.placeholder@,
        }
    }
}

pub struct Form {
    pub action: String,
    pub method: String,
    pub fields: Vec<FormField>,
}

pub struct FormView {
    pub action: Seq<char>,
    pub method: Seq<char>,
    pub fields: Seq<FieldView>,
}

pub open spec fn fields_view(v: Seq<FormField>) -> Seq<FieldView> {
    v.map_values(|f: FormField| f@)
}

impl View for Form {
    type V = FormView;

    open spec fn view(&self) -> FormView {
        FormView { action: self.action@, method: self.method@, fields: fields_view(self.fields@) }
    }
}

pub open spec fn forms_view(v: Seq<Form>) -> Seq<FormView> {
    v.map_values(|f: Form| f@)
}

pub open spec fn or_empty(o: Option<Seq<char>>) -> Seq<char> {
    match o {
        Some(s) => s,
        None => Seq::empty(),
    }
}

/// The value written after `attr` and `=` in quotes `q`: from just after the
/// first such opening to the next `q`.
pub open spec fn quoted_after(frag: Seq<char>, attr: Seq<char>, q: char) -> Option<Seq<char>> {
    let open = attr + seq!['=', q];
    match find_from(frag, open, 0) {
        Some(st) => {
            let rest = frag.skip(st + open.len());
            match find_from(rest, seq![q], 0) {
                Some(e) => Some(rest.take(e)),
                None => None,
            }
        },
        None => None,
    }
}

/// The value of `attr` in a tag's text, double quotes tried before single.
pub open spec fn attr_val(frag: Seq<char>, attr: Seq<char>) -> Option<Seq<char>> {
    match quoted_after(frag, attr, '"') {
        Some(v) => Some(v),
        None => quoted_after(frag, attr, '\''),
    }
}

/// The fields from position `cur` of a form's text `s` (lower-cased) and `o`
/// (as written). A field tag that never closes runs to the end of the text,
/// and the scan stops there.
pub open spec fn fields_from(s: Seq<char>, o: Seq<char>, cur: int) -> Seq<FieldView>
    decreases s.len() - cur,
{
    if cur < 0 || cur > s.len() {
        Seq::empty()
    } else {
        proof {
            lemma_find_from(s, "<input"@, cur);
            lemma_find_from(s, "<textarea"@, cur);
        }
        let pos = match find_from(s, "<input"@, cur) {
            Some(p) => Some(p),
            None => find_from(s, "<textarea"@, cur),
        };
        match pos {
            None => Seq::empty(),
            Some(p) => {
                proof {
                    lemma_find_from(s, ">"@, p);
                }
                let te = match find_from(s, ">"@, p) {
                    Some(e) => e,
                    None => s.len() as int,
                };
                let frag = s.subrange(p, te);
                let frag_o = o.subrange(p, te);
                let name = or_empty(attr_val(frag, "name"@));
                let here = if name.len() > 0 {
                    seq![
                        FieldView {
                            name,
                            field_type: match attr_val(frag, "type"@) {
                                Some(t) => t,
                                None => "text"@,
                            },
                            value: or_empty(attr_val(frag_o, "value"@)),
                            placeholder: or_empty(attr_val(frag_o, "placeholder"@)),
                        },
                    ]
                } else {
                    Seq::empty()
                };
                if te < p || te >= s.len() {
                    here
                } else {
                    here + fields_from(s, o, te + 1)
                }
            },
        }
    }
}

/// The forms from position `cur` of the page text `s` (lower-cased) and `o`
/// (as written). A form's action and method are read from the lower-cased
/// text after `<form`; it counts when it has an action or a named field. A
/// form that never closes runs to the end of the text, and the scan stops
/// after a closing tag with nothing after it.
pub open spec fn forms_from(s: Seq<char>, o: Seq<char>, cur: int) -> Seq<FormView>
    decreases s.len() - cur,
{
    if cur < 0 || cur > s.len() {
        Seq::empty()
    } else {
        proof {
            lemma_find_from(s, "<form"@, cur);
        }
        match find_from(s, "<form"@, cur) {
            None => Seq::empty(),
            Some(fs) => {
                proof {
                    reveal_strlit("<form");
                    lemma_find_from(s, "</form"@, fs + 5);
                }
                let a = fs + 5;
                let rest = s.skip(a);
                let action = or_empty(attr_val(rest, "action"@));
                let method = unicode_upper(
                    match attr_val(rest, "method"@) {
                        Some(m) => m,
                        None => "GET"@,
                    },
                );
                let fe = match find_from(s, "</form"@, a) {
                    Some(e) => e,
                    None => s.len() as int,
                };
                let fields = fields_from(s.subrange(a, fe), o.subrange(a, fe), 0);
                let here = if fields.len() > 0 || action.len() > 0 {
                    seq![FormView { action, method, fields }]
                } else {
                    Seq::empty()
                };
                if fe < s.len() && fe + 7 <= s.len() {
                    here + forms_from(s, o, fe + 7)
                } else {
                    here
                }
            },
        }
    }
}

/// A character lower-cased by the Unicode rules, or kept as it is where
/// it lower-cases to more than one character.
pub open spec fn lower_one(c: char) -> char {
    let l = unicode_lower(seq![c]);
    if l.len() == 1 {
        l[0]
    } else {
        c
    }
}

/// The page with each character lowered by `lower_one`.
pub open spec fn lowered(html: Seq<char>) -> Seq<char> {
    html.map_values(|c: char| lower_one(c))
}

/// The forms of a page: the scan of `forms_from` over its lowered copy.
pub open spec fn page_forms(html: Seq<char>) -> Seq<FormView> {
    forms_from(lowered(html), html, 0)
}

fn lower_one_exec(c: char) -> (r: char)
    ensures
        r == lower_one(c),
{
    let mut one = String::new();
    push_char(&mut one, c);
    assert(one@ =~= seq![c]);
    let l = to_lower(one.as_str());
    let lc = chars_of(l.as_str());
    if lc.len() == 1 {
        lc[0]
    } else {
        c
    }
}

fn lowered_exec(o: &[char]) -> (r: Vec<char>)
    ensures
        r@ == lowered(o@),
{
    let mut out: Vec<char> = Vec::new();
    let mut i: usize = 0;
    while i < o.len()
        invariant
            i <= o@.len(),
            out@ == o@.take(i as int).map_values(|c: char| lower_one(c)),
        decreases o@.len() - i,
    {
        out.push(lower_one_exec(o[i]));
        i = i + 1;
        assert(out@ =~= o@.take(i as int).map_values(|c: char| lower_one(c)));
    }
    assert(o@.take(i as int) =~= o@);
    out
}

fn copy_range(v: &[char], lo: usize, hi: usize) -> (r: Vec<char>)
    requires
        lo <= hi <= v@.len(),
    ensures
        r@ == v@.subrange(lo as int, hi as int),
{
    let mut out: Vec<char> = Vec::new();
    let mut i = lo;
    while i < hi
        invariant
            lo <= i <= hi <= v@.len(),
            out@ == v@.subrange(lo as int, i as int),
        decreases hi - i,
    {
        out.push(v[i]);
        i = i + 1;
        assert(out@ =~= v@.subrange(lo as int, i as int));
    }
    out
}

fn quoted_after_exec(frag: &[char], attr: &str, q: char) -> (r: Option<String>)
    ensures
        match r {
            Some(v) => quoted_after(frag@, attr@, q) == Some(v@),
            None => quoted_after(frag@, attr@, q) is None,
        },
{
    let mut open = chars_of(attr);
    open.push('=');
    open.push(q);
    assert(open@ =~= attr@ + seq!['=', q]);
    let mut qv: Vec<char> = Vec::new();
    qv.push(q);
    assert(qv@ =~= seq![q]);
    proof {
        lemma_find_from(frag@, open@, 0);
    }
    match find_from_exec(frag, open.as_slice(), 0) {
        Some(st) => {
            let fl = frag.len();
            assert(fl == frag@.len());
            let a = st + open.len();
            proof {
                lemma_find_skip(frag@, qv@, a as int, 0);
                lemma_find_from(frag@, qv@, a as int);
            }
            match find_from_exec(frag, qv.as_slice(), a) {
                Some(e) => {
                    let v = copy_range(frag, a, e);
                    assert(v@ =~= frag@.skip(a as int).take(e - a));
                    Some(string_from(v.as_slice()))
                },
                None => None,
            }
        },
        None => None,
    }
}

/// The value of `attr` in a tag's text; see `attr_val`.
pub fn attr_value(frag: &[char], attr: &str) -> (r: Option<String>)
    ensures
        match r {
            Some(v) => attr_val(frag@, attr@) == Some(v@),
            None => attr_val(frag@, attr@) is None,
        },
{
    match quoted_after_exec(frag, attr, '"') {
        Some(v) => Some(v),
        None => quoted_after_exec(frag, attr, '\''),
    }
}

fn attr_or(frag: &[char], attr: &str, dflt: &str) -> (r: String)
    ensures
        r@ == (match attr_val(frag@, attr@) {
            Some(v) => v,
            None => dflt@,
        }),
{
    match attr_value(frag, attr) {
        Some(v) => v,
        None => dflt.to_owned(),
    }
}

/// The fields of a form's text, lower-cased and as written; see
/// `fields_from`.
pub fn extract_fields(lower_body: &[char], orig_body: &[char]) -> (r: Vec<FormField>)
    requires
        lower_body@.len() == orig_body@.len(),
    ensures
        fields_view(r@) == fields_from(lower_body@, orig_body@, 0),
{
    proof {
        reveal_strlit("");
        reveal_strlit(">");
    }
    let s = lower_body;
    let o = orig_body;
    let input = chars_of("<input");
    let textarea = chars_of("<textarea");
    let gt = chars_of(">");
    let mut fields: Vec<FormField> = Vec::new();
    let mut cur: usize = 0;
    assert(fields_view(fields@) + fields_from(s@, o@, 0) =~= fields_from(s@, o@, 0));
    while cur <= s.len()
        invariant
            cur <= s@.len(),
            s@.len() == o@.len(),
            s@ == lower_body@,
            o@ == orig_body@,
            input@ == "<input"@,
            textarea@ == "<textarea"@,
            gt@ == ">"@,
            fields_from(s@, o@, 0) == fields_view(fields@) + fields_from(s@, o@, cur as int),
        decreases s@.len() + 1 - cur,
    {
        proof {
            lemma_find_from(s@, input@, cur as int);
            lemma_find_from(s@, textarea@, cur as int);
        }
        let pos = match find_from_exec(s, input.as_slice(), cur) {
            Some(p) => Some(p),
            None => find_from_exec(s, textarea.as_slice(), cur),
        };
        let p = match pos {
            Some(p) => p,
            None => {
                assert(fields_from(s@, o@, cur as int) == Seq::<FieldView>::empty());
                assert(fields_view(fields@) + Seq::<FieldView>::empty() =~= fields_view(fields@));
                return fields;
            },
        };
        proof {
            lemma_find_from(s@, gt@, p as int);
        }
        let te = match find_from_exec(s, gt.as_slice(), p) {
            Some(e) => e,
            None => s.len(),
        };
        let frag = copy_range(s, p, te);
        let frag_o = copy_range(o, p, te);
        let ghost f0 = fields_view(fields@);
        let ghost fr = s@.subrange(p as int, te as int);
        let ghost fro = o@.subrange(p as int, te as int);
        let ghost sname = or_empty(attr_val(fr, "name"@));
        let ghost here = if sname.len() > 0 {
            seq![
                FieldView {
                    name: sname,
                    field_type: match attr_val(fr, "type"@) {
                        Some(t) => t,
                        None => "text"@,
                    },
                    value: or_empty(attr_val(fro, "value"@)),
                    placeholder: or_empty(attr_val(fro, "placeholder"@)),
                },
            ]
        } else {
            Seq::empty()
        };
        proof {
            reveal_strlit("");
        }
        assert(""@ =~= Seq::<char>::empty());
        let name = attr_or(frag.as_slice(), "name", "");
        assert(name@ == sname);
        if !name.as_str().is_empty() {
            let field_type = attr_or(frag.as_slice(), "type", "text");
            let value = attr_or(frag_o.as_slice(), "value", "");
            let placeholder = attr_or(frag_o.as_slice(), "placeholder", "");
            fields.push(FormField { name, field_type, value, placeholder });
        }
        assert(fields_view(fields@) =~= f0 + here);
        if te >= s.len() {
            assert(fields_from(s@, o@, cur as int) == here);
            return fields;
        }
        let ghost rest = fields_from(s@, o@, te + 1);
        assert(fields_from(s@, o@, cur as int) == here + rest);
        assert(f0 + (here + rest) =~= fields_view(fields@) + rest);
        cur = te + 1;
    }
    fields
}

/// Every form of the page text; see `page_forms`.
#[verifier::rlimit(40)]
pub fn extract_forms(html: &str) -> (r: Vec<Form>)
    ensures
        forms_view(r@) == page_forms(html@),
{
    proof {
        reveal_strlit("<form");
        reveal_strlit("</form");
        reveal_strlit("");
    }
    let o = chars_of(html);
    let s = lowered_exec(o.as_slice());
    let form_open = chars_of("<form");
    let form_close = chars_of("</form");
    let mut forms: Vec<Form> = Vec::new();
    let mut cur: usize = 0;
    assert(forms_view(forms@) + forms_from(s@, o@, 0) =~= forms_from(s@, o@, 0));
    while cur <= s.len()
        invariant
            cur <= s@.len(),
            s@.len() == o@.len(),
            s@ == lowered(html@),
            o@ == html@,
            form_open@ == "<form"@,
            form_close@ == "</form"@,
            page_forms(html@) == forms_view(forms@) + forms_from(s@, o@, cur as int),
        decreases s@.len() + 1 - cur,
    {
        proof {
            lemma_find_from(s@, form_open@, cur as int);
            reveal_strlit("<form");
            reveal_strlit("</form");
        }
        let sl = s.len();
        assert(sl == s@.len());
        let fs = match find_from_exec(s.as_slice(), form_open.as_slice(), cur) {
            Some(fs) => fs,
            None => {
                assert(forms_view(forms@) + Seq::<FormView>::empty() =~= forms_view(forms@));
                return forms;
            },
        };
        let a = fs + 5;
        proof {
            lemma_find_from(s@, form_close@, a as int);
            reveal_strlit("");
        }
        assert(""@ =~= Seq::<char>::empty());
        let rest = copy_range(s.as_slice(), a, s.len());
        assert(rest@ =~= s@.skip(a as int));
        let action = attr_or(rest.as_slice(), "action", "");
        let m = attr_or(rest.as_slice(), "method", "GET");
        let method = to_upper(m.as_str());
        let fe = match find_from_exec(s.as_slice(), form_close.as_slice(), a) {
            Some(e) => e,
            None => s.len(),
        };
        let body = copy_range(s.as_slice(), a, fe);
        let body_o = copy_range(o.as_slice(), a, fe);
        let fields = extract_fields(body.as_slice(), body_o.as_slice());
        let ghost f0 = forms_view(forms@);
        let ghost here = if fields_view(fields@).len() > 0 || action@.len() > 0 {
            seq![FormView { action: action@, method: method@, fields: fields_view(fields@) }]
        } else {
            Seq::empty()
        };
        if fields.len() > 0 || !action.as_str().is_empty() {
            forms.push(Form { action, method, fields });
        }
        assert(forms_view(forms@) =~= f0 + here);
        if fe < s.len() && s.len() - fe >= 7 {
            let ghost r = forms_from(s@, o@, fe + 7);
            assert(f0 + (here + r) =~= forms_view(forms@) + r);
            cur = fe + 7;
        } else {
            assert(f0 + here =~= forms_view(forms@));
            return forms;
        }
    }
    forms
}

} // verus!
