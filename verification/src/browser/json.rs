//! JSON values as the page extractors read them: parsed by `serde_json`,
//! held as plain values, navigated by key and index.
use vstd::prelude::*;
use crate::text::{digits_value, is_digit, lemma_digits_grow, str_eq};

verus! {

#[verifier::external_type_specification]
#[verifier::external_body]
pub struct ExSerdeValue(serde_json::Value);

/// A JSON value. Numbers are kept as `serde_json`'s own text for them;
/// object members come in the order `serde_json`'s map iterates them.
#[derive(Debug)]
pub enum JsonValue {
    Null,
    Bool(bool),
    Number(String),
    Str(String),
    Array(Vec<JsonValue>),
    Object(Vec<(String, JsonValue)>),
}

#[verifier::ext_equal]
pub enum JsonView {
    Null,
    Bool(bool),
    Number(Seq<char>),
    Str(Seq<char>),
    Array(Seq<JsonView>),
    Object(Seq<(Seq<char>, JsonView)>),
}

pub open spec fn json_view(v: JsonValue) -> JsonView
    decreases v,
{
    match v {
        JsonValue::Null => JsonView::Null,
        JsonValue::Bool(b) => JsonView::Bool(b),
        JsonValue::Number(n) => JsonView::Number(n@),
        JsonValue::Str(s) => JsonView::Str(s@),
        JsonValue::Array(a) => {
            proof {
                assert(decreases_to!(a => a@));
            }
            JsonView::Array(json_views(a@))
        },
        JsonValue::Object(m) => {
            proof {
                assert(decreases_to!(m => m@));
            }
            JsonView::Object(json_members(m@))
        },
    }
}

pub open spec fn json_views(s: Seq<JsonValue>) -> Seq<JsonView>
    decreases s,
{
    if s.len() == 0 {
        Seq::empty()
    } else {
        seq![json_view(s[0])] + json_views(s.drop_first())
    }
}

pub open spec fn json_members(s: Seq<(String, JsonValue)>) -> Seq<(Seq<char>, JsonView)>
    decreases s,
{
    if s.len() == 0 {
        Seq::empty()
    } else {
        proof {
            assert(decreases_to!(s => s[0]));
        }
        seq![(s[0].0@, json_view(s[0].1))] + json_members(s.drop_first())
    }
}

pub proof fn lemma_json_views(s: Seq<JsonValue>)
    ensures
        json_views(s).len() == s.len(),
        forall|i: int| 0 <= i < s.len() ==> #[trigger] json_views(s)[i] == json_view(s[i]),
    decreases s.len(),
{
    if s.len() > 0 {
        lemma_json_views(s.drop_first());
        assert forall|i: int| 0 <= i < s.len() implies #[trigger] json_views(s)[i] == json_view(s[i]) by {
            if i > 0 {
                assert(s.drop_first()[i - 1] == s[i]);
            }
        }
    }
}

pub proof fn lemma_json_members(s: Seq<(String, JsonValue)>)
    ensures
        json_members(s).len() == s.len(),
        forall|i: int|
            0 <= i < s.len() ==> #[trigger] json_members(s)[i] == (s[i].0@, json_view(s[i].1)),
    decreases s.len(),
{
    if s.len() > 0 {
        lemma_json_members(s.drop_first());
        assert forall|i: int| 0 <= i < s.len() implies #[trigger] json_members(s)[i] == (
            s[i].0@,
            json_view(s[i].1),
        ) by {
            if i > 0 {
                assert(s.drop_first()[i - 1] == s[i]);
            }
        }
    }
}

impl View for JsonValue {
    type V = JsonView;

    open spec fn view(&self) -> JsonView {
        json_view(*self)
    }
}

/// What `serde_json::from_str::<serde_json::Value>` gives for `text`: the
/// value, or the text with which its error displays itself.
pub uninterp spec fn json_parse(text: Seq<char>) -> Result<JsonView, Seq<char>>;

/// The value `text` parses to, `None` when it does not parse.
pub open spec fn parsed_ok(text: Seq<char>) -> Option<JsonView> {
    match json_parse(text) {
        Ok(v) => Some(v),
        Err(_) => None,
    }
}

/// What `serde_json::to_string_pretty` writes for a value.
pub uninterp spec fn json_pretty(v: JsonView) -> Seq<char>;

/// Parses `text` with `serde_json::from_str` into a `serde_json::Value` and
/// copies it out, or gives the error's displayed text; the contract names
/// the result.
#[verifier::external_body]
pub(crate) fn parse_json(text: &str) -> (r: Result<JsonValue, String>)
    ensures
        match r {
            Ok(v) => json_parse(text@) == Ok::<JsonView, Seq<char>>(v@),
            Err(m) => json_parse(text@) == Err::<JsonView, Seq<char>>(m@),
        },
{
    serde_json::from_str::<serde_json::Value>(text).map(|v| from_serde(&v)).map_err(|e| e.to_string())
}

/// Writes a value with `serde_json::to_string_pretty`; the contract names the
/// text. A number whose text `serde_json` does not read back is written as
/// `null`; numbers that `parse_json` gave always read back.
#[verifier::external_body]
pub(crate) fn pretty_json(v: &JsonValue) -> (r: String)
    ensures
        r@ == json_pretty(v@),
{
    serde_json::to_string_pretty(&to_serde(v)).unwrap_or_default()
}

/// Copies a `serde_json::Value`, variant for variant.
#[verifier::external_body]
fn from_serde(v: &serde_json::Value) -> JsonValue {
    match v {
        serde_json::Value::Null => JsonValue::Null,
        serde_json::Value::Bool(b) => JsonValue::Bool(*b),
        serde_json::Value::Number(n) => JsonValue::Number(n.to_string()),
        serde_json::Value::String(s) => JsonValue::Str(s.clone()),
        serde_json::Value::Array(a) => JsonValue::Array(a.iter().map(from_serde).collect()),
        serde_json::Value::Object(m) => JsonValue::Object(m.iter().map(|(k, x)| (k.clone(), from_serde(x))).collect()),
    }
}

/// Copies a value back into a `serde_json::Value`, variant for variant.
#[verifier::external_body]
fn to_serde(v: &JsonValue) -> serde_json::Value {
    match v {
        JsonValue::Null => serde_json::Value::Null,
        JsonValue::Bool(b) => serde_json::Value::Bool(*b),
        JsonValue::Number(n) => n.parse::<serde_json::Number>().map_or(serde_json::Value::Null, serde_json::Value::Number),
        JsonValue::Str(s) => serde_json::Value::String(s.clone()),
        JsonValue::Array(a) => serde_json::Value::Array(a.iter().map(to_serde).collect()),
        JsonValue::Object(m) => serde_json::Value::Object(m.iter().map(|(k, x)| (k.clone(), to_serde(x))).collect()),
    }
}

/// The value of the first member named `key`.
pub open spec fn member(ms: Seq<(Seq<char>, JsonView)>, key: Seq<char>) -> Option<JsonView>
    decreases ms.len(),
{
    if ms.len() == 0 {
        None
    } else if ms[0].0 == key {
        Some(ms[0].1)
    } else {
        member(ms.drop_first(), key)
    }
}

/// `Value::get` with a key: the member of an object.
pub open spec fn get_key(v: JsonView, key: Seq<char>) -> Option<JsonView> {
    match v {
        JsonView::Object(ms) => member(ms, key),
        _ => None,
    }
}

/// `Value::get` with an index: the element of an array.
pub open spec fn get_index(v: JsonView, i: int) -> Option<JsonView> {
    match v {
        JsonView::Array(a) => if 0 <= i < a.len() {
            Some(a[i])
        } else {
            None
        },
        _ => None,
    }
}

/// A JSON-pointer token read as an array index: decimal digits without a
/// leading zero (but `0` itself) that fit in a `usize`.
pub open spec fn token_index(t: Seq<char>) -> Option<int> {
    if t.len() > 0 && (forall|i: int| 0 <= i < t.len() ==> #[trigger] is_digit(t[i])) && (t[0] != '0' || t.len()
        == 1) && digits_value(t) <= usize::MAX {
        Some(digits_value(t) as int)
    } else {
        None
    }
}

/// One pointer step: a member of an object, an element of an array.
pub open spec fn pointer_step(v: JsonView, t: Seq<char>) -> Option<JsonView> {
    match v {
        JsonView::Object(ms) => member(ms, t),
        JsonView::Array(_) => match token_index(t) {
            Some(i) => get_index(v, i),
            None => None,
        },
        _ => None,
    }
}

/// `Value::pointer` for a pointer made of the given tokens.
pub open spec fn pointer_spec(v: JsonView, toks: Seq<Seq<char>>) -> Option<JsonView>
    decreases toks.len(),
{
    if toks.len() == 0 {
        Some(v)
    } else {
        match pointer_step(v, toks[0]) {
            Some(w) => pointer_spec(w, toks.drop_first()),
            None => None,
        }
    }
}

pub open spec fn as_str(v: Option<JsonView>) -> Option<Seq<char>> {
    match v {
        Some(JsonView::Str(s)) => Some(s),
        _ => None,
    }
}

pub open spec fn toks_view(toks: Seq<&str>) -> Seq<Seq<char>> {
    toks.map_values(|t: &str| t@)
}

impl JsonValue {
    /// The member named `key` of an object.
    pub fn get_key(&self, key: &str) -> (r: Option<&JsonValue>)
        ensures
            match r {
                Some(x) => get_key(self@, key@) == Some(x@),
                None => get_key(self@, key@) is None,
            },
    {
        match self {
            JsonValue::Object(ms) => {
                let ghost mv = json_members(ms@);
                proof {
                    lemma_json_members(ms@);
                }
                assert(self@ == JsonView::Object(mv));
                let mut i: usize = 0;
                assert(mv.skip(0) =~= mv);
                while i < ms.len()
                    invariant
                        i <= ms@.len(),
                        mv == json_members(ms@),
                        self@ == JsonView::Object(mv),
                        mv.len() == ms@.len(),
                        forall|j: int| 0 <= j < ms@.len() ==> #[trigger] mv[j] == (ms@[j].0@, json_view(ms@[j].1)),
                        member(mv, key@) == member(mv.skip(i as int), key@),
                    decreases ms@.len() - i,
                {
                    assert(mv.skip(i as int)[0] == mv[i as int]);
                    if str_eq(ms[i].0.as_str(), key) {
                        assert(mv[i as int] == (ms@[i as int].0@, json_view(ms@[i as int].1)));
                        assert(member(mv.skip(i as int), key@) == Some(json_view(ms@[i as int].1)));
                        let r = &ms[i].1;
                        assert(r@ == json_view(ms@[i as int].1));
                        return Some(r);
                    }
                    assert(mv.skip(i as int).drop_first() =~= mv.skip(i + 1));
                    i = i + 1;
                }
                None
            },
            _ => None,
        }
    }

    /// The element at `i` of an array.
    pub fn get_index(&self, i: usize) -> (r: Option<&JsonValue>)
        ensures
            match r {
                Some(x) => get_index(self@, i as int) == Some(x@),
                None => get_index(self@, i as int) is None,
            },
    {
        match self {
            JsonValue::Array(a) => {
                proof {
                    lemma_json_views(a@);
                }
                if i < a.len() {
                    Some(&a[i])
                } else {
                    None
                }
            },
            _ => None,
        }
    }

    /// The text of a string value.
    pub fn as_str(&self) -> (r: Option<&str>)
        ensures
            match r {
                Some(s) => self@ == JsonView::Str(s@),
                None => !(self@ is Str),
            },
    {
        match self {
            JsonValue::Str(s) => Some(s.as_str()),
            _ => None,
        }
    }

    /// Follows a JSON pointer given as its tokens.
    pub fn pointer(&self, toks: &[&str]) -> (r: Option<&JsonValue>)
        ensures
            match r {
                Some(x) => pointer_spec(self@, toks_view(toks@)) == Some(x@),
                None => pointer_spec(self@, toks_view(toks@)) is None,
            },
    {
        let ghost tv = toks_view(toks@);
        let mut cur: &JsonValue = self;
        let mut k: usize = 0;
        assert(tv.skip(0) =~= tv);
        while k < toks.len()
            invariant
                k <= toks@.len(),
                tv == toks_view(toks@),
                pointer_spec(self@, tv) == pointer_spec(cur@, tv.skip(k as int)),
            decreases toks@.len() - k,
        {
            let t = toks[k];
            assert(tv.skip(k as int)[0] == t@);
            assert(tv.skip(k as int).drop_first() =~= tv.skip(k + 1));
            let next = match cur {
                JsonValue::Object(_) => cur.get_key(t),
                JsonValue::Array(_) => match token_index_exec(t) {
                    Some(i) => cur.get_index(i),
                    None => None,
                },
                _ => None,
            };
            match next {
                Some(n) => {
                    cur = n;
                },
                None => {
                    return None;
                },
            }
            k = k + 1;
        }
        Some(cur)
    }
}

fn token_index_exec(t: &str) -> (r: Option<usize>)
    ensures
        match r {
            Some(i) => token_index(t@) == Some(i as int),
            None => token_index(t@) is None,
        },
{
    let cs = crate::text::chars_of(t);
    if cs.len() == 0 {
        return None;
    }
    if cs[0] == '0' && cs.len() != 1 {
        return None;
    }
    let mut v: usize = 0;
    let mut i: usize = 0;
    assert(cs@.take(0) =~= Seq::<char>::empty());
    while i < cs.len()
        invariant
            i <= cs@.len(),
            cs@ == t@,
            forall|j: int| 0 <= j < i ==> #[trigger] is_digit(cs@[j]),
            v as nat == digits_value(cs@.take(i as int)),
        decreases cs@.len() - i,
    {
        let c = cs[i];
        if !('0' <= c && c <= '9') {
            assert(!is_digit(cs@[i as int]));
            return None;
        }
        let d = (c as u32 - '0' as u32) as usize;
        let ghost t1 = cs@.take(i + 1);
        assert(t1.drop_last() =~= cs@.take(i as int));
        assert(t1.last() == c);
        match v.checked_mul(10) {
            Some(m) => match m.checked_add(d) {
                Some(n) => {
                    v = n;
                },
                None => {
                    proof {
                        if forall|j: int| 0 <= j < cs@.len() ==> #[trigger] is_digit(cs@[j]) {
                            lemma_digits_grow(cs@, i as int + 1);
                        }
                    }
                    return None;
                },
            },
            None => {
                proof {
                    if forall|j: int| 0 <= j < cs@.len() ==> #[trigger] is_digit(cs@[j]) {
                        lemma_digits_grow(cs@, i as int + 1);
                    }
                }
                return None;
            },
        }
        i = i + 1;
    }
    assert(cs@.take(cs@.len() as int) =~= cs@);
    Some(v)
}


/// A number written as its decimal digits.
pub open spec fn jnum(n: nat) -> JsonView {
    JsonView::Number(crate::text::decimal(n))
}

/// A string value.
pub fn jstr(s: &str) -> (r: JsonValue)
    ensures
        r@ == JsonView::Str(s@),
{
    JsonValue::Str(s.to_owned())
}

/// A number value for `n`.
pub fn jnum_exec(n: usize) -> (r: JsonValue)
    ensures
        r@ == jnum(n as nat),
{
    JsonValue::Number(crate::text::decimal_string(n as u128))
}

/// A number value written as `text`.
pub fn jnum_text(text: &str) -> (r: JsonValue)
    ensures
        r@ == JsonView::Number(text@),
{
    JsonValue::Number(text.to_owned())
}

/// An array of the given values.
pub fn jarr(items: Vec<JsonValue>) -> (r: JsonValue)
    ensures
        r@ == JsonView::Array(json_views(items@)),
{
    JsonValue::Array(items)
}

/// The empty object `{}`.
pub fn obj0() -> (r: JsonValue)
    ensures
        r@ == JsonView::Object(Seq::empty()),
{
    let r = JsonValue::Object(Vec::new());
    assert(r@ =~= JsonView::Object(Seq::empty()));
    r
}

/// The object with 1 member, in the order given.
pub fn obj1(k1: &str, v1: JsonValue) -> (r: JsonValue)
    ensures
        r@ == JsonView::Object(seq![(k1@, v1@)]),
{
    let ghost g1 = v1@;
    let mut m: Vec<(String, JsonValue)> = Vec::new();
    m.push((k1.to_owned(), v1));
    proof {
        lemma_json_members(m@);
    }
    assert(json_members(m@) =~= seq![(k1@, g1)]);
    JsonValue::Object(m)
}

/// The object with 2 members, in the order given.
pub fn obj2(k1: &str, v1: JsonValue, k2: &str, v2: JsonValue) -> (r: JsonValue)
    ensures
        r@ == JsonView::Object(seq![(k1@, v1@), (k2@, v2@)]),
{
    let ghost g1 = v1@;
    let ghost g2 = v2@;
    let mut m: Vec<(String, JsonValue)> = Vec::new();
    m.push((k1.to_owned(), v1));
    m.push((k2.to_owned(), v2));
    proof {
        lemma_json_members(m@);
    }
    assert(json_members(m@) =~= seq![(k1@, g1), (k2@, g2)]);
    JsonValue::Object(m)
}

/// The object with 3 members, in the order given.
pub fn obj3(k1: &str, v1: JsonValue, k2: &str, v2: JsonValue, k3: &str, v3: JsonValue) -> (r: JsonValue)
    ensures
        r@ == JsonView::Object(seq![(k1@, v1@), (k2@, v2@), (k3@, v3@)]),
{
    let ghost g1 = v1@;
    let ghost g2 = v2@;
    let ghost g3 = v3@;
    let mut m: Vec<(String, JsonValue)> = Vec::new();
    m.push((k1.to_owned(), v1));
    m.push((k2.to_owned(), v2));
    m.push((k3.to_owned(), v3));
    proof {
        lemma_json_members(m@);
    }
    assert(json_members(m@) =~= seq![(k1@, g1), (k2@, g2), (k3@, g3)]);
    JsonValue::Object(m)
}

/// The object with 4 members, in the order given.
pub fn obj4(k1: &str, v1: JsonValue, k2: &str, v2: JsonValue, k3: &str, v3: JsonValue, k4: &str, v4: JsonValue) -> (r: JsonValue)
    ensures
        r@ == JsonView::Object(seq![(k1@, v1@), (k2@, v2@), (k3@, v3@), (k4@, v4@)]),
{
    let ghost g1 = v1@;
    let ghost g2 = v2@;
    let ghost g3 = v3@;
    let ghost g4 = v4@;
    let mut m: Vec<(String, JsonValue)> = Vec::new();
    m.push((k1.to_owned(), v1));
    m.push((k2.to_owned(), v2));
    m.push((k3.to_owned(), v3));
    m.push((k4.to_owned(), v4));
    proof {
        lemma_json_members(m@);
    }
    assert(json_members(m@) =~= seq![(k1@, g1), (k2@, g2), (k3@, g3), (k4@, g4)]);
    JsonValue::Object(m)
}

/// The object with 5 members, in the order given.
pub fn obj5(k1: &str, v1: JsonValue, k2: &str, v2: JsonValue, k3: &str, v3: JsonValue, k4: &str, v4: JsonValue, k5: &str, v5: JsonValue) -> (r: JsonValue)
    ensures
        r@ == JsonView::Object(seq![(k1@, v1@), (k2@, v2@), (k3@, v3@), (k4@, v4@), (k5@, v5@)]),
{
    let ghost g1 = v1@;
    let ghost g2 = v2@;
    let ghost g3 = v3@;
    let ghost g4 = v4@;
    let ghost g5 = v5@;
    let mut m: Vec<(String, JsonValue)> = Vec::new();
    m.push((k1.to_owned(), v1));
    m.push((k2.to_owned(), v2));
    m.push((k3.to_owned(), v3));
    m.push((k4.to_owned(), v4));
    m.push((k5.to_owned(), v5));
    proof {
        lemma_json_members(m@);
    }
    assert(json_members(m@) =~= seq![(k1@, g1), (k2@, g2), (k3@, g3), (k4@, g4), (k5@, g5)]);
    JsonValue::Object(m)
}

/// The object with 6 members, in the order given.
pub fn obj6(k1: &str, v1: JsonValue, k2: &str, v2: JsonValue, k3: &str, v3: JsonValue, k4: &str, v4: JsonValue, k5: &str, v5: JsonValue, k6: &str, v6: JsonValue) -> (r: JsonValue)
    ensures
        r@ == JsonView::Object(seq![(k1@, v1@), (k2@, v2@), (k3@, v3@), (k4@, v4@), (k5@, v5@), (k6@, v6@)]),
{
    let ghost g1 = v1@;
    let ghost g2 = v2@;
    let ghost g3 = v3@;
    let ghost g4 = v4@;
    let ghost g5 = v5@;
    let ghost g6 = v6@;
    let mut m: Vec<(String, JsonValue)> = Vec::new();
    m.push((k1.to_owned(), v1));
    m.push((k2.to_owned(), v2));
    m.push((k3.to_owned(), v3));
    m.push((k4.to_owned(), v4));
    m.push((k5.to_owned(), v5));
    m.push((k6.to_owned(), v6));
    proof {
        lemma_json_members(m@);
    }
    assert(json_members(m@) =~= seq![(k1@, g1), (k2@, g2), (k3@, g3), (k4@, g4), (k5@, g5), (k6@, g6)]);
    JsonValue::Object(m)
}

/// The object with 7 members, in the order given.
pub fn obj7(k1: &str, v1: JsonValue, k2: &str, v2: JsonValue, k3: &str, v3: JsonValue, k4: &str, v4: JsonValue, k5: &str, v5: JsonValue, k6: &str, v6: JsonValue, k7: &str, v7: JsonValue) -> (r: JsonValue)
    ensures
        r@ == JsonView::Object(seq![(k1@, v1@), (k2@, v2@), (k3@, v3@), (k4@, v4@), (k5@, v5@), (k6@, v6@), (k7@, v7@)]),
{
    let ghost g1 = v1@;
    let ghost g2 = v2@;
    let ghost g3 = v3@;
    let ghost g4 = v4@;
    let ghost g5 = v5@;
    let ghost g6 = v6@;
    let ghost g7 = v7@;
    let mut m: Vec<(String, JsonValue)> = Vec::new();
    m.push((k1.to_owned(), v1));
    m.push((k2.to_owned(), v2));
    m.push((k3.to_owned(), v3));
    m.push((k4.to_owned(), v4));
    m.push((k5.to_owned(), v5));
    m.push((k6.to_owned(), v6));
    m.push((k7.to_owned(), v7));
    proof {
        lemma_json_members(m@);
    }
    assert(json_members(m@) =~= seq![(k1@, g1), (k2@, g2), (k3@, g3), (k4@, g4), (k5@, g5), (k6@, g6), (k7@, g7)]);
    JsonValue::Object(m)
}


/// `Value::as_u64`: a number written as plain decimal digits that fits in a
/// `u64`.
pub open spec fn as_u64_spec(v: JsonView) -> Option<u64> {
    match v {
        JsonView::Number(t) => match crate::text::unsigned_value(t) {
            Some(n) => if n <= u64::MAX {
                Some(n as u64)
            } else {
                None
            },
            None => None,
        },
        _ => None,
    }
}

/// `Value::as_i64`: a number written as decimal digits, with a leading `-`
/// for a negative one, that fits in an `i64`.
pub open spec fn as_i64_spec(v: JsonView) -> Option<i64> {
    match v {
        JsonView::Number(t) => if t.len() > 0 && t[0] == '-' {
            match crate::text::unsigned_value(t.drop_first()) {
                Some(n) => if n <= 0x8000_0000_0000_0000 {
                    Some((-n) as i64)
                } else {
                    None
                },
                None => None,
            }
        } else {
            match crate::text::unsigned_value(t) {
                Some(n) => if n <= i64::MAX {
                    Some(n as i64)
                } else {
                    None
                },
                None => None,
            }
        },
        _ => None,
    }
}

impl JsonValue {
    /// The value of a number written as plain decimal digits that fits in a
    /// `u64`.
    pub fn as_u64(&self) -> (r: Option<u64>)
        ensures
            r == as_u64_spec(self@),
    {
        match self {
            JsonValue::Number(t) => {
                let cs = crate::text::chars_of(t.as_str());
                assert(cs@.skip(0) =~= cs@);
                crate::text::digits_u64(cs.as_slice(), 0)
            },
            _ => None,
        }
    }

    /// The value of an integer number that fits in an `i64`.
    pub fn as_i64(&self) -> (r: Option<i64>)
        ensures
            r == as_i64_spec(self@),
    {
        match self {
            JsonValue::Number(t) => {
                let cs = crate::text::chars_of(t.as_str());
                if cs.len() > 0 && cs[0] == '-' {
                    assert(cs@.skip(1) =~= cs@.drop_first());
                    match crate::text::digits_u64(cs.as_slice(), 1) {
                        Some(n) => {
                            if n < 0x8000_0000_0000_0000 {
                                Some(-(n as i64))
                            } else if n == 0x8000_0000_0000_0000 {
                                Some(i64::MIN)
                            } else {
                                None
                            }
                        },
                        None => None,
                    }
                } else {
                    assert(cs@.skip(0) =~= cs@);
                    match crate::text::digits_u64(cs.as_slice(), 0) {
                        Some(n) => if n <= 0x7fff_ffff_ffff_ffff {
                            Some(n as i64)
                        } else {
                            None
                        },
                        None => None,
                    }
                }
            },
            _ => None,
        }
    }
}


/// Appends `x` to the array items `v`.
pub fn push_json(v: &mut Vec<JsonValue>, x: JsonValue)
    ensures
        json_views(final(v)@) == json_views(old(v)@).push(x@),
{
    let ghost g = x@;
    let ghost before = v@;
    v.push(x);
    proof {
        lemma_json_views(before);
        lemma_json_views(v@);
        assert(v@[before.len() as int]@ == g);
        assert(json_views(v@) =~= json_views(before).push(g));
    }
}


impl JsonValue {
    /// A copy of the value, member for member.
    pub fn duplicate(&self) -> (r: JsonValue)
        ensures
            r@ == self@,
        decreases self@,
    {
        match self {
            JsonValue::Null => JsonValue::Null,
            JsonValue::Bool(b) => JsonValue::Bool(*b),
            JsonValue::Number(n) => JsonValue::Number(n.clone()),
            JsonValue::Str(t) => JsonValue::Str(t.clone()),
            JsonValue::Array(a) => {
                let ghost av = json_views(a@);
                let mut out: Vec<JsonValue> = Vec::new();
                let mut i: usize = 0;
                proof {
                    lemma_json_views(out@);
                    lemma_json_views(a@);
                }
                while i < a.len()
                    invariant
                        i <= a@.len(),
                        av == json_views(a@),
                        av.len() == a@.len(),
                        self@ == JsonView::Array(av),
                        forall|j: int| 0 <= j < a@.len() ==> #[trigger] av[j] == json_view(a@[j]),
                        json_views(out@) =~= av.take(i as int),
                    decreases a@.len() - i,
                {
                    assert(decreases_to!(self@ => av[i as int])) by {
                        let w = self@;
                        assert(w->Array_0 == av);
                        assert(decreases_to!(w => w->Array_0));
                        assert(decreases_to!(av => av[i as int]));
                    }
                    let x = a[i].duplicate();
                    push_json(&mut out, x);
                    assert(av.take(i + 1) =~= av.take(i as int).push(av[i as int]));
                    i = i + 1;
                }
                assert(av.take(a@.len() as int) =~= av);
                JsonValue::Array(out)
            },
            JsonValue::Object(ms) => {
                let ghost mv = json_members(ms@);
                let mut out: Vec<(String, JsonValue)> = Vec::new();
                let mut i: usize = 0;
                proof {
                    lemma_json_members(ms@);
                }
                while i < ms.len()
                    invariant
                        i <= ms@.len(),
                        mv == json_members(ms@),
                        mv.len() == ms@.len(),
                        self@ == JsonView::Object(mv),
                        forall|j: int| 0 <= j < ms@.len() ==> #[trigger] mv[j] == (ms@[j].0@, json_view(ms@[j].1)),
                        out@.len() == i,
                        forall|j: int| 0 <= j < i ==> #[trigger] out@[j].0@ == ms@[j].0@ && json_view(out@[j].1) == json_view(ms@[j].1),
                    decreases ms@.len() - i,
                {
                    assert(decreases_to!(self@ => mv[i as int].1)) by {
                        let w = self@;
                        assert(w->Object_0 == mv);
                        assert(decreases_to!(w => w->Object_0));
                        assert(decreases_to!(mv => mv[i as int]));
                        assert(decreases_to!(mv[i as int] => mv[i as int].1));
                    }
                    let k = ms[i].0.clone();
                    let x = ms[i].1.duplicate();
                    out.push((k, x));
                    i = i + 1;
                }
                proof {
                    lemma_json_members(out@);
                }
                assert(json_members(out@) =~= mv);
                JsonValue::Object(out)
            },
        }
    }
}

} // verus!
