//! External renderers: the command templates that start them, and the
//! filling-in of a template for one render.
use vstd::prelude::*;
use crate::browser::json::{parse_json, parsed_ok, json_views, lemma_json_views, JsonValue, JsonView};
use crate::text::{chars_of, find_from, find_from_exec, join, lemma_find_from, str_eq, trim, trim_str};
use crate::vulturine::RenderBackend;

verus! {

pub const SERVO_CMD_ENV: &'static str = "VULTURINE_SERVO_CMD_JSON";

pub const LADYBIRD_CMD_ENV: &'static str = "VULTURINE_LADYBIRD_CMD_JSON";

pub const SERVO_BIN_ENV: &'static str = "VULTURINE_SERVO_BIN";

pub const LADYBIRD_BIN_ENV: &'static str = "VULTURINE_LADYBIRD_BIN";

#[derive(Clone, Copy, Debug, PartialEq, Eq, Structural)]
pub enum ExternalKind {
    Servo,
    Ladybird,
}

impl ExternalKind {
    /// The short name used in file names.
    pub fn slug(self) -> (r: &'static str)
        ensures
            r@ == (match self {
                ExternalKind::Servo => "servo"@,
                ExternalKind::Ladybird => "ladybird"@,
            }),
    {
        match self {
            ExternalKind::Servo => "servo",
            ExternalKind::Ladybird => "ladybird",
        }
    }

    /// The variable holding a JSON array of command words.
    pub fn command_env(self) -> (r: &'static str)
        ensures
            r@ == (match self {
                ExternalKind::Servo => SERVO_CMD_ENV@,
                ExternalKind::Ladybird => LADYBIRD_CMD_ENV@,
            }),
    {
        match self {
            ExternalKind::Servo => SERVO_CMD_ENV,
            ExternalKind::Ladybird => LADYBIRD_CMD_ENV,
        }
    }

    /// The variable holding the path of the executable.
    pub fn bin_env(self) -> (r: &'static str)
        ensures
            r@ == (match self {
                ExternalKind::Servo => SERVO_BIN_ENV@,
                ExternalKind::Ladybird => LADYBIRD_BIN_ENV@,
            }),
    {
        match self {
            ExternalKind::Servo => SERVO_BIN_ENV,
            ExternalKind::Ladybird => LADYBIRD_BIN_ENV,
        }
    }
}

pub open spec fn configured(backend: RenderBackend, candidates: nat) -> bool {
    match backend {
        RenderBackend::Software => true,
        _ => candidates > 0,
    }
}

/// The software renderer is always there; an external one needs command
/// candidates (those of its kind).
pub fn is_configured(backend: RenderBackend, candidates: &Vec<Vec<String>>) -> (r: bool)
    ensures
        r == configured(backend, candidates@.len()),
{
    match backend {
        RenderBackend::Software => true,
        _ => candidates.len() > 0,
    }
}

/// The variable to set for an external backend; none for the software one.
pub fn config_hint(backend: RenderBackend) -> (r: Option<&'static str>)
    ensures
        match backend {
            RenderBackend::Software => r is None,
            RenderBackend::Servo => r matches Some(s) && s@ == SERVO_CMD_ENV@,
            RenderBackend::Ladybird => r matches Some(s) && s@ == LADYBIRD_CMD_ENV@,
        },
{
    match backend {
        RenderBackend::Software => None,
        RenderBackend::Servo => Some(SERVO_CMD_ENV),
        RenderBackend::Ladybird => Some(LADYBIRD_CMD_ENV),
    }
}

pub open spec fn words_view(v: Seq<String>) -> Seq<Seq<char>> {
    v.map_values(|s: String| s@)
}

pub open spec fn templates_view(v: Seq<Vec<String>>) -> Seq<Seq<Seq<char>>> {
    v.map_values(|t: Vec<String>| words_view(t@))
}

/// The command words of a JSON array of strings; `None` when the text is
/// not such an array, holds something else, or is empty.
pub open spec fn command_words(raw: Seq<char>) -> Option<Seq<Seq<char>>> {
    match parsed_ok(raw) {
        Some(JsonView::Array(items)) => if items.len() > 0 && (forall|i: int|
            0 <= i < items.len() ==> #[trigger] items[i] is Str) {
            Some(Seq::new(items.len(), |i: int| items[i]->Str_0))
        } else {
            None
        },
        _ => None,
    }
}

/// Reads command words from the JSON text of a configuration variable; see
/// `command_words`.
pub fn parse_command_json(raw: &str) -> (r: Option<Vec<String>>)
    ensures
        match r {
            Some(v) => command_words(raw@) == Some(words_view(v@)),
            None => command_words(raw@) is None,
        },
{
    let parsed = match parse_json(raw) {
        Ok(v) => v,
        Err(_) => return None,
    };
    match &parsed {
        JsonValue::Array(items) => {
            let ghost iv = json_views(items@);
            proof {
                lemma_json_views(items@);
            }
            assert(parsed@ == JsonView::Array(iv));
            assert(parsed_ok(raw@) == Some(JsonView::Array(iv)));
            let mut out: Vec<String> = Vec::new();
            let mut i: usize = 0;
            while i < items.len()
                invariant
                    i <= items@.len(),
                    iv == json_views(items@),
                    parsed_ok(raw@) == Some(JsonView::Array(iv)),
                    iv.len() == items@.len(),
                    forall|j: int| 0 <= j < items@.len() ==> #[trigger] iv[j] == crate::browser::json::json_view(items@[j]),
                    forall|j: int| 0 <= j < i ==> #[trigger] iv[j] is Str,
                    words_view(out@) == Seq::new(i as nat, |j: int| iv[j]->Str_0),
                decreases items@.len() - i,
            {
                assert(items@[i as int]@ == iv[i as int]);
                match items[i].as_str() {
                    Some(s) => {
                        assert(iv[i as int]->Str_0 == s@);
                        let w = s.to_owned();
                        let ghost before = words_view(out@);
                        out.push(w);
                        assert(words_view(out@) =~= before.push(s@));
                        assert(words_view(out@) =~= Seq::new((i + 1) as nat, |j: int| iv[j]->Str_0));
                    },
                    None => {
                        assert(!(iv[i as int] is Str));
                        return None;
                    },
                }
                i = i + 1;
            }
            if out.len() == 0 {
                None
            } else {
                Some(out)
            }
        },
        _ => None,
    }
}

/// The command templates tried for an executable, in order. `{url}`,
/// `{width}`, `{height}` and `{out}` are filled in per render.
pub open spec fn templates_for(kind: ExternalKind, exe: Seq<char>) -> Seq<Seq<Seq<char>>> {
    match kind {
        ExternalKind::Servo => seq![
            seq![exe, "--headless"@, "--exit"@, "--output"@, "{out}"@, "--window-size"@, "{width}x{height}"@, "{url}"@],
            seq![exe, "--headless"@, "--exit"@, "--output"@, "{out}"@, "--screen-size"@, "{width}x{height}"@, "{url}"@],
            seq![exe, "--headless"@, "--exit"@, "--output"@, "{out}"@, "{url}"@],
        ],
        ExternalKind::Ladybird => seq![
            seq![exe, "--headless"@, "--url"@, "{url}"@, "--width"@, "{width}"@, "--height"@, "{height}"@, "--output"@, "{out}"@],
            seq![exe, "--url"@, "{url}"@, "--screenshot"@, "{out}"@, "--size"@, "{width}x{height}"@],
            seq![exe, "{url}"@, "--screenshot"@, "{out}"@],
        ],
    }
}

fn words(parts: &[&str]) -> (r: Vec<String>)
    ensures
        words_view(r@) == parts@.map_values(|p: &str| p@),
{
    let mut out: Vec<String> = Vec::new();
    let mut i: usize = 0;
    while i < parts.len()
        invariant
            i <= parts@.len(),
            words_view(out@) == parts@.map_values(|p: &str| p@).take(i as int),
        decreases parts@.len() - i,
    {
        let w = parts[i].to_owned();
        assert(w@ == parts@[i as int]@);
        let ghost before = words_view(out@);
        out.push(w);
        assert(words_view(out@) =~= before.push(parts@[i as int]@));
        i = i + 1;
        assert(words_view(out@) =~= parts@.map_values(|p: &str| p@).take(i as int));
    }
    assert(parts@.map_values(|p: &str| p@).take(parts@.len() as int) =~= parts@.map_values(|p: &str| p@));
    out
}

/// The command templates for an executable; see `templates_for`.
pub fn templates_for_executable(kind: ExternalKind, exe: &str) -> (r: Vec<Vec<String>>)
    ensures
        templates_view(r@) == templates_for(kind, exe@),
{
    let mut out: Vec<Vec<String>> = Vec::new();
    match kind {
        ExternalKind::Servo => {
            let a = [exe, "--headless", "--exit", "--output", "{out}", "--window-size", "{width}x{height}", "{url}"];
            let b = [exe, "--headless", "--exit", "--output", "{out}", "--screen-size", "{width}x{height}", "{url}"];
            let c = [exe, "--headless", "--exit", "--output", "{out}", "{url}"];
            out.push(words(&a));
            out.push(words(&b));
            out.push(words(&c));
            assert(a@.map_values(|p: &str| p@) =~= templates_for(kind, exe@)[0]);
            assert(b@.map_values(|p: &str| p@) =~= templates_for(kind, exe@)[1]);
            assert(c@.map_values(|p: &str| p@) =~= templates_for(kind, exe@)[2]);
        },
        ExternalKind::Ladybird => {
            let a = [exe, "--headless", "--url", "{url}", "--width", "{width}", "--height", "{height}", "--output", "{out}"];
            let b = [exe, "--url", "{url}", "--screenshot", "{out}", "--size", "{width}x{height}"];
            let c = [exe, "{url}", "--screenshot", "{out}"];
            out.push(words(&a));
            out.push(words(&b));
            out.push(words(&c));
            assert(a@.map_values(|p: &str| p@) =~= templates_for(kind, exe@)[0]);
            assert(b@.map_values(|p: &str| p@) =~= templates_for(kind, exe@)[1]);
            assert(c@.map_values(|p: &str| p@) =~= templates_for(kind, exe@)[2]);
        },
    }
    assert(templates_view(out@) =~= templates_for(kind, exe@));
    out
}

/// A template's key for spotting repeats: its words joined by U+001F.
pub open spec fn template_key(t: Seq<Seq<char>>) -> Seq<char> {
    join(t, seq!['\u{1f}'])
}

/// `out` with `t` added, unless `t` is empty or a template with the same key
/// was added before; `seen` holds the keys of what was added.
pub fn push_unique_template(out: &mut Vec<Vec<String>>, seen: &mut Vec<String>, template: Vec<String>)
    ensures
        ({
            let k = template_key(words_view(template@));
            if template@.len() == 0 || words_view(old(seen)@).contains(k) {
                templates_view(final(out)@) == templates_view(old(out)@) && words_view(final(seen)@) == words_view(
                    old(seen)@,
                )
            } else {
                templates_view(final(out)@) == templates_view(old(out)@).push(words_view(template@))
                    && words_view(final(seen)@) == words_view(old(seen)@).push(k)
            }
        }),
{
    if template.len() == 0 {
        return;
    }
    let key = join_words(&template);
    let mut i: usize = 0;
    let ghost sv = words_view(seen@);
    while i < seen.len()
        invariant
            i <= seen@.len(),
            sv == words_view(seen@),
            seen@ == old(seen)@,
            out@ == old(out)@,
            template@.len() > 0,
            key@ == template_key(words_view(template@)),
            forall|j: int| 0 <= j < i ==> sv[j] != key@,
        decreases seen@.len() - i,
    {
        assert(sv[i as int] == seen@[i as int]@);
        if str_eq(seen[i].as_str(), key.as_str()) {
            assert(sv[i as int] == key@);
            assert(sv.contains(key@));
            return;
        }
        i = i + 1;
    }
    let ghost o0 = templates_view(out@);
    let ghost tv = words_view(template@);
    seen.push(key);
    assert(words_view(seen@) =~= sv.push(template_key(tv)));
    out.push(template);
    assert(templates_view(out@) =~= o0.push(tv));
}

fn join_words(t: &Vec<String>) -> (r: String)
    ensures
        r@ == template_key(words_view(t@)),
{
    let ghost tv = words_view(t@);
    let mut out = String::new();
    let mut i: usize = 0;
    assert(tv.take(0) =~= Seq::<Seq<char>>::empty());
    while i < t.len()
        invariant
            i <= t@.len(),
            tv == words_view(t@),
            out@ == join(tv.take(i as int), seq!['\u{1f}']),
        decreases t@.len() - i,
    {
        let ghost tk = tv.take(i + 1);
        assert(tk.drop_last() =~= tv.take(i as int));
        if i > 0 {
            crate::text::push_char(&mut out, '\u{1f}');
        }
        out.append(t[i].as_str());
        i = i + 1;
        assert(out@ =~= join(tv.take(i as int), seq!['\u{1f}']));
    }
    assert(tv.take(t@.len() as int) =~= tv);
    out
}

/// The templates to try, in order and without repeats: the command words of
/// the kind's JSON variable, then the templates for the executable its path
/// variable names (when not blank), then those for an executable found on
/// the search path. The variables' values and the executable found are given.
pub open spec fn candidates_for(
    kind: ExternalKind,
    cmd_json: Option<Seq<char>>,
    bin_path: Option<Seq<char>>,
    found: Option<Seq<char>>,
) -> Seq<Seq<Seq<char>>> {
    let from_json = match cmd_json {
        Some(raw) => match command_words(raw) {
            Some(w) => seq![w],
            None => Seq::empty(),
        },
        None => Seq::empty(),
    };
    let from_bin = match bin_path {
        Some(p) => if trim(p).len() > 0 {
            templates_for(kind, trim(p))
        } else {
            Seq::empty()
        },
        None => Seq::empty(),
    };
    let from_found = match found {
        Some(f) => templates_for(kind, f),
        None => Seq::empty(),
    };
    unique_templates(from_json + from_bin + from_found)
}

/// `ts` without empty templates and without templates whose key an earlier
/// one has.
pub open spec fn unique_templates(ts: Seq<Seq<Seq<char>>>) -> Seq<Seq<Seq<char>>>
    decreases ts.len(),
{
    if ts.len() == 0 {
        Seq::empty()
    } else {
        let prev = unique_templates(ts.drop_last());
        let t = ts.last();
        if t.len() == 0 || prev.map_values(|x: Seq<Seq<char>>| template_key(x)).contains(template_key(t)) {
            prev
        } else {
            prev.push(t)
        }
    }
}

fn push_all_unique(
    out: &mut Vec<Vec<String>>,
    seen: &mut Vec<String>,
    ts: Vec<Vec<String>>,
    Ghost(pre): Ghost<Seq<Seq<Seq<char>>>>,
)
    requires
        words_view(old(seen)@) == templates_view(old(out)@).map_values(|x: Seq<Seq<char>>| template_key(x)),
        unique_templates(pre) == templates_view(old(out)@),
    ensures
        words_view(final(seen)@) == templates_view(final(out)@).map_values(|x: Seq<Seq<char>>| template_key(x)),
        unique_templates(pre + templates_view(ts@)) == templates_view(final(out)@),
{
    let ghost tv = templates_view(ts@);
    let mut i: usize = 0;
    assert(pre + tv.take(0) =~= pre);
    while i < ts.len()
        invariant
            i <= ts@.len(),
            tv == templates_view(ts@),
            words_view(seen@) == templates_view(out@).map_values(|x: Seq<Seq<char>>| template_key(x)),
            unique_templates(pre + tv.take(i as int)) == templates_view(out@),
        decreases ts@.len() - i,
    {
        let t = ts[i].clone();
        assert(words_view(t@) =~= tv[i as int]);
        let ghost o1 = templates_view(out@);
        push_unique_template(out, seen, t);
        assert(templates_view(out@).map_values(|x: Seq<Seq<char>>| template_key(x)) =~= words_view(seen@)) by {
            if templates_view(out@) != o1 {
                assert(o1.push(tv[i as int]).map_values(|x: Seq<Seq<char>>| template_key(x)) =~= o1.map_values(
                    |x: Seq<Seq<char>>| template_key(x),
                ).push(template_key(tv[i as int])));
            }
        }
        assert((pre + tv.take(i + 1)).drop_last() =~= pre + tv.take(i as int));
        assert((pre + tv.take(i + 1)).last() == tv[i as int]);
        i = i + 1;
    }
    assert(tv.take(ts@.len() as int) =~= tv);
}

/// The command templates to try for `kind`; see `candidates_for`.
pub fn build_command_candidates(
    kind: ExternalKind,
    cmd_json: Option<&str>,
    bin_path: Option<&str>,
    found: Option<&str>,
) -> (r: Vec<Vec<String>>)
    ensures
        templates_view(r@) == candidates_for(
            kind,
            match cmd_json {
                Some(s) => Some(s@),
                None => None,
            },
            match bin_path {
                Some(s) => Some(s@),
                None => None,
            },
            match found {
                Some(s) => Some(s@),
                None => None,
            },
        ),
{
    let mut out: Vec<Vec<String>> = Vec::new();
    let mut seen: Vec<String> = Vec::new();
    assert(words_view(seen@) =~= templates_view(out@).map_values(|x: Seq<Seq<char>>| template_key(x)));
    let mut first: Vec<Vec<String>> = Vec::new();
    match cmd_json {
        Some(raw) => match parse_command_json(raw) {
            Some(w) => first.push(w),
            None => {},
        },
        None => {},
    }
    let mut second: Vec<Vec<String>> = Vec::new();
    match bin_path {
        Some(p) => {
            let t = trim_str(p);
            if !t.as_str().is_empty() {
                second = templates_for_executable(kind, t.as_str());
            }
        },
        None => {},
    }
    let third: Vec<Vec<String>> = match found {
        Some(f) => templates_for_executable(kind, f),
        None => Vec::new(),
    };
    let ghost a = templates_view(first@);
    let ghost b = templates_view(second@);
    let ghost c = templates_view(third@);
    let ghost cj = match cmd_json {
        Some(s) => Some(s@),
        None => None,
    };
    let ghost bp = match bin_path {
        Some(s) => Some(s@),
        None => None,
    };
    let ghost fd = match found {
        Some(s) => Some(s@),
        None => None,
    };
    assert(a =~= match cj {
        Some(raw) => match command_words(raw) {
            Some(w) => seq![w],
            None => Seq::empty(),
        },
        None => Seq::empty(),
    });
    assert(b =~= match bp {
        Some(p) => if trim(p).len() > 0 {
            templates_for(kind, trim(p))
        } else {
            Seq::empty()
        },
        None => Seq::empty(),
    });
    assert(c =~= match fd {
        Some(f) => templates_for(kind, f),
        None => Seq::empty(),
    });
    assert(unique_templates(Seq::empty()) == templates_view(out@));
    push_all_unique(&mut out, &mut seen, first, Ghost(Seq::empty()));
    assert(Seq::<Seq<Seq<char>>>::empty() + a =~= a);
    push_all_unique(&mut out, &mut seen, second, Ghost(a));
    push_all_unique(&mut out, &mut seen, third, Ghost(a + b));
    out
}

/// The executable names looked for on the search path, sorted.
pub fn discover_names(kind: ExternalKind) -> (r: Vec<&'static str>)
    ensures
        r@.map_values(|s: &str| s@) == (match kind {
            ExternalKind::Servo => seq!["servo"@, "servo-headless"@, "servo_shell"@, "servoshell"@],
            ExternalKind::Ladybird => seq!["ladybird"@, "ladybird-headless"@, "ladybird-webcontent"@, "ladybird_app"@],
        }),
{
    let mut v: Vec<&'static str> = Vec::new();
    match kind {
        ExternalKind::Servo => {
            v.push("servo");
            v.push("servo-headless");
            v.push("servo_shell");
            v.push("servoshell");
        },
        ExternalKind::Ladybird => {
            v.push("ladybird");
            v.push("ladybird-headless");
            v.push("ladybird-webcontent");
            v.push("ladybird_app");
        },
    }
    proof {
        let w = v@.map_values(|s: &str| s@);
        match kind {
            ExternalKind::Servo => {
                assert(w =~= seq!["servo"@, "servo-headless"@, "servo_shell"@, "servoshell"@]);
            },
            ExternalKind::Ladybird => {
                assert(w =~= seq!["ladybird"@, "ladybird-headless"@, "ladybird-webcontent"@, "ladybird_app"@]);
            },
        }
    }
    v
}

/// Every occurrence of `pat` from position `i` on, left to right and not
/// overlapping, replaced by `rep` (as `str::replace` does).
pub open spec fn replace_from(s: Seq<char>, pat: Seq<char>, rep: Seq<char>, i: int) -> Seq<char>
    recommends
        pat.len() > 0,
    decreases s.len() - i,
{
    if i < 0 || i > s.len() || pat.len() == 0 {
        s.skip(i)
    } else {
        proof {
            lemma_find_from(s, pat, i);
        }
        match find_from(s, pat, i) {
            Some(p) => s.subrange(i, p) + rep + replace_from(s, pat, rep, p + pat.len()),
            None => s.skip(i),
        }
    }
}

pub open spec fn replace_all(s: Seq<char>, pat: Seq<char>, rep: Seq<char>) -> Seq<char> {
    replace_from(s, pat, rep, 0)
}

/// `str::replace` with a pattern that is not empty.
pub fn replace_str(s: &str, pat: &str, rep: &str) -> (r: String)
    requires
        pat@.len() > 0,
    ensures
        r@ == replace_all(s@, pat@, rep@),
{
    let h = chars_of(s);
    let p = chars_of(pat);
    let mut out = String::new();
    let mut i: usize = 0;
    assert(out@ + replace_from(h@, p@, rep@, 0) =~= replace_all(s@, pat@, rep@));
    while i <= h.len()
        invariant
            i <= h@.len(),
            h@ == s@,
            p@ == pat@,
            p@.len() > 0,
            out@ + replace_from(h@, p@, rep@, i as int) == replace_all(s@, pat@, rep@),
        decreases h@.len() + 1 - i,
    {
        proof {
            lemma_find_from(h@, p@, i as int);
        }
        let hl = h.len();
        assert(hl == h@.len());
        match find_from_exec(h.as_slice(), p.as_slice(), i) {
            Some(at) => {
                let ghost o0 = out@;
                crate::text::append_range(&mut out, h.as_slice(), i, at);
                out.append(rep);
                let ghost nxt = replace_from(h@, p@, rep@, at + p@.len());
                assert(o0 + (h@.subrange(i as int, at as int) + rep@ + nxt) =~= out@ + nxt);
                i = at + p.len();
            },
            None => {
                let ghost o0 = out@;
                crate::text::append_range(&mut out, h.as_slice(), i, h.len());
                assert(h@.subrange(i as int, h@.len() as int) =~= h@.skip(i as int));
                return out;
            },
        }
    }
    out
}

/// A template word with `{url}`, `{width}`, `{height}` and `{out}` filled in,
/// in that order.
pub open spec fn filled(part: Seq<char>, url: Seq<char>, w: Seq<char>, h: Seq<char>, out: Seq<char>) -> Seq<char> {
    replace_all(replace_all(replace_all(replace_all(part, "{url}"@, url), "{width}"@, w), "{height}"@, h), "{out}"@, out)
}

/// Fills in a template for one render of `url` at `width` x `height` into
/// `out_path`.
pub fn resolve_template(template: &Vec<String>, url: &str, width: u32, height: u32, out_path: &str) -> (r: Vec<
    String,
>)
    ensures
        words_view(r@).len() == template@.len(),
        forall|i: int|
            0 <= i < template@.len() ==> #[trigger] words_view(r@)[i] == filled(
                template@[i]@,
                url@,
                crate::text::decimal(width as nat),
                crate::text::decimal(height as nat),
                out_path@,
            ),
{
    proof {
        reveal_strlit("{url}");
        reveal_strlit("{width}");
        reveal_strlit("{height}");
        reveal_strlit("{out}");
    }
    let ws = crate::text::decimal_string(width as u128);
    let hs = crate::text::decimal_string(height as u128);
    let mut out: Vec<String> = Vec::new();
    let mut i: usize = 0;
    while i < template.len()
        invariant
            i <= template@.len(),
            out@.len() == i,
            ws@ == crate::text::decimal(width as nat),
            hs@ == crate::text::decimal(height as nat),
            forall|j: int|
                0 <= j < i ==> #[trigger] out@[j]@ == filled(template@[j]@, url@, ws@, hs@, out_path@),
        decreases template@.len() - i,
    {
        proof {
            reveal_strlit("{url}");
            reveal_strlit("{width}");
            reveal_strlit("{height}");
            reveal_strlit("{out}");
        }
        let a = replace_str(template[i].as_str(), "{url}", url);
        let b = replace_str(a.as_str(), "{width}", ws.as_str());
        let c = replace_str(b.as_str(), "{height}", hs.as_str());
        let d = replace_str(c.as_str(), "{out}", out_path);
        out.push(d);
        i = i + 1;
    }
    assert forall|i: int| 0 <= i < template@.len() implies #[trigger] words_view(out@)[i] == filled(
        template@[i]@,
        url@,
        crate::text::decimal(width as nat),
        crate::text::decimal(height as nat),
        out_path@,
    ) by {
        assert(words_view(out@)[i] == out@[i]@);
    }
    out
}

/// Whether any word of the template names the output file.
pub fn uses_out_file(template: &Vec<String>) -> (r: bool)
    ensures
        r == exists|i: int| 0 <= i < template@.len() && crate::text::contains_seq(#[trigger] template@[i]@, "{out}"@),
{
    let mut i: usize = 0;
    while i < template.len()
        invariant
            i <= template@.len(),
            forall|j: int| 0 <= j < i ==> !crate::text::contains_seq(#[trigger] template@[j]@, "{out}"@),
        decreases template@.len() - i,
    {
        if crate::text::str_contains(template[i].as_str(), "{out}") {
            return true;
        }
        i = i + 1;
    }
    false
}

/// The first `max_chars` characters of `s`, with `...` after them when `s`
/// is longer.
pub open spec fn truncated(s: Seq<char>, max_chars: nat) -> Seq<char> {
    if s.len() > max_chars {
        s.take(max_chars as int) + "..."@
    } else {
        s
    }
}

pub fn truncate_for_log(s: &str, max_chars: usize) -> (r: String)
    ensures
        r@ == truncated(s@, max_chars as nat),
{
    let cs = chars_of(s);
    let mut out = String::new();
    if cs.len() > max_chars {
        crate::text::append_range(&mut out, cs.as_slice(), 0, max_chars);
        out.append("...");
        assert(cs@.subrange(0, max_chars as int) =~= s@.take(max_chars as int));
    } else {
        crate::text::append_range(&mut out, cs.as_slice(), 0, cs.len());
        assert(cs@.subrange(0, cs@.len() as int) =~= s@);
    }
    out
}

} // verus!
