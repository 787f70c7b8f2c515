//! The script that sets `location` (and the origin) of a page's JS context
//! from its address.
use vstd::prelude::*;
use vstd::string::*;
use crate::text::{chars_of, push_char};

verus! {

pub const LOCATION_OPEN: &'static str = "(function(){try{var __u=new URL('";

pub const LOCATION_CLOSE: &'static str = "');globalThis.location.href=__u.href;globalThis.location.protocol=__u.protocol;globalThis.location.host=__u.host;globalThis.location.hostname=__u.hostname;globalThis.location.port=__u.port||'';globalThis.location.pathname=__u.pathname;globalThis.location.search=__u.search;globalThis.location.hash=__u.hash;globalThis.location.origin=__u.origin;globalThis.document.domain=__u.hostname;globalThis.origin=__u.origin;}catch(e){}})()";

/// `s` with a backslash put before every `'`, so that it stays inside a
/// single-quoted JS string.
pub open spec fn quote_escaped(s: Seq<char>) -> Seq<char>
    decreases s.len(),
{
    if s.len() == 0 {
        Seq::empty()
    } else {
        quote_escaped(s.drop_last()) + (if s.last() == '\'' {
            seq!['\\', '\'']
        } else {
            seq![s.last()]
        })
    }
}

/// The script run before a page's own scripts: it parses `url` with `URL`
/// and copies its parts into `location`, `document.domain` and `origin`,
/// ignoring a URL that does not parse.
pub fn location_script(url: &str) -> (r: String)
    ensures
        r@ == LOCATION_OPEN@ + quote_escaped(url@) + LOCATION_CLOSE@,
{
    let cs = chars_of(url);
    let mut out = String::new();
    out.append(LOCATION_OPEN);
    let ghost o0 = out@;
    let mut i: usize = 0;
    assert(cs@.take(0) =~= Seq::<char>::empty());
    assert(o0 + quote_escaped(Seq::<char>::empty()) =~= o0);
    while i < cs.len()
        invariant
            i <= cs@.len(),
            cs@ == url@,
            o0 == LOCATION_OPEN@,
            out@ == o0 + quote_escaped(cs@.take(i as int)),
        decreases cs@.len() - i,
    {
        let c = cs[i];
        assert(cs@.take(i + 1).drop_last() =~= cs@.take(i as int));
        assert(cs@.take(i + 1).last() == c);
        let ghost before = out@;
        if c == '\'' {
            push_char(&mut out, '\\');
            push_char(&mut out, '\'');
            assert(out@ =~= before + seq!['\\', '\'']);
        } else {
            push_char(&mut out, c);
            assert(out@ =~= before + seq![c]);
        }
        i = i + 1;
        assert(out@ =~= o0 + quote_escaped(cs@.take(i as int)));
    }
    assert(cs@.take(cs@.len() as int) =~= cs@);
    out.append(LOCATION_CLOSE);
    out
}

} // verus!
