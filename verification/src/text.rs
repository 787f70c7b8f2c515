//! Character-level string helpers shared by the DOM and the scanners.
use vstd::prelude::*;
use vstd::string::*;

verus! {

/// ASCII lower-casing of one character.
pub open spec fn lower_char(c: char) -> char {
    if 'A' <= c && c <= 'Z' {
        ((c as u32) + 32) as char
    } else {
        c
    }
}

pub open spec fn ascii_lower(s: Seq<char>) -> Seq<char> {
    s.map_values(|c: char| lower_char(c))
}

/// `n` occurs in `h` starting at index `i`.
pub open spec fn occurs_at(h: Seq<char>, n: Seq<char>, i: int) -> bool {
    &&& 0 <= i
    &&& i + n.len() <= h.len()
    &&& h.subrange(i, i + n.len()) == n
}

/// The first index at or after `i` at which `n` occurs in `h`.
pub open spec fn find_from(h: Seq<char>, n: Seq<char>, i: int) -> Option<int>
    decreases h.len() + 1 - i,
{
    if i < 0 || i + n.len() > h.len() {
        None
    } else if occurs_at(h, n, i) {
        Some(i)
    } else {
        find_from(h, n, i + 1)
    }
}

/// A match found by `find_from` lies at or after the start and inside `h`,
/// and no earlier position from the start matches.
pub proof fn lemma_find_from(h: Seq<char>, n: Seq<char>, i: int)
    requires
        0 <= i,
    ensures
        find_from(h, n, i) matches Some(p) ==> i <= p && occurs_at(h, n, p) && p + n.len() <= h.len()
            && forall|j: int| i <= j < p ==> !#[trigger] occurs_at(h, n, j),
        find_from(h, n, i) is None ==> forall|j: int| i <= j ==> !#[trigger] occurs_at(h, n, j),
    decreases h.len() + 1 - i,
{
    if i + n.len() > h.len() {
    } else if occurs_at(h, n, i) {
    } else {
        lemma_find_from(h, n, i + 1);
    }
}

/// `String::push`.
#[verifier::external_body]
pub(crate) fn push_char(s: &mut String, c: char)
    ensures
        final(s)@ == old(s)@.push(c),
{
    s.push(c);
}

/// Equality of two string slices, character by character.
pub(crate) fn str_eq(a: &str, b: &str) -> (r: bool)
    ensures
        r == (a@ == b@),
{
    let x = chars_of(a);
    let y = chars_of(b);
    chars_eq(x.as_slice(), y.as_slice())
}

/// The characters of a string slice, in order.
pub fn chars_of(s: &str) -> (v: Vec<char>)
    ensures
        v@ == s@,
{
    let mut v: Vec<char> = Vec::new();
    for c in it: s.chars()
        invariant
            v@ == it.seq().take(it.index() as int),
            it.seq() == s@,
    {
        v.push(c);
    }
    v
}

/// A string holding exactly the given characters.
pub fn string_from(v: &[char]) -> (s: String)
    ensures
        s@ == v@,
{
    let mut s = String::new();
    let mut i: usize = 0;
    while i < v.len()
        invariant
            i <= v@.len(),
            s@ == v@.take(i as int),
        decreases v@.len() - i,
    {
        push_char(&mut s, v[i]);
        i = i + 1;
        assert(v@.take(i as int) == v@.take((i - 1) as int).push(v@[i - 1]));
    }
    assert(v@.take(v@.len() as int) == v@);
    s
}

pub fn lower_char_exec(c: char) -> (r: char)
    ensures
        r == lower_char(c),
{
    if 'A' <= c && c <= 'Z' {
        ((c as u8) + 32) as char
    } else {
        c
    }
}

} // verus!

verus! {

/// `char::is_whitespace`: the Unicode White_Space property.
pub open spec fn is_ws(c: char) -> bool {
    ||| ('\t' <= c && c <= '\r')
    ||| c == ' '
    ||| c == '\u{85}'
    ||| c == '\u{A0}'
    ||| c == '\u{1680}'
    ||| ('\u{2000}' <= c && c <= '\u{200A}')
    ||| c == '\u{2028}'
    ||| c == '\u{2029}'
    ||| c == '\u{202F}'
    ||| c == '\u{205F}'
    ||| c == '\u{3000}'
}

pub fn is_ws_exec(c: char) -> (r: bool)
    ensures
        r == is_ws(c),
{
    ('\t' <= c && c <= '\r') || c == ' ' || c == '\u{85}' || c == '\u{A0}' || c == '\u{1680}' || (
    '\u{2000}' <= c && c <= '\u{200A}') || c == '\u{2028}' || c == '\u{2029}' || c == '\u{202F}'
        || c == '\u{205F}' || c == '\u{3000}'
}

pub open spec fn trim_start(s: Seq<char>) -> Seq<char>
    decreases s.len(),
{
    if s.len() > 0 && is_ws(s[0]) {
        trim_start(s.drop_first())
    } else {
        s
    }
}

pub open spec fn trim_end(s: Seq<char>) -> Seq<char>
    decreases s.len(),
{
    if s.len() > 0 && is_ws(s.last()) {
        trim_end(s.drop_last())
    } else {
        s
    }
}

/// `str::trim`: whitespace removed from both ends.
pub open spec fn trim(s: Seq<char>) -> Seq<char> {
    trim_end(trim_start(s))
}

pub fn trim_chars(v: &[char]) -> (r: Vec<char>)
    ensures
        r@ == trim(v@),
{
    let mut a: usize = 0;
    assert(v@.subrange(0, v@.len() as int) =~= v@);
    while a < v.len() && is_ws_exec(v[a])
        invariant
            a <= v@.len(),
            trim_start(v@) == trim_start(v@.subrange(a as int, v@.len() as int)),
        decreases v@.len() - a,
    {
        assert(v@.subrange(a as int, v@.len() as int).drop_first() =~= v@.subrange(a + 1, v@.len() as int));
        a = a + 1;
    }
    let mut b: usize = v.len();
    assert(trim_start(v@) =~= v@.subrange(a as int, b as int));
    while b > a && is_ws_exec(v[b - 1])
        invariant
            a <= b <= v@.len(),
            trim(v@) == trim_end(v@.subrange(a as int, b as int)),
        decreases b,
    {
        assert(v@.subrange(a as int, b as int).drop_last() =~= v@.subrange(a as int, b - 1));
        b = b - 1;
    }
    let mut out: Vec<char> = Vec::new();
    let mut i = a;
    while i < b
        invariant
            a <= i <= b <= v@.len(),
            out@ == v@.subrange(a as int, i as int),
        decreases b - i,
    {
        out.push(v[i]);
        i = i + 1;
        assert(out@ =~= v@.subrange(a as int, i as int));
    }
    out
}

/// `str::trim` on an owned result.
pub fn trim_str(s: &str) -> (r: String)
    ensures
        r@ == trim(s@),
{
    let v = chars_of(s);
    let t = trim_chars(v.as_slice());
    string_from(t.as_slice())
}

/// `str::to_ascii_lowercase`.
pub fn ascii_lower_str(s: &str) -> (r: String)
    ensures
        r@ == ascii_lower(s@),
{
    let v = chars_of(s);
    let mut out: Vec<char> = Vec::new();
    let mut i: usize = 0;
    while i < v.len()
        invariant
            i <= v@.len(),
            v@ == s@,
            out@ == ascii_lower(v@.take(i as int)),
        decreases v@.len() - i,
    {
        out.push(lower_char_exec(v[i]));
        i = i + 1;
        assert(ascii_lower(v@.take(i as int)) =~= ascii_lower(v@.take(i - 1)).push(lower_char(v@[i - 1])));
    }
    assert(v@.take(i as int) =~= v@);
    string_from(out.as_slice())
}

} // verus!

verus! {

pub open spec fn words_state(s: Seq<char>) -> (Seq<Seq<char>>, Seq<char>)
    decreases s.len(),
{
    if s.len() == 0 {
        (Seq::empty(), Seq::empty())
    } else {
        let (acc, cur) = words_state(s.drop_last());
        let c = s.last();
        if is_ws(c) {
            if cur.len() > 0 {
                (acc.push(cur), Seq::empty())
            } else {
                (acc, Seq::empty())
            }
        } else {
            (acc, cur.push(c))
        }
    }
}

/// `str::split_whitespace`: the maximal runs of non-whitespace characters.
pub open spec fn words(s: Seq<char>) -> Seq<Seq<char>> {
    let (acc, cur) = words_state(s);
    if cur.len() > 0 {
        acc.push(cur)
    } else {
        acc
    }
}

/// The pieces of `list` joined by `sep`.
pub open spec fn join(list: Seq<Seq<char>>, sep: Seq<char>) -> Seq<char>
    decreases list.len(),
{
    if list.len() == 0 {
        Seq::empty()
    } else if list.len() == 1 {
        list[0]
    } else {
        join(list.drop_last(), sep) + sep + list.last()
    }
}

pub open spec fn strs_view(v: Seq<Vec<char>>) -> Seq<Seq<char>> {
    v.map_values(|w: Vec<char>| w@)
}

/// The whitespace-separated words of `s`.
pub fn split_words(s: &[char]) -> (r: Vec<Vec<char>>)
    ensures
        strs_view(r@) == words(s@),
{
    let mut acc: Vec<Vec<char>> = Vec::new();
    let mut cur: Vec<char> = Vec::new();
    let mut i: usize = 0;
    while i < s.len()
        invariant
            i <= s@.len(),
            (strs_view(acc@), cur@) == words_state(s@.take(i as int)),
        decreases s@.len() - i,
    {
        let c = s[i];
        assert(s@.take(i + 1).drop_last() =~= s@.take(i as int));
        if is_ws_exec(c) {
            if cur.len() > 0 {
                let w = cur;
                acc.push(w);
                cur = Vec::new();
                assert(strs_view(acc@) =~= words_state(s@.take(i as int)).0.push(w@));
            } else {
                cur = Vec::new();
            }
        } else {
            cur.push(c);
        }
        i = i + 1;
        assert(cur@ =~= words_state(s@.take(i as int)).1);
        assert(strs_view(acc@) =~= words_state(s@.take(i as int)).0);
    }
    assert(s@.take(i as int) =~= s@);
    if cur.len() > 0 {
        let w = cur;
        acc.push(w);
        assert(strs_view(acc@) =~= words(s@));
    }
    acc
}

/// The words of `list` joined with `sep`.
pub fn join_chars(list: &Vec<Vec<char>>, sep: &[char]) -> (r: Vec<char>)
    ensures
        r@ == join(strs_view(list@), sep@),
{
    let mut out: Vec<char> = Vec::new();
    let mut i: usize = 0;
    while i < list.len()
        invariant
            i <= list@.len(),
            out@ == join(strs_view(list@).take(i as int), sep@),
        decreases list@.len() - i,
    {
        let ghost prev = out@;
        if i > 0 {
            push_all(&mut out, sep);
        }
        push_all(&mut out, list[i].as_slice());
        i = i + 1;
        assert(strs_view(list@).take(i as int).drop_last() =~= strs_view(list@).take(i - 1));
        if i == 1 {
            assert(out@ =~= list@[0]@);
        }
        assert(out@ =~= join(strs_view(list@).take(i as int), sep@));
    }
    assert(strs_view(list@).take(i as int) =~= strs_view(list@));
    out
}

pub fn push_all(out: &mut Vec<char>, s: &[char])
    ensures
        final(out)@ == old(out)@ + s@,
{
    let ghost o0 = out@;
    let mut i: usize = 0;
    while i < s.len()
        invariant
            i <= s@.len(),
            out@ == o0 + s@.take(i as int),
        decreases s@.len() - i,
    {
        out.push(s[i]);
        i = i + 1;
        assert(out@ =~= o0 + s@.take(i as int));
    }
    assert(s@.take(i as int) =~= s@);
}

/// Equality of two character sequences.
pub fn chars_eq(a: &[char], b: &[char]) -> (r: bool)
    ensures
        r == (a@ == b@),
{
    if a.len() != b.len() {
        return false;
    }
    let mut i: usize = 0;
    while i < a.len()
        invariant
            i <= a@.len(),
            a@.len() == b@.len(),
            forall|j: int| 0 <= j < i ==> a@[j] == b@[j],
        decreases a@.len() - i,
    {
        if a[i] != b[i] {
            return false;
        }
        i = i + 1;
    }
    assert(a@ =~= b@);
    true
}

} // verus!

verus! {

pub open spec fn digit(d: nat) -> char {
    if d == 0 { '0' } else if d == 1 { '1' } else if d == 2 { '2' } else if d == 3 { '3' }
    else if d == 4 { '4' } else if d == 5 { '5' } else if d == 6 { '6' } else if d == 7 { '7' }
    else if d == 8 { '8' } else { '9' }
}

/// Decimal digits of `n` (as `Display` writes an unsigned integer).
pub open spec fn decimal(n: nat) -> Seq<char>
    decreases n,
{
    if n < 10 {
        seq![digit(n)]
    } else {
        decimal(n / 10) + seq![digit(n % 10)]
    }
}

fn digit_exec(d: u128) -> (c: char)
    requires
        d < 10,
    ensures
        c == digit(d as nat),
{
    if d == 0 { '0' } else if d == 1 { '1' } else if d == 2 { '2' } else if d == 3 { '3' }
    else if d == 4 { '4' } else if d == 5 { '5' } else if d == 6 { '6' } else if d == 7 { '7' }
    else if d == 8 { '8' } else { '9' }
}

/// Appends the decimal digits of `n` to `out`.
pub fn push_decimal(out: &mut Vec<char>, n: u128)
    ensures
        final(out)@ == old(out)@ + decimal(n as nat),
    decreases n,
{
    if n < 10 {
        out.push(digit_exec(n));
    } else {
        push_decimal(out, n / 10);
        out.push(digit_exec(n % 10));
        assert(final(out)@ =~= old(out)@ + decimal(n as nat)) by {
            assert(decimal(n as nat) == decimal((n / 10) as nat) + seq![digit((n % 10) as nat)]);
        }
    }
}

/// The decimal text of `n`.
pub fn decimal_string(n: u128) -> (r: String)
    ensures
        r@ == decimal(n as nat),
{
    let mut v: Vec<char> = Vec::new();
    push_decimal(&mut v, n);
    assert(v@ =~= decimal(n as nat));
    string_from(v.as_slice())
}

pub open spec fn starts_with(s: Seq<char>, p: Seq<char>) -> bool {
    p.len() <= s.len() && s.take(p.len() as int) == p
}

pub fn starts_with_exec(s: &[char], p: &[char]) -> (r: bool)
    ensures
        r == starts_with(s@, p@),
{
    if p.len() > s.len() {
        return false;
    }
    let mut i: usize = 0;
    while i < p.len()
        invariant
            i <= p@.len() <= s@.len(),
            forall|j: int| 0 <= j < i ==> s@[j] == p@[j],
        decreases p@.len() - i,
    {
        if s[i] != p[i] {
            return false;
        }
        i = i + 1;
    }
    assert(s@.take(p@.len() as int) =~= p@);
    true
}

/// `str::starts_with` with a string pattern.
pub fn str_starts_with(s: &str, p: &str) -> (r: bool)
    ensures
        r == starts_with(s@, p@),
{
    let a = chars_of(s);
    let b = chars_of(p);
    starts_with_exec(a.as_slice(), b.as_slice())
}

pub fn occurs_at_exec(h: &[char], n: &[char], i: usize) -> (r: bool)
    ensures
        r == occurs_at(h@, n@, i as int),
{
    if i > h.len() || n.len() > h.len() - i {
        return false;
    }
    let mut j: usize = 0;
    let hl = h.len();
    while j < n.len()
        invariant
            j <= n@.len(),
            hl == h@.len(),
            i + n@.len() <= h@.len(),
            forall|k: int| 0 <= k < j ==> h@[i + k] == n@[k],
        decreases n@.len() - j,
    {
        if h[i + j] != n[j] {
            assert(h@.subrange(i as int, i + n@.len())[j as int] != n@[j as int]);
            return false;
        }
        j = j + 1;
    }
    assert(h@.subrange(i as int, i + n@.len()) =~= n@);
    true
}

/// First index of `n` in `h` at or after `from`.
pub fn find_from_exec(h: &[char], n: &[char], from: usize) -> (r: Option<usize>)
    ensures
        match r {
            Some(i) => find_from(h@, n@, from as int) == Some(i as int),
            None => find_from(h@, n@, from as int) is None,
        },
{
    let mut i = from;
    while i <= h.len() && n.len() <= h.len() - i
        invariant
            from <= i,
            find_from(h@, n@, from as int) == find_from(h@, n@, i as int),
        decreases h@.len() + 1 - i,
    {
        if occurs_at_exec(h, n, i) {
            return Some(i);
        }
        if i == h.len() {
            assert(find_from(h@, n@, i + 1) is None);
            return None;
        }
        i = i + 1;
    }
    None
}

/// `str::contains` with a string pattern.
pub open spec fn contains_seq(h: Seq<char>, n: Seq<char>) -> bool {
    find_from(h, n, 0) is Some
}

pub fn contains_exec(h: &[char], n: &[char]) -> (r: bool)
    ensures
        r == contains_seq(h@, n@),
{
    find_from_exec(h, n, 0).is_some()
}

pub fn str_contains(h: &str, n: &str) -> (r: bool)
    ensures
        r == contains_seq(h@, n@),
{
    let a = chars_of(h);
    let b = chars_of(n);
    contains_exec(a.as_slice(), b.as_slice())
}

/// Appends the characters `v[lo..hi]` to `out`.
pub fn append_range(out: &mut String, v: &[char], lo: usize, hi: usize)
    requires
        lo <= hi <= v@.len(),
    ensures
        final(out)@ == old(out)@ + v@.subrange(lo as int, hi as int),
{
    let ghost o0 = out@;
    let mut i = lo;
    while i < hi
        invariant
            lo <= i <= hi <= v@.len(),
            out@ == o0 + v@.subrange(lo as int, i as int),
        decreases hi - i,
    {
        push_char(out, v[i]);
        i = i + 1;
        assert(out@ =~= o0 + v@.subrange(lo as int, i as int));
    }
}

/// Bytes that `c` takes in UTF-8.
pub open spec fn char_bytes(c: char) -> nat {
    if (c as u32) < 0x80 {
        1
    } else if (c as u32) < 0x800 {
        2
    } else if (c as u32) < 0x10000 {
        3
    } else {
        4
    }
}

/// Length in bytes of the UTF-8 encoding of `s` (what `str::len` gives).
pub open spec fn utf8_len(s: Seq<char>) -> nat
    decreases s.len(),
{
    if s.len() == 0 {
        0
    } else {
        utf8_len(s.drop_last()) + char_bytes(s.last())
    }
}

pub fn char_bytes_exec(c: char) -> (r: usize)
    ensures
        r == char_bytes(c),
{
    let u = c as u32;
    if u < 0x80 {
        1
    } else if u < 0x800 {
        2
    } else if u < 0x10000 {
        3
    } else {
        4
    }
}

/// UTF-8 length of `v`, or `usize::MAX` when it is larger.
pub fn utf8_len_capped(v: &[char]) -> (r: usize)
    ensures
        r == (if utf8_len(v@) <= usize::MAX { utf8_len(v@) } else { usize::MAX as nat }),
{
    let mut n: usize = 0;
    let mut i: usize = 0;
    assert(v@.take(0) =~= Seq::<char>::empty());
    while i < v.len()
        invariant
            i <= v@.len(),
            n == (if utf8_len(v@.take(i as int)) <= usize::MAX { utf8_len(v@.take(i as int)) } else { usize::MAX as nat }),
        decreases v@.len() - i,
    {
        let ghost t = v@.take(i + 1);
        assert(t.drop_last() =~= v@.take(i as int));
        n = n.saturating_add(char_bytes_exec(v[i]));
        i = i + 1;
    }
    assert(v@.take(v@.len() as int) =~= v@);
    n
}

pub open spec fn ends_with(s: Seq<char>, p: Seq<char>) -> bool {
    p.len() <= s.len() && s.skip(s.len() - p.len()) == p
}

/// `str::ends_with` with a string pattern.
pub fn str_ends_with(s: &str, p: &str) -> (r: bool)
    ensures
        r == ends_with(s@, p@),
{
    let a = chars_of(s);
    let b = chars_of(p);
    if b.len() > a.len() {
        return false;
    }
    let off = a.len() - b.len();
    let al = a.len();
    let mut i: usize = 0;
    while i < b.len()
        invariant
            i <= b@.len(),
            al == a@.len(),
            off + b@.len() == a@.len(),
            a@ == s@,
            b@ == p@,
            forall|j: int| 0 <= j < i ==> a@[off + j] == b@[j],
        decreases b@.len() - i,
    {
        if a[off + i] != b[i] {
            assert(a@.skip(off as int)[i as int] != b@[i as int]);
            return false;
        }
        i = i + 1;
    }
    assert(a@.skip(off as int) =~= b@);
    true
}

/// What `str::to_uppercase` gives: upper case by the Unicode rules, where one
/// character may become several.
pub uninterp spec fn unicode_upper(s: Seq<char>) -> Seq<char>;

/// `str::to_uppercase`; the contract names the result.
#[verifier::external_body]
pub(crate) fn to_upper(s: &str) -> (r: String)
    ensures
        r@ == unicode_upper(s@),
{
    s.to_uppercase()
}

/// What `str::to_lowercase` gives: lower case by the Unicode rules.
pub uninterp spec fn unicode_lower(s: Seq<char>) -> Seq<char>;

/// `str::to_lowercase`; the contract names the result.
#[verifier::external_body]
pub(crate) fn to_lower(s: &str) -> (r: String)
    ensures
        r@ == unicode_lower(s@),
{
    s.to_lowercase()
}

/// Searching a suffix is searching the whole from the suffix's start.
pub proof fn lemma_find_skip(s: Seq<char>, n: Seq<char>, a: int, i: int)
    requires
        0 <= a <= s.len(),
        0 <= i,
    ensures
        find_from(s.skip(a), n, i) == (match find_from(s, n, a + i) {
            Some(p) => Some(p - a),
            None => None,
        }),
    decreases s.len() - a - i,
{
    let t = s.skip(a);
    if i + n.len() > t.len() {
    } else {
        assert(t.subrange(i, i + n.len()) =~= s.subrange(a + i, a + i + n.len()));
        if n.len() == 0 {
            assert(t.subrange(i, i) =~= n);
            assert(s.subrange(a + i, a + i) =~= n);
        } else if !occurs_at(t, n, i) {
            lemma_find_skip(s, n, a, i + 1);
        }
    }
}

pub open spec fn is_digit(c: char) -> bool {
    '0' <= c && c <= '9'
}

/// The number written by a string of decimal digits.
pub open spec fn digits_value(t: Seq<char>) -> nat
    decreases t.len(),
{
    if t.len() == 0 {
        0
    } else {
        digits_value(t.drop_last()) * 10 + (t.last() as nat - '0' as nat) as nat
    }
}

/// A longer digit string is worth at least as much as its prefixes.
pub proof fn lemma_digits_grow(t: Seq<char>, k: int)
    requires
        0 <= k <= t.len(),
        forall|j: int| 0 <= j < t.len() ==> #[trigger] is_digit(t[j]),
    ensures
        digits_value(t) >= digits_value(t.take(k)),
    decreases t.len() - k,
{
    if k < t.len() {
        lemma_digits_grow(t, k + 1);
        let u = t.take(k + 1);
        assert(u.drop_last() =~= t.take(k));
        assert(is_digit(u.last()));
    } else {
        assert(t.take(k) =~= t);
    }
}


/// The value of a nonempty string of decimal digits (`None` for any other
/// string).
pub open spec fn unsigned_value(t: Seq<char>) -> Option<nat> {
    if t.len() > 0 && forall|i: int| 0 <= i < t.len() ==> #[trigger] is_digit(t[i]) {
        Some(digits_value(t))
    } else {
        None
    }
}

/// Reads `cs[start..]` as a nonempty run of decimal digits that fits in a
/// `u64`.
pub fn digits_u64(cs: &[char], start: usize) -> (r: Option<u64>)
    requires
        start <= cs@.len(),
    ensures
        match r {
            Some(v) => unsigned_value(cs@.skip(start as int)) == Some(v as nat),
            None => match unsigned_value(cs@.skip(start as int)) {
                Some(n) => n > u64::MAX,
                None => true,
            },
        },
{
    let ghost t = cs@.skip(start as int);
    if start == cs.len() {
        return None;
    }
    let mut v: u64 = 0;
    let mut i: usize = start;
    assert(t.take(0) =~= Seq::<char>::empty());
    while i < cs.len()
        invariant
            start <= i <= cs@.len(),
            t == cs@.skip(start as int),
            forall|j: int| 0 <= j < i - start ==> #[trigger] is_digit(t[j]),
            v as nat == digits_value(t.take(i - start)),
        decreases cs@.len() - i,
    {
        let c = cs[i];
        assert(t[i - start] == c);
        if !('0' <= c && c <= '9') {
            assert(!is_digit(t[i - start]));
            return None;
        }
        let d = (c as u32 - '0' as u32) as u64;
        let ghost t1 = t.take(i - start + 1);
        assert(t1.drop_last() =~= t.take(i - start));
        assert(t1.last() == c);
        match v.checked_mul(10) {
            Some(m) => match m.checked_add(d) {
                Some(n) => {
                    v = n;
                },
                None => {
                    proof {
                        if forall|j: int| 0 <= j < t.len() ==> #[trigger] is_digit(t[j]) {
                            lemma_digits_grow(t, i - start + 1);
                        }
                    }
                    return None;
                },
            },
            None => {
                proof {
                    if forall|j: int| 0 <= j < t.len() ==> #[trigger] is_digit(t[j]) {
                        lemma_digits_grow(t, i - start + 1);
                    }
                }
                return None;
            },
        }
        i = i + 1;
    }
    assert(t.take(t.len() as int) =~= t);
    Some(v)
}


} // verus!
