//! Rendered pages kept for a few seconds by URL, so that a repeated load of
//! the same page can be spared. Times are milliseconds on a clock that does
//! not go back, read by the caller.
use vstd::prelude::*;
use crate::text::str_eq;

verus! {

/// How long a page stays fresh, in milliseconds.
pub const NAV_TTL_MS: u64 = 5000;

pub struct NavEntry {
    pub url: String,
    pub html: String,
    /// When the page was stored.
    pub created_ms: u64,
}

pub struct NavEntryView {
    pub url: Seq<char>,
    pub html: Seq<char>,
    pub created_ms: u64,
}

impl View for NavEntry {
    type V = NavEntryView;

    open spec fn view(&self) -> NavEntryView {
        NavEntryView { url: self.url@, html: self.html@, created_ms: self.created_ms }
    }
}

pub open spec fn entries_view(v: Seq<NavEntry>) -> Seq<NavEntryView> {
    v.map_values(|e: NavEntry| e@)
}

/// A page stored at `created` is fresh at `now` for `NAV_TTL_MS` after it.
pub open spec fn is_fresh(created: u64, now: u64) -> bool {
    now < created + NAV_TTL_MS
}

/// Entries for URLs other than `url`.
pub open spec fn other_url(url: Seq<char>) -> spec_fn(NavEntryView) -> bool {
    |e: NavEntryView| e.url != url
}

/// Entries still fresh at `now`.
pub open spec fn fresh_at(now: u64) -> spec_fn(NavEntryView) -> bool {
    |e: NavEntryView| is_fresh(e.created_ms, now)
}

/// The entry for `url`, the first stored for it.
pub open spec fn entry_for(s: Seq<NavEntryView>, url: Seq<char>) -> Option<NavEntryView>
    decreases s.len(),
{
    if s.len() == 0 {
        None
    } else if s[0].url == url {
        Some(s[0])
    } else {
        entry_for(s.drop_first(), url)
    }
}

/// The pages stored, in the order they were stored, one per URL.
pub struct NavCache {
    entries: Vec<NavEntry>,
}

impl View for NavCache {
    type V = Seq<NavEntryView>;

    closed spec fn view(&self) -> Seq<NavEntryView> {
        entries_view(self.entries@)
    }
}

proof fn lemma_filter_step(s: Seq<NavEntryView>, i: int, p: spec_fn(NavEntryView) -> bool)
    requires
        0 <= i < s.len(),
    ensures
        s.take(i + 1).filter(p) == (if p(s[i]) {
            s.take(i).filter(p).push(s[i])
        } else {
            s.take(i).filter(p)
        }),
{
    reveal(Seq::filter);
    assert(s.take(i + 1).drop_last() =~= s.take(i));
}

impl NavCache {
    pub fn new() -> (r: Self)
        ensures
            r@ == Seq::<NavEntryView>::empty(),
    {
        let r = NavCache { entries: Vec::new() };
        assert(r@ =~= Seq::<NavEntryView>::empty());
        r
    }

    /// Keeps the entries for URLs other than `url` (`by_url`) or those
    /// fresh at `now`.
    fn retain_entries(&mut self, url: &str, now: u64, by_url: bool)
        ensures
            final(self)@ == old(self)@.filter(
                if by_url {
                    other_url(url@)
                } else {
                    fresh_at(now)
                },
            ),
    {
        let ghost p = if by_url {
            other_url(url@)
        } else {
            fresh_at(now)
        };
        let ghost s = self@;
        let mut kept: Vec<NavEntry> = Vec::new();
        let mut i: usize = 0;
        assert(s.take(0).filter(p) =~= Seq::<NavEntryView>::empty()) by {
            reveal(Seq::filter);
        }
        while i < self.entries.len()
            invariant
                i <= self.entries@.len(),
                s == entries_view(self.entries@),
                p == (if by_url {
                    other_url(url@)
                } else {
                    fresh_at(now)
                }),
                entries_view(kept@) == s.take(i as int).filter(p),
            decreases self.entries@.len() - i,
        {
            let e = &self.entries[i];
            assert(s[i as int] == e@);
            proof {
                lemma_filter_step(s, i as int, p);
            }
            let keep = if by_url {
                !str_eq(e.url.as_str(), url)
            } else {
                e.created_ms as u128 + NAV_TTL_MS as u128 > now as u128
            };
            assert(keep == p(e@));
            if keep {
                let ghost before = entries_view(kept@);
                kept.push(NavEntry { url: e.url.clone(), html: e.html.clone(), created_ms: e.created_ms });
                assert(entries_view(kept@) =~= before.push(e@));
            }
            i = i + 1;
        }
        assert(s.take(i as int) =~= s);
        self.entries = kept;
    }

    /// Stores `html` for `url` at `now`, in place of what was stored for it.
    pub fn put(&mut self, url: String, html: String, now: u64)
        ensures
            final(self)@ == old(self)@.filter(other_url(url@)).push(
                NavEntryView { url: url@, html: html@, created_ms: now },
            ),
    {
        self.retain_entries(url.as_str(), now, true);
        let ghost before = self@;
        let e = NavEntry { url, html, created_ms: now };
        self.entries.push(e);
        assert(self@ =~= before.push(e@));
    }

    /// Forgets what was stored for `url`.
    pub fn invalidate(&mut self, url: &str)
        ensures
            final(self)@ == old(self)@.filter(other_url(url@)),
    {
        self.retain_entries(url, 0, true);
    }

    /// Forgets every page that is no longer fresh at `now`.
    pub fn evict_expired(&mut self, now: u64)
        ensures
            final(self)@ == old(self)@.filter(fresh_at(now)),
    {
        self.retain_entries("", now, false);
    }

    /// The page stored for `url` while it is fresh at `now`; a stale one is
    /// forgotten.
    pub fn get(&mut self, url: &str, now: u64) -> (r: Option<String>)
        ensures
            match entry_for(old(self)@, url@) {
                Some(e) => if is_fresh(e.created_ms, now) {
                    r matches Some(h) && h@ == e.html && final(self)@ == old(self)@
                } else {
                    r is None && final(self)@ == old(self)@.filter(other_url(url@))
                },
                None => r is None && final(self)@ == old(self)@,
            },
    {
        let ghost s = self@;
        let mut i: usize = 0;
        assert(s.skip(0) =~= s);
        while i < self.entries.len()
            invariant
                i <= self.entries@.len(),
                s == entries_view(self.entries@),
                s == self@,
                s == old(self)@,
                entry_for(s, url@) == entry_for(s.skip(i as int), url@),
            decreases self.entries@.len() - i,
        {
            assert(s.skip(i as int)[0] == self.entries@[i as int]@);
            if str_eq(self.entries[i].url.as_str(), url) {
                let e = &self.entries[i];
                assert(entry_for(s.skip(i as int), url@) == Some(e@));
                if (e.created_ms as u128) + (NAV_TTL_MS as u128) > now as u128 {
                    let h = e.html.clone();
                    assert(h@ == e.html@);
                    return Some(h);
                } else {
                    self.retain_entries(url, now, true);
                    return None;
                }
            }
            assert(s.skip(i as int).drop_first() =~= s.skip(i + 1));
            i = i + 1;
        }
        assert(s.skip(i as int) =~= Seq::<NavEntryView>::empty());
        None
    }

    /// The number of pages stored.
    pub fn len(&self) -> (r: usize)
        ensures
            r == self@.len(),
    {
        self.entries.len()
    }
}

proof fn lemma_entry_for_push(a: Seq<NavEntryView>, x: NavEntryView, url: Seq<char>)
    requires
        forall|i: int| 0 <= i < a.len() ==> #[trigger] a[i].url != url,
        x.url == url,
    ensures
        entry_for(a.push(x), url) == Some(x),
    decreases a.len(),
{
    if a.len() > 0 {
        assert(a.push(x).drop_first() =~= a.drop_first().push(x));
        assert forall|i: int| 0 <= i < a.drop_first().len() implies #[trigger] a.drop_first()[i].url != url by {
            assert(a.drop_first()[i] == a[i + 1]);
        }
        lemma_entry_for_push(a.drop_first(), x, url);
    }
}

/// A page put at `now` is what a lookup of its URL gives until it goes
/// stale: `get` at any time before `now + NAV_TTL_MS` returns it.
pub proof fn lemma_put_then_get(s: Seq<NavEntryView>, url: Seq<char>, html: Seq<char>, now: u64, later: u64)
    requires
        now <= later < now + NAV_TTL_MS,
    ensures
        entry_for(s.filter(other_url(url)).push(NavEntryView { url, html, created_ms: now }), url) == Some(
            NavEntryView { url, html, created_ms: now },
        ),
        is_fresh(now, later),
{
    let a = s.filter(other_url(url));
    assert forall|i: int| 0 <= i < a.len() implies #[trigger] a[i].url != url by {
        s.lemma_filter_pred(other_url(url), i);
    }
    lemma_entry_for_push(a, NavEntryView { url, html, created_ms: now }, url);
}

} // verus!
