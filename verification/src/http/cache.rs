//! Cached HTTP responses, and the cache that keeps one per URL.
use vstd::prelude::*;
use crate::text::str_eq;

verus! {

pub struct CacheEntry {
    pub content: String,
    pub content_type: String,
    /// Seconds since the Unix epoch when the entry was made.
    pub timestamp: u64,
    pub expires: Option<u64>,
}

pub struct EntryView {
    pub content: Seq<char>,
    pub content_type: Seq<char>,
    pub timestamp: u64,
    pub expires: Option<u64>,
}

impl View for CacheEntry {
    type V = EntryView;

    open spec fn view(&self) -> EntryView {
        EntryView {
            content: self.content@,
            content_type: self.content_type@,
            timestamp: self.timestamp,
            expires: self.expires,
        }
    }
}

impl Clone for CacheEntry {
    fn clone(&self) -> (r: Self)
        ensures
            r@ == self@,
    {
        CacheEntry {
            content: self.content.clone(),
            content_type: self.content_type.clone(),
            timestamp: self.timestamp,
            expires: self.expires,
        }
    }
}

/// Seconds since the Unix epoch by the system clock (`SystemTime::now`), 0
/// when the clock is before the epoch. Nothing is promised of the value: it
/// is the clock's.
#[verifier::external_body]
fn unix_seconds() -> (r: u64) {
    std::time::SystemTime::now().duration_since(std::time::UNIX_EPOCH).unwrap_or_default().as_secs()
}

impl CacheEntry {
    /// A fresh entry stamped with the current time, without an expiry.
    pub fn new(content: String, content_type: String) -> (r: Self)
        ensures
            r.content@ == content@,
            r.content_type@ == content_type@,
            r.expires is None,
    {
        let timestamp = unix_seconds();
        CacheEntry { content, content_type, timestamp, expires: None }
    }
}

/// The cached responses keyed by URL, in the order the URLs were first
/// stored, at most one per URL.
pub struct HttpCache {
    entries: Vec<(String, CacheEntry)>,
}

pub open spec fn pairs_view(s: Seq<(String, CacheEntry)>) -> Seq<(Seq<char>, EntryView)> {
    s.map_values(|p: (String, CacheEntry)| (p.0@, p.1@))
}

/// No URL occurs twice.
pub open spec fn unique_keys(s: Seq<(Seq<char>, EntryView)>) -> bool {
    forall|i: int, j: int| 0 <= i < j < s.len() ==> #[trigger] s[i].0 != #[trigger] s[j].0
}

pub open spec fn has_key(s: Seq<(Seq<char>, EntryView)>, k: Seq<char>) -> bool {
    exists|i: int| 0 <= i < s.len() && #[trigger] s[i].0 == k
}

pub open spec fn key_index(s: Seq<(Seq<char>, EntryView)>, k: Seq<char>) -> int {
    choose|i: int| 0 <= i < s.len() && #[trigger] s[i].0 == k
}

/// The map from URL to entry that a list of pairs with unique keys stands
/// for.
pub open spec fn pairs_map(s: Seq<(Seq<char>, EntryView)>) -> Map<Seq<char>, EntryView> {
    Map::new(|k: Seq<char>| has_key(s, k), |k: Seq<char>| s[key_index(s, k)].1)
}

/// What a lookup of `url` in the map `m` gives.
pub open spec fn lookup(m: Map<Seq<char>, EntryView>, url: Seq<char>) -> Option<EntryView> {
    if m.contains_key(url) {
        Some(m[url])
    } else {
        None
    }
}

proof fn lemma_index_is_key(s: Seq<(Seq<char>, EntryView)>, i: int)
    requires
        unique_keys(s),
        0 <= i < s.len(),
    ensures
        has_key(s, s[i].0),
        key_index(s, s[i].0) == i,
        pairs_map(s).contains_key(s[i].0),
        pairs_map(s)[s[i].0] == s[i].1,
{
    let k = s[i].0;
    assert(has_key(s, k));
    let j = key_index(s, k);
    if j != i {
        if j < i {
            assert(s[j].0 != s[i].0);
        } else {
            assert(s[i].0 != s[j].0);
        }
    }
}

impl View for HttpCache {
    type V = Map<Seq<char>, EntryView>;

    closed spec fn view(&self) -> Map<Seq<char>, EntryView> {
        pairs_map(pairs_view(self.entries@))
    }
}

impl HttpCache {
    /// Whether no URL is stored twice.
    pub closed spec fn wf(&self) -> bool {
        unique_keys(pairs_view(self.entries@))
    }

    pub fn new() -> (r: Self)
        ensures
            r.wf(),
            r@ == Map::<Seq<char>, EntryView>::empty(),
    {
        let r = HttpCache { entries: Vec::new() };
        assert(r@ =~= Map::<Seq<char>, EntryView>::empty());
        r
    }

    /// The position of `url` among the stored URLs.
    fn find(&self, url: &str) -> (r: Option<usize>)
        requires
            self.wf(),
        ensures
            match r {
                Some(i) => i < self.entries@.len() && self.entries@[i as int].0@ == url@,
                None => !has_key(pairs_view(self.entries@), url@),
            },
    {
        let ghost pv = pairs_view(self.entries@);
        let mut i: usize = 0;
        while i < self.entries.len()
            invariant
                i <= self.entries@.len(),
                pv == pairs_view(self.entries@),
                forall|j: int| 0 <= j < i ==> #[trigger] pv[j].0 != url@,
            decreases self.entries@.len() - i,
        {
            if str_eq(self.entries[i].0.as_str(), url) {
                return Some(i);
            }
            assert(pv[i as int].0 == self.entries@[i as int].0@);
            i = i + 1;
        }
        None
    }

    /// A copy of the entry stored for `url`, if any.
    pub fn get(&self, url: &str) -> (r: Option<CacheEntry>)
        requires
            self.wf(),
        ensures
            match r {
                Some(e) => lookup(self@, url@) == Some(e@),
                None => lookup(self@, url@) is None,
            },
    {
        match self.find(url) {
            Some(i) => {
                proof {
                    lemma_index_is_key(pairs_view(self.entries@), i as int);
                }
                Some(self.entries[i].1.clone())
            },
            None => None,
        }
    }

    /// Stores `entry` for `url`, replacing what was stored for it.
    pub fn set(&mut self, url: String, entry: CacheEntry)
        requires
            old(self).wf(),
        ensures
            final(self).wf(),
            final(self)@ == old(self)@.insert(url@, entry@),
    {
        let ghost old_pv = pairs_view(self.entries@);
        let ghost u = url@;
        let ghost e = entry@;
        match self.find(url.as_str()) {
            Some(i) => {
                self.entries.set(i, (url, entry));
                let ghost pv = pairs_view(self.entries@);
                assert(pv =~= old_pv.update(i as int, (u, e)));
                assert forall|a: int, b: int| 0 <= a < b < pv.len() implies #[trigger] pv[a].0 != #[trigger] pv[b].0 by {
                    assert(old_pv[a].0 != old_pv[b].0);
                }
                assert forall|k: Seq<char>| #[trigger] has_key(pv, k) == has_key(old_pv, k) by {
                    if has_key(pv, k) {
                        let j = choose|j: int| 0 <= j < pv.len() && #[trigger] pv[j].0 == k;
                        assert(old_pv[j].0 == k);
                    }
                    if has_key(old_pv, k) {
                        let j = choose|j: int| 0 <= j < old_pv.len() && #[trigger] old_pv[j].0 == k;
                        assert(pv[j].0 == k);
                    }
                }
                proof {
                    lemma_index_is_key(pv, i as int);
                    lemma_index_is_key(old_pv, i as int);
                    assert forall|k: Seq<char>| k != u && #[trigger] has_key(old_pv, k) implies pairs_map(pv)[k]
                        == pairs_map(old_pv)[k] by {
                        let j = choose|j: int| 0 <= j < old_pv.len() && #[trigger] old_pv[j].0 == k;
                        lemma_index_is_key(pv, j);
                        lemma_index_is_key(old_pv, j);
                    }
                    assert(pairs_map(pv) =~= pairs_map(old_pv).insert(u, e));
                }
            },
            None => {
                self.entries.push((url, entry));
                let ghost pv = pairs_view(self.entries@);
                let ghost n = old_pv.len() as int;
                assert(pv =~= old_pv.push((u, e)));
                assert forall|a: int, b: int| 0 <= a < b < pv.len() implies #[trigger] pv[a].0 != #[trigger] pv[b].0 by {
                    if b == n {
                        assert(old_pv[a].0 != u);
                    } else {
                        assert(old_pv[a].0 != old_pv[b].0);
                    }
                }
                proof {
                    lemma_index_is_key(pv, n);
                    assert forall|k: Seq<char>| k != u implies #[trigger] has_key(pv, k) == has_key(old_pv, k) by {
                        if has_key(pv, k) {
                            let j = choose|j: int| 0 <= j < pv.len() && #[trigger] pv[j].0 == k;
                            assert(old_pv[j].0 == k);
                        }
                        if has_key(old_pv, k) {
                            let j = choose|j: int| 0 <= j < old_pv.len() && #[trigger] old_pv[j].0 == k;
                            assert(pv[j].0 == k);
                        }
                    }
                    assert forall|k: Seq<char>| k != u && #[trigger] has_key(old_pv, k) implies pairs_map(pv)[k]
                        == pairs_map(old_pv)[k] by {
                        let j = choose|j: int| 0 <= j < old_pv.len() && #[trigger] old_pv[j].0 == k;
                        lemma_index_is_key(pv, j);
                        lemma_index_is_key(old_pv, j);
                    }
                    assert(pairs_map(pv) =~= pairs_map(old_pv).insert(u, e));
                }
            },
        }
    }

    /// Forgets every entry.
    pub fn clear(&mut self)
        ensures
            final(self).wf(),
            final(self)@ == Map::<Seq<char>, EntryView>::empty(),
    {
        self.entries = Vec::new();
        assert(pairs_map(pairs_view(self.entries@)) =~= Map::<Seq<char>, EntryView>::empty());
    }
}

/// A read gives back what the last write for that URL stored, writes to
/// other URLs leave it alone, and nothing is found after a clear.
pub proof fn lemma_cache_read_after_write(m: Map<Seq<char>, EntryView>, url: Seq<char>, other: Seq<char>, e: EntryView)
    requires
        other != url,
    ensures
        lookup(m.insert(url, e), url) == Some(e),
        lookup(m.insert(url, e), other) == lookup(m, other),
        lookup(Map::<Seq<char>, EntryView>::empty(), url) is None,
{
}

} // verus!
