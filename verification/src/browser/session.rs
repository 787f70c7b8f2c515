//! A browsing session's history: the visited addresses and the position in
//! them, moved by navigating, going back and going forward.
use vstd::prelude::*;

verus! {

pub struct Page {
    pub url: String,
    pub title: String,
}

pub struct Session {
    pub id: String,
    history: Vec<String>,
    cursor: usize,
}

/// The history and the position: `cursor` entries are behind or at the
/// current page, the current one being entry `cursor - 1`.
pub struct SessionView {
    pub id: Seq<char>,
    pub history: Seq<Seq<char>>,
    pub cursor: nat,
}

impl View for Session {
    type V = SessionView;

    closed spec fn view(&self) -> SessionView {
        SessionView { id: self.id@, history: self.history@.map_values(|s: String| s@), cursor: self.cursor as nat }
    }
}

pub open spec fn session_wf(s: SessionView) -> bool {
    s.cursor <= s.history.len()
}

/// The history after navigating to `url`: entries after the current one are
/// dropped and `url` becomes the last and current entry.
pub open spec fn navigated(s: SessionView, url: Seq<char>) -> SessionView {
    let h = s.history.take(s.cursor as int).push(url);
    SessionView { id: s.id, history: h, cursor: h.len() }
}

/// One entry back, at the first entry no move.
pub open spec fn went_back(s: SessionView) -> SessionView {
    if s.cursor > 1 {
        SessionView { cursor: (s.cursor - 1) as nat, ..s }
    } else {
        s
    }
}

/// One entry forward, at the last entry no move.
pub open spec fn went_forward(s: SessionView) -> SessionView {
    if s.cursor < s.history.len() {
        SessionView { cursor: s.cursor + 1, ..s }
    } else {
        s
    }
}

impl Session {
    pub fn new(id: String) -> (r: Self)
        ensures
            r@.id == id@,
            r@.history.len() == 0,
            r@.cursor == 0,
            session_wf(r@),
    {
        let r = Session { id, history: Vec::new(), cursor: 0 };
        assert(r@.history =~= Seq::<Seq<char>>::empty());
        r
    }

    /// Records a successful navigation to `url`; see `navigated`.
    pub fn record_navigation(&mut self, url: &str)
        requires
            session_wf(old(self)@),
        ensures
            final(self)@ == navigated(old(self)@, url@),
            session_wf(final(self)@),
            final(self)@.id == old(self)@.id,
    {
        let ghost s0 = self@;
        self.history.truncate(self.cursor);
        self.history.push(url.to_owned());
        self.cursor = self.history.len();
        assert(self@.history =~= navigated(s0, url@).history);
    }

    /// The current address, when there is one.
    pub fn current_url(&self) -> (r: Option<&str>)
        requires
            session_wf(self@),
        ensures
            self@.cursor > 0 ==> (r matches Some(u) && u@ == self@.history[self@.cursor - 1]),
            self@.cursor == 0 ==> r is None,
    {
        if self.cursor > 0 {
            Some(self.history[self.cursor - 1].as_str())
        } else {
            None
        }
    }

    pub fn can_go_back(&self) -> (r: bool)
        ensures
            r == (self@.cursor > 1),
    {
        self.cursor > 1
    }

    pub fn can_go_forward(&self) -> (r: bool)
        ensures
            r == (self@.cursor < self@.history.len()),
    {
        self.cursor < self.history.len()
    }

    /// Moves one entry back and gives the address to load there; `None`,
    /// with nothing moved, at the first entry.
    pub fn back(&mut self) -> (r: Option<String>)
        requires
            session_wf(old(self)@),
        ensures
            session_wf(final(self)@),
            final(self)@ == went_back(old(self)@),
            final(self)@.history == old(self)@.history,
            final(self)@.id == old(self)@.id,
            old(self)@.cursor > 1 ==> final(self)@.cursor == old(self)@.cursor - 1 && (r matches Some(u) && u@
                == old(self)@.history[old(self)@.cursor - 2]),
            old(self)@.cursor <= 1 ==> final(self)@ == old(self)@ && r is None,
    {
        if self.can_go_back() {
            self.cursor = self.cursor - 1;
            Some(self.history[self.cursor - 1].clone())
        } else {
            None
        }
    }

    /// Moves one entry forward and gives the address to load there; `None`,
    /// with nothing moved, at the last entry.
    pub fn forward(&mut self) -> (r: Option<String>)
        requires
            session_wf(old(self)@),
        ensures
            session_wf(final(self)@),
            final(self)@ == went_forward(old(self)@),
            final(self)@.history == old(self)@.history,
            final(self)@.id == old(self)@.id,
            old(self)@.cursor < old(self)@.history.len() ==> final(self)@.cursor == old(self)@.cursor + 1 && (r
                matches Some(u) && u@ == old(self)@.history[old(self)@.cursor as int]),
            old(self)@.cursor >= old(self)@.history.len() ==> final(self)@ == old(self)@ && r is None,
    {
        if self.can_go_forward() {
            assert(self.cursor < self.history.len());
            self.cursor = self.cursor + 1;
            Some(self.history[self.cursor - 1].clone())
        } else {
            None
        }
    }
}


/// After navigating to `url` it is the current entry, there is nothing to
/// go forward to, and the entries up to the old current one stay.
pub proof fn lemma_navigation_is_current(s: SessionView, url: Seq<char>)
    requires
        session_wf(s),
    ensures
        session_wf(navigated(s, url)),
        navigated(s, url).cursor > 0,
        navigated(s, url).history[navigated(s, url).cursor - 1] == url,
        !(navigated(s, url).cursor < navigated(s, url).history.len()),
        navigated(s, url).history.take(s.cursor as int) == s.history.take(s.cursor as int),
        navigated(s, url).id == s.id,
{
    assert(navigated(s, url).history.take(s.cursor as int) =~= s.history.take(s.cursor as int));
}

/// Going back and then forward returns to the same entry.
pub proof fn lemma_back_then_forward(s: SessionView)
    requires
        session_wf(s),
        s.cursor > 1,
    ensures
        went_forward(went_back(s)) == s,
{
}

/// Going forward and then back returns to the same entry.
pub proof fn lemma_forward_then_back(s: SessionView)
    requires
        session_wf(s),
        s.cursor >= 1,
        s.cursor < s.history.len(),
    ensures
        went_back(went_forward(s)) == s,
{
}

} // verus!
