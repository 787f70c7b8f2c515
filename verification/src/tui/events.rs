//! Keys, and what they do in each mode.
use vstd::prelude::*;
use vstd::string::*;
use crate::tui::app::{link_status, App, AppMode, ViewMode};
use crate::text::{contains_seq, push_char, starts_with, str_starts_with, trim, trim_str};

verus! {

/// The keys the browser reacts to; any other key is `Other`.
#[derive(Debug, Clone, Copy, PartialEq, Eq, Structural)]
pub enum KeyCode {
    Enter,
    Backspace,
    Tab,
    BackTab,
    Up,
    Down,
    Left,
    Right,
    PageUp,
    PageDown,
    Esc,
    Char(char),
    Other,
}

#[derive(Debug, Clone, Copy, PartialEq, Eq, Structural)]
pub struct KeyEvent {
    pub code: KeyCode,
    /// Whether Control was held.
    pub ctrl: bool,
}

/// The key-handling state of the front end, as the key contracts speak of
/// it.
pub struct KeyState {
    pub mode: AppMode,
    pub view_mode: ViewMode,
    pub url_input: Seq<char>,
    pub search_input: Seq<char>,
    pub has_page: bool,
    pub scroll_offset: u16,
    pub selected_link: Option<usize>,
    pub link_count: nat,
    pub status_text: Seq<char>,
    pub history_idx: usize,
    pub should_quit: bool,
}

pub open spec fn key_state(a: App) -> KeyState {
    KeyState {
        mode: a.mode,
        view_mode: a.view_mode,
        url_input: a.url_input@,
        search_input: a.search_input@,
        has_page: a.current_page is Some,
        scroll_offset: a.scroll_offset,
        selected_link: a.selected_link,
        link_count: a.links@.len(),
        status_text: a.status_text@,
        history_idx: a.history_idx,
        should_quit: a.should_quit,
    }
}

pub open spec fn is_unreserved(b: u8) -> bool {
    (0x41 <= b <= 0x5A) || (0x61 <= b <= 0x7A) || (0x30 <= b <= 0x39) || b == 0x2D || b == 0x5F || b == 0x2E
        || b == 0x7E
}

pub open spec fn hex_digit(d: u8) -> char {
    if d < 10 {
        (0x30 + d) as char
    } else {
        (0x41 + d - 10) as char
    }
}

/// One byte of a search query: letters, digits and `-_.~` as they are, a
/// space as `+`, anything else as `%` and two upper-case hex digits.
pub open spec fn pct_byte(b: u8) -> Seq<char> {
    if is_unreserved(b) {
        seq![b as char]
    } else if b == 0x20 {
        seq!['+']
    } else {
        seq!['%', hex_digit(b / 16), hex_digit(b % 16)]
    }
}

pub open spec fn pct_encode(bs: Seq<u8>) -> Seq<char>
    decreases bs.len(),
{
    if bs.len() == 0 {
        Seq::empty()
    } else {
        pct_encode(bs.drop_last()) + pct_byte(bs.last())
    }
}

/// The address for what was typed: an http or https URL as it is, a word
/// with a dot and no space as an https address, anything else as a web
/// search for its UTF-8 bytes.
pub open spec fn resolved(input: Seq<char>) -> Seq<char> {
    let s = trim(input);
    if starts_with(s, "http://"@) || starts_with(s, "https://"@) {
        s
    } else if s.contains('.') && !s.contains(' ') {
        "https://"@ + s
    } else {
        "https://search.brave.com/search?q="@ + pct_encode(vstd::utf8::encode_utf8(s))
    }
}

fn has_char(v: &[char], c: char) -> (r: bool)
    ensures
        r == v@.contains(c),
{
    let mut i: usize = 0;
    while i < v.len()
        invariant
            i <= v@.len(),
            forall|j: int| 0 <= j < i ==> v@[j] != c,
        decreases v@.len() - i,
    {
        if v[i] == c {
            assert(v@[i as int] == c);
            return true;
        }
        i = i + 1;
    }
    false
}

pub(crate) fn hex_digit_exec(d: u8) -> (r: char)
    requires
        d < 16,
    ensures
        r == hex_digit(d),
{
    if d < 10 {
        (0x30 + d) as char
    } else {
        (0x41 + d - 10) as char
    }
}

/// Turns typed text into an address; see `resolved`.
pub fn resolve_input(input: String) -> (r: String)
    ensures
        r@ == resolved(input@),
{
    let t = trim_str(input.as_str());
    let s = t.as_str();
    if str_starts_with(s, "http://") || str_starts_with(s, "https://") {
        return t;
    }
    let cs = crate::text::chars_of(s);
    if has_char(cs.as_slice(), '.') && !has_char(cs.as_slice(), ' ') {
        let mut out = "https://".to_owned();
        out.append(s);
        return out;
    }
    let bytes = s.as_bytes();
    let mut out = "https://search.brave.com/search?q=".to_owned();
    let ghost o0 = out@;
    let ghost bv = bytes@;
    assert(bv.take(0) =~= Seq::<u8>::empty());
    let mut i: usize = 0;
    while i < bytes.len()
        invariant
            i <= bytes@.len(),
            bv == bytes@,
            out@ == o0 + pct_encode(bv.take(i as int)),
        decreases bytes@.len() - i,
    {
        let ghost t1 = bv.take(i + 1);
        assert(t1.drop_last() =~= bv.take(i as int));
        let b = bytes[i];
        let ghost before = out@;
        if (0x41 <= b && b <= 0x5A) || (0x61 <= b && b <= 0x7A) || (0x30 <= b && b <= 0x39) || b == 0x2D || b
            == 0x5F || b == 0x2E || b == 0x7E {
            push_char(&mut out, b as char);
            assert(out@ =~= before + seq![b as char]);
        } else if b == 0x20 {
            push_char(&mut out, '+');
            assert(out@ =~= before + seq!['+']);
        } else {
            push_char(&mut out, '%');
            push_char(&mut out, hex_digit_exec(b / 16));
            push_char(&mut out, hex_digit_exec(b % 16));
            assert(out@ =~= before + seq!['%', hex_digit(b / 16), hex_digit(b % 16)]);
        }
        i = i + 1;
        assert(out@ =~= o0 + pct_encode(bv.take(i as int)));
    }
    assert(bv.take(bytes@.len() as int) =~= bv);
    out
}

/// `String::pop`: the last character goes, if there is one.
#[verifier::external_body]
fn pop_char(s: &mut String)
    ensures
        final(s)@ == (if old(s)@.len() > 0 {
            old(s)@.drop_last()
        } else {
            old(s)@
        }),
{
    s.pop();
}

/// The fields no key touches.
pub open spec fn untouched(a: App, b: App) -> bool {
    &&& a.complexity == b.complexity
    &&& a.history == b.history
    &&& a.links == b.links
    &&& a.bookmarks == b.bookmarks
    &&& a.selected_bm == b.selected_bm
    &&& a.bitfox_status == b.bitfox_status
    &&& a.dom_nodes == b.dom_nodes
    &&& a.script_count == b.script_count
    &&& a.loading_url == b.loading_url
}

/// The new-tab page: Enter searches for what was typed (nothing when blank),
/// Backspace deletes, `q` on an empty search box quits, other characters
/// are typed.
pub open spec fn newtab_step(s: KeyState, code: KeyCode) -> (KeyState, Option<Seq<char>>) {
    match code {
        KeyCode::Enter => if trim(s.search_input).len() == 0 {
            (s, None)
        } else {
            (KeyState { search_input: Seq::empty(), ..s }, Some(resolved(trim(s.search_input))))
        },
        KeyCode::Backspace => (KeyState {
            search_input: if s.search_input.len() > 0 {
                s.search_input.drop_last()
            } else {
                s.search_input
            },
            ..s
        }, None),
        KeyCode::Char(c) => if c == 'q' && s.search_input.len() == 0 {
            (KeyState { should_quit: true, ..s }, None)
        } else {
            (KeyState { search_input: s.search_input.push(c), ..s }, None)
        },
        _ => (s, None),
    }
}

/// The address bar: Enter loads what was typed (or goes back to the page
/// when blank), Esc leaves, characters are typed and Backspace deletes.
pub open spec fn input_step(s: KeyState, code: KeyCode) -> (KeyState, Option<Seq<char>>) {
    match code {
        KeyCode::Enter => if trim(s.url_input).len() == 0 {
            (KeyState { mode: AppMode::Page, ..s }, None)
        } else {
            (KeyState { url_input: Seq::empty(), mode: AppMode::Loading, ..s }, Some(resolved(trim(s.url_input))))
        },
        KeyCode::Esc => (KeyState {
            mode: if s.has_page {
                AppMode::Page
            } else {
                AppMode::NewTab
            },
            ..s
        }, None),
        KeyCode::Char(c) => (KeyState { url_input: s.url_input.push(c), ..s }, None),
        KeyCode::Backspace => (KeyState {
            url_input: if s.url_input.len() > 0 {
                s.url_input.drop_last()
            } else {
                s.url_input
            },
            ..s
        }, None),
        _ => (s, None),
    }
}

fn handle_newtab(app: &mut App, key: KeyEvent) -> (r: Option<String>)
    ensures
        untouched(*old(app), *final(app)),
        final(app).current_page == old(app).current_page,
        ({
            let (s2, out) = newtab_step(key_state(*old(app)), key.code);
            &&& key_state(*final(app)) == s2
            &&& match out {
                Some(u) => r matches Some(x) && x@ == u,
                None => r is None,
            }
        }),
{
    match key.code {
        KeyCode::Enter => {
            let q = trim_str(app.search_input.as_str());
            if q.as_str().is_empty() {
                return None;
            }
            app.search_input = String::new();
            Some(resolve_input(q))
        },
        KeyCode::Backspace => {
            pop_char(&mut app.search_input);
            None
        },
        KeyCode::Char(c) => {
            if c == 'q' && app.search_input.as_str().is_empty() {
                app.should_quit = true;
            } else {
                push_char(&mut app.search_input, c);
            }
            None
        },
        _ => None,
    }
}

fn handle_input(app: &mut App, key: KeyEvent) -> (r: Option<String>)
    ensures
        untouched(*old(app), *final(app)),
        final(app).current_page == old(app).current_page,
        ({
            let (s2, out) = input_step(key_state(*old(app)), key.code);
            &&& key_state(*final(app)) == s2
            &&& match out {
                Some(u) => r matches Some(x) && x@ == u,
                None => r is None,
            }
        }),
{
    match key.code {
        KeyCode::Enter => {
            let url = trim_str(app.url_input.as_str());
            if url.as_str().is_empty() {
                app.mode = AppMode::Page;
                return None;
            }
            app.url_input = String::new();
            app.mode = AppMode::Loading;
            Some(resolve_input(url))
        },
        KeyCode::Esc => {
            app.mode = if app.current_page.is_some() { AppMode::Page } else { AppMode::NewTab };
            None
        },
        KeyCode::Char(c) => {
            push_char(&mut app.url_input, c);
            None
        },
        KeyCode::Backspace => {
            pop_char(&mut app.url_input);
            None
        },
        _ => None,
    }
}

/// The link selected after moving forward: the first when none is, else the
/// next one round the end; nothing changes without links.
pub open spec fn next_selection(a: App) -> Option<usize> {
    if a.links@.len() == 0 {
        a.selected_link
    } else {
        Some(
            match a.selected_link {
                None => 0usize,
                Some(i) => ((i + 1) % (a.links@.len() as int)) as usize,
            },
        )
    }
}

/// The link selected after moving back: the last when none is or the first
/// was, else the one before; nothing changes without links.
pub open spec fn prev_selection(a: App) -> Option<usize> {
    if a.links@.len() == 0 {
        a.selected_link
    } else {
        Some(
            match a.selected_link {
                None => (a.links@.len() - 1) as usize,
                Some(i) => if i == 0 {
                    (a.links@.len() - 1) as usize
                } else {
                    (i - 1) as usize
                },
            },
        )
    }
}

/// Where going back leaves the history position.
pub open spec fn back_index(a: App) -> usize {
    if a.history_idx > 0 {
        (a.history_idx - 1) as usize
    } else {
        0
    }
}

/// The address going back loads: the previous history entry, none at the
/// start of the history.
pub open spec fn back_answer(a: App, r: Option<String>) -> bool {
    if a.history_idx > 0 && a.history_idx - 1 < a.history@.len() {
        r matches Some(u) && u@ == a.history@[a.history_idx - 1]@
    } else {
        r is None
    }
}

/// What a key does on a page, from `a` to `b`, answering `r`.
pub open spec fn page_step(a: App, b: App, code: KeyCode, r: Option<String>) -> bool {
    &&& b.history == a.history
    &&& match code {
            KeyCode::Tab | KeyCode::Down => r is None && b.links == a.links && b.mode == a.mode
                && b.selected_link == next_selection(a) && (a.links@.len() > 0 ==> b.status_text@ == link_status(
                a.links@[b.selected_link->Some_0 as int].href@,
            )),
            KeyCode::BackTab | KeyCode::Up => r is None && b.links == a.links && b.mode == a.mode
                && b.selected_link == prev_selection(a),
            KeyCode::Right | KeyCode::Enter => b == a && match a.selected_link {
                Some(i) => if i < a.links@.len() {
                    r matches Some(u) && u@ == crate::tui::events::resolved(a.links@[i as int].href@)
                } else {
                    r is None
                },
                None => r is None,
            },
            KeyCode::Left => b.history_idx == back_index(a) && back_answer(a, r),
            KeyCode::Backspace => b.history_idx == back_index(a) && back_answer(a, r) && (r is None
                ==> b.status_text@ == "No more history."@),
            KeyCode::Char(c) => if c == 'b' || c == 'B' {
                b.history_idx == back_index(a) && back_answer(a, r) && (r is None ==> b.status_text@
                    == "No more history."@)
            } else if c == '/' || c == 'g' {
                r is None && b.mode == AppMode::Input && b.url_input@ == Seq::<char>::empty()
            } else if c == 'q' {
                r is None && b.mode == AppMode::NewTab && b.current_page is None
                    && b.links@.len() == 0 && b.status_text@ == "Ready"@
            } else if c == 'v' || c == 'V' {
                r is None && b.view_mode == ViewMode::PageView && b.status_text@
                    == "Page view — press T to return to terminal"@
            } else if c == 't' || c == 'T' {
                r is None && b.view_mode == ViewMode::Terminal && b.status_text@
                    == "Terminal mode"@
            } else if c == 'j' {
                r is None && b.scroll_offset == (if a.scroll_offset as int + 5 > u16::MAX {
                    u16::MAX
                } else {
                    (a.scroll_offset + 5) as u16
                })
            } else if c == 'k' {
                r is None && b.scroll_offset == (if a.scroll_offset < 5 {
                    0
                } else {
                    (a.scroll_offset - 5) as u16
                })
            } else {
                r is None && b == a
            },
            KeyCode::PageDown => r is None && b.scroll_offset == (if a.scroll_offset as int + 5
                > u16::MAX {
                u16::MAX
            } else {
                (a.scroll_offset + 5) as u16
            }),
            KeyCode::PageUp => r is None && b.scroll_offset == (if a.scroll_offset < 5 {
                0
            } else {
                (a.scroll_offset - 5) as u16
            }),
            KeyCode::Esc => r is None && b.selected_link is None && b.status_text@ == "Ready"@,
            KeyCode::Other => r is None && b == a,
        }
}

/// A page: Tab/Down and BackTab/Up move through the links, Right/Enter
/// follow the selected one, Left/`b`/Backspace go back, `/` and `g` open the
/// address bar, `q` closes the page, `v`/`t` switch the view, `j`/`k` and
/// PageDown/PageUp scroll by five lines, Esc clears the selection. `p` is
/// handled by the caller, which starts the external player.
fn handle_page(app: &mut App, key: KeyEvent) -> (r: Option<String>)
    requires
        old(app).selected_link != Some(usize::MAX),
    ensures
        page_step(*old(app), *final(app), key.code, r),
{
    match key.code {
        KeyCode::Tab | KeyCode::Down => {
            app.next_link();
            None
        },
        KeyCode::BackTab | KeyCode::Up => {
            app.prev_link();
            None
        },
        KeyCode::Right | KeyCode::Enter => match app.follow_selected_link() {
            Some(u) => Some(resolve_input(u)),
            None => None,
        },
        KeyCode::Left => app.go_back(),
        KeyCode::Backspace => {
            let url = app.go_back();
            if url.is_none() {
                app.status_text = "No more history.".to_owned();
            }
            url
        },
        KeyCode::Char(c) => {
            if c == 'b' || c == 'B' {
                let url = app.go_back();
                if url.is_none() {
                    app.status_text = "No more history.".to_owned();
                }
                url
            } else if c == '/' || c == 'g' {
                app.mode = AppMode::Input;
                app.url_input = String::new();
                None
            } else if c == 'q' {
                app.mode = AppMode::NewTab;
                app.current_page = None;
                app.links = Vec::new();
                app.status_text = "Ready".to_owned();
                None
            } else if c == 'v' || c == 'V' {
                app.view_mode = ViewMode::PageView;
                app.status_text = "Page view — press T to return to terminal".to_owned();
                None
            } else if c == 't' || c == 'T' {
                app.view_mode = ViewMode::Terminal;
                app.status_text = "Terminal mode".to_owned();
                None
            } else if c == 'j' {
                app.scroll_offset = app.scroll_offset.saturating_add(5);
                None
            } else if c == 'k' {
                app.scroll_offset = app.scroll_offset.saturating_sub(5);
                None
            } else {
                None
            }
        },
        KeyCode::PageDown => {
            app.scroll_offset = app.scroll_offset.saturating_add(5);
            None
        },
        KeyCode::PageUp => {
            app.scroll_offset = app.scroll_offset.saturating_sub(5);
            None
        },
        KeyCode::Esc => {
            app.selected_link = None;
            app.status_text = "Ready".to_owned();
            None
        },
        KeyCode::Other => None,
    }
}

/// Handles a key; a URL is returned when the key asks to load one. Control+C
/// quits in every mode; while loading, keys are ignored.
pub fn handle_key(app: &mut App, key: KeyEvent) -> (r: Option<String>)
    requires
        old(app).selected_link != Some(usize::MAX),
    ensures
        key.ctrl && key.code == KeyCode::Char('c') ==> final(app).should_quit && r is None && final(app).mode
            == old(app).mode,
        !(key.ctrl && key.code == KeyCode::Char('c')) ==> match old(app).mode {
            AppMode::Loading => r is None && *final(app) == *old(app),
            AppMode::NewTab => {
                let (s2, out) = newtab_step(key_state(*old(app)), key.code);
                &&& key_state(*final(app)) == s2
                &&& match out {
                    Some(u) => r matches Some(x) && x@ == u,
                    None => r is None,
                }
            },
            AppMode::Input => {
                let (s2, out) = input_step(key_state(*old(app)), key.code);
                &&& key_state(*final(app)) == s2
                &&& match out {
                    Some(u) => r matches Some(x) && x@ == u,
                    None => r is None,
                }
            },
            AppMode::Page => page_step(*old(app), *final(app), key.code, r),
        },
{
    if key.ctrl && key.code == KeyCode::Char('c') {
        app.should_quit = true;
        return None;
    }
    match app.mode {
        AppMode::NewTab => handle_newtab(app, key),
        AppMode::Page => handle_page(app, key),
        AppMode::Input => handle_input(app, key),
        AppMode::Loading => None,
    }
}

} // verus!
