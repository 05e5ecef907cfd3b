//! The dashboard's view model: the active endpoints, the first-contact log,
//! the index of recently seen endpoints, focus and selection cursors.

use vstd::prelude::*;

use crate::text::{ascii_space_char, chars_of, is_ascii_space, push_unique, string_of, sub_chars};

verus! {

/// How many of the newest history entries the seen-endpoint index covers.
pub const SEEN_WINDOW: usize = 1000;

/// Which list receives keyboard navigation.
#[derive(Clone, Copy, Debug, PartialEq, Eq, Structural)]
pub enum Focus {
    ActiveList,
    HistoryList,
}

/// The other list.
pub open spec fn other_focus(f: Focus) -> Focus {
    match f {
        Focus::ActiveList => Focus::HistoryList,
        Focus::HistoryList => Focus::ActiveList,
    }
}

/// The selection after moving one row down a list of `len` rows, wrapping
/// to the top.
pub open spec fn next_index(sel: Option<usize>, len: nat) -> Option<usize> {
    match sel {
        Some(i) => if i >= len - 1 {
            Some(0usize)
        } else {
            Some((i + 1) as usize)
        },
        None => Some(0usize),
    }
}

/// The selection after moving one row up a list of `len` rows, wrapping to
/// the bottom.
pub open spec fn prev_index(sel: Option<usize>, len: nat) -> Option<usize> {
    match sel {
        Some(i) => if i == 0 {
            Some((len - 1) as usize)
        } else {
            Some((i - 1) as usize)
        },
        None => Some(0usize),
    }
}

/// The index of the first of the entries that the seen-endpoint index
/// covers, in a history of `n` entries.
pub open spec fn window_start(n: nat) -> int {
    if n > SEEN_WINDOW {
        n - SEEN_WINDOW
    } else {
        0
    }
}

/// The length of `s[..i]` without its trailing ASCII whitespace.
pub open spec fn trimmed_end(s: Seq<char>, i: int) -> int
    decreases i,
{
    if 0 < i <= s.len() && ascii_space_char(s[i - 1]) {
        trimmed_end(s, i - 1)
    } else {
        i
    }
}

/// The start of the run of non-whitespace characters that ends at `i`.
pub open spec fn token_start(s: Seq<char>, i: int) -> int
    decreases i,
{
    if 0 < i <= s.len() && !ascii_space_char(s[i - 1]) {
        token_start(s, i - 1)
    } else {
        i
    }
}

/// The last token of `s` delimited by ASCII whitespace; empty where `s`
/// holds none.
pub open spec fn last_token(s: Seq<char>) -> Seq<char> {
    let e = trimmed_end(s, s.len() as int);
    s.subrange(token_start(s, e), e)
}

/// The last tokens of the entries of `h` that the seen-endpoint index covers.
pub open spec fn seen_set(h: Seq<Seq<char>>) -> Set<Seq<char>> {
    seen_between(h, window_start(h.len()), h.len() as int)
}

/// The non-empty last tokens of the entries `h[a..b]`.
pub open spec fn seen_between(h: Seq<Seq<char>>, a: int, b: int) -> Set<Seq<char>> {
    Set::new(|t: Seq<char>| exists|k: int| a <= k < b && last_token(h[k]) == t && t.len() > 0)
}

/// The last whitespace-delimited token of a history entry, if it has one.
pub fn last_token_of(entry: &str) -> (r: Option<String>)
    ensures
        match r {
            Some(t) => t@ == last_token(entry@) && t@.len() > 0,
            None => last_token(entry@).len() == 0,
        },
{
    let s = chars_of(entry);
    let mut e: usize = s.len();
    while e > 0 && is_ascii_space(s[e - 1])
        invariant
            e <= s.len(),
            s@ == entry@,
            trimmed_end(s@, s.len() as int) == trimmed_end(s@, e as int),
        decreases e,
    {
        e -= 1;
    }
    let mut b: usize = e;
    while b > 0 && !is_ascii_space(s[b - 1])
        invariant
            b <= e <= s.len(),
            s@ == entry@,
            trimmed_end(s@, s.len() as int) == e,
            token_start(s@, e as int) == token_start(s@, b as int),
        decreases b,
    {
        b -= 1;
    }
    if b == e {
        None
    } else {
        let piece = sub_chars(&s, b, e);
        Some(string_of(&piece))
    }
}

/// A key press, as far as the dashboard tells keys apart.
#[derive(Clone, Copy, Debug, PartialEq, Eq, Structural)]
pub enum Key {
    Char(char),
    Tab,
    Left,
    Right,
    Up,
    Down,
    PageUp,
    PageDown,
    Other,
}

/// How many rows a page key moves the selection.
pub const PAGE_ROWS: usize = 10;

/// The history after appending each batch of `batches` in turn to `h`.
pub open spec fn appended(h: Seq<Seq<char>>, batches: Seq<Seq<Seq<char>>>) -> Seq<Seq<char>>
    decreases batches.len(),
{
    if batches.len() == 0 {
        h
    } else {
        appended(h + batches[0], batches.drop_first())
    }
}

/// The number of entries in all the batches together.
pub open spec fn total_count(batches: Seq<Seq<Seq<char>>>) -> nat
    decreases batches.len(),
{
    if batches.len() == 0 {
        0
    } else {
        batches[0].len() + total_count(batches.drop_first())
    }
}

/// Appending batches of entries to an empty history leaves as many entries
/// as the batches held together.
pub proof fn lemma_history_length(batches: Seq<Seq<Seq<char>>>)
    ensures
        appended(Seq::empty(), batches).len() == total_count(batches),
{
    lemma_appended_length(Seq::empty(), batches);
}

proof fn lemma_appended_length(h: Seq<Seq<char>>, batches: Seq<Seq<Seq<char>>>)
    ensures
        appended(h, batches).len() == h.len() + total_count(batches),
    decreases batches.len(),
{
    if batches.len() > 0 {
        lemma_appended_length(h + batches[0], batches.drop_first());
    }
}

/// `needle` occurs in `hay`.
pub open spec fn occurs_in(needle: Seq<char>, hay: Seq<char>) -> bool {
    exists|i: int| 0 <= i && i + needle.len() <= hay.len() && #[trigger] hay.subrange(i, i + needle.len()) == needle
}

/// A status that the dashboard shows as a problem: one that mentions
/// `Error` or `Wait`.
pub open spec fn alert_status(msg: Seq<char>) -> bool {
    occurs_in("Error"@, msg) || occurs_in("Wait"@, msg)
}

fn occurs_exec(needle: &Vec<char>, hay: &Vec<char>) -> (r: bool)
    ensures
        r == occurs_in(needle@, hay@),
{
    if needle.len() > hay.len() {
        return false;
    }
    let last = hay.len() - needle.len();
    let mut i: usize = 0;
    while i <= last
        invariant
            last == hay.len() - needle.len(),
            needle.len() <= hay.len(),
            i <= last + 1,
            forall|j: int| 0 <= j < i ==> #[trigger] hay@.subrange(j, j + needle.len()) != needle@,
        decreases last + 1 - i,
    {
        let mut k: usize = 0;
        while k < needle.len() && hay[i + k] == needle[k]
            invariant
                i <= last,
                last == hay.len() - needle.len(),
                k <= needle.len(),
                forall|m: int| 0 <= m < k ==> hay@[i + m] == needle@[m],
            decreases needle.len() - k,
        {
            k += 1;
        }
        if k == needle.len() {
            assert(hay@.subrange(i as int, i + needle.len()) =~= needle@);
            return true;
        }
        assert(hay@.subrange(i as int, i + needle.len())[k as int] != needle@[k as int]);
        i += 1;
    }
    false
}

/// Whether the status should be shown as a problem.
pub fn is_alert_status(msg: &str) -> (r: bool)
    ensures
        r == alert_status(msg@),
{
    let hay = chars_of(msg);
    let error = chars_of("Error");
    let wait = chars_of("Wait");
    occurs_exec(&error, &hay) || occurs_exec(&wait, &hay)
}

/// A message from the poller.
pub enum BackgroundEvent {
    /// A successful poll: the sorted active endpoints, the history entries
    /// of endpoints seen for the first time, and the status to show.
    DataUpdate { active: Vec<String>, new_history_entries: Vec<String>, pid_msg: String },
    /// A failed poll, with the status to show.
    Error(String),
}

/// The state that the dashboard renders.
pub struct App {
    pub target_name: String,
    pub active_connections: Vec<String>,
    pub history_log: Vec<String>,
    pub seen_ips: Vec<String>,
    pub last_status_msg: String,
    pub focus: Focus,
    pub active_selected: Option<usize>,
    pub history_selected: Option<usize>,
}

impl App {
    /// The number of rows of the focused list.
    pub open spec fn focused_len(&self) -> nat {
        match self.focus {
            Focus::ActiveList => self.active_connections.len() as nat,
            Focus::HistoryList => self.history_log.len() as nat,
        }
    }

    /// The selection of the focused list.
    pub open spec fn focused_selection(&self) -> Option<usize> {
        match self.focus {
            Focus::ActiveList => self.active_selected,
            Focus::HistoryList => self.history_selected,
        }
    }

    /// This state with the focused list's selection replaced.
    pub open spec fn with_focused_selection(self, sel: Option<usize>) -> App {
        match self.focus {
            Focus::ActiveList => App { active_selected: sel, ..self },
            Focus::HistoryList => App { history_selected: sel, ..self },
        }
    }

    /// The state after moving the focused list's selection down one row.
    pub open spec fn after_next(self) -> App {
        if self.focused_len() == 0 {
            self
        } else {
            self.with_focused_selection(next_index(self.focused_selection(), self.focused_len()))
        }
    }

    /// The state after moving the focused list's selection up one row.
    pub open spec fn after_previous(self) -> App {
        if self.focused_len() == 0 {
            self
        } else {
            self.with_focused_selection(prev_index(self.focused_selection(), self.focused_len()))
        }
    }

    /// The state after moving focus to the other list.
    pub open spec fn after_toggle(self) -> App {
        App { focus: other_focus(self.focus), ..self }
    }

    /// The state after `n` moves down.
    pub open spec fn after_next_times(self, n: nat) -> App
        decreases n,
    {
        if n == 0 {
            self
        } else {
            self.after_next_times((n - 1) as nat).after_next()
        }
    }

    /// The state after `n` moves up.
    pub open spec fn after_previous_times(self, n: nat) -> App
        decreases n,
    {
        if n == 0 {
            self
        } else {
            self.after_previous_times((n - 1) as nat).after_previous()
        }
    }

    /// A fresh view model for the process named `target`: empty lists,
    /// focus on the active list, nothing selected.
    pub fn new(target: String) -> (r: App)
        ensures
            r.target_name == target,
            r.active_connections@.len() == 0,
            r.history_log@.len() == 0,
            r.seen_ips@.len() == 0,
            r.last_status_msg@ == "Initializing..."@,
            r.focus == Focus::ActiveList,
            r.active_selected.is_none(),
            r.history_selected.is_none(),
    {
        App {
            target_name: target,
            active_connections: Vec::new(),
            history_log: Vec::new(),
            seen_ips: Vec::new(),
            last_status_msg: String::from_str("Initializing..."),
            focus: Focus::ActiveList,
            active_selected: None,
            history_selected: None,
        }
    }

    /// Moves the focused list's selection down one row, wrapping to the top;
    /// nothing happens on an empty list.
    pub fn next(&mut self)
        ensures
            *final(self) == old(self).after_next(),
    {
        let len = match self.focus {
            Focus::ActiveList => self.active_connections.len(),
            Focus::HistoryList => self.history_log.len(),
        };
        if len == 0 {
            return;
        }
        let sel = match self.focus {
            Focus::ActiveList => self.active_selected,
            Focus::HistoryList => self.history_selected,
        };
        let i = match sel {
            Some(i) => if i >= len - 1 {
                0
            } else {
                i + 1
            },
            None => 0,
        };
        match self.focus {
            Focus::ActiveList => self.active_selected = Some(i),
            Focus::HistoryList => self.history_selected = Some(i),
        }
    }

    /// Moves the focused list's selection up one row, wrapping to the bottom;
    /// nothing happens on an empty list.
    pub fn previous(&mut self)
        ensures
            *final(self) == old(self).after_previous(),
    {
        let len = match self.focus {
            Focus::ActiveList => self.active_connections.len(),
            Focus::HistoryList => self.history_log.len(),
        };
        if len == 0 {
            return;
        }
        let sel = match self.focus {
            Focus::ActiveList => self.active_selected,
            Focus::HistoryList => self.history_selected,
        };
        let i = match sel {
            Some(i) => if i == 0 {
                len - 1
            } else {
                i - 1
            },
            None => 0,
        };
        match self.focus {
            Focus::ActiveList => self.active_selected = Some(i),
            Focus::HistoryList => self.history_selected = Some(i),
        }
    }

    /// Rebuilds the seen-endpoint index from the newest entries of the
    /// history: the non-empty last whitespace-delimited token of each.
    pub fn update_seen_ips(&mut self)
        ensures
            final(self).seen_ips.deep_view().no_duplicates(),
            final(self).seen_ips.deep_view().to_set() == seen_set(old(self).history_log.deep_view()),
            final(self).seen_ips.len() <= old(self).history_log.len(),
            final(self).seen_ips.len() <= SEEN_WINDOW,
            *final(self) == (App { seen_ips: final(self).seen_ips, ..*old(self) }),
    {
        let n = self.history_log.len();
        let start: usize = if n > SEEN_WINDOW {
            n - SEEN_WINDOW
        } else {
            0
        };
        let ghost h = self.history_log.deep_view();
        let mut seen: Vec<String> = Vec::new();
        let mut k: usize = start;
        while k < n
            invariant
                start <= k <= n,
                n == self.history_log.len(),
                start == window_start(n as nat),
                h == self.history_log.deep_view(),
                seen.deep_view().no_duplicates(),
                seen.deep_view().to_set() == seen_between(h, start as int, k as int),
                seen.len() <= k - start,
            decreases n - k,
        {
            let ghost prev = seen_between(h, start as int, k as int);
            let tok = last_token_of(self.history_log[k].as_str());
            assert(h[k as int] == self.history_log[k as int]@);
            match tok {
                Some(t) => {
                    assert(seen_between(h, start as int, k + 1) =~= prev.insert(last_token(h[k as int])));
                    let ghost len0 = seen.len();
                    assert(seen.deep_view().len() == len0);
                    push_unique(&mut seen, t);
                    assert(seen.deep_view().len() == seen.len());
                },
                None => {
                    assert(seen_between(h, start as int, k + 1) =~= prev);
                },
            }
            k += 1;
        }
        self.seen_ips = seen;
    }

    /// Takes in a successful poll: the active list is replaced, the new
    /// entries are appended to the history in order, the status is set and
    /// the seen-endpoint index is rebuilt.
    pub fn apply_data_update(&mut self, active: Vec<String>, new_entries: Vec<String>, pid_msg: String)
        ensures
            final(self).active_connections == active,
            final(self).history_log.deep_view() == old(self).history_log.deep_view() + new_entries.deep_view(),
            final(self).last_status_msg == pid_msg,
            final(self).seen_ips.deep_view().no_duplicates(),
            final(self).seen_ips.deep_view().to_set() == seen_set(final(self).history_log.deep_view()),
            final(self).seen_ips.len() <= final(self).history_log.len(),
            final(self).seen_ips.len() <= SEEN_WINDOW,
            final(self).target_name == old(self).target_name,
            final(self).focus == old(self).focus,
            final(self).active_selected == old(self).active_selected,
            final(self).history_selected == old(self).history_selected,
    {
        self.active_connections = active;
        self.last_status_msg = pid_msg;
        let ghost h0 = self.history_log.deep_view();
        let mut k: usize = 0;
        while k < new_entries.len()
            invariant
                k <= new_entries.len(),
                self.history_log.deep_view() == h0 + new_entries.deep_view().subrange(0, k as int),
                self.active_connections == active,
                self.last_status_msg == pid_msg,
                self.target_name == old(self).target_name,
                self.focus == old(self).focus,
                self.active_selected == old(self).active_selected,
                self.history_selected == old(self).history_selected,
            decreases new_entries.len() - k,
        {
            let entry = new_entries[k].clone();
            let ghost before = self.history_log.deep_view();
            assert(entry@ == new_entries.deep_view()[k as int]);
            self.history_log.push(entry);
            assert(self.history_log.deep_view() =~= before.push(new_entries.deep_view()[k as int]));
            assert(new_entries.deep_view().subrange(0, k + 1) =~= new_entries.deep_view().subrange(
                0,
                k as int,
            ).push(new_entries.deep_view()[k as int]));
            assert(self.history_log.deep_view() =~= h0 + new_entries.deep_view().subrange(0, k + 1));
            k += 1;
        }
        assert(new_entries.deep_view().subrange(0, k as int) =~= new_entries.deep_view());
        self.update_seen_ips();
    }

    /// Takes in a failed poll: the status is set and the active list
    /// cleared; the history and the seen-endpoint index stay.
    pub fn apply_error(&mut self, msg: String)
        ensures
            final(self).active_connections@.len() == 0,
            *final(self) == (App {
                active_connections: final(self).active_connections,
                last_status_msg: msg,
                ..*old(self)
            }),
    {
        self.last_status_msg = msg;
        self.active_connections.clear();
    }

    /// Takes in one message from the poller.
    pub fn apply_event(&mut self, event: BackgroundEvent)
        ensures
            match event {
                BackgroundEvent::DataUpdate { active, new_history_entries, pid_msg } => {
                    &&& final(self).active_connections == active
                    &&& final(self).history_log.deep_view() == old(self).history_log.deep_view()
                        + new_history_entries.deep_view()
                    &&& final(self).last_status_msg == pid_msg
                    &&& final(self).seen_ips.deep_view().to_set() == seen_set(
                        final(self).history_log.deep_view(),
                    )
                },
                BackgroundEvent::Error(msg) => {
                    &&& final(self).active_connections@.len() == 0
                    &&& final(self).history_log == old(self).history_log
                    &&& final(self).seen_ips == old(self).seen_ips
                    &&& final(self).last_status_msg == msg
                },
            },
            final(self).focus == old(self).focus,
            final(self).active_selected == old(self).active_selected,
            final(self).history_selected == old(self).history_selected,
    {
        match event {
            BackgroundEvent::DataUpdate { active, new_history_entries, pid_msg } => {
                self.apply_data_update(active, new_history_entries, pid_msg);
            },
            BackgroundEvent::Error(msg) => {
                self.apply_error(msg);
            },
        }
    }

    /// Acts on a key press. Returns whether the dashboard should quit.
    pub fn handle_key(&mut self, key: Key) -> (quit: bool)
        ensures
            quit == (key == Key::Char('q')),
            *final(self) == match key {
                Key::Tab | Key::Left | Key::Right => old(self).after_toggle(),
                Key::Down | Key::Char('j') => old(self).after_next(),
                Key::Up | Key::Char('k') => old(self).after_previous(),
                Key::PageDown => old(self).after_next_times(PAGE_ROWS as nat),
                Key::PageUp => old(self).after_previous_times(PAGE_ROWS as nat),
                _ => *old(self),
            },
    {
        match key {
            Key::Char('q') => {
                return true;
            },
            Key::Tab | Key::Left | Key::Right => self.toggle_focus(),
            Key::Down | Key::Char('j') => self.next(),
            Key::Up | Key::Char('k') => self.previous(),
            Key::PageDown => {
                let mut k: usize = 0;
                while k < PAGE_ROWS
                    invariant
                        k <= PAGE_ROWS,
                        *self == old(self).after_next_times(k as nat),
                    decreases PAGE_ROWS - k,
                {
                    self.next();
                    k += 1;
                }
            },
            Key::PageUp => {
                let mut k: usize = 0;
                while k < PAGE_ROWS
                    invariant
                        k <= PAGE_ROWS,
                        *self == old(self).after_previous_times(k as nat),
                    decreases PAGE_ROWS - k,
                {
                    self.previous();
                    k += 1;
                }
            },
            _ => {},
        }
        false
    }

    /// Moves focus to the other list.
    pub fn toggle_focus(&mut self)
        ensures
            *final(self) == old(self).after_toggle(),
    {
        self.focus = match self.focus {
            Focus::ActiveList => Focus::HistoryList,
            Focus::HistoryList => Focus::ActiveList,
        };
    }
}

/// Moving down then up returns a list's selection to where it was, and both
/// moves wrap at the ends.
pub proof fn lemma_next_then_previous(a: App)
    requires
        a.focused_len() > 0,
        a.focused_selection() is Some,
        a.focused_selection()->0 < a.focused_len(),
    ensures
        a.after_next().after_previous() == a,
        a.focused_selection()->0 == a.focused_len() - 1 ==> a.after_next().focused_selection()
            == Some(0usize),
        a.focused_selection()->0 == 0 ==> a.after_previous().focused_selection() == Some(
            (a.focused_len() - 1) as usize,
        ),
{
}

/// Toggling focus twice restores the state.
pub proof fn lemma_toggle_involution(a: App)
    ensures
        a.after_toggle().after_toggle() == a,
{
}

} // verus!
