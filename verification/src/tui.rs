use vstd::prelude::*;

use crate::models::HistoryEntry;
use crate::strutil::{chars_of, chars_to_string, dec_digits, fmt_i64, str_eq};

verus! {

/// How the search query is matched against commands.
#[derive(Debug, Clone, Copy, PartialEq, Eq, Structural)]
pub enum SearchMode {
    Fuzzy,
    Prefix,
    Fulltext,
    Regex,
}

impl SearchMode {
    /// Cycles to the next search mode.
    pub fn next(self) -> (r: SearchMode)
        ensures
            r == (match self {
                SearchMode::Fuzzy => SearchMode::Prefix,
                SearchMode::Prefix => SearchMode::Fulltext,
                SearchMode::Fulltext => SearchMode::Regex,
                SearchMode::Regex => SearchMode::Fuzzy,
            }),
    {
        match self {
            SearchMode::Fuzzy => SearchMode::Prefix,
            SearchMode::Prefix => SearchMode::Fulltext,
            SearchMode::Fulltext => SearchMode::Regex,
            SearchMode::Regex => SearchMode::Fuzzy,
        }
    }

    /// Short label for the mode indicator.
    pub fn label(&self) -> (r: &'static str)
        ensures
            r@ == (match *self {
                SearchMode::Fuzzy => "FUZZY"@,
                SearchMode::Prefix => "PREFIX"@,
                SearchMode::Fulltext => "FULL"@,
                SearchMode::Regex => "REGEX"@,
            }),
    {
        match self {
            SearchMode::Fuzzy => "FUZZY",
            SearchMode::Prefix => "PREFIX",
            SearchMode::Fulltext => "FULL",
            SearchMode::Regex => "REGEX",
        }
    }
}

/// Which subset of history entries to show.
#[derive(Debug, Clone, Copy, PartialEq, Eq, Structural)]
pub enum FilterMode {
    Global,
    Host,
    Session,
    Directory,
}

impl FilterMode {
    /// Cycles to the next filter mode.
    pub fn next(self) -> (r: FilterMode)
        ensures
            r == (match self {
                FilterMode::Global => FilterMode::Host,
                FilterMode::Host => FilterMode::Session,
                FilterMode::Session => FilterMode::Directory,
                FilterMode::Directory => FilterMode::Global,
            }),
    {
        match self {
            FilterMode::Global => FilterMode::Host,
            FilterMode::Host => FilterMode::Session,
            FilterMode::Session => FilterMode::Directory,
            FilterMode::Directory => FilterMode::Global,
        }
    }

    /// Short label for the filter indicator.
    pub fn label(&self) -> (r: &'static str)
        ensures
            r@ == (match *self {
                FilterMode::Global => "GLOBAL"@,
                FilterMode::Host => "HOST"@,
                FilterMode::Session => "SESSION"@,
                FilterMode::Directory => "DIR"@,
            }),
    {
        match self {
            FilterMode::Global => "GLOBAL",
            FilterMode::Host => "HOST",
            FilterMode::Session => "SESSION",
            FilterMode::Directory => "DIR",
        }
    }
}

/// State of the interactive history search. The input line is held as
/// characters with a character cursor, so cursor motion is always on a
/// character boundary.
pub struct App {
    pub search_mode: SearchMode,
    pub filter_mode: FilterMode,
    pub input: Vec<char>,
    pub cursor: usize,
    pub results: Vec<HistoryEntry>,
    pub selected: usize,
    pub total_count: i64,
    pub inline: bool,
    pub chosen: Option<String>,
    pub should_quit: bool,
    pub current_hostname: String,
    pub current_session_id: String,
    pub current_cwd: String,
}

impl App {
    /// The cursor stays on the input line.
    pub open spec fn wf(self) -> bool {
        self.cursor <= self.input@.len()
    }

    /// A fresh search over the given query, with the ambient identity the
    /// caller read from its environment.
    pub fn new(
        initial_query: &str,
        inline: bool,
        hostname: String,
        session_id: String,
        cwd: String,
    ) -> (r: App)
        ensures
            r.wf(),
            r.input@ == initial_query@,
            r.cursor == initial_query@.len(),
            r.search_mode is Fuzzy,
            r.filter_mode is Global,
            r.selected == 0,
            r.chosen is None,
            r.should_quit == false,
            r.inline == inline,
            r.current_hostname@ == hostname@,
            r.current_session_id@ == session_id@,
            r.current_cwd@ == cwd@,
    {
        let input = chars_of(initial_query);
        let cursor = input.len();
        App {
            search_mode: SearchMode::Fuzzy,
            filter_mode: FilterMode::Global,
            input,
            cursor,
            results: Vec::new(),
            selected: 0,
            total_count: 0,
            inline,
            chosen: Option::None,
            should_quit: false,
            current_hostname: hostname,
            current_session_id: session_id,
            current_cwd: cwd,
        }
    }

    /// The filter value the current filter mode matches against.
    pub fn filter_value(&self) -> (r: &str)
        ensures
            r@ == (match self.filter_mode {
                FilterMode::Global => Seq::<char>::empty(),
                FilterMode::Host => self.current_hostname@,
                FilterMode::Session => self.current_session_id@,
                FilterMode::Directory => self.current_cwd@,
            }),
    {
        match self.filter_mode {
            FilterMode::Global => {
                proof {
                    reveal_strlit("");
                    assert(""@ =~= Seq::<char>::empty());
                }
                ""
            },
            FilterMode::Host => self.current_hostname.as_str(),
            FilterMode::Session => self.current_session_id.as_str(),
            FilterMode::Directory => self.current_cwd.as_str(),
        }
    }

    /// Moves the selection up one row, stopping at the top.
    pub fn select_previous(&mut self)
        ensures
            final(self).selected == if old(self).selected > 0 {
                old(self).selected - 1
            } else {
                0int
            },
            *final(self) == (App { selected: final(self).selected, ..*old(self) }),
    {
        if self.selected > 0 {
            self.selected = self.selected - 1;
        }
    }

    /// Moves the selection down one row, stopping at the last result.
    pub fn select_next(&mut self)
        ensures
            final(self).selected == if old(self).results@.len() > 0 && old(self).selected + 1
                < old(self).results@.len() {
                old(self).selected + 1
            } else {
                old(self).selected as int
            },
            *final(self) == (App { selected: final(self).selected, ..*old(self) }),
    {
        if self.results.len() > 0 && self.selected < self.results.len() - 1 {
            self.selected = self.selected + 1;
        }
    }

    /// Accepts the selected result: its command becomes the chosen line,
    /// and the search ends.
    pub fn accept_selected(&mut self)
        ensures
            final(self).should_quit == true,
            old(self).selected < old(self).results@.len() ==> (final(self).chosen
                matches Option::Some(c) && c@ == old(self).results@[old(
                self,
            ).selected as int].command@),
            old(self).selected >= old(self).results@.len() ==> final(self).chosen == old(
                self,
            ).chosen,
            *final(self) == (App {
                chosen: final(self).chosen,
                should_quit: true,
                ..*old(self)
            }),
    {
        if self.selected < self.results.len() {
            self.chosen = Option::Some(self.results[self.selected].command.clone());
        }
        self.should_quit = true;
    }

    /// Ends the search without choosing anything.
    pub fn cancel(&mut self)
        ensures
            final(self).chosen is None,
            final(self).should_quit == true,
            *final(self) == (App {
                chosen: Option::None,
                should_quit: true,
                ..*old(self)
            }),
    {
        self.chosen = Option::None;
        self.should_quit = true;
    }

    /// Inserts a character at the cursor and moves the cursor past it.
    pub fn insert_char(&mut self, c: char)
        requires
            old(self).wf(),
        ensures
            final(self).wf(),
            final(self).input@ == old(self).input@.insert(old(self).cursor as int, c),
            final(self).cursor == old(self).cursor + 1,
            *final(self) == (App {
                input: final(self).input,
                cursor: final(self).cursor,
                ..*old(self)
            }),
    {
        self.input.insert(self.cursor, c);
        let new_len = self.input.len();
        proof {
            assert(self.cursor < new_len);
        }
        self.cursor = self.cursor + 1;
    }

    /// Deletes the character before the cursor, if any.
    pub fn delete_char(&mut self)
        requires
            old(self).wf(),
        ensures
            final(self).wf(),
            old(self).cursor == 0 ==> *final(self) == *old(self),
            old(self).cursor > 0 ==> {
                &&& final(self).input@ == old(self).input@.remove(old(self).cursor - 1)
                &&& final(self).cursor == old(self).cursor - 1
                &&& *final(self) == (App {
                    input: final(self).input,
                    cursor: final(self).cursor,
                    ..*old(self)
                })
            },
    {
        if self.cursor > 0 {
            self.input.remove(self.cursor - 1);
            self.cursor = self.cursor - 1;
        }
    }

    /// Moves the cursor one character left, stopping at the start.
    pub fn move_cursor_left(&mut self)
        requires
            old(self).wf(),
        ensures
            final(self).wf(),
            final(self).cursor == if old(self).cursor > 0 {
                old(self).cursor - 1
            } else {
                0int
            },
            *final(self) == (App { cursor: final(self).cursor, ..*old(self) }),
    {
        if self.cursor > 0 {
            self.cursor = self.cursor - 1;
        }
    }

    /// Moves the cursor one character right, stopping at the end.
    pub fn move_cursor_right(&mut self)
        requires
            old(self).wf(),
        ensures
            final(self).wf(),
            final(self).cursor == if old(self).cursor < old(self).input@.len() {
                old(self).cursor + 1
            } else {
                old(self).cursor as int
            },
            *final(self) == (App { cursor: final(self).cursor, ..*old(self) }),
    {
        if self.cursor < self.input.len() {
            self.cursor = self.cursor + 1;
        }
    }
}

/// Keeps an entry when the host filter is off or its hostname matches the
/// filter value exactly.
pub fn apply_host_filter(entry: &HistoryEntry, filter: FilterMode, filter_value: &str) -> (r: bool)
    ensures
        r == (match filter {
            FilterMode::Host => filter_value@.len() == 0 || entry.hostname@ == filter_value@,
            _ => true,
        }),
{
    match filter {
        FilterMode::Host => {
            if filter_value.is_empty() {
                true
            } else {
                str_eq(entry.hostname.as_str(), filter_value)
            }
        },
        _ => true,
    }
}

/// Shortens a working-directory path for display: a path over the limit
/// keeps its tail behind an ellipsis, counted in characters.
pub fn truncate_cwd(cwd: &str, max_len: usize) -> (r: String)
    ensures
        cwd@.len() <= max_len ==> r@ == cwd@,
        cwd@.len() > max_len && max_len >= 3 ==> r@ == "..."@ + cwd@.skip(
            cwd@.len() - max_len + 3,
        ),
{
    let n = cwd.unicode_len();
    if n <= max_len {
        let r = String::from_str(cwd);
        return r;
    }
    if max_len < 3 {
        let r = String::from_str(cwd);
        return r;
    }
    let start = n - max_len + 3;
    let chars = chars_of(cwd);
    let mut tail: Vec<char> = Vec::new();
    let mut i: usize = start;
    while i < n
        invariant
            chars@ == cwd@,
            start <= i <= n == cwd@.len(),
            tail@ =~= cwd@.subrange(start as int, i as int),
        decreases n - i,
    {
        tail.push(chars[i]);
        proof {
            assert(tail@ =~= cwd@.subrange(start as int, i + 1 as int));
        }
        i += 1;
    }
    let mut out = String::from_str("...");
    let tail_s = chars_to_string(&tail);
    out.append(tail_s.as_str());
    proof {
        assert(cwd@.subrange(start as int, n as int) =~= cwd@.skip(start as int));
    }
    out
}

/// Renders a duration for the results list: milliseconds below one second,
/// seconds with truncated tenths below one minute, minutes and seconds
/// beyond that.
pub fn format_duration(ms: i64) -> (r: String)
    ensures
        ms < 1000 ==> r@ == crate::strutil::dec_i64(ms as int) + "ms"@,
        1000 <= ms < 60000 ==> r@ == dec_digits(ms as int / 1000) + "."@ + dec_digits(
            (ms as int / 100) % 10,
        ) + "s"@,
        ms >= 60000 ==> r@ == dec_digits(ms as int / 60000) + "m"@ + dec_digits(
            (ms as int % 60000) / 1000,
        ) + "s"@,
{
    if ms < 1000 {
        let mut digits = fmt_i64(ms);
        let mut out = chars_to_string(&digits);
        out.append("ms");
        out
    } else if ms < 60000 {
        let secs = ms / 1000;
        let tenths = (ms / 100) % 10;
        let mut out = chars_to_string(&crate::strutil::fmt_u64(secs as u64));
        out.append(".");
        let t = chars_to_string(&crate::strutil::fmt_u64(tenths as u64));
        out.append(t.as_str());
        out.append("s");
        out
    } else {
        let mins = ms / 60000;
        let secs = (ms % 60000) / 1000;
        let mut out = chars_to_string(&crate::strutil::fmt_u64(mins as u64));
        out.append("m");
        let t = chars_to_string(&crate::strutil::fmt_u64(secs as u64));
        out.append(t.as_str());
        out.append("s");
        out
    }
}

} // verus!
