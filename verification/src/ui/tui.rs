//! The terminal interface: keys, selection, categories and the line of input.

use crate::cli::{file_of_url, target_path};
use crate::download_registry::entries::entry_views;
use crate::number;
use crate::scan;
use crate::text;
use crate::types::{DownloadCategory, DownloadEntry, EntryView, label_of, texts};
use vstd::prelude::*;

verus! {

/// What the keys go to.
#[derive(Debug, Clone, Copy, PartialEq, Eq, Structural)]
pub enum InputMode {
    /// The list.
    Normal,
    /// The line of input, for a new download.
    AddUrl,
    /// The line of input, for a search.
    Search,
}

/// A key.
#[derive(Debug, Clone, Copy, PartialEq, Eq, Structural)]
pub enum Key {
    Char(char),
    Down,
    Up,
    Tab,
    BackTab,
    Left,
    Right,
    Enter,
    Esc,
    Backspace,
    Other,
}

/// What a key asks for.
#[derive(Debug)]
pub enum Command {
    Nothing,
    Quit,
    /// Run the queue.
    RunAll,
    Pause(String),
    Resume(String),
    Retry(String),
    Remove(String),
    /// Remove what is complete.
    Clean,
    /// Add the download at a URL, to a path.
    Add { url: String, path: String },
}

/// The content of a `Command`.
pub enum CommandView {
    Nothing,
    Quit,
    RunAll,
    Pause(Seq<char>),
    Resume(Seq<char>),
    Retry(Seq<char>),
    Remove(Seq<char>),
    Clean,
    Add(Seq<char>, Seq<char>),
}

impl View for Command {
    type V = CommandView;

    open spec fn view(&self) -> CommandView {
        match self {
            Command::Nothing => CommandView::Nothing,
            Command::Quit => CommandView::Quit,
            Command::RunAll => CommandView::RunAll,
            Command::Pause(id) => CommandView::Pause(id@),
            Command::Resume(id) => CommandView::Resume(id@),
            Command::Retry(id) => CommandView::Retry(id@),
            Command::Remove(id) => CommandView::Remove(id@),
            Command::Clean => CommandView::Clean,
            Command::Add { url, path } => CommandView::Add(url@, path@),
        }
    }
}

/// How many tabs there are: one for all downloads and one for each category.
pub const TABS: usize = 7;

/// The state of the interface.
#[derive(Debug)]
pub struct App {
    /// The line of input.
    pub input: Vec<char>,
    pub input_mode: InputMode,
    pub category_tab: usize,
    pub search: String,
    pub entries: Vec<DownloadEntry>,
    pub max_workers: usize,
    pub status_message: String,
    /// The line that is selected.
    pub selected: Option<usize>,
    pub needs_refresh: bool,
    pub list_pending: bool,
    pub run_pending: bool,
}

/// The content of an `App`.
pub struct AppView {
    pub input: Seq<char>,
    pub input_mode: InputMode,
    pub category_tab: usize,
    pub search: Seq<char>,
    pub entries: Seq<EntryView>,
    pub max_workers: usize,
    pub status_message: Seq<char>,
    pub selected: Option<usize>,
    pub needs_refresh: bool,
    pub list_pending: bool,
    pub run_pending: bool,
}

impl View for App {
    type V = AppView;

    open spec fn view(&self) -> AppView {
        AppView {
            input: self.input@,
            input_mode: self.input_mode,
            category_tab: self.category_tab,
            search: self.search@,
            entries: entry_views(self.entries@),
            max_workers: self.max_workers,
            status_message: self.status_message@,
            selected: self.selected,
            needs_refresh: self.needs_refresh,
            list_pending: self.list_pending,
            run_pending: self.run_pending,
        }
    }
}

/// The interface when it opens.
pub open spec fn opened() -> AppView {
    AppView {
        input: Seq::empty(),
        input_mode: InputMode::Normal,
        category_tab: 0,
        search: Seq::empty(),
        entries: Seq::empty(),
        max_workers: 32,
        status_message: Seq::empty(),
        selected: None,
        needs_refresh: true,
        list_pending: false,
        run_pending: false,
    }
}

/// The categories in the order of their tabs.
pub open spec fn categories() -> Seq<DownloadCategory> {
    seq![
        DownloadCategory::Other,
        DownloadCategory::Video,
        DownloadCategory::Audio,
        DownloadCategory::Archive,
        DownloadCategory::Document,
        DownloadCategory::Image,
    ]
}

/// The category of a tab; the first tab is for all.
pub open spec fn tab_category(tab: int) -> Option<DownloadCategory> {
    if 1 <= tab < TABS {
        Some(categories()[tab - 1])
    } else {
        None
    }
}

/// The titles of the tabs.
pub open spec fn tab_titles() -> Seq<Seq<char>> {
    seq!["All"@] + categories().map_values(|c: DownloadCategory| label_of(c))
}

/// The titles of the tabs.
pub fn category_titles() -> (res: Vec<String>)
    ensures
        texts(res@) == tab_titles(),
        res@.len() == TABS,
{
    let all = DownloadCategory::all();
    let mut out: Vec<String> = Vec::new();
    out.push("All".to_owned());
    let mut i: usize = 0;
    while i < 6
        invariant
            i <= 6,
            all@ == categories(),
            out@.len() == i + 1,
            texts(out@) == seq!["All"@] + categories().take(i as int).map_values(
                |c: DownloadCategory| label_of(c),
            ),
        decreases 6 - i,
    {
        let ghost before = texts(out@);
        out.push(all[i].label().to_owned());
        proof {
            assert(texts(out@) =~= before.push(label_of(categories()[i as int])));
            assert(texts(out@) =~= seq!["All"@] + categories().take(i + 1).map_values(
                |c: DownloadCategory| label_of(c),
            ));
        }
        i = i + 1;
    }
    proof {
        assert(categories().take(6) =~= categories());
    }
    out
}

/// The line below the one that is selected; the first behind the last.
pub open spec fn line_below(n: int, selected: Option<usize>) -> Option<usize> {
    if n == 0 {
        selected
    } else {
        match selected {
            Some(i) => if i + 1 >= n {
                Some(0)
            } else {
                Some((i + 1) as usize)
            },
            None => Some(0),
        }
    }
}

/// The line above the one that is selected; the last before the first.
pub open spec fn line_above(n: int, selected: Option<usize>) -> Option<usize> {
    if n == 0 {
        selected
    } else {
        match selected {
            Some(i) => if i == 0 {
                Some((n - 1) as usize)
            } else {
                Some((i - 1) as usize)
            },
            None => Some((n - 1) as usize),
        }
    }
}

/// The id of the download that is selected.
pub open spec fn selected_id(a: AppView) -> Option<Seq<char>> {
    match a.selected {
        Some(i) => if i < a.entries.len() {
            Some(a.entries[i as int].id)
        } else {
            None
        },
        None => None,
    }
}

/// The interface once another tab was chosen.
pub open spec fn on_tab(a: AppView, tab: int) -> AppView {
    AppView { category_tab: tab as usize, needs_refresh: true, ..a }
}

/// The interface after something was asked for, with a message about it.
pub open spec fn told(a: AppView, message: Seq<char>) -> AppView {
    AppView { status_message: message, needs_refresh: true, ..a }
}

/// The interface with the keys going to the list.
pub open spec fn back(a: AppView) -> AppView {
    AppView { input: Seq::empty(), input_mode: InputMode::Normal, ..a }
}

/// Where the first white space stands.
pub open spec fn first_space(s: Seq<char>) -> nat
    decreases s.len(),
{
    if s.len() == 0 || scan::is_space(s[0]) {
        0
    } else {
        1 + first_space(s.drop_first())
    }
}

/// The URL and the path that a line of input names: the path stands behind the first white space, or
/// is the file that the URL leads to.
pub open spec fn typed_download(line: Seq<char>) -> (Seq<char>, Seq<char>) {
    let k = first_space(line) as int;
    if k < line.len() {
        (line.take(k), line.skip(k + 1))
    } else {
        (line, file_of_url(line))
    }
}

/// A key while the keys go to the list.
pub open spec fn in_list(a: AppView, key: Key) -> (AppView, CommandView) {
    match key {
        Key::Char('q') => (a, CommandView::Quit),
        Key::Char('a') => (
            AppView { input_mode: InputMode::AddUrl, input: Seq::empty(), ..a },
            CommandView::Nothing,
        ),
        Key::Char('/') => (
            AppView { input_mode: InputMode::Search, input: a.search, ..a },
            CommandView::Nothing,
        ),
        Key::Char('R') => if a.run_pending {
            (a, CommandView::Nothing)
        } else {
            (
                AppView { run_pending: true, status_message: "Running queue…"@, ..a },
                CommandView::RunAll,
            )
        },
        Key::Char('p') => match selected_id(a) {
            Some(id) => (told(a, "Paused."@), CommandView::Pause(id)),
            None => (a, CommandView::Nothing),
        },
        Key::Char('r') => match selected_id(a) {
            Some(id) => (told(a, "Marked pending."@), CommandView::Resume(id)),
            None => (a, CommandView::Nothing),
        },
        Key::Char('y') => match selected_id(a) {
            Some(id) => (told(a, "Marked for retry."@), CommandView::Retry(id)),
            None => (a, CommandView::Nothing),
        },
        Key::Char('d') => match selected_id(a) {
            Some(id) => (told(a, "Removed."@), CommandView::Remove(id)),
            None => (a, CommandView::Nothing),
        },
        Key::Char('c') => (told(a, "Cleaned completed."@), CommandView::Clean),
        Key::Down | Key::Char('j') => (
            AppView { selected: line_below(a.entries.len() as int, a.selected), ..a },
            CommandView::Nothing,
        ),
        Key::Up | Key::Char('k') => (
            AppView { selected: line_above(a.entries.len() as int, a.selected), ..a },
            CommandView::Nothing,
        ),
        Key::Tab | Key::Right => (
            on_tab(a, (a.category_tab + 1) % TABS as int),
            CommandView::Nothing,
        ),
        Key::BackTab | Key::Left => (
            on_tab(
                a,
                if a.category_tab == 0 {
                    TABS - 1
                } else {
                    a.category_tab - 1
                },
            ),
            CommandView::Nothing,
        ),
        _ => (a, CommandView::Nothing),
    }
}

/// A key while the keys go to the line of input.
pub open spec fn in_line(a: AppView, key: Key) -> (AppView, CommandView) {
    match key {
        Key::Enter => match a.input_mode {
            InputMode::AddUrl => if scan::trim_of(a.input).len() == 0 {
                (back(a), CommandView::Nothing)
            } else {
                let (url, path) = typed_download(a.input);
                (back(told(a, "Added download."@)), CommandView::Add(url, path))
            },
            _ => (
                back(AppView { search: scan::trim_of(a.input), needs_refresh: true, ..a }),
                CommandView::Nothing,
            ),
        },
        Key::Esc => (back(a), CommandView::Nothing),
        Key::Char(c) => (AppView { input: a.input.push(c), ..a }, CommandView::Nothing),
        Key::Backspace => (
            AppView {
                input: if a.input.len() == 0 {
                    a.input
                } else {
                    a.input.drop_last()
                },
                ..a
            },
            CommandView::Nothing,
        ),
        _ => (a, CommandView::Nothing),
    }
}

/// What a key does and asks for.
pub open spec fn pressed(a: AppView, key: Key) -> (AppView, CommandView) {
    if a.input_mode == InputMode::Normal {
        in_list(a, key)
    } else {
        in_line(a, key)
    }
}

fn find_space(line: &Vec<char>) -> (res: usize)
    ensures
        res == first_space(line@),
        res <= line@.len(),
{
    let mut i: usize = 0;
    assert(line@.skip(0) =~= line@);
    while i < line.len()
        invariant
            i <= line@.len(),
            first_space(line@) == i + first_space(line@.skip(i as int)),
        decreases line@.len() - i,
    {
        assert(line@.skip(i as int)[0] == line@[i as int]);
        if scan::is_whitespace(line[i]) {
            return i;
        }
        i = i + 1;
        assert(line@.skip(i - 1).drop_first() =~= line@.skip(i as int));
    }
    i
}

/// The URL and the path that a line of input names.
pub fn read_download(line: &Vec<char>) -> (res: (String, String))
    ensures
        (res.0@, res.1@) == typed_download(line@),
{
    let k = find_space(line);
    let n: usize = line.len();
    if k < n {
        let url = text::string_of(&text::slice(line, 0, k));
        let path = text::string_of(&text::slice(line, k + 1, n));
        proof {
            assert(url@ =~= line@.take(k as int));
            assert(path@ =~= line@.skip(k + 1));
        }
        (url, path)
    } else {
        let url = text::string_of(line);
        let path = target_path(url.as_str(), None);
        (url, path)
    }
}

impl App {
    /// The tab is one of those that there are.
    pub open spec fn wf(self) -> bool {
        self.category_tab < TABS
    }

    /// The interface when it opens.
    pub fn new() -> (res: Self)
        ensures
            res.wf(),
            res@ == opened(),
    {
        let res = App {
            input: Vec::new(),
            input_mode: InputMode::Normal,
            category_tab: 0,
            search: String::new(),
            entries: Vec::new(),
            max_workers: 32,
            status_message: String::new(),
            selected: None,
            needs_refresh: true,
            list_pending: false,
            run_pending: false,
        };
        proof {
            assert(res@.entries =~= Seq::empty());
            assert(res@.search =~= Seq::empty());
            assert(res@.status_message =~= Seq::empty());
        }
        res
    }

    /// The category of the tab that is chosen.
    pub fn selected_category(&self) -> (res: Option<DownloadCategory>)
        requires
            self.wf(),
        ensures
            res == tab_category(self@.category_tab as int),
    {
        if self.category_tab == 0 {
            None
        } else {
            let all = DownloadCategory::all();
            Some(all[self.category_tab - 1])
        }
    }

    /// The id of the download that is selected.
    pub fn selected_id(&self) -> (res: Option<String>)
        ensures
            match res {
                Some(id) => selected_id(self@) == Some(id@),
                None => selected_id(self@) is None,
            },
    {
        match self.selected {
            Some(i) => if i < self.entries.len() {
                assert(self@.entries[i as int] == self.entries@[i as int]@);
                Some(self.entries[i].id.clone())
            } else {
                None
            },
            None => None,
        }
    }

    /// Selects the line below.
    pub fn next(&mut self)
        ensures
            final(self)@ == (AppView {
                selected: line_below(old(self)@.entries.len() as int, old(self)@.selected),
                ..old(self)@
            }),
            old(self).wf() ==> final(self).wf(),
    {
        let n: usize = self.entries.len();
        if n == 0 {
            return ;
        }
        self.selected =
        match self.selected {
            Some(i) => if i >= n - 1 {
                Some(0)
            } else {
                Some(i + 1)
            },
            None => Some(0),
        };
    }

    /// Selects the line above.
    pub fn previous(&mut self)
        ensures
            final(self)@ == (AppView {
                selected: line_above(old(self)@.entries.len() as int, old(self)@.selected),
                ..old(self)@
            }),
            old(self).wf() ==> final(self).wf(),
    {
        let n: usize = self.entries.len();
        if n == 0 {
            return ;
        }
        self.selected =
        match self.selected {
            Some(i) => if i == 0 {
                Some(n - 1)
            } else {
                Some(i - 1)
            },
            None => Some(n - 1),
        };
    }

    fn apply_category_tab(&mut self, tab: usize)
        ensures
            final(self)@ == on_tab(old(self)@, tab as int),
    {
        self.category_tab = tab;
        self.needs_refresh = true;
    }

    fn tell(&mut self, message: &str)
        ensures
            final(self)@ == told(old(self)@, message@),
    {
        self.status_message = message.to_owned();
        self.needs_refresh = true;
    }

    fn to_list(&mut self)
        ensures
            final(self)@ == back(old(self)@),
    {
        self.input = Vec::new();
        self.input_mode = InputMode::Normal;
        assert(self@.input =~= Seq::empty());
    }

    fn on_letter(&mut self, c: char) -> (res: Command)
        requires
            old(self).wf(),
            old(self).input_mode == InputMode::Normal,
        ensures
            final(self).wf(),
            (final(self)@, res@) == pressed(old(self)@, Key::Char(c)),
    {
        if c == 'q' {
            return Command::Quit;
        }
        if c == 'a' {
            self.input_mode = InputMode::AddUrl;
            self.input = Vec::new();
            assert(self@.input =~= Seq::empty());
            return Command::Nothing;
        }
        if c == '/' {
            self.input_mode = InputMode::Search;
            self.input = text::chars_of(self.search.as_str());
            return Command::Nothing;
        }
        if c == 'R' {
            if self.run_pending {
                return Command::Nothing;
            }
            self.run_pending = true;
            self.status_message = "Running queue…".to_owned();
            return Command::RunAll;
        }
        if c == 'c' {
            self.tell("Cleaned completed.");
            return Command::Clean;
        }
        if c == 'j' {
            self.next();
            return Command::Nothing;
        }
        if c == 'k' {
            self.previous();
            return Command::Nothing;
        }
        if c == 'p' || c == 'r' || c == 'y' || c == 'd' {
            match self.selected_id() {
                Some(id) => {
                    if c == 'p' {
                        self.tell("Paused.");
                        return Command::Pause(id);
                    }
                    if c == 'r' {
                        self.tell("Marked pending.");
                        return Command::Resume(id);
                    }
                    if c == 'y' {
                        self.tell("Marked for retry.");
                        return Command::Retry(id);
                    }
                    self.tell("Removed.");
                    return Command::Remove(id);
                },
                None => {
                    return Command::Nothing;
                },
            }
        }
        Command::Nothing
    }

    fn on_enter(&mut self) -> (res: Command)
        requires
            old(self).wf(),
            old(self).input_mode != InputMode::Normal,
        ensures
            final(self).wf(),
            (final(self)@, res@) == pressed(old(self)@, Key::Enter),
    {
        let trimmed = scan::trim(&self.input);
        if self.input_mode == InputMode::AddUrl {
            if trimmed.len() == 0 {
                self.to_list();
                return Command::Nothing;
            }
            let (url, path) = read_download(&self.input);
            self.tell("Added download.");
            self.to_list();
            return Command::Add { url, path };
        }
        self.search = text::string_of(&trimmed);
        self.needs_refresh = true;
        self.to_list();
        Command::Nothing
    }

    /// Takes in a key: the state changes, and what the key asks for is given back.
    pub fn on_key(&mut self, key: Key) -> (res: Command)
        requires
            old(self).wf(),
        ensures
            final(self).wf(),
            (final(self)@, res@) == pressed(old(self)@, key),
    {
        if self.input_mode == InputMode::Normal {
            match key {
                Key::Char(c) => self.on_letter(c),
                Key::Down => {
                    self.next();
                    Command::Nothing
                },
                Key::Up => {
                    self.previous();
                    Command::Nothing
                },
                Key::Tab | Key::Right => {
                    let tab: usize = (self.category_tab + 1) % TABS;
                    self.apply_category_tab(tab);
                    Command::Nothing
                },
                Key::BackTab | Key::Left => {
                    let tab: usize = if self.category_tab == 0 {
                        TABS - 1
                    } else {
                        self.category_tab - 1
                    };
                    self.apply_category_tab(tab);
                    Command::Nothing
                },
                _ => Command::Nothing,
            }
        } else {
            match key {
                Key::Enter => self.on_enter(),
                Key::Esc => {
                    self.to_list();
                    Command::Nothing
                },
                Key::Char(c) => {
                    self.input.push(c);
                    Command::Nothing
                },
                Key::Backspace => {
                    let _ = self.input.pop();
                    assert(old(self).input@.len() == 0 ==> self.input@ =~= old(self).input@);
                    Command::Nothing
                },
                _ => Command::Nothing,
            }
        }
    }

    /// Takes in the downloads that were asked for.
    pub fn on_list(&mut self, entries: Vec<DownloadEntry>)
        ensures
            final(self)@ == (AppView {
                entries: entry_views(entries@),
                list_pending: false,
                ..old(self)@
            }),
            old(self).wf() ==> final(self).wf(),
    {
        self.entries = entries;
        self.list_pending = false;
    }

    /// Takes in that a run of the queue has ended: well, or with an error.
    pub fn on_run(&mut self, error: Option<String>)
        ensures
            final(self)@ == (AppView {
                status_message: run_message(crate::types::opt_text(error)),
                needs_refresh: true,
                run_pending: false,
                ..old(self)@
            }),
            old(self).wf() ==> final(self).wf(),
    {
        self.status_message = run_text(error);
        self.needs_refresh = true;
        self.run_pending = false;
    }

    /// Takes in the largest number of workers.
    pub fn on_settings(&mut self, max_workers: usize)
        ensures
            final(self)@ == (AppView { max_workers, ..old(self)@ }),
            old(self).wf() ==> final(self).wf(),
    {
        self.max_workers = max_workers;
    }

    /// Whether the downloads are to be asked for, `elapsed` milliseconds after they came last: where
    /// something changed or they are old, and they were not asked for already.
    pub fn refresh(&mut self, elapsed: u128) -> (res: bool)
        ensures
            res == refresh_due(old(self)@.needs_refresh, old(self)@.list_pending, elapsed as int, REFRESH_MS as int),
            final(self)@ == (AppView {
                list_pending: old(self)@.list_pending || res,
                needs_refresh: old(self)@.needs_refresh && !res,
                ..old(self)@
            }),
            old(self).wf() ==> final(self).wf(),
    {
        if self.list_pending {
            return false;
        }
        if self.needs_refresh {
            self.needs_refresh = false;
            self.list_pending = true;
            return true;
        }
        if elapsed >= REFRESH_MS {
            self.list_pending = true;
            return true;
        }
        false
    }

    /// The line at the foot: the last message, or what is shown.
    pub fn footer(&self) -> (res: String)
        ensures
            res@ == foot_line(self@),
    {
        if self.status_message.as_str().unicode_len() > 0 {
            return self.status_message.clone();
        }
        let n: usize = self.entries.len();
        assert(self@.entries.len() == n);
        let mut line = text::string_of(&number::to_decimal(n as u128));
        line.append(" download(s) · worker cap ");
        line.append(text::string_of(&number::to_decimal(self.max_workers as u128)).as_str());
        line.append(" · search: ");
        if self.search.as_str().unicode_len() == 0 {
            line.append("(none)");
        } else {
            line.append(self.search.as_str());
        }
        line
    }
}

/// Milliseconds after which the downloads are asked for again.
pub const REFRESH_MS: u128 = 1500;

/// The downloads are to be asked for: something changed or they are old, and they were not asked for
/// already.
pub open spec fn refresh_due(needed: bool, pending: bool, elapsed: int, limit: int) -> bool {
    !pending && (needed || elapsed >= limit)
}

/// The message once a run of the queue has ended.
pub open spec fn run_message(error: Option<Seq<char>>) -> Seq<char> {
    match error {
        None => "Queue finished."@,
        Some(e) => "Run failed: "@ + e,
    }
}

/// The message once a run of the queue has ended.
pub fn run_text(error: Option<String>) -> (res: String)
    ensures
        res@ == run_message(crate::types::opt_text(error)),
{
    match error {
        None => "Queue finished.".to_owned(),
        Some(e) => {
            let mut line = "Run failed: ".to_owned();
            line.append(e.as_str());
            line
        },
    }
}

/// The line at the foot: the last message, or what is shown.
pub open spec fn foot_line(a: AppView) -> Seq<char> {
    if a.status_message.len() > 0 {
        a.status_message
    } else {
        number::decimal(a.entries.len()) + " download(s) · worker cap "@ + number::decimal(
            a.max_workers as nat,
        ) + " · search: "@ + if a.search.len() == 0 {
            "(none)"@
        } else {
            a.search
        }
    }
}

/// Going down and then up, or up and then down, comes back to the same line.
pub proof fn law_down_and_up_come_back(n: int, i: usize)
    requires
        i < n <= usize::MAX,
    ensures
        line_above(n, line_below(n, Some(i))) == Some(i),
        line_below(n, line_above(n, Some(i))) == Some(i),
{
}

/// A line that was selected by a key is one of those that there are.
pub proof fn law_selection_stays_in_the_list(n: int, i: usize)
    requires
        i < n <= usize::MAX,
    ensures
        line_below(n, Some(i)) matches Some(j) && j < n,
        line_above(n, Some(i)) matches Some(j) && j < n,
        line_below(n, None) matches Some(j) && j < n,
        line_above(n, None) matches Some(j) && j < n,
{
}

/// A tab and the one before it are inverse steps, and every step leads to a tab.
pub proof fn law_tabs_go_round(a: AppView)
    requires
        a.category_tab < TABS,
        a.input_mode == InputMode::Normal,
    ensures
        pressed(a, Key::Tab).0.category_tab < TABS,
        pressed(a, Key::BackTab).0.category_tab < TABS,
        pressed(pressed(a, Key::Tab).0, Key::BackTab).0.category_tab == a.category_tab,
        pressed(pressed(a, Key::BackTab).0, Key::Tab).0.category_tab == a.category_tab,
{
}

/// Escape gives up what was typed: nothing is asked for, and the search and the list stay.
pub proof fn law_escape_asks_for_nothing(a: AppView)
    requires
        a.input_mode != InputMode::Normal,
    ensures
        pressed(a, Key::Esc).1 == CommandView::Nothing,
        pressed(a, Key::Esc).0 == back(a),
        pressed(a, Key::Esc).0.search == a.search,
        pressed(a, Key::Esc).0.entries == a.entries,
{
}

/// A letter that was typed and wiped out leaves the line as it was.
pub proof fn law_backspace_takes_back_a_letter(a: AppView, c: char)
    requires
        a.input_mode != InputMode::Normal,
    ensures
        pressed(pressed(a, Key::Char(c)).0, Key::Backspace).0 == a,
{
    assert(a.input.push(c).drop_last() =~= a.input);
}

/// Letters act on the download that is selected, and say so; where none is, they do nothing.
pub proof fn law_letters_act_on_the_selected_download(a: AppView, i: usize)
    requires
        a.input_mode == InputMode::Normal,
    ensures
        a.selected == Some(i) && i < a.entries.len() ==> {
            let id = a.entries[i as int].id;
            &&& pressed(a, Key::Char('p')) == (
                AppView { status_message: "Paused."@, needs_refresh: true, ..a },
                CommandView::Pause(id),
            )
            &&& pressed(a, Key::Char('r')) == (
                AppView { status_message: "Marked pending."@, needs_refresh: true, ..a },
                CommandView::Resume(id),
            )
            &&& pressed(a, Key::Char('y')) == (
                AppView { status_message: "Marked for retry."@, needs_refresh: true, ..a },
                CommandView::Retry(id),
            )
            &&& pressed(a, Key::Char('d')) == (
                AppView { status_message: "Removed."@, needs_refresh: true, ..a },
                CommandView::Remove(id),
            )
        },
        a.selected is None || a.selected == Some(i) && i >= a.entries.len() ==> pressed(
            a,
            Key::Char('p'),
        ) == (a, CommandView::Nothing) && pressed(a, Key::Char('r')) == (a, CommandView::Nothing)
            && pressed(a, Key::Char('y')) == (a, CommandView::Nothing) && pressed(
            a,
            Key::Char('d'),
        ) == (a, CommandView::Nothing),
{
}

/// The other letters quit, clean, run the queue unless it runs, and open the line of input; any letter
/// that has no meaning does nothing.
pub proof fn law_letters_have_their_meaning(a: AppView, c: char)
    requires
        a.input_mode == InputMode::Normal,
    ensures
        pressed(a, Key::Char('q')) == (a, CommandView::Quit),
        pressed(a, Key::Char('c')) == (
            AppView { status_message: "Cleaned completed."@, needs_refresh: true, ..a },
            CommandView::Clean,
        ),
        a.run_pending ==> pressed(a, Key::Char('R')) == (a, CommandView::Nothing),
        !a.run_pending ==> pressed(a, Key::Char('R')) == (
            AppView { run_pending: true, status_message: "Running queue…"@, ..a },
            CommandView::RunAll,
        ),
        pressed(a, Key::Char('a')) == (
            AppView { input_mode: InputMode::AddUrl, input: Seq::empty(), ..a },
            CommandView::Nothing,
        ),
        pressed(a, Key::Char('/')) == (
            AppView { input_mode: InputMode::Search, input: a.search, ..a },
            CommandView::Nothing,
        ),
        pressed(a, Key::Char('j')) == pressed(a, Key::Down),
        pressed(a, Key::Char('k')) == pressed(a, Key::Up),
        c != 'q' && c != 'a' && c != '/' && c != 'R' && c != 'p' && c != 'r' && c != 'y' && c != 'd'
            && c != 'c' && c != 'j' && c != 'k' ==> pressed(a, Key::Char(c)) == (
            a,
            CommandView::Nothing,
        ),
        pressed(a, Key::Enter) == (a, CommandView::Nothing),
        pressed(a, Key::Esc) == (a, CommandView::Nothing),
        pressed(a, Key::Backspace) == (a, CommandView::Nothing),
{
}

/// Down selects the next line and up the one before it, round the ends of the list; the first and the
/// last where none is selected. An empty list keeps the selection, and nothing else changes.
pub proof fn law_arrows_move_by_one_line(a: AppView, i: usize)
    requires
        a.input_mode == InputMode::Normal,
        a.entries.len() <= usize::MAX,
    ensures
        ({
            let down = pressed(a, Key::Down);
            let up = pressed(a, Key::Up);
            let n = a.entries.len();
            &&& down == (AppView { selected: down.0.selected, ..a }, CommandView::Nothing)
            &&& up == (AppView { selected: up.0.selected, ..a }, CommandView::Nothing)
            &&& n == 0 ==> down.0 == a && up.0 == a
            &&& n > 0 && a.selected is None ==> down.0.selected == Some(0usize) && up.0.selected
                == Some((n - 1) as usize)
            &&& n > 0 && a.selected == Some(i) ==> {
                &&& i + 1 < n ==> down.0.selected == Some((i + 1) as usize)
                &&& i + 1 >= n ==> down.0.selected == Some(0usize)
                &&& i > 0 ==> up.0.selected == Some((i - 1) as usize)
                &&& i == 0 ==> up.0.selected == Some((n - 1) as usize)
            }
        }),
{
}

/// A step to the right leads to the next of seven tabs, one to the left to the one before it, round the
/// ends; the list of the tab is asked for, and nothing else changes.
pub proof fn law_tabs_are_seven(a: AppView)
    requires
        a.category_tab < 7,
        a.input_mode == InputMode::Normal,
    ensures
        pressed(a, Key::Tab) == (
            AppView {
                category_tab: if a.category_tab == 6 {
                    0
                } else {
                    (a.category_tab + 1) as usize
                },
                needs_refresh: true,
                ..a
            },
            CommandView::Nothing,
        ),
        pressed(a, Key::BackTab) == (
            AppView {
                category_tab: if a.category_tab == 0 {
                    6
                } else {
                    (a.category_tab - 1) as usize
                },
                needs_refresh: true,
                ..a
            },
            CommandView::Nothing,
        ),
        pressed(a, Key::Right) == pressed(a, Key::Tab),
        pressed(a, Key::Left) == pressed(a, Key::BackTab),
{
}

/// Every category has a tab with its name, and the first tab is for all.
pub proof fn law_every_category_has_a_tab(c: DownloadCategory)
    ensures
        exists|k: int|
            1 <= k < 7 && #[trigger] tab_category(k) == Some(c) && tab_titles()[k] == label_of(c),
        tab_category(0) is None,
        tab_titles()[0] == "All"@,
        tab_titles().len() == 7,
{
    let k: int = match c {
        DownloadCategory::Other => 1,
        DownloadCategory::Video => 2,
        DownloadCategory::Audio => 3,
        DownloadCategory::Archive => 4,
        DownloadCategory::Document => 5,
        DownloadCategory::Image => 6,
    };
    assert(tab_category(k) == Some(c) && tab_titles()[k] == label_of(c));
}

proof fn lemma_first_space(url: Seq<char>, rest: Seq<char>)
    requires
        forall|i: int| 0 <= i < url.len() ==> !scan::is_space(#[trigger] url[i]),
        rest.len() > 0 ==> scan::is_space(rest[0]),
    ensures
        first_space(url + rest) == url.len(),
    decreases url.len(),
{
    let s = url + rest;
    if url.len() == 0 {
        assert(s =~= rest);
    } else {
        assert(s[0] == url[0]);
        assert forall|i: int| 0 <= i < url.drop_first().len() implies !scan::is_space(
            #[trigger] url.drop_first()[i],
        ) by {
            assert(url.drop_first()[i] == url[i + 1]);
        }
        lemma_first_space(url.drop_first(), rest);
        assert(s.drop_first() =~= url.drop_first() + rest);
    }
}

/// The first white space of a line parts the URL from the path; a line without any is a URL, and its path
/// is the name that it ends with. Enter asks for that download and leads back to the list.
pub proof fn law_white_space_parts_url_and_path(
    a: AppView,
    url: Seq<char>,
    space: char,
    path: Seq<char>,
)
    requires
        a.input_mode == InputMode::AddUrl,
        url.len() > 0,
        forall|i: int| 0 <= i < url.len() ==> !scan::is_space(#[trigger] url[i]),
        scan::is_space(space),
    ensures
        a.input == url + seq![space] + path ==> pressed(a, Key::Enter) == (
            AppView {
                input: Seq::empty(),
                input_mode: InputMode::Normal,
                status_message: "Added download."@,
                needs_refresh: true,
                ..a
            },
            CommandView::Add(url, path),
        ),
        a.input == url ==> pressed(a, Key::Enter).1 == CommandView::Add(
            url,
            crate::cli::target_of(url, None),
        ),
{
    let line = url + seq![space] + path;
    let rest = seq![space] + path;
    assert(line =~= url + rest);
    lemma_first_space(url, rest);
    assert(line.take(url.len() as int) =~= url);
    assert(line.skip(url.len() as int + 1) =~= path);
    lemma_first_space(url, Seq::empty());
    assert(url + Seq::<char>::empty() =~= url);
    lemma_not_blank(line);
    lemma_not_blank(url);
}

proof fn lemma_not_blank(s: Seq<char>)
    requires
        s.len() > 0,
        !scan::is_space(s[0]),
    ensures
        scan::trim_of(s).len() > 0,
    decreases s.len(),
{
    assert(scan::trim_start(s) == s);
    lemma_head_stays(s);
}

proof fn lemma_head_stays(s: Seq<char>)
    requires
        s.len() > 0,
        !scan::is_space(s[0]),
    ensures
        scan::trim_end(s).len() > 0,
    decreases s.len(),
{
    if scan::is_space(s.last()) {
        assert(s.len() > 1);
        assert(s.drop_last()[0] == s[0]);
        lemma_head_stays(s.drop_last());
    }
}

/// What was typed for a search is searched for without the white space around it, and the list is asked
/// for; a line of white space adds no download.
pub proof fn law_searches_are_trimmed(
    a: AppView,
    before: Seq<char>,
    s: Seq<char>,
    behind: Seq<char>,
)
    requires
        forall|i: int| 0 <= i < before.len() ==> scan::is_space(#[trigger] before[i]),
        forall|i: int| 0 <= i < behind.len() ==> scan::is_space(#[trigger] behind[i]),
        s.len() > 0 ==> !scan::is_space(s[0]) && !scan::is_space(s.last()),
        a.input == before + s + behind,
    ensures
        a.input_mode == InputMode::Search ==> pressed(a, Key::Enter) == (
            AppView {
                input: Seq::empty(),
                input_mode: InputMode::Normal,
                search: s,
                needs_refresh: true,
                ..a
            },
            CommandView::Nothing,
        ),
        a.input_mode == InputMode::AddUrl && s.len() == 0 ==> pressed(a, Key::Enter) == (
            AppView { input: Seq::empty(), input_mode: InputMode::Normal, ..a },
            CommandView::Nothing,
        ),
{
    scan::law_trim_takes_white_space_off(before, s, behind);
}

/// The downloads are asked for where something changed, or 1500 milliseconds after they came, and never
/// twice at a time.
pub proof fn law_lists_are_renewed(needed: bool, pending: bool, elapsed: u128)
    ensures
        refresh_due(needed, pending, elapsed as int, REFRESH_MS as int) <==> !pending && (needed
            || elapsed >= 1500),
{
}

/// The last message is shown at the foot; without one, how many downloads there are, how many workers
/// at most, and what is searched for.
pub proof fn law_the_foot_tells_the_message_first(a: AppView)
    ensures
        a.status_message.len() > 0 ==> foot_line(a) == a.status_message,
        a.status_message.len() == 0 && a.search.len() > 0 ==> foot_line(a) == number::decimal(
            a.entries.len(),
        ) + " download(s) · worker cap "@ + number::decimal(a.max_workers as nat)
            + " · search: "@ + a.search,
        a.status_message.len() == 0 && a.search.len() == 0 ==> foot_line(a) == number::decimal(
            a.entries.len(),
        ) + " download(s) · worker cap "@ + number::decimal(a.max_workers as nat)
            + " · search: "@ + "(none)"@,
{
}

/// A run that failed is told with its reason, which nothing is left out of.
pub proof fn law_failures_are_told(reason: Seq<char>)
    ensures
        run_message(Some(reason)) == "Run failed: "@ + reason,
        run_message(None) == "Queue finished."@,
{
}

} // verus!
