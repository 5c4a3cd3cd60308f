//! The terminal interface: what it holds, what a key or a paste does to it, and what it shows.

use crate::buffer;
use crate::config;
use crate::config::AppConfig;
use crate::config::ConfigView;
use crate::config::GuiTheme;
use crate::dates::CalendarDate;
use crate::formatting;
use crate::line_rules;
use crate::line_rules::LineRules;
use crate::order;
use crate::paths;
use crate::resolver;
use crate::snapshot::Snapshot;
use crate::text;
use crate::tracking;
use crate::tracking::LogEvent;
use crate::tracking::LogEventView;
use crate::tui_theme;
use crate::tui_theme::TuiColor;
use crate::tui_theme::TuiThemePalette;
use crate::watcher;
use crate::watcher::PollingWatcher;
use std::collections::VecDeque;
use vstd::prelude::*;

verus! {

/// A key of the keyboard.
#[derive(Debug, Clone, Copy, PartialEq, Eq, Structural)]
pub enum Key {
    Char(char),
    Enter,
    Esc,
    Backspace,
    Up,
    Down,
    Other,
}

/// What keys are taken for.
#[derive(Debug, Clone, Copy, PartialEq, Eq, Structural)]
pub enum InputMode {
    Normal,
    Search,
    AddTrackedFile,
    ThemePicker,
    ListTrackedFiles,
    Help,
}

/// The terminal interface.
#[derive(Debug)]
pub struct TuiState {
    pub events: VecDeque<LogEvent>,
    pub total_events_seen: u64,
    pub dropped_events: u64,
    pub suppressed_by_rules: u64,
    pub paused: bool,
    pub scroll_offset: usize,
    pub sources: Vec<String>,
    pub tracked_files: Vec<String>,
    pub status_message: String,
    pub active_source_filter_idx: Option<usize>,
    pub text_filter: String,
    pub text_filter_folded: String,
    pub case_insensitive_text_filter: bool,
    pub active_theme: GuiTheme,
    pub theme_picker_idx: usize,
    pub search_input: String,
    pub add_file_input: String,
    pub pending_add_tracked_file: Option<String>,
    pub save_requested: bool,
    pub input_mode: InputMode,
}

/// The terminal interface, as contracts speak of it.
pub struct TuiView {
    pub events: Seq<LogEventView>,
    pub total_events_seen: u64,
    pub dropped_events: u64,
    pub suppressed_by_rules: u64,
    pub paused: bool,
    pub scroll_offset: usize,
    pub sources: Seq<Seq<char>>,
    pub tracked_files: Seq<Seq<char>>,
    pub status_message: Seq<char>,
    pub active_source_filter_idx: Option<usize>,
    pub text_filter: Seq<char>,
    pub text_filter_folded: Seq<char>,
    pub case_insensitive_text_filter: bool,
    pub active_theme: GuiTheme,
    pub theme_picker_idx: usize,
    pub search_input: Seq<char>,
    pub add_file_input: Seq<char>,
    pub pending_add_tracked_file: Option<Seq<char>>,
    pub save_requested: bool,
    pub input_mode: InputMode,
}

impl View for TuiState {
    type V = TuiView;

    open spec fn view(&self) -> TuiView {
        TuiView {
            events: tracking::event_views(self.events@),
            total_events_seen: self.total_events_seen,
            dropped_events: self.dropped_events,
            suppressed_by_rules: self.suppressed_by_rules,
            paused: self.paused,
            scroll_offset: self.scroll_offset,
            sources: text::texts(self.sources@),
            tracked_files: text::texts(self.tracked_files@),
            status_message: self.status_message@,
            active_source_filter_idx: self.active_source_filter_idx,
            text_filter: self.text_filter@,
            text_filter_folded: self.text_filter_folded@,
            case_insensitive_text_filter: self.case_insensitive_text_filter,
            active_theme: self.active_theme,
            theme_picker_idx: self.theme_picker_idx,
            search_input: self.search_input@,
            add_file_input: self.add_file_input@,
            pending_add_tracked_file: match self.pending_add_tracked_file {
                Some(path) => Some(path@),
                None => None,
            },
            save_requested: self.save_requested,
            input_mode: self.input_mode,
        }
    }
}

/// The place of a colour scheme among those that are offered.
pub open spec fn theme_place(theme: GuiTheme) -> int {
    GuiTheme::offered().index_of(theme)
}

/// The place of a colour scheme among those that are offered.
pub fn theme_index(theme: GuiTheme) -> (res: usize)
    ensures
        res == theme_place(theme),
        res < GuiTheme::offered().len(),
        GuiTheme::offered()[res as int] == theme,
{
    let all: Vec<GuiTheme> = GuiTheme::all();
    let mut i: usize = 0;
    while i < all.len()
        invariant
            all@ == GuiTheme::offered(),
            i <= all@.len(),
            forall|j: int| 0 <= j < i ==> #[trigger] all@[j] != theme,
        decreases all@.len() - i,
    {
        if all[i] == theme {
            proof {
                themes_differ();
                assert(GuiTheme::offered().contains(theme));
            }
            return i;
        }
        i = i + 1;
    }
    proof {
        let place = config::theme_is_offered(theme);
        assert(all@[place] != theme);
    }
    0
}

/// Each colour scheme is offered once.
pub proof fn themes_differ()
    ensures
        GuiTheme::offered().no_duplicates(),
{
}

/// A text filter accepts a line: it is empty, or it stands in the line; in lower case in the line
/// in lower case, where the case of letters does not count.
pub open spec fn filter_accepts(
    line: Seq<char>,
    folded_line: Seq<char>,
    filter: Seq<char>,
    folded_filter: Seq<char>,
    insensitive: bool,
) -> bool {
    if filter.len() == 0 {
        true
    } else if insensitive {
        text::contains_text(folded_line, folded_filter)
    } else {
        text::contains_text(line, filter)
    }
}

/// Whether a text filter accepts a line, given both in lower case too.
pub fn text_filter_accepts(
    line: &str,
    folded_line: &str,
    filter: &str,
    folded_filter: &str,
    insensitive: bool,
) -> (res: bool)
    ensures
        res == filter_accepts(line@, folded_line@, filter@, folded_filter@, insensitive),
{
    if filter.unicode_len() == 0 {
        true
    } else if insensitive {
        text::contains(folded_line, folded_filter)
    } else {
        text::contains(line, filter)
    }
}

impl TuiView {
    /// The chosen source exists, the chosen colour scheme is one that is offered, and the filter is
    /// at hand in lower case.
    pub open spec fn wf(self) -> bool {
        &&& self.active_source_filter_idx is Some ==> self.active_source_filter_idx->0
            < self.sources.len()
        &&& self.theme_picker_idx < GuiTheme::offered().len()
        &&& self.text_filter_folded == text::lowercased(self.text_filter)
    }

    /// The event passes the source filter and the text filter.
    pub open spec fn accepts(self, event: LogEventView) -> bool {
        &&& self.active_source_filter_idx is Some ==> self.active_source_filter_idx->0
            < self.sources.len() && self.sources[self.active_source_filter_idx->0 as int]
            == event.source
        &&& filter_accepts(
            event.line,
            text::lowercased(event.line),
            self.text_filter,
            self.text_filter_folded,
            self.case_insensitive_text_filter,
        )
    }

    /// The events of the list that pass the filters.
    pub open spec fn accepted(self, events: Seq<LogEventView>) -> Seq<LogEventView>
        decreases events.len(),
    {
        if events.len() == 0 {
            seq![]
        } else {
            let front = self.accepted(events.drop_last());
            if self.accepts(events.last()) {
                front.push(events.last())
            } else {
                front
            }
        }
    }

    /// The events that pass the filters.
    pub open spec fn filtered(self) -> Seq<LogEventView> {
        self.accepted(self.events)
    }

    /// The largest scroll offset at which an event is shown.
    pub open spec fn max_scroll(self) -> int {
        if self.filtered().len() > 0 {
            self.filtered().len() - 1
        } else {
            0
        }
    }
}

/// The smaller number.
pub open spec fn least(a: int, b: int) -> int {
    if a < b {
        a
    } else {
        b
    }
}

impl TuiState {
    /// The state is in order.
    pub open spec fn wf(&self) -> bool {
        self@.wf()
    }

    /// The interface at the start: no events, no filter, the files of the configuration as sources.
    pub fn new(config: &AppConfig) -> (res: TuiState)
        ensures
            res.wf(),
            res@ == started(config@),
    {
        let mut sources: Vec<String> = Vec::new();
        let ghost labels = source_labels(config@.tracked_files);
        let mut i: usize = 0;
        while i < config.tracked_files.len()
            invariant
                labels == source_labels(config@.tracked_files),
                i <= config.tracked_files@.len(),
                sources@.len() == i,
                forall|j: int| 0 <= j < i ==> #[trigger] sources@[j]@ == labels[j],
            decreases config.tracked_files@.len() - i,
        {
            sources.push(paths::label(config.tracked_files[i].as_str()));
            i = i + 1;
        }
        let tracked_files: Vec<String> = text::copy_texts(&config.tracked_files);
        let text_filter: String = String::new();
        let text_filter_folded: String = text::lowercase(text_filter.as_str());
        let events: VecDeque<LogEvent> = VecDeque::new();
        let res: TuiState = TuiState {
            events,
            total_events_seen: 0,
            dropped_events: 0,
            suppressed_by_rules: 0,
            paused: false,
            scroll_offset: 0,
            sources,
            tracked_files,
            status_message: String::new(),
            active_source_filter_idx: None,
            text_filter,
            text_filter_folded,
            case_insensitive_text_filter: config.case_insensitive_text_filter,
            active_theme: config.gui_theme,
            theme_picker_idx: theme_index(config.gui_theme),
            search_input: String::new(),
            add_file_input: String::new(),
            pending_add_tracked_file: None,
            save_requested: false,
            input_mode: InputMode::Normal,
        };
        proof {
            assert(res@.events =~= seq![]);
            assert(res@.sources =~= labels);
            assert(res@.text_filter =~= seq![]);
            assert(res@.status_message =~= seq![]);
            assert(res@.search_input =~= seq![]);
            assert(res@.add_file_input =~= seq![]);
        }
        res
    }

    fn filter_matches(&self, event: &LogEvent) -> (res: bool)
        ensures
            res == self@.accepts(event@),
    {
        let source_match: bool = match self.active_source_filter_idx {
            Some(idx) => idx < self.sources.len() && self.sources[idx] == event.source,
            None => true,
        };
        let folded_line: String = text::lowercase(event.line.as_str());
        source_match && text_filter_accepts(
            event.line.as_str(),
            folded_line.as_str(),
            self.text_filter.as_str(),
            self.text_filter_folded.as_str(),
            self.case_insensitive_text_filter,
        )
    }

    /// How many events pass the filters.
    pub fn filtered_len(&self) -> (res: usize)
        ensures
            res == self@.filtered().len(),
    {
        let ghost all = self@.events;
        let mut res: usize = 0;
        let mut i: usize = 0;
        assert(all.take(0) =~= seq![]);
        while i < self.events.len()
            invariant
                all == self@.events,
                i <= self.events@.len(),
                res == self@.accepted(all.take(i as int)).len(),
                res <= i,
            decreases self.events@.len() - i,
        {
            proof {
                assert(all.take(i + 1).drop_last() =~= all.take(i as int));
                assert(all.take(i + 1).last() == self.events@[i as int]@);
            }
            if self.filter_matches(&self.events[i]) {
                res = res + 1;
            }
            i = i + 1;
        }
        assert(all.take(i as int) =~= all);
        res
    }

    /// The events that pass the filters.
    pub fn filtered_events(&self) -> (res: Vec<LogEvent>)
        ensures
            tracking::event_views(res@) == self@.filtered(),
    {
        let ghost all = self@.events;
        let mut res: Vec<LogEvent> = Vec::new();
        let mut i: usize = 0;
        assert(all.take(0) =~= seq![]);
        assert(tracking::event_views(res@) =~= seq![]);
        while i < self.events.len()
            invariant
                all == self@.events,
                i <= self.events@.len(),
                tracking::event_views(res@) == self@.accepted(all.take(i as int)),
            decreases self.events@.len() - i,
        {
            let ghost before = tracking::event_views(res@);
            proof {
                assert(all.take(i + 1).drop_last() =~= all.take(i as int));
                assert(all.take(i + 1).last() == self.events@[i as int]@);
            }
            if self.filter_matches(&self.events[i]) {
                res.push(self.events[i].copy());
                assert(tracking::event_views(res@) =~= before.push(self.events@[i as int]@));
            }
            i = i + 1;
        }
        assert(all.take(i as int) =~= all);
        res
    }

    fn max_scroll(&self) -> (res: usize)
        ensures
            res == self@.max_scroll(),
    {
        let len: usize = self.filtered_len();
        if len > 0 {
            len - 1
        } else {
            0
        }
    }
}

/// How the files are shown as sources.
pub open spec fn source_labels(files: Seq<Seq<char>>) -> Seq<Seq<char>> {
    files.map_values(|path: Seq<char>| paths::path_label(path))
}

/// The interface at the start.
pub open spec fn started(config: ConfigView) -> TuiView {
    TuiView {
        events: seq![],
        total_events_seen: 0,
        dropped_events: 0,
        suppressed_by_rules: 0,
        paused: false,
        scroll_offset: 0,
        sources: source_labels(config.tracked_files),
        tracked_files: config.tracked_files,
        status_message: seq![],
        active_source_filter_idx: None,
        text_filter: seq![],
        text_filter_folded: text::lowercased(seq![]),
        case_insensitive_text_filter: config.case_insensitive_text_filter,
        active_theme: config.gui_theme,
        theme_picker_idx: theme_place(config.gui_theme) as usize,
        search_input: seq![],
        add_file_input: seq![],
        pending_add_tracked_file: None,
        save_requested: false,
        input_mode: InputMode::Normal,
    }
}

impl TuiView {
    /// Another filter for the text.
    pub open spec fn with_text_filter(self, filter: Seq<char>) -> TuiView {
        TuiView {
            text_filter: filter,
            text_filter_folded: text::lowercased(filter),
            ..self
        }
    }

    /// Another message.
    pub open spec fn with_status(self, message: Seq<char>) -> TuiView {
        TuiView { status_message: message, ..self }
    }

    /// Another mode.
    pub open spec fn in_mode(self, mode: InputMode) -> TuiView {
        TuiView { input_mode: mode, ..self }
    }

    /// The next source is chosen; behind the last, all of them.
    pub open spec fn with_next_source(self) -> TuiView {
        TuiView {
            active_source_filter_idx: match self.active_source_filter_idx {
                None => if self.sources.len() > 0 {
                    Some(0)
                } else {
                    None
                },
                Some(idx) => if idx + 1 < self.sources.len() {
                    Some((idx + 1) as usize)
                } else {
                    None
                },
            },
            scroll_offset: 0,
            ..self
        }
    }

    /// Nothing is shown, and the counters are back at the start.
    pub open spec fn cleared(self) -> TuiView {
        TuiView {
            events: seq![],
            total_events_seen: 0,
            dropped_events: 0,
            suppressed_by_rules: 0,
            scroll_offset: 0,
            status_message: "Cleared displayed log output"@,
            ..self
        }
    }

    /// What a key does where nothing is being typed or chosen, and whether it ends the program.
    pub open spec fn pressed_normal(self, key: Key) -> (TuiView, bool) {
        match key {
            Key::Char('q') => (self, true),
            Key::Char('p') => (TuiView { paused: !self.paused, ..self }, false),
            Key::Char('k') | Key::Up => (
                TuiView {
                    scroll_offset: least(self.scroll_offset + 1, self.max_scroll()) as usize,
                    ..self
                },
                false,
            ),
            Key::Char('j') | Key::Down => (
                TuiView {
                    scroll_offset: if self.scroll_offset > 0 {
                        (self.scroll_offset - 1) as usize
                    } else {
                        0
                    },
                    ..self
                },
                false,
            ),
            Key::Char('g') => (TuiView { scroll_offset: self.max_scroll() as usize, ..self }, false),
            Key::Char('G') => (TuiView { scroll_offset: 0, ..self }, false),
            Key::Char('f') => (self.with_next_source(), false),
            Key::Char('i') => (
                TuiView {
                    case_insensitive_text_filter: !self.case_insensitive_text_filter,
                    ..self
                },
                false,
            ),
            Key::Char('/') => (
                TuiView {
                    input_mode: InputMode::Search,
                    search_input: self.text_filter,
                    ..self
                },
                false,
            ),
            Key::Char('c') => (
                TuiView { scroll_offset: 0, ..self.with_text_filter(seq![]) },
                false,
            ),
            Key::Char('x') => (self.cleared(), false),
            Key::Char('a') => (
                TuiView {
                    input_mode: InputMode::AddTrackedFile,
                    add_file_input: seq![],
                    ..self
                },
                false,
            ),
            Key::Char('s') => (TuiView { save_requested: true, ..self }, false),
            Key::Char('l') => (self.in_mode(InputMode::ListTrackedFiles), false),
            Key::Char('t') => (
                TuiView {
                    theme_picker_idx: theme_place(self.active_theme) as usize,
                    input_mode: InputMode::ThemePicker,
                    ..self
                },
                false,
            ),
            Key::Char('?') => (self.in_mode(InputMode::Help), false),
            _ => (self, false),
        }
    }

    /// What a key does while a text filter is being typed.
    pub open spec fn pressed_search(self, key: Key) -> TuiView {
        match key {
            Key::Esc => self.in_mode(InputMode::Normal),
            Key::Enter => TuiView {
                search_input: seq![],
                input_mode: InputMode::Normal,
                scroll_offset: 0,
                ..self.with_text_filter(text::trimmed(self.search_input))
            },
            Key::Backspace => TuiView { search_input: without_last(self.search_input), ..self },
            Key::Char(c) => TuiView { search_input: self.search_input.push(c), ..self },
            _ => self,
        }
    }

    /// What a key does while the path of a file is being typed.
    pub open spec fn pressed_add_file(self, key: Key) -> TuiView {
        match key {
            Key::Esc => TuiView {
                add_file_input: seq![],
                input_mode: InputMode::Normal,
                ..self
            },
            Key::Enter => TuiView {
                pending_add_tracked_file: Some(text::trimmed(self.add_file_input)),
                add_file_input: seq![],
                input_mode: InputMode::Normal,
                ..self
            },
            Key::Backspace => TuiView {
                add_file_input: without_last(self.add_file_input),
                ..self
            },
            Key::Char(c) => TuiView { add_file_input: self.add_file_input.push(c), ..self },
            _ => self,
        }
    }

    /// What a key does while the tracked files are listed.
    pub open spec fn pressed_tracked_files(self, key: Key) -> (TuiView, bool) {
        match key {
            Key::Char('q') => (self, true),
            Key::Esc | Key::Enter | Key::Char('l') => (self.in_mode(InputMode::Normal), false),
            Key::Char('?') => (self.in_mode(InputMode::Help), false),
            _ => (self, false),
        }
    }

    /// What a key does while a colour scheme is being chosen.
    pub open spec fn pressed_theme_picker(self, key: Key) -> (TuiView, bool) {
        match key {
            Key::Char('q') => (self, true),
            Key::Esc | Key::Char('t') => (self.in_mode(InputMode::Normal), false),
            Key::Up | Key::Char('k') => (
                TuiView {
                    theme_picker_idx: if self.theme_picker_idx > 0 {
                        (self.theme_picker_idx - 1) as usize
                    } else {
                        0
                    },
                    ..self
                },
                false,
            ),
            Key::Down | Key::Char('j') => (
                TuiView {
                    theme_picker_idx: least(
                        self.theme_picker_idx + 1,
                        GuiTheme::offered().len() - 1,
                    ) as usize,
                    ..self
                },
                false,
            ),
            Key::Enter => {
                let theme = GuiTheme::offered()[self.theme_picker_idx as int];
                (
                    TuiView {
                        active_theme: theme,
                        status_message: "Theme: "@ + theme.shown_name(),
                        input_mode: InputMode::Normal,
                        ..self
                    },
                    false,
                )
            },
            _ => (self, false),
        }
    }

    /// What a key does while the help is shown.
    pub open spec fn pressed_help(self, key: Key) -> (TuiView, bool) {
        match key {
            Key::Char('q') => (self, true),
            Key::Esc | Key::Enter | Key::Char('?') => (self.in_mode(InputMode::Normal), false),
            _ => (self, false),
        }
    }

    /// What a key does, and whether it ends the program.
    pub open spec fn pressed(self, key: Key) -> (TuiView, bool) {
        match self.input_mode {
            InputMode::Normal => self.pressed_normal(key),
            InputMode::Search => (self.pressed_search(key), false),
            InputMode::AddTrackedFile => (self.pressed_add_file(key), false),
            InputMode::ThemePicker => self.pressed_theme_picker(key),
            InputMode::ListTrackedFiles => self.pressed_tracked_files(key),
            InputMode::Help => self.pressed_help(key),
        }
    }

    /// What a paste does: it goes into the path that is being typed, or asks for a file where it
    /// looks like a path.
    pub open spec fn pasted(self, pasted: Seq<char>) -> TuiView {
        match self.input_mode {
            InputMode::ThemePicker => self,
            InputMode::AddTrackedFile => TuiView {
                add_file_input: self.add_file_input + text::without(pasted, '\n', '\r'),
                ..self
            },
            _ => if path_like(text::trimmed(pasted)) {
                TuiView { pending_add_tracked_file: Some(text::trimmed(pasted)), ..self }
            } else {
                self
            },
        }
    }

    /// The colour scheme that is shown: the one under the cursor while one is being chosen.
    pub open spec fn shown_theme(self) -> GuiTheme {
        if self.input_mode == InputMode::ThemePicker {
            GuiTheme::offered()[self.theme_picker_idx as int]
        } else {
            self.active_theme
        }
    }

    /// Other sources; the chosen one stays chosen where it is still among them.
    pub open spec fn with_sources(self, sources: Seq<Seq<char>>) -> TuiView {
        TuiView {
            sources,
            active_source_filter_idx: match self.active_source_filter_idx {
                Some(idx) => if idx < self.sources.len() && sources.contains(
                    self.sources[idx as int],
                ) {
                    Some(first_place(sources, self.sources[idx as int]) as usize)
                } else {
                    None
                },
                None => None,
            },
            ..self
        }
    }

    /// Events that came in, and how many more the rules kept back.
    pub open spec fn with_events(
        self,
        new: Seq<LogEventView>,
        suppressed: nat,
        max: nat,
    ) -> TuiView {
        let fed = TuiView {
            events: buffer::capped(self.events, new, max),
            total_events_seen: buffer::counter(self.total_events_seen + new.len()),
            dropped_events: buffer::counter(
                self.dropped_events + buffer::taken_out(self.events, new, max),
            ),
            suppressed_by_rules: buffer::counter(self.suppressed_by_rules + suppressed),
            ..self
        };
        TuiView { scroll_offset: least(self.scroll_offset as int, fed.max_scroll()) as usize, ..fed }
    }
}

/// `s` without its last character.
pub open spec fn without_last(s: Seq<char>) -> Seq<char> {
    if s.len() > 0 {
        s.drop_last()
    } else {
        s
    }
}

/// Where `s` stands first in the list.
pub open spec fn first_place(list: Seq<Seq<char>>, s: Seq<char>) -> int
    decreases list.len(),
{
    if list.len() == 0 {
        0
    } else if list[0] == s {
        0
    } else {
        1 + first_place(list.skip(1), s)
    }
}

/// The text starts like a path, holds a backslash, or has a colon as its second character.
pub open spec fn path_like(s: Seq<char>) -> bool {
    s.len() > 0 && {
        ||| s[0] == '/'
        ||| s[0] == '~'
        ||| s.len() >= 2 && s[0] == '.' && s[1] == '/'
        ||| s.len() >= 3 && s[0] == '.' && s[1] == '.' && s[2] == '/'
        ||| s.contains('\\')
        ||| s.len() >= 2 && s[1] == ':'
    }
}

/// Whether the text looks like a path.
pub fn looks_like_path(text: &str) -> (res: bool)
    ensures
        res == path_like(text@),
{
    let input: Vec<char> = text::chars_of(text);
    let len: usize = input.len();
    if len == 0 {
        return false;
    }
    if input[0] == '/' || input[0] == '~' {
        return true;
    }
    if len >= 2 && ((input[0] == '.' && input[1] == '/') || input[1] == ':') {
        return true;
    }
    if len >= 3 && input[0] == '.' && input[1] == '.' && input[2] == '/' {
        return true;
    }
    let mut i: usize = 0;
    while i < len
        invariant
            input@ == text@,
            len == input@.len(),
            i <= len,
            forall|j: int| 0 <= j < i ==> input@[j] != '\\',
        decreases len - i,
    {
        if input[i] == '\\' {
            return true;
        }
        i = i + 1;
    }
    false
}

/// The path that was typed: without white space around it, and without quotes around that.
pub open spec fn typed_path(raw: Seq<char>) -> Option<Seq<char>> {
    let s = text::trimmed(raw);
    if s.len() == 0 {
        None
    } else if s.len() >= 2 && s[0] == s.last() && (s[0] == '"' || s[0] == '\'') {
        Some(s.subrange(1, s.len() - 1))
    } else {
        Some(s)
    }
}

/// The path that was typed.
pub fn parse_cli_input_path(raw: &str) -> (res: Option<String>)
    ensures
        match res {
            Some(path) => typed_path(raw@) == Some(path@),
            None => typed_path(raw@) is None,
        },
{
    let trimmed: Vec<char> = text::trim(raw);
    let len: usize = trimmed.len();
    if len == 0 {
        return None;
    }
    let first: char = trimmed[0];
    let last: char = trimmed[len - 1];
    if len >= 2 && first == last && (first == '"' || first == '\'') {
        let inner: Vec<char> = text::subvec(trimmed.as_slice(), 1, len - 1);
        return Some(text::text_of(inner.as_slice()));
    }
    Some(text::text_of(trimmed.as_slice()))
}

fn position_of(list: &Vec<String>, s: &String) -> (res: Option<usize>)
    ensures
        match res {
            Some(i) => {
                &&& i < list@.len()
                &&& i == first_place(text::texts(list@), s@)
                &&& text::texts(list@).contains(s@)
            },
            None => !text::texts(list@).contains(s@),
        },
{
    let ghost all = text::texts(list@);
    let mut i: usize = 0;
    assert(all.skip(0) =~= all);
    while i < list.len()
        invariant
            all == text::texts(list@),
            i <= list@.len(),
            first_place(all, s@) == i + first_place(all.skip(i as int), s@),
            forall|j: int| 0 <= j < i ==> #[trigger] all[j] != s@,
        decreases list@.len() - i,
    {
        assert(all[i as int] == list@[i as int]@);
        if list[i] == *s {
            assert(all.contains(s@));
            return Some(i);
        }
        assert(all.skip(i as int).skip(1) =~= all.skip(i + 1));
        i = i + 1;
    }
    None
}

impl TuiState {
    /// Sets the text filter.
    pub fn set_text_filter(&mut self, filter: String)
        requires
            old(self).wf(),
        ensures
            final(self).wf(),
            final(self)@ == old(self)@.with_text_filter(filter@),
    {
        self.text_filter_folded = text::lowercase(filter.as_str());
        self.text_filter = filter;
    }

    /// Sets the message.
    pub fn set_status(&mut self, message: String)
        ensures
            final(self)@ == old(self)@.with_status(message@),
    {
        self.status_message = message;
    }

    /// Chooses the next source.
    pub fn cycle_filter(&mut self)
        requires
            old(self).wf(),
        ensures
            final(self).wf(),
            final(self)@ == old(self)@.with_next_source(),
    {
        self.active_source_filter_idx = match self.active_source_filter_idx {
            None => if self.sources.len() > 0 {
                Some(0)
            } else {
                None
            },
            Some(idx) => if idx < self.sources.len() && idx + 1 < self.sources.len() {
                Some(idx + 1)
            } else {
                None
            },
        };
        self.scroll_offset = 0;
    }

    /// Sets the sources.
    pub fn set_available_sources(&mut self, sources: Vec<String>)
        requires
            old(self).wf(),
        ensures
            final(self).wf(),
            final(self)@ == old(self)@.with_sources(text::texts(sources@)),
    {
        let chosen: Option<usize> = match self.active_source_filter_idx {
            Some(idx) => if idx < self.sources.len() {
                position_of(&sources, &self.sources[idx])
            } else {
                None
            },
            None => None,
        };
        self.active_source_filter_idx = chosen;
        self.sources = sources;
    }

    /// Takes in events, and how many more the rules kept back.
    pub fn push_events(&mut self, events: Vec<LogEvent>, suppressed: usize, max_buffer_lines: usize)
        requires
            old(self).wf(),
        ensures
            final(self).wf(),
            final(self)@ == old(self)@.with_events(
                tracking::event_views(events@),
                suppressed as nat,
                max_buffer_lines as nat,
            ),
    {
        let ghost before = self.events@;
        let ghost new = events@;
        let ghost max = max_buffer_lines as nat;
        self.suppressed_by_rules = buffer::count(self.suppressed_by_rules, suppressed as u64);
        self.total_events_seen = buffer::count(self.total_events_seen, events.len() as u64);
        self.dropped_events = buffer::push_capped(
            &mut self.events,
            events,
            max_buffer_lines,
            self.dropped_events,
        );
        proof {
            assert(tracking::event_views(before + new) =~= tracking::event_views(before)
                + tracking::event_views(new));
            assert(tracking::event_views(self.events@) =~= buffer::capped(
                tracking::event_views(before),
                tracking::event_views(new),
                max,
            ));
        }
        if self.scroll_offset > 0 {
            let max_scroll: usize = self.max_scroll();
            if max_scroll < self.scroll_offset {
                self.scroll_offset = max_scroll;
            }
        }
    }

    /// Clears what is shown.
    pub fn clear_screen(&mut self)
        requires
            old(self).wf(),
        ensures
            final(self).wf(),
            final(self)@ == old(self)@.cleared(),
    {
        self.events = VecDeque::new();
        self.total_events_seen = 0;
        self.dropped_events = 0;
        self.suppressed_by_rules = 0;
        self.scroll_offset = 0;
        self.status_message = "Cleared displayed log output".to_owned();
        assert(self@.events =~= seq![]);
    }

    /// Takes a key; whether it ends the program.
    pub fn handle_key(&mut self, key: Key) -> (res: bool)
        requires
            old(self).wf(),
        ensures
            final(self).wf(),
            (final(self)@, res) == old(self)@.pressed(key),
    {
        match self.input_mode {
            InputMode::Search => self.handle_search_key(key),
            InputMode::AddTrackedFile => self.handle_add_file_key(key),
            InputMode::ThemePicker => self.handle_theme_picker_key(key),
            InputMode::ListTrackedFiles => self.handle_tracked_files_key(key),
            InputMode::Help => self.handle_help_key(key),
            InputMode::Normal => self.handle_normal_key(key),
        }
    }

    fn handle_normal_key(&mut self, key: Key) -> (res: bool)
        requires
            old(self).wf(),
        ensures
            final(self).wf(),
            (final(self)@, res) == old(self)@.pressed_normal(key),
    {
        match key {
            Key::Char('q') => {
                return true;
            },
            Key::Char('p') => {
                self.paused = !self.paused;
            },
            Key::Char('k') | Key::Up => {
                let max_scroll: usize = self.max_scroll();
                self.scroll_offset = if self.scroll_offset < max_scroll {
                    self.scroll_offset + 1
                } else {
                    max_scroll
                };
            },
            Key::Char('j') | Key::Down => {
                self.scroll_offset = if self.scroll_offset > 0 {
                    self.scroll_offset - 1
                } else {
                    0
                };
            },
            Key::Char('g') => {
                self.scroll_offset = self.max_scroll();
            },
            Key::Char('G') => {
                self.scroll_offset = 0;
            },
            Key::Char('f') => {
                self.cycle_filter();
            },
            Key::Char('i') => {
                self.case_insensitive_text_filter = !self.case_insensitive_text_filter;
            },
            Key::Char('/') => {
                self.input_mode = InputMode::Search;
                self.search_input = self.text_filter.clone();
            },
            Key::Char('c') => {
                let empty: String = String::new();
                assert(empty@ =~= seq![]);
                self.set_text_filter(empty);
                self.scroll_offset = 0;
            },
            Key::Char('x') => {
                self.clear_screen();
            },
            Key::Char('a') => {
                self.input_mode = InputMode::AddTrackedFile;
                self.add_file_input = String::new();
                assert(self.add_file_input@ =~= seq![]);
            },
            Key::Char('s') => {
                self.save_requested = true;
            },
            Key::Char('l') => {
                self.input_mode = InputMode::ListTrackedFiles;
            },
            Key::Char('t') => {
                self.theme_picker_idx = theme_index(self.active_theme);
                self.input_mode = InputMode::ThemePicker;
            },
            Key::Char('?') => {
                self.input_mode = InputMode::Help;
            },
            _ => {},
        }
        false
    }

    fn handle_search_key(&mut self, key: Key) -> (res: bool)
        requires
            old(self).wf(),
        ensures
            final(self).wf(),
            final(self)@ == old(self)@.pressed_search(key),
            !res,
    {
        match key {
            Key::Esc => {
                self.input_mode = InputMode::Normal;
            },
            Key::Enter => {
                let filter: Vec<char> = text::trim(self.search_input.as_str());
                self.set_text_filter(text::text_of(filter.as_slice()));
                self.search_input = String::new();
                assert(self.search_input@ =~= seq![]);
                self.input_mode = InputMode::Normal;
                self.scroll_offset = 0;
            },
            Key::Backspace => {
                let _ = self.search_input.pop();
            },
            Key::Char(c) => {
                self.search_input.push(c);
            },
            _ => {},
        }
        false
    }

    fn handle_add_file_key(&mut self, key: Key) -> (res: bool)
        requires
            old(self).wf(),
        ensures
            final(self).wf(),
            final(self)@ == old(self)@.pressed_add_file(key),
            !res,
    {
        match key {
            Key::Esc => {
                self.add_file_input = String::new();
                assert(self.add_file_input@ =~= seq![]);
                self.input_mode = InputMode::Normal;
            },
            Key::Enter => {
                let path: Vec<char> = text::trim(self.add_file_input.as_str());
                self.pending_add_tracked_file = Some(text::text_of(path.as_slice()));
                self.add_file_input = String::new();
                assert(self.add_file_input@ =~= seq![]);
                self.input_mode = InputMode::Normal;
            },
            Key::Backspace => {
                let _ = self.add_file_input.pop();
            },
            Key::Char(c) => {
                self.add_file_input.push(c);
            },
            _ => {},
        }
        false
    }

    fn handle_tracked_files_key(&mut self, key: Key) -> (res: bool)
        requires
            old(self).wf(),
        ensures
            final(self).wf(),
            (final(self)@, res) == old(self)@.pressed_tracked_files(key),
    {
        match key {
            Key::Char('q') => {
                return true;
            },
            Key::Esc | Key::Enter | Key::Char('l') => {
                self.input_mode = InputMode::Normal;
            },
            Key::Char('?') => {
                self.input_mode = InputMode::Help;
            },
            _ => {},
        }
        false
    }

    fn handle_theme_picker_key(&mut self, key: Key) -> (res: bool)
        requires
            old(self).wf(),
        ensures
            final(self).wf(),
            (final(self)@, res) == old(self)@.pressed_theme_picker(key),
    {
        match key {
            Key::Char('q') => {
                return true;
            },
            Key::Esc | Key::Char('t') => {
                self.input_mode = InputMode::Normal;
            },
            Key::Up | Key::Char('k') => {
                self.theme_picker_idx = if self.theme_picker_idx > 0 {
                    self.theme_picker_idx - 1
                } else {
                    0
                };
            },
            Key::Down | Key::Char('j') => {
                let all: Vec<GuiTheme> = GuiTheme::all();
                if self.theme_picker_idx + 1 < all.len() {
                    self.theme_picker_idx = self.theme_picker_idx + 1;
                }
            },
            Key::Enter => {
                let all: Vec<GuiTheme> = GuiTheme::all();
                let theme: GuiTheme = all[self.theme_picker_idx];
                self.active_theme = theme;
                let mut message: String = "Theme: ".to_owned();
                message.append(theme.display_name());
                self.set_status(message);
                self.input_mode = InputMode::Normal;
            },
            _ => {},
        }
        false
    }

    fn handle_help_key(&mut self, key: Key) -> (res: bool)
        requires
            old(self).wf(),
        ensures
            final(self).wf(),
            (final(self)@, res) == old(self)@.pressed_help(key),
    {
        match key {
            Key::Char('q') => {
                return true;
            },
            Key::Esc | Key::Enter | Key::Char('?') => {
                self.input_mode = InputMode::Normal;
            },
            _ => {},
        }
        false
    }

    /// Takes a paste.
    pub fn handle_paste(&mut self, pasted: String)
        requires
            old(self).wf(),
        ensures
            final(self).wf(),
            final(self)@ == old(self)@.pasted(pasted@),
    {
        match self.input_mode {
            InputMode::ThemePicker => {},
            InputMode::AddTrackedFile => {
                let sanitized: String = text::remove_chars(pasted.as_str(), '\n', '\r');
                self.add_file_input.append(sanitized.as_str());
            },
            _ => {
                let trimmed: String = text::text_of(text::trim(pasted.as_str()).as_slice());
                if looks_like_path(trimmed.as_str()) {
                    self.pending_add_tracked_file = Some(trimmed);
                }
            },
        }
    }

    /// The file that was asked for; it is handed out once.
    pub fn take_pending_add_tracked_file(&mut self) -> (res: Option<String>)
        requires
            old(self).wf(),
        ensures
            final(self).wf(),
            match res {
                Some(path) => old(self)@.pending_add_tracked_file == Some(path@),
                None => old(self)@.pending_add_tracked_file is None,
            },
            final(self)@ == (TuiView { pending_add_tracked_file: None, ..old(self)@ }),
    {
        self.pending_add_tracked_file.take()
    }

    /// Lists one more tracked file.
    pub fn add_tracked_file(&mut self, path: &str)
        requires
            old(self).wf(),
        ensures
            final(self).wf(),
            final(self)@ == (TuiView {
                tracked_files: old(self)@.tracked_files.push(path@),
                status_message: "Now tracking "@ + path@,
                ..old(self)@
            }),
    {
        self.tracked_files.push(path.to_owned());
        assert(self@.tracked_files =~= old(self)@.tracked_files.push(path@));
        let mut message: String = "Now tracking ".to_owned();
        message.append(path);
        self.set_status(message);
    }

    /// Whether it was asked to save; the question is answered once.
    pub fn take_save_requested(&mut self) -> (res: bool)
        requires
            old(self).wf(),
        ensures
            final(self).wf(),
            res == old(self)@.save_requested,
            final(self)@ == (TuiView { save_requested: false, ..old(self)@ }),
    {
        let requested: bool = self.save_requested;
        self.save_requested = false;
        requested
    }

    /// The colour scheme that is shown.
    pub fn preview_theme(&self) -> (res: GuiTheme)
        requires
            self.wf(),
        ensures
            res == self@.shown_theme(),
    {
        if self.input_mode == InputMode::ThemePicker {
            GuiTheme::all()[self.theme_picker_idx]
        } else {
            self.active_theme
        }
    }
}

/// A line with the colours in which it is shown, where they differ from those around it.
#[derive(Debug, Clone, PartialEq, Eq)]
pub struct StyledLine {
    pub text: String,
    pub fg: Option<TuiColor>,
    pub bg: Option<TuiColor>,
    pub bold: bool,
}

/// A line with its colours, as contracts speak of it.
pub struct StyledLineView {
    pub text: Seq<char>,
    pub fg: Option<TuiColor>,
    pub bg: Option<TuiColor>,
    pub bold: bool,
}

impl View for StyledLine {
    type V = StyledLineView;

    open spec fn view(&self) -> StyledLineView {
        StyledLineView { text: self.text@, fg: self.fg, bg: self.bg, bold: self.bold }
    }
}

/// The views of a list of lines.
pub open spec fn line_views(v: Seq<StyledLine>) -> Seq<StyledLineView> {
    v.map_values(|line: StyledLine| line@)
}

/// Lines in the colours around them.
pub open spec fn plain_lines(lines: Seq<Seq<char>>) -> Seq<StyledLineView> {
    lines.map_values(|line: Seq<char>| plain_line(line))
}

/// A line in the colours around it.
pub open spec fn plain_line(line: Seq<char>) -> StyledLineView {
    StyledLineView { text: line, fg: None, bg: None, bold: false }
}

fn to_plain_lines(lines: Vec<String>) -> (res: Vec<StyledLine>)
    ensures
        line_views(res@) == plain_lines(text::texts(lines@)),
{
    let mut res: Vec<StyledLine> = Vec::new();
    let mut i: usize = 0;
    while i < lines.len()
        invariant
            i <= lines@.len(),
            res@.len() == i,
            forall|j: int| 0 <= j < i ==> (#[trigger] res@[j])@ == plain_line(lines@[j]@),
        decreases lines@.len() - i,
    {
        res.push(StyledLine { text: lines[i].clone(), fg: None, bg: None, bold: false });
        i = i + 1;
    }
    assert(line_views(res@) =~= plain_lines(text::texts(lines@)));
    res
}

/// The keys and what they do.
pub open spec fn help_lines() -> Seq<Seq<char>> {
    seq![
        "CLI Command Help (single-letter keys)"@,
        ""@,
        "CLI exe: logtrak-cli.exe"@,
        "GUI exe: logtrak.exe"@,
        "Example: logtrak-cli.exe --config .\\logtrak.toml"@,
        ""@,
        "q  Quit"@,
        "p  Pause/resume polling"@,
        "j  Scroll toward newest lines"@,
        "k  Scroll toward older lines"@,
        "g  Jump to oldest retained lines"@,
        "G  Jump to newest lines"@,
        "f  Cycle source-file filter"@,
        "l  Show tracked file list"@,
        "a  Add a log file to track (type/paste path, Enter)"@,
        "t  Open theme picker"@,
        "s  Save active config to disk"@,
        "c  Clear text filter"@,
        "x  Clear displayed log lines"@,
        "i  Toggle case-insensitive text filter"@,
        "?  Toggle this help panel"@,
        ""@,
        "Close help: ? / Esc / Enter"@,
    ]
}

/// The line of a tracked file: its number, in at least two characters, and its path.
pub open spec fn numbered(i: int, path: Seq<char>) -> Seq<char> {
    text::padded(text::decimal((i + 1) as nat), ' ', 2) + ". "@ + path
}

/// The lines of the events, as they are shown.
pub open spec fn event_lines(
    events: Seq<LogEventView>,
    show_timestamps: bool,
    offset: Option<i32>,
) -> Seq<Seq<char>> {
    events.map_values(
        |event: LogEventView| formatting::event_line(event, show_timestamps, offset),
    )
}

impl TuiView {
    /// The first line of the screen.
    pub open spec fn header(self, poll_interval_ms: u64) -> Seq<char> {
        match self.input_mode {
            InputMode::Search => "search:/"@ + self.search_input
                + "  Enter apply  Esc cancel  Backspace delete"@,
            InputMode::AddTrackedFile => "add file:"@ + self.add_file_input
                + "  Enter add  Esc cancel  Backspace delete"@,
            InputMode::ListTrackedFiles =>
                "tracked files  keys:l/Esc/Enter close  a add file  t themes  q quit  theme="@
                + self.active_theme.shown_name(),
            InputMode::ThemePicker =>
                "theme picker  Up/Down select  Enter apply  Esc/t cancel  q quit  preview="@
                + self.shown_theme().shown_name() + "  saved="@ + self.active_theme.shown_name(),
            InputMode::Help => "help  keys:?/Esc/Enter close  q quit"@,
            InputMode::Normal => "logtrak  files="@ + text::decimal(self.sources.len())
                + "  poll="@ + text::decimal(poll_interval_ms as nat) + "ms  lines="@
                + text::decimal(self.events.len()) + "  "@ + (if self.paused {
                "paused"@
            } else {
                "live"@
            }) + "  filter="@ + (match self.active_source_filter_idx {
                Some(idx) => self.sources[idx as int],
                None => "all"@,
            }) + (if self.status_message.len() == 0 {
                seq![]
            } else {
                "  status="@ + self.status_message
            }) + "  keys:q p j/k g/G f l a t s / c x i ?"@,
        }
    }

    /// The lines of the tracked files.
    pub open spec fn tracked_lines(self) -> Seq<Seq<char>> {
        self.tracked_files.map(|i: int, path: Seq<char>| numbered(i, path))
    }

    /// The events that are shown on a screen of the given height: of those that pass the filters,
    /// the last ones before the scroll offset.
    pub open spec fn on_screen(self, height: nat) -> Seq<LogEventView> {
        let all = self.filtered();
        let end = all.len() - least(self.scroll_offset as int, self.max_scroll());
        let start = if end > height {
            end - height
        } else {
            0
        };
        all.subrange(start, end)
    }

    /// The line of a colour scheme, as it is offered.
    pub open spec fn theme_line(self, i: int) -> StyledLineView {
        let palette = tui_theme::tui_palette(self.shown_theme());
        let theme = GuiTheme::offered()[i];
        if i == self.theme_picker_idx {
            StyledLineView {
                text: "> "@ + theme.shown_name(),
                fg: Some(palette.selected_fg),
                bg: Some(palette.selected_bg),
                bold: true,
            }
        } else if theme == self.active_theme {
            StyledLineView {
                text: "  "@ + theme.shown_name(),
                fg: Some(palette.accent_fg),
                bg: None,
                bold: true,
            }
        } else {
            StyledLineView {
                text: "  "@ + theme.shown_name(),
                fg: Some(palette.content_fg),
                bg: None,
                bold: false,
            }
        }
    }

    /// The lines of the colour schemes.
    pub open spec fn picker_lines(self) -> Seq<StyledLineView> {
        plain_lines(
            seq![
                "Theme Picker"@,
                "Use Up/Down to select, Enter to apply, Esc to cancel."@,
                ""@,
            ],
        ) + Seq::new(GuiTheme::offered().len(), |i: int| self.theme_line(i))
    }

    /// The times of the events can be shown.
    pub open spec fn times_fit(self, show_timestamps: bool, offset: Option<i32>) -> bool {
        show_timestamps && offset is Some ==> forall|i: int|
            0 <= i < self.events.len() ==> formatting::on_the_clock(
                (#[trigger] self.events[i]).ts as int,
                offset->0 as int,
            )
    }

    /// What stands below the header: its lines, and whether they are only a hint.
    pub open spec fn body(
        self,
        show_timestamps: bool,
        height: nat,
        offset: Option<i32>,
    ) -> (Seq<StyledLineView>, bool) {
        match self.input_mode {
            InputMode::ListTrackedFiles => if self.tracked_files.len() == 0 {
                (seq![plain_line("No tracked files configured."@)], true)
            } else {
                (plain_lines(self.tracked_lines()), false)
            },
            InputMode::ThemePicker => (self.picker_lines(), false),
            InputMode::Help => (plain_lines(help_lines()), false),
            _ => if self.on_screen(height).len() > 0 {
                (plain_lines(event_lines(self.on_screen(height), show_timestamps, offset)), false)
            } else if self.events.len() == 0 {
                (seq![plain_line("Waiting for new log lines..."@)], true)
            } else {
                (seq![plain_line("No lines match active filters."@)], true)
            },
        }
    }
}

/// A screen: a header and what stands below it, with their colours.
#[derive(Debug)]
pub struct TuiFrame {
    pub header: String,
    pub header_fg: TuiColor,
    pub body: Vec<StyledLine>,
    pub body_fg: TuiColor,
    pub background: TuiColor,
}

proof fn accepted_come_from(view: TuiView, events: Seq<LogEventView>, i: int)
    requires
        0 <= i < view.accepted(events).len(),
    ensures
        events.contains(view.accepted(events)[i]),
    decreases events.len(),
{
    let front = view.accepted(events.drop_last());
    if i < front.len() {
        accepted_come_from(view, events.drop_last(), i);
        let k = choose|k: int|
            0 <= k < events.drop_last().len() && events.drop_last()[k] == front[i];
        assert(events[k] == front[i]);
    } else {
        assert(events[events.len() - 1] == events.last());
    }
}

impl TuiState {
    /// The first line of the screen.
    pub fn header_line(&self, config: &AppConfig) -> (res: String)
        requires
            self.wf(),
        ensures
            res@ == self@.header(config.poll_interval_ms),
    {
        match self.input_mode {
            InputMode::Search => text::concat3(
                "search:/",
                self.search_input.as_str(),
                "  Enter apply  Esc cancel  Backspace delete",
            ),
            InputMode::AddTrackedFile => text::concat3(
                "add file:",
                self.add_file_input.as_str(),
                "  Enter add  Esc cancel  Backspace delete",
            ),
            InputMode::ListTrackedFiles => {
                let mut res: String =
                    "tracked files  keys:l/Esc/Enter close  a add file  t themes  q quit  theme=".to_owned();
                res.append(self.active_theme.display_name());
                res
            },
            InputMode::ThemePicker => {
                let mut res: String =
                    "theme picker  Up/Down select  Enter apply  Esc/t cancel  q quit  preview=".to_owned();
                res.append(self.preview_theme().display_name());
                res.append("  saved=");
                res.append(self.active_theme.display_name());
                res
            },
            InputMode::Help => "help  keys:?/Esc/Enter close  q quit".to_owned(),
            InputMode::Normal => {
                let mut res: String = "logtrak  files=".to_owned();
                res.append(text::decimal_text(self.sources.len() as u64).as_str());
                res.append("  poll=");
                res.append(text::decimal_text(config.poll_interval_ms).as_str());
                res.append("ms  lines=");
                res.append(text::decimal_text(self.events.len() as u64).as_str());
                res.append("  ");
                res.append(
                    if self.paused {
                        "paused"
                    } else {
                        "live"
                    },
                );
                res.append("  filter=");
                match self.active_source_filter_idx {
                    Some(idx) => {
                        res.append(self.sources[idx].as_str());
                    },
                    None => {
                        res.append("all");
                    },
                }
                let ghost start = res@;
                if self.status_message.as_str().unicode_len() > 0 {
                    res.append("  status=");
                    res.append(self.status_message.as_str());
                    assert(res@ =~= start + ("  status="@ + self.status_message@));
                } else {
                    assert(start + seq![] =~= start);
                }
                res.append("  keys:q p j/k g/G f l a t s / c x i ?");
                res
            },
        }
    }

    /// The lines of the tracked files.
    pub fn tracked_file_lines(&self) -> (res: Vec<String>)
        ensures
            text::texts(res@) == self@.tracked_lines(),
    {
        let ghost wanted = self@.tracked_lines();
        let mut res: Vec<String> = Vec::new();
        let mut i: usize = 0;
        while i < self.tracked_files.len()
            invariant
                wanted == self@.tracked_lines(),
                i <= self.tracked_files@.len(),
                res@.len() == i,
                forall|j: int| 0 <= j < i ==> #[trigger] res@[j]@ == wanted[j],
            decreases self.tracked_files@.len() - i,
        {
            let number: String = text::pad(text::decimal_text(i as u64 + 1).as_str(), ' ', 2);
            res.push(text::concat3(number.as_str(), ". ", self.tracked_files[i].as_str()));
            i = i + 1;
        }
        assert(text::texts(res@) =~= wanted);
        res
    }

    /// The keys and what they do.
    pub fn command_help_lines(&self) -> (res: Vec<String>)
        ensures
            text::texts(res@) == help_lines(),
    {
        let lines: Vec<&'static str> = vec![
            "CLI Command Help (single-letter keys)",
            "",
            "CLI exe: logtrak-cli.exe",
            "GUI exe: logtrak.exe",
            "Example: logtrak-cli.exe --config .\\logtrak.toml",
            "",
            "q  Quit",
            "p  Pause/resume polling",
            "j  Scroll toward newest lines",
            "k  Scroll toward older lines",
            "g  Jump to oldest retained lines",
            "G  Jump to newest lines",
            "f  Cycle source-file filter",
            "l  Show tracked file list",
            "a  Add a log file to track (type/paste path, Enter)",
            "t  Open theme picker",
            "s  Save active config to disk",
            "c  Clear text filter",
            "x  Clear displayed log lines",
            "i  Toggle case-insensitive text filter",
            "?  Toggle this help panel",
            "",
            "Close help: ? / Esc / Enter",
        ];
        assert(text::slices(lines@) =~= help_lines());
        text::owned_texts(&lines)
    }

    /// The lines of the events that are shown on a screen of the given height.
    pub fn visible_lines(&self, show_timestamps: bool, height: usize, utc_offset: Option<i32>) -> (res:
        Vec<String>)
        requires
            self@.times_fit(show_timestamps, utc_offset),
        ensures
            text::texts(res@) == event_lines(
                self@.on_screen(height as nat),
                show_timestamps,
                utc_offset,
            ),
    {
        let filtered: Vec<LogEvent> = self.filtered_events();
        let ghost all = self@.filtered();
        let total: usize = filtered.len();
        let mut res: Vec<String> = Vec::new();
        if total == 0 {
            assert(text::texts(res@) =~= event_lines(
                self@.on_screen(height as nat),
                show_timestamps,
                utc_offset,
            ));
            return res;
        }
        let offset: usize = if self.scroll_offset < total - 1 {
            self.scroll_offset
        } else {
            total - 1
        };
        let end: usize = total - offset;
        let start: usize = if end > height {
            end - height
        } else {
            0
        };
        let ghost shown = self@.on_screen(height as nat);
        assert(shown == all.subrange(start as int, end as int));
        let mut i: usize = start;
        while i < end
            invariant
                self@.times_fit(show_timestamps, utc_offset),
                all == self@.filtered(),
                tracking::event_views(filtered@) == all,
                shown == all.subrange(start as int, end as int),
                start <= i <= end,
                end <= filtered@.len(),
                res@.len() == i - start,
                forall|j: int|
                    0 <= j < i - start ==> #[trigger] res@[j]@ == formatting::event_line(
                        shown[j],
                        show_timestamps,
                        utc_offset,
                    ),
            decreases end - i,
        {
            proof {
                assert(all[i as int] == filtered@[i as int]@);
                accepted_come_from(self@, self@.events, i as int);
                let k = choose|k: int| 0 <= k < self@.events.len() && self@.events[k] == all[i as int];
                assert(self@.events[k].ts == filtered@[i as int].ts);
            }
            res.push(formatting::format_event_line(&filtered[i], show_timestamps, utc_offset));
            i = i + 1;
        }
        assert(text::texts(res@) =~= event_lines(shown, show_timestamps, utc_offset));
        res
    }

    /// Whether the times of all events can be shown on a clock that is the given seconds ahead of
    /// UTC.
    pub fn can_show_times(&self, utc_offset: i32) -> (res: bool)
        ensures
            res == self@.times_fit(true, Some(utc_offset)),
    {
        let mut i: usize = 0;
        while i < self.events.len()
            invariant
                i <= self.events@.len(),
                forall|j: int|
                    0 <= j < i ==> formatting::on_the_clock(
                        (#[trigger] self@.events[j]).ts as int,
                        utc_offset as int,
                    ),
            decreases self.events@.len() - i,
        {
            assert(self@.events[i as int].ts == self.events@[i as int].ts);
            if !formatting::fits_the_clock(self.events[i].ts, utc_offset) {
                return false;
            }
            i = i + 1;
        }
        true
    }

    /// The lines of the colour schemes.
    pub fn theme_picker_lines(&self) -> (res: Vec<StyledLine>)
        requires
            self.wf(),
        ensures
            line_views(res@) == self@.picker_lines(),
    {
        let palette: TuiThemePalette = tui_theme::tui_theme_palette(self.preview_theme());
        let heading: Vec<&'static str> = vec![
            "Theme Picker",
            "Use Up/Down to select, Enter to apply, Esc to cancel.",
            "",
        ];
        let mut res: Vec<StyledLine> = to_plain_lines(text::owned_texts(&heading));
        let ghost head = line_views(res@);
        let all: Vec<GuiTheme> = GuiTheme::all();
        let ghost offered = Seq::new(GuiTheme::offered().len(), |i: int| self@.theme_line(i));
        proof {
            assert(text::slices(heading@) =~= seq![
                "Theme Picker"@,
                "Use Up/Down to select, Enter to apply, Esc to cancel."@,
                ""@,
            ]);
            assert(head + offered.take(0) =~= head);
        }
        let mut i: usize = 0;
        while i < all.len()
            invariant
                self.wf(),
                all@ == GuiTheme::offered(),
                palette == tui_theme::tui_palette(self@.shown_theme()),
                offered == Seq::new(GuiTheme::offered().len(), |i: int| self@.theme_line(i)),
                i <= all@.len(),
                line_views(res@) == head + offered.take(i as int),
            decreases all@.len() - i,
        {
            let ghost before = line_views(res@);
            let selected: bool = i == self.theme_picker_idx;
            let active: bool = all[i] == self.active_theme;
            let mut label: String = if selected {
                "> ".to_owned()
            } else {
                "  ".to_owned()
            };
            label.append(all[i].display_name());
            let line: StyledLine = if selected {
                StyledLine {
                    text: label,
                    fg: Some(palette.selected_fg),
                    bg: Some(palette.selected_bg),
                    bold: true,
                }
            } else if active {
                StyledLine { text: label, fg: Some(palette.accent_fg), bg: None, bold: true }
            } else {
                StyledLine { text: label, fg: Some(palette.content_fg), bg: None, bold: false }
            };
            let ghost view = line@;
            res.push(line);
            proof {
                assert(view == offered[i as int]);
                assert(line_views(res@) =~= before.push(view));
                assert(head + offered.take(i + 1) =~= before.push(view));
            }
            i = i + 1;
        }
        assert(offered.take(i as int) =~= offered);
        res
    }

    /// The screen. The rows below the header are `height`; the local time is `utc_offset` seconds
    /// ahead of UTC, where that is known.
    pub fn frame(&self, config: &AppConfig, height: usize, utc_offset: Option<i32>) -> (res: TuiFrame)
        requires
            self.wf(),
            self@.times_fit(config.show_timestamps, utc_offset),
        ensures
            ({
                let palette = tui_theme::tui_palette(self@.shown_theme());
                let (body, hint) = self@.body(config.show_timestamps, height as nat, utc_offset);
                &&& res.header@ == self@.header(config.poll_interval_ms)
                &&& res.header_fg == palette.header_fg
                &&& res.background == palette.background
                &&& line_views(res.body@) == body
                &&& res.body_fg == (if hint {
                    palette.muted_fg
                } else {
                    palette.content_fg
                })
            }),
    {
        let palette: TuiThemePalette = tui_theme::tui_theme_palette(self.preview_theme());
        let (body, hint) = self.body(config.show_timestamps, height, utc_offset);
        TuiFrame {
            header: self.header_line(config),
            header_fg: palette.header_fg,
            body,
            body_fg: if hint {
                palette.muted_fg
            } else {
                palette.content_fg
            },
            background: palette.background,
        }
    }

    fn body(&self, show_timestamps: bool, height: usize, utc_offset: Option<i32>) -> (res: (
        Vec<StyledLine>,
        bool,
    ))
        requires
            self.wf(),
            self@.times_fit(show_timestamps, utc_offset),
        ensures
            (line_views(res.0@), res.1) == self@.body(show_timestamps, height as nat, utc_offset),
    {
        match self.input_mode {
            InputMode::ListTrackedFiles => {
                if self.tracked_files.len() == 0 {
                    (hint_line("No tracked files configured."), true)
                } else {
                    (to_plain_lines(self.tracked_file_lines()), false)
                }
            },
            InputMode::ThemePicker => (self.theme_picker_lines(), false),
            InputMode::Help => (to_plain_lines(self.command_help_lines()), false),
            _ => {
                let lines: Vec<String> = self.visible_lines(show_timestamps, height, utc_offset);
                proof {
                    let shown = self@.on_screen(height as nat);
                    assert(text::texts(lines@).len() == event_lines(
                        shown,
                        show_timestamps,
                        utc_offset,
                    ).len());
                    assert(event_lines(shown, show_timestamps, utc_offset).len() == shown.len());
                }
                if lines.len() > 0 {
                    (to_plain_lines(lines), false)
                } else if self.events.len() == 0 {
                    (hint_line("Waiting for new log lines..."), true)
                } else {
                    (hint_line("No lines match active filters."), true)
                }
            },
        }
    }
}

fn hint_line(hint: &str) -> (res: Vec<StyledLine>)
    ensures
        line_views(res@) == seq![plain_line(hint@)],
{
    let mut res: Vec<StyledLine> = Vec::new();
    res.push(StyledLine { text: hint.to_owned(), fg: None, bg: None, bold: false });
    assert(line_views(res@) =~= seq![plain_line(hint@)]);
    res
}

/// The longest wait for a key, in nanoseconds.
pub const MAX_KEY_WAIT_NANOS: u64 = 500_000_000;

/// A poll is due: polling is not paused, and the time has come.
pub fn is_poll_due(paused: bool, time_has_come: bool) -> (res: bool)
    ensures
        res == (!paused && time_has_come),
{
    !paused && time_has_come
}

/// How long to wait for a key, in nanoseconds: up to the next poll, but no longer than half a
/// second.
pub fn key_wait_nanos(paused: bool, until_poll: u64) -> (res: u64)
    ensures
        res == (if paused {
            MAX_KEY_WAIT_NANOS as int
        } else {
            least(until_poll as int, MAX_KEY_WAIT_NANOS as int)
        }),
{
    if paused || until_poll > MAX_KEY_WAIT_NANOS {
        MAX_KEY_WAIT_NANOS
    } else {
        until_poll
    }
}

impl TuiView {
    /// What a poll brought: the sources, the warnings as one message, and the events that the rules
    /// let through.
    pub open spec fn after_poll(
        self,
        sources: Seq<Seq<char>>,
        warnings: Seq<Seq<char>>,
        events: Seq<LogEventView>,
        rules: line_rules::RulesView,
        max: nat,
    ) -> TuiView {
        let informed = if warnings.len() > 0 {
            self.with_sources(sources).with_status(text::separated(warnings, " | "@))
        } else {
            self.with_sources(sources)
        };
        if events.len() > 0 {
            let kept = line_rules::flagged(events, rules.flags(events));
            informed.with_events(kept, (events.len() - kept.len()) as nat, max)
        } else {
            informed
        }
    }

    /// What comes of asking for a file: it is tracked, or a message says why not. The watcher's
    /// answer is `true` for a new path and `false` for one that is tracked already.
    pub open spec fn after_request(
        self,
        raw: Seq<char>,
        answer: Result<bool, Seq<char>>,
        sources: Seq<Seq<char>>,
    ) -> TuiView {
        match typed_path(raw) {
            None => self.with_status("No file path entered"@),
            Some(path) => match answer {
                Ok(true) => TuiView {
                    tracked_files: self.tracked_files.push(path),
                    status_message: "Now tracking "@ + path,
                    ..self.with_sources(sources)
                },
                Ok(false) => self.with_status("Already tracking "@ + path),
                Err(reason) => self.with_status("Failed to track "@ + path + ": "@ + reason),
            },
        }
    }
}

impl TuiState {
    /// Takes in what a poll brought; whether there is something new to show.
    pub fn take_in_poll(
        &mut self,
        sources: Vec<String>,
        warnings: Vec<String>,
        events: Vec<LogEvent>,
        rules: &LineRules,
        max_buffer_lines: usize,
    ) -> (res: bool)
        requires
            old(self).wf(),
        ensures
            final(self).wf(),
            final(self)@ == old(self)@.after_poll(
                text::texts(sources@),
                text::texts(warnings@),
                tracking::event_views(events@),
                rules@,
                max_buffer_lines as nat,
            ),
            res == (warnings@.len() > 0 || events@.len() > 0),
    {
        self.set_available_sources(sources);
        let mut dirty: bool = false;
        if warnings.len() > 0 {
            self.set_status(text::join_texts(&warnings, " | "));
            dirty = true;
        }
        if events.len() > 0 {
            let (kept, suppressed) = rules.partition_events(events);
            self.push_events(kept, suppressed, max_buffer_lines);
            dirty = true;
        }
        dirty
    }

    /// Takes in the answer to the request for a file.
    pub fn take_in_request(
        &mut self,
        raw: &str,
        answer: Result<bool, String>,
        sources: Vec<String>,
    )
        requires
            old(self).wf(),
        ensures
            final(self).wf(),
            final(self)@ == old(self)@.after_request(
                raw@,
                match answer {
                    Ok(added) => Ok(added),
                    Err(reason) => Err(reason@),
                },
                text::texts(sources@),
            ),
    {
        match parse_cli_input_path(raw) {
            None => {
                self.set_status("No file path entered".to_owned());
            },
            Some(path) => match answer {
                Ok(true) => {
                    self.set_available_sources(sources);
                    self.add_tracked_file(path.as_str());
                },
                Ok(false) => {
                    let mut message: String = "Already tracking ".to_owned();
                    message.append(path.as_str());
                    self.set_status(message);
                },
                Err(reason) => {
                    let mut message: String = "Failed to track ".to_owned();
                    message.append(path.as_str());
                    message.append(": ");
                    message.append(reason.as_str());
                    self.set_status(message);
                },
            },
        }
    }

    /// Says what came of saving the configuration: `path` is where it goes, if anywhere, and
    /// `failure` why it did not get there, if it did not.
    pub fn report_save(&mut self, path: Option<&String>, failure: Option<&String>)
        requires
            old(self).wf(),
        ensures
            final(self).wf(),
            final(self)@ == old(self)@.with_status(
                match path {
                    None => "No config path available to save"@,
                    Some(path) => match failure {
                        None => "Saved "@ + path@,
                        Some(reason) => "Failed to save "@ + path@ + ": "@ + reason@,
                    },
                },
            ),
    {
        match path {
            None => {
                self.set_status("No config path available to save".to_owned());
            },
            Some(path) => match failure {
                None => {
                    let mut message: String = "Saved ".to_owned();
                    message.append(path.as_str());
                    self.set_status(message);
                },
                Some(reason) => {
                    let mut message: String = "Failed to save ".to_owned();
                    message.append(path.as_str());
                    message.append(": ");
                    message.append(reason.as_str());
                    self.set_status(message);
                },
            },
        }
    }
}

/// Polls the watcher and takes in what it brought; whether there is something new to show. Where
/// the watcher fails, the interface stays as it was.
pub fn poll_step(
    state: &mut TuiState,
    watcher: &mut PollingWatcher,
    rules: &LineRules,
    max_buffer_lines: usize,
    today: CalendarDate,
    snapshot: &Snapshot,
    now: i64,
) -> (res: Result<bool, String>)
    requires
        old(state).wf(),
        old(watcher).wf(),
        snapshot.wf(),
    ensures
        final(state).wf(),
        final(watcher).wf(),
        ({
            let poll = old(watcher)@.polled(today, snapshot, now);
            match res {
                Err(reason) => {
                    &&& poll.events == Err::<Seq<LogEventView>, Seq<char>>(reason@)
                    &&& final(state)@ == old(state)@
                    &&& final(watcher)@ == poll.watcher
                },
                Ok(dirty) => {
                    &&& poll.events is Ok
                    &&& final(watcher)@ == (watcher::WatcherView {
                        status: seq![],
                        ..poll.watcher
                    })
                    &&& final(state)@ == old(state)@.after_poll(
                        order::ascending_texts(
                            watcher::present_labels(
                                watcher::all_active(poll.watcher.states),
                                snapshot,
                            ),
                        ),
                        poll.watcher.status,
                        poll.events->Ok_0,
                        rules@,
                        max_buffer_lines as nat,
                    )
                    &&& dirty == (poll.watcher.status.len() > 0 || (poll.events->Ok_0).len() > 0)
                },
            }
        }),
{
    let events: Vec<LogEvent> = match watcher.poll(today, snapshot, now) {
        Ok(events) => events,
        Err(reason) => {
            return Err(reason);
        },
    };
    let sources: Vec<String> = watcher.active_sources(snapshot);
    let warnings: Vec<String> = watcher.take_status_messages();
    assert(tracking::event_views(events@).len() == events@.len());
    assert(text::texts(warnings@).len() == warnings@.len());
    Ok(state.take_in_poll(sources, warnings, events, rules, max_buffer_lines))
}

/// The list with the path behind it, where it lacks it.
pub open spec fn with_path(files: Seq<Seq<char>>, path: Seq<char>) -> Seq<Seq<char>> {
    if resolver::lists_path(files, path) {
        files
    } else {
        files.push(path)
    }
}

/// Tracks the file that was asked for and takes in the answer. A file that is new to the watcher is
/// entered in the configuration too.
pub fn request_step(
    state: &mut TuiState,
    watcher: &mut PollingWatcher,
    config: &mut AppConfig,
    raw: &str,
    today: CalendarDate,
    snapshot: &Snapshot,
)
    requires
        old(state).wf(),
        old(watcher).wf(),
        old(config).wf(),
    ensures
        final(state).wf(),
        final(watcher).wf(),
        final(config).wf(),
        match typed_path(raw@) {
            None => {
                &&& final(state)@ == old(state)@.with_status("No file path entered"@)
                &&& final(watcher)@ == old(watcher)@
                &&& final(config)@ == old(config)@
            },
            Some(path) => if watcher::is_tracked(old(watcher)@.states, path) {
                &&& final(state)@ == old(state)@.with_status("Already tracking "@ + path)
                &&& final(watcher)@ == old(watcher)@
                &&& final(config)@ == old(config)@
            } else {
                match watcher::fresh_path(path, today, snapshot) {
                    Err(reason) => {
                        &&& final(state)@ == old(state)@.with_status(
                            "Failed to track "@ + path + ": "@ + reason,
                        )
                        &&& final(watcher)@ == old(watcher)@
                        &&& final(config)@ == old(config)@
                    },
                    Ok(fresh) => {
                        let states = old(watcher)@.states.push(fresh);
                        &&& final(watcher)@ == (watcher::WatcherView { states, ..old(watcher)@ })
                        &&& final(config)@ == (ConfigView {
                            tracked_files: with_path(old(config)@.tracked_files, path),
                            ..old(config)@
                        })
                        &&& final(state)@ == old(state)@.after_request(
                            raw@,
                            Ok(true),
                            order::ascending_texts(
                                watcher::present_labels(watcher::all_active(states), snapshot),
                            ),
                        )
                    },
                }
            },
        },
{
    let answer: Result<bool, String> = match parse_cli_input_path(raw) {
        None => Ok(false),
        Some(path) => {
            let ghost name = path@;
            let answer: Result<bool, String> = watcher.add_file(path.clone(), today, snapshot);
            if matches!(answer, Ok(true)) {
                if !resolver::is_path_listed(&config.tracked_files, path.as_str()) {
                    config.tracked_files.push(path);
                    assert(config@.tracked_files =~= old(config)@.tracked_files.push(name));
                }
            }
            answer
        },
    };
    let sources: Vec<String> = watcher.active_sources(snapshot);
    state.take_in_request(raw, answer, sources);
}

/// Enters in the configuration what was changed in the interface.
pub fn sync_runtime_config_from_state(config: &mut AppConfig, state: &TuiState)
    requires
        old(config).wf(),
    ensures
        final(config).wf(),
        final(config)@ == (ConfigView {
            case_insensitive_text_filter: state@.case_insensitive_text_filter,
            gui_theme: state@.active_theme,
            gui_light_mode: state@.active_theme.light(),
            ..old(config)@
        }),
{
    config.case_insensitive_text_filter = state.case_insensitive_text_filter;
    config.gui_theme = state.active_theme;
    config.gui_light_mode = state.active_theme.is_light();
}

/// No key ends the program while text is being typed.
pub proof fn typing_never_quits(view: TuiView, key: Key)
    requires
        view.input_mode == InputMode::Search || view.input_mode == InputMode::AddTrackedFile,
    ensures
        !view.pressed(key).1,
{
}

/// `q` ends the program wherever no text is being typed.
pub proof fn q_quits_elsewhere(view: TuiView)
    requires
        view.input_mode != InputMode::Search,
        view.input_mode != InputMode::AddTrackedFile,
    ensures
        view.pressed(Key::Char('q')).1,
{
}

/// Whatever else a key does, `Esc` leads back to where nothing is being typed or chosen.
pub proof fn esc_leads_back(view: TuiView)
    ensures
        view.pressed(Key::Esc).0.input_mode == InputMode::Normal,
        !view.pressed(Key::Esc).1,
{
}

/// The source filter after it has been moved on `n` times.
pub open spec fn moved_on(view: TuiView, n: nat) -> TuiView
    decreases n,
{
    if n == 0 {
        view
    } else {
        moved_on(view, (n - 1) as nat).pressed_normal(Key::Char('f')).0
    }
}

proof fn moved_on_keeps_sources(view: TuiView, n: nat)
    requires
        view.active_source_filter_idx is None,
        n <= view.sources.len(),
        view.sources.len() <= usize::MAX,
    ensures
        moved_on(view, n).sources == view.sources,
        n == 0 ==> moved_on(view, n).active_source_filter_idx is None,
        n > 0 ==> moved_on(view, n).active_source_filter_idx == Some((n - 1) as usize),
    decreases n,
{
    if n > 0 {
        moved_on_keeps_sources(view, (n - 1) as nat);
    }
}

/// Moving the source filter on goes through the sources in their order and back to all of them.
pub proof fn source_filter_goes_round(view: TuiView, n: nat)
    requires
        view.active_source_filter_idx is None,
        n <= view.sources.len(),
        view.sources.len() <= usize::MAX,
    ensures
        n > 0 ==> moved_on(view, n).active_source_filter_idx == Some((n - 1) as usize),
        moved_on(view, view.sources.len() + 1).active_source_filter_idx is None,
{
    moved_on_keeps_sources(view, n);
    moved_on_keeps_sources(view, view.sources.len());
}

/// Pausing twice changes nothing.
pub proof fn pausing_twice_changes_nothing(view: TuiView)
    requires
        view.input_mode == InputMode::Normal,
    ensures
        view.pressed(Key::Char('p')).0.pressed(Key::Char('p')).0 == view,
{
}

/// The help and the list of files come and go without a trace.
pub proof fn panels_leave_no_trace(view: TuiView)
    requires
        view.input_mode == InputMode::Normal,
    ensures
        view.pressed(Key::Char('?')).0.pressed(Key::Char('?')).0 == view,
        view.pressed(Key::Char('l')).0.pressed(Key::Char('l')).0 == view,
{
}

/// A colour scheme that is looked at and not taken stays without effect.
pub proof fn cancelled_choice_keeps_the_theme(view: TuiView, key: Key)
    requires
        view.input_mode == InputMode::ThemePicker,
        key == Key::Up || key == Key::Down,
    ensures
        view.pressed(key).0.pressed(Key::Esc).0.active_theme == view.active_theme,
        view.pressed(key).0.pressed(Key::Esc).0.shown_theme() == view.active_theme,
{
}

/// Scrolling up or to the start never goes beyond the events that pass the filters.
pub proof fn scrolling_stays_within_the_events(view: TuiView)
    requires
        view.input_mode == InputMode::Normal,
        view.filtered().len() <= usize::MAX,
    ensures
        view.pressed(Key::Char('k')).0.scroll_offset <= view.max_scroll(),
        view.pressed(Key::Char('g')).0.scroll_offset == view.max_scroll(),
        view.pressed(Key::Char('G')).0.scroll_offset == 0,
{
}

/// Which events pass depends on the filters alone.
proof fn accepted_depends_on_filters(a: TuiView, b: TuiView, events: Seq<LogEventView>)
    requires
        a.sources == b.sources,
        a.active_source_filter_idx == b.active_source_filter_idx,
        a.text_filter == b.text_filter,
        a.text_filter_folded == b.text_filter_folded,
        a.case_insensitive_text_filter == b.case_insensitive_text_filter,
    ensures
        a.accepted(events) == b.accepted(events),
    decreases events.len(),
{
    if events.len() > 0 {
        accepted_depends_on_filters(a, b, events.drop_last());
    }
}

/// Once events have come in, the scroll offset does not go beyond those that pass the filters.
pub proof fn incoming_events_bound_the_offset(
    view: TuiView,
    new: Seq<LogEventView>,
    suppressed: nat,
    max: nat,
)
    ensures
        view.with_events(new, suppressed, max).scroll_offset <= view.with_events(
            new,
            suppressed,
            max,
        ).max_scroll(),
{
    let after = view.with_events(new, suppressed, max);
    let fed = TuiView { scroll_offset: view.scroll_offset, ..after };
    accepted_depends_on_filters(after, fed, after.events);
}

proof fn all_accepted(view: TuiView, events: Seq<LogEventView>)
    requires
        view.active_source_filter_idx is None,
        view.text_filter.len() == 0,
    ensures
        view.accepted(events) == events,
    decreases events.len(),
{
    if events.len() > 0 {
        all_accepted(view, events.drop_last());
        assert(events.drop_last().push(events.last()) =~= events);
    } else {
        assert(events =~= seq![]);
    }
}

/// Without a filter every event passes.
pub proof fn no_filter_passes_everything(view: TuiView)
    requires
        view.active_source_filter_idx is None,
        view.text_filter.len() == 0,
    ensures
        view.filtered() == view.events,
{
    all_accepted(view, view.events);
}

/// Every event that passes the filters is one of the events, and only such events are on the
/// screen, no more than its height.
pub proof fn screen_shows_filtered_events(view: TuiView, height: nat, i: int)
    requires
        0 <= i < view.on_screen(height).len(),
    ensures
        view.events.contains(view.on_screen(height)[i]),
        view.on_screen(height).len() <= height,
{
    let all = view.filtered();
    let end = all.len() - least(view.scroll_offset as int, view.max_scroll());
    let start = if end > height {
        end - height
    } else {
        0
    };
    accepted_come_from(view, view.events, start + i);
}

/// Where nothing is scrolled, the newest event that passes the filters is the last on the screen.
pub proof fn newest_event_is_last_on_screen(view: TuiView, height: nat)
    requires
        view.scroll_offset == 0,
        height > 0,
        view.filtered().len() > 0,
    ensures
        view.on_screen(height).len() > 0,
        view.on_screen(height).last() == view.filtered().last(),
{
}

} // verus!
