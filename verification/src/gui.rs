//! The graphical interface: what it holds, what its buttons do, and what it shows.

use crate::buffer;
use crate::config;
use crate::config::AppConfig;
use crate::config::ConfigView;
use crate::config::GuiTheme;
use crate::dates::CalendarDate;
use crate::formatting;
use crate::line_rules;
use crate::line_rules::LineRules;
use crate::line_rules::RulesView;
use crate::order;
use crate::paths;
use crate::resolver;
use crate::snapshot::DirEntry;
use crate::snapshot::DirEntryView;
use crate::snapshot::Snapshot;
use crate::text;
use crate::tracking;
use crate::tracking::LogEvent;
use crate::tracking::LogEventView;
use crate::ui;
use crate::watcher;
use crate::watcher::PollingWatcher;
use crate::watcher::WatcherView;
use crate::watcher_laws;
use std::collections::VecDeque;
use vstd::prelude::*;

verus! {

/// How many configurations are remembered.
pub const MAX_RECENT_CONFIGS: usize = 10;

/// Commands to start the program with.
pub open spec fn quick_start() -> Seq<Seq<char>> {
    seq![
        "rustylogviewer.exe --gui"@,
        "rustylogviewer.exe --gui --config \".\\configs\\team.toml\""@,
        "rustylogviewer.exe --headless --config \".\\configs\\team.toml\""@,
        "rustylogviewer.exe --print-config-only --config \".\\configs\\team.toml\""@,
        "rustylogviewer.exe \"C:\\logs\\app.log\" \"C:\\logs\\worker.log\""@,
    ]
}

/// Commands to start the program with.
pub fn exe_quick_start_lines() -> (res: Vec<&'static str>)
    ensures
        text::slices(res@) == quick_start(),
{
    let res: Vec<&'static str> = vec![
        "rustylogviewer.exe --gui",
        "rustylogviewer.exe --gui --config \".\\configs\\team.toml\"",
        "rustylogviewer.exe --headless --config \".\\configs\\team.toml\"",
        "rustylogviewer.exe --print-config-only --config \".\\configs\\team.toml\"",
        "rustylogviewer.exe \"C:\\logs\\app.log\" \"C:\\logs\\worker.log\"",
    ];
    assert(text::slices(res@) =~= quick_start());
    res
}

/// The options of the command line.
pub open spec fn options() -> Seq<Seq<char>> {
    seq![
        "--gui                      Open graphical desktop window"@,
        "--headless                 Print matching events to stdout (no GUI/TUI)"@,
        "--config <PATH>            Load TOML config file"@,
        "--print-config-only        Validate config, print effective config, and exit"@,
        "--poll-ms <N>              Override poll interval in milliseconds"@,
        "--max-buffer-lines <N>     Override in-memory retained line limit"@,
        "--max-line-len <N>         Override per-line truncation limit"@,
        "--show-timestamps          Force timestamps on output"@,
        "--no-timestamps            Disable timestamps on output"@,
        "--case-insensitive-filter  Text filter matches case-insensitively"@,
        "--case-sensitive-filter    Text filter matches case-sensitively"@,
        "--blacklist-regex <REGEX>  Suppress matching lines (repeatable)"@,
        "--whitelist-regex <REGEX>  Force-keep matching lines (repeatable)"@,
        "<FILE>...                  Log files to watch (overrides config tracked_files)"@,
    ]
}

/// The options of the command line.
pub fn exe_option_lines() -> (res: Vec<&'static str>)
    ensures
        text::slices(res@) == options(),
{
    let res: Vec<&'static str> = vec![
        "--gui                      Open graphical desktop window",
        "--headless                 Print matching events to stdout (no GUI/TUI)",
        "--config <PATH>            Load TOML config file",
        "--print-config-only        Validate config, print effective config, and exit",
        "--poll-ms <N>              Override poll interval in milliseconds",
        "--max-buffer-lines <N>     Override in-memory retained line limit",
        "--max-line-len <N>         Override per-line truncation limit",
        "--show-timestamps          Force timestamps on output",
        "--no-timestamps            Disable timestamps on output",
        "--case-insensitive-filter  Text filter matches case-insensitively",
        "--case-sensitive-filter    Text filter matches case-sensitively",
        "--blacklist-regex <REGEX>  Suppress matching lines (repeatable)",
        "--whitelist-regex <REGEX>  Force-keep matching lines (repeatable)",
        "<FILE>...                  Log files to watch (overrides config tracked_files)",
    ];
    assert(text::slices(res@) =~= options());
    res
}

/// How to make a shortcut on Windows.
pub open spec fn shortcut_steps() -> Seq<Seq<char>> {
    seq![
        "1. Right-click desktop, choose New > Shortcut"@,
        "2. Target example: \"C:\\tools\\rustylogviewer.exe\" --gui --config \"C:\\tools\\configs\\team.toml\""@,
        "3. Set Start in to the folder containing the exe/configs"@,
        "4. Create one shortcut per config so users can launch the right view quickly"@,
    ]
}

/// How to make a shortcut on Windows.
pub fn windows_shortcut_lines() -> (res: Vec<&'static str>)
    ensures
        text::slices(res@) == shortcut_steps(),
{
    let res: Vec<&'static str> = vec![
        "1. Right-click desktop, choose New > Shortcut",
        "2. Target example: \"C:\\tools\\rustylogviewer.exe\" --gui --config \"C:\\tools\\configs\\team.toml\"",
        "3. Set Start in to the folder containing the exe/configs",
        "4. Create one shortcut per config so users can launch the right view quickly",
    ];
    assert(text::slices(res@) =~= shortcut_steps());
    res
}

/// Commands for developers.
pub open spec fn developer_commands() -> Seq<Seq<char>> {
    seq![
        "cargo run -- --gui"@,
        "cargo run -- --gui --config ./rustylogviewer.toml"@,
        "cargo run -- --headless --config ./rustylogviewer.toml"@,
        "cargo run -- --print-config-only --config ./rustylogviewer.toml"@,
        "cargo run -- ./app.log ./worker.log"@,
    ]
}

/// Commands for developers.
pub fn cargo_quick_start_lines() -> (res: Vec<&'static str>)
    ensures
        text::slices(res@) == developer_commands(),
{
    let res: Vec<&'static str> = vec![
        "cargo run -- --gui",
        "cargo run -- --gui --config ./rustylogviewer.toml",
        "cargo run -- --headless --config ./rustylogviewer.toml",
        "cargo run -- --print-config-only --config ./rustylogviewer.toml",
        "cargo run -- ./app.log ./worker.log",
    ];
    assert(text::slices(res@) =~= developer_commands());
    res
}

/// The configuration to open at the start: the one that was asked for, or the most recent.
pub open spec fn startup_choice(initial: Option<Seq<char>>, recent: Seq<Seq<char>>) -> Option<
    Seq<char>,
> {
    if initial is Some {
        initial
    } else if recent.len() > 0 {
        Some(recent[0])
    } else {
        None
    }
}

/// The view of an optional text.
pub open spec fn optional(s: Option<String>) -> Option<Seq<char>> {
    match s {
        Some(s) => Some(s@),
        None => None,
    }
}

/// The configuration to open at the start.
pub fn select_startup_config(initial: Option<String>, recent: &[String]) -> (res: Option<String>)
    ensures
        optional(res) == startup_choice(optional(initial), text::texts(recent@)),
{
    match initial {
        Some(path) => Some(path),
        None => if recent.len() > 0 {
            Some(recent[0].clone())
        } else {
            None
        },
    }
}

/// The list with the paths behind it that it lacks, in some spelling.
pub open spec fn with_discovered(list: Seq<Seq<char>>, discovered: Seq<Seq<char>>) -> Seq<Seq<char>>
    decreases discovered.len(),
{
    if discovered.len() == 0 {
        list
    } else {
        ui::with_path(with_discovered(list, discovered.drop_last()), discovered.last())
    }
}

/// Puts the configurations that were found behind those that are remembered, where they lack them.
pub fn merge_discovered_configs(recent_configs: &mut Vec<String>, discovered_configs: Vec<String>)
    ensures
        text::texts(final(recent_configs)@) == with_discovered(
            text::texts(old(recent_configs)@),
            text::texts(discovered_configs@),
        ),
{
    let ghost list = text::texts(recent_configs@);
    let ghost found = text::texts(discovered_configs@);
    let mut i: usize = 0;
    assert(found.take(0) =~= seq![]);
    while i < discovered_configs.len()
        invariant
            found == text::texts(discovered_configs@),
            i <= discovered_configs@.len(),
            text::texts(recent_configs@) == with_discovered(list, found.take(i as int)),
        decreases discovered_configs@.len() - i,
    {
        let ghost before = text::texts(recent_configs@);
        proof {
            assert(found.take(i + 1).drop_last() =~= found.take(i as int));
            assert(found.take(i + 1).last() == discovered_configs@[i as int]@);
        }
        if !resolver::is_path_listed(recent_configs, discovered_configs[i].as_str()) {
            recent_configs.push(discovered_configs[i].clone());
            assert(text::texts(recent_configs@) =~= before.push(discovered_configs@[i as int]@));
        }
        i = i + 1;
    }
    assert(found.take(i as int) =~= found);
}

/// The texts of the list that are not empty.
pub open spec fn nonempty(list: Seq<Seq<char>>) -> Seq<Seq<char>>
    decreases list.len(),
{
    if list.len() == 0 {
        seq![]
    } else {
        let front = nonempty(list.drop_last());
        if list.last().len() > 0 {
            front.push(list.last())
        } else {
            front
        }
    }
}

/// The configurations that are remembered, out of what was stored: each once, none without a path,
/// and not too many.
pub fn recent_from_stored(stored: &Vec<String>) -> (res: Vec<String>)
    ensures
        text::texts(res@) == resolver::first_entries(
            resolver::distinct_paths(nonempty(text::texts(stored@))),
            MAX_RECENT_CONFIGS as nat,
        ),
{
    let ghost all = text::texts(stored@);
    let mut kept: Vec<String> = Vec::new();
    let mut i: usize = 0;
    proof {
        assert(all.take(0) =~= seq![]);
        assert(text::texts(kept@) =~= resolver::distinct_paths(nonempty(all.take(0))));
    }
    while i < stored.len()
        invariant
            all == text::texts(stored@),
            i <= stored@.len(),
            text::texts(kept@) == resolver::distinct_paths(nonempty(all.take(i as int))),
        decreases stored@.len() - i,
    {
        let ghost before = text::texts(kept@);
        let ghost seen = nonempty(all.take(i as int));
        let ghost entry = stored@[i as int]@;
        proof {
            assert(all.take(i + 1).drop_last() =~= all.take(i as int));
            assert(all.take(i + 1).last() == entry);
            resolver::distinct_paths_keep_each_once(seen);
            if entry.len() > 0 {
                assert(seen.push(entry).drop_last() =~= seen);
                assert(resolver::lists_path(before, entry) == resolver::lists_path(seen, entry));
            }
        }
        if stored[i].as_str().unicode_len() > 0 {
            if !resolver::is_path_listed(&kept, stored[i].as_str()) {
                kept.push(stored[i].clone());
                assert(text::texts(kept@) =~= before.push(entry));
            }
        }
        i = i + 1;
    }
    assert(all.take(i as int) =~= all);
    let ghost distinct = text::texts(kept@);
    if kept.len() > MAX_RECENT_CONFIGS {
        kept.truncate(MAX_RECENT_CONFIGS);
        assert(text::texts(kept@) =~= distinct.take(MAX_RECENT_CONFIGS as int));
    }
    kept
}

/// The directories in which configurations are looked for: that of the program, and the current
/// one where it is another.
pub open spec fn roots(exe_dir: Option<Seq<char>>, current: Option<Seq<char>>) -> Seq<Seq<char>> {
    let first = match exe_dir {
        Some(dir) => seq![dir],
        None => seq![],
    };
    match current {
        Some(dir) => ui::with_path(first, dir),
        None => first,
    }
}

/// The directories in which configurations are looked for.
pub fn default_config_search_roots(exe_dir: Option<String>, current_dir: Option<String>) -> (res: Vec<
    String,
>)
    ensures
        text::texts(res@) == roots(optional(exe_dir), optional(current_dir)),
{
    let mut res: Vec<String> = Vec::new();
    assert(text::texts(res@) =~= seq![]);
    match exe_dir {
        Some(dir) => {
            let ghost first = dir@;
            res.push(dir);
            assert(text::texts(res@) =~= seq![first]);
        },
        None => {},
    }
    match current_dir {
        Some(dir) => {
            if !resolver::is_path_listed(&res, dir.as_str()) {
                let ghost before = text::texts(res@);
                let ghost last = dir@;
                res.push(dir);
                assert(text::texts(res@) =~= before.push(last));
            }
        },
        None => {},
    }
    res
}

/// A letter of ASCII in lower case; any other character as it is.
pub open spec fn ascii_lower(c: char) -> char {
    if 'A' <= c && c <= 'Z' {
        (c as u32 + 32) as char
    } else {
        c
    }
}

/// The extension is that of a TOML file, whatever the case of its letters.
pub open spec fn toml_extension(extension: Seq<char>) -> bool {
    &&& extension.len() == 4
    &&& ascii_lower(extension[0]) == 't'
    &&& ascii_lower(extension[1]) == 'o'
    &&& ascii_lower(extension[2]) == 'm'
    &&& ascii_lower(extension[3]) == 'l'
}

/// The entry is a TOML file.
pub open spec fn toml_file(entry: DirEntryView) -> bool {
    entry.is_file && match paths::name_extension(entry.name) {
        Some(extension) => toml_extension(extension),
        None => false,
    }
}

fn is_letter(c: char, lower: char, upper: char) -> (res: bool)
    requires
        'a' <= lower && lower <= 'z',
        upper as u32 + 32 == lower as u32,
    ensures
        res == (ascii_lower(c) == lower),
{
    c == lower || c == upper
}

fn is_toml_file(entry: &DirEntry) -> (res: bool)
    ensures
        res == toml_file(entry@),
{
    if !entry.is_file {
        return false;
    }
    let name: Vec<char> = text::chars_of(entry.name.as_str());
    match paths::split_extension(name.as_slice()).1 {
        None => false,
        Some(extension) => extension.len() == 4 && is_letter(extension[0], 't', 'T') && is_letter(
            extension[1],
            'o',
            'O',
        ) && is_letter(extension[2], 'm', 'M') && is_letter(extension[3], 'l', 'L'),
    }
}

/// The paths of the TOML files of a directory, in the order of the listing.
pub open spec fn toml_paths(dir: Seq<char>, entries: Seq<DirEntryView>) -> Seq<Seq<char>>
    decreases entries.len(),
{
    if entries.len() == 0 {
        seq![]
    } else {
        let front = toml_paths(dir, entries.drop_last());
        if toml_file(entries.last()) {
            front.push(paths::joined(dir, entries.last().name))
        } else {
            front
        }
    }
}

/// The paths of the TOML files of a directory, in order.
pub fn config_candidates(dir: &str, entries: &Vec<DirEntry>) -> (res: Vec<String>)
    ensures
        text::texts(res@) == order::sorted_texts(
            toml_paths(dir@, entries@.map_values(|entry: DirEntry| entry@)),
        ),
{
    let ghost all = entries@.map_values(|entry: DirEntry| entry@);
    let mut found: Vec<String> = Vec::new();
    let mut i: usize = 0;
    assert(text::texts(found@) =~= toml_paths(dir@, all.take(0)));
    while i < entries.len()
        invariant
            all == entries@.map_values(|entry: DirEntry| entry@),
            i <= entries@.len(),
            text::texts(found@) == toml_paths(dir@, all.take(i as int)),
        decreases entries@.len() - i,
    {
        let ghost before = text::texts(found@);
        proof {
            assert(all.take(i + 1).drop_last() =~= all.take(i as int));
            assert(all.take(i + 1).last() == entries@[i as int]@);
        }
        if is_toml_file(&entries[i]) {
            found.push(paths::join(dir, entries[i].name.as_str()));
            assert(text::texts(found@) =~= before.push(
                paths::joined(dir@, entries@[i as int].name@),
            ));
        }
        i = i + 1;
    }
    assert(all.take(i as int) =~= all);
    order::sort(order::Order::Text, &found)
}

/// The paths of all lists, those of each in order.
pub open spec fn in_order(lists: Seq<Seq<Seq<char>>>) -> Seq<Seq<char>>
    decreases lists.len(),
{
    if lists.len() == 0 {
        seq![]
    } else {
        in_order(lists.drop_last()) + order::sorted_texts(lists.last())
    }
}

/// The views of lists of texts.
pub open spec fn text_lists(v: Seq<Vec<String>>) -> Seq<Seq<Seq<char>>> {
    v.map_values(|list: Vec<String>| text::texts(list@))
}

/// The configurations that were found, given the valid ones of each directory: directory by
/// directory, those of each in order, each once.
pub fn discover_app_configs_in_roots(valid: &Vec<Vec<String>>) -> (res: Vec<String>)
    ensures
        text::texts(res@) == with_discovered(seq![], in_order(text_lists(valid@))),
{
    let ghost all = text_lists(valid@);
    let mut found: Vec<String> = Vec::new();
    let mut i: usize = 0;
    assert(text::texts(found@) =~= in_order(all.take(0)));
    while i < valid.len()
        invariant
            all == text_lists(valid@),
            i <= valid@.len(),
            text::texts(found@) == in_order(all.take(i as int)),
        decreases valid@.len() - i,
    {
        let ghost before = text::texts(found@);
        proof {
            assert(all.take(i + 1).drop_last() =~= all.take(i as int));
            assert(all.take(i + 1).last() == text::texts(valid@[i as int]@));
        }
        let mut sorted: Vec<String> = order::sort(order::Order::Text, &valid[i]);
        let ghost next = text::texts(sorted@);
        found.append(&mut sorted);
        assert(text::texts(found@) =~= before + next);
        i = i + 1;
    }
    assert(all.take(i as int) =~= all);
    let mut res: Vec<String> = Vec::new();
    assert(text::texts(res@) =~= seq![]);
    merge_discovered_configs(&mut res, found);
    res
}

/// An event as it is shown: with the time and without, and its line in lower case.
#[derive(Debug, Clone, PartialEq, Eq)]
pub struct DisplayEvent {
    pub source: String,
    pub line: String,
    pub line_lower: String,
    pub with_ts: String,
    pub without_ts: String,
}

/// An event as it is shown, as contracts speak of it.
pub struct DisplayView {
    pub source: Seq<char>,
    pub line: Seq<char>,
    pub line_lower: Seq<char>,
    pub with_ts: Seq<char>,
    pub without_ts: Seq<char>,
}

impl View for DisplayEvent {
    type V = DisplayView;

    open spec fn view(&self) -> DisplayView {
        DisplayView {
            source: self.source@,
            line: self.line@,
            line_lower: self.line_lower@,
            with_ts: self.with_ts@,
            without_ts: self.without_ts@,
        }
    }
}

/// The event as it is shown.
pub open spec fn displayed(event: LogEventView, offset: Option<i32>) -> DisplayView {
    DisplayView {
        source: event.source,
        line: event.line,
        line_lower: text::lowercased(event.line),
        with_ts: formatting::event_line(event, true, offset),
        without_ts: formatting::event_line(event, false, offset),
    }
}

/// The events as they are shown.
pub open spec fn all_displayed(events: Seq<LogEventView>, offset: Option<i32>) -> Seq<DisplayView> {
    events.map_values(|event: LogEventView| displayed(event, offset))
}

/// The views of a list of events.
pub open spec fn display_views(v: Seq<DisplayEvent>) -> Seq<DisplayView> {
    v.map_values(|event: DisplayEvent| event@)
}

impl DisplayEvent {
    /// The event as it is shown.
    pub fn from_log(event: &LogEvent, utc_offset: Option<i32>) -> (res: DisplayEvent)
        requires
            utc_offset is Some ==> formatting::on_the_clock(
                event.ts as int,
                utc_offset->0 as int,
            ),
        ensures
            res@ == displayed(event@, utc_offset),
    {
        DisplayEvent {
            source: event.source.clone(),
            line: event.line.clone(),
            line_lower: text::lowercase(event.line.as_str()),
            with_ts: formatting::format_event_line(event, true, utc_offset),
            without_ts: formatting::format_event_line(event, false, utc_offset),
        }
    }
}

fn display_all(events: &Vec<LogEvent>, utc_offset: Option<i32>) -> (res: Vec<DisplayEvent>)
    requires
        utc_offset is Some ==> forall|i: int|
            0 <= i < events@.len() ==> formatting::on_the_clock(
                (#[trigger] events@[i]).ts as int,
                utc_offset->0 as int,
            ),
    ensures
        display_views(res@) == all_displayed(tracking::event_views(events@), utc_offset),
{
    let ghost wanted = all_displayed(tracking::event_views(events@), utc_offset);
    let mut res: Vec<DisplayEvent> = Vec::new();
    let mut i: usize = 0;
    while i < events.len()
        invariant
            utc_offset is Some ==> forall|i: int|
                0 <= i < events@.len() ==> formatting::on_the_clock(
                    (#[trigger] events@[i]).ts as int,
                    utc_offset->0 as int,
                ),
            wanted == all_displayed(tracking::event_views(events@), utc_offset),
            i <= events@.len(),
            res@.len() == i,
            forall|j: int| 0 <= j < i ==> (#[trigger] res@[j])@ == wanted[j],
        decreases events@.len() - i,
    {
        res.push(DisplayEvent::from_log(&events[i], utc_offset));
        i = i + 1;
    }
    assert(display_views(res@) =~= wanted);
    res
}

/// The graphical interface.
pub struct GuiState {
    pub config: AppConfig,
    pub config_path: Option<String>,
    pub recent_configs: Vec<String>,
    pub status_message: String,
    pub events: VecDeque<DisplayEvent>,
    pub total_seen: u64,
    pub dropped: u64,
    pub suppressed_by_rules: u64,
    pub running: bool,
    pub watcher: Option<PollingWatcher>,
    pub rules: Option<LineRules>,
    pub active_blacklist_regex: Vec<String>,
    pub active_whitelist_regex: Vec<String>,
    pub text_filter: String,
    pub source_filter: Option<String>,
    pub config_panel_visible: bool,
}

/// The graphical interface, as contracts speak of it.
pub struct GuiView {
    pub config: ConfigView,
    pub config_path: Option<Seq<char>>,
    pub recent_configs: Seq<Seq<char>>,
    pub status_message: Seq<char>,
    pub events: Seq<DisplayView>,
    pub total_seen: u64,
    pub dropped: u64,
    pub suppressed_by_rules: u64,
    pub running: bool,
    pub watcher: Option<WatcherView>,
    pub rules: Option<RulesView>,
    pub active_blacklist_regex: Seq<Seq<char>>,
    pub active_whitelist_regex: Seq<Seq<char>>,
    pub text_filter: Seq<char>,
    pub source_filter: Option<Seq<char>>,
    pub config_panel_visible: bool,
}

impl View for GuiState {
    type V = GuiView;

    open spec fn view(&self) -> GuiView {
        GuiView {
            config: self.config@,
            config_path: optional(self.config_path),
            recent_configs: text::texts(self.recent_configs@),
            status_message: self.status_message@,
            events: display_views(self.events@),
            total_seen: self.total_seen,
            dropped: self.dropped,
            suppressed_by_rules: self.suppressed_by_rules,
            running: self.running,
            watcher: match self.watcher {
                Some(watcher) => Some(watcher@),
                None => None,
            },
            rules: match self.rules {
                Some(rules) => Some(rules@),
                None => None,
            },
            active_blacklist_regex: text::texts(self.active_blacklist_regex@),
            active_whitelist_regex: text::texts(self.active_whitelist_regex@),
            text_filter: self.text_filter@,
            source_filter: optional(self.source_filter),
            config_panel_visible: self.config_panel_visible,
        }
    }
}

impl GuiView {
    /// Another message.
    pub open spec fn with_status(self, message: Seq<char>) -> GuiView {
        GuiView { status_message: message, ..self }
    }

    /// The stream is stopped.
    pub open spec fn stopped(self) -> GuiView {
        GuiView {
            running: false,
            watcher: None,
            rules: None,
            active_blacklist_regex: seq![],
            active_whitelist_regex: seq![],
            ..self
        }
    }

    /// The configuration is the most recent: it comes first, once, and the list is cut to its
    /// length.
    pub open spec fn with_recent(self, path: Seq<char>) -> GuiView {
        GuiView {
            recent_configs: resolver::first_entries(
                seq![path] + without_path(self.recent_configs, path),
                MAX_RECENT_CONFIGS as nat,
            ),
            ..self
        }
    }

    /// The stream is started, or a message says why not; `font_size` is the size of the font in
    /// words.
    pub open spec fn begun(
        self,
        date: CalendarDate,
        snapshot: &Snapshot,
        font_size: Seq<char>,
    ) -> GuiView {
        let config = self.config;
        match config.error() {
            Some(error) => self.with_status("Invalid config: "@ + error.text(font_size)),
            None => match watcher::started(
                config.tracked_files,
                Map::empty(),
                config.max_line_len as nat,
                date,
                snapshot,
            ) {
                Err(reason) => self.with_status("Failed to initialize watcher: "@ + reason),
                Ok(watcher) => match line_rules::rules_of(
                    config.blacklist_regex,
                    config.whitelist_regex,
                ) {
                    Err(reason) => self.with_status("Failed to initialize regex rules: "@ + reason),
                    Ok(rules) => {
                        let max = config.max_buffer_lines;
                        let excess = if self.events.len() > max {
                            self.events.len() - max
                        } else {
                            0
                        };
                        GuiView {
                            events: self.events.skip(excess),
                            dropped: buffer::counter(self.dropped + excess),
                            watcher: Some(watcher),
                            rules: Some(rules),
                            active_blacklist_regex: config.blacklist_regex,
                            active_whitelist_regex: config.whitelist_regex,
                            running: true,
                            status_message: "Stream started (existing lines preserved)"@,
                            ..self
                        }
                    },
                },
            },
        }
    }

    /// A poll while the stream runs, and whether it changed what is shown.
    pub open spec fn polled(
        self,
        date: CalendarDate,
        snapshot: &Snapshot,
        now: i64,
        offset: Option<i32>,
    ) -> (GuiView, bool) {
        let poll = (self.watcher->0).polled(date, snapshot, now);
        match poll.events {
            Err(reason) => (self.stopped().with_status("Watcher error: "@ + reason), true),
            Ok(events) => {
                let kept = line_rules::flagged(events, (self.rules->0).flags(events));
                let shown = all_displayed(kept, offset);
                let suppressed = events.len() - kept.len();
                let max = self.config.max_buffer_lines as nat;
                (
                    GuiView {
                        events: buffer::capped(self.events, shown, max),
                        total_seen: buffer::counter(self.total_seen + shown.len()),
                        dropped: buffer::counter(
                            self.dropped + buffer::taken_out(self.events, shown, max),
                        ),
                        suppressed_by_rules: buffer::counter(
                            self.suppressed_by_rules + suppressed,
                        ),
                        watcher: Some(poll.watcher),
                        ..self
                    },
                    suppressed > 0 || kept.len() > 0,
                )
            },
        }
    }

    /// A poll is due: the stream runs, and the poll interval has passed.
    pub open spec fn poll_due(self, elapsed_ms: u64) -> bool {
        self.running && elapsed_ms >= self.config.poll_interval_ms
    }

    /// The patterns have been edited while the stream runs.
    pub open spec fn rules_edited(self) -> bool {
        self.running && !(self.config.blacklist_regex == self.active_blacklist_regex
            && self.config.whitelist_regex == self.active_whitelist_regex)
    }

    /// Edited patterns are put to use, or a message says why not.
    pub open spec fn with_edited_rules(self) -> GuiView {
        if !self.rules_edited() {
            self
        } else {
            match line_rules::rules_of(self.config.blacklist_regex, self.config.whitelist_regex) {
                Ok(rules) => GuiView {
                    rules: Some(rules),
                    active_blacklist_regex: self.config.blacklist_regex,
                    active_whitelist_regex: self.config.whitelist_regex,
                    status_message: "Applied updated regex rules"@,
                    ..self
                },
                Err(reason) => self.with_status("Regex update failed: "@ + reason),
            }
        }
    }

    /// The text filter in lower case, where that is what counts.
    pub open spec fn folded_filter(self) -> Option<Seq<char>> {
        if self.config.case_insensitive_text_filter && self.text_filter.len() > 0 {
            Some(text::lowercased(self.text_filter))
        } else {
            None
        }
    }

    /// The event passes the filters, given the text filter in lower case where that is what counts.
    pub open spec fn accepts(self, event: DisplayView, folded: Option<Seq<char>>) -> bool {
        &&& self.source_filter is Some ==> self.source_filter->0 == event.source
        &&& self.text_filter.len() > 0 ==> match folded {
            Some(needle) => text::contains_text(event.line_lower, needle),
            None => text::contains_text(event.line, self.text_filter),
        }
    }

    /// The lines of the events that pass the filters.
    pub open spec fn lines_of(self, events: Seq<DisplayView>) -> Seq<Seq<char>>
        decreases events.len(),
    {
        if events.len() == 0 {
            seq![]
        } else {
            let front = self.lines_of(events.drop_last());
            if self.accepts(events.last(), self.folded_filter()) {
                front.push(
                    if self.config.show_timestamps {
                        events.last().with_ts
                    } else {
                        events.last().without_ts
                    },
                )
            } else {
                front
            }
        }
    }

    /// The lines that are shown.
    pub open spec fn visible(self) -> Seq<Seq<char>> {
        self.lines_of(self.events)
    }

    /// The sources among which one can choose: the configured files, and those of the events.
    pub open spec fn source_names(self) -> Seq<Seq<char>> {
        ui::source_labels(self.config.tracked_files) + self.events.map_values(
            |event: DisplayView| event.source,
        )
    }
}

/// The list without the path, in any spelling.
pub open spec fn without_path(list: Seq<Seq<char>>, path: Seq<char>) -> Seq<Seq<char>>
    decreases list.len(),
{
    if list.len() == 0 {
        seq![]
    } else {
        let front = without_path(list.drop_last(), path);
        if paths::same_path(list.last(), path) {
            front
        } else {
            front.push(list.last())
        }
    }
}

fn message2(start: &str, rest: &str) -> (res: String)
    ensures
        res@ == start@ + rest@,
{
    let mut res: String = start.to_owned();
    res.append(rest);
    res
}

fn same_texts(a: &Vec<String>, b: &Vec<String>) -> (res: bool)
    ensures
        res == (text::texts(a@) == text::texts(b@)),
{
    let ghost x = text::texts(a@);
    let ghost y = text::texts(b@);
    if a.len() != b.len() {
        assert(x.len() != y.len());
        return false;
    }
    let mut i: usize = 0;
    while i < a.len()
        invariant
            x == text::texts(a@),
            y == text::texts(b@),
            a@.len() == b@.len(),
            i <= a@.len(),
            forall|j: int| 0 <= j < i ==> #[trigger] x[j] == y[j],
        decreases a@.len() - i,
    {
        if a[i] != b[i] {
            assert(x[i as int] != y[i as int]);
            return false;
        }
        i = i + 1;
    }
    assert(x =~= y);
    true
}

impl GuiState {
    /// The stream runs exactly where there is a watcher and where there are rules, and the parts
    /// are in order.
    pub open spec fn wf(&self) -> bool {
        &&& self.config.wf()
        &&& self.running == (self.watcher is Some)
        &&& self.running == (self.rules is Some)
        &&& self.watcher is Some ==> self.watcher->0.wf()
    }

    /// The interface at the start.
    pub fn new(recent_configs: Vec<String>) -> (res: GuiState)
        ensures
            res.wf(),
            res@ == (GuiView {
                config: config::default_config(),
                config_path: None,
                recent_configs: text::texts(recent_configs@),
                status_message: "Ready"@,
                events: seq![],
                total_seen: 0,
                dropped: 0,
                suppressed_by_rules: 0,
                running: false,
                watcher: None,
                rules: None,
                active_blacklist_regex: seq![],
                active_whitelist_regex: seq![],
                text_filter: seq![],
                source_filter: None,
                config_panel_visible: true,
            }),
    {
        let res: GuiState = GuiState {
            config: AppConfig::default(),
            config_path: None,
            recent_configs,
            status_message: "Ready".to_owned(),
            events: VecDeque::new(),
            total_seen: 0,
            dropped: 0,
            suppressed_by_rules: 0,
            running: false,
            watcher: None,
            rules: None,
            active_blacklist_regex: Vec::new(),
            active_whitelist_regex: Vec::new(),
            text_filter: String::new(),
            source_filter: None,
            config_panel_visible: true,
        };
        proof {
            assert(res@.events =~= seq![]);
            assert(res@.active_blacklist_regex =~= seq![]);
            assert(res@.active_whitelist_regex =~= seq![]);
            assert(res@.text_filter =~= seq![]);
        }
        res
    }

    /// Takes in a configuration that was loaded from `path`, or the reason why it was not.
    pub fn open_config(&mut self, path: &str, loaded: Result<AppConfig, String>)
        requires
            old(self).wf(),
            loaded is Ok ==> loaded->Ok_0.wf(),
        ensures
            final(self).wf(),
            final(self)@ == (match loaded {
                Ok(config) => GuiView {
                    config: config@,
                    config_path: Some(path@),
                    ..old(self)@.stopped().with_recent(path@).with_status("Loaded "@ + path@)
                },
                Err(reason) => old(self)@.with_status(
                    "Failed to load "@ + path@ + ": "@ + reason@,
                ),
            }),
    {
        match loaded {
            Ok(config) => {
                self.stop_stream();
                self.config = config;
                self.config_path = Some(path.to_owned());
                self.push_recent_config(path);
                self.status_message = message2("Loaded ", path);
            },
            Err(reason) => {
                self.status_message = message2(
                    text::concat3("Failed to load ", path, ": ").as_str(),
                    reason.as_str(),
                );
            },
        }
    }

    /// Starts a new configuration.
    pub fn new_config(&mut self)
        requires
            old(self).wf(),
        ensures
            final(self).wf(),
            final(self)@ == (GuiView {
                config: config::default_config(),
                config_path: None,
                ..old(self)@.stopped().with_status(
                    "Created new config (unsaved). Add files before starting."@,
                )
            }),
    {
        self.stop_stream();
        self.config = AppConfig::default();
        self.config_path = None;
        self.status_message = "Created new config (unsaved). Add files before starting.".to_owned();
    }

    /// Whether the configuration may be saved; where not, a message says why. `font_size` is the
    /// size of the font in words.
    pub fn check_saveable(&mut self, font_size: &str) -> (res: bool)
        requires
            old(self).wf(),
        ensures
            final(self).wf(),
            res == (old(self)@.config.error() is None),
            final(self)@ == (match old(self)@.config.error() {
                None => old(self)@,
                Some(error) => old(self)@.with_status(
                    "Cannot save invalid config: "@ + error.text(font_size@),
                ),
            }),
    {
        match self.config.validate() {
            Ok(_) => true,
            Err(error) => {
                self.status_message = message2(
                    "Cannot save invalid config: ",
                    error.message(font_size).as_str(),
                );
                false
            },
        }
    }

    /// Says what came of saving to `path`: `failure` is why it was not saved, if it was not.
    pub fn report_save(&mut self, path: &str, failure: Option<&String>)
        requires
            old(self).wf(),
        ensures
            final(self).wf(),
            final(self)@ == (match failure {
                None => old(self)@.with_recent(path@).with_status("Saved "@ + path@),
                Some(reason) => old(self)@.with_status(
                    "Failed to save "@ + path@ + ": "@ + reason@,
                ),
            }),
    {
        match failure {
            None => {
                self.push_recent_config(path);
                self.status_message = message2("Saved ", path);
            },
            Some(reason) => {
                self.status_message = message2(
                    text::concat3("Failed to save ", path, ": ").as_str(),
                    reason.as_str(),
                );
            },
        }
    }

    /// Puts a configuration first among the recent ones.
    pub fn push_recent_config(&mut self, path: &str)
        requires
            old(self).wf(),
        ensures
            final(self).wf(),
            final(self)@ == old(self)@.with_recent(path@),
    {
        let ghost list = text::texts(self.recent_configs@);
        let mut others: Vec<String> = Vec::new();
        let mut i: usize = 0;
        assert(text::texts(others@) =~= without_path(list.take(0), path@));
        while i < self.recent_configs.len()
            invariant
                *self == *old(self),
                list == text::texts(self.recent_configs@),
                i <= self.recent_configs@.len(),
                text::texts(others@) == without_path(list.take(i as int), path@),
            decreases self.recent_configs@.len() - i,
        {
            let ghost before = text::texts(others@);
            proof {
                assert(list.take(i + 1).drop_last() =~= list.take(i as int));
                assert(list.take(i + 1).last() == self.recent_configs@[i as int]@);
            }
            if !paths::is_same_path(self.recent_configs[i].as_str(), path) {
                others.push(self.recent_configs[i].clone());
                assert(text::texts(others@) =~= before.push(self.recent_configs@[i as int]@));
            }
            i = i + 1;
        }
        assert(list.take(i as int) =~= list);
        let ghost rest = text::texts(others@);
        let mut recent: Vec<String> = Vec::new();
        recent.push(path.to_owned());
        recent.append(&mut others);
        let ghost all = text::texts(recent@);
        assert(all =~= seq![path@] + rest);
        if recent.len() > MAX_RECENT_CONFIGS {
            recent.truncate(MAX_RECENT_CONFIGS);
            assert(text::texts(recent@) =~= all.take(MAX_RECENT_CONFIGS as int));
        }
        self.recent_configs = recent;
    }

    /// Forgets a configuration, by its place.
    pub fn remove_recent_config_at(&mut self, index: usize)
        requires
            old(self).wf(),
        ensures
            final(self).wf(),
            final(self)@ == (if index < old(self)@.recent_configs.len() {
                GuiView {
                    recent_configs: old(self)@.recent_configs.remove(index as int),
                    ..old(self)@
                }
            } else {
                old(self)@
            }),
    {
        if index < self.recent_configs.len() {
            let _ = self.recent_configs.remove(index);
            assert(self@.recent_configs =~= old(self)@.recent_configs.remove(index as int));
        }
    }

    /// Forgets all configurations.
    pub fn clear_recent_configs(&mut self)
        requires
            old(self).wf(),
        ensures
            final(self).wf(),
            final(self)@ == (GuiView {
                recent_configs: seq![],
                status_message: "Cleared recent config list"@,
                ..old(self)@
            }),
    {
        self.recent_configs.clear();
        self.status_message = "Cleared recent config list".to_owned();
        assert(self@.recent_configs =~= seq![]);
    }

    /// Starts the stream, or says why not.
    pub fn start_stream(&mut self, today: CalendarDate, snapshot: &Snapshot, font_size: &str)
        requires
            old(self).wf(),
        ensures
            final(self).wf(),
            final(self)@ == old(self)@.begun(today, snapshot, font_size@),
    {
        match self.config.validate() {
            Ok(_) => {},
            Err(error) => {
                self.status_message = message2(
                    "Invalid config: ",
                    error.message(font_size).as_str(),
                );
                return ;
            },
        }
        let watcher: PollingWatcher = match PollingWatcher::new(
            text::copy_texts(&self.config.tracked_files),
            self.config.max_line_len,
            today,
            snapshot,
        ) {
            Ok(watcher) => watcher,
            Err(reason) => {
                self.status_message = message2("Failed to initialize watcher: ", reason.as_str());
                return ;
            },
        };
        let rules: LineRules = match LineRules::new(
            self.config.blacklist_regex.as_slice(),
            self.config.whitelist_regex.as_slice(),
        ) {
            Ok(rules) => rules,
            Err(reason) => {
                self.status_message = message2(
                    "Failed to initialize regex rules: ",
                    reason.as_str(),
                );
                return ;
            },
        };
        let ghost before = self.events@;
        self.dropped = buffer::trim_front(
            &mut self.events,
            self.config.max_buffer_lines,
            self.dropped,
        );
        self.watcher = Some(watcher);
        self.rules = Some(rules);
        self.active_blacklist_regex = text::copy_texts(&self.config.blacklist_regex);
        self.active_whitelist_regex = text::copy_texts(&self.config.whitelist_regex);
        self.running = true;
        self.status_message = "Stream started (existing lines preserved)".to_owned();
        proof {
            let max = self.config.max_buffer_lines;
            let excess = if before.len() > max {
                before.len() - max
            } else {
                0
            };
            assert(display_views(self.events@) =~= display_views(before).skip(excess));
        }
    }

    /// Stops the stream.
    pub fn stop_stream(&mut self)
        requires
            old(self).config.wf(),
        ensures
            final(self).wf(),
            final(self)@ == old(self)@.stopped(),
    {
        self.running = false;
        self.watcher = None;
        self.rules = None;
        self.active_blacklist_regex.clear();
        self.active_whitelist_regex.clear();
        assert(self@.active_blacklist_regex =~= seq![]);
        assert(self@.active_whitelist_regex =~= seq![]);
    }

    /// Stops the stream and says so.
    pub fn stop_on_request(&mut self)
        requires
            old(self).wf(),
        ensures
            final(self).wf(),
            final(self)@ == old(self)@.stopped().with_status("Stream stopped"@),
    {
        self.stop_stream();
        self.status_message = "Stream stopped".to_owned();
    }

    /// Whether a poll is due, given the whole milliseconds since the last one.
    pub fn is_poll_due(&self, elapsed_ms: u64) -> (res: bool)
        ensures
            res == self@.poll_due(elapsed_ms),
    {
        self.running && elapsed_ms >= self.config.poll_interval_ms
    }

    /// How many milliseconds to wait until the next poll, given those since the last one.
    pub fn repaint_wait_ms(&self, elapsed_ms: u64) -> (res: u64)
        ensures
            res == (if elapsed_ms < self@.config.poll_interval_ms {
                self@.config.poll_interval_ms - elapsed_ms
            } else {
                0
            }),
    {
        if elapsed_ms < self.config.poll_interval_ms {
            self.config.poll_interval_ms - elapsed_ms
        } else {
            0
        }
    }

    /// Polls, where a poll is due; whether that changed what is shown.
    pub fn poll_if_due(
        &mut self,
        elapsed_ms: u64,
        today: CalendarDate,
        snapshot: &Snapshot,
        now: i64,
        utc_offset: Option<i32>,
    ) -> (res: bool)
        requires
            old(self).wf(),
            snapshot.wf(),
            utc_offset is Some ==> formatting::on_the_clock(now as int, utc_offset->0 as int),
        ensures
            final(self).wf(),
            (final(self)@, res) == (if old(self)@.poll_due(elapsed_ms) {
                old(self)@.polled(today, snapshot, now, utc_offset)
            } else {
                (old(self)@, false)
            }),
    {
        if !self.is_poll_due(elapsed_ms) {
            return false;
        }
        let mut watcher: PollingWatcher = match self.watcher.take() {
            Some(watcher) => watcher,
            None => {
                return false;
            },
        };
        let events: Vec<LogEvent> = match watcher.poll(today, snapshot, now) {
            Ok(events) => events,
            Err(reason) => {
                self.status_message = message2("Watcher error: ", reason.as_str());
                self.stop_stream();
                return true;
            },
        };
        proof {
            watcher_laws::events_carry_the_time_of_the_poll(
                old(self)@.watcher->0,
                today,
                snapshot,
                now,
            );
        }
        self.watcher = Some(watcher);
        let ghost all = tracking::event_views(events@);
        let (kept, suppressed) = match &self.rules {
            Some(rules) => rules.partition_events(events),
            None => {
                return false;
            },
        };
        proof {
            let views = tracking::event_views(kept@);
            flagged_at(all, (old(self)@.rules->0).flags(all), now);
            assert forall|i: int| 0 <= i < kept@.len() implies (#[trigger] kept@[i]).ts == now by {
                assert(views[i].ts == kept@[i].ts);
            }
        }
        self.take_in_events(kept, suppressed, utc_offset)
    }

    fn take_in_events(
        &mut self,
        kept: Vec<LogEvent>,
        suppressed: usize,
        utc_offset: Option<i32>,
    ) -> (res: bool)
        requires
            old(self).wf(),
            utc_offset is Some ==> forall|i: int|
                0 <= i < kept@.len() ==> formatting::on_the_clock(
                    (#[trigger] kept@[i]).ts as int,
                    utc_offset->0 as int,
                ),
        ensures
            final(self).wf(),
            ({
                let shown = all_displayed(tracking::event_views(kept@), utc_offset);
                let max = old(self)@.config.max_buffer_lines as nat;
                &&& final(self)@ == (GuiView {
                    events: buffer::capped(old(self)@.events, shown, max),
                    total_seen: buffer::counter(old(self)@.total_seen + shown.len()),
                    dropped: buffer::counter(
                        old(self)@.dropped + buffer::taken_out(old(self)@.events, shown, max),
                    ),
                    suppressed_by_rules: buffer::counter(
                        old(self)@.suppressed_by_rules + suppressed,
                    ),
                    ..old(self)@
                })
                &&& res == (suppressed > 0 || kept@.len() > 0)
            }),
    {
        let changed: bool = suppressed > 0 || kept.len() > 0;
        self.suppressed_by_rules = buffer::count(self.suppressed_by_rules, suppressed as u64);
        self.total_seen = buffer::count(self.total_seen, kept.len() as u64);
        let shown: Vec<DisplayEvent> = display_all(&kept, utc_offset);
        let ghost before = self.events@;
        let ghost new = shown@;
        let ghost max = self.config.max_buffer_lines as nat;
        proof {
            assert(display_views(new).len() == new.len());
            assert(all_displayed(tracking::event_views(kept@), utc_offset).len() == kept@.len());
        }
        self.dropped = buffer::push_capped(
            &mut self.events,
            shown,
            self.config.max_buffer_lines,
            self.dropped,
        );
        proof {
            assert(display_views(before + new) =~= display_views(before) + display_views(new));
            assert(display_views(self.events@) =~= buffer::capped(
                display_views(before),
                display_views(new),
                max,
            ));
        }
        changed
    }

    /// Puts edited patterns to use while the stream runs.
    pub fn maybe_reload_rules_while_running(&mut self)
        requires
            old(self).wf(),
        ensures
            final(self).wf(),
            final(self)@ == old(self)@.with_edited_rules(),
    {
        if !self.running {
            return ;
        }
        if same_texts(&self.config.blacklist_regex, &self.active_blacklist_regex) && same_texts(
            &self.config.whitelist_regex,
            &self.active_whitelist_regex,
        ) {
            return ;
        }
        match LineRules::new(
            self.config.blacklist_regex.as_slice(),
            self.config.whitelist_regex.as_slice(),
        ) {
            Ok(rules) => {
                self.rules = Some(rules);
                self.active_blacklist_regex = text::copy_texts(&self.config.blacklist_regex);
                self.active_whitelist_regex = text::copy_texts(&self.config.whitelist_regex);
                self.status_message = "Applied updated regex rules".to_owned();
            },
            Err(reason) => {
                self.status_message = message2("Regex update failed: ", reason.as_str());
            },
        }
    }

    /// Clears what is shown.
    pub fn clear_displayed_logs(&mut self)
        requires
            old(self).wf(),
        ensures
            final(self).wf(),
            final(self)@ == (GuiView {
                events: seq![],
                total_seen: 0,
                dropped: 0,
                suppressed_by_rules: 0,
                status_message: "Cleared displayed log output"@,
                ..old(self)@
            }),
    {
        self.events = VecDeque::new();
        self.total_seen = 0;
        self.dropped = 0;
        self.suppressed_by_rules = 0;
        self.status_message = "Cleared displayed log output".to_owned();
        assert(self@.events =~= seq![]);
    }

    /// The sources among which one can choose, in order, each once.
    pub fn available_sources(&self) -> (res: Vec<String>)
        ensures
            text::texts(res@) == order::ascending_texts(self@.source_names()),
            order::strictly_ascending(text::texts(res@)),
            text::texts(res@).to_set() == self@.source_names().to_set(),
    {
        let mut names: Vec<String> = Vec::new();
        let ghost labels = ui::source_labels(self@.config.tracked_files);
        let ghost sources = self@.events.map_values(|event: DisplayView| event.source);
        let mut i: usize = 0;
        while i < self.config.tracked_files.len()
            invariant
                labels == ui::source_labels(self@.config.tracked_files),
                i <= self.config.tracked_files@.len(),
                names@.len() == i,
                forall|j: int| 0 <= j < i ==> #[trigger] names@[j]@ == labels[j],
            decreases self.config.tracked_files@.len() - i,
        {
            names.push(paths::label(self.config.tracked_files[i].as_str()));
            i = i + 1;
        }
        assert(text::texts(names@) =~= labels + sources.take(0));
        let mut k: usize = 0;
        while k < self.events.len()
            invariant
                sources == self@.events.map_values(|event: DisplayView| event.source),
                k <= self.events@.len(),
                text::texts(names@) == labels + sources.take(k as int),
            decreases self.events@.len() - k,
        {
            let ghost before = text::texts(names@);
            names.push(self.events[k].source.clone());
            proof {
                assert(text::texts(names@) =~= before.push(self.events@[k as int].source@));
                assert(labels + sources.take(k + 1) =~= before.push(sources[k as int]));
            }
            k = k + 1;
        }
        assert(sources.take(k as int) =~= sources);
        order::sort_distinct(&names)
    }

    /// Whether the event passes the filters, given the text filter in lower case where that is what
    /// counts.
    pub fn display_matches_filters(
        &self,
        event: &DisplayEvent,
        lower_text_filter: &Option<String>,
    ) -> (res: bool)
        ensures
            res == self@.accepts(event@, optional(*lower_text_filter)),
    {
        match &self.source_filter {
            Some(source) => {
                if *source != event.source {
                    return false;
                }
            },
            None => {},
        }
        if self.text_filter.as_str().unicode_len() == 0 {
            return true;
        }
        match lower_text_filter {
            Some(needle) => text::contains(event.line_lower.as_str(), needle.as_str()),
            None => text::contains(event.line.as_str(), self.text_filter.as_str()),
        }
    }

    /// The lines that are shown.
    pub fn visible_lines(&self) -> (res: Vec<String>)
        ensures
            text::texts(res@) == self@.visible(),
    {
        let folded: Option<String> = if self.config.case_insensitive_text_filter
            && self.text_filter.as_str().unicode_len() > 0 {
            Some(text::lowercase(self.text_filter.as_str()))
        } else {
            None
        };
        assert(optional(folded) == self@.folded_filter());
        let ghost all = self@.events;
        let mut res: Vec<String> = Vec::new();
        let mut i: usize = 0;
        assert(all.take(0) =~= seq![]);
        assert(text::texts(res@) =~= seq![]);
        while i < self.events.len()
            invariant
                optional(folded) == self@.folded_filter(),
                all == self@.events,
                i <= self.events@.len(),
                text::texts(res@) == self@.lines_of(all.take(i as int)),
            decreases self.events@.len() - i,
        {
            let ghost before = text::texts(res@);
            proof {
                assert(all.take(i + 1).drop_last() =~= all.take(i as int));
                assert(all.take(i + 1).last() == self.events@[i as int]@);
            }
            if self.display_matches_filters(&self.events[i], &folded) {
                if self.config.show_timestamps {
                    res.push(self.events[i].with_ts.clone());
                    assert(text::texts(res@) =~= before.push(self.events@[i as int].with_ts@));
                } else {
                    res.push(self.events[i].without_ts.clone());
                    assert(text::texts(res@) =~= before.push(self.events@[i as int].without_ts@));
                }
            }
            i = i + 1;
        }
        assert(all.take(i as int) =~= all);
        res
    }

    /// How many lines are shown, and their text with line feeds between them.
    pub fn visible_log_copy_payload(&self) -> (res: (usize, String))
        ensures
            res.0 == self@.visible().len(),
            res.1@ == text::separated(self@.visible(), "\n"@),
    {
        let lines: Vec<String> = self.visible_lines();
        assert(text::texts(lines@).len() == lines@.len());
        (lines.len(), text::join_texts(&lines, "\n"))
    }

    /// The text to copy, where lines are shown; a message says how many.
    pub fn copy_visible(&mut self) -> (res: Option<String>)
        requires
            old(self).wf(),
        ensures
            final(self).wf(),
            optional(res) == (if old(self)@.visible().len() == 0 {
                None
            } else {
                Some(text::separated(old(self)@.visible(), "\n"@))
            }),
            final(self)@ == old(self)@.with_status(
                if old(self)@.visible().len() == 0 {
                    "No visible log lines to copy"@
                } else {
                    "Copied "@ + text::decimal(old(self)@.visible().len())
                        + " visible log lines to clipboard"@
                },
            ),
    {
        let (count, payload) = self.visible_log_copy_payload();
        if count == 0 {
            self.status_message = "No visible log lines to copy".to_owned();
            None
        } else {
            self.status_message = text::concat3(
                "Copied ",
                text::decimal_text(count as u64).as_str(),
                " visible log lines to clipboard",
            );
            Some(payload)
        }
    }

    /// Removes the filters.
    pub fn clear_filters(&mut self)
        requires
            old(self).wf(),
        ensures
            final(self).wf(),
            final(self)@ == (GuiView { text_filter: seq![], source_filter: None, ..old(self)@ }),
    {
        self.text_filter = String::new();
        self.source_filter = None;
        assert(self@.text_filter =~= seq![]);
    }

    /// Chooses a colour scheme, and says so where it is another one.
    pub fn choose_theme(&mut self, theme: GuiTheme)
        requires
            old(self).wf(),
        ensures
            final(self).wf(),
            final(self)@ == (GuiView {
                config: ConfigView {
                    gui_theme: theme,
                    gui_light_mode: theme.light(),
                    ..old(self)@.config
                },
                status_message: if theme != old(self)@.config.gui_theme {
                    "Theme: "@ + theme.shown_name()
                } else {
                    old(self)@.status_message
                },
                ..old(self)@
            }),
    {
        if theme != self.config.gui_theme {
            self.status_message = message2("Theme: ", theme.display_name());
        }
        self.config.gui_theme = theme;
        self.config.gui_light_mode = theme.is_light();
    }

    /// The help for the start is shown: nothing runs, and there is nothing to show.
    pub fn shows_startup_help(&self) -> (res: bool)
        ensures
            res == (!self@.running && self@.events.len() == 0),
    {
        !self.running && self.events.len() == 0
    }

    /// The label of the button that shows or hides the configuration.
    pub fn panel_button_label(&self) -> (res: &'static str)
        ensures
            res@ == (if self@.config_panel_visible {
                "Hide Configuration"@
            } else {
                "Show Configuration"@
            }),
    {
        if self.config_panel_visible {
            "Hide Configuration"
        } else {
            "Show Configuration"
        }
    }

    /// The label of the file of the configuration.
    pub fn config_file_label(&self) -> (res: String)
        ensures
            res@ == (match self@.config_path {
                Some(path) => "File: "@ + path,
                None => "File: (unsaved)"@,
            }),
    {
        match &self.config_path {
            Some(path) => message2("File: ", path.as_str()),
            None => "File: (unsaved)".to_owned(),
        }
    }

    /// The counters in words.
    pub fn status_labels(&self) -> (res: Vec<String>)
        ensures
            text::texts(res@) == seq![
                "mode="@ + (if self@.running {
                    "live"@
                } else {
                    "stopped"@
                }),
                "seen="@ + text::decimal(self@.total_seen as nat),
                "dropped(buffer)="@ + text::decimal(self@.dropped as nat),
                "suppressed(regex)="@ + text::decimal(self@.suppressed_by_rules as nat),
                "retained="@ + text::decimal(self@.events.len()),
            ],
    {
        let mut res: Vec<String> = Vec::new();
        res.push(
            message2(
                "mode=",
                if self.running {
                    "live"
                } else {
                    "stopped"
                },
            ),
        );
        res.push(message2("seen=", text::decimal_text(self.total_seen).as_str()));
        res.push(message2("dropped(buffer)=", text::decimal_text(self.dropped).as_str()));
        res.push(
            message2(
                "suppressed(regex)=",
                text::decimal_text(self.suppressed_by_rules).as_str(),
            ),
        );
        res.push(message2("retained=", text::decimal_text(self.events.len() as u64).as_str()));
        assert(text::texts(res@) =~= seq![
            "mode="@ + (if self@.running {
                "live"@
            } else {
                "stopped"@
            }),
            "seen="@ + text::decimal(self@.total_seen as nat),
            "dropped(buffer)="@ + text::decimal(self@.dropped as nat),
            "suppressed(regex)="@ + text::decimal(self@.suppressed_by_rules as nat),
            "retained="@ + text::decimal(self@.events.len()),
        ]);
        res
    }
}

proof fn flagged_at(events: Seq<LogEventView>, flags: Seq<bool>, now: i64)
    requires
        watcher_laws::all_at(events, now),
    ensures
        watcher_laws::all_at(line_rules::flagged(events, flags), now),
    decreases events.len(),
{
    if events.len() > 0 {
        let front = events.drop_last();
        assert forall|i: int| 0 <= i < front.len() implies (#[trigger] front[i]).ts == now by {
            assert(front[i] == events[i]);
        }
        flagged_at(front, flags, now);
        assert(events[events.len() - 1].ts == now);
    }
}

proof fn without_path_holds_no_such(list: Seq<Seq<char>>, path: Seq<char>)
    ensures
        !resolver::lists_path(without_path(list, path), path),
        without_path(list, path).len() <= list.len(),
    decreases list.len(),
{
    if list.len() > 0 {
        without_path_holds_no_such(list.drop_last(), path);
        let front = without_path(list.drop_last(), path);
        let all = without_path(list, path);
        if resolver::lists_path(all, path) {
            let i = choose|i: int|
                0 <= i < all.len() && paths::same_path(#[trigger] all[i], path);
            if i < front.len() {
                assert(paths::same_path(front[i], path));
            }
        }
    }
}

proof fn first_is_taken_out(rest: Seq<Seq<char>>, path: Seq<char>)
    requires
        !resolver::lists_path(rest, path),
    ensures
        without_path(seq![path] + rest, path) == rest,
    decreases rest.len(),
{
    let list = seq![path] + rest;
    if rest.len() == 0 {
        assert(list =~= seq![path]);
        assert(list.drop_last() =~= seq![]);
        assert(without_path(list.drop_last(), path) =~= seq![]);
        assert(rest =~= seq![]);
    } else {
        let front = rest.drop_last();
        assert(!resolver::lists_path(front, path)) by {
            if resolver::lists_path(front, path) {
                let i = choose|i: int|
                    0 <= i < front.len() && paths::same_path(#[trigger] front[i], path);
                assert(paths::same_path(rest[i], path));
            }
        }
        first_is_taken_out(front, path);
        assert(list.drop_last() =~= seq![path] + front);
        assert(list.last() == rest.last());
        assert(!paths::same_path(rest[rest.len() - 1], path));
        assert(front.push(rest.last()) =~= rest);
    }
}

/// The configuration that was used last comes first, once, among no more than are remembered; and
/// using it again changes nothing.
pub proof fn last_used_config_comes_first(view: GuiView, path: Seq<char>)
    ensures
        view.with_recent(path).recent_configs.len() <= MAX_RECENT_CONFIGS,
        view.with_recent(path).recent_configs[0] == path,
        !resolver::lists_path(view.with_recent(path).recent_configs.skip(1), path),
        view.with_recent(path).with_recent(path) == view.with_recent(path),
{
    let others = without_path(view.recent_configs, path);
    let max = MAX_RECENT_CONFIGS as int;
    let recent = view.with_recent(path).recent_configs;
    without_path_holds_no_such(view.recent_configs, path);
    let rest = recent.skip(1);
    assert(recent =~= seq![path] + rest);
    assert(!resolver::lists_path(rest, path)) by {
        if resolver::lists_path(rest, path) {
            let i = choose|i: int| 0 <= i < rest.len() && paths::same_path(#[trigger] rest[i], path);
            assert(rest[i] == others[i]);
            assert(paths::same_path(others[i], path));
        }
    }
    first_is_taken_out(rest, path);
    assert(view.with_recent(path).with_recent(path).recent_configs =~= recent);
}

/// Configurations that were found go behind those that are remembered, which stay as they were; and
/// none comes in that is there already.
pub proof fn discovered_configs_go_behind(list: Seq<Seq<char>>, discovered: Seq<Seq<char>>)
    ensures
        list.is_prefix_of(with_discovered(list, discovered)),
        resolver::paths_differ(list) ==> resolver::paths_differ(
            with_discovered(list, discovered),
        ),
    decreases discovered.len(),
{
    if discovered.len() > 0 {
        discovered_configs_go_behind(list, discovered.drop_last());
        let before = with_discovered(list, discovered.drop_last());
        let after = with_discovered(list, discovered);
        let path = discovered.last();
        if !resolver::lists_path(before, path) && resolver::paths_differ(list) {
            assert forall|i: int, j: int| 0 <= i < j < after.len() implies !paths::same_path(
                #[trigger] after[i],
                #[trigger] after[j],
            ) by {
                assert(after[i] == before[i]);
                if j < before.len() {
                    assert(after[j] == before[j]);
                } else if paths::same_path(before[i], path) {
                    assert(resolver::lists_path(before, path));
                }
            }
        }
    } else {
        assert(with_discovered(list, discovered) =~= list);
    }
}

proof fn nonempty_holds_no_empty(list: Seq<Seq<char>>, i: int)
    requires
        0 <= i < nonempty(list).len(),
    ensures
        nonempty(list)[i].len() > 0,
    decreases list.len(),
{
    let front = nonempty(list.drop_last());
    if i < front.len() {
        nonempty_holds_no_empty(list.drop_last(), i);
    }
}

proof fn distinct_paths_come_from(list: Seq<Seq<char>>, i: int)
    requires
        0 <= i < resolver::distinct_paths(list).len(),
    ensures
        list.contains(resolver::distinct_paths(list)[i]),
    decreases list.len(),
{
    let front = resolver::distinct_paths(list.drop_last());
    if i < front.len() {
        distinct_paths_come_from(list.drop_last(), i);
        let k = choose|k: int|
            0 <= k < list.drop_last().len() && list.drop_last()[k] == front[i];
        assert(list[k] == front[i]);
    } else {
        assert(list[list.len() - 1] == list.last());
    }
}

/// Of what was stored, no more is remembered than there is room for, nothing twice, and no empty
/// path.
pub proof fn remembered_configs_are_distinct(stored: Seq<Seq<char>>)
    ensures
        ({
            let kept = resolver::first_entries(
                resolver::distinct_paths(nonempty(stored)),
                MAX_RECENT_CONFIGS as nat,
            );
            &&& kept.len() <= MAX_RECENT_CONFIGS
            &&& resolver::paths_differ(kept)
            &&& forall|i: int| 0 <= i < kept.len() ==> (#[trigger] kept[i]).len() > 0
        }),
{
    let all = resolver::distinct_paths(nonempty(stored));
    let kept = resolver::first_entries(all, MAX_RECENT_CONFIGS as nat);
    resolver::distinct_paths_keep_each_once(nonempty(stored));
    assert forall|i: int, j: int| 0 <= i < j < kept.len() implies !paths::same_path(
        #[trigger] kept[i],
        #[trigger] kept[j],
    ) by {
        assert(kept[i] == all[i] && kept[j] == all[j]);
    }
    assert forall|i: int| 0 <= i < kept.len() implies (#[trigger] kept[i]).len() > 0 by {
        assert(kept[i] == all[i]);
        distinct_paths_come_from(nonempty(stored), i);
        let k = choose|k: int| 0 <= k < nonempty(stored).len() && nonempty(stored)[k] == all[i];
        nonempty_holds_no_empty(stored, k);
    }
}

proof fn every_line_passes(view: GuiView, events: Seq<DisplayView>)
    requires
        view.text_filter.len() == 0,
        view.source_filter is None,
    ensures
        view.lines_of(events).len() == events.len(),
    decreases events.len(),
{
    if events.len() > 0 {
        every_line_passes(view, events.drop_last());
    }
}

/// Without a filter every line is shown.
pub proof fn no_filter_shows_every_line(view: GuiView)
    requires
        view.text_filter.len() == 0,
        view.source_filter is None,
    ensures
        view.visible().len() == view.events.len(),
{
    every_line_passes(view, view.events);
}

/// A stream that starts keeps the lines that are shown, as far as there is room for them.
pub proof fn start_preserves_lines(
    view: GuiView,
    date: CalendarDate,
    snapshot: &Snapshot,
    font_size: Seq<char>,
)
    requires
        view.events.len() <= view.config.max_buffer_lines,
    ensures
        view.begun(date, snapshot, font_size).events == view.events,
        view.begun(date, snapshot, font_size).total_seen == view.total_seen,
        view.begun(date, snapshot, font_size).dropped == view.dropped,
{
    assert(view.events.skip(0) =~= view.events);
    assert(buffer::counter(view.dropped as int) == view.dropped);
    match view.config.error() {
        Some(_) => {},
        None => match watcher::started(
            view.config.tracked_files,
            Map::empty(),
            view.config.max_line_len as nat,
            date,
            snapshot,
        ) {
            Err(_) => {},
            Ok(_) => {},
        },
    }
}

/// Patterns that have been put to use are not put to use again.
pub proof fn edited_rules_are_applied_once(view: GuiView)
    requires
        line_rules::rules_of(view.config.blacklist_regex, view.config.whitelist_regex) is Ok,
    ensures
        view.with_edited_rules().with_edited_rules() == view.with_edited_rules(),
{
}

} // verus!
