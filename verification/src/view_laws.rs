//! How contracts read the values that they speak of: field by field and entry by entry.

use crate::cli::CliArgs;
use crate::config;
use crate::config::AppConfig;
use crate::config::GuiTheme;
use crate::dates::CalendarDate;
use crate::enabled_files;
use crate::gui;
use crate::gui::DisplayEvent;
use crate::gui::GuiState;
use crate::line_rules;
use crate::order;
use crate::order::Order;
use crate::paths;
use crate::resolver;
use crate::snapshot::DirOutcome;
use crate::snapshot::DirOutcomeView;
use crate::snapshot::ReadOutcome;
use crate::snapshot::ReadOutcomeView;
use crate::snapshot::Snapshot;
use crate::text;
use crate::tracking;
use crate::tracking::FileView;
use crate::tracking::LogEvent;
use crate::tracking::LogEventView;
use crate::ui;
use crate::ui::StyledLine;
use crate::ui::TuiState;
use crate::watcher;
use crate::watcher::PathView;
use crate::watcher::ReadRequest;
use crate::watcher::TrackedPathDescriptor;
use crate::watcher::TrackedResolvedFileDescriptor;
use crate::wildcard;
use crate::wildcard::WildcardPlanView;
use vstd::prelude::*;

verus! {

/// The command line is read as it was given.
pub proof fn command_line_is_read_as_given(cli: CliArgs)
    ensures
        cli@.poll_ms == cli.poll_ms,
        cli@.max_buffer_lines == cli.max_buffer_lines,
        cli@.max_line_len == cli.max_line_len,
        cli@.show_timestamps == cli.show_timestamps,
        cli@.no_timestamps == cli.no_timestamps,
        cli@.print_config_only == cli.print_config_only,
        cli@.headless == cli.headless,
        cli@.gui == cli.gui,
        cli@.case_insensitive_filter == cli.case_insensitive_filter,
        cli@.case_sensitive_filter == cli.case_sensitive_filter,
        cli@.blacklist_regex == cli.blacklist_regex@.map_values(|s: String| s@),
        cli@.whitelist_regex == cli.whitelist_regex@.map_values(|s: String| s@),
        cli@.files == cli.files@.map_values(|s: String| s@),
        cli@.config is Some == cli.config is Some,
        cli.config is Some ==> cli@.config->0 == cli.config->0@,
{
}

/// Settings are read as they are.
pub proof fn settings_are_read_as_they_are(settings: AppConfig)
    ensures
        settings@.poll_interval_ms == settings.poll_interval_ms,
        settings@.tracked_files == settings.tracked_files@.map_values(|s: String| s@),
        settings@.tracked_file_enabled == settings.tracked_file_enabled.listing(),
        settings@.max_buffer_lines == settings.max_buffer_lines,
        settings@.max_line_len == settings.max_line_len,
        settings@.show_timestamps == settings.show_timestamps,
        settings@.gui_light_mode == settings.gui_light_mode,
        settings@.gui_theme == settings.gui_theme,
        settings@.gui_word_wrap == settings.gui_word_wrap,
        settings@.gui_font_size == settings.gui_font_size,
        settings@.case_insensitive_text_filter == settings.case_insensitive_text_filter,
        settings@.blacklist_regex == settings.blacklist_regex@.map_values(|s: String| s@),
        settings@.whitelist_regex == settings.whitelist_regex@.map_values(|s: String| s@),
{
}

/// Events are read as they are, one by one.
pub proof fn events_are_read_one_by_one(events: Seq<LogEvent>)
    ensures
        tracking::event_views(events).len() == events.len(),
        forall|i: int|
            0 <= i < events.len() ==> #[trigger] tracking::event_views(events)[i] == (
            LogEventView { ts: events[i].ts, source: events[i].source@, line: events[i].line@ }),
{
}

/// The terminal interface is read as it is.
pub proof fn interface_is_read_as_it_is(state: TuiState)
    ensures
        state@.events == tracking::event_views(state.events@),
        state@.total_events_seen == state.total_events_seen,
        state@.dropped_events == state.dropped_events,
        state@.suppressed_by_rules == state.suppressed_by_rules,
        state@.paused == state.paused,
        state@.scroll_offset == state.scroll_offset,
        state@.sources == state.sources@.map_values(|s: String| s@),
        state@.tracked_files == state.tracked_files@.map_values(|s: String| s@),
        state@.status_message == state.status_message@,
        state@.active_source_filter_idx == state.active_source_filter_idx,
        state@.text_filter == state.text_filter@,
        state@.text_filter_folded == state.text_filter_folded@,
        state@.case_insensitive_text_filter == state.case_insensitive_text_filter,
        state@.active_theme == state.active_theme,
        state@.theme_picker_idx == state.theme_picker_idx,
        state@.search_input == state.search_input@,
        state@.add_file_input == state.add_file_input@,
        state@.pending_add_tracked_file is Some == state.pending_add_tracked_file is Some,
        state.pending_add_tracked_file is Some ==> state@.pending_add_tracked_file->0
            == state.pending_add_tracked_file->0@,
        state@.save_requested == state.save_requested,
        state@.input_mode == state.input_mode,
{
}

/// The window is read as it is.
pub proof fn window_is_read_as_it_is(state: GuiState)
    ensures
        state@.config == state.config@,
        state@.config_path is Some == state.config_path is Some,
        state.config_path is Some ==> state@.config_path->0 == state.config_path->0@,
        state@.recent_configs == state.recent_configs@.map_values(|s: String| s@),
        state@.status_message == state.status_message@,
        state@.events == gui::display_views(state.events@),
        state@.total_seen == state.total_seen,
        state@.dropped == state.dropped,
        state@.suppressed_by_rules == state.suppressed_by_rules,
        state@.running == state.running,
        state@.watcher is Some == state.watcher is Some,
        state.watcher is Some ==> state@.watcher->0 == state.watcher->0@,
        state@.rules is Some == state.rules is Some,
        state.rules is Some ==> state@.rules->0 == state.rules->0@,
        state@.active_blacklist_regex == state.active_blacklist_regex@.map_values(|s: String| s@),
        state@.active_whitelist_regex == state.active_whitelist_regex@.map_values(|s: String| s@),
        state@.text_filter == state.text_filter@,
        state@.source_filter is Some == state.source_filter is Some,
        state.source_filter is Some ==> state@.source_filter->0 == state.source_filter->0@,
        state@.config_panel_visible == state.config_panel_visible,
{
}

/// Lines that are shown are read as they are, one by one.
pub proof fn shown_lines_are_read_one_by_one(events: Seq<DisplayEvent>, lines: Seq<StyledLine>)
    ensures
        gui::display_views(events).len() == events.len(),
        forall|i: int|
            0 <= i < events.len() ==> {
                let shown = #[trigger] gui::display_views(events)[i];
                &&& shown.source == events[i].source@
                &&& shown.line == events[i].line@
                &&& shown.line_lower == events[i].line_lower@
                &&& shown.with_ts == events[i].with_ts@
                &&& shown.without_ts == events[i].without_ts@
            },
        ui::line_views(lines).len() == lines.len(),
        forall|i: int|
            0 <= i < lines.len() ==> {
                let shown = #[trigger] ui::line_views(lines)[i];
                &&& shown.text == lines[i].text@
                &&& shown.fg == lines[i].fg
                &&& shown.bg == lines[i].bg
                &&& shown.bold == lines[i].bold
            },
{
}

/// What was seen of the file system is read as it was recorded.
pub proof fn outcomes_are_read_as_recorded(dir: DirOutcome, read: ReadOutcome)
    ensures
        match dir {
            DirOutcome::Entries(entries) => {
                &&& dir@ is Entries
                &&& (dir@->Entries_0).len() == entries@.len()
                &&& forall|i: int|
                    0 <= i < entries@.len() ==> {
                        let entry = #[trigger] (dir@->Entries_0)[i];
                        entry.name == entries@[i].name@ && entry.is_file == entries@[i].is_file
                    }
            },
            DirOutcome::Missing => dir@ == DirOutcomeView::Missing,
            DirOutcome::Failed(reason) => dir@ == DirOutcomeView::Failed(reason@),
        },
        match read {
            ReadOutcome::Bytes(bytes) => read@ == ReadOutcomeView::Bytes(bytes@),
            ReadOutcome::OpenFailed => read@ == ReadOutcomeView::OpenFailed,
            ReadOutcome::SeekFailed => read@ == ReadOutcomeView::SeekFailed,
            ReadOutcome::ReadFailed => read@ == ReadOutcomeView::ReadFailed,
        },
{
}

/// What is asked for is read as it is, one by one.
pub proof fn requests_are_read_one_by_one(
    requests: Seq<ReadRequest>,
    files: Seq<FileView>,
    states: Seq<PathView>,
)
    ensures
        watcher::request_views(requests).len() == requests.len(),
        forall|i: int|
            0 <= i < requests.len() ==> #[trigger] watcher::request_views(requests)[i] == (
                requests[i].path@,
                requests[i].offset,
            ),
        watcher::file_paths(files) == files.map_values(|file: FileView| file.path),
        watcher::raw_paths_of(states) == states.map_values(|state: PathView| state.raw),
{
}

/// The description of a tracked path gives the path, whether it stands for several files or for
/// another each day, and its files in the order of paths, each with its label, whether it is
/// switched on and whether it is followed.
pub proof fn description_gives_every_file(
    descriptor: TrackedPathDescriptor,
    state: PathView,
    date: CalendarDate,
    enabled: Map<Seq<Seq<char>>, bool>,
    snapshot: &Snapshot,
)
    requires
        descriptor.describes(state, date, enabled, snapshot),
    ensures
        descriptor.raw_path@ == state.raw,
        descriptor.is_dynamic == resolver::dynamic(state.raw),
        descriptor.resolved_files@.map_values(
            |file: TrackedResolvedFileDescriptor| file.path@,
        ).to_multiset() == state.shown(date, snapshot).to_multiset(),
        forall|i: int, j: int|
            0 <= i < j < descriptor.resolved_files@.len() ==> order::components_le(
                paths::path_components((#[trigger] descriptor.resolved_files@[i]).path@),
                paths::path_components((#[trigger] descriptor.resolved_files@[j]).path@),
            ),
        forall|i: int|
            0 <= i < descriptor.resolved_files@.len() ==> {
                let file = #[trigger] descriptor.resolved_files@[i];
                &&& file.source_label@ == paths::path_label(file.path@)
                &&& file.enabled == watcher::file_enabled(enabled, file.path@)
                &&& file.active == exists|k: int|
                    0 <= k < state.active.len() && paths::same_path(
                        (#[trigger] state.active[k]).path,
                        file.path@,
                    )
            },
{
    let list = watcher::descriptor_paths(descriptor.resolved_files@);
    assert(list =~= descriptor.resolved_files@.map_values(
        |file: TrackedResolvedFileDescriptor| file.path@,
    ));
    assert forall|i: int, j: int|
        0 <= i < j < descriptor.resolved_files@.len() implies order::components_le(
        paths::path_components((#[trigger] descriptor.resolved_files@[i]).path@),
        paths::path_components((#[trigger] descriptor.resolved_files@[j]).path@),
    ) by {
        assert(Order::Path.le(list[i], list[j]));
    }
    assert forall|i: int| 0 <= i < descriptor.resolved_files@.len() implies {
        let file = #[trigger] descriptor.resolved_files@[i];
        file.active == exists|k: int|
            0 <= k < state.active.len() && paths::same_path(
                (#[trigger] state.active[k]).path,
                file.path@,
            )
    } by {
        crate::poll_laws::file_at_is_found_exactly_when(
            state.active,
            descriptor.resolved_files@[i].path@,
        );
    }
}

/// A list in strict order holds nothing twice, and everything in its place.
pub proof fn strict_order_repeats_nothing(list: Seq<Seq<char>>, i: int, j: int)
    requires
        order::strictly_ascending(list),
        0 <= i < j < list.len(),
    ensures
        order::text_le(list[i], list[j]),
        !order::text_le(list[j], list[i]),
{
    if order::text_le(list[j], list[i]) {
        order::text_order_antisymmetric(list[i], list[j]);
    }
}

/// A list in order has every entry before those that come after it.
pub proof fn order_is_kept_throughout(order: Order, list: Seq<Seq<char>>, i: int, j: int)
    requires
        order.sorted(list),
        0 <= i <= j < list.len(),
    ensures
        order is Text ==> order::text_le(list[i], list[j]),
        order is Path ==> order::components_le(
            paths::path_components(list[i]),
            paths::path_components(list[j]),
        ),
{
    assert(order.le(list[i], list[j]));
}

/// A path is listed where an entry has its components, and paths differ where no two have the same.
pub proof fn listing_is_told_by_components(list: Seq<Seq<char>>, path: Seq<char>)
    ensures
        resolver::lists_path(list, path) == exists|i: int|
            0 <= i < list.len() && paths::path_components(#[trigger] list[i])
                == paths::path_components(path),
        resolver::paths_differ(list) == forall|i: int, j: int|
            0 <= i < j < list.len() ==> paths::path_components(#[trigger] list[i])
                != paths::path_components(#[trigger] list[j]),
{
    if resolver::lists_path(list, path) {
        let i = choose|i: int| 0 <= i < list.len() && paths::same_path(#[trigger] list[i], path);
        assert(paths::path_components(list[i]) == paths::path_components(path));
    }
    if exists|i: int|
        0 <= i < list.len() && paths::path_components(#[trigger] list[i])
            == paths::path_components(path) {
        let i = choose|i: int|
            0 <= i < list.len() && paths::path_components(#[trigger] list[i])
                == paths::path_components(path);
        assert(paths::same_path(list[i], path));
    }
    if resolver::paths_differ(list) {
        assert forall|i: int, j: int| 0 <= i < j < list.len() implies paths::path_components(
            #[trigger] list[i],
        ) != paths::path_components(#[trigger] list[j]) by {
            assert(!paths::same_path(list[i], list[j]));
        }
    }
}

/// The first entries of a list are as many as are asked for, or all of them.
pub proof fn first_entries_are_the_first(list: Seq<Seq<char>>, max: nat)
    ensures
        resolver::first_entries(list, max).is_prefix_of(list),
        resolver::first_entries(list, max).len() == if list.len() < max {
            list.len()
        } else {
            max
        },
{
    let first = resolver::first_entries(list, max);
    assert(first =~= list.subrange(0, first.len() as int));
}

/// Of events with flags those stay whose flag is set, each in its turn.
pub proof fn flagged_events_stay(events: Seq<LogEventView>, next: LogEventView, flags: Seq<bool>)
    requires
        events.len() < flags.len(),
    ensures
        line_rules::flagged(Seq::empty(), flags) == Seq::<LogEventView>::empty(),
        line_rules::flagged(events + seq![next], flags) == if flags[events.len() as int] {
            line_rules::flagged(events, flags) + seq![next]
        } else {
            line_rules::flagged(events, flags)
        },
{
    let all = events + seq![next];
    assert(all.drop_last() =~= events);
    assert(line_rules::flagged(events, flags).push(next) =~= line_rules::flagged(events, flags)
        + seq![next]);
}

/// A text filter lets a line through where it is empty or stands somewhere in the line, both in
/// lower case where case is not told apart.
pub proof fn filter_stands_somewhere(
    line: Seq<char>,
    folded_line: Seq<char>,
    filter: Seq<char>,
    folded_filter: Seq<char>,
    insensitive: bool,
)
    ensures
        filter.len() == 0 ==> ui::filter_accepts(
            line,
            folded_line,
            filter,
            folded_filter,
            insensitive,
        ),
        filter.len() > 0 && insensitive ==> ui::filter_accepts(
            line,
            folded_line,
            filter,
            folded_filter,
            insensitive,
        ) == exists|before: Seq<char>, behind: Seq<char>|
            folded_line == #[trigger] (before + folded_filter + behind),
        filter.len() > 0 && !insensitive ==> ui::filter_accepts(
            line,
            folded_line,
            filter,
            folded_filter,
            insensitive,
        ) == exists|before: Seq<char>, behind: Seq<char>|
            line == #[trigger] (before + filter + behind),
{
    crate::screen_laws::standing_is_between(folded_line, folded_filter);
    crate::screen_laws::standing_is_between(line, filter);
}

/// The same in the window, whatever text stands for the filter in lower case.
pub proof fn window_filter_stands_somewhere(
    view: gui::GuiView,
    event: gui::DisplayView,
    folded: Option<Seq<char>>,
)
    ensures
        view.accepts(event, folded) == ({
            &&& view.source_filter is None || view.source_filter->0 == event.source
            &&& view.text_filter.len() == 0 || match folded {
                Some(needle) => exists|before: Seq<char>, behind: Seq<char>|
                    event.line_lower == #[trigger] (before + needle + behind),
                None => exists|before: Seq<char>, behind: Seq<char>|
                    event.line == #[trigger] (before + view.text_filter + behind),
            }
        }),
{
    if folded is Some {
        crate::screen_laws::standing_is_between(event.line_lower, folded->0);
    }
    crate::screen_laws::standing_is_between(event.line, view.text_filter);
}

/// Of several entries under the same text the last one counts.
pub proof fn last_entry_of_a_text_counts(listing: Seq<(Seq<char>, bool)>, k: int)
    requires
        0 <= k < listing.len(),
        forall|i: int| k < i < listing.len() ==> (#[trigger] listing[i]).0 != listing[k].0,
    ensures
        enabled_files::table_of(listing).dom().contains(listing[k].0),
        enabled_files::table_of(listing)[listing[k].0] == listing[k].1,
    decreases listing.len(),
{
    let front = listing.drop_last();
    let last: int = listing.len() - 1;
    assert(listing[last] == listing.last());
    if k < last {
        assert(front[k] == listing[k]);
        assert forall|i: int| k < i < front.len() implies (#[trigger] front[i]).0
            != front[k].0 by {
            assert(front[i] == listing[i]);
        }
        last_entry_of_a_text_counts(front, k);
        assert(listing[last].0 != listing[k].0);
    }
}

/// A text without an entry has none.
pub proof fn text_without_an_entry_has_none(listing: Seq<(Seq<char>, bool)>, path: Seq<char>)
    requires
        forall|i: int| 0 <= i < listing.len() ==> (#[trigger] listing[i]).0 != path,
    ensures
        !enabled_files::table_of(listing).dom().contains(path),
    decreases listing.len(),
{
    if listing.len() > 0 {
        let front = listing.drop_last();
        assert(listing[listing.len() - 1].0 != path);
        assert forall|i: int| 0 <= i < front.len() implies (#[trigger] front[i]).0 != path by {
            assert(front[i] == listing[i]);
        }
        text_without_an_entry_has_none(front, path);
    }
}

/// Every colour scheme is offered once, under its own key and name, and three of them are light.
pub proof fn every_scheme_is_offered_once(theme: GuiTheme, other: GuiTheme)
    ensures
        GuiTheme::offered().contains(theme),
        GuiTheme::offered().no_duplicates(),
        theme != other ==> theme.key() != other.key(),
        theme.light() == (theme == GuiTheme::Light || theme == GuiTheme::SolarizedLight || theme
            == GuiTheme::NovareLight),
{
    let place = config::theme_is_offered(theme);
    ui::themes_differ();
    if theme.key() == other.key() {
        config::theme_keys_differ(theme, other);
    }
}

/// A path begins to be tracked with all its files of the day, and nothing has been said about it.
pub proof fn path_begins_with_its_files(raw: Seq<char>, date: CalendarDate, snapshot: &Snapshot)
    ensures
        ({
            let files = watcher::fresh_files(resolver::resolved(raw, date, snapshot), snapshot);
            &&& files is Ok ==> watcher::fresh_path(raw, date, snapshot) == Ok::<
                PathView,
                Seq<char>,
            >(PathView { raw, active: files->Ok_0, warned: Seq::empty() })
            &&& files is Err ==> watcher::fresh_path(raw, date, snapshot) == Err::<
                PathView,
                Seq<char>,
            >(files->Err_0)
        }),
{
}

/// The directories that are asked for are those of the renderings with wildcards, each in its turn,
/// and of the tracked paths one behind the other.
pub proof fn directories_are_asked_for_in_turn(
    list: Seq<Seq<char>>,
    next: Seq<char>,
    raws: Seq<Seq<char>>,
    raw: Seq<char>,
    date: CalendarDate,
)
    ensures
        resolver::dirs_needed(Seq::empty()) == Seq::<Seq<char>>::empty(),
        resolver::dirs_needed(list + seq![next]) == resolver::dirs_needed(list) + match wildcard::plan_of(
            next,
        ) {
            WildcardPlanView::List { dir, pattern } => seq![dir],
            _ => Seq::empty(),
        },
        watcher::dirs_asked(Seq::empty(), date) == Seq::<Seq<char>>::empty(),
        watcher::dirs_asked(raws + seq![raw], date) == watcher::dirs_asked(raws, date)
            + resolver::dirs_needed(resolver::rendered(raw, date)),
{
    let all = list + seq![next];
    assert(all.drop_last() =~= list);
    assert((raws + seq![raw]).drop_last() =~= raws);
    let front = resolver::dirs_needed(list);
    match wildcard::plan_of(next) {
        WildcardPlanView::List { dir, pattern } => {
            assert(front.push(dir) =~= front + seq![dir]);
        },
        _ => {
            assert(front + Seq::empty() =~= front);
        },
    }
}

/// The files that are asked for are those of the tracked paths, one behind the other; and what is to
/// be read are the places from which each followed file has news.
pub proof fn files_are_asked_for_in_turn(
    raws: Seq<Seq<char>>,
    raw: Seq<char>,
    files: Seq<FileView>,
    file: FileView,
    date: CalendarDate,
    snapshot: &Snapshot,
)
    ensures
        watcher::all_resolved(Seq::empty(), date, snapshot) == Seq::<Seq<char>>::empty(),
        watcher::all_resolved(raws + seq![raw], date, snapshot) == watcher::all_resolved(
            raws,
            date,
            snapshot,
        ) + resolver::resolved(raw, date, snapshot),
        watcher::reads_of(Seq::empty(), snapshot) == Seq::<(Seq<char>, u64)>::empty(),
        watcher::reads_of(files + seq![file], snapshot) == watcher::reads_of(files, snapshot) + (
        match file.reads_from(snapshot.stat_at(file.path)) {
            Some(offset) => seq![(file.path, offset)],
            None => Seq::empty(),
        }),
{
    assert((raws + seq![raw]).drop_last() =~= raws);
    assert((files + seq![file]).drop_last() =~= files);
    let front = watcher::reads_of(files, snapshot);
    match file.reads_from(snapshot.stat_at(file.path)) {
        Some(offset) => {
            assert(front.push((file.path, offset)) =~= front + seq![(file.path, offset)]);
        },
        None => {
            assert(front + Seq::empty() =~= front);
        },
    }
}

/// Lists of texts and of characters are read entry by entry.
pub proof fn lists_are_read_one_by_one(
    slices: Seq<&str>,
    chars: Seq<Vec<char>>,
    lists: Seq<Vec<String>>,
    messages: Seq<Option<String>>,
)
    ensures
        text::slices(slices) == slices.map_values(|s: &str| s@),
        text::char_lists(chars) == chars.map_values(|c: Vec<char>| c@),
        gui::text_lists(lists) == lists.map_values(
            |list: Vec<String>| list@.map_values(|s: String| s@),
        ),
        config::message_views(messages).len() == messages.len(),
        forall|i: int|
            0 <= i < messages.len() ==> {
                let read = #[trigger] config::message_views(messages)[i];
                &&& read is Some == messages[i] is Some
                &&& read is Some ==> read->0 == messages[i]->0@
            },
{
    let one = |list: Vec<String>| list@.map_values(|s: String| s@);
    assert forall|i: int| 0 <= i < lists.len() implies gui::text_lists(lists)[i] == one(
        #[trigger] lists[i],
    ) by {
        assert(text::texts(lists[i]@) =~= lists[i]@.map_values(|s: String| s@));
    }
    assert(gui::text_lists(lists) =~= lists.map_values(one));
}

/// A plan for a pattern and an error of the settings are read as they are.
pub proof fn plans_and_errors_are_read_as_they_are(
    plan: wildcard::WildcardPlan,
    error: config::ConfigValidationError,
)
    ensures
        match plan {
            wildcard::WildcardPlan::Rejected(reason) => plan@ == WildcardPlanView::Rejected(
                reason@,
            ),
            wildcard::WildcardPlan::Literal(path) => plan@ == WildcardPlanView::Literal(path@),
            wildcard::WildcardPlan::List { dir, pattern } => plan@ == (WildcardPlanView::List {
                dir: dir@,
                pattern: pattern@,
            }),
        },
        match error {
            config::ConfigValidationError::InvalidPollInterval(value) => error@
                == config::ErrorView::InvalidPollInterval(value),
            config::ConfigValidationError::InvalidMaxBufferLines(value) => error@
                == config::ErrorView::InvalidMaxBufferLines(value),
            config::ConfigValidationError::InvalidMaxLineLength(value) => error@
                == config::ErrorView::InvalidMaxLineLength(value),
            config::ConfigValidationError::InvalidGuiFontSize(value) => error@
                == config::ErrorView::InvalidGuiFontSize(value),
            config::ConfigValidationError::NoTrackedFiles => error@
                == config::ErrorView::NoTrackedFiles,
            config::ConfigValidationError::EmptyPath => error@ == config::ErrorView::EmptyPath,
            config::ConfigValidationError::InvalidRegex { kind, pattern, message } => error@ == (
            config::ErrorView::InvalidRegex {
                kind: kind@,
                pattern: pattern@,
                message: message@,
            }),
        },
{
}

/// What is to be read is asked for path by path, as each is once it has been brought up to date.
pub proof fn reads_are_asked_for_path_by_path(
    states: Seq<PathView>,
    next: PathView,
    date: CalendarDate,
    enabled: Map<Seq<Seq<char>>, bool>,
    snapshot: &Snapshot,
)
    ensures
        watcher::reads_asked(Seq::empty(), date, enabled, snapshot) == Seq::<
            (Seq<char>, u64),
        >::empty(),
        watcher::reads_asked(states + seq![next], date, enabled, snapshot) == watcher::reads_asked(
            states,
            date,
            enabled,
            snapshot,
        ) + watcher::reads_of(
            next.synced(date, enabled, snapshot, Map::empty(), Seq::empty()).state.active,
            snapshot,
        ),
{
    assert((states + seq![next]).drop_last() =~= states);
}

/// A time can be shown where both it and the local time lie in the years that the clock knows, and
/// the two are not too far apart.
pub proof fn times_on_the_clock(ts: int, offset: int)
    ensures
        crate::formatting::on_the_clock(ts, offset) == (-93_599 <= offset <= 93_599
            && -377_705_116_800 <= ts <= 253_402_300_799 && -377_705_116_800 <= ts + offset
            <= 253_402_300_799),
{
}

/// The times of all events can be shown where each can be, or none has to be.
pub proof fn times_fit_exactly_when(
    view: ui::TuiView,
    show_timestamps: bool,
    offset: Option<i32>,
)
    ensures
        view.times_fit(show_timestamps, offset) == (!show_timestamps || offset is None || forall|
            i: int,
        |
            0 <= i < view.events.len() ==> crate::formatting::on_the_clock(
                (#[trigger] view.events[i]).ts as int,
                offset->0 as int,
            )),
{
}

} // verus!
