//! What the window shows, remembers and does.

use crate::buffer;
use crate::dates::CalendarDate;
use crate::formatting;
use crate::gui;
use crate::gui::DisplayView;
use crate::gui::GuiView;
use crate::line_rules;
use crate::order;
use crate::paths;
use crate::screen_laws;
use crate::snapshot::DirEntryView;
use crate::snapshot::Snapshot;
use crate::text;
use crate::tracking::LogEventView;
use crate::ui;
use crate::watcher;
use vstd::prelude::*;

verus! {

/// An event is shown exactly where it comes from the chosen source, if one is chosen, and the text
/// filter, if there is one, stands somewhere in its line; upper and lower case are told apart only
/// where that is asked for.
pub proof fn line_passes_exactly_when(view: GuiView, event: DisplayView)
    ensures
        view.accepts(event, view.folded_filter()) == ({
            &&& match view.source_filter {
                Some(source) => source == event.source,
                None => true,
            }
            &&& view.text_filter.len() == 0 || if view.config.case_insensitive_text_filter {
                exists|before: Seq<char>, behind: Seq<char>|
                    event.line_lower == #[trigger] (before + text::lowercased(view.text_filter)
                        + behind)
            } else {
                exists|before: Seq<char>, behind: Seq<char>|
                    event.line == #[trigger] (before + view.text_filter + behind)
            }
        }),
{
    screen_laws::standing_is_between(event.line_lower, text::lowercased(view.text_filter));
    screen_laws::standing_is_between(event.line, view.text_filter);
}

/// The lines that are shown are those of all events that pass, in their order, with or without the
/// time.
pub proof fn passing_lines_are_shown(view: GuiView)
    ensures
        view.visible() == view.events.filter(
            |event: DisplayView| view.accepts(event, view.folded_filter()),
        ).map_values(
            |event: DisplayView|
                if view.config.show_timestamps {
                    event.with_ts
                } else {
                    event.without_ts
                },
        ),
{
    lines_one_by_one(
        view,
        view.events,
        |event: DisplayView| view.accepts(event, view.folded_filter()),
        |event: DisplayView|
            if view.config.show_timestamps {
                event.with_ts
            } else {
                event.without_ts
            },
    );
}

proof fn lines_one_by_one(
    view: GuiView,
    events: Seq<DisplayView>,
    passes: spec_fn(DisplayView) -> bool,
    shown: spec_fn(DisplayView) -> Seq<char>,
)
    requires
        forall|event: DisplayView| #[trigger]
            passes(event) == view.accepts(event, view.folded_filter()),
        forall|event: DisplayView| #[trigger]
            shown(event) == if view.config.show_timestamps {
                event.with_ts
            } else {
                event.without_ts
            },
    ensures
        view.lines_of(events) == events.filter(passes).map_values(shown),
    decreases events.len(),
{
    reveal(Seq::filter);
    if events.len() > 0 {
        let front = events.drop_last();
        let last = events.last();
        lines_one_by_one(view, front, passes, shown);
        assert(passes(last) == view.accepts(last, view.folded_filter()));
        if passes(last) {
            assert(front.filter(passes).push(last).map_values(shown) =~= front.filter(
                passes,
            ).map_values(shown).push(shown(last)));
        }
    } else {
        assert(events.filter(passes).map_values(shown) =~= Seq::empty());
    }
}

/// An event is kept with its line, the line in lower case, and both ways in which it is written.
pub proof fn event_is_kept_for_display(event: LogEventView, offset: Option<i32>)
    ensures
        gui::displayed(event, offset) == (DisplayView {
            source: event.source,
            line: event.line,
            line_lower: text::lowercased(event.line),
            with_ts: formatting::event_line(event, true, offset),
            without_ts: formatting::event_line(event, false, offset),
        }),
{
}

/// The configuration that was used last comes first; behind it stay the others in their order, up
/// to ten in all.
pub proof fn others_stay_behind_the_last_used(view: GuiView, path: Seq<char>)
    ensures
        ({
            let others = view.recent_configs.filter(
                |other: Seq<char>| !paths::same_path(other, path),
            );
            let all = seq![path] + others;
            let after = view.with_recent(path);
            &&& after.recent_configs == all.take(
                if all.len() < 10 {
                    all.len() as int
                } else {
                    10
                },
            )
            &&& after == (GuiView { recent_configs: after.recent_configs, ..view })
        }),
{
    taking_out_is_filtering(
        view.recent_configs,
        path,
        |other: Seq<char>| !paths::same_path(other, path),
    );
    let others = gui::without_path(view.recent_configs, path);
    let all = seq![path] + others;
    assert(all.take(all.len() as int) =~= all);
}

/// A path is taken out of a list under every spelling, and the rest stays in its order.
pub proof fn path_is_taken_out(list: Seq<Seq<char>>, path: Seq<char>)
    ensures
        gui::without_path(list, path) == list.filter(
            |other: Seq<char>| !paths::same_path(other, path),
        ),
{
    taking_out_is_filtering(list, path, |other: Seq<char>| !paths::same_path(other, path));
}

proof fn taking_out_is_filtering(
    list: Seq<Seq<char>>,
    path: Seq<char>,
    stays: spec_fn(Seq<char>) -> bool,
)
    requires
        forall|other: Seq<char>| #[trigger] stays(other) == !paths::same_path(other, path),
    ensures
        gui::without_path(list, path) == list.filter(stays),
    decreases list.len(),
{
    reveal(Seq::filter);
    if list.len() > 0 {
        taking_out_is_filtering(list.drop_last(), path, stays);
        assert(stays(list.last()) == !paths::same_path(list.last(), path));
    } else {
        assert(gui::without_path(list, path) =~= list);
    }
}

/// A path comes to the end of a list unless it is in it under any spelling; and of paths that were
/// found each comes in its turn.
pub proof fn found_paths_come_in_turn(
    list: Seq<Seq<char>>,
    found: Seq<Seq<char>>,
    next: Seq<char>,
)
    ensures
        (exists|i: int| 0 <= i < list.len() && paths::same_path(#[trigger] list[i], next))
            ==> ui::with_path(list, next) == list,
        !(exists|i: int| 0 <= i < list.len() && paths::same_path(#[trigger] list[i], next))
            ==> ui::with_path(list, next) == list + seq![next],
        gui::with_discovered(list, Seq::empty()) == list,
        gui::with_discovered(list, found + seq![next]) == ui::with_path(
            gui::with_discovered(list, found),
            next,
        ),
{
    assert((found + seq![next]).drop_last() =~= found);
    assert(list.push(next) =~= list + seq![next]);
}

/// Of what was stored the paths that are not empty stay.
pub proof fn stored_paths_stay(list: Seq<Seq<char>>)
    ensures
        gui::nonempty(list) == list.filter(|path: Seq<char>| path.len() > 0),
    decreases list.len(),
{
    reveal(Seq::filter);
    if list.len() > 0 {
        stored_paths_stay(list.drop_last());
    } else {
        assert(gui::nonempty(list) =~= list);
    }
}

/// The configuration to start with is the one that was asked for, or else the last one used.
pub proof fn asked_for_or_last_used(initial: Option<Seq<char>>, recent: Seq<Seq<char>>)
    ensures
        initial is Some ==> gui::startup_choice(initial, recent) == initial,
        initial is None && recent.len() > 0 ==> gui::startup_choice(initial, recent) == Some(
            recent.first(),
        ),
        initial is None && recent.len() == 0 ==> gui::startup_choice(initial, recent) is None,
{
}

/// Configurations are looked for in the directory of the program and then in the current one, once
/// where they are the same.
pub proof fn program_and_current_directory_are_searched(
    program: Option<Seq<char>>,
    current: Option<Seq<char>>,
)
    ensures
        ({
            let found = gui::roots(program, current);
            &&& program is Some && current is Some && !paths::same_path(program->0, current->0)
                ==> found == seq![program->0, current->0]
            &&& program is Some && current is Some && paths::same_path(program->0, current->0)
                ==> found == seq![program->0]
            &&& program is Some && current is None ==> found == seq![program->0]
            &&& program is None && current is Some ==> found == seq![current->0]
            &&& program is None && current is None ==> found == Seq::<Seq<char>>::empty()
        }),
{
    if program is Some && current is Some {
        let first = seq![program->0];
        if paths::same_path(program->0, current->0) {
            assert(paths::same_path(first[0], current->0));
        }
        assert(first.push(current->0) =~= seq![program->0, current->0]);
    }
    if program is None && current is Some {
        assert(Seq::<Seq<char>>::empty().push(current->0) =~= seq![current->0]);
    }
}

/// A TOML file is a regular file with the extension `toml` in upper or lower case.
pub proof fn toml_files_are_told_by_extension(entry: DirEntryView)
    ensures
        ({
            let extension = paths::name_extension(entry.name);
            gui::toml_file(entry) == (entry.is_file && extension is Some && extension->0.len() == 4
                && (extension->0[0] == 't' || extension->0[0] == 'T') && (extension->0[1] == 'o'
                || extension->0[1] == 'O') && (extension->0[2] == 'm' || extension->0[2] == 'M')
                && (extension->0[3] == 'l' || extension->0[3] == 'L'))
        }),
{
}

/// The TOML files of a directory are all there are, by their paths; and the files of several
/// directories come directory by directory, sorted in each.
pub proof fn toml_files_are_found(
    dir: Seq<char>,
    entries: Seq<DirEntryView>,
    lists: Seq<Seq<Seq<char>>>,
)
    ensures
        gui::toml_paths(dir, entries) == entries.filter(
            |entry: DirEntryView| gui::toml_file(entry),
        ).map_values(|entry: DirEntryView| paths::joined(dir, entry.name)),
        gui::in_order(lists) == lists.map_values(
            |list: Seq<Seq<char>>| order::sorted_texts(list),
        ).flatten(),
{
    toml_paths_one_by_one(dir, entries);
    lists_one_by_one(lists);
}

proof fn toml_paths_one_by_one(dir: Seq<char>, entries: Seq<DirEntryView>)
    ensures
        gui::toml_paths(dir, entries) == entries.filter(
            |entry: DirEntryView| gui::toml_file(entry),
        ).map_values(|entry: DirEntryView| paths::joined(dir, entry.name)),
    decreases entries.len(),
{
    reveal(Seq::filter);
    let fits = |entry: DirEntryView| gui::toml_file(entry);
    let path = |entry: DirEntryView| paths::joined(dir, entry.name);
    if entries.len() > 0 {
        let front = entries.drop_last();
        toml_paths_one_by_one(dir, front);
        if fits(entries.last()) {
            assert(front.filter(fits).push(entries.last()).map_values(path) =~= front.filter(
                fits,
            ).map_values(path).push(path(entries.last())));
        }
    } else {
        assert(entries.filter(fits).map_values(path) =~= Seq::empty());
    }
}

proof fn lists_one_by_one(lists: Seq<Seq<Seq<char>>>)
    ensures
        gui::in_order(lists) == lists.map_values(
            |list: Seq<Seq<char>>| order::sorted_texts(list),
        ).flatten(),
    decreases lists.len(),
{
    let sort = |list: Seq<Seq<char>>| order::sorted_texts(list);
    if lists.len() > 0 {
        let front = lists.drop_last();
        lists_one_by_one(front);
        assert(lists.map_values(sort) =~= front.map_values(sort).push(sort(lists.last())));
        front.map_values(sort).lemma_flatten_push(sort(lists.last()));
    } else {
        assert(lists.map_values(sort) =~= Seq::empty());
        assert(Seq::<Seq<Seq<char>>>::empty().flatten() =~= Seq::empty());
    }
}

/// A stream does not start with settings that are not valid, files that cannot be looked at or
/// patterns that cannot be compiled: nothing changes but the message, which says why.
pub proof fn stream_does_not_start_in_error(
    view: GuiView,
    date: CalendarDate,
    snapshot: &Snapshot,
    font_size: Seq<char>,
)
    ensures
        ({
            let after = view.begun(date, snapshot, font_size);
            let error = view.config.error();
            let started = watcher::started(
                view.config.tracked_files,
                Map::empty(),
                view.config.max_line_len as nat,
                date,
                snapshot,
            );
            let rules = line_rules::rules_of(
                view.config.blacklist_regex,
                view.config.whitelist_regex,
            );
            &&& error is Some ==> after == (GuiView {
                status_message: "Invalid config: "@ + error->0.text(font_size),
                ..view
            })
            &&& error is None && started is Err ==> after == (GuiView {
                status_message: "Failed to initialize watcher: "@ + started->Err_0,
                ..view
            })
            &&& error is None && started is Ok && rules is Err ==> after == (GuiView {
                status_message: "Failed to initialize regex rules: "@ + rules->Err_0,
                ..view
            })
        }),
{
}

/// A stream that starts follows the files with the patterns of the settings, and keeps the newest of
/// the lines, as many as there is room for, counting the others as dropped.
pub proof fn stream_starts_with_the_newest_lines(
    view: GuiView,
    date: CalendarDate,
    snapshot: &Snapshot,
    font_size: Seq<char>,
)
    requires
        view.config.error() is None,
        watcher::started(
            view.config.tracked_files,
            Map::empty(),
            view.config.max_line_len as nat,
            date,
            snapshot,
        ) is Ok,
        line_rules::rules_of(view.config.blacklist_regex, view.config.whitelist_regex) is Ok,
        view.dropped + view.events.len() <= u64::MAX,
    ensures
        ({
            let after = view.begun(date, snapshot, font_size);
            &&& after.running
            &&& after.watcher is Some
            &&& Ok::<watcher::WatcherView, Seq<char>>(after.watcher->0) == watcher::started(
                view.config.tracked_files,
                Map::empty(),
                view.config.max_line_len as nat,
                date,
                snapshot,
            )
            &&& after.rules is Some
            &&& Ok::<line_rules::RulesView, Seq<char>>(after.rules->0) == line_rules::rules_of(
                view.config.blacklist_regex,
                view.config.whitelist_regex,
            )
            &&& after.active_blacklist_regex == view.config.blacklist_regex
            &&& after.active_whitelist_regex == view.config.whitelist_regex
            &&& after.events.is_suffix_of(view.events)
            &&& after.events.len() == (if view.events.len() < view.config.max_buffer_lines {
                view.events.len() as int
            } else {
                view.config.max_buffer_lines as int
            })
            &&& after.dropped == view.dropped + (view.events.len() - after.events.len())
            &&& after.status_message == "Stream started (existing lines preserved)"@
            &&& after.config == view.config
            &&& after.config_path == view.config_path
            &&& after.recent_configs == view.recent_configs
            &&& after.total_seen == view.total_seen
            &&& after.suppressed_by_rules == view.suppressed_by_rules
            &&& after.text_filter == view.text_filter
            &&& after.source_filter == view.source_filter
            &&& after.config_panel_visible == view.config_panel_visible
        }),
{
    let excess = if view.events.len() > view.config.max_buffer_lines {
        view.events.len() - view.config.max_buffer_lines
    } else {
        0
    };
    screen_laws::counter_counts(view.dropped + excess);
    assert(view.events.skip(excess) =~= view.events.subrange(
        view.events.len() - (view.events.len() - excess),
        view.events.len() as int,
    ));
}

/// A poll that succeeds adds the lines that are not hidden, the newest `max_buffer_lines` of all
/// stay, and the counters grow by what came, what went and what the rules held back.
pub proof fn poll_adds_the_lines_that_are_shown(
    view: GuiView,
    date: CalendarDate,
    snapshot: &Snapshot,
    now: i64,
    offset: Option<i32>,
)
    requires
        view.watcher is Some,
        view.rules is Some,
        (view.watcher->0).polled(date, snapshot, now).events is Ok,
        ({
            let events = (view.watcher->0).polled(date, snapshot, now).events->Ok_0;
            &&& view.total_seen + events.len() <= u64::MAX
            &&& view.suppressed_by_rules + events.len() <= u64::MAX
            &&& view.dropped + view.events.len() + events.len() <= u64::MAX
        }),
    ensures
        ({
            let poll = (view.watcher->0).polled(date, snapshot, now);
            let events = poll.events->Ok_0;
            let kept = events.filter(
                |event: LogEventView| (view.rules->0).displays(event.line),
            );
            let shown = kept.map_values(|event: LogEventView| gui::displayed(event, offset));
            let (after, news) = view.polled(date, snapshot, now, offset);
            let max = view.config.max_buffer_lines;
            &&& after.watcher == Some(poll.watcher)
            &&& after.events.is_suffix_of(view.events + shown)
            &&& shown.len() == 0 || view.events.len() + shown.len() <= max ==> after.events
                == view.events + shown
            &&& shown.len() > 0 && view.events.len() + shown.len() > max ==> after.events.len()
                == max
            &&& after.total_seen == view.total_seen + shown.len()
            &&& after.suppressed_by_rules == view.suppressed_by_rules + (events.len()
                - kept.len())
            &&& after.dropped == view.dropped + (view.events.len() + shown.len()
                - after.events.len())
            &&& news == (events.len() > 0)
            &&& after == (GuiView {
                events: after.events,
                total_seen: after.total_seen,
                dropped: after.dropped,
                suppressed_by_rules: after.suppressed_by_rules,
                watcher: after.watcher,
                ..view
            })
        }),
{
    let poll = (view.watcher->0).polled(date, snapshot, now);
    let events = poll.events->Ok_0;
    let rules = view.rules->0;
    line_rules::shown_events_stay(rules, events);
    let kept = line_rules::flagged(events, rules.flags(events));
    line_rules::flagged_is_part(events, rules.flags(events));
    let shown = gui::all_displayed(kept, offset);
    assert(shown =~= kept.map_values(|event: LogEventView| gui::displayed(event, offset)));
    let max = view.config.max_buffer_lines as nat;
    screen_laws::buffer_holds_the_newest(view.events, shown, max);
    screen_laws::counter_counts(view.total_seen + shown.len());
    screen_laws::counter_counts(view.suppressed_by_rules + (events.len() - kept.len()));
    screen_laws::counter_counts(view.dropped + buffer::taken_out(view.events, shown, max));
    if shown.len() == 0 {
        assert(view.events + shown =~= view.events);
    }
}

/// A poll that fails ends the stream and says why.
pub proof fn failed_poll_ends_the_stream(
    view: GuiView,
    date: CalendarDate,
    snapshot: &Snapshot,
    now: i64,
    offset: Option<i32>,
)
    requires
        view.watcher is Some,
        (view.watcher->0).polled(date, snapshot, now).events is Err,
    ensures
        view.polled(date, snapshot, now, offset) == (
            GuiView {
                status_message: "Watcher error: "@ + (view.watcher->0).polled(
                    date,
                    snapshot,
                    now,
                ).events->Err_0,
                ..view.stopped()
            },
            true,
        ),
{
}

/// A stream that is stopped follows nothing and hides nothing; the lines, the settings and the
/// filters stay.
pub proof fn stopped_stream_keeps_the_lines(view: GuiView)
    ensures
        view.stopped() == (GuiView {
            running: false,
            watcher: None,
            rules: None,
            active_blacklist_regex: Seq::empty(),
            active_whitelist_regex: Seq::empty(),
            ..view
        }),
        view.stopped().stopped() == view.stopped(),
{
}

/// A poll is due once the interval has passed, however long it is, and only where a stream runs.
pub proof fn poll_is_due_after_the_interval(view: GuiView, elapsed_ms: u64)
    ensures
        view.poll_due(elapsed_ms) == (view.running && view.config.poll_interval_ms <= elapsed_ms),
{
}

/// Patterns that were edited while a stream runs are put to use where they can be compiled;
/// otherwise those in use stay, and the message says why. Without an edit nothing changes.
pub proof fn edited_patterns_are_put_to_use(view: GuiView)
    ensures
        ({
            let rules = line_rules::rules_of(
                view.config.blacklist_regex,
                view.config.whitelist_regex,
            );
            let edited = view.running && (view.config.blacklist_regex
                != view.active_blacklist_regex || view.config.whitelist_regex
                != view.active_whitelist_regex);
            &&& !edited ==> view.with_edited_rules() == view
            &&& edited && rules is Ok ==> view.with_edited_rules() == (GuiView {
                rules: Some(rules->Ok_0),
                active_blacklist_regex: view.config.blacklist_regex,
                active_whitelist_regex: view.config.whitelist_regex,
                status_message: "Applied updated regex rules"@,
                ..view
            })
            &&& edited && rules is Err ==> view.with_edited_rules() == (GuiView {
                status_message: "Regex update failed: "@ + rules->Err_0,
                ..view
            })
        }),
{
}

/// The sources to choose from are those of the tracked files and those of the lines that there are.
pub proof fn sources_are_those_of_files_and_lines(view: GuiView, source: Seq<char>)
    ensures
        view.source_names().contains(source) == ((exists|i: int|
            0 <= i < view.config.tracked_files.len() && paths::path_label(
                #[trigger] view.config.tracked_files[i],
            ) == source) || (exists|i: int|
            0 <= i < view.events.len() && (#[trigger] view.events[i]).source == source)),
{
    let all = view.source_names();
    let n = view.config.tracked_files.len();
    if all.contains(source) {
        let i = choose|i: int| 0 <= i < all.len() && all[i] == source;
        if i < n {
            assert(paths::path_label(view.config.tracked_files[i]) == source);
        } else {
            assert(view.events[i - n].source == source);
        }
    }
    if exists|i: int|
        0 <= i < view.config.tracked_files.len() && paths::path_label(
            #[trigger] view.config.tracked_files[i],
        ) == source {
        let i = choose|i: int|
            0 <= i < view.config.tracked_files.len() && paths::path_label(
                #[trigger] view.config.tracked_files[i],
            ) == source;
        assert(all[i] == source);
    }
    if exists|i: int| 0 <= i < view.events.len() && (#[trigger] view.events[i]).source == source {
        let i = choose|i: int|
            0 <= i < view.events.len() && (#[trigger] view.events[i]).source == source;
        assert(all[n + i] == source);
    }
}

} // verus!
