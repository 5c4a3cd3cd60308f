//! What the terminal interface starts with, takes in, and puts on the screen.

use crate::config::ConfigView;
use crate::config::GuiTheme;
use crate::dates;
use crate::dates::CalendarDate;
use crate::formatting;
use crate::line_rules;
use crate::line_rules::RulesView;
use crate::paths;
use crate::text;
use crate::tracking::LogEventView;
use crate::tui_theme;
use crate::ui;
use crate::ui::InputMode;
use crate::ui::StyledLineView;
use crate::ui::TuiView;
use vstd::prelude::*;

verus! {

/// The interface starts without lines, messages and filters, with the files, the colour scheme and
/// the case of the settings.
pub proof fn interface_starts_with_the_settings(config: ConfigView)
    ensures
        ({
            let view = ui::started(config);
            &&& view.events.len() == 0
            &&& view.total_events_seen == 0
            &&& view.dropped_events == 0
            &&& view.suppressed_by_rules == 0
            &&& !view.paused
            &&& view.scroll_offset == 0
            &&& view.tracked_files == config.tracked_files
            &&& view.sources.len() == config.tracked_files.len()
            &&& forall|i: int|
                0 <= i < config.tracked_files.len() ==> #[trigger] view.sources[i]
                    == paths::path_label(config.tracked_files[i])
            &&& view.status_message.len() == 0
            &&& view.active_source_filter_idx is None
            &&& view.text_filter.len() == 0
            &&& view.case_insensitive_text_filter == config.case_insensitive_text_filter
            &&& view.active_theme == config.gui_theme
            &&& view.pending_add_tracked_file is None
            &&& !view.save_requested
            &&& view.input_mode == InputMode::Normal
            &&& view.search_input.len() == 0
            &&& view.add_file_input.len() == 0
        }),
{
}

/// What a poll brought is taken in: the sources, the warnings as one message, and the events whose
/// lines are not hidden, the others being counted.
pub proof fn poll_is_taken_in(
    view: TuiView,
    sources: Seq<Seq<char>>,
    warnings: Seq<Seq<char>>,
    events: Seq<LogEventView>,
    rules: RulesView,
    max: nat,
)
    ensures
        ({
            let after = view.after_poll(sources, warnings, events, rules, max);
            let told = view.with_sources(sources);
            let informed = TuiView {
                status_message: if warnings.len() > 0 {
                    text::separated(warnings, " | "@)
                } else {
                    view.status_message
                },
                ..told
            };
            let kept = events.filter(|event: LogEventView| rules.displays(event.line));
            &&& events.len() == 0 ==> after == informed
            &&& events.len() > 0 ==> after == informed.with_events(
                kept,
                (events.len() - kept.len()) as nat,
                max,
            )
        }),
{
    line_rules::shown_events_stay(rules, events);
}

/// A path that was typed is taken without white space around it and without quotes of the same kind
/// around that; nothing typed is no path.
pub proof fn quotes_are_taken_off(raw: Seq<char>)
    ensures
        ({
            let s = text::trimmed(raw);
            let quoted = s.len() >= 2 && ((s[0] == '"' && s.last() == '"') || (s[0] == '\''
                && s.last() == '\''));
            &&& s.len() == 0 ==> ui::typed_path(raw) is None
            &&& s.len() > 0 && quoted ==> ui::typed_path(raw) == Some(s.drop_first().drop_last())
            &&& s.len() > 0 && !quoted ==> ui::typed_path(raw) == Some(s)
        }),
{
    let s = text::trimmed(raw);
    if s.len() >= 2 {
        assert(s.subrange(1, s.len() - 1) =~= s.drop_first().drop_last());
    }
}

/// The answer to a request for a file is told; a file that is tracked from now on comes to the end
/// of the list.
pub proof fn answer_is_told(
    view: TuiView,
    raw: Seq<char>,
    reason: Seq<char>,
    sources: Seq<Seq<char>>,
)
    ensures
        ({
            let path = ui::typed_path(raw);
            let yes = view.after_request(raw, Ok(true), sources);
            let no = view.after_request(raw, Ok(false), sources);
            let failed = view.after_request(raw, Err(reason), sources);
            let none = TuiView { status_message: "No file path entered"@, ..view };
            &&& path is None ==> yes == none && no == none && failed == none
            &&& path is Some ==> yes == (TuiView {
                tracked_files: view.tracked_files + seq![path->0],
                status_message: "Now tracking "@ + path->0,
                ..view.with_sources(sources)
            })
            &&& path is Some ==> no == (TuiView {
                status_message: "Already tracking "@ + path->0,
                ..view
            })
            &&& path is Some ==> failed == (TuiView {
                status_message: "Failed to track "@ + path->0 + ": "@ + reason,
                ..view
            })
        }),
{
    if ui::typed_path(raw) is Some {
        let path = ui::typed_path(raw)->0;
        assert(view.tracked_files.push(path) =~= view.tracked_files + seq![path]);
    }
}

/// The events on the screen are written line by line; where there are none, it is said why.
pub proof fn events_are_written_on_the_screen(
    view: TuiView,
    show_timestamps: bool,
    height: nat,
    offset: Option<i32>,
)
    requires
        view.input_mode == InputMode::Normal || view.input_mode == InputMode::Search
            || view.input_mode == InputMode::AddTrackedFile,
    ensures
        ({
            let (lines, muted) = view.body(show_timestamps, height, offset);
            let shown = view.on_screen(height);
            &&& shown.len() > 0 ==> !muted && lines.len() == shown.len()
            &&& shown.len() > 0 ==> forall|i: int|
                0 <= i < shown.len() ==> #[trigger] lines[i] == (StyledLineView {
                    text: formatting::event_line(shown[i], show_timestamps, offset),
                    fg: None,
                    bg: None,
                    bold: false,
                })
            &&& shown.len() == 0 ==> muted && lines.len() == 1
            &&& shown.len() == 0 ==> lines[0].text == (if view.events.len() == 0 {
                "Waiting for new log lines..."@
            } else {
                "No lines match active filters."@
            })
        }),
{
}

/// The list of files shows every file with its number.
pub proof fn files_are_listed_with_numbers(
    view: TuiView,
    show_timestamps: bool,
    height: nat,
    offset: Option<i32>,
)
    requires
        view.input_mode == InputMode::ListTrackedFiles,
    ensures
        ({
            let (lines, muted) = view.body(show_timestamps, height, offset);
            &&& view.tracked_files.len() == 0 ==> muted && lines.len() == 1 && lines[0].text
                == "No tracked files configured."@
            &&& view.tracked_files.len() > 0 ==> !muted && lines.len() == view.tracked_files.len()
            &&& forall|i: int|
                0 <= i < view.tracked_files.len() ==> (#[trigger] lines[i]).text == text::padded(
                    text::decimal((i + 1) as nat),
                    ' ',
                    2,
                ) + ". "@ + view.tracked_files[i]
        }),
{
}

/// The list of colour schemes shows every scheme by its name, behind three lines of text, and marks
/// the one that is looked at and none but that.
pub proof fn schemes_are_listed(
    view: TuiView,
    show_timestamps: bool,
    height: nat,
    offset: Option<i32>,
)
    requires
        view.input_mode == InputMode::ThemePicker,
    ensures
        ({
            let (lines, muted) = view.body(show_timestamps, height, offset);
            let n = GuiTheme::offered().len();
            let palette = tui_theme::tui_palette(view.shown_theme());
            &&& !muted
            &&& lines.len() == 3 + n
            &&& forall|i: int|
                0 <= i < n ==> (#[trigger] lines[3 + i]).text == (if i == view.theme_picker_idx {
                    "> "@
                } else {
                    "  "@
                }) + GuiTheme::offered()[i].shown_name()
            &&& forall|i: int|
                0 <= i < n ==> (#[trigger] lines[3 + i]).bg == (if i == view.theme_picker_idx {
                    Some(palette.selected_bg)
                } else {
                    None
                })
            &&& forall|i: int|
                0 <= i < n ==> (#[trigger] lines[3 + i]).fg == Some(
                    if i == view.theme_picker_idx {
                        palette.selected_fg
                    } else if GuiTheme::offered()[i] == view.active_theme {
                        palette.accent_fg
                    } else {
                        palette.content_fg
                    },
                )
            &&& forall|i: int|
                0 <= i < n ==> (#[trigger] lines[3 + i]).bold == (i == view.theme_picker_idx
                    || GuiTheme::offered()[i] == view.active_theme)
        }),
{
    let (lines, muted) = view.body(show_timestamps, height, offset);
    assert forall|i: int| 0 <= i < GuiTheme::offered().len() implies #[trigger] lines[3 + i]
        == view.theme_line(i) by {}
}

/// The header says how many files and lines there are, how often they are polled, whether polling is
/// paused, which source is chosen, and the message, if there is one.
pub proof fn header_says_how_things_stand(view: TuiView, poll_interval_ms: u64)
    requires
        view.input_mode == InputMode::Normal,
    ensures
        view.header(poll_interval_ms) == "logtrak  files="@ + text::decimal(view.sources.len())
            + "  poll="@ + text::decimal(poll_interval_ms as nat) + "ms  lines="@ + text::decimal(
            view.events.len(),
        ) + "  "@ + (if view.paused {
            "paused"@
        } else {
            "live"@
        }) + "  filter="@ + (match view.active_source_filter_idx {
            Some(idx) => view.sources[idx as int],
            None => "all"@,
        }) + (if view.status_message.len() > 0 {
            "  status="@ + view.status_message
        } else {
            Seq::empty()
        }) + "  keys:q p j/k g/G f l a t s / c x i ?"@,
{
}

/// A format that has no name of its own is the compact one with the year in full.
pub proof fn unnamed_format_is_the_compact_one(date: CalendarDate, name: Seq<char>)
    requires
        !dates::today_formats().contains(name),
    ensures
        date.formatted(name) == date.yyyy() + date.mm() + date.dd(),
{
    let all = dates::today_formats();
    assert(all[0] != name && all[1] != name && all[2] != name && all[3] != name && all[4] != name
        && all[5] != name && all[6] != name && all[7] != name && all[8] != name);
}

/// The header of a panel says how to leave it, and which colour scheme is in use or looked at.
pub proof fn header_says_how_to_leave(view: TuiView, poll_interval_ms: u64)
    ensures
        view.input_mode == InputMode::Search ==> view.header(poll_interval_ms) == "search:/"@
            + view.search_input + "  Enter apply  Esc cancel  Backspace delete"@,
        view.input_mode == InputMode::AddTrackedFile ==> view.header(poll_interval_ms)
            == "add file:"@ + view.add_file_input + "  Enter add  Esc cancel  Backspace delete"@,
        view.input_mode == InputMode::ListTrackedFiles ==> view.header(poll_interval_ms)
            == "tracked files  keys:l/Esc/Enter close  a add file  t themes  q quit  theme="@
            + view.active_theme.shown_name(),
        view.input_mode == InputMode::ThemePicker ==> view.header(poll_interval_ms)
            == "theme picker  Up/Down select  Enter apply  Esc/t cancel  q quit  preview="@
            + GuiTheme::offered()[view.theme_picker_idx as int].shown_name() + "  saved="@
            + view.active_theme.shown_name(),
        view.input_mode == InputMode::Help ==> view.header(poll_interval_ms)
            == "help  keys:?/Esc/Enter close  q quit"@,
{
}

/// No two colour schemes are shown under the same name.
pub proof fn names_of_schemes_differ(a: GuiTheme, b: GuiTheme)
    requires
        a.shown_name() == b.shown_name(),
    ensures
        a == b,
{
    reveal_strlit("Default Dark");
    reveal_strlit("Light");
    reveal_strlit("High Contrast");
    reveal_strlit("Ocean Blue");
    reveal_strlit("Shades of Purple");
    reveal_strlit("Novare Dark");
    reveal_strlit("Novare Light");
    reveal_strlit("Dracula");
    reveal_strlit("Nord");
    reveal_strlit("Solarized Dark");
    reveal_strlit("Solarized Light");
    reveal_strlit("One Dark");
    assert("Default Dark"@.len() == 12 && "Light"@.len() == 5 && "High Contrast"@.len() == 13);
    assert("Ocean Blue"@.len() == 10 && "Shades of Purple"@.len() == 16);
    assert("Novare Dark"@.len() == 11 && "Novare Light"@.len() == 12 && "Dracula"@.len() == 7);
    assert("Nord"@.len() == 4 && "Solarized Dark"@.len() == 14 && "Solarized Light"@.len() == 15);
    assert("One Dark"@.len() == 8);
    assert("Default Dark"@[0] == 'D' && "Novare Light"@[0] == 'N');
}

} // verus!
