//! What each key does, and what else goes into the terminal interface.

use crate::config::GuiTheme;
use crate::text;
use crate::text_laws;
use crate::ui;
use crate::ui::InputMode;
use crate::ui::Key;
use crate::ui::TuiView;
use vstd::prelude::*;

verus! {

/// `k` scrolls towards the older lines, one at a time as long as there is one, and `j` scrolls back.
pub proof fn scrolling_goes_one_line_at_a_time(view: TuiView)
    requires
        view.input_mode == InputMode::Normal,
        view.filtered().len() <= usize::MAX,
    ensures
        view.pressed(Key::Up) == view.pressed(Key::Char('k')),
        view.pressed(Key::Down) == view.pressed(Key::Char('j')),
        !view.pressed(Key::Up).1,
        !view.pressed(Key::Down).1,
        view.scroll_offset + 1 < view.filtered().len() ==> view.pressed(Key::Up).0 == (TuiView {
            scroll_offset: (view.scroll_offset + 1) as usize,
            ..view
        }),
        view.scroll_offset + 1 == view.filtered().len() ==> view.pressed(Key::Up).0 == view,
        view.scroll_offset >= view.filtered().len() > 0 ==> view.pressed(Key::Up).0.scroll_offset
            == view.filtered().len() - 1,
        view.filtered().len() == 0 ==> view.pressed(Key::Up).0.scroll_offset == 0,
        view.scroll_offset + 1 < view.filtered().len() ==> view.pressed(Key::Up).0.pressed(
            Key::Down,
        ).0 == view,
        view.scroll_offset > 0 ==> view.pressed(Key::Down).0 == (TuiView {
            scroll_offset: (view.scroll_offset - 1) as usize,
            ..view
        }),
        view.scroll_offset == 0 ==> view.pressed(Key::Down).0 == view,
        view.pressed(Key::Up).0 == (TuiView {
            scroll_offset: view.pressed(Key::Up).0.scroll_offset,
            ..view
        }),
{
}

/// `g` leads to the oldest line that passes and `G` to the newest.
pub proof fn jumps_lead_to_the_ends(view: TuiView)
    requires
        view.input_mode == InputMode::Normal,
        view.filtered().len() <= usize::MAX,
    ensures
        view.filtered().len() > 0 ==> view.pressed(Key::Char('g')) == (
            TuiView { scroll_offset: (view.filtered().len() - 1) as usize, ..view },
            false,
        ),
        view.filtered().len() == 0 ==> view.pressed(Key::Char('g')) == (
            TuiView { scroll_offset: 0, ..view },
            false,
        ),
        view.pressed(Key::Char('G')) == (TuiView { scroll_offset: 0, ..view }, false),
{
}

/// `f` moves the source filter on by one, from none to the first source and from the last to none,
/// and shows the newest lines.
pub proof fn source_filter_moves_on_by_one(view: TuiView)
    requires
        view.input_mode == InputMode::Normal,
        view.wf(),
        view.sources.len() <= usize::MAX,
    ensures
        ({
            let (after, quits) = view.pressed(Key::Char('f'));
            let next = match view.active_source_filter_idx {
                None => 0,
                Some(idx) => idx + 1,
            };
            &&& !quits
            &&& next < view.sources.len() ==> after.active_source_filter_idx is Some
                && after.active_source_filter_idx->0 == next
            &&& next == view.sources.len() ==> after.active_source_filter_idx is None
            &&& after == (TuiView {
                active_source_filter_idx: after.active_source_filter_idx,
                scroll_offset: 0,
                ..view
            })
        }),
{
}

/// `p` and `i` turn one switch each, `s` asks for the settings to be saved, `q` quits, and none of
/// them does anything else.
pub proof fn switches_turn_alone(view: TuiView)
    requires
        view.input_mode == InputMode::Normal,
    ensures
        view.pressed(Key::Char('p')) == (TuiView { paused: !view.paused, ..view }, false),
        view.pressed(Key::Char('i')) == (
            TuiView {
                case_insensitive_text_filter: !view.case_insensitive_text_filter,
                ..view
            },
            false,
        ),
        view.pressed(Key::Char('s')) == (TuiView { save_requested: true, ..view }, false),
        view.pressed(Key::Char('q')) == (view, true),
{
}

/// `c` takes the text filter away and `x` the lines with their counters; both show the newest lines.
pub proof fn clearing_leaves_the_rest(view: TuiView)
    requires
        view.input_mode == InputMode::Normal,
    ensures
        view.pressed(Key::Char('c')) == (
            TuiView {
                text_filter: Seq::empty(),
                text_filter_folded: text::lowercased(Seq::empty()),
                scroll_offset: 0,
                ..view
            },
            false,
        ),
        view.pressed(Key::Char('x')) == (
            TuiView {
                events: Seq::empty(),
                total_events_seen: 0,
                dropped_events: 0,
                suppressed_by_rules: 0,
                scroll_offset: 0,
                status_message: "Cleared displayed log output"@,
                ..view
            },
            false,
        ),
{
}

/// `/`, `a`, `l`, `t` and `?` open what they are for: the filter as it is, an empty path, the files,
/// the colour schemes at the one in use, the help.
pub proof fn panels_open(view: TuiView)
    requires
        view.input_mode == InputMode::Normal,
    ensures
        view.pressed(Key::Char('/')) == (
            TuiView { input_mode: InputMode::Search, search_input: view.text_filter, ..view },
            false,
        ),
        view.pressed(Key::Char('a')) == (
            TuiView {
                input_mode: InputMode::AddTrackedFile,
                add_file_input: Seq::empty(),
                ..view
            },
            false,
        ),
        view.pressed(Key::Char('l')) == (
            TuiView { input_mode: InputMode::ListTrackedFiles, ..view },
            false,
        ),
        view.pressed(Key::Char('?')) == (TuiView { input_mode: InputMode::Help, ..view }, false),
        ({
            let (after, quits) = view.pressed(Key::Char('t'));
            &&& !quits
            &&& after.input_mode == InputMode::ThemePicker
            &&& GuiTheme::offered()[after.theme_picker_idx as int] == view.active_theme
            &&& after == (TuiView {
                input_mode: InputMode::ThemePicker,
                theme_picker_idx: after.theme_picker_idx,
                ..view
            })
        }),
{
    let place = crate::config::theme_is_offered(view.active_theme);
    let at = GuiTheme::offered().index_of(view.active_theme);
    assert(GuiTheme::offered().contains(view.active_theme));
    assert(0 <= at < GuiTheme::offered().len() && GuiTheme::offered()[at] == view.active_theme);
}

/// Every other key does nothing.
pub proof fn other_keys_do_nothing(view: TuiView, key: Key)
    requires
        view.input_mode == InputMode::Normal,
        match key {
            Key::Char(c) => c != 'q' && c != 'p' && c != 'k' && c != 'j' && c != 'g' && c != 'G'
                && c != 'f' && c != 'i' && c != '/' && c != 'c' && c != 'x' && c != 'a' && c != 's'
                && c != 'l' && c != 't' && c != '?',
            Key::Up | Key::Down => false,
            _ => true,
        },
    ensures
        view.pressed(key) == (view, false),
{
}

/// What is typed goes behind what has been typed, whatever the character, and `Backspace` takes the
/// last one back.
pub proof fn typing_is_undone_by_backspace(view: TuiView, c: char)
    requires
        view.input_mode == InputMode::Search || view.input_mode == InputMode::AddTrackedFile,
    ensures
        !view.pressed(Key::Char(c)).1,
        view.pressed(Key::Char(c)).0.pressed(Key::Backspace).0 == view,
        view.input_mode == InputMode::Search ==> view.pressed(Key::Char(c)).0 == (TuiView {
            search_input: view.search_input + seq![c],
            ..view
        }),
        view.input_mode == InputMode::AddTrackedFile ==> view.pressed(Key::Char(c)).0 == (TuiView {
            add_file_input: view.add_file_input + seq![c],
            ..view
        }),
{
    assert(view.search_input.push(c) =~= view.search_input + seq![c]);
    assert(view.add_file_input.push(c) =~= view.add_file_input + seq![c]);
    assert(view.search_input.push(c).drop_last() =~= view.search_input);
    assert(view.add_file_input.push(c).drop_last() =~= view.add_file_input);
}

/// `Backspace` with nothing typed does nothing, nor does a key that types nothing.
pub proof fn nothing_typed_nothing_taken_back(view: TuiView)
    requires
        view.input_mode == InputMode::Search || view.input_mode == InputMode::AddTrackedFile,
    ensures
        view.input_mode == InputMode::Search && view.search_input.len() == 0 ==> view.pressed(
            Key::Backspace,
        ) == (view, false),
        view.input_mode == InputMode::AddTrackedFile && view.add_file_input.len() == 0
            ==> view.pressed(Key::Backspace) == (view, false),
        view.pressed(Key::Up) == (view, false),
        view.pressed(Key::Down) == (view, false),
        view.pressed(Key::Other) == (view, false),
{
}

/// `Enter` makes what was typed, without white space around it, the text filter; `Esc` keeps the
/// filter.
pub proof fn typed_filter_is_applied_or_not(view: TuiView)
    requires
        view.input_mode == InputMode::Search,
    ensures
        view.pressed(Key::Enter) == (
            TuiView {
                text_filter: text::trimmed(view.search_input),
                text_filter_folded: text::lowercased(text::trimmed(view.search_input)),
                search_input: Seq::empty(),
                scroll_offset: 0,
                input_mode: InputMode::Normal,
                ..view
            },
            false,
        ),
        view.pressed(Key::Esc) == (TuiView { input_mode: InputMode::Normal, ..view }, false),
{
}

/// `Enter` asks for the path that was typed, without white space around it; `Esc` drops it.
pub proof fn typed_path_is_asked_for_or_not(view: TuiView)
    requires
        view.input_mode == InputMode::AddTrackedFile,
    ensures
        view.pressed(Key::Enter) == (
            TuiView {
                pending_add_tracked_file: Some(text::trimmed(view.add_file_input)),
                add_file_input: Seq::empty(),
                input_mode: InputMode::Normal,
                ..view
            },
            false,
        ),
        view.pressed(Key::Esc) == (
            TuiView { add_file_input: Seq::empty(), input_mode: InputMode::Normal, ..view },
            false,
        ),
{
}

/// In the list of colour schemes `Up` and `Down` move by one and stop at the ends, `Enter` takes the
/// one that is looked at, `Esc` and `t` leave everything as it was, and `q` quits.
pub proof fn theme_is_picked(view: TuiView)
    requires
        view.input_mode == InputMode::ThemePicker,
        view.theme_picker_idx < GuiTheme::offered().len(),
    ensures
        view.pressed(Key::Char('k')) == view.pressed(Key::Up),
        view.pressed(Key::Char('j')) == view.pressed(Key::Down),
        view.theme_picker_idx > 0 ==> view.pressed(Key::Up) == (
            TuiView { theme_picker_idx: (view.theme_picker_idx - 1) as usize, ..view },
            false,
        ),
        view.theme_picker_idx == 0 ==> view.pressed(Key::Up) == (view, false),
        view.theme_picker_idx + 1 < GuiTheme::offered().len() ==> view.pressed(Key::Down) == (
            TuiView { theme_picker_idx: (view.theme_picker_idx + 1) as usize, ..view },
            false,
        ),
        view.theme_picker_idx + 1 == GuiTheme::offered().len() ==> view.pressed(Key::Down) == (
            view,
            false,
        ),
        view.pressed(Key::Enter) == (
            TuiView {
                active_theme: GuiTheme::offered()[view.theme_picker_idx as int],
                status_message: "Theme: "@
                    + GuiTheme::offered()[view.theme_picker_idx as int].shown_name(),
                input_mode: InputMode::Normal,
                ..view
            },
            false,
        ),
        view.pressed(Key::Esc) == (TuiView { input_mode: InputMode::Normal, ..view }, false),
        view.pressed(Key::Char('t')) == view.pressed(Key::Esc),
        view.pressed(Key::Char('q')) == (view, true),
        view.shown_theme() == GuiTheme::offered()[view.theme_picker_idx as int],
{
}

/// In the list of colour schemes every other key does nothing.
pub proof fn other_keys_do_nothing_in_the_picker(view: TuiView, key: Key)
    requires
        view.input_mode == InputMode::ThemePicker,
        match key {
            Key::Char(c) => c != 'q' && c != 't' && c != 'k' && c != 'j',
            Key::Backspace | Key::Other => true,
            _ => false,
        },
    ensures
        view.pressed(key) == (view, false),
{
}

/// In the list of files and in the help, the keys that close them close them, `?` leads from the
/// list to the help, `q` quits, and every other key does nothing.
pub proof fn panels_close(view: TuiView, key: Key)
    requires
        view.input_mode == InputMode::ListTrackedFiles || view.input_mode == InputMode::Help,
    ensures
        ({
            let list = view.input_mode == InputMode::ListTrackedFiles;
            let closes = key == Key::Esc || key == Key::Enter || key == (if list {
                Key::Char('l')
            } else {
                Key::Char('?')
            });
            let helps = list && key == Key::Char('?');
            &&& closes ==> view.pressed(key) == (
                TuiView { input_mode: InputMode::Normal, ..view },
                false,
            )
            &&& helps ==> view.pressed(key) == (
                TuiView { input_mode: InputMode::Help, ..view },
                false,
            )
            &&& key == Key::Char('q') ==> view.pressed(key) == (view, true)
            &&& !closes && !helps && key != Key::Char('q') ==> view.pressed(key) == (view, false)
        }),
{
}

/// Outside the list of colour schemes the scheme in use is shown.
pub proof fn theme_in_use_is_shown(view: TuiView)
    requires
        view.input_mode != InputMode::ThemePicker,
    ensures
        view.shown_theme() == view.active_theme,
{
}

/// A source that is chosen stays chosen as long as it is among the sources, wherever it stands;
/// otherwise none is chosen. Nothing else changes.
pub proof fn chosen_source_stays_chosen(view: TuiView, sources: Seq<Seq<char>>)
    requires
        view.wf(),
        sources.len() <= usize::MAX,
    ensures
        ({
            let after = view.with_sources(sources);
            &&& after.sources == sources
            &&& match view.active_source_filter_idx {
                None => after.active_source_filter_idx is None,
                Some(idx) => {
                    let chosen = view.sources[idx as int];
                    &&& after.active_source_filter_idx is Some == sources.contains(chosen)
                    &&& after.active_source_filter_idx is Some ==> {
                        let place = after.active_source_filter_idx->0;
                        &&& place < sources.len()
                        &&& sources[place as int] == chosen
                        &&& forall|i: int| 0 <= i < place ==> #[trigger] sources[i] != chosen
                    }
                },
            }
            &&& after == (TuiView {
                sources,
                active_source_filter_idx: after.active_source_filter_idx,
                ..view
            })
        }),
{
    if view.active_source_filter_idx is Some {
        let chosen = view.sources[view.active_source_filter_idx->0 as int];
        if sources.contains(chosen) {
            first_place_is_first(sources, chosen);
        }
    }
}

proof fn first_place_is_first(list: Seq<Seq<char>>, s: Seq<char>)
    requires
        list.contains(s),
    ensures
        0 <= ui::first_place(list, s) < list.len(),
        list[ui::first_place(list, s)] == s,
        forall|i: int| 0 <= i < ui::first_place(list, s) ==> #[trigger] list[i] != s,
    decreases list.len(),
{
    if list[0] != s {
        let rest = list.skip(1);
        let k = choose|k: int| 0 <= k < list.len() && list[k] == s;
        assert(rest[k - 1] == s);
        first_place_is_first(rest, s);
        let place = ui::first_place(list, s);
        assert(rest[place - 1] == list[place]);
        assert forall|i: int| 0 <= i < place implies #[trigger] list[i] != s by {
            if i > 0 {
                assert(rest[i - 1] == list[i]);
            }
        }
    }
}

/// Text that is pasted where a path is typed goes behind it without its line breaks; elsewhere a
/// path is asked for, and other text is passed over, as is everything where a colour scheme is
/// chosen.
pub proof fn pasted_text_is_typed_or_asked_for(view: TuiView, pasted: Seq<char>)
    ensures
        ({
            let after = view.pasted(pasted);
            let path = text::trimmed(pasted);
            &&& view.input_mode == InputMode::AddTrackedFile ==> after == (TuiView {
                add_file_input: view.add_file_input + pasted.filter(
                    |c: char| c != '\n' && c != '\r',
                ),
                ..view
            })
            &&& view.input_mode == InputMode::ThemePicker ==> after == view
            &&& view.input_mode != InputMode::AddTrackedFile && view.input_mode
                != InputMode::ThemePicker ==> after == (if ui::path_like(path) {
                TuiView { pending_add_tracked_file: Some(path), ..view }
            } else {
                view
            })
        }),
{
    text_laws::characters_are_taken_out(pasted, '\n', '\r');
}

/// Text is taken for a path where it starts with a slash, a tilde, `./` or `../`, or holds a
/// backslash, or its second character is a colon.
pub proof fn paths_are_told_by_their_looks(s: Seq<char>)
    ensures
        ui::path_like(s) == ({
            ||| "/"@.is_prefix_of(s)
            ||| "~"@.is_prefix_of(s)
            ||| "./"@.is_prefix_of(s)
            ||| "../"@.is_prefix_of(s)
            ||| s.contains('\\')
            ||| s.len() > 1 && s[1] == ':'
        }),
{
    reveal_strlit("/");
    reveal_strlit("~");
    reveal_strlit("./");
    reveal_strlit("../");
    prefix_by_characters("/"@, s);
    prefix_by_characters("~"@, s);
    prefix_by_characters("./"@, s);
    prefix_by_characters("../"@, s);
    assert("/"@.len() == 1 && "/"@[0] == '/');
    assert("~"@.len() == 1 && "~"@[0] == '~');
    assert("./"@.len() == 2 && "./"@[0] == '.' && "./"@[1] == '/');
    assert("../"@.len() == 3 && "../"@[0] == '.' && "../"@[1] == '.' && "../"@[2] == '/');
}

proof fn prefix_by_characters(prefix: Seq<char>, s: Seq<char>)
    ensures
        prefix.is_prefix_of(s) == (prefix.len() <= s.len() && forall|i: int|
            0 <= i < prefix.len() ==> #[trigger] prefix[i] == s[i]),
{
    if prefix.is_prefix_of(s) {
        assert forall|i: int| 0 <= i < prefix.len() implies #[trigger] prefix[i] == s[i] by {
            assert(s.subrange(0, prefix.len() as int)[i] == s[i]);
        }
    }
    if prefix.len() <= s.len() && forall|i: int|
        0 <= i < prefix.len() ==> #[trigger] prefix[i] == s[i] {
        assert(prefix =~= s.subrange(0, prefix.len() as int));
    }
}

} // verus!
