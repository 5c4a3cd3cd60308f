//! Where each setting comes from, and when settings are valid.

use crate::cli::CliView;
use crate::config;
use crate::config::ConfigView;
use crate::config::ErrorView;
use crate::config::FileConfig;
use crate::config::GuiTheme;
use crate::enabled_files;
use crate::line_rules;
use crate::paths;
use crate::text;
use vstd::prelude::*;

verus! {

/// A value of the command line prevails over one of the file, and that over the default; no other
/// setting has a say.
pub proof fn numbers_come_from_their_own_settings(file: Option<FileConfig>, cli: CliView)
    ensures
        ({
            let merged = config::merged(file, cli);
            &&& merged.poll_interval_ms == match (cli.poll_ms, file) {
                (Some(value), _) => value,
                (None, Some(file)) => match file.poll_interval_ms {
                    Some(value) => value,
                    None => 1_000,
                },
                (None, None) => 1_000,
            }
            &&& merged.max_buffer_lines == match (cli.max_buffer_lines, file) {
                (Some(value), _) => value,
                (None, Some(file)) => match file.max_buffer_lines {
                    Some(value) => value,
                    None => 10_000,
                },
                (None, None) => 10_000,
            }
            &&& merged.max_line_len == match (cli.max_line_len, file) {
                (Some(value), _) => value,
                (None, Some(file)) => match file.max_line_len {
                    Some(value) => value,
                    None => 512,
                },
                (None, None) => 512,
            }
        }),
{
}

/// The patterns and the files of the command line, where it gives any, are those that count,
/// whatever else it gives; otherwise those of the file are, and otherwise there are none.
pub proof fn lists_come_from_their_own_settings(file: Option<FileConfig>, cli: CliView)
    ensures
        ({
            let merged = config::merged(file, cli);
            &&& cli.blacklist_regex.len() > 0 ==> merged.blacklist_regex == cli.blacklist_regex
            &&& cli.blacklist_regex.len() == 0 ==> merged.blacklist_regex == match file {
                Some(file) => match file.blacklist_regex {
                    Some(list) => text::texts(list@),
                    None => Seq::empty(),
                },
                None => Seq::empty(),
            }
            &&& cli.whitelist_regex.len() > 0 ==> merged.whitelist_regex == cli.whitelist_regex
            &&& cli.whitelist_regex.len() == 0 ==> merged.whitelist_regex == match file {
                Some(file) => match file.whitelist_regex {
                    Some(list) => text::texts(list@),
                    None => Seq::empty(),
                },
                None => Seq::empty(),
            }
            &&& cli.files.len() > 0 ==> merged.tracked_files == cli.files
            &&& cli.files.len() == 0 ==> merged.tracked_files == match file {
                Some(file) => match file.tracked_files {
                    Some(list) => text::texts(list@),
                    None => Seq::empty(),
                },
                None => Seq::empty(),
            }
        }),
{
}

/// A switch of the command line that says no prevails over one that says yes, that over the file,
/// and that over the default, which is yes.
pub proof fn switches_come_from_their_own_settings(file: Option<FileConfig>, cli: CliView)
    ensures
        ({
            let merged = config::merged(file, cli);
            let timestamps = match file {
                Some(file) => match file.show_timestamps {
                    Some(value) => value,
                    None => true,
                },
                None => true,
            };
            let insensitive = match file {
                Some(file) => match file.case_insensitive_text_filter {
                    Some(value) => value,
                    None => true,
                },
                None => true,
            };
            &&& cli.no_timestamps ==> !merged.show_timestamps
            &&& !cli.no_timestamps && cli.show_timestamps ==> merged.show_timestamps
            &&& !cli.no_timestamps && !cli.show_timestamps ==> merged.show_timestamps == timestamps
            &&& cli.case_sensitive_filter ==> !merged.case_insensitive_text_filter
            &&& !cli.case_sensitive_filter && cli.case_insensitive_filter
                ==> merged.case_insensitive_text_filter
            &&& !cli.case_sensitive_filter && !cli.case_insensitive_filter
                ==> merged.case_insensitive_text_filter == insensitive
        }),
{
}

/// What the command line cannot set comes from the file or is as by default.
pub proof fn other_settings_come_from_the_file(file: Option<FileConfig>, cli: CliView)
    ensures
        ({
            let merged = config::merged(file, cli);
            &&& merged.gui_word_wrap == match file {
                Some(file) => match file.gui_word_wrap {
                    Some(value) => value,
                    None => true,
                },
                None => true,
            }
            &&& merged.gui_font_size.bits == match file {
                Some(file) => match file.gui_font_size {
                    Some(value) => value.bits,
                    None => 0x4160_0000,
                },
                None => 0x4160_0000,
            }
            &&& merged.tracked_file_enabled == match file {
                Some(file) => match file.tracked_file_enabled {
                    Some(files) => files.listing(),
                    None => Seq::empty(),
                },
                None => Seq::empty(),
            }
            &&& merged.gui_theme == match file {
                Some(file) => match (file.gui_theme, file.gui_light_mode) {
                    (Some(theme), _) => theme,
                    (None, Some(true)) => GuiTheme::Light,
                    (None, _) => GuiTheme::DefaultDark,
                },
                None => GuiTheme::DefaultDark,
            }
            &&& merged.gui_light_mode == ({
                ||| merged.gui_theme == GuiTheme::Light
                ||| merged.gui_theme == GuiTheme::SolarizedLight
                ||| merged.gui_theme == GuiTheme::NovareLight
            })
        }),
{
}

/// The settings that a file makes by itself are those that it makes under a command line that sets
/// nothing.
pub proof fn file_alone_is_a_file_with_a_bare_command_line(file: FileConfig)
    ensures
        file.config() == config::merged(Some(file), crate::cli::bare_command_line()),
        config::default_config() == config::merged(None, crate::cli::bare_command_line()),
{
}

/// Settings are valid exactly where the three numbers are not zero, the font size is a positive
/// finite number, there is a file and none has an empty path, and every pattern can be compiled.
pub proof fn settings_are_valid_exactly_when(settings: ConfigView)
    ensures
        settings.error() is None == ({
            &&& settings.poll_interval_ms > 0
            &&& settings.max_buffer_lines > 0
            &&& settings.max_line_len > 0
            &&& 0 < settings.gui_font_size.bits < 0x7f80_0000
            &&& settings.tracked_files.len() > 0
            &&& forall|i: int|
                0 <= i < settings.tracked_files.len() ==> (
                #[trigger] settings.tracked_files[i]).len() > 0
            &&& forall|i: int|
                0 <= i < settings.blacklist_regex.len() ==> line_rules::compiled(
                    #[trigger] settings.blacklist_regex[i],
                ) is Ok
            &&& forall|i: int|
                0 <= i < settings.whitelist_regex.len() ==> line_rules::compiled(
                    #[trigger] settings.whitelist_regex[i],
                ) is Ok
        }),
{
    let blacklist = settings.blacklist_regex;
    let whitelist = settings.whitelist_regex;
    pattern_error_is_the_first("blacklist"@, blacklist, config::compile_errors(blacklist));
    pattern_error_is_the_first("whitelist"@, whitelist, config::compile_errors(whitelist));
    every_pattern_is_tried(blacklist);
    every_pattern_is_tried(whitelist);
    let black = config::pattern_error("blacklist"@, blacklist, config::compile_errors(blacklist));
    let white = config::pattern_error("whitelist"@, whitelist, config::compile_errors(whitelist));
    assert(black is None == forall|i: int|
        0 <= i < blacklist.len() ==> line_rules::compiled(#[trigger] blacklist[i]) is Ok) by {
        if black is None {
            assert forall|i: int| 0 <= i < blacklist.len() implies line_rules::compiled(
                #[trigger] blacklist[i],
            ) is Ok by {
                assert(config::compile_errors(blacklist)[i] is None);
            }
        }
    }
    assert(white is None == forall|i: int|
        0 <= i < whitelist.len() ==> line_rules::compiled(#[trigger] whitelist[i]) is Ok) by {
        if white is None {
            assert forall|i: int| 0 <= i < whitelist.len() implies line_rules::compiled(
                #[trigger] whitelist[i],
            ) is Ok by {
                assert(config::compile_errors(whitelist)[i] is None);
            }
        }
    }
}

proof fn every_pattern_is_tried(patterns: Seq<Seq<char>>)
    ensures
        config::compile_errors(patterns).len() == patterns.len(),
        forall|i: int|
            0 <= i < patterns.len() ==> #[trigger] config::compile_errors(patterns)[i] == (
            match line_rules::compiled(patterns[i]) {
                Ok(_) => None::<Seq<char>>,
                Err(message) => Some(message),
            }),
{
}

/// The error about patterns is about the first that has one.
pub proof fn pattern_error_is_the_first(
    kind: Seq<char>,
    patterns: Seq<Seq<char>>,
    errors: Seq<Option<Seq<char>>>,
)
    requires
        errors.len() >= patterns.len(),
    ensures
        config::pattern_error(kind, patterns, errors) is None == forall|i: int|
            0 <= i < patterns.len() ==> #[trigger] errors[i] is None,
        config::pattern_error(kind, patterns, errors) is Some ==> exists|k: int|
            {
                &&& 0 <= k < patterns.len()
                &&& #[trigger] errors[k] is Some
                &&& forall|i: int| 0 <= i < k ==> #[trigger] errors[i] is None
                &&& config::pattern_error(kind, patterns, errors) == Some(
                    ErrorView::InvalidRegex {
                        kind,
                        pattern: patterns[k],
                        message: errors[k]->0,
                    },
                )
            },
    decreases patterns.len(),
{
    if patterns.len() > 0 {
        let front = patterns.drop_last();
        pattern_error_is_the_first(kind, front, errors);
        let last: int = patterns.len() - 1;
        if config::pattern_error(kind, front, errors) is Some {
            let k = choose|k: int|
                {
                    &&& 0 <= k < front.len()
                    &&& #[trigger] errors[k] is Some
                    &&& forall|i: int| 0 <= i < k ==> #[trigger] errors[i] is None
                    &&& config::pattern_error(kind, front, errors) == Some(
                        ErrorView::InvalidRegex {
                            kind,
                            pattern: front[k],
                            message: errors[k]->0,
                        },
                    )
                };
            assert(errors[k] is Some && patterns[k] == front[k]);
        } else {
            assert(errors[last] is Some ==> patterns[last] == patterns.last());
            assert forall|i: int| 0 <= i < last implies #[trigger] errors[i] is None by {}
        }
    }
}

/// Of several things that are wrong the first is named: the numbers in their order, the font size,
/// no files, an empty path, the blacklist, the whitelist.
pub proof fn first_thing_wrong_is_named(settings: ConfigView)
    ensures
        ({
            let error = settings.error();
            let interval = settings.poll_interval_ms > 0;
            let lines = interval && settings.max_buffer_lines > 0;
            let length = lines && settings.max_line_len > 0;
            let font = length && 0 < settings.gui_font_size.bits < 0x7f80_0000;
            let some = font && settings.tracked_files.len() > 0;
            let named = some && forall|i: int|
                0 <= i < settings.tracked_files.len() ==> (
                #[trigger] settings.tracked_files[i]).len() > 0;
            &&& (error == Some(ErrorView::InvalidPollInterval(0))) == !interval
            &&& (error == Some(ErrorView::InvalidMaxBufferLines(0))) == (interval && !lines)
            &&& (error == Some(ErrorView::InvalidMaxLineLength(0))) == (lines && !length)
            &&& (error == Some(ErrorView::InvalidGuiFontSize(settings.gui_font_size))) == (length
                && !font)
            &&& (error == Some(ErrorView::NoTrackedFiles)) == (font && !some)
            &&& (error == Some(ErrorView::EmptyPath)) == (some && !named)
            &&& named ==> error == (match config::pattern_error(
                "blacklist"@,
                settings.blacklist_regex,
                config::compile_errors(settings.blacklist_regex),
            ) {
                Some(error) => Some(error),
                None => config::pattern_error(
                    "whitelist"@,
                    settings.whitelist_regex,
                    config::compile_errors(settings.whitelist_regex),
                ),
            })
        }),
{
    let blacklist = settings.blacklist_regex;
    let whitelist = settings.whitelist_regex;
    every_pattern_is_tried(blacklist);
    every_pattern_is_tried(whitelist);
    pattern_error_is_the_first("blacklist"@, blacklist, config::compile_errors(blacklist));
    pattern_error_is_the_first("whitelist"@, whitelist, config::compile_errors(whitelist));
}

/// Where files may be lacking, that is the one thing that is let pass.
pub proof fn only_lacking_files_are_let_pass(settings: ConfigView)
    ensures
        settings.error() == Some(ErrorView::NoTrackedFiles) ==> settings.error_but_for_files()
            is None,
        settings.error() != Some(ErrorView::NoTrackedFiles) ==> settings.error_but_for_files()
            == settings.error(),
{
}

/// The message about an error says what is wrong and with which value.
pub proof fn messages_say_what_is_wrong(
    value: u64,
    size: usize,
    font: config::FontSize,
    shown: Seq<char>,
    kind: Seq<char>,
    pattern: Seq<char>,
    message: Seq<char>,
)
    ensures
        ErrorView::InvalidPollInterval(value).text(shown) == "poll_interval_ms must be > 0, got "@
            + text::decimal(value as nat),
        ErrorView::InvalidMaxBufferLines(size).text(shown) == "max_buffer_lines must be > 0, got "@
            + text::decimal(size as nat),
        ErrorView::InvalidMaxLineLength(size).text(shown) == "max_line_len must be > 0, got "@
            + text::decimal(size as nat),
        ErrorView::InvalidGuiFontSize(font).text(shown)
            == "gui_font_size must be > 0 and finite, got "@ + shown,
        ErrorView::NoTrackedFiles.text(shown)
            == "no tracked files configured; pass FILE arguments or set tracked_files in config"@,
        ErrorView::EmptyPath.text(shown) == "tracked files contains an empty path"@,
        (ErrorView::InvalidRegex { kind, pattern, message }).text(shown) == kind + " regex `"@
            + pattern + "` is invalid: "@ + message,
{
}

/// A text is a configuration of this program exactly where it can be parsed, one of its keys is a
/// setting, and the settings are valid but for files that may be lacking.
pub proof fn own_configs_are_told_exactly_when(raw: Seq<char>, parsed: Option<FileConfig>)
    ensures
        config::app_config(raw, parsed) == ({
            &&& config::toml_keys(raw) is Some
            &&& exists|i: int|
                0 <= i < config::toml_keys(raw)->0.len() && config::app_keys().contains(
                    #[trigger] (config::toml_keys(raw)->0)[i],
                )
            &&& parsed is Some
            &&& (parsed->0.config().error() is None || parsed->0.config().error() == Some(
                ErrorView::NoTrackedFiles,
            ))
        }),
{
}

/// Of several entries for the same file, under whatever spelling, the last one counts.
pub proof fn last_entry_counts(listing: Seq<(Seq<char>, bool)>, k: int, path: Seq<char>)
    requires
        0 <= k < listing.len(),
        paths::same_path(listing[k].0, path),
        forall|i: int| k < i < listing.len() ==> !paths::same_path((#[trigger] listing[i]).0, path),
    ensures
        enabled_files::by_path(listing).dom().contains(paths::path_components(path)),
        enabled_files::by_path(listing)[paths::path_components(path)] == listing[k].1,
    decreases listing.len(),
{
    let front = listing.drop_last();
    let last: int = listing.len() - 1;
    assert(listing[last] == listing.last());
    if k < last {
        assert(front[k] == listing[k]);
        assert forall|i: int| k < i < front.len() implies !paths::same_path(
            (#[trigger] front[i]).0,
            path,
        ) by {
            assert(front[i] == listing[i]);
        }
        last_entry_counts(front, k, path);
        assert(!paths::same_path(listing[last].0, path));
    }
}

/// A file without an entry under any spelling has none.
pub proof fn file_without_an_entry_has_none(listing: Seq<(Seq<char>, bool)>, path: Seq<char>)
    requires
        forall|i: int| 0 <= i < listing.len() ==> !paths::same_path((#[trigger] listing[i]).0, path),
    ensures
        !enabled_files::by_path(listing).dom().contains(paths::path_components(path)),
    decreases listing.len(),
{
    if listing.len() > 0 {
        let front = listing.drop_last();
        assert(!paths::same_path(listing[listing.len() - 1].0, path));
        assert forall|i: int| 0 <= i < front.len() implies !paths::same_path(
            (#[trigger] front[i]).0,
            path,
        ) by {
            assert(front[i] == listing[i]);
        }
        file_without_an_entry_has_none(front, path);
    }
}

/// The summary lists every pattern, every file and every file that is switched on or off, each kind
/// behind its number.
pub proof fn summary_lists_everything(settings: ConfigView, font_size: Seq<char>)
    ensures
        ({
            let lines = settings.summary_lines(font_size);
            let b = settings.blacklist_regex.len();
            let w = settings.whitelist_regex.len();
            let f = settings.tracked_files.len();
            let s = settings.tracked_file_enabled.len();
            let yes_or_no = |value: bool|
                if value {
                    "true"@
                } else {
                    "false"@
                };
            &&& lines.len() == 10 + (1 + b) + (1 + w) + (1 + f) + (if s > 0 {
                1 + s
            } else {
                0
            })
            &&& lines[1] == "  poll_interval_ms: "@ + text::decimal(
                settings.poll_interval_ms as nat,
            )
            &&& lines[2] == "  max_buffer_lines: "@ + text::decimal(
                settings.max_buffer_lines as nat,
            )
            &&& lines[3] == "  max_line_len: "@ + text::decimal(settings.max_line_len as nat)
            &&& lines[4] == "  show_timestamps: "@ + yes_or_no(settings.show_timestamps)
            &&& lines[5] == "  gui_light_mode: "@ + yes_or_no(settings.gui_light_mode)
            &&& lines[6] == "  gui_theme: "@ + settings.gui_theme.key()
            &&& lines[7] == "  gui_word_wrap: "@ + yes_or_no(settings.gui_word_wrap)
            &&& lines[8] == "  gui_font_size: "@ + font_size
            &&& lines[9] == "  case_insensitive_text_filter: "@ + yes_or_no(
                settings.case_insensitive_text_filter,
            )
            &&& lines[10] == "  blacklist_regex count: "@ + text::decimal(b)
            &&& forall|i: int|
                0 <= i < b ==> lines[11 + i] == "    - "@ + #[trigger] settings.blacklist_regex[i]
            &&& lines[11 + b as int] == "  whitelist_regex count: "@ + text::decimal(w)
            &&& forall|i: int|
                0 <= i < w ==> lines[12 + b + i] == "    - "@
                    + #[trigger] settings.whitelist_regex[i]
            &&& lines[12 + b + w as int] == "  tracked_files ("@ + text::decimal(f) + "):"@
            &&& forall|i: int|
                0 <= i < f ==> lines[13 + b + w + i] == "    - "@
                    + #[trigger] settings.tracked_files[i]
            &&& s > 0 ==> lines[13 + b + w + f as int] == "  tracked_file_enabled ("@
                + text::decimal(s) + "):"@
            &&& forall|i: int|
                0 <= i < s ==> lines[14 + b + w + f + i] == "    - "@ + (
                #[trigger] settings.tracked_file_enabled[i]).0 + " => "@ + yes_or_no(
                    settings.tracked_file_enabled[i].1,
                )
        }),
{
}

} // verus!
