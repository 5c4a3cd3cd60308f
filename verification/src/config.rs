//! The configuration: defaults, what a file and the command line change, and what is valid.

use crate::cli;
use crate::cli::CliArgs;
use crate::cli::CliView;
use crate::enabled_files;
use crate::enabled_files::EnabledFiles;
use crate::line_rules;
use crate::path_table::PathTable;
use crate::paths;
use crate::text;
use vstd::prelude::*;

verus! {

/// A colour scheme.
#[derive(Debug, Clone, Copy, PartialEq, Eq, Structural)]
pub enum GuiTheme {
    DefaultDark,
    Light,
    HighContrast,
    OceanBlue,
    ShadesOfPurple,
    Novare,
    NovareLight,
    Dracula,
    Nord,
    SolarizedDark,
    SolarizedLight,
    OneDark,
}

impl GuiTheme {
    /// The colour schemes in the order in which they are offered.
    pub open spec fn offered() -> Seq<GuiTheme> {
        seq![
            GuiTheme::DefaultDark,
            GuiTheme::Light,
            GuiTheme::HighContrast,
            GuiTheme::OceanBlue,
            GuiTheme::ShadesOfPurple,
            GuiTheme::Novare,
            GuiTheme::NovareLight,
            GuiTheme::Dracula,
            GuiTheme::Nord,
            GuiTheme::SolarizedDark,
            GuiTheme::SolarizedLight,
            GuiTheme::OneDark,
        ]
    }

    /// The name under which a colour scheme is offered.
    pub open spec fn shown_name(self) -> Seq<char> {
        match self {
            GuiTheme::DefaultDark => "Default Dark"@,
            GuiTheme::Light => "Light"@,
            GuiTheme::HighContrast => "High Contrast"@,
            GuiTheme::OceanBlue => "Ocean Blue"@,
            GuiTheme::ShadesOfPurple => "Shades of Purple"@,
            GuiTheme::Novare => "Novare Dark"@,
            GuiTheme::NovareLight => "Novare Light"@,
            GuiTheme::Dracula => "Dracula"@,
            GuiTheme::Nord => "Nord"@,
            GuiTheme::SolarizedDark => "Solarized Dark"@,
            GuiTheme::SolarizedLight => "Solarized Light"@,
            GuiTheme::OneDark => "One Dark"@,
        }
    }

    /// The word for a colour scheme in a configuration file.
    pub open spec fn key(self) -> Seq<char> {
        match self {
            GuiTheme::DefaultDark => "default_dark"@,
            GuiTheme::Light => "light"@,
            GuiTheme::HighContrast => "high_contrast"@,
            GuiTheme::OceanBlue => "ocean_blue"@,
            GuiTheme::ShadesOfPurple => "shades_of_purple"@,
            GuiTheme::Novare => "novare"@,
            GuiTheme::NovareLight => "novare_light"@,
            GuiTheme::Dracula => "dracula"@,
            GuiTheme::Nord => "nord"@,
            GuiTheme::SolarizedDark => "solarized_dark"@,
            GuiTheme::SolarizedLight => "solarized_light"@,
            GuiTheme::OneDark => "one_dark"@,
        }
    }

    /// The background is light.
    pub open spec fn light(self) -> bool {
        self == GuiTheme::Light || self == GuiTheme::SolarizedLight || self
            == GuiTheme::NovareLight
    }

    /// All colour schemes, in the order in which they are offered.
    pub fn all() -> (res: Vec<GuiTheme>)
        ensures
            res@ == GuiTheme::offered(),
    {
        let res: Vec<GuiTheme> = vec![
            GuiTheme::DefaultDark,
            GuiTheme::Light,
            GuiTheme::HighContrast,
            GuiTheme::OceanBlue,
            GuiTheme::ShadesOfPurple,
            GuiTheme::Novare,
            GuiTheme::NovareLight,
            GuiTheme::Dracula,
            GuiTheme::Nord,
            GuiTheme::SolarizedDark,
            GuiTheme::SolarizedLight,
            GuiTheme::OneDark,
        ];
        assert(res@ =~= GuiTheme::offered());
        res
    }

    /// The name under which the colour scheme is offered.
    pub fn display_name(self) -> (res: &'static str)
        ensures
            res@ == self.shown_name(),
    {
        match self {
            GuiTheme::DefaultDark => "Default Dark",
            GuiTheme::Light => "Light",
            GuiTheme::HighContrast => "High Contrast",
            GuiTheme::OceanBlue => "Ocean Blue",
            GuiTheme::ShadesOfPurple => "Shades of Purple",
            GuiTheme::Novare => "Novare Dark",
            GuiTheme::NovareLight => "Novare Light",
            GuiTheme::Dracula => "Dracula",
            GuiTheme::Nord => "Nord",
            GuiTheme::SolarizedDark => "Solarized Dark",
            GuiTheme::SolarizedLight => "Solarized Light",
            GuiTheme::OneDark => "One Dark",
        }
    }

    /// The word for the colour scheme in a configuration file.
    pub fn config_key(self) -> (res: &'static str)
        ensures
            res@ == self.key(),
    {
        match self {
            GuiTheme::DefaultDark => "default_dark",
            GuiTheme::Light => "light",
            GuiTheme::HighContrast => "high_contrast",
            GuiTheme::OceanBlue => "ocean_blue",
            GuiTheme::ShadesOfPurple => "shades_of_purple",
            GuiTheme::Novare => "novare",
            GuiTheme::NovareLight => "novare_light",
            GuiTheme::Dracula => "dracula",
            GuiTheme::Nord => "nord",
            GuiTheme::SolarizedDark => "solarized_dark",
            GuiTheme::SolarizedLight => "solarized_light",
            GuiTheme::OneDark => "one_dark",
        }
    }

    /// Whether the background is light.
    pub fn is_light(self) -> (res: bool)
        ensures
            res == self.light(),
    {
        match self {
            GuiTheme::Light | GuiTheme::SolarizedLight | GuiTheme::NovareLight => true,
            _ => false,
        }
    }

    /// The colour scheme for a word of a configuration file.
    pub fn from_config_key(key: &str) -> (res: Option<GuiTheme>)
        ensures
            match res {
                Some(theme) => theme.key() == key@,
                None => forall|theme: GuiTheme| #[trigger] theme.key() != key@,
            },
    {
        let all: Vec<GuiTheme> = GuiTheme::all();
        let mut i: usize = 0;
        while i < all.len()
            invariant
                all@ == GuiTheme::offered(),
                i <= all@.len(),
                forall|j: int| 0 <= j < i ==> (#[trigger] all@[j]).key() != key@,
            decreases all@.len() - i,
        {
            if text::same_text(all[i].config_key(), key) {
                return Some(all[i]);
            }
            i = i + 1;
        }
        assert forall|theme: GuiTheme| #[trigger] theme.key() != key@ by {
            let place = theme_is_offered(theme);
            assert(all@[place].key() != key@);
        }
        None
    }
}

/// Every colour scheme is offered.
pub proof fn theme_is_offered(theme: GuiTheme) -> (place: int)
    ensures
        0 <= place < GuiTheme::offered().len(),
        GuiTheme::offered()[place] == theme,
{
    match theme {
        GuiTheme::DefaultDark => 0,
        GuiTheme::Light => 1,
        GuiTheme::HighContrast => 2,
        GuiTheme::OceanBlue => 3,
        GuiTheme::ShadesOfPurple => 4,
        GuiTheme::Novare => 5,
        GuiTheme::NovareLight => 6,
        GuiTheme::Dracula => 7,
        GuiTheme::Nord => 8,
        GuiTheme::SolarizedDark => 9,
        GuiTheme::SolarizedLight => 10,
        GuiTheme::OneDark => 11,
    }
}

/// The word of a colour scheme belongs to no other: read back, it gives the same scheme.
pub proof fn theme_keys_differ(a: GuiTheme, b: GuiTheme)
    requires
        a.key() == b.key(),
    ensures
        a == b,
{
    reveal_strlit("default_dark");
    reveal_strlit("light");
    reveal_strlit("high_contrast");
    reveal_strlit("ocean_blue");
    reveal_strlit("shades_of_purple");
    reveal_strlit("novare");
    reveal_strlit("novare_light");
    reveal_strlit("dracula");
    reveal_strlit("nord");
    reveal_strlit("solarized_dark");
    reveal_strlit("solarized_light");
    reveal_strlit("one_dark");
    assert("default_dark"@.len() == 12 && "light"@.len() == 5 && "high_contrast"@.len() == 13);
    assert("ocean_blue"@.len() == 10 && "shades_of_purple"@.len() == 16 && "novare"@.len() == 6);
    assert("novare_light"@.len() == 12 && "dracula"@.len() == 7 && "nord"@.len() == 4);
    assert("solarized_dark"@.len() == 14 && "solarized_light"@.len() == 15);
    assert("one_dark"@.len() == 8);
    assert("default_dark"@[0] == 'd' && "novare_light"@[0] == 'n');
}

/// A size in points, as the bits of a single-precision number of IEEE 754.
#[derive(Debug, Clone, Copy, PartialEq, Eq, Structural)]
pub struct FontSize {
    pub bits: u32,
}

impl FontSize {
    /// The number is finite and greater than zero: its sign bit is clear, and its bits lie between
    /// those of zero and those of infinity.
    pub open spec fn usable(self) -> bool {
        0 < self.bits < 0x7f80_0000
    }
}

/// The bits of the default size, 14 points.
pub const DEFAULT_FONT_SIZE_BITS: u32 = 0x4160_0000;

/// The default poll interval in milliseconds.
pub const DEFAULT_POLL_INTERVAL_MS: u64 = 1_000;

/// How many lines are kept by default.
pub const DEFAULT_MAX_BUFFER_LINES: usize = 10_000;

/// The length to which lines are clipped by default.
pub const DEFAULT_MAX_LINE_LEN: usize = 512;

/// The configuration.
#[derive(Debug)]
pub struct AppConfig {
    pub poll_interval_ms: u64,
    pub tracked_files: Vec<String>,
    pub tracked_file_enabled: EnabledFiles,
    pub max_buffer_lines: usize,
    pub max_line_len: usize,
    pub show_timestamps: bool,
    pub gui_light_mode: bool,
    pub gui_theme: GuiTheme,
    pub gui_word_wrap: bool,
    pub gui_font_size: FontSize,
    pub case_insensitive_text_filter: bool,
    pub blacklist_regex: Vec<String>,
    pub whitelist_regex: Vec<String>,
}

/// The configuration, as contracts speak of it.
pub struct ConfigView {
    pub poll_interval_ms: u64,
    pub tracked_files: Seq<Seq<char>>,
    pub tracked_file_enabled: Seq<(Seq<char>, bool)>,
    pub max_buffer_lines: usize,
    pub max_line_len: usize,
    pub show_timestamps: bool,
    pub gui_light_mode: bool,
    pub gui_theme: GuiTheme,
    pub gui_word_wrap: bool,
    pub gui_font_size: FontSize,
    pub case_insensitive_text_filter: bool,
    pub blacklist_regex: Seq<Seq<char>>,
    pub whitelist_regex: Seq<Seq<char>>,
}

impl View for AppConfig {
    type V = ConfigView;

    open spec fn view(&self) -> ConfigView {
        ConfigView {
            poll_interval_ms: self.poll_interval_ms,
            tracked_files: text::texts(self.tracked_files@),
            tracked_file_enabled: self.tracked_file_enabled.listing(),
            max_buffer_lines: self.max_buffer_lines,
            max_line_len: self.max_line_len,
            show_timestamps: self.show_timestamps,
            gui_light_mode: self.gui_light_mode,
            gui_theme: self.gui_theme,
            gui_word_wrap: self.gui_word_wrap,
            gui_font_size: self.gui_font_size,
            case_insensitive_text_filter: self.case_insensitive_text_filter,
            blacklist_regex: text::texts(self.blacklist_regex@),
            whitelist_regex: text::texts(self.whitelist_regex@),
        }
    }
}

/// The configuration where nothing is set.
pub open spec fn default_config() -> ConfigView {
    ConfigView {
        poll_interval_ms: DEFAULT_POLL_INTERVAL_MS,
        tracked_files: seq![],
        tracked_file_enabled: seq![],
        max_buffer_lines: DEFAULT_MAX_BUFFER_LINES,
        max_line_len: DEFAULT_MAX_LINE_LEN,
        show_timestamps: true,
        gui_light_mode: false,
        gui_theme: GuiTheme::DefaultDark,
        gui_word_wrap: true,
        gui_font_size: FontSize { bits: DEFAULT_FONT_SIZE_BITS },
        case_insensitive_text_filter: true,
        blacklist_regex: seq![],
        whitelist_regex: seq![],
    }
}

impl Default for AppConfig {
    fn default() -> (res: AppConfig)
        ensures
            res@ == default_config(),
            res.wf(),
    {
        let res: AppConfig = AppConfig {
            poll_interval_ms: DEFAULT_POLL_INTERVAL_MS,
            tracked_files: Vec::new(),
            tracked_file_enabled: EnabledFiles::new(),
            max_buffer_lines: DEFAULT_MAX_BUFFER_LINES,
            max_line_len: DEFAULT_MAX_LINE_LEN,
            show_timestamps: true,
            gui_light_mode: false,
            gui_theme: GuiTheme::DefaultDark,
            gui_word_wrap: true,
            gui_font_size: FontSize { bits: DEFAULT_FONT_SIZE_BITS },
            case_insensitive_text_filter: true,
            blacklist_regex: Vec::new(),
            whitelist_regex: Vec::new(),
        };
        proof {
            assert(res@.tracked_files =~= seq![]);
            assert(res@.blacklist_regex =~= seq![]);
            assert(res@.whitelist_regex =~= seq![]);
        }
        res
    }
}

/// What a configuration file sets.
#[derive(Debug)]
pub struct FileConfig {
    pub poll_interval_ms: Option<u64>,
    pub tracked_files: Option<Vec<String>>,
    pub tracked_file_enabled: Option<EnabledFiles>,
    pub max_buffer_lines: Option<usize>,
    pub max_line_len: Option<usize>,
    pub show_timestamps: Option<bool>,
    pub gui_light_mode: Option<bool>,
    pub gui_theme: Option<GuiTheme>,
    pub gui_word_wrap: Option<bool>,
    pub gui_font_size: Option<FontSize>,
    pub case_insensitive_text_filter: Option<bool>,
    pub blacklist_regex: Option<Vec<String>>,
    pub whitelist_regex: Option<Vec<String>>,
}

impl FileConfig {
    /// The files that are switched on or off are in order.
    pub open spec fn wf(&self) -> bool {
        self.tracked_file_enabled is Some ==> self.tracked_file_enabled->0.wf()
    }

    /// The configuration of this file: what it does not set is as by default. A colour scheme says
    /// whether the interface is light; where none is set, the older switch for a light interface
    /// chooses one.
    pub open spec fn config(&self) -> ConfigView {
        let default = default_config();
        ConfigView {
            poll_interval_ms: match self.poll_interval_ms {
                Some(value) => value,
                None => default.poll_interval_ms,
            },
            tracked_files: match self.tracked_files {
                Some(list) => text::texts(list@),
                None => default.tracked_files,
            },
            tracked_file_enabled: match self.tracked_file_enabled {
                Some(files) => files.listing(),
                None => default.tracked_file_enabled,
            },
            max_buffer_lines: match self.max_buffer_lines {
                Some(value) => value,
                None => default.max_buffer_lines,
            },
            max_line_len: match self.max_line_len {
                Some(value) => value,
                None => default.max_line_len,
            },
            show_timestamps: match self.show_timestamps {
                Some(value) => value,
                None => default.show_timestamps,
            },
            gui_light_mode: match (self.gui_theme, self.gui_light_mode) {
                (Some(theme), _) => theme.light(),
                (None, Some(light)) => light,
                (None, None) => default.gui_light_mode,
            },
            gui_theme: match (self.gui_theme, self.gui_light_mode) {
                (Some(theme), _) => theme,
                (None, Some(true)) => GuiTheme::Light,
                (None, Some(false)) => GuiTheme::DefaultDark,
                (None, None) => default.gui_theme,
            },
            gui_word_wrap: match self.gui_word_wrap {
                Some(value) => value,
                None => default.gui_word_wrap,
            },
            gui_font_size: match self.gui_font_size {
                Some(value) => value,
                None => default.gui_font_size,
            },
            case_insensitive_text_filter: match self.case_insensitive_text_filter {
                Some(value) => value,
                None => default.case_insensitive_text_filter,
            },
            blacklist_regex: match self.blacklist_regex {
                Some(list) => text::texts(list@),
                None => default.blacklist_regex,
            },
            whitelist_regex: match self.whitelist_regex {
                Some(list) => text::texts(list@),
                None => default.whitelist_regex,
            },
        }
    }
}

impl ConfigView {
    /// The configuration once the command line has had its say. A switch that says no prevails over
    /// the one that says yes; lists replace lists.
    pub open spec fn overridden(self, cli: CliView) -> ConfigView {
        ConfigView {
            poll_interval_ms: match cli.poll_ms {
                Some(value) => value,
                None => self.poll_interval_ms,
            },
            max_buffer_lines: match cli.max_buffer_lines {
                Some(value) => value,
                None => self.max_buffer_lines,
            },
            max_line_len: match cli.max_line_len {
                Some(value) => value,
                None => self.max_line_len,
            },
            show_timestamps: !cli.no_timestamps && (cli.show_timestamps || self.show_timestamps),
            case_insensitive_text_filter: !cli.case_sensitive_filter && (
            cli.case_insensitive_filter || self.case_insensitive_text_filter),
            blacklist_regex: if cli.blacklist_regex.len() > 0 {
                cli.blacklist_regex
            } else {
                self.blacklist_regex
            },
            whitelist_regex: if cli.whitelist_regex.len() > 0 {
                cli.whitelist_regex
            } else {
                self.whitelist_regex
            },
            tracked_files: if cli.files.len() > 0 {
                cli.files
            } else {
                self.tracked_files
            },
            ..self
        }
    }
}

/// The configuration that a file, where there is one, and the command line make.
pub open spec fn merged(file: Option<FileConfig>, cli: CliView) -> ConfigView {
    match file {
        Some(file) => file.config(),
        None => default_config(),
    }.overridden(cli)
}

/// The configuration that a file, where there is one, and the command line make.
pub fn merge_config(file_cfg: Option<FileConfig>, cli: &CliArgs) -> (res: AppConfig)
    requires
        file_cfg is Some ==> file_cfg->0.wf(),
    ensures
        res@ == merged(file_cfg, cli@),
        res.wf(),
{
    let config: AppConfig = match file_cfg {
        Some(file) => file_settings(file),
        None => AppConfig::default(),
    };
    override_settings(config, cli)
}

fn file_settings(file: FileConfig) -> (res: AppConfig)
    requires
        file.wf(),
    ensures
        res@ == file.config(),
        res.wf(),
{
    let default: AppConfig = AppConfig::default();
    let (gui_theme, gui_light_mode) = match (file.gui_theme, file.gui_light_mode) {
        (Some(theme), _) => (theme, theme.is_light()),
        (None, Some(true)) => (GuiTheme::Light, true),
        (None, Some(false)) => (GuiTheme::DefaultDark, false),
        (None, None) => (default.gui_theme, default.gui_light_mode),
    };
    AppConfig {
        poll_interval_ms: match file.poll_interval_ms {
            Some(value) => value,
            None => default.poll_interval_ms,
        },
        tracked_files: match file.tracked_files {
            Some(list) => list,
            None => default.tracked_files,
        },
        tracked_file_enabled: match file.tracked_file_enabled {
            Some(files) => files,
            None => default.tracked_file_enabled,
        },
        max_buffer_lines: match file.max_buffer_lines {
            Some(value) => value,
            None => default.max_buffer_lines,
        },
        max_line_len: match file.max_line_len {
            Some(value) => value,
            None => default.max_line_len,
        },
        show_timestamps: match file.show_timestamps {
            Some(value) => value,
            None => default.show_timestamps,
        },
        gui_light_mode,
        gui_theme,
        gui_word_wrap: match file.gui_word_wrap {
            Some(value) => value,
            None => default.gui_word_wrap,
        },
        gui_font_size: match file.gui_font_size {
            Some(value) => value,
            None => default.gui_font_size,
        },
        case_insensitive_text_filter: match file.case_insensitive_text_filter {
            Some(value) => value,
            None => default.case_insensitive_text_filter,
        },
        blacklist_regex: match file.blacklist_regex {
            Some(list) => list,
            None => default.blacklist_regex,
        },
        whitelist_regex: match file.whitelist_regex {
            Some(list) => list,
            None => default.whitelist_regex,
        },
    }
}

fn override_settings(config: AppConfig, cli: &CliArgs) -> (res: AppConfig)
    requires
        config.wf(),
    ensures
        res@ == config@.overridden(cli@),
        res.wf(),
{
    AppConfig {
        poll_interval_ms: match cli.poll_ms {
            Some(value) => value,
            None => config.poll_interval_ms,
        },
        tracked_files: if cli.files.len() > 0 {
            text::copy_texts(&cli.files)
        } else {
            config.tracked_files
        },
        tracked_file_enabled: config.tracked_file_enabled,
        max_buffer_lines: match cli.max_buffer_lines {
            Some(value) => value,
            None => config.max_buffer_lines,
        },
        max_line_len: match cli.max_line_len {
            Some(value) => value,
            None => config.max_line_len,
        },
        show_timestamps: !cli.no_timestamps && (cli.show_timestamps || config.show_timestamps),
        gui_light_mode: config.gui_light_mode,
        gui_theme: config.gui_theme,
        gui_word_wrap: config.gui_word_wrap,
        gui_font_size: config.gui_font_size,
        case_insensitive_text_filter: !cli.case_sensitive_filter && (cli.case_insensitive_filter
            || config.case_insensitive_text_filter),
        blacklist_regex: if cli.blacklist_regex.len() > 0 {
            text::copy_texts(&cli.blacklist_regex)
        } else {
            config.blacklist_regex
        },
        whitelist_regex: if cli.whitelist_regex.len() > 0 {
            text::copy_texts(&cli.whitelist_regex)
        } else {
            config.whitelist_regex
        },
    }
}

/// Why a configuration is not valid.
#[derive(Debug, PartialEq, Eq)]
pub enum ConfigValidationError {
    InvalidPollInterval(u64),
    InvalidMaxBufferLines(usize),
    InvalidMaxLineLength(usize),
    InvalidGuiFontSize(FontSize),
    NoTrackedFiles,
    EmptyPath,
    InvalidRegex { kind: &'static str, pattern: String, message: String },
}

/// Why a configuration is not valid, as contracts speak of it.
pub enum ErrorView {
    InvalidPollInterval(u64),
    InvalidMaxBufferLines(usize),
    InvalidMaxLineLength(usize),
    InvalidGuiFontSize(FontSize),
    NoTrackedFiles,
    EmptyPath,
    InvalidRegex { kind: Seq<char>, pattern: Seq<char>, message: Seq<char> },
}

impl View for ConfigValidationError {
    type V = ErrorView;

    open spec fn view(&self) -> ErrorView {
        match self {
            ConfigValidationError::InvalidPollInterval(value) => ErrorView::InvalidPollInterval(
                *value,
            ),
            ConfigValidationError::InvalidMaxBufferLines(value) => ErrorView::InvalidMaxBufferLines(
                *value,
            ),
            ConfigValidationError::InvalidMaxLineLength(value) => ErrorView::InvalidMaxLineLength(
                *value,
            ),
            ConfigValidationError::InvalidGuiFontSize(value) => ErrorView::InvalidGuiFontSize(
                *value,
            ),
            ConfigValidationError::NoTrackedFiles => ErrorView::NoTrackedFiles,
            ConfigValidationError::EmptyPath => ErrorView::EmptyPath,
            ConfigValidationError::InvalidRegex { kind, pattern, message } => {
                ErrorView::InvalidRegex { kind: kind@, pattern: pattern@, message: message@ }
            },
        }
    }
}

impl ErrorView {
    /// The error in words; `font_size` is the refused size in words.
    pub open spec fn text(self, font_size: Seq<char>) -> Seq<char> {
        match self {
            ErrorView::InvalidPollInterval(value) => "poll_interval_ms must be > 0, got "@
                + text::decimal(value as nat),
            ErrorView::InvalidMaxBufferLines(value) => "max_buffer_lines must be > 0, got "@
                + text::decimal(value as nat),
            ErrorView::InvalidMaxLineLength(value) => "max_line_len must be > 0, got "@
                + text::decimal(value as nat),
            ErrorView::InvalidGuiFontSize(_) => "gui_font_size must be > 0 and finite, got "@
                + font_size,
            ErrorView::NoTrackedFiles =>
                "no tracked files configured; pass FILE arguments or set tracked_files in config"@,
            ErrorView::EmptyPath => "tracked files contains an empty path"@,
            ErrorView::InvalidRegex { kind, pattern, message } => kind + " regex `"@ + pattern
                + "` is invalid: "@ + message,
        }
    }
}

impl ConfigValidationError {
    /// The error in words; `font_size` is the refused size in words.
    pub fn message(&self, font_size: &str) -> (res: String)
        ensures
            res@ == self@.text(font_size@),
    {
        match self {
            ConfigValidationError::InvalidPollInterval(value) => {
                let mut res: String = "poll_interval_ms must be > 0, got ".to_owned();
                res.append(text::decimal_text(*value).as_str());
                res
            },
            ConfigValidationError::InvalidMaxBufferLines(value) => {
                let mut res: String = "max_buffer_lines must be > 0, got ".to_owned();
                res.append(text::decimal_text(*value as u64).as_str());
                res
            },
            ConfigValidationError::InvalidMaxLineLength(value) => {
                let mut res: String = "max_line_len must be > 0, got ".to_owned();
                res.append(text::decimal_text(*value as u64).as_str());
                res
            },
            ConfigValidationError::InvalidGuiFontSize(_) => {
                let mut res: String = "gui_font_size must be > 0 and finite, got ".to_owned();
                res.append(font_size);
                res
            },
            ConfigValidationError::NoTrackedFiles =>
                "no tracked files configured; pass FILE arguments or set tracked_files in config".to_owned(),
            ConfigValidationError::EmptyPath => "tracked files contains an empty path".to_owned(),
            ConfigValidationError::InvalidRegex { kind, pattern, message } => text::concat5(
                kind,
                " regex `",
                pattern.as_str(),
                "` is invalid: ",
                message.as_str(),
            ),
        }
    }
}

/// The first pattern of the list that has an error, as an error of the configuration.
pub open spec fn pattern_error(
    kind: Seq<char>,
    patterns: Seq<Seq<char>>,
    errors: Seq<Option<Seq<char>>>,
) -> Option<ErrorView>
    decreases patterns.len(),
{
    if patterns.len() == 0 {
        None
    } else {
        match pattern_error(kind, patterns.drop_last(), errors) {
            Some(error) => Some(error),
            None => match errors[patterns.len() - 1] {
                Some(message) => Some(
                    ErrorView::InvalidRegex { kind, pattern: patterns.last(), message },
                ),
                None => None,
            },
        }
    }
}

/// The error of each pattern, where it cannot be compiled.
pub open spec fn compile_errors(patterns: Seq<Seq<char>>) -> Seq<Option<Seq<char>>> {
    patterns.map_values(
        |pattern: Seq<char>|
            match line_rules::compiled(pattern) {
                Ok(_) => None,
                Err(message) => Some(message),
            },
    )
}

/// A path of the list is empty.
pub open spec fn holds_empty_path(files: Seq<Seq<char>>) -> bool {
    exists|i: int| 0 <= i < files.len() && (#[trigger] files[i]).len() == 0
}

impl ConfigView {
    /// What is wrong with the configuration, given the error of each pattern: the first thing, in
    /// the order in which the settings are looked at.
    pub open spec fn first_error(
        self,
        blacklist_errors: Seq<Option<Seq<char>>>,
        whitelist_errors: Seq<Option<Seq<char>>>,
    ) -> Option<ErrorView> {
        if self.poll_interval_ms == 0 {
            Some(ErrorView::InvalidPollInterval(self.poll_interval_ms))
        } else if self.max_buffer_lines == 0 {
            Some(ErrorView::InvalidMaxBufferLines(self.max_buffer_lines))
        } else if self.max_line_len == 0 {
            Some(ErrorView::InvalidMaxLineLength(self.max_line_len))
        } else if !self.gui_font_size.usable() {
            Some(ErrorView::InvalidGuiFontSize(self.gui_font_size))
        } else if self.tracked_files.len() == 0 {
            Some(ErrorView::NoTrackedFiles)
        } else if holds_empty_path(self.tracked_files) {
            Some(ErrorView::EmptyPath)
        } else {
            match pattern_error("blacklist"@, self.blacklist_regex, blacklist_errors) {
                Some(error) => Some(error),
                None => pattern_error("whitelist"@, self.whitelist_regex, whitelist_errors),
            }
        }
    }

    /// What is wrong with the configuration.
    pub open spec fn error(self) -> Option<ErrorView> {
        self.first_error(
            compile_errors(self.blacklist_regex),
            compile_errors(self.whitelist_regex),
        )
    }

    /// What is wrong with the configuration, where it may lack files.
    pub open spec fn error_but_for_files(self) -> Option<ErrorView> {
        if self.error() == Some(ErrorView::NoTrackedFiles) {
            None
        } else {
            self.error()
        }
    }
}

/// The views of the errors of patterns.
pub open spec fn message_views(v: Seq<Option<String>>) -> Seq<Option<Seq<char>>> {
    v.map_values(
        |message: Option<String>|
            match message {
                Some(message) => Some(message@),
                None => None,
            },
    )
}

fn find_pattern_error(
    kind: &'static str,
    patterns: &Vec<String>,
    errors: &Vec<Option<String>>,
) -> (res: Option<ConfigValidationError>)
    requires
        patterns@.len() == errors@.len(),
    ensures
        match res {
            Some(error) => pattern_error(
                kind@,
                text::texts(patterns@),
                message_views(errors@),
            ) == Some(error@),
            None => pattern_error(
                kind@,
                text::texts(patterns@),
                message_views(errors@),
            ) is None,
        },
{
    let ghost all = text::texts(patterns@);
    let ghost messages = message_views(errors@);
    let mut found: Option<ConfigValidationError> = None;
    let mut i: usize = 0;
    while i < patterns.len()
        invariant
            patterns@.len() == errors@.len(),
            all == text::texts(patterns@),
            messages == message_views(errors@),
            i <= patterns@.len(),
            match found {
                Some(error) => pattern_error(kind@, all.take(i as int), messages) == Some(error@),
                None => pattern_error(kind@, all.take(i as int), messages) is None,
            },
        decreases patterns@.len() - i,
    {
        proof {
            assert(all.take(i + 1).drop_last() =~= all.take(i as int));
            assert(all.take(i + 1).last() == patterns@[i as int]@);
            assert(messages[i as int] == match errors@[i as int] {
                Some(message) => Some(message@),
                None => None,
            });
        }
        if found.is_none() {
            match &errors[i] {
                Some(message) => {
                    found = Some(
                        ConfigValidationError::InvalidRegex {
                            kind,
                            pattern: patterns[i].clone(),
                            message: message.clone(),
                        },
                    );
                },
                None => {},
            }
        }
        i = i + 1;
    }
    assert(all.take(i as int) =~= all);
    found
}

fn compile_each(patterns: &Vec<String>) -> (res: Vec<Option<String>>)
    ensures
        res@.len() == patterns@.len(),
        message_views(res@) == compile_errors(text::texts(patterns@)),
{
    let ghost wanted = compile_errors(text::texts(patterns@));
    let mut res: Vec<Option<String>> = Vec::new();
    let mut i: usize = 0;
    while i < patterns.len()
        invariant
            wanted == compile_errors(text::texts(patterns@)),
            i <= patterns@.len(),
            res@.len() == i,
            forall|j: int| 0 <= j < i ==> #[trigger] message_views(res@)[j] == wanted[j],
        decreases patterns@.len() - i,
    {
        let ghost before = message_views(res@);
        assert(text::texts(patterns@)[i as int] == patterns@[i as int]@);
        match line_rules::compile_pattern(patterns[i].as_str()) {
            Ok(_) => {
                res.push(None);
            },
            Err(message) => {
                res.push(Some(message));
            },
        }
        i = i + 1;
        assert(message_views(res@).drop_last() =~= before);
        assert forall|j: int| 0 <= j < i implies #[trigger] message_views(res@)[j]
            == wanted[j] by {
            if j < i - 1 {
                assert(message_views(res@)[j] == before[j]);
            }
        }
    }
    assert(message_views(res@) =~= wanted);
    res
}

impl AppConfig {
    /// The files that are switched on or off are in order.
    pub open spec fn wf(&self) -> bool {
        self.tracked_file_enabled.wf()
    }

    /// The configuration that the command line and the file that it names make, where it is valid.
    pub fn from_cli(cli: &CliArgs, file: Option<FileConfig>) -> (res: Result<
        AppConfig,
        ConfigValidationError,
    >)
        requires
            file is Some ==> file->0.wf(),
        ensures
            match res {
                Ok(config) => config@ == merged(file, cli@) && config.wf()
                    && config@.error() is None,
                Err(error) => merged(file, cli@).error() == Some(error@),
            },
    {
        let config: AppConfig = merge_config(file, cli);
        match config.validate() {
            Ok(_) => Ok(config),
            Err(error) => Err(error),
        }
    }

    /// The configuration of a file, where it is valid.
    pub fn from_file(file: FileConfig) -> (res: Result<AppConfig, ConfigValidationError>)
        requires
            file.wf(),
        ensures
            match res {
                Ok(config) => config@ == file.config() && config.wf() && config@.error() is None,
                Err(error) => file.config().error() == Some(error@),
            },
    {
        let cli: CliArgs = CliArgs::default();
        assert(merged(Some(file), cli@) == file.config());
        AppConfig::from_cli(&cli, Some(file))
    }

    /// As `from_cli`, but the configuration may lack files.
    pub fn from_cli_allow_empty_files(cli: &CliArgs, file: Option<FileConfig>) -> (res: Result<
        AppConfig,
        ConfigValidationError,
    >)
        requires
            file is Some ==> file->0.wf(),
        ensures
            match res {
                Ok(config) => config@ == merged(file, cli@) && config.wf()
                    && config@.error_but_for_files() is None,
                Err(error) => merged(file, cli@).error_but_for_files() == Some(error@),
            },
    {
        let config: AppConfig = merge_config(file, cli);
        match validate_allowing_empty_tracked_files(&config) {
            Ok(_) => Ok(config),
            Err(error) => Err(error),
        }
    }

    /// As `from_file`, but the configuration may lack files.
    pub fn from_file_allow_empty_files(file: FileConfig) -> (res: Result<
        AppConfig,
        ConfigValidationError,
    >)
        requires
            file.wf(),
        ensures
            match res {
                Ok(config) => config@ == file.config() && config.wf()
                    && config@.error_but_for_files() is None,
                Err(error) => file.config().error_but_for_files() == Some(error@),
            },
    {
        let cli: CliArgs = CliArgs::default();
        assert(merged(Some(file), cli@) == file.config());
        AppConfig::from_cli_allow_empty_files(&cli, Some(file))
    }

    /// The first thing that is wrong with the configuration, given the error of each pattern.
    pub fn validate_with(
        &self,
        blacklist_errors: &Vec<Option<String>>,
        whitelist_errors: &Vec<Option<String>>,
    ) -> (res: Result<(), ConfigValidationError>)
        requires
            blacklist_errors@.len() == self.blacklist_regex@.len(),
            whitelist_errors@.len() == self.whitelist_regex@.len(),
        ensures
            match res {
                Ok(_) => self@.first_error(
                    message_views(blacklist_errors@),
                    message_views(whitelist_errors@),
                ) is None,
                Err(error) => self@.first_error(
                    message_views(blacklist_errors@),
                    message_views(whitelist_errors@),
                ) == Some(error@),
            },
    {
        if self.poll_interval_ms == 0 {
            return Err(ConfigValidationError::InvalidPollInterval(self.poll_interval_ms));
        }
        if self.max_buffer_lines == 0 {
            return Err(ConfigValidationError::InvalidMaxBufferLines(self.max_buffer_lines));
        }
        if self.max_line_len == 0 {
            return Err(ConfigValidationError::InvalidMaxLineLength(self.max_line_len));
        }
        if !(0 < self.gui_font_size.bits && self.gui_font_size.bits < 0x7f80_0000) {
            return Err(ConfigValidationError::InvalidGuiFontSize(self.gui_font_size));
        }
        if self.tracked_files.len() == 0 {
            return Err(ConfigValidationError::NoTrackedFiles);
        }
        let mut i: usize = 0;
        while i < self.tracked_files.len()
            invariant
                0 < self.poll_interval_ms,
                0 < self.max_buffer_lines,
                0 < self.max_line_len,
                self.gui_font_size.usable(),
                self.tracked_files@.len() > 0,
                i <= self.tracked_files@.len(),
                forall|j: int| 0 <= j < i ==> (#[trigger] self@.tracked_files[j]).len() > 0,
            decreases self.tracked_files@.len() - i,
        {
            if self.tracked_files[i].as_str().unicode_len() == 0 {
                assert(self@.tracked_files[i as int].len() == 0);
                return Err(ConfigValidationError::EmptyPath);
            }
            i = i + 1;
        }
        match find_pattern_error("blacklist", &self.blacklist_regex, blacklist_errors) {
            Some(error) => {
                return Err(error);
            },
            None => {},
        }
        match find_pattern_error("whitelist", &self.whitelist_regex, whitelist_errors) {
            Some(error) => Err(error),
            None => Ok(()),
        }
    }

    /// Whether the configuration is valid: the first thing that is wrong with it.
    pub fn validate(&self) -> (res: Result<(), ConfigValidationError>)
        ensures
            match res {
                Ok(_) => self@.error() is None,
                Err(error) => self@.error() == Some(error@),
            },
    {
        self.validate_with(
            &compile_each(&self.blacklist_regex),
            &compile_each(&self.whitelist_regex),
        )
    }

    /// The settings as a configuration file holds them: all of them are set.
    pub fn to_file_config(&self) -> (res: FileConfig)
        requires
            self.wf(),
        ensures
            res.wf(),
            res.config() == (ConfigView { gui_light_mode: self.gui_theme.light(), ..self@ }),
            res.gui_light_mode == Some(self.gui_light_mode),
            res.poll_interval_ms is Some,
            res.tracked_files is Some,
            res.tracked_file_enabled is Some,
            res.max_buffer_lines is Some,
            res.max_line_len is Some,
            res.show_timestamps is Some,
            res.gui_theme is Some,
            res.gui_word_wrap is Some,
            res.gui_font_size is Some,
            res.case_insensitive_text_filter is Some,
            res.blacklist_regex is Some,
            res.whitelist_regex is Some,
    {
        FileConfig {
            poll_interval_ms: Some(self.poll_interval_ms),
            tracked_files: Some(text::copy_texts(&self.tracked_files)),
            tracked_file_enabled: Some(self.tracked_file_enabled.copy()),
            max_buffer_lines: Some(self.max_buffer_lines),
            max_line_len: Some(self.max_line_len),
            show_timestamps: Some(self.show_timestamps),
            gui_light_mode: Some(self.gui_light_mode),
            gui_theme: Some(self.gui_theme),
            gui_word_wrap: Some(self.gui_word_wrap),
            gui_font_size: Some(self.gui_font_size),
            case_insensitive_text_filter: Some(self.case_insensitive_text_filter),
            blacklist_regex: Some(text::copy_texts(&self.blacklist_regex)),
            whitelist_regex: Some(text::copy_texts(&self.whitelist_regex)),
        }
    }

    /// Which files are switched on or off, by path.
    pub fn tracked_file_enabled_map(&self) -> (res: PathTable<bool>)
        ensures
            res.wf(),
            res@ == enabled_files::by_path(self@.tracked_file_enabled),
    {
        self.tracked_file_enabled.to_table()
    }

    /// Switches the file with this path text on or off.
    pub fn set_tracked_file_enabled(&mut self, path: &str, enabled: bool)
        requires
            old(self).wf(),
        ensures
            final(self).wf(),
            enabled_files::table_of(final(self)@.tracked_file_enabled)
                == enabled_files::table_of(old(self)@.tracked_file_enabled).insert(
                path@,
                enabled,
            ),
            final(self)@ == (ConfigView {
                tracked_file_enabled: final(self)@.tracked_file_enabled,
                ..old(self)@
            }),
    {
        self.tracked_file_enabled.insert(path.to_owned(), enabled);
    }
}

/// As `AppConfig::validate`, but the configuration may lack files.
pub fn validate_allowing_empty_tracked_files(config: &AppConfig) -> (res: Result<
    (),
    ConfigValidationError,
>)
    ensures
        match res {
            Ok(_) => config@.error_but_for_files() is None,
            Err(error) => config@.error_but_for_files() == Some(error@),
        },
{
    match config.validate() {
        Ok(_) => Ok(()),
        Err(ConfigValidationError::NoTrackedFiles) => Ok(()),
        Err(error) => Err(error),
    }
}

/// A truth value in words.
pub open spec fn bool_text(value: bool) -> Seq<char> {
    if value {
        "true"@
    } else {
        "false"@
    }
}

fn bool_word(value: bool) -> (res: &'static str)
    ensures
        res@ == bool_text(value),
{
    if value {
        "true"
    } else {
        "false"
    }
}

/// The lines of a list, each behind a dash.
pub open spec fn dashed(list: Seq<Seq<char>>) -> Seq<Seq<char>> {
    list.map_values(|item: Seq<char>| "    - "@ + item)
}

/// The lines of the files that are switched on or off.
pub open spec fn switched_lines(listing: Seq<(Seq<char>, bool)>) -> Seq<Seq<char>> {
    listing.map_values(
        |file: (Seq<char>, bool)| "    - "@ + file.0 + " => "@ + bool_text(file.1),
    )
}

impl ConfigView {
    /// The settings that have one value each, in lines.
    pub open spec fn setting_lines(self, font_size: Seq<char>) -> Seq<Seq<char>> {
        seq![
            "Effective configuration:"@,
            "  poll_interval_ms: "@ + text::decimal(self.poll_interval_ms as nat),
            "  max_buffer_lines: "@ + text::decimal(self.max_buffer_lines as nat),
            "  max_line_len: "@ + text::decimal(self.max_line_len as nat),
            "  show_timestamps: "@ + bool_text(self.show_timestamps),
            "  gui_light_mode: "@ + bool_text(self.gui_light_mode),
            "  gui_theme: "@ + self.gui_theme.key(),
            "  gui_word_wrap: "@ + bool_text(self.gui_word_wrap),
            "  gui_font_size: "@ + font_size,
            "  case_insensitive_text_filter: "@ + bool_text(self.case_insensitive_text_filter),
        ]
    }

    /// The configuration in lines; `font_size` is the size of the font in words.
    pub open spec fn summary_lines(self, font_size: Seq<char>) -> Seq<Seq<char>> {
        let switched = self.tracked_file_enabled;
        self.setting_lines(font_size) + seq![
            "  blacklist_regex count: "@ + text::decimal(self.blacklist_regex.len()),
        ] + dashed(self.blacklist_regex) + seq![
            "  whitelist_regex count: "@ + text::decimal(self.whitelist_regex.len()),
        ] + dashed(self.whitelist_regex) + seq![
            "  tracked_files ("@ + text::decimal(self.tracked_files.len()) + "):"@,
        ] + dashed(self.tracked_files) + (if switched.len() > 0 {
            seq!["  tracked_file_enabled ("@ + text::decimal(switched.len()) + "):"@]
                + switched_lines(switched)
        } else {
            seq![]
        })
    }
}

fn push_line(lines: &mut Vec<String>, start: &str, rest: &str)
    ensures
        text::texts(final(lines)@) == text::texts(old(lines)@).push(start@ + rest@),
{
    let ghost before = text::texts(lines@);
    let mut line: String = start.to_owned();
    line.append(rest);
    lines.push(line);
    assert(text::texts(lines@) =~= before.push(start@ + rest@));
}

fn push_dashed(lines: &mut Vec<String>, list: &Vec<String>)
    ensures
        text::texts(final(lines)@) == text::texts(old(lines)@) + dashed(text::texts(list@)),
{
    let ghost before = text::texts(lines@);
    let ghost all = dashed(text::texts(list@));
    let mut i: usize = 0;
    assert(before + all.take(0) =~= before);
    while i < list.len()
        invariant
            all == dashed(text::texts(list@)),
            i <= list@.len(),
            text::texts(lines@) == before + all.take(i as int),
        decreases list@.len() - i,
    {
        assert((before + all.take(i as int)).push(all[i as int]) =~= before + all.take(i + 1));
        push_line(lines, "    - ", list[i].as_str());
        i = i + 1;
    }
    assert(all.take(i as int) =~= all);
}

impl AppConfig {
    fn setting_texts(&self, font_size: &str) -> (res: Vec<String>)
        ensures
            text::texts(res@) == self@.setting_lines(font_size@),
    {
        let mut res: Vec<String> = Vec::new();
        let ghost wanted = self@.setting_lines(font_size@);
        assert(text::texts(res@) =~= seq![]);
        res.push("Effective configuration:".to_owned());
        assert(text::texts(res@) =~= seq![wanted[0]]);
        push_line(
            &mut res,
            "  poll_interval_ms: ",
            text::decimal_text(self.poll_interval_ms).as_str(),
        );
        push_line(
            &mut res,
            "  max_buffer_lines: ",
            text::decimal_text(self.max_buffer_lines as u64).as_str(),
        );
        push_line(
            &mut res,
            "  max_line_len: ",
            text::decimal_text(self.max_line_len as u64).as_str(),
        );
        push_line(&mut res, "  show_timestamps: ", bool_word(self.show_timestamps));
        push_line(&mut res, "  gui_light_mode: ", bool_word(self.gui_light_mode));
        push_line(&mut res, "  gui_theme: ", self.gui_theme.config_key());
        push_line(&mut res, "  gui_word_wrap: ", bool_word(self.gui_word_wrap));
        push_line(&mut res, "  gui_font_size: ", font_size);
        push_line(
            &mut res,
            "  case_insensitive_text_filter: ",
            bool_word(self.case_insensitive_text_filter),
        );
        assert(text::texts(res@) =~= wanted);
        res
    }

    fn push_switched(&self, lines: &mut Vec<String>)
        ensures
            text::texts(final(lines)@) == text::texts(old(lines)@) + switched_lines(
                self@.tracked_file_enabled,
            ),
    {
        let ghost before = text::texts(lines@);
        let ghost all = switched_lines(self@.tracked_file_enabled);
        let mut i: usize = 0;
        assert(before + all.take(0) =~= before);
        while i < self.tracked_file_enabled.len()
            invariant
                all == switched_lines(self@.tracked_file_enabled),
                i <= self@.tracked_file_enabled.len(),
                text::texts(lines@) == before + all.take(i as int),
            decreases self@.tracked_file_enabled.len() - i,
        {
            assert((before + all.take(i as int)).push(all[i as int]) =~= before + all.take(i + 1));
            let entry: String = text::concat3(
                "    - ",
                self.tracked_file_enabled.path_at(i).as_str(),
                " => ",
            );
            push_line(lines, entry.as_str(), bool_word(self.tracked_file_enabled.enabled_at(i)));
            i = i + 1;
        }
        assert(all.take(i as int) =~= all);
    }

    /// The configuration in words; `font_size` is the size of the font in words.
    pub fn summary_string(&self, font_size: &str) -> (res: String)
        ensures
            res@ == text::lines_text(self@.summary_lines(font_size@)),
    {
        let mut lines: Vec<String> = self.setting_texts(font_size);
        let ghost view = self@;
        let ghost l0 = text::texts(lines@);
        push_line(
            &mut lines,
            "  blacklist_regex count: ",
            text::decimal_text(self.blacklist_regex.len() as u64).as_str(),
        );
        push_dashed(&mut lines, &self.blacklist_regex);
        push_line(
            &mut lines,
            "  whitelist_regex count: ",
            text::decimal_text(self.whitelist_regex.len() as u64).as_str(),
        );
        push_dashed(&mut lines, &self.whitelist_regex);
        let tracked_count: String = text::concat3(
            "  tracked_files (",
            text::decimal_text(self.tracked_files.len() as u64).as_str(),
            "):",
        );
        push_line(&mut lines, tracked_count.as_str(), "");
        push_dashed(&mut lines, &self.tracked_files);
        if self.tracked_file_enabled.len() > 0 {
            let switched_count: String = text::concat3(
                "  tracked_file_enabled (",
                text::decimal_text(self.tracked_file_enabled.len() as u64).as_str(),
                "):",
            );
            push_line(&mut lines, switched_count.as_str(), "");
            self.push_switched(&mut lines);
        }
        proof {
            reveal_strlit("");
            let count = "  tracked_files ("@ + text::decimal(view.tracked_files.len()) + "):"@;
            let switched = "  tracked_file_enabled ("@ + text::decimal(
                view.tracked_file_enabled.len(),
            ) + "):"@;
            assert(count + ""@ =~= count);
            assert(switched + ""@ =~= switched);
            assert(text::texts(lines@) =~= view.summary_lines(font_size@));
        }
        text::join_lines(&lines)
    }
}

/// The keys of a configuration file that belong to this application.
pub open spec fn app_keys() -> Seq<Seq<char>> {
    seq![
        "poll_interval_ms"@,
        "tracked_files"@,
        "max_buffer_lines"@,
        "max_line_len"@,
        "show_timestamps"@,
        "gui_light_mode"@,
        "gui_theme"@,
        "gui_word_wrap"@,
        "gui_font_size"@,
        "case_insensitive_text_filter"@,
        "blacklist_regex"@,
        "whitelist_regex"@,
    ]
}

/// A key of the list belongs to this application.
pub open spec fn holds_app_key(keys: Seq<Seq<char>>) -> bool {
    exists|i: int| 0 <= i < keys.len() && app_keys().contains(#[trigger] keys[i])
}

fn is_app_key(key: &str) -> (res: bool)
    ensures
        res == app_keys().contains(key@),
{
    let all: Vec<&'static str> = vec![
        "poll_interval_ms",
        "tracked_files",
        "max_buffer_lines",
        "max_line_len",
        "show_timestamps",
        "gui_light_mode",
        "gui_theme",
        "gui_word_wrap",
        "gui_font_size",
        "case_insensitive_text_filter",
        "blacklist_regex",
        "whitelist_regex",
    ];
    assert(text::slices(all@) =~= app_keys());
    let mut i: usize = 0;
    while i < all.len()
        invariant
            i <= all@.len(),
            text::slices(all@) == app_keys(),
            forall|j: int| 0 <= j < i ==> #[trigger] app_keys()[j] != key@,
        decreases all@.len() - i,
    {
        assert(app_keys()[i as int] == all@[i as int]@);
        if text::same_text(all[i], key) {
            return true;
        }
        i = i + 1;
    }
    false
}

/// Whether a key of the list belongs to this application.
pub fn has_app_key(keys: &Vec<String>) -> (res: bool)
    ensures
        res == holds_app_key(text::texts(keys@)),
{
    let mut i: usize = 0;
    while i < keys.len()
        invariant
            i <= keys@.len(),
            forall|j: int|
                0 <= j < i ==> !app_keys().contains(#[trigger] text::texts(keys@)[j]),
        decreases keys@.len() - i,
    {
        assert(text::texts(keys@)[i as int] == keys@[i as int]@);
        if is_app_key(keys[i].as_str()) {
            return true;
        }
        i = i + 1;
    }
    false
}

/// The keys at the top level of a TOML document, where the text is one.
pub uninterp spec fn toml_keys(raw: Seq<char>) -> Option<Seq<Seq<char>>>;

/// `toml::from_str` parses a text as a TOML document, or fails; the keys of the table that it gives
/// depend on the text alone, as `toml_keys` says.
#[verifier::external_body]
fn top_level_keys(raw: &str) -> (res: Option<Vec<String>>)
    ensures
        match res {
            Some(keys) => toml_keys(raw@) == Some(text::texts(keys@)),
            None => toml_keys(raw@) is None,
        },
{
    let value: toml::Value = toml::from_str(raw).ok()?;
    Some(value.as_table()?.keys().cloned().collect())
}

/// The text is a TOML document with a key of this application, and the settings that it holds,
/// which `parsed` gives where they could be read, are valid but for a lack of files.
pub open spec fn app_config(raw: Seq<char>, parsed: Option<FileConfig>) -> bool {
    &&& toml_keys(raw) is Some
    &&& holds_app_key(toml_keys(raw)->0)
    &&& parsed is Some
    &&& parsed->0.config().error_but_for_files() is None
}

/// Whether a text is a configuration of this application; `parsed` holds the settings that were
/// read from it.
pub fn is_logtrak_app_config_file(raw: &str, parsed: Option<FileConfig>) -> (res: bool)
    requires
        parsed is Some ==> parsed->0.wf(),
    ensures
        res == app_config(raw@, parsed),
{
    match top_level_keys(raw) {
        None => false,
        Some(keys) => is_app_config_with_keys(&keys, parsed),
    }
}

/// Whether a document with the given keys and settings is a configuration of this application.
pub fn is_app_config_with_keys(keys: &Vec<String>, parsed: Option<FileConfig>) -> (res: bool)
    requires
        parsed is Some ==> parsed->0.wf(),
    ensures
        res == (holds_app_key(text::texts(keys@)) && parsed is Some
            && parsed->0.config().error_but_for_files() is None),
{
    if !has_app_key(keys) {
        return false;
    }
    match parsed {
        None => false,
        Some(file) => AppConfig::from_file_allow_empty_files(file).is_ok(),
    }
}

/// What is to be done about the default configuration of a directory.
#[derive(Debug, Clone, Copy, PartialEq, Eq, Structural)]
pub enum DefaultConfigAction {
    /// There is one, and it is valid.
    Use,
    /// There is one, and it is not valid.
    Refuse,
    /// There is none.
    Create,
}

/// What is to be done about the default configuration of a directory.
pub fn default_config_action(exists: bool, valid: bool) -> (res: DefaultConfigAction)
    ensures
        res == (if !exists {
            DefaultConfigAction::Create
        } else if valid {
            DefaultConfigAction::Use
        } else {
            DefaultConfigAction::Refuse
        }),
{
    if exists {
        if valid {
            return DefaultConfigAction::Use;
        }
        return DefaultConfigAction::Refuse;
    }
    DefaultConfigAction::Create
}

/// Where the default configuration of a directory stands.
pub fn default_config_path(dir: &str) -> (res: String)
    ensures
        res@ == paths::joined(dir@, "default.toml"@),
{
    paths::join(dir, "default.toml")
}

/// The message that the default configuration is not valid.
pub fn invalid_default_message(path: &str) -> (res: String)
    ensures
        res@ == "default config exists but is invalid for this app: "@ + path@,
{
    let mut res: String = "default config exists but is invalid for this app: ".to_owned();
    res.append(path);
    res
}

/// The theme of a configuration file is that of the configuration and says whether the interface is
/// light, whatever the older switch says.
pub proof fn theme_prevails_over_light_mode(file: FileConfig)
    requires
        file.gui_theme is Some,
    ensures
        file.config().gui_theme == file.gui_theme->0,
        file.config().gui_light_mode == file.gui_theme->0.light(),
{
}

/// Theme and light mode of a merged configuration agree.
pub proof fn light_mode_fits_theme(file: Option<FileConfig>, cli: CliView)
    ensures
        merged(file, cli).gui_light_mode == merged(file, cli).gui_theme.light(),
{
}

/// A bare command line changes nothing.
pub proof fn bare_command_line_changes_nothing(config: ConfigView)
    ensures
        config.overridden(cli::bare_command_line()) == config,
{
}

/// What the command line sets prevails over the file.
pub proof fn command_line_prevails(file: Option<FileConfig>, cli: CliView)
    ensures
        cli.poll_ms is Some ==> merged(file, cli).poll_interval_ms == cli.poll_ms->0,
        cli.max_buffer_lines is Some ==> merged(file, cli).max_buffer_lines
            == cli.max_buffer_lines->0,
        cli.max_line_len is Some ==> merged(file, cli).max_line_len == cli.max_line_len->0,
        cli.files.len() > 0 ==> merged(file, cli).tracked_files == cli.files,
        cli.no_timestamps ==> !merged(file, cli).show_timestamps,
        cli.case_sensitive_filter ==> !merged(file, cli).case_insensitive_text_filter,
{
}

/// The default configuration lacks nothing but files.
pub proof fn default_config_lacks_only_files()
    ensures
        default_config().error() == Some(ErrorView::NoTrackedFiles),
        default_config().error_but_for_files() is None,
{
}

} // verus!
