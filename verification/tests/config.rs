use logtrak::cli::CliArgs;
use logtrak::config::{
    default_config_action, default_config_path, has_app_key, invalid_default_message,
    is_app_config_with_keys, is_logtrak_app_config_file, merge_config, AppConfig,
    ConfigValidationError, DefaultConfigAction, FileConfig, FontSize, GuiTheme,
};
use logtrak::enabled_files::EnabledFiles;
use logtrak::gui::{config_candidates, discover_app_configs_in_roots};
use logtrak::snapshot::DirEntry;

fn font(size: f32) -> FontSize {
    FontSize {
        bits: size.to_bits(),
    }
}

fn texts(list: &[&str]) -> Vec<String> {
    list.iter().map(|s| s.to_string()).collect()
}

fn text_list(value: &toml::Value) -> Vec<String> {
    value
        .as_array()
        .expect("list")
        .iter()
        .map(|item| item.as_str().expect("text").to_string())
        .collect()
}

/// The settings that a TOML text holds.
fn parse(content: &str) -> Option<FileConfig> {
    let value: toml::Value = toml::from_str(content).ok()?;
    let table = value.as_table()?;
    let enabled = table.get("tracked_file_enabled").map(|value| {
        let mut files = EnabledFiles::new();
        for (path, enabled) in value.as_table().expect("table") {
            files.insert(path.clone(), enabled.as_bool().expect("bool"));
        }
        files
    });
    let size = |key: &str| {
        table
            .get(key)
            .map(|value| value.as_integer().expect("number") as usize)
    };
    let flag = |key: &str| table.get(key).map(|value| value.as_bool().expect("bool"));
    Some(FileConfig {
        poll_interval_ms: size("poll_interval_ms").map(|value| value as u64),
        tracked_files: table.get("tracked_files").map(text_list),
        tracked_file_enabled: enabled,
        max_buffer_lines: size("max_buffer_lines"),
        max_line_len: size("max_line_len"),
        show_timestamps: flag("show_timestamps"),
        gui_light_mode: flag("gui_light_mode"),
        gui_theme: table.get("gui_theme").map(|value| {
            GuiTheme::from_config_key(value.as_str().expect("text")).expect("theme")
        }),
        gui_word_wrap: flag("gui_word_wrap"),
        gui_font_size: table
            .get("gui_font_size")
            .map(|value| font(value.as_float().expect("number") as f32)),
        case_insensitive_text_filter: flag("case_insensitive_text_filter"),
        blacklist_regex: table.get("blacklist_regex").map(text_list),
        whitelist_regex: table.get("whitelist_regex").map(text_list),
    })
}

fn file(content: &str) -> Option<FileConfig> {
    Some(parse(content).expect("valid TOML"))
}

#[test]
fn file_config_loads_and_validates() {
    let file = file(
        r#"
poll_interval_ms = 2000
max_buffer_lines = 7777
max_line_len = 256
show_timestamps = false
gui_light_mode = true
gui_font_size = 16.0
gui_word_wrap = false
case_insensitive_text_filter = false
blacklist_regex = ["DEBUG.*"]
whitelist_regex = ["DEBUG.*critical"]
tracked_files = ["./a.log", "./b.log"]
tracked_file_enabled = { "./a.log" = true, "./b.log" = false }
"#,
    );
    let config = AppConfig::from_cli(&CliArgs::default(), file).expect("valid config");

    assert_eq!(config.poll_interval_ms, 2000);
    assert_eq!(config.max_buffer_lines, 7777);
    assert_eq!(config.max_line_len, 256);
    assert!(!config.show_timestamps);
    assert!(config.gui_light_mode);
    assert_eq!(config.gui_theme, GuiTheme::Light);
    assert!(!config.gui_word_wrap);
    assert_eq!(config.gui_font_size, font(16.0));
    assert!(!config.case_insensitive_text_filter);
    assert_eq!(config.blacklist_regex, vec!["DEBUG.*".to_string()]);
    assert_eq!(config.whitelist_regex, vec!["DEBUG.*critical".to_string()]);
    assert_eq!(config.tracked_files.len(), 2);
    assert_eq!(config.tracked_file_enabled.len(), 2);
    assert_eq!(config.tracked_file_enabled.path_at(1), "./b.log");
    assert!(!config.tracked_file_enabled.enabled_at(1));
    assert_eq!(config.tracked_file_enabled_map().get("./b.log"), Some(&false));
    assert_eq!(config.tracked_file_enabled_map().get("./a.log"), Some(&true));
    assert_eq!(config.tracked_file_enabled_map().get("./c.log"), None);
}

#[test]
fn cli_overrides_file_config() {
    let file = file(
        r#"
poll_interval_ms = 2000
max_buffer_lines = 7777
max_line_len = 256
show_timestamps = false
gui_light_mode = true
gui_font_size = 15.0
case_insensitive_text_filter = false
blacklist_regex = ["x"]
whitelist_regex = ["y"]
tracked_files = ["./a.log", "./b.log"]
"#,
    );
    let cli = CliArgs {
        config: Some("/tmp/config.toml".to_string()),
        poll_ms: Some(1500),
        max_buffer_lines: Some(100),
        max_line_len: Some(80),
        show_timestamps: true,
        no_timestamps: false,
        print_config_only: false,
        headless: false,
        gui: false,
        case_insensitive_filter: true,
        case_sensitive_filter: false,
        blacklist_regex: texts(&["ERROR"]),
        whitelist_regex: texts(&["ERROR keep"]),
        files: texts(&["/tmp/override.log"]),
    };
    let config = AppConfig::from_cli(&cli, file).expect("valid config");

    assert_eq!(config.poll_interval_ms, 1500);
    assert_eq!(config.max_buffer_lines, 100);
    assert_eq!(config.max_line_len, 80);
    assert!(config.show_timestamps);
    assert!(config.gui_light_mode);
    assert_eq!(config.gui_theme, GuiTheme::Light);
    assert!(config.gui_word_wrap);
    assert_eq!(config.gui_font_size, font(15.0));
    assert!(config.case_insensitive_text_filter);
    assert_eq!(config.blacklist_regex, vec!["ERROR".to_string()]);
    assert_eq!(config.whitelist_regex, vec!["ERROR keep".to_string()]);
    assert_eq!(config.tracked_files, vec!["/tmp/override.log".to_string()]);
}

#[test]
fn switches_that_say_no_prevail() {
    let cli = CliArgs {
        show_timestamps: true,
        no_timestamps: true,
        case_insensitive_filter: true,
        case_sensitive_filter: true,
        ..CliArgs::default()
    };
    let config = merge_config(None, &cli);
    assert!(!config.show_timestamps);
    assert!(!config.case_insensitive_text_filter);
}

#[test]
fn requires_at_least_one_file() {
    let err = AppConfig::from_cli(&CliArgs::default(), None)
        .expect_err("expected missing files validation error");
    assert!(err.message("14").contains("no tracked files configured"));
    assert_eq!(
        err.message("14"),
        "no tracked files configured; pass FILE arguments or set tracked_files in config"
    );
}

#[test]
fn allow_empty_files_loader_accepts_no_tracked_files() {
    let file = file(
        r#"
poll_interval_ms = 1000
max_buffer_lines = 100
max_line_len = 128
show_timestamps = true
"#,
    );
    let config = AppConfig::from_cli_allow_empty_files(&CliArgs::default(), file)
        .expect("allow empty files");
    assert!(config.tracked_files.is_empty());
}

#[test]
fn rejects_invalid_regex() {
    let cli = CliArgs {
        blacklist_regex: texts(&["("]),
        files: texts(&["/tmp/app.log"]),
        ..CliArgs::default()
    };

    let err = AppConfig::from_cli(&cli, None).expect_err("invalid regex should fail");
    assert!(err.message("14").contains("regex"));
    assert!(err.message("14").starts_with("blacklist regex `(` is invalid: "));
    assert!(err.message("14").contains("unclosed group"));
}

#[test]
fn rejects_invalid_gui_font_size() {
    let file = file(
        r#"
poll_interval_ms = 1000
max_buffer_lines = 100
max_line_len = 128
show_timestamps = true
gui_light_mode = false
gui_font_size = 0.0
tracked_files = ["/tmp/app.log"]
"#,
    );
    let err = AppConfig::from_cli(&CliArgs::default(), file)
        .expect_err("invalid gui font size should fail");
    assert!(err.message("0").contains("gui_font_size"));
    assert_eq!(err.message("0"), "gui_font_size must be > 0 and finite, got 0");
}

#[test]
fn font_sizes_are_judged_as_numbers() {
    for size in [
        0.0,
        -0.0,
        -1.0,
        f32::NAN,
        -f32::NAN,
        f32::INFINITY,
        f32::NEG_INFINITY,
        f32::MIN_POSITIVE,
        f32::from_bits(1),
        f32::MAX,
        f32::MIN,
        14.0,
        0.5,
    ] {
        let mut config = AppConfig::default();
        config.tracked_files = texts(&["/tmp/a.log"]);
        config.gui_font_size = font(size);
        assert_eq!(
            config.validate().is_ok(),
            size.is_finite() && size > 0.0,
            "{size}"
        );
    }
    assert_eq!(AppConfig::default().gui_font_size, font(14.0));
}

#[test]
fn gui_theme_overrides_legacy_gui_light_mode() {
    let file = file(
        r#"
poll_interval_ms = 1000
max_buffer_lines = 100
max_line_len = 128
show_timestamps = true
gui_light_mode = true
gui_theme = "shades_of_purple"
gui_font_size = 14.0
tracked_files = ["/tmp/app.log"]
"#,
    );
    let config = AppConfig::from_cli(&CliArgs::default(), file).expect("valid config");
    assert_eq!(config.gui_theme, GuiTheme::ShadesOfPurple);
    assert!(!config.gui_light_mode);
}

fn config_with_theme(key: &str) -> AppConfig {
    let content = format!(
        "poll_interval_ms = 1000\nmax_buffer_lines = 100\nmax_line_len = 128\n\
         show_timestamps = true\ngui_theme = \"{key}\"\ngui_font_size = 14.0\n\
         tracked_files = [\"/tmp/app.log\"]\n"
    );
    AppConfig::from_file(parse(&content).expect("valid TOML")).expect("valid config")
}

#[test]
fn parses_additional_popular_themes() {
    let config = config_with_theme("dracula");
    assert_eq!(config.gui_theme, GuiTheme::Dracula);
    assert!(!config.gui_light_mode);
}

#[test]
fn novare_theme_parses_and_is_dark_mode_compat() {
    let config = config_with_theme("novare");
    assert_eq!(config.gui_theme, GuiTheme::Novare);
    assert!(!config.gui_light_mode);
}

#[test]
fn novare_light_theme_sets_light_mode_compat_flag() {
    let config = config_with_theme("novare_light");
    assert_eq!(config.gui_theme, GuiTheme::NovareLight);
    assert!(config.gui_light_mode);
}

#[test]
fn solarized_light_sets_light_mode_compat_flag() {
    let config = config_with_theme("solarized_light");
    assert_eq!(config.gui_theme, GuiTheme::SolarizedLight);
    assert!(config.gui_light_mode);
}

#[test]
fn themes_are_read_back_from_their_keys() {
    assert_eq!(GuiTheme::all().len(), 12);
    for theme in GuiTheme::all() {
        assert_eq!(GuiTheme::from_config_key(theme.config_key()), Some(theme));
        assert!(!theme.display_name().is_empty());
    }
    assert_eq!(GuiTheme::from_config_key("Light"), None);
    assert_eq!(GuiTheme::Novare.display_name(), "Novare Dark");
    assert!(GuiTheme::Light.is_light());
    assert!(!GuiTheme::Nord.is_light());
}

#[test]
fn each_setting_is_validated_in_turn() {
    let mut config = AppConfig::default();
    config.poll_interval_ms = 0;
    config.max_buffer_lines = 0;
    config.max_line_len = 0;
    let err = config.validate().expect_err("poll interval");
    assert_eq!(err, ConfigValidationError::InvalidPollInterval(0));
    assert_eq!(err.message(""), "poll_interval_ms must be > 0, got 0");
    config.poll_interval_ms = 1;
    let err = config.validate().expect_err("buffer lines");
    assert_eq!(err, ConfigValidationError::InvalidMaxBufferLines(0));
    assert_eq!(err.message(""), "max_buffer_lines must be > 0, got 0");
    config.max_buffer_lines = 1;
    let err = config.validate().expect_err("line length");
    assert_eq!(err, ConfigValidationError::InvalidMaxLineLength(0));
    assert_eq!(err.message(""), "max_line_len must be > 0, got 0");
    config.max_line_len = 1;
    config.blacklist_regex = texts(&["ok"]);
    config.whitelist_regex = texts(&["["]);
    assert_eq!(config.validate(), Err(ConfigValidationError::NoTrackedFiles));
    config.tracked_files = texts(&["/tmp/a.log", ""]);
    let err = config.validate().expect_err("empty path");
    assert_eq!(err, ConfigValidationError::EmptyPath);
    assert_eq!(err.message(""), "tracked files contains an empty path");
    config.tracked_files = texts(&["/tmp/a.log"]);
    assert!(matches!(
        config.validate(),
        Err(ConfigValidationError::InvalidRegex { kind: "whitelist", pattern, .. }) if pattern == "["
    ));
    config.whitelist_regex.clear();
    assert!(config.validate().is_ok());
}

#[test]
fn errors_of_patterns_are_reported_as_given() {
    let mut config = AppConfig::default();
    config.tracked_files = texts(&["/tmp/a.log"]);
    config.blacklist_regex = texts(&["one", "two"]);
    assert!(config.validate_with(&vec![None, None], &Vec::new()).is_ok());
    assert_eq!(
        config.validate_with(&vec![None, Some("why".to_string())], &Vec::new()),
        Err(ConfigValidationError::InvalidRegex {
            kind: "blacklist",
            pattern: "two".to_string(),
            message: "why".to_string(),
        })
    );
}

#[test]
fn summary_lists_every_setting() {
    let mut config = AppConfig::default();
    config.tracked_files = texts(&["/tmp/a.log"]);
    config.blacklist_regex = texts(&["DEBUG", "TRACE"]);
    assert_eq!(
        config.summary_string("14"),
        "Effective configuration:\n\
        \x20 poll_interval_ms: 1000\n\
        \x20 max_buffer_lines: 10000\n\
        \x20 max_line_len: 512\n\
        \x20 show_timestamps: true\n\
        \x20 gui_light_mode: false\n\
        \x20 gui_theme: default_dark\n\
        \x20 gui_word_wrap: true\n\
        \x20 gui_font_size: 14\n\
        \x20 case_insensitive_text_filter: true\n\
        \x20 blacklist_regex count: 2\n\
        \x20   - DEBUG\n\
        \x20   - TRACE\n\
        \x20 whitelist_regex count: 0\n\
        \x20 tracked_files (1):\n\
        \x20   - /tmp/a.log\n"
    );
    config.set_tracked_file_enabled("/tmp/b.log", true);
    config.set_tracked_file_enabled("/tmp/a.log", false);
    config.set_tracked_file_enabled("/tmp/b.log", false);
    assert!(config.summary_string("14").ends_with(
        "  tracked_file_enabled (2):\n    - /tmp/a.log => false\n    - /tmp/b.log => false\n"
    ));
}

#[test]
fn settings_that_are_written_are_read_back() {
    let mut config = AppConfig::default();
    config.tracked_files = texts(&["/tmp/a.log"]);
    config.poll_interval_ms = 250;
    config.gui_theme = GuiTheme::SolarizedLight;
    config.gui_light_mode = true;
    config.set_tracked_file_enabled("/tmp/a.log", false);
    let read = AppConfig::from_file(config.to_file_config()).expect("valid config");
    assert_eq!(read.summary_string("14"), config.summary_string("14"));
}

#[test]
fn every_setting_is_written() {
    let mut config = AppConfig::default();
    config.gui_theme = GuiTheme::SolarizedLight;
    config.gui_light_mode = false;
    let written = config.to_file_config();
    assert_eq!(written.gui_light_mode, Some(false));
    assert!(written.gui_theme.is_some());
    assert_eq!(written.poll_interval_ms, Some(config.poll_interval_ms));
    assert_eq!(written.tracked_files, Some(Vec::new()));
    assert!(written.tracked_file_enabled.is_some());
    assert_eq!(written.max_buffer_lines, Some(config.max_buffer_lines));
    assert_eq!(written.max_line_len, Some(config.max_line_len));
    assert_eq!(written.show_timestamps, Some(config.show_timestamps));
    assert_eq!(written.gui_word_wrap, Some(config.gui_word_wrap));
    assert!(written.gui_font_size.is_some());
    assert_eq!(
        written.case_insensitive_text_filter,
        Some(config.case_insensitive_text_filter)
    );
    assert_eq!(written.blacklist_regex, Some(Vec::new()));
    assert_eq!(written.whitelist_regex, Some(Vec::new()));
    let light = AppConfig {
        gui_light_mode: true,
        ..AppConfig::default()
    };
    assert_eq!(light.to_file_config().gui_light_mode, Some(true));
}

#[test]
fn later_spellings_of_a_path_prevail() {
    let mut config = AppConfig::default();
    config.set_tracked_file_enabled("a/b", true);
    config.set_tracked_file_enabled("a//b", false);
    assert_eq!(config.tracked_file_enabled.len(), 2);
    assert_eq!(config.tracked_file_enabled_map().get("a/./b"), Some(&true));
}

#[test]
fn discover_first_app_config_in_dir_selects_sorted_valid_config() {
    let files = [
        ("z.toml", "poll_interval_ms = 1200\n"),
        ("a.toml", "show_timestamps = true\n"),
        ("notes.toml", "team = \"ops\"\n"),
    ];
    let entries: Vec<DirEntry> = files
        .iter()
        .map(|(name, _)| DirEntry {
            name: name.to_string(),
            is_file: true,
        })
        .collect();

    let candidates = config_candidates("/conf", &entries);
    assert_eq!(candidates, vec!["/conf/a.toml", "/conf/notes.toml", "/conf/z.toml"]);
    let found = candidates.into_iter().find(|path| {
        let (_, content) = files
            .iter()
            .find(|(name, _)| path.ends_with(name))
            .expect("file");
        is_logtrak_app_config_file(content, parse(content))
    });
    assert_eq!(found, Some("/conf/a.toml".to_string()));
}

#[test]
fn app_configs_are_told_by_their_keys_and_settings() {
    assert!(is_logtrak_app_config_file("max_line_len = 5", parse("max_line_len = 5")));
    assert!(!is_logtrak_app_config_file("max_line_len = 0", parse("max_line_len = 0")));
    assert!(!is_logtrak_app_config_file("team = 1", parse("team = 1")));
    assert!(!is_logtrak_app_config_file("not toml", None));
    assert!(!is_logtrak_app_config_file("max_line_len = \"x\"", None));
    assert!(!is_logtrak_app_config_file(
        "tracked_file_enabled = {}",
        parse("tracked_file_enabled = {}")
    ));
    assert!(has_app_key(&texts(&["team", "gui_theme"])));
    assert!(!has_app_key(&texts(&["tracked_file_enabled"])));
    assert!(is_app_config_with_keys(&texts(&["gui_theme"]), parse("")));
    assert!(!is_app_config_with_keys(&texts(&["team"]), parse("")));
    assert!(!is_app_config_with_keys(&texts(&["gui_theme"]), None));
}

#[test]
fn create_default_config_in_dir_writes_default_toml() {
    assert_eq!(default_config_path("/conf"), "/conf/default.toml");
    assert_eq!(default_config_action(false, false), DefaultConfigAction::Create);

    let written = AppConfig::default().to_file_config();
    let config = AppConfig::from_file_allow_empty_files(written).expect("load default config");
    assert!(config.tracked_files.is_empty());
    assert_eq!(config.poll_interval_ms, 1_000);
}

#[test]
fn default_config_that_is_there_is_used_or_refused() {
    assert_eq!(default_config_action(true, true), DefaultConfigAction::Use);
    assert_eq!(default_config_action(true, false), DefaultConfigAction::Refuse);
    assert_eq!(
        invalid_default_message("/conf/default.toml"),
        "default config exists but is invalid for this app: /conf/default.toml"
    );
}

#[test]
fn discover_app_configs_in_roots_filters_and_orders() {
    let files = [
        ("b.toml", "tracked_files = [\"/tmp/two.log\"]\n"),
        ("a.toml", "tracked_files = [\"/tmp/one.log\"]\n"),
        ("not-app.toml", "poll_interval_ms = 1000"),
        ("notes.txt", "tracked_files = [\"/tmp/nope.log\"]"),
    ];
    let entries: Vec<DirEntry> = files
        .iter()
        .map(|(name, _)| DirEntry {
            name: name.to_string(),
            is_file: true,
        })
        .collect();
    let valid: Vec<String> = config_candidates("/conf", &entries)
        .into_iter()
        .filter(|path| {
            let (_, content) = files
                .iter()
                .find(|(name, _)| path.ends_with(name))
                .expect("file");
            parse(content).is_some_and(|file| AppConfig::from_file(file).is_ok())
        })
        .collect();

    let discovered = discover_app_configs_in_roots(&vec![valid]);
    assert_eq!(discovered, vec!["/conf/a.toml", "/conf/b.toml"]);
}

#[test]
fn discovered_configs_come_root_by_root_and_once() {
    let valid = vec![texts(&["/b/z.toml", "/b/a.toml"]), texts(&["/a/x.toml", "/b//a.toml"])];
    assert_eq!(
        discover_app_configs_in_roots(&valid),
        vec!["/b/a.toml", "/b/z.toml", "/a/x.toml"]
    );
}

#[test]
fn toml_files_are_told_by_their_extension() {
    let entries: Vec<DirEntry> = [
        ("A.TOML", true),
        ("b.ToMl", true),
        (".toml", true),
        ("toml", true),
        ("c.toml.bak", true),
        ("dir.toml", false),
    ]
    .iter()
    .map(|(name, is_file)| DirEntry {
        name: name.to_string(),
        is_file: *is_file,
    })
    .collect();
    assert_eq!(config_candidates("d", &entries), vec!["d/A.TOML", "d/b.ToMl"]);
}
