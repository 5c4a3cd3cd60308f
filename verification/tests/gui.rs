use logtrak::config::{AppConfig, GuiTheme};
use logtrak::dates::CalendarDate;
use logtrak::gui::{
    cargo_quick_start_lines, default_config_search_roots, exe_option_lines, exe_quick_start_lines,
    merge_discovered_configs, recent_from_stored, select_startup_config, windows_shortcut_lines,
    GuiState, MAX_RECENT_CONFIGS,
};
use logtrak::gui_theme::{start_button_color, stop_button_color, visuals_for_theme, Rgb};
use logtrak::snapshot::{FileStat, ReadOutcome, Snapshot, StatOutcome};

fn texts(list: &[&str]) -> Vec<String> {
    list.iter().map(|s| s.to_string()).collect()
}

#[test]
fn select_startup_config_prefers_cli_then_mru() {
    let cli_path = "/tmp/cli.toml".to_string();
    let mru = texts(&["/tmp/recent.toml"]);

    assert_eq!(
        select_startup_config(Some(cli_path.clone()), &mru),
        Some(cli_path)
    );
    assert_eq!(
        select_startup_config(None, &mru),
        Some("/tmp/recent.toml".to_string())
    );
    assert_eq!(select_startup_config(None, &[]), None);
}

#[test]
fn merge_discovered_configs_keeps_mru_order_and_appends_unique() {
    let mut recent_configs = texts(&["/tmp/recent.toml", "/tmp/shared.toml"]);
    let discovered = texts(&["/tmp/shared.toml", "/tmp/discovered.toml"]);

    merge_discovered_configs(&mut recent_configs, discovered);

    assert_eq!(
        recent_configs,
        texts(&["/tmp/recent.toml", "/tmp/shared.toml", "/tmp/discovered.toml"])
    );
}

#[test]
fn startup_help_lists_core_exe_options() {
    let options_text = exe_option_lines().join("\n");
    let usage_text = exe_quick_start_lines().join("\n");
    let shortcut_text = windows_shortcut_lines().join("\n");

    assert!(usage_text.contains("rustylogviewer.exe --gui"));
    assert!(options_text.contains("--config <PATH>"));
    assert!(options_text.contains("--blacklist-regex <REGEX>"));
    assert!(shortcut_text.contains("New > Shortcut"));
    assert!(cargo_quick_start_lines().join("\n").contains("cargo run -- --gui"));
}

fn today() -> CalendarDate {
    CalendarDate {
        year: 2026,
        month: 4,
        day: 24,
    }
}

fn grown(len: u64, bytes: &[u8], offset: u64) -> Snapshot {
    let mut snapshot = Snapshot::new();
    snapshot.record_stat(
        "/tmp/a.log".to_string(),
        StatOutcome::Found(FileStat {
            is_file: true,
            len,
            modified: Some(len as i128),
            identity: None,
        }),
    );
    snapshot.record_read(
        "/tmp/a.log".to_string(),
        offset,
        ReadOutcome::Bytes(bytes.to_vec()),
    );
    snapshot
}

fn valid_config() -> AppConfig {
    let mut config = AppConfig::default();
    config.tracked_files = texts(&["/tmp/a.log"]);
    config
}

fn running_state() -> GuiState {
    let mut state = GuiState::new(Vec::new());
    state.open_config("/tmp/c.toml", Ok(valid_config()));
    state.start_stream(today(), &grown(0, b"", 0), "14");
    assert!(state.running);
    state
}

#[test]
fn load_recent_configs_missing_file_is_empty() {
    assert!(recent_from_stored(&Vec::new()).is_empty());
}

#[test]
fn load_recent_configs_dedupes_and_limits_entries() {
    let mut paths = Vec::new();
    for i in 0..(MAX_RECENT_CONFIGS + 5) {
        paths.push(format!("/tmp/config-{}.toml", i));
    }
    paths.insert(3, "/tmp/config-0.toml".to_string());
    paths.insert(5, String::new());

    let recents = recent_from_stored(&paths);
    assert_eq!(recents.first(), Some(&"/tmp/config-0.toml".to_string()));
    assert!(recents.len() <= MAX_RECENT_CONFIGS);
    assert_eq!(
        recents
            .iter()
            .filter(|p| **p == "/tmp/config-0.toml")
            .count(),
        1
    );
    assert!(!recents.iter().any(|p| p.is_empty()));
    assert_eq!(recents.last(), Some(&"/tmp/config-9.toml".to_string()));
}

#[test]
fn recent_configs_come_first_once_and_not_too_many() {
    let mut state = GuiState::new(Vec::new());
    for i in 0..12 {
        state.push_recent_config(&format!("/tmp/{i}.toml"));
    }
    assert_eq!(state.recent_configs.len(), MAX_RECENT_CONFIGS);
    assert_eq!(state.recent_configs[0], "/tmp/11.toml");
    state.push_recent_config("/tmp//5.toml");
    assert_eq!(state.recent_configs.len(), MAX_RECENT_CONFIGS);
    assert_eq!(state.recent_configs[0], "/tmp//5.toml");
    assert!(!state.recent_configs.contains(&"/tmp/5.toml".to_string()));
    state.remove_recent_config_at(1);
    assert_eq!(state.recent_configs[1], "/tmp/10.toml");
    state.remove_recent_config_at(99);
    assert_eq!(state.recent_configs.len(), MAX_RECENT_CONFIGS - 1);
    state.clear_recent_configs();
    assert!(state.recent_configs.is_empty());
    assert_eq!(state.status_message, "Cleared recent config list");
}

#[test]
fn search_roots_are_distinct() {
    let dir = |s: &str| Some(s.to_string());
    assert_eq!(default_config_search_roots(dir("/a"), dir("/a/")), vec!["/a"]);
    assert_eq!(default_config_search_roots(dir("/a"), dir("/b")), vec!["/a", "/b"]);
    assert_eq!(default_config_search_roots(None, dir("/b")), vec!["/b"]);
    assert!(default_config_search_roots(None, None).is_empty());
}

#[test]
fn configs_are_opened_and_made_anew() {
    let mut state = running_state();
    assert_eq!(state.status_message, "Stream started (existing lines preserved)");
    state.open_config("/tmp/bad.toml", Err("no such file".to_string()));
    assert!(state.running);
    assert_eq!(
        state.status_message,
        "Failed to load /tmp/bad.toml: no such file"
    );
    assert_eq!(state.config_file_label(), "File: /tmp/c.toml");
    state.open_config("/tmp/d.toml", Ok(valid_config()));
    assert!(!state.running);
    assert_eq!(state.status_message, "Loaded /tmp/d.toml");
    assert_eq!(state.recent_configs, vec!["/tmp/d.toml", "/tmp/c.toml"]);
    state.new_config();
    assert_eq!(state.config_file_label(), "File: (unsaved)");
    assert!(state.config.tracked_files.is_empty());
    assert_eq!(
        state.status_message,
        "Created new config (unsaved). Add files before starting."
    );
}

#[test]
fn streams_that_cannot_start_say_why() {
    let mut state = GuiState::new(Vec::new());
    state.start_stream(today(), &Snapshot::new(), "14");
    assert_eq!(
        state.status_message,
        "Invalid config: no tracked files configured; pass FILE arguments or set tracked_files in config"
    );
    assert!(!state.running);

    state.config = valid_config();
    let mut failing = Snapshot::new();
    failing.record_stat("/tmp/a.log".to_string(), StatOutcome::Failed);
    state.start_stream(today(), &failing, "14");
    assert_eq!(
        state.status_message,
        "Failed to initialize watcher: failed to stat /tmp/a.log"
    );
    assert!(!state.running);
}

#[test]
fn polls_wait_for_their_time() {
    let mut state = running_state();
    assert!(!state.is_poll_due(999));
    assert!(state.is_poll_due(1000));
    assert_eq!(state.repaint_wait_ms(0), 1000);
    assert_eq!(state.repaint_wait_ms(999), 1);
    assert_eq!(state.repaint_wait_ms(1000), 0);
    assert_eq!(state.repaint_wait_ms(u64::MAX), 0);
    let news = grown(8, b"one\ntwo\n", 0);
    assert!(!state.poll_if_due(999, today(), &news, 0, Some(0)));
    assert!(state.events.is_empty());
    assert!(state.poll_if_due(1000, today(), &news, 3_661, Some(0)));
    assert_eq!(state.events.len(), 2);
    assert_eq!(state.total_seen, 2);
    assert_eq!(state.events[0].with_ts, "[01:01:01] [a.log] one");
    assert_eq!(state.events[0].without_ts, "[a.log] one");
    assert!(!state.poll_if_due(1000, today(), &grown(8, b"", 8), 0, None));
    state.stop_on_request();
    assert!(!state.is_poll_due(99_999));
    assert_eq!(state.status_message, "Stream stopped");
}

#[test]
fn rules_are_applied_and_reloaded() {
    let mut state = running_state();
    state.config.blacklist_regex = texts(&["DEBUG"]);
    state.maybe_reload_rules_while_running();
    assert_eq!(state.status_message, "Applied updated regex rules");
    assert!(state.poll_if_due(1000, today(), &grown(12, b"one\nDEBUG x\n", 0), 0, None));
    assert_eq!(state.events.len(), 1);
    assert_eq!(state.suppressed_by_rules, 1);

    state.config.blacklist_regex = texts(&["("]);
    state.maybe_reload_rules_while_running();
    assert_eq!(
        state.status_message,
        "Regex update failed: invalid blacklist regex `(`"
    );
    state.stop_stream();
    state.status_message = "quiet".to_string();
    state.maybe_reload_rules_while_running();
    assert_eq!(state.status_message, "quiet");
}

#[test]
fn failing_watcher_stops_the_stream() {
    let mut state = GuiState::new(Vec::new());
    let mut config = AppConfig::default();
    config.tracked_files = texts(&["/tmp/app_{mmdd}.log"]);
    state.open_config("/tmp/c.toml", Ok(config));
    state.start_stream(today(), &Snapshot::new(), "14");
    assert!(state.running);

    let tomorrow = CalendarDate {
        year: 2026,
        month: 4,
        day: 25,
    };
    let mut failing = Snapshot::new();
    failing.record_stat("/tmp/app_0425.log".to_string(), StatOutcome::Failed);
    assert!(state.poll_if_due(1000, tomorrow, &failing, 0, None));
    assert!(!state.running);
    assert_eq!(
        state.status_message,
        "Watcher error: failed to stat /tmp/app_0425.log"
    );
}

#[test]
fn buffers_are_bounded() {
    let mut state = running_state();
    state.config.max_buffer_lines = 2;
    state.poll_if_due(1000, today(), &grown(10, b"1\n2\n3\n4\n5\n", 0), 0, None);
    assert_eq!(state.events.len(), 2);
    assert_eq!(state.events[0].line, "4");
    assert_eq!(state.dropped, 3);
    state.stop_stream();
    state.config.max_buffer_lines = 1;
    state.start_stream(today(), &grown(10, b"", 10), "14");
    assert_eq!(state.events.len(), 1);
    assert_eq!(state.events[0].line, "5");
    assert_eq!(state.dropped, 4);
    assert_eq!(
        state.status_labels(),
        vec![
            "mode=live",
            "seen=5",
            "dropped(buffer)=4",
            "suppressed(regex)=0",
            "retained=1"
        ]
    );
    state.clear_displayed_logs();
    assert!(state.events.is_empty());
    assert_eq!(state.total_seen, 0);
    assert_eq!(state.status_message, "Cleared displayed log output");
    assert!(!state.shows_startup_help());
    state.stop_stream();
    assert!(state.shows_startup_help());
}

#[test]
fn visible_lines_pass_the_filters() {
    let mut state = running_state();
    state.poll_if_due(1000, today(), &grown(14, b"Alpha\nbeta\nxx\n", 0), 0, Some(0));
    state.config.show_timestamps = false;
    assert_eq!(state.visible_log_copy_payload().0, 3);
    state.text_filter = "ALP".to_string();
    assert_eq!(
        state.visible_log_copy_payload(),
        (1, "[a.log] Alpha".to_string())
    );
    state.config.case_insensitive_text_filter = false;
    assert_eq!(state.copy_visible(), None);
    assert_eq!(state.status_message, "No visible log lines to copy");
    state.text_filter = "a".to_string();
    assert_eq!(
        state.copy_visible(),
        Some("[a.log] Alpha\n[a.log] beta".to_string())
    );
    assert_eq!(state.status_message, "Copied 2 visible log lines to clipboard");
    state.source_filter = Some("b.log".to_string());
    assert!(state.visible_lines().is_empty());
    state.clear_filters();
    state.config.show_timestamps = true;
    assert_eq!(state.visible_lines()[2], "[00:00:00] [a.log] xx");
    assert!(state.display_matches_filters(&state.events[0], &None));
    assert_eq!(state.available_sources(), vec!["a.log"]);
    state.config.tracked_files = texts(&["/x/z.log", "/", "/y/z.log"]);
    assert_eq!(state.available_sources(), vec!["/", "a.log", "z.log"]);
}

#[test]
fn saving_is_checked_and_reported() {
    let mut state = GuiState::new(Vec::new());
    assert!(!state.check_saveable("14"));
    assert!(state.status_message.starts_with("Cannot save invalid config: no tracked files"));
    state.config = valid_config();
    assert!(state.check_saveable("14"));
    state.report_save("/tmp/c.toml", Some(&"disk full".to_string()));
    assert_eq!(state.status_message, "Failed to save /tmp/c.toml: disk full");
    assert!(state.recent_configs.is_empty());
    state.report_save("/tmp/c.toml", None);
    assert_eq!(state.status_message, "Saved /tmp/c.toml");
    assert_eq!(state.recent_configs, vec!["/tmp/c.toml"]);
}

#[test]
fn themes_are_chosen() {
    let mut state = GuiState::new(Vec::new());
    state.choose_theme(GuiTheme::DefaultDark);
    assert_eq!(state.status_message, "Ready");
    state.choose_theme(GuiTheme::SolarizedLight);
    assert_eq!(state.status_message, "Theme: Solarized Light");
    assert!(state.config.gui_light_mode);
    assert_eq!(state.panel_button_label(), "Hide Configuration");
    state.config_panel_visible = false;
    assert_eq!(state.panel_button_label(), "Show Configuration");
}

#[test]
fn palettes_of_the_window() {
    let plain = visuals_for_theme(GuiTheme::DefaultDark);
    assert!(plain.dark && plain.palette.is_none());
    assert!(!visuals_for_theme(GuiTheme::Light).dark);
    let contrast = visuals_for_theme(GuiTheme::HighContrast).palette.expect("palette");
    assert_eq!(contrast.active_fg, Some(Rgb { r: 0, g: 0, b: 0 }));
    let ocean = visuals_for_theme(GuiTheme::OceanBlue).palette.expect("palette");
    assert_eq!(ocean.panel, Rgb { r: 18, g: 26, b: 36 });
    assert_eq!(ocean.open_fg, None);
    assert!(!visuals_for_theme(GuiTheme::NovareLight).dark);
    assert_eq!(start_button_color(GuiTheme::Nord), Rgb { r: 136, g: 192, b: 208 });
    assert_eq!(stop_button_color(GuiTheme::OneDark), Rgb { r: 224, g: 108, b: 117 });
}
