use logtrak::config::{AppConfig, GuiTheme};
use logtrak::dates::CalendarDate;
use logtrak::line_rules::LineRules;
use logtrak::snapshot::{FileStat, ReadOutcome, Snapshot, StatOutcome};
use logtrak::tui_theme::{tui_theme_palette, TuiColor};
use logtrak::ui::{
    is_poll_due, key_wait_nanos, looks_like_path, parse_cli_input_path, poll_step, request_step,
    sync_runtime_config_from_state, text_filter_accepts, theme_index, InputMode, Key, TuiState,
};
use logtrak::watcher::{LogEvent, PollingWatcher};

fn test_config() -> AppConfig {
    let mut config = AppConfig::default();
    config.tracked_files = texts(&["/tmp/a.log", "/tmp/b.log"]);
    config.max_buffer_lines = 100;
    config.max_line_len = 256;
    config
}

fn texts(list: &[&str]) -> Vec<String> {
    list.iter().map(|s| s.to_string()).collect()
}

fn event(source: &str, line: &str) -> LogEvent {
    LogEvent {
        ts: 0,
        source: source.to_string(),
        line: line.to_string(),
    }
}

fn with_events(events: Vec<LogEvent>) -> TuiState {
    let config = test_config();
    let mut state = TuiState::new(&config);
    state.push_events(events, 0, config.max_buffer_lines);
    state
}

fn type_text(state: &mut TuiState, text: &str) {
    for c in text.chars() {
        assert!(!state.handle_key(Key::Char(c)));
    }
}

fn today() -> CalendarDate {
    CalendarDate {
        year: 2026,
        month: 4,
        day: 24,
    }
}

#[test]
fn applies_text_filter_after_search_mode_submit() {
    let mut state = with_events(vec![
        event("a.log", "INFO app started"),
        event("b.log", "ERROR failed to bind"),
    ]);

    state.handle_key(Key::Char('/'));
    state.handle_key(Key::Char('E'));
    state.handle_key(Key::Char('R'));
    state.handle_key(Key::Char('R'));
    state.handle_key(Key::Char('O'));
    state.handle_key(Key::Char('R'));
    state.handle_key(Key::Enter);

    assert_eq!(state.text_filter, "ERROR");
    assert_eq!(state.filtered_len(), 1);
}

#[test]
fn clear_text_filter_restores_all_lines() {
    let mut state = with_events(vec![event("a.log", "alpha"), event("b.log", "beta")]);
    state.set_text_filter("alpha".to_string());
    assert_eq!(state.filtered_len(), 1);

    state.handle_key(Key::Char('c'));
    assert!(state.text_filter.is_empty());
    assert_eq!(state.filtered_len(), 2);
}

#[test]
fn x_clears_displayed_lines() {
    let mut state = with_events(vec![event("a.log", "alpha")]);
    assert_eq!(state.events.len(), 1);

    state.handle_key(Key::Char('x'));

    assert!(state.events.is_empty());
    assert_eq!(state.total_events_seen, 0);
    assert_eq!(state.status_message, "Cleared displayed log output");
}

#[test]
fn case_insensitive_filter_matches_different_case() {
    let mut state = with_events(vec![event("a.log", "Error: failed to bind")]);
    state.set_text_filter("error".to_string());
    assert_eq!(state.filtered_len(), 1);
}

#[test]
fn case_sensitive_filter_can_be_toggled() {
    let mut state = with_events(vec![event("a.log", "Error: failed to bind")]);
    state.set_text_filter("error".to_string());
    assert_eq!(state.filtered_len(), 1);

    state.handle_key(Key::Char('i'));
    assert_eq!(state.filtered_len(), 0);
}

#[test]
fn case_folding_goes_beyond_ascii() {
    let mut state = with_events(vec![event("a.log", "STRA\u{c9}E")]);
    state.set_text_filter("stra\u{e9}".to_string());
    assert_eq!(state.filtered_len(), 1);
}

#[test]
fn l_opens_and_closes_tracked_files_view() {
    let mut state = TuiState::new(&test_config());

    assert_eq!(state.input_mode, InputMode::Normal);
    state.handle_key(Key::Char('l'));
    assert_eq!(state.input_mode, InputMode::ListTrackedFiles);
    state.handle_key(Key::Esc);
    assert_eq!(state.input_mode, InputMode::Normal);
}

#[test]
fn available_sources_replace_raw_pattern_entries() {
    let mut config = test_config();
    config.tracked_files = texts(&["/tmp/app_{today}.log"]);

    let mut state = TuiState::new(&config);
    state.set_available_sources(texts(&["app_20260425.log", "app_0425.log"]));

    assert_eq!(state.sources, texts(&["app_20260425.log", "app_0425.log"]));
}

#[test]
fn question_mark_toggles_help_view() {
    let mut state = TuiState::new(&test_config());

    assert_eq!(state.input_mode, InputMode::Normal);
    state.handle_key(Key::Char('?'));
    assert_eq!(state.input_mode, InputMode::Help);
    state.handle_key(Key::Char('?'));
    assert_eq!(state.input_mode, InputMode::Normal);
}

#[test]
fn parse_cli_input_path_trims_and_unquotes() {
    assert_eq!(
        parse_cli_input_path(r#"  "/tmp/a.log"  "#),
        Some("/tmp/a.log".to_string())
    );
    assert_eq!(
        parse_cli_input_path("'/tmp/b.log'"),
        Some("/tmp/b.log".to_string())
    );
    assert_eq!(
        parse_cli_input_path("/tmp/c.log"),
        Some("/tmp/c.log".to_string())
    );
    assert_eq!(parse_cli_input_path("   "), None);
}

#[test]
fn quotes_are_removed_in_pairs_only() {
    assert_eq!(parse_cli_input_path("\""), Some("\"".to_string()));
    assert_eq!(parse_cli_input_path("\"\""), Some(String::new()));
    assert_eq!(parse_cli_input_path("\"a'"), Some("\"a'".to_string()));
    assert_eq!(parse_cli_input_path("'\u{e9}'"), Some("\u{e9}".to_string()));
}

#[test]
fn add_file_input_submits_pending_path() {
    let mut state = TuiState::new(&test_config());

    state.handle_key(Key::Char('a'));
    assert_eq!(state.input_mode, InputMode::AddTrackedFile);
    type_text(&mut state, "/tmp/new.log");
    state.handle_key(Key::Enter);

    assert_eq!(state.input_mode, InputMode::Normal);
    assert_eq!(
        state.take_pending_add_tracked_file(),
        Some("/tmp/new.log".to_string())
    );
    assert_eq!(state.take_pending_add_tracked_file(), None);
}

#[test]
fn paste_path_in_normal_mode_queues_add_file() {
    let mut state = TuiState::new(&test_config());

    state.handle_paste("/tmp/from-paste.log".to_string());
    assert_eq!(
        state.take_pending_add_tracked_file(),
        Some("/tmp/from-paste.log".to_string())
    );
}

#[test]
fn pastes_go_where_they_belong() {
    let mut state = TuiState::new(&test_config());
    state.handle_paste("just words".to_string());
    assert_eq!(state.take_pending_add_tracked_file(), None);

    state.handle_key(Key::Char('a'));
    state.handle_key(Key::Char('>'));
    state.handle_paste("/tmp/\r\nx.log\n".to_string());
    assert_eq!(state.add_file_input, ">/tmp/x.log");
    state.handle_key(Key::Backspace);
    assert_eq!(state.add_file_input, ">/tmp/x.lo");
    state.handle_key(Key::Esc);
    assert_eq!(state.add_file_input, "");

    state.handle_key(Key::Char('t'));
    state.handle_paste("/tmp/y.log".to_string());
    assert_eq!(state.take_pending_add_tracked_file(), None);
}

#[test]
fn paths_are_told_from_words() {
    for (input, expected) in [
        ("", false),
        ("/", true),
        ("./a", true),
        ("../a", true),
        ("~", true),
        (".a", false),
        ("..a", false),
        ("a/b", false),
        ("C:", true),
        ("a\\b", true),
        ("plain", false),
    ] {
        assert_eq!(looks_like_path(input), expected, "{input}");
    }
}

#[test]
fn t_opens_theme_picker_and_enter_applies_selection() {
    let mut state = TuiState::new(&test_config());
    let expected = GuiTheme::all()[1];

    state.handle_key(Key::Char('t'));
    assert_eq!(state.input_mode, InputMode::ThemePicker);
    state.handle_key(Key::Down);
    state.handle_key(Key::Enter);

    assert_eq!(state.input_mode, InputMode::Normal);
    assert_eq!(state.active_theme, expected);
    assert_eq!(state.status_message, "Theme: Light");
}

#[test]
fn theme_picker_stays_within_the_themes() {
    let mut state = TuiState::new(&test_config());
    state.handle_key(Key::Char('t'));
    state.handle_key(Key::Up);
    assert_eq!(state.theme_picker_idx, 0);
    for _ in 0..20 {
        state.handle_key(Key::Char('j'));
    }
    assert_eq!(state.theme_picker_idx, 11);
    assert_eq!(state.preview_theme(), GuiTheme::OneDark);
    state.handle_key(Key::Esc);
    assert_eq!(state.preview_theme(), GuiTheme::DefaultDark);
    assert_eq!(theme_index(GuiTheme::Nord), 8);
}

#[test]
fn s_requests_save_and_resets_flag() {
    let mut state = TuiState::new(&test_config());

    state.handle_key(Key::Char('s'));
    assert!(state.take_save_requested());
    assert!(!state.take_save_requested());
}

#[test]
fn q_quits_unless_text_is_typed() {
    for opener in ['l', 't', '?'] {
        let mut state = TuiState::new(&test_config());
        state.handle_key(Key::Char(opener));
        assert!(state.handle_key(Key::Char('q')), "{opener}");
    }
    assert!(TuiState::new(&test_config()).handle_key(Key::Char('q')));
    for opener in ['/', 'a'] {
        let mut state = TuiState::new(&test_config());
        state.handle_key(Key::Char(opener));
        assert!(!state.handle_key(Key::Char('q')), "{opener}");
    }
}

#[test]
fn search_can_be_cancelled_and_taken_up() {
    let mut state = TuiState::new(&test_config());
    state.handle_key(Key::Char('/'));
    type_text(&mut state, " ab ");
    state.handle_key(Key::Enter);
    assert_eq!(state.text_filter, "ab");
    state.handle_key(Key::Char('/'));
    assert_eq!(state.search_input, "ab");
    state.handle_key(Key::Backspace);
    state.handle_key(Key::Other);
    state.handle_key(Key::Esc);
    assert_eq!(state.text_filter, "ab");
    assert_eq!(state.input_mode, InputMode::Normal);
}

#[test]
fn scrolling_is_bounded_by_the_filtered_events() {
    let mut state = with_events((0..5).map(|i| event("a.log", &format!("{i}"))).collect());
    for _ in 0..10 {
        state.handle_key(Key::Up);
    }
    assert_eq!(state.scroll_offset, 4);
    state.handle_key(Key::Char('j'));
    assert_eq!(state.scroll_offset, 3);
    state.handle_key(Key::Char('g'));
    assert_eq!(state.scroll_offset, 4);
    state.handle_key(Key::Char('G'));
    assert_eq!(state.scroll_offset, 0);
    state.handle_key(Key::Down);
    assert_eq!(state.scroll_offset, 0);
    state.handle_key(Key::Char('g'));
    state.push_events(Vec::new(), 3, 100);
    assert_eq!(state.scroll_offset, 4);
    assert_eq!(state.suppressed_by_rules, 3);
    state.push_events(vec![event("a.log", "5")], 0, 2);
    assert_eq!(state.scroll_offset, 1);
    assert_eq!(state.events.len(), 2);
    assert_eq!(state.dropped_events, 4);
    assert_eq!(state.total_events_seen, 6);
}

#[test]
fn source_filter_goes_round_the_sources() {
    let mut state = with_events(vec![event("a.log", "x"), event("b.log", "y")]);
    let mut seen = Vec::new();
    for _ in 0..4 {
        state.handle_key(Key::Char('f'));
        seen.push((state.active_source_filter_idx, state.filtered_len()));
    }
    assert_eq!(seen, vec![(Some(0), 1), (Some(1), 1), (None, 2), (Some(0), 1)]);
    state.set_available_sources(texts(&["z.log", "a.log"]));
    assert_eq!(state.active_source_filter_idx, Some(1));
    state.set_available_sources(texts(&["z.log"]));
    assert_eq!(state.active_source_filter_idx, None);
}

#[test]
fn header_tells_the_state() {
    let config = test_config();
    let mut state = with_events(vec![event("a.log", "x")]);
    assert_eq!(
        state.header_line(&config),
        "logtrak  files=2  poll=1000ms  lines=1  live  filter=all  keys:q p j/k g/G f l a t s / c x i ?"
    );
    state.handle_key(Key::Char('p'));
    state.handle_key(Key::Char('f'));
    state.set_status("hello".to_string());
    assert_eq!(
        state.header_line(&config),
        "logtrak  files=2  poll=1000ms  lines=1  paused  filter=a.log  status=hello  keys:q p j/k g/G f l a t s / c x i ?"
    );
    state.handle_key(Key::Char('/'));
    type_text(&mut state, "ab");
    assert_eq!(
        state.header_line(&config),
        "search:/ab  Enter apply  Esc cancel  Backspace delete"
    );
    state.handle_key(Key::Esc);
    state.handle_key(Key::Char('a'));
    type_text(&mut state, "/x");
    assert_eq!(
        state.header_line(&config),
        "add file:/x  Enter add  Esc cancel  Backspace delete"
    );
    state.handle_key(Key::Esc);
    state.handle_key(Key::Char('l'));
    assert_eq!(
        state.header_line(&config),
        "tracked files  keys:l/Esc/Enter close  a add file  t themes  q quit  theme=Default Dark"
    );
    state.handle_key(Key::Char('l'));
    state.handle_key(Key::Char('t'));
    state.handle_key(Key::Down);
    assert_eq!(
        state.header_line(&config),
        "theme picker  Up/Down select  Enter apply  Esc/t cancel  q quit  preview=Light  saved=Default Dark"
    );
    state.handle_key(Key::Esc);
    state.handle_key(Key::Char('?'));
    assert_eq!(state.header_line(&config), "help  keys:?/Esc/Enter close  q quit");
}

#[test]
fn screens_show_the_newest_events() {
    let config = test_config();
    let mut state = with_events((0..5).map(|i| event("a.log", &format!("{i}"))).collect());
    assert_eq!(
        state.visible_lines(false, 2, None),
        vec!["[a.log] 3", "[a.log] 4"]
    );
    state.handle_key(Key::Up);
    assert_eq!(
        state.visible_lines(true, 2, Some(0)),
        vec!["[00:00:00] [a.log] 2", "[00:00:00] [a.log] 3"]
    );
    state.handle_key(Key::Char('g'));
    assert_eq!(state.visible_lines(false, 2, None), vec!["[a.log] 0"]);
    assert!(state.can_show_times(3600));
    assert!(!state.can_show_times(100_000));

    let frame = state.frame(&config, 9, None);
    assert_eq!(frame.header, state.header_line(&config));
    assert_eq!(frame.body.len(), 1);
    assert_eq!(frame.body[0].text, "[??:??:??] [a.log] 0");
    assert_eq!(frame.body_fg, TuiColor::White);
    assert_eq!(frame.header_fg, TuiColor::Gray);
    assert_eq!(frame.background, TuiColor::Black);
}

#[test]
fn empty_screens_say_why() {
    let mut config = test_config();
    let mut state = TuiState::new(&config);
    let frame = state.frame(&config, 5, None);
    assert_eq!(frame.body[0].text, "Waiting for new log lines...");
    assert_eq!(frame.body_fg, TuiColor::DarkGray);
    state.push_events(vec![event("a.log", "x")], 0, 10);
    state.set_text_filter("no such".to_string());
    assert_eq!(
        state.frame(&config, 5, None).body[0].text,
        "No lines match active filters."
    );
    config.tracked_files.clear();
    let mut state = TuiState::new(&config);
    state.handle_key(Key::Char('l'));
    assert_eq!(
        state.frame(&config, 5, None).body[0].text,
        "No tracked files configured."
    );
}

#[test]
fn panels_list_what_they_are_for() {
    let config = test_config();
    let mut state = TuiState::new(&config);
    assert_eq!(
        state.tracked_file_lines(),
        vec![" 1. /tmp/a.log", " 2. /tmp/b.log"]
    );
    assert_eq!(state.command_help_lines().len(), 23);
    state.handle_key(Key::Char('t'));
    state.handle_key(Key::Down);
    let lines = state.theme_picker_lines();
    assert_eq!(lines.len(), 15);
    assert_eq!(lines[0].text, "Theme Picker");
    assert_eq!(lines[3].text, "  Default Dark");
    assert_eq!(lines[3].fg, Some(TuiColor::Blue));
    assert!(lines[3].bold);
    assert_eq!(lines[4].text, "> Light");
    assert_eq!(lines[4].bg, Some(TuiColor::Blue));
    assert_eq!(lines[5].fg, Some(TuiColor::Black));
    assert!(!lines[5].bold);
}

#[test]
fn filters_accept_as_they_are_told() {
    assert!(text_filter_accepts("Abc", "abc", "", "", true));
    assert!(text_filter_accepts("Abc", "abc", "B", "b", true));
    assert!(!text_filter_accepts("Abc", "abc", "B", "b", false));
    assert!(text_filter_accepts("Abc", "", "Ab", "zzz", false));
}

#[test]
fn waits_are_short() {
    assert!(is_poll_due(false, true));
    assert!(!is_poll_due(true, true));
    assert!(!is_poll_due(false, false));
    assert_eq!(key_wait_nanos(true, 7), 500_000_000);
    assert_eq!(key_wait_nanos(false, 7), 7);
    assert_eq!(key_wait_nanos(false, 900_000_000), 500_000_000);
}

fn grown(len: u64, bytes: &[u8], offset: u64) -> Snapshot {
    let mut snapshot = Snapshot::new();
    snapshot.record_stat(
        "/tmp/a.log".to_string(),
        StatOutcome::Found(FileStat {
            is_file: true,
            len,
            modified: Some(len as i128),
            identity: None,
        }),
    );
    snapshot.record_read(
        "/tmp/a.log".to_string(),
        offset,
        ReadOutcome::Bytes(bytes.to_vec()),
    );
    snapshot
}

#[test]
fn polls_are_taken_in() {
    let config = test_config();
    let mut state = TuiState::new(&config);
    let rules = LineRules::new(&texts(&["DEBUG"]), &Vec::new()).expect("rules");
    let mut watcher =
        PollingWatcher::new(texts(&["/tmp/a.log"]), 256, today(), &grown(0, b"", 0))
            .expect("watcher");

    let step = poll_step(
        &mut state,
        &mut watcher,
        &rules,
        100,
        today(),
        &grown(12, b"one\nDEBUG x\n", 0),
        9,
    );
    assert_eq!(step, Ok(true));
    assert_eq!(state.sources, vec!["a.log"]);
    assert_eq!(state.events.len(), 1);
    assert_eq!(state.suppressed_by_rules, 1);
    assert_eq!(state.status_message, "");

    let step = poll_step(
        &mut state,
        &mut watcher,
        &rules,
        100,
        today(),
        &grown(12, b"", 12),
        10,
    );
    assert_eq!(step, Ok(false));

    let mut broken = grown(20, b"", 12);
    broken.record_read("/tmp/a.log".to_string(), 12, ReadOutcome::OpenFailed);
    let step = poll_step(&mut state, &mut watcher, &rules, 100, today(), &broken, 11);
    assert_eq!(step, Ok(true));
    assert_eq!(
        state.status_message,
        "Ignoring unreadable file /tmp/a.log: failed to open tracked file /tmp/a.log"
    );
}

#[test]
fn requests_for_files_are_answered() {
    let mut config = test_config();
    let mut state = TuiState::new(&config);
    let snapshot = grown(0, b"", 0);
    let mut watcher =
        PollingWatcher::new(texts(&["/tmp/a.log"]), 256, today(), &snapshot).expect("watcher");

    request_step(&mut state, &mut watcher, &mut config, "  ", today(), &snapshot);
    assert_eq!(state.status_message, "No file path entered");
    request_step(&mut state, &mut watcher, &mut config, "/tmp/a.log", today(), &snapshot);
    assert_eq!(state.status_message, "Already tracking /tmp/a.log");

    let mut failing = grown(0, b"", 0);
    failing.record_stat("/tmp/c.log".to_string(), StatOutcome::Failed);
    request_step(&mut state, &mut watcher, &mut config, "/tmp/c.log", today(), &failing);
    assert_eq!(
        state.status_message,
        "Failed to track /tmp/c.log: failed to stat /tmp/c.log"
    );
    assert_eq!(config.tracked_files.len(), 2);

    request_step(&mut state, &mut watcher, &mut config, "'/tmp/c.log'", today(), &snapshot);
    assert_eq!(state.status_message, "Now tracking /tmp/c.log");
    assert_eq!(config.tracked_files, texts(&["/tmp/a.log", "/tmp/b.log", "/tmp/c.log"]));
    assert_eq!(state.tracked_files.last().map(String::as_str), Some("/tmp/c.log"));
    assert_eq!(state.sources, vec!["a.log"]);

    request_step(&mut state, &mut watcher, &mut config, "/tmp/b.log", today(), &snapshot);
    assert_eq!(config.tracked_files.len(), 3);
}

#[test]
fn changes_reach_the_configuration() {
    let mut config = test_config();
    let mut state = TuiState::new(&config);
    state.handle_key(Key::Char('i'));
    state.handle_key(Key::Char('t'));
    state.handle_key(Key::Down);
    state.handle_key(Key::Enter);
    sync_runtime_config_from_state(&mut config, &state);
    assert!(!config.case_insensitive_text_filter);
    assert_eq!(config.gui_theme, GuiTheme::Light);
    assert!(config.gui_light_mode);

    state.report_save(None, None);
    assert_eq!(state.status_message, "No config path available to save");
    let path = "/tmp/c.toml".to_string();
    state.report_save(Some(&path), None);
    assert_eq!(state.status_message, "Saved /tmp/c.toml");
    state.report_save(Some(&path), Some(&"disk full".to_string()));
    assert_eq!(state.status_message, "Failed to save /tmp/c.toml: disk full");
}

#[test]
fn palettes_of_the_terminal() {
    let nord = tui_theme_palette(GuiTheme::Nord);
    assert_eq!(nord.background, TuiColor::Rgb(46, 52, 64));
    assert_eq!(nord.selected_bg, TuiColor::Rgb(94, 129, 172));
    assert_eq!(tui_theme_palette(GuiTheme::Light).background, TuiColor::White);
    assert_eq!(tui_theme_palette(GuiTheme::HighContrast).header_fg, TuiColor::Yellow);
}
