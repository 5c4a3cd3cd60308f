use logtrak::dates::CalendarDate;
use logtrak::dates::DateTokens;
use logtrak::path_table::PathTable;
use logtrak::resolver::PathResolver;
use logtrak::snapshot::{
    DirEntry, DirOutcome, FileIdentity, FileStat, ReadOutcome, Snapshot, StatOutcome,
};
use logtrak::tracking::TrackedFileState;
use logtrak::watcher::{
    describe_tracked_paths, dirs_to_list, files_to_stat, suggest_today_pattern, PollingWatcher,
    ReadRequest, TrackedPathState,
};
use logtrak::wildcard::MAX_WILDCARD_MATCHES;

#[derive(Clone)]
struct FakeFile {
    path: String,
    bytes: Vec<u8>,
    modified: i128,
    ino: u64,
    is_file: bool,
    stat_fails: bool,
    read_fails: Option<ReadOutcome>,
}

/// A file system in memory.
struct FakeFs {
    files: Vec<FakeFile>,
    dirs: Vec<String>,
    clock: i128,
    next_ino: u64,
}

impl FakeFs {
    fn new() -> FakeFs {
        FakeFs {
            files: Vec::new(),
            dirs: vec!["/logs".to_string()],
            clock: 1_000,
            next_ino: 1,
        }
    }

    fn index(&self, path: &str) -> Option<usize> {
        self.files.iter().position(|file| file.path == path)
    }

    fn create(&mut self, path: &str, text: &str) {
        self.clock += 1;
        self.remove(path);
        self.files.push(FakeFile {
            path: path.to_string(),
            bytes: text.as_bytes().to_vec(),
            modified: self.clock,
            ino: self.next_ino,
            is_file: true,
            stat_fails: false,
            read_fails: None,
        });
        self.next_ino += 1;
    }

    fn create_dir(&mut self, path: &str) {
        self.create(path, "directory");
        let at = self.index(path).expect("created");
        self.files[at].is_file = false;
        self.files[at].read_fails = Some(ReadOutcome::ReadFailed);
    }

    fn append(&mut self, path: &str, bytes: &[u8]) {
        self.clock += 1;
        let at = self.index(path).expect("file to append to");
        self.files[at].bytes.extend_from_slice(bytes);
        self.files[at].modified = self.clock;
    }

    fn overwrite(&mut self, path: &str, text: &str) {
        self.clock += 1;
        let at = self.index(path).expect("file to overwrite");
        self.files[at].bytes = text.as_bytes().to_vec();
        self.files[at].modified = self.clock;
    }

    fn remove(&mut self, path: &str) {
        self.files.retain(|file| file.path != path);
    }

    fn set_stat_fails(&mut self, path: &str, fails: bool) {
        let at = self.index(path).expect("file");
        self.files[at].stat_fails = fails;
    }

    fn set_read_fails(&mut self, path: &str, outcome: Option<ReadOutcome>) {
        let at = self.index(path).expect("file");
        self.files[at].read_fails = outcome;
    }

    fn list(&self, dir: &str) -> DirOutcome {
        if !self.dirs.iter().any(|known| known == dir) {
            return DirOutcome::Missing;
        }
        let prefix = format!("{dir}/");
        DirOutcome::Entries(
            self.files
                .iter()
                .filter_map(|file| {
                    file.path.strip_prefix(&prefix).map(|name| DirEntry {
                        name: name.to_string(),
                        is_file: file.is_file,
                    })
                })
                .collect(),
        )
    }

    fn stat(&self, path: &str) -> StatOutcome {
        match self.index(path) {
            None => StatOutcome::Missing,
            Some(at) if self.files[at].stat_fails => StatOutcome::Failed,
            Some(at) => StatOutcome::Found(FileStat {
                is_file: self.files[at].is_file,
                len: self.files[at].bytes.len() as u64,
                modified: Some(self.files[at].modified),
                identity: Some(FileIdentity {
                    dev: 7,
                    ino: self.files[at].ino,
                }),
            }),
        }
    }

    fn read(&self, path: &str, offset: u64) -> ReadOutcome {
        match self.index(path) {
            None => ReadOutcome::OpenFailed,
            Some(at) => match &self.files[at].read_fails {
                Some(outcome) => outcome.clone(),
                None => ReadOutcome::Bytes(self.files[at].bytes[offset as usize..].to_vec()),
            },
        }
    }

    /// What the watcher asks for, and nothing else.
    fn for_poll(&self, watcher: &PollingWatcher, today: CalendarDate) -> Snapshot {
        let mut snapshot = Snapshot::new();
        for dir in watcher.dirs_to_list(today) {
            let outcome = self.list(&dir);
            snapshot.record_dir(dir, outcome);
        }
        for path in watcher.files_to_stat(today, &snapshot) {
            let outcome = self.stat(&path);
            snapshot.record_stat(path, outcome);
        }
        for request in watcher.files_to_read(today, &snapshot) {
            let outcome = self.read(&request.path, request.offset);
            snapshot.record_read(request.path, request.offset, outcome);
        }
        snapshot
    }

    fn for_start(&self, paths: &[String], today: CalendarDate) -> Snapshot {
        let mut snapshot = Snapshot::new();
        let paths = paths.to_vec();
        for dir in dirs_to_list(&paths, today) {
            let outcome = self.list(&dir);
            snapshot.record_dir(dir, outcome);
        }
        for path in files_to_stat(&paths, today, &snapshot) {
            let outcome = self.stat(&path);
            snapshot.record_stat(path, outcome);
        }
        snapshot
    }

    /// Everything there is.
    fn everything(&self) -> Snapshot {
        let mut snapshot = Snapshot::new();
        for dir in &self.dirs {
            snapshot.record_dir(dir.clone(), self.list(dir));
        }
        for file in &self.files {
            snapshot.record_stat(file.path.clone(), self.stat(&file.path));
            for offset in 0..=file.bytes.len() as u64 {
                snapshot.record_read(file.path.clone(), offset, self.read(&file.path, offset));
            }
        }
        snapshot
    }

    fn watch(&self, paths: &[&str], max_line_len: usize) -> PollingWatcher {
        let paths: Vec<String> = paths.iter().map(|path| path.to_string()).collect();
        let snapshot = self.for_start(&paths, sample_date());
        PollingWatcher::new(paths, max_line_len, sample_date(), &snapshot).expect("watcher")
    }

    fn poll(&self, watcher: &mut PollingWatcher) -> Vec<(String, String)> {
        let snapshot = self.for_poll(watcher, sample_date());
        watcher
            .poll(sample_date(), &snapshot, 77)
            .expect("poll")
            .into_iter()
            .map(|event| {
                assert_eq!(event.ts, 77);
                (event.source, event.line)
            })
            .collect()
    }
}

fn sample_date() -> CalendarDate {
    CalendarDate {
        year: 2026,
        month: 4,
        day: 24,
    }
}

fn next_sample_date() -> CalendarDate {
    CalendarDate {
        year: 2026,
        month: 4,
        day: 25,
    }
}

fn event(source: &str, line: &str) -> (String, String) {
    (source.to_string(), line.to_string())
}

#[test]
fn explicit_date_tokens_render_to_todays_filename() {
    let resolver = PathResolver::new("/tmp/app_{yyyy}{mm}{dd}.log");

    let resolved = resolver.resolve_paths_for_date(sample_date(), &Snapshot::new());

    assert!(resolved.warnings.is_empty());
    assert_eq!(resolved.paths, vec!["/tmp/app_20260424.log".to_string()]);
}

#[test]
fn today_placeholder_expands_to_common_date_formats() {
    let resolver = PathResolver::new("/tmp/app_{today}.log");

    let resolved = resolver.resolve_paths_for_date(sample_date(), &Snapshot::new());

    assert!(resolved.warnings.is_empty());
    assert_eq!(
        resolved.paths,
        vec![
            "/tmp/app_20260424.log",
            "/tmp/app_2026-04-24.log",
            "/tmp/app_2026_04_24.log",
            "/tmp/app_0424.log",
            "/tmp/app_04-24.log",
            "/tmp/app_04_24.log",
            "/tmp/app_260424.log",
            "/tmp/app_26-04-24.log",
            "/tmp/app_26_04_24.log",
        ]
    );
}

#[test]
fn every_placeholder_is_filled_in() {
    let resolver = PathResolver::new(
        "/l/{yyyymmdd}.{yyyy-mm-dd}.{yyyy_mm_dd}.{yymmdd}.{yy-mm-dd}.{yy_mm_dd}.{mmdd}.{mm-dd}.{mm_dd}.{yyyy}.{yy}.{mm}.{dd}",
    );

    let resolved = resolver.resolve_paths_for_date(sample_date(), &Snapshot::new());

    assert_eq!(
        resolved.paths,
        vec![
            "/l/20260424.2026-04-24.2026_04_24.260424.26-04-24.26_04_24.0424.04-24.04_24.2026.26.04.24"
        ]
    );
    assert!(resolver.is_date_sensitive());
    assert!(resolver.is_dynamic());
}

#[test]
fn plain_paths_stand_for_themselves() {
    let resolver = PathResolver::new("/tmp/plain.log");

    let resolved = resolver.resolve_paths_for_date(sample_date(), &Snapshot::new());

    assert_eq!(resolved.paths, vec!["/tmp/plain.log"]);
    assert!(!resolver.is_date_sensitive());
    assert!(!resolver.is_dynamic());
    assert!(resolver.dirs_to_list(sample_date()).is_empty());
}

#[test]
fn wildcard_matches_files_in_final_segment_only() {
    let mut fs = FakeFs::new();
    fs.create("/logs/app-1.log", "one\n");
    fs.create("/logs/app-2.log", "two\n");
    fs.create("/logs/other.log", "other\n");

    let resolver = PathResolver::new("/logs/app-?.log");
    assert_eq!(resolver.dirs_to_list(sample_date()), vec!["/logs"]);
    let resolved = resolver.resolve_paths_for_date(sample_date(), &fs.everything());

    assert!(resolved.warnings.is_empty());
    assert_eq!(resolved.paths, vec!["/logs/app-1.log", "/logs/app-2.log"]);
}

#[test]
fn wildcard_outside_the_final_segment_is_refused() {
    let resolver = PathResolver::new("/lo*s/app.log");
    let resolved = resolver.resolve_paths_for_date(sample_date(), &Snapshot::new());

    assert!(resolved.paths.is_empty());
    assert_eq!(
        resolved.warnings,
        vec![
            "Ignoring tracked pattern /lo*s/app.log: wildcards are only supported in the final path segment"
        ]
    );
}

#[test]
fn wildcard_without_a_file_name_is_refused() {
    let resolver = PathResolver::new("/lo*s/..");
    let resolved = resolver.resolve_paths_for_date(sample_date(), &Snapshot::new());

    assert!(resolved.paths.is_empty());
    assert_eq!(
        resolved.warnings,
        vec![
            "Ignoring tracked pattern /lo*s/..: wildcard patterns must end in a filename segment"
        ]
    );
}

#[test]
fn wildcard_in_an_unreadable_directory_is_warned_about() {
    let mut snapshot = Snapshot::new();
    snapshot.record_dir(
        "/secret".to_string(),
        DirOutcome::Failed("permission denied".to_string()),
    );

    let resolver = PathResolver::new("/secret/*.log");
    let resolved = resolver.resolve_paths_for_date(sample_date(), &snapshot);

    assert!(resolved.paths.is_empty());
    assert_eq!(
        resolved.warnings,
        vec![
            "Ignoring tracked pattern /secret/*.log: failed to read /secret: permission denied"
        ]
    );
}

#[test]
fn wildcard_in_a_missing_directory_stands_for_nothing() {
    let resolver = PathResolver::new("/nowhere/*.log");
    let resolved = resolver.resolve_paths_for_date(sample_date(), &Snapshot::new());

    assert!(resolved.paths.is_empty());
    assert!(resolved.warnings.is_empty());
}

#[test]
fn recursive_wildcards_are_rejected_with_warning() {
    let resolver = PathResolver::new("/tmp/**/app.log");
    let resolved = resolver.resolve_paths_for_date(sample_date(), &Snapshot::new());

    assert!(resolved.paths.is_empty());
    assert_eq!(resolved.warnings.len(), 1);
    assert!(resolved.warnings[0].contains("recursive wildcards"));
    assert_eq!(
        resolved.warnings[0],
        "Ignoring tracked pattern /tmp/**/app.log: recursive wildcards (`**`) are not supported"
    );
}

#[test]
fn wildcard_match_cap_emits_warning() {
    let mut fs = FakeFs::new();
    for idx in (0..(MAX_WILDCARD_MATCHES + 5)).rev() {
        fs.create(&format!("/logs/app-{idx:03}.log"), "x\n");
    }
    let mut snapshot = Snapshot::new();
    snapshot.record_dir("/logs".to_string(), fs.list("/logs"));

    let resolver = PathResolver::new("/logs/app-*.log");
    let resolved = resolver.resolve_paths_for_date(sample_date(), &snapshot);

    assert_eq!(resolved.paths.len(), MAX_WILDCARD_MATCHES);
    assert_eq!(resolved.warnings.len(), 1);
    assert!(resolved.warnings[0].contains("matched more than"));
    assert_eq!(
        resolved.warnings[0],
        "Tracked pattern /logs/app-*.log matched more than 200 files; using the first 200 matches"
    );
    assert_eq!(resolved.paths[0], "/logs/app-005.log");
    assert_eq!(resolved.paths[199], "/logs/app-204.log");
}

fn listing(names: &[String]) -> DirOutcome {
    DirOutcome::Entries(
        names
            .iter()
            .map(|name| DirEntry {
                name: name.clone(),
                is_file: true,
            })
            .collect(),
    )
}

#[test]
fn the_cap_is_that_of_the_tracked_pattern() {
    let many: Vec<String> = (0..MAX_WILDCARD_MATCHES).map(|i| format!("{i:03}")).collect();
    let mut snapshot = Snapshot::new();
    snapshot.record_dir("/20260424".to_string(), listing(&many));
    let resolver = PathResolver::new("/{today}/*");

    let resolved = resolver.resolve_paths_for_date(sample_date(), &snapshot);
    assert_eq!(resolved.paths.len(), MAX_WILDCARD_MATCHES);
    assert!(resolved.warnings.is_empty());

    snapshot.record_dir("/2026-04-24".to_string(), listing(&["one.log".to_string()]));
    let resolved = resolver.resolve_paths_for_date(sample_date(), &snapshot);
    assert_eq!(resolved.paths.len(), MAX_WILDCARD_MATCHES);
    assert_eq!(resolved.paths[0], "/20260424/000");
    assert_eq!(resolved.paths[199], "/20260424/199");
    assert_eq!(
        resolved.warnings,
        vec![
            "Tracked pattern /{today}/* matched more than 200 files; using the first 200 matches"
        ]
    );

    let few: Vec<String> = many[..150].to_vec();
    let mut snapshot = Snapshot::new();
    snapshot.record_dir("/20260424".to_string(), listing(&few));
    snapshot.record_dir("/0424".to_string(), listing(&few));
    let resolved = resolver.resolve_paths_for_date(sample_date(), &snapshot);
    assert_eq!(resolved.paths.len(), MAX_WILDCARD_MATCHES);
    assert_eq!(resolved.paths[149], "/20260424/149");
    assert_eq!(resolved.paths[150], "/0424/000");
    assert_eq!(resolved.warnings.len(), 1);
}

#[test]
fn the_cap_warning_names_the_only_rendering() {
    let many: Vec<String> = (0..=MAX_WILDCARD_MATCHES)
        .map(|i| format!("0424-{i:03}.log"))
        .collect();
    let mut snapshot = Snapshot::new();
    snapshot.record_dir("/logs".to_string(), listing(&many));

    let resolved = PathResolver::new("/logs/{mmdd}-*.log")
        .resolve_paths_for_date(sample_date(), &snapshot);
    assert_eq!(resolved.paths.len(), MAX_WILDCARD_MATCHES);
    assert_eq!(
        resolved.warnings,
        vec![
            "Tracked pattern /logs/0424-*.log matched more than 200 files; using the first 200 matches"
        ]
    );
}

#[test]
fn wildcards_in_a_bare_file_name_look_in_the_current_directory() {
    let resolver = PathResolver::new("app-?.log");
    assert_eq!(resolver.dirs_to_list(sample_date()), vec!["."]);
    let mut snapshot = Snapshot::new();
    snapshot.record_dir(
        ".".to_string(),
        listing(&["app-1.log".to_string(), "other.log".to_string()]),
    );
    let resolved = resolver.resolve_paths_for_date(sample_date(), &snapshot);
    assert_eq!(resolved.paths, vec!["./app-1.log"]);
    assert!(resolved.warnings.is_empty());
}

#[test]
fn one_file_in_two_spellings_is_resolved_once() {
    let resolver = PathResolver::new("/tmp/{today}/{yyyymmdd}.log");
    let resolved = resolver.resolve_paths_for_date(sample_date(), &Snapshot::new());
    assert_eq!(resolved.paths.len(), 9);

    let resolver = PathResolver::new("/tmp/{today}/../a.log");
    let resolved = resolver.resolve_paths_for_date(sample_date(), &Snapshot::new());
    assert_eq!(resolved.paths.len(), 9);
}

#[test]
fn starts_at_end_and_only_reads_new_lines() {
    let mut fs = FakeFs::new();
    fs.create("/logs/a.log", "old-line\n");

    let mut watcher = fs.watch(&["/logs/a.log"], 512);
    assert!(fs.poll(&mut watcher).is_empty());

    fs.append("/logs/a.log", b"new-line\n");
    let events = fs.poll(&mut watcher);
    assert_eq!(events.len(), 1);
    assert_eq!(events[0].1, "new-line");
    assert!(fs.poll(&mut watcher).is_empty());
}

#[test]
fn handles_truncate_and_reads_after_reset() {
    let mut fs = FakeFs::new();
    fs.create("/logs/a.log", "");
    let mut watcher = fs.watch(&["/logs/a.log"], 512);

    fs.append("/logs/a.log", b"line-1\n");
    let events = fs.poll(&mut watcher);
    assert_eq!(events.len(), 1);
    assert_eq!(events[0].1, "line-1");

    fs.overwrite("/logs/a.log", "line-2\n");
    let events = fs.poll(&mut watcher);
    assert_eq!(events.len(), 1);
    assert_eq!(events[0].1, "line-2");

    fs.overwrite("/logs/a.log", "x\n");
    assert_eq!(fs.poll(&mut watcher), vec![event("a.log", "x")]);
}

#[test]
fn replaced_file_is_read_from_its_start() {
    let mut fs = FakeFs::new();
    fs.create("/logs/a.log", "one\ntwo\n");
    let mut watcher = fs.watch(&["/logs/a.log"], 512);
    fs.append("/logs/a.log", b"part");
    assert!(fs.poll(&mut watcher).is_empty());

    fs.create("/logs/a.log", "a whole new file\nof two lines\n");
    assert_eq!(
        fs.poll(&mut watcher),
        vec![event("a.log", "a whole new file"), event("a.log", "of two lines")]
    );
}

#[test]
fn file_that_returns_is_read_from_its_start() {
    let mut fs = FakeFs::new();
    fs.create("/logs/a.log", "one\n");
    let mut watcher = fs.watch(&["/logs/a.log"], 512);
    fs.remove("/logs/a.log");
    assert!(fs.poll(&mut watcher).is_empty());
    assert!(watcher.take_status_messages().is_empty());

    fs.create("/logs/a.log", "back\n");
    assert_eq!(fs.poll(&mut watcher), vec![event("a.log", "back")]);
}

#[test]
fn waits_for_newline_before_emitting() {
    let mut fs = FakeFs::new();
    fs.create("/logs/a.log", "");
    let mut watcher = fs.watch(&["/logs/a.log"], 512);

    fs.append("/logs/a.log", b"partial");
    assert!(fs.poll(&mut watcher).is_empty());

    fs.append("/logs/a.log", b"-line\n");
    let events = fs.poll(&mut watcher);
    assert_eq!(events.len(), 1);
    assert_eq!(events[0].1, "partial-line");
}

#[test]
fn lines_do_not_depend_on_how_polls_divide_them() {
    let text = "first\r\nsecond \u{e9}t\u{e9}\n\nlast\n";
    let mut whole = FakeFs::new();
    whole.create("/logs/a.log", "");
    let mut one_watcher = whole.watch(&["/logs/a.log"], 512);
    whole.append("/logs/a.log", text.as_bytes());
    let at_once = whole.poll(&mut one_watcher);

    let mut divided = FakeFs::new();
    divided.create("/logs/a.log", "");
    let mut watcher = divided.watch(&["/logs/a.log"], 512);
    let mut piecewise = Vec::new();
    for byte in text.as_bytes() {
        divided.append("/logs/a.log", &[*byte]);
        piecewise.extend(divided.poll(&mut watcher));
    }

    assert_eq!(at_once, piecewise);
    assert_eq!(
        at_once,
        vec![
            event("a.log", "first"),
            event("a.log", "second \u{e9}t\u{e9}"),
            event("a.log", ""),
            event("a.log", "last"),
        ]
    );
}

#[test]
fn ill_formed_bytes_are_replaced() {
    let mut fs = FakeFs::new();
    fs.create("/logs/a.log", "");
    let mut watcher = fs.watch(&["/logs/a.log"], 512);
    fs.append("/logs/a.log", b"a\xffb\n");
    assert_eq!(fs.poll(&mut watcher), vec![event("a.log", "a\u{fffd}b")]);
}

#[test]
fn add_file_tracks_new_path_and_rejects_duplicate() {
    let mut fs = FakeFs::new();
    fs.create("/logs/first.log", "");
    fs.create("/logs/second.log", "");
    let mut watcher = fs.watch(&["/logs/first.log"], 512);
    let everything = fs.everything();

    assert!(watcher
        .add_file("/logs/second.log".to_string(), sample_date(), &everything)
        .expect("add second file"));
    assert!(!watcher
        .add_file("/logs/first.log".to_string(), sample_date(), &everything)
        .expect("duplicate returns false"));
    assert!(!watcher
        .add_file("/logs//./first.log".to_string(), sample_date(), &everything)
        .expect("another spelling is a duplicate"));
    assert_eq!(watcher.raw_paths(), vec!["/logs/first.log", "/logs/second.log"]);
}

#[test]
fn add_file_that_cannot_be_looked_at_fails() {
    let mut fs = FakeFs::new();
    fs.create("/logs/first.log", "");
    fs.create("/logs/second.log", "");
    fs.set_stat_fails("/logs/second.log", true);
    let mut watcher = fs.watch(&["/logs/first.log"], 512);

    assert_eq!(
        watcher.add_file("/logs/second.log".to_string(), sample_date(), &fs.everything()),
        Err("failed to stat /logs/second.log".to_string())
    );
    assert_eq!(watcher.raw_paths(), vec!["/logs/first.log"]);
}

#[test]
fn unreadable_file_is_ignored_and_reported_once() {
    let mut fs = FakeFs::new();
    let mut watcher = fs.watch(&["/logs/blocked"], 512);
    fs.create_dir("/logs/blocked");

    assert!(fs.poll(&mut watcher).is_empty());
    let messages = watcher.take_status_messages();
    assert_eq!(messages.len(), 1);
    assert!(messages[0].contains("Ignoring unreadable file"));
    assert_eq!(
        messages[0],
        "Ignoring unreadable file /logs/blocked: failed to read tracked file /logs/blocked"
    );

    assert!(fs.poll(&mut watcher).is_empty());
    assert!(watcher.take_status_messages().is_empty());
}

#[test]
fn each_reason_is_reported_and_so_is_the_recovery() {
    let mut fs = FakeFs::new();
    fs.create("/logs/a.log", "");
    let mut watcher = fs.watch(&["/logs/a.log"], 512);
    fs.append("/logs/a.log", b"x\n");

    fs.set_read_fails("/logs/a.log", Some(ReadOutcome::OpenFailed));
    fs.poll(&mut watcher);
    assert_eq!(
        watcher.take_status_messages(),
        vec!["Ignoring unreadable file /logs/a.log: failed to open tracked file /logs/a.log"]
    );
    fs.set_read_fails("/logs/a.log", Some(ReadOutcome::SeekFailed));
    fs.poll(&mut watcher);
    assert_eq!(
        watcher.take_status_messages(),
        vec!["Ignoring unreadable file /logs/a.log: failed to seek tracked file /logs/a.log"]
    );
    fs.set_read_fails("/logs/a.log", None);
    fs.set_stat_fails("/logs/a.log", true);
    fs.poll(&mut watcher);
    assert_eq!(
        watcher.take_status_messages(),
        vec!["Ignoring unreadable file /logs/a.log: failed to stat tracked file /logs/a.log"]
    );
    fs.poll(&mut watcher);
    assert!(watcher.take_status_messages().is_empty());

    fs.set_stat_fails("/logs/a.log", false);
    assert_eq!(fs.poll(&mut watcher), vec![event("a.log", "x")]);
    assert_eq!(
        watcher.take_status_messages(),
        vec!["File readable again: /logs/a.log"]
    );
    fs.poll(&mut watcher);
    assert!(watcher.take_status_messages().is_empty());
}

#[test]
fn new_file_that_cannot_be_looked_at_ends_the_poll() {
    let mut fs = FakeFs::new();
    let mut watcher = fs.watch(&["/logs/*.log"], 512);
    fs.create("/logs/a.log", "");
    fs.set_stat_fails("/logs/a.log", true);

    let snapshot = fs.for_poll(&watcher, sample_date());
    assert_eq!(
        watcher.poll(sample_date(), &snapshot, 1),
        Err("failed to stat /logs/a.log".to_string())
    );
}

#[test]
fn watcher_of_a_file_that_cannot_be_looked_at_does_not_start() {
    let mut fs = FakeFs::new();
    fs.create("/logs/a.log", "");
    fs.set_stat_fails("/logs/a.log", true);
    let paths = vec!["/logs/a.log".to_string()];
    let snapshot = fs.for_start(&paths, sample_date());

    assert_eq!(
        PollingWatcher::new(paths, 512, sample_date(), &snapshot).err(),
        Some("failed to stat /logs/a.log".to_string())
    );
}

#[test]
fn today_placeholder_tracks_existing_matching_file() {
    let mut fs = FakeFs::new();
    fs.create("/logs/app_0424.log", "old-line\n");

    let mut state = TrackedPathState::new(
        "/logs/app_{today}.log".to_string(),
        sample_date(),
        &fs.everything(),
    )
    .expect("pattern state");
    let file_enabled: PathTable<bool> = PathTable::new();
    let mut unreadable: PathTable<String> = PathTable::new();
    let mut status_messages = Vec::new();

    let mut out = Vec::new();
    state
        .poll(
            sample_date(),
            512,
            &file_enabled,
            &fs.everything(),
            0,
            &mut out,
            &mut unreadable,
            &mut status_messages,
        )
        .expect("initial poll");
    assert!(out.is_empty());

    fs.append("/logs/app_0424.log", b"new-line\n");
    state
        .poll(
            sample_date(),
            512,
            &file_enabled,
            &fs.everything(),
            0,
            &mut out,
            &mut unreadable,
            &mut status_messages,
        )
        .expect("poll after append");
    assert_eq!(out.len(), 1);
    assert_eq!(out[0].line, "new-line");
    assert_eq!(out[0].source, "app_0424.log");
}

#[test]
fn dated_rollover_keeps_previous_file_until_it_disappears() {
    let mut fs = FakeFs::new();
    let previous_path = "/logs/app_0424.log".to_string();
    let next_path = "/logs/app_0425.log".to_string();
    fs.create(&previous_path, "old-line\n");

    let mut state = TrackedPathState::new(
        "/logs/app_{mmdd}.log".to_string(),
        sample_date(),
        &fs.everything(),
    )
    .expect("previous state");
    assert_eq!(state.active_paths(), vec![previous_path.clone()]);
    let file_enabled: PathTable<bool> = PathTable::new();
    let mut unreadable: PathTable<String> = PathTable::new();
    let mut status_messages = Vec::new();

    state
        .sync_active_files(
            next_sample_date(),
            &file_enabled,
            &fs.everything(),
            &mut unreadable,
            &mut status_messages,
        )
        .expect("rollover sync");
    assert_eq!(
        state.active_paths(),
        vec![next_path.clone(), previous_path.clone()]
    );

    fs.create(&next_path, "new-day-line\n");
    let mut out = Vec::new();
    state
        .poll(
            next_sample_date(),
            512,
            &file_enabled,
            &fs.everything(),
            0,
            &mut out,
            &mut unreadable,
            &mut status_messages,
        )
        .expect("poll after next-day file creation");
    assert_eq!(out.len(), 1);
    assert_eq!(out[0].source, "app_0425.log");
    assert_eq!(out[0].line, "new-day-line");

    fs.remove(&previous_path);
    state
        .sync_active_files(
            next_sample_date(),
            &file_enabled,
            &fs.everything(),
            &mut unreadable,
            &mut status_messages,
        )
        .expect("sync after previous removal");
    assert_eq!(state.active_paths(), vec![next_path]);
}

#[test]
fn undated_file_that_no_longer_matches_is_dropped() {
    let mut fs = FakeFs::new();
    fs.create("/logs/a.log", "");
    fs.create("/logs/b.log", "");
    let mut watcher = fs.watch(&["/logs/*.log"], 512);
    assert_eq!(watcher.active_file_paths(&fs.everything()).len(), 2);

    fs.remove("/logs/a.log");
    fs.poll(&mut watcher);
    fs.create("/logs/c.log", "already there\n");
    assert!(fs.poll(&mut watcher).is_empty());
    assert_eq!(
        watcher.active_file_paths(&fs.everything()),
        vec!["/logs/b.log", "/logs/c.log"]
    );
    fs.append("/logs/c.log", b"news\n");
    assert_eq!(fs.poll(&mut watcher), vec![event("c.log", "news")]);
}

#[test]
fn wildcard_warning_is_reported_once_per_change() {
    let mut fs = FakeFs::new();
    for idx in 0..(MAX_WILDCARD_MATCHES + 2) {
        fs.create(&format!("/logs/overflow-{idx:03}.log"), "x\n");
    }

    let mut watcher = fs.watch(&["/logs/overflow-*.log"], 512);
    assert!(watcher.take_status_messages().is_empty());

    fs.poll(&mut watcher);
    let first_messages = watcher.take_status_messages();
    assert_eq!(first_messages.len(), 1);
    assert!(first_messages[0].contains("matched more than"));

    fs.poll(&mut watcher);
    assert!(watcher.take_status_messages().is_empty());
}

#[test]
fn active_sources_return_resolved_source_names() {
    let mut fs = FakeFs::new();
    fs.create("/logs/app-b.log", "b\n");
    fs.create("/logs/app-a.log", "a\n");

    let watcher = fs.watch(&["/logs/app-*.log"], 512);

    assert_eq!(
        watcher.active_sources(&fs.everything()),
        vec!["app-a.log".to_string(), "app-b.log".to_string()]
    );
}

#[test]
fn today_descriptors_only_show_existing_date_candidates() {
    let mut fs = FakeFs::new();
    let tokens = DateTokens::for_date(sample_date());
    let existing = format!("/logs/app_{}.log", tokens.value_for("mm_dd"));
    assert_eq!(existing, "/logs/app_04_24.log");
    fs.create(&existing, "a\n");

    let watcher = fs.watch(&["/logs/app_{today}.log"], 512);
    let descriptors = watcher.tracked_path_descriptors(sample_date(), &fs.everything());

    assert_eq!(descriptors.len(), 1);
    assert!(descriptors[0].is_dynamic);
    assert_eq!(descriptors[0].raw_path, "/logs/app_{today}.log");
    assert_eq!(descriptors[0].resolved_files.len(), 1);
    assert_eq!(descriptors[0].resolved_files[0].path, existing);
    assert!(descriptors[0].resolved_files[0].active);
    assert!(descriptors[0].resolved_files[0].enabled);
    assert_eq!(
        watcher.active_sources(&fs.everything()),
        vec![descriptors[0].resolved_files[0].source_label.clone()]
    );
}

#[test]
fn literal_descriptor_still_shows_missing_configured_file() {
    let fs = FakeFs::new();
    let missing = "/logs/missing.log".to_string();

    let watcher = fs.watch(&[&missing], 512);
    let descriptors = watcher.tracked_path_descriptors(sample_date(), &fs.everything());

    assert_eq!(descriptors.len(), 1);
    assert_eq!(descriptors[0].resolved_files.len(), 1);
    assert_eq!(descriptors[0].resolved_files[0].path, missing);
    assert!(watcher.active_sources(&fs.everything()).is_empty());
}

#[test]
fn descriptors_come_in_the_order_of_their_paths() {
    let mut fs = FakeFs::new();
    fs.create("/logs/b.log", "");
    fs.create("/logs/a.log", "");
    let raw = vec!["/logs/*.log".to_string(), "/logs/b.log".to_string()];
    let mut enabled: PathTable<bool> = PathTable::new();
    enabled.insert("/logs//b.log", false);

    let list = describe_tracked_paths(&raw, &enabled, sample_date(), &fs.everything())
        .expect("descriptors");

    assert_eq!(list.len(), 2);
    let files: Vec<(&str, bool, bool)> = list[0]
        .resolved_files
        .iter()
        .map(|file| (file.path.as_str(), file.enabled, file.active))
        .collect();
    assert_eq!(
        files,
        vec![("/logs/a.log", true, true), ("/logs/b.log", false, true)]
    );
    assert!(!list[1].is_dynamic);
}

#[test]
fn active_file_paths_return_resolved_paths() {
    let mut fs = FakeFs::new();
    fs.create("/logs/app-a.log", "a\n");
    fs.create("/logs/app-b.log", "b\n");

    let watcher = fs.watch(&["/logs/app-*.log"], 512);

    assert_eq!(
        watcher.active_file_paths(&fs.everything()),
        vec!["/logs/app-a.log".to_string(), "/logs/app-b.log".to_string()]
    );
}

#[test]
fn disabled_file_is_removed_from_active_sources() {
    let mut fs = FakeFs::new();
    fs.create("/logs/app-a.log", "a\n");
    fs.create("/logs/app-b.log", "b\n");

    let mut enabled: PathTable<bool> = PathTable::new();
    enabled.insert("/logs/app-b.log", false);
    let paths = vec!["/logs/app-*.log".to_string()];
    let snapshot = fs.for_start(&paths, sample_date());
    let watcher =
        PollingWatcher::with_file_enabled(paths, enabled, 512, sample_date(), &snapshot)
            .expect("watcher");

    assert_eq!(
        watcher.active_sources(&fs.everything()),
        vec!["app-a.log".to_string()]
    );
    assert_eq!(
        watcher.active_file_paths(&fs.everything()),
        vec!["/logs/app-a.log".to_string()]
    );
}

#[test]
fn switching_a_file_off_and_on_starts_at_its_end() {
    let mut fs = FakeFs::new();
    fs.create("/logs/a.log", "");
    fs.create("/logs/b.log", "");
    let mut watcher = fs.watch(&["/logs/*.log"], 512);

    watcher
        .set_file_enabled("/logs/a.log", false, sample_date(), &fs.everything())
        .expect("switch off");
    fs.append("/logs/a.log", b"unseen\n");
    fs.append("/logs/b.log", b"seen\n");
    assert_eq!(fs.poll(&mut watcher), vec![event("b.log", "seen")]);
    assert_eq!(
        watcher.active_file_paths(&fs.everything()),
        vec!["/logs/b.log"]
    );

    watcher
        .set_file_enabled("/logs/a.log", true, sample_date(), &fs.everything())
        .expect("switch on");
    assert!(fs.poll(&mut watcher).is_empty());
    fs.append("/logs/a.log", b"news\n");
    assert_eq!(fs.poll(&mut watcher), vec![event("a.log", "news")]);
}

#[test]
fn poll_asks_for_no_more_than_it_needs() {
    let mut fs = FakeFs::new();
    fs.create("/logs/a.log", "old\n");
    fs.create("/logs/quiet.log", "old\n");
    let watcher = fs.watch(&["/logs/a.log", "/logs/quiet.log"], 512);
    fs.append("/logs/a.log", b"new\n");

    assert!(watcher.dirs_to_list(sample_date()).is_empty());
    let everything = fs.everything();
    assert_eq!(
        watcher.files_to_read(sample_date(), &everything),
        vec![ReadRequest {
            path: "/logs/a.log".to_string(),
            offset: 4,
        }]
    );
}

#[test]
fn poll_needs_no_more_than_it_asks_for() {
    let mut fs = FakeFs::new();
    fs.create("/logs/app_0424.log", "old\n");
    let mut asked = fs.watch(&["/logs/app_{mmdd}.log", "/logs/*.log"], 512);
    let mut told = fs.watch(&["/logs/app_{mmdd}.log", "/logs/*.log"], 512);
    fs.append("/logs/app_0424.log", b"line\n");
    fs.create("/logs/app_0425.log", "fresh\n");

    for today in [sample_date(), next_sample_date()] {
        let exact = fs.for_poll(&asked, today);
        assert_eq!(
            asked.poll(today, &exact, 5),
            told.poll(today, &fs.everything(), 5)
        );
    }
}

#[test]
fn merges_events_from_multiple_files() {
    let mut fs = FakeFs::new();
    fs.create("/logs/a.log", "");
    fs.create("/logs/b.log", "");
    let mut watcher = fs.watch(&["/logs/a.log", "/logs/b.log"], 512);

    fs.append("/logs/a.log", b"alpha\n");
    fs.append("/logs/b.log", b"beta\n");
    let events = fs.poll(&mut watcher);

    assert_eq!(events.len(), 2);
    assert!(events.iter().any(|event| event.1 == "alpha"));
    assert!(events.iter().any(|event| event.1 == "beta"));
}

#[test]
fn truncates_lines_to_max_len() {
    let mut fs = FakeFs::new();
    fs.create("/logs/a.log", "");
    let mut watcher = fs.watch(&["/logs/a.log"], 5);

    fs.append("/logs/a.log", b"123456789\n");
    let events = fs.poll(&mut watcher);

    assert_eq!(events.len(), 1);
    assert_eq!(events[0].1, "12345");
}

#[test]
fn truncation_keeps_characters_whole() {
    let mut fs = FakeFs::new();
    fs.create("/logs/a.log", "");
    let mut watcher = fs.watch(&["/logs/a.log"], 4);

    fs.append("/logs/a.log", "abc\u{e9}z\n".as_bytes());
    assert_eq!(fs.poll(&mut watcher), vec![event("a.log", "abc")]);
}

#[test]
fn a_suggested_pattern_stands_for_the_file() {
    for path in [
        "/logs/app_20260424.log",
        "/logs/app_2026-04-24.log",
        "/logs//app-0424",
        "26_04_24.log",
    ] {
        let suggestion = suggest_today_pattern(path).expect("suggestion");
        let resolved = PathResolver::new(&suggestion.pattern_path)
            .resolve_paths_for_date(sample_date(), &Snapshot::new());
        assert!(
            resolved
                .paths
                .iter()
                .any(|found| std::path::Path::new(found) == std::path::Path::new(path)),
            "{path}"
        );
        assert!(suggest_today_pattern(&suggestion.pattern_path).is_none());
    }
}

#[test]
fn second_poll_of_an_unchanged_disk_is_silent() {
    let mut fs = FakeFs::new();
    fs.create("/logs/a.log", "");
    fs.create("/logs/app_0424.log", "");
    let mut watcher = fs.watch(&["/logs/*.log", "/logs/app_{mmdd}.log", "/logs/none"], 512);
    fs.append("/logs/a.log", b"one\ntwo\npart");
    fs.append("/logs/app_0424.log", b"three\n");
    assert_eq!(
        fs.poll(&mut watcher),
        vec![
            event("a.log", "one"),
            event("a.log", "two"),
            event("app_0424.log", "three"),
            event("app_0424.log", "three"),
        ]
    );
    assert!(fs.poll(&mut watcher).is_empty());
    assert!(watcher.take_status_messages().is_empty());
}

#[test]
fn returning_warning_is_given_again() {
    let mut state = TrackedPathState::new(
        "/logs/a.log".to_string(),
        sample_date(),
        &Snapshot::new(),
    )
    .expect("state");
    let warnings = vec!["w".to_string()];
    let mut messages = Vec::new();
    state.emit_resolution_warnings(&warnings, &mut messages);
    state.emit_resolution_warnings(&warnings, &mut messages);
    assert_eq!(messages, vec!["w"]);
    state.emit_resolution_warnings(&Vec::new(), &mut messages);
    state.emit_resolution_warnings(&warnings, &mut messages);
    assert_eq!(messages, vec!["w", "w"]);
}

#[test]
fn events_do_not_depend_on_reads() {
    let snapshot = Snapshot::new();
    let fresh = || TrackedFileState::new("/logs/a.log".to_string(), &snapshot).expect("file");
    let mut whole = fresh();
    let mut parts = fresh();
    let (mut at_once, mut piecewise) = (Vec::new(), Vec::new());
    whole.emit_events(&b"ab\nc\nd".to_vec(), 9, 1, &mut at_once);
    parts.emit_events(&b"ab".to_vec(), 9, 1, &mut piecewise);
    parts.emit_events(&b"\nc\nd".to_vec(), 9, 1, &mut piecewise);
    assert_eq!(at_once, piecewise);
    assert_eq!(at_once.len(), 2);
    whole.emit_events(&b"\n".to_vec(), 9, 1, &mut at_once);
    parts.emit_events(&b"\n".to_vec(), 9, 1, &mut piecewise);
    assert_eq!(at_once, piecewise);
    assert_eq!(at_once[2].line, "d");
}
