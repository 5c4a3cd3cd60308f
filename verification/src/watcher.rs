//! Following files by polling.
//!
//! A poll is answered from a snapshot of the file system. Before it, the watcher names what it
//! needs to know: the directories to list, the files to look at and the stretches to read.

use crate::dates::CalendarDate;
use crate::order;
use crate::order::Order;
use crate::path_table::PathTable;
use crate::paths;
use crate::resolver;
use crate::resolver::PathResolver;
use crate::resolver::ResolvedPaths;
use crate::snapshot::Snapshot;
use crate::snapshot::StatOutcome;
use crate::text;
use crate::tracking;
use crate::tracking::FilePoll;
use crate::tracking::FileView;
use crate::tracking::LogEventView;
use crate::tracking::TrackedFileState;
use crate::watcher_laws;
use vstd::prelude::*;

pub use crate::dates::suggest_today_pattern;
pub use crate::dates::TodayPatternSuggestion;
pub use crate::tracking::LogEvent;

verus! {

/// A tracked path: the files followed for it, and the warnings that it gave last.
pub struct PathView {
    pub raw: Seq<char>,
    pub active: Seq<FileView>,
    pub warned: Seq<Seq<char>>,
}

/// The file at a path is to be followed: nobody has switched it off.
pub open spec fn file_enabled(enabled: Map<Seq<Seq<char>>, bool>, path: Seq<char>) -> bool {
    enabled.contains_key(paths::path_components(path)) ==> enabled[paths::path_components(path)]
}

fn is_file_enabled(enabled: &PathTable<bool>, path: &str) -> (res: bool)
    requires
        enabled.wf(),
    ensures
        res == file_enabled(enabled@, path@),
{
    match enabled.get(path) {
        Some(value) => *value,
        None => true,
    }
}

/// There is a file, or one cannot tell.
pub open spec fn present(stat: StatOutcome) -> bool {
    match stat {
        StatOutcome::Found(stat) => stat.is_file,
        StatOutcome::Missing => false,
        StatOutcome::Failed => true,
    }
}

fn file_is_present(path: &String, snapshot: &Snapshot) -> (res: bool)
    ensures
        res == present(snapshot.stat_at(path@)),
{
    match snapshot.stat(path) {
        StatOutcome::Found(stat) => stat.is_file,
        StatOutcome::Missing => false,
        StatOutcome::Failed => true,
    }
}

/// A file of an earlier date is followed on until it is known to be gone.
fn should_keep_rollover_file(path: &String, snapshot: &Snapshot) -> (res: bool)
    ensures
        res == !(snapshot.stat_at(path@) is Missing),
{
    match snapshot.stat(path) {
        StatOutcome::Missing => false,
        _ => true,
    }
}

/// The file of the list that has the path.
pub open spec fn file_at(files: Seq<FileView>, path: Seq<char>) -> Option<FileView>
    decreases files.len(),
{
    if files.len() == 0 {
        None
    } else if paths::same_path(files[0].path, path) {
        Some(files[0])
    } else {
        file_at(files.skip(1), path)
    }
}

/// The warnings that were not given before.
pub open spec fn new_warnings(warnings: Seq<Seq<char>>, warned: Seq<Seq<char>>) -> Seq<Seq<char>>
    decreases warnings.len(),
{
    if warnings.len() == 0 {
        seq![]
    } else {
        let front = new_warnings(warnings.drop_last(), warned);
        if warned.contains(warnings.last()) {
            front
        } else {
            front.push(warnings.last())
        }
    }
}

/// The table of unreadable files without the files that are followed and that the path no longer
/// stands for.
pub open spec fn without_unresolved(
    unreadable: Map<Seq<Seq<char>>, Seq<char>>,
    active: Seq<FileView>,
    resolved: Seq<Seq<char>>,
) -> Map<Seq<Seq<char>>, Seq<char>>
    decreases active.len(),
{
    if active.len() == 0 {
        unreadable
    } else {
        let front = without_unresolved(unreadable, active.drop_last(), resolved);
        if resolver::lists_path(resolved, active.last().path) {
            front
        } else {
            front.remove(paths::path_components(active.last().path))
        }
    }
}

/// The files to follow for the resolved paths that are switched on, each as it was followed before
/// or afresh, and the table of unreadable files without those that are switched off. A file that
/// cannot be looked at ends it.
pub open spec fn followed(
    resolved: Seq<Seq<char>>,
    active: Seq<FileView>,
    enabled: Map<Seq<Seq<char>>, bool>,
    snapshot: &Snapshot,
    unreadable: Map<Seq<Seq<char>>, Seq<char>>,
) -> (Result<Seq<FileView>, Seq<char>>, Map<Seq<Seq<char>>, Seq<char>>)
    decreases resolved.len(),
{
    if resolved.len() == 0 {
        (Ok(seq![]), unreadable)
    } else {
        let path = resolved.last();
        let (front, table) = followed(
            resolved.drop_last(),
            active,
            enabled,
            snapshot,
            unreadable,
        );
        match front {
            Err(reason) => (Err(reason), table),
            Ok(files) => if !file_enabled(enabled, path) {
                (Ok(files), table.remove(paths::path_components(path)))
            } else {
                match file_at(active, path) {
                    Some(file) => (Ok(files.push(file)), table),
                    None => match tracking::fresh_file(path, snapshot.stat_at(path)) {
                        Ok(file) => (Ok(files.push(file)), table),
                        Err(reason) => (Err(reason), table),
                    },
                }
            },
        }
    }
}

/// The files that are followed on though the path no longer stands for them: where it depends on
/// the date, those that are switched on and not known to be gone.
pub open spec fn rolled_over(
    raw: Seq<char>,
    active: Seq<FileView>,
    resolved: Seq<Seq<char>>,
    enabled: Map<Seq<Seq<char>>, bool>,
    snapshot: &Snapshot,
) -> Seq<FileView>
    decreases active.len(),
{
    if active.len() == 0 {
        seq![]
    } else {
        let front = rolled_over(raw, active.drop_last(), resolved, enabled, snapshot);
        let file = active.last();
        if !resolver::lists_path(resolved, file.path) && resolver::date_sensitive(raw)
            && file_enabled(enabled, file.path) && !(snapshot.stat_at(file.path) is Missing) {
            front.push(file)
        } else {
            front
        }
    }
}

/// What bringing the followed files up to date comes to.
pub struct Sync {
    pub state: PathView,
    pub unreadable: Map<Seq<Seq<char>>, Seq<char>>,
    pub status: Seq<Seq<char>>,
    pub error: Option<Seq<char>>,
}

impl PathView {
    /// The followed files brought up to date with what the path stands for on the given day.
    pub open spec fn synced(
        self,
        date: CalendarDate,
        enabled: Map<Seq<Seq<char>>, bool>,
        snapshot: &Snapshot,
        unreadable: Map<Seq<Seq<char>>, Seq<char>>,
        status: Seq<Seq<char>>,
    ) -> Sync {
        let resolved = resolver::resolved(self.raw, date, snapshot);
        let warnings = resolver::resolution_warnings(self.raw, date, snapshot);
        let (files, table) = followed(
            resolved,
            self.active,
            enabled,
            snapshot,
            without_unresolved(unreadable, self.active, resolved),
        );
        let (active, error) = match files {
            Ok(files) => (
                files + rolled_over(self.raw, self.active, resolved, enabled, snapshot),
                None,
            ),
            Err(reason) => (seq![], Some(reason)),
        };
        Sync {
            state: PathView { raw: self.raw, active, warned: warnings },
            unreadable: table,
            status: status + new_warnings(warnings, self.warned),
            error,
        }
    }
}

/// What polls have gathered so far: the events, the files that could not be read and why, and the
/// messages.
pub struct Ledger {
    pub events: Seq<LogEventView>,
    pub unreadable: Map<Seq<Seq<char>>, Seq<char>>,
    pub status: Seq<Seq<char>>,
}

impl Ledger {
    /// The ledger with the poll of one file entered: a file that cannot be read is named once for
    /// each reason, and once more when it can be read again.
    pub open spec fn entered(self, file: FileView, poll: FilePoll, now: i64) -> Ledger {
        let key = paths::path_components(file.path);
        let known = self.unreadable.contains_key(key);
        Ledger {
            events: self.events + tracking::line_events(now, file.label, poll.lines),
            unreadable: match poll.error {
                None => self.unreadable.remove(key),
                Some(reason) => self.unreadable.insert(key, reason),
            },
            status: match poll.error {
                None => if known {
                    self.status.push("File readable again: "@ + file.path)
                } else {
                    self.status
                },
                Some(reason) => if known && self.unreadable[key] == reason {
                    self.status
                } else {
                    self.status.push("Ignoring unreadable file "@ + file.path + ": "@ + reason)
                },
            },
        }
    }
}

/// The files after a poll of each, one after the other, and the ledger with the polls entered.
pub open spec fn polled_files(
    files: Seq<FileView>,
    snapshot: &Snapshot,
    max: nat,
    now: i64,
    start: Ledger,
) -> (Seq<FileView>, Ledger)
    decreases files.len(),
{
    if files.len() == 0 {
        (seq![], start)
    } else {
        let (front, ledger) = polled_files(files.drop_last(), snapshot, max, now, start);
        let poll = files.last().polled_from(snapshot, max);
        (front.push(poll.file), ledger.entered(files.last(), poll, now))
    }
}

/// A tracked path with the files that are followed for it.
#[derive(Debug)]
pub struct TrackedPathState {
    raw_path: String,
    resolver: PathResolver,
    active_files: Vec<TrackedFileState>,
    last_resolution_warnings: Vec<String>,
}

impl View for TrackedPathState {
    type V = PathView;

    closed spec fn view(&self) -> PathView {
        PathView {
            raw: self.raw_path@,
            active: tracking::file_views(self.active_files@),
            warned: text::texts(self.last_resolution_warnings@),
        }
    }
}

/// Fresh files for all the paths of the list, or the first reason why there is none.
pub open spec fn fresh_files(paths: Seq<Seq<char>>, snapshot: &Snapshot) -> Result<
    Seq<FileView>,
    Seq<char>,
>
    decreases paths.len(),
{
    if paths.len() == 0 {
        Ok(seq![])
    } else {
        match fresh_files(paths.drop_last(), snapshot) {
            Err(reason) => Err(reason),
            Ok(files) => match tracking::fresh_file(
                paths.last(),
                snapshot.stat_at(paths.last()),
            ) {
                Ok(file) => Ok(files.push(file)),
                Err(reason) => Err(reason),
            },
        }
    }
}

/// A path that was not tracked before.
pub open spec fn fresh_path(raw: Seq<char>, date: CalendarDate, snapshot: &Snapshot) -> Result<
    PathView,
    Seq<char>,
> {
    match fresh_files(resolver::resolved(raw, date, snapshot), snapshot) {
        Ok(active) => Ok(PathView { raw, active, warned: seq![] }),
        Err(reason) => Err(reason),
    }
}

impl TrackedPathState {
    /// The resolver is that of the path.
    pub closed spec fn wf(&self) -> bool {
        self.resolver.raw@ == self.raw_path@
    }

    /// Tracks a path: every file that it stands for is followed from its end on.
    pub fn new(raw_path: String, today: CalendarDate, snapshot: &Snapshot) -> (res: Result<
        TrackedPathState,
        String,
    >)
        ensures
            match res {
                Ok(state) => state.wf() && fresh_path(raw_path@, today, snapshot) == Ok::<
                    PathView,
                    Seq<char>,
                >(state@),
                Err(reason) => fresh_path(raw_path@, today, snapshot) == Err::<
                    PathView,
                    Seq<char>,
                >(reason@),
            },
    {
        let resolver: PathResolver = PathResolver::new(raw_path.as_str());
        let found: ResolvedPaths = resolver.resolve_paths_for_date(today, snapshot);
        let ghost wanted = text::texts(found.paths@);
        let mut active_files: Vec<TrackedFileState> = Vec::new();
        let mut failure: Option<String> = None;
        let mut i: usize = 0;
        assert(tracking::file_views(active_files@) =~= seq![]);
        while i < found.paths.len()
            invariant
                wanted == text::texts(found.paths@),
                i <= found.paths@.len(),
                match failure {
                    None => fresh_files(wanted.take(i as int), snapshot) == Ok::<
                        Seq<FileView>,
                        Seq<char>,
                    >(tracking::file_views(active_files@)),
                    Some(reason) => fresh_files(wanted.take(i as int), snapshot) == Err::<
                        Seq<FileView>,
                        Seq<char>,
                    >(reason@),
                },
            decreases found.paths@.len() - i,
        {
            let ghost before = tracking::file_views(active_files@);
            proof {
                assert(wanted.take(i + 1).drop_last() =~= wanted.take(i as int));
                assert(wanted.take(i + 1).last() == found.paths@[i as int]@);
            }
            if failure.is_none() {
                match TrackedFileState::new(found.paths[i].clone(), snapshot) {
                    Ok(file) => {
                        let ghost fresh = file@;
                        active_files.push(file);
                        assert(tracking::file_views(active_files@) =~= before.push(fresh));
                    },
                    Err(reason) => {
                        failure = Some(reason);
                    },
                }
            }
            i = i + 1;
        }
        assert(wanted.take(i as int) =~= wanted);
        match failure {
            Some(reason) => Err(reason),
            None => {
                let res: TrackedPathState = TrackedPathState {
                    raw_path,
                    resolver,
                    active_files,
                    last_resolution_warnings: Vec::new(),
                };
                assert(res@.warned =~= seq![]);
                Ok(res)
            },
        }
    }

    /// Says what the path is warned of and was not warned of the last time.
    pub fn emit_resolution_warnings(&mut self, warnings: &Vec<String>, status_messages: &mut Vec<String>)
        ensures
            final(self)@ == (PathView { warned: text::texts(warnings@), ..old(self)@ }),
            final(self).wf() == old(self).wf(),
            text::texts(final(status_messages)@) == text::texts(old(status_messages)@)
                + new_warnings(text::texts(warnings@), old(self)@.warned),
    {
        let ghost all = text::texts(warnings@);
        let ghost before = text::texts(status_messages@);
        let ghost warned = self@.warned;
        let mut next: Vec<String> = Vec::new();
        let mut i: usize = 0;
        proof {
            assert(all.take(0) =~= seq![]);
            assert(before + seq![] =~= before);
            assert(text::texts(next@) =~= all.take(0));
        }
        while i < warnings.len()
            invariant
                self@ == old(self)@,
                self.wf() == old(self).wf(),
                warned == self@.warned,
                all == text::texts(warnings@),
                i <= warnings@.len(),
                text::texts(next@) == all.take(i as int),
                text::texts(status_messages@) == before + new_warnings(
                    all.take(i as int),
                    warned,
                ),
            decreases warnings@.len() - i,
        {
            let ghost given = text::texts(status_messages@);
            let ghost taken = text::texts(next@);
            let ghost warning = warnings@[i as int]@;
            proof {
                assert(all.take(i + 1).drop_last() =~= all.take(i as int));
                assert(all.take(i + 1).last() == warning);
            }
            if !is_listed(&self.last_resolution_warnings, &warnings[i]) {
                status_messages.push(warnings[i].clone());
                proof {
                    assert(text::texts(status_messages@) =~= given.push(warning));
                    let front = new_warnings(all.take(i as int), warned);
                    assert((before + front).push(warning) =~= before + front.push(warning));
                }
            }
            next.push(warnings[i].clone());
            assert(text::texts(next@) =~= taken.push(warning));
            assert(all.take(i + 1) =~= taken.push(warning));
            i = i + 1;
        }
        assert(all.take(i as int) =~= all);
        self.last_resolution_warnings = next;
    }
}

fn is_listed(list: &Vec<String>, s: &String) -> (res: bool)
    ensures
        res == text::texts(list@).contains(s@),
{
    let mut i: usize = 0;
    while i < list.len()
        invariant
            i <= list@.len(),
            forall|j: int| 0 <= j < i ==> #[trigger] text::texts(list@)[j] != s@,
        decreases list@.len() - i,
    {
        assert(text::texts(list@)[i as int] == list@[i as int]@);
        if list[i] == *s {
            return true;
        }
        i = i + 1;
    }
    false
}

/// Which files are followed does not depend on the table of unreadable files.
pub proof fn followed_ignores_table(
    resolved: Seq<Seq<char>>,
    active: Seq<FileView>,
    enabled: Map<Seq<Seq<char>>, bool>,
    snapshot: &Snapshot,
    a: Map<Seq<Seq<char>>, Seq<char>>,
    b: Map<Seq<Seq<char>>, Seq<char>>,
)
    ensures
        followed(resolved, active, enabled, snapshot, a).0 == followed(
            resolved,
            active,
            enabled,
            snapshot,
            b,
        ).0,
    decreases resolved.len(),
{
    if resolved.len() > 0 {
        followed_ignores_table(resolved.drop_last(), active, enabled, snapshot, a, b);
    }
}

impl TrackedPathState {
    fn active_keys(&self) -> (res: Vec<Vec<Vec<char>>>)
        ensures
            resolver::are_keys(res@, file_paths(self@.active)),
    {
        let mut res: Vec<Vec<Vec<char>>> = Vec::new();
        let mut i: usize = 0;
        while i < self.active_files.len()
            invariant
                i <= self.active_files@.len(),
                res@.len() == i,
                forall|j: int|
                    0 <= j < i ==> text::char_lists((#[trigger] res@[j])@)
                        == paths::path_components(self.active_files@[j]@.path),
            decreases self.active_files@.len() - i,
        {
            res.push(paths::components(self.active_files[i].path().as_str()));
            i = i + 1;
        }
        res
    }

    fn active_position(&self, keys: &Vec<Vec<Vec<char>>>, path: &str) -> (res: Option<usize>)
        requires
            resolver::are_keys(keys@, file_paths(self@.active)),
        ensures
            match res {
                Some(i) => {
                    &&& i < self.active_files@.len()
                    &&& file_at(self@.active, path@) == Some(self.active_files@[i as int]@)
                },
                None => file_at(self@.active, path@) is None,
            },
    {
        let ghost files = self@.active;
        let key: Vec<Vec<char>> = paths::components(path);
        let mut i: usize = 0;
        assert(files.skip(0) =~= files);
        while i < self.active_files.len()
            invariant
                resolver::are_keys(keys@, file_paths(files)),
                text::char_lists(key@) == paths::path_components(path@),
                files == self@.active,
                i <= self.active_files@.len(),
                file_at(files, path@) == file_at(files.skip(i as int), path@),
            decreases self.active_files@.len() - i,
        {
            assert(files.skip(i as int)[0] == self.active_files@[i as int]@);
            assert(file_paths(files)[i as int] == self.active_files@[i as int]@.path);
            if paths::same_components(&keys[i], &key) {
                return Some(i);
            }
            assert(files.skip(i as int).skip(1) =~= files.skip(i + 1));
            i = i + 1;
        }
        None
    }

    fn follow(
        &self,
        resolved: &Vec<String>,
        enabled: &PathTable<bool>,
        snapshot: &Snapshot,
        unreadable: &mut PathTable<String>,
    ) -> (res: Result<Vec<TrackedFileState>, String>)
        requires
            enabled.wf(),
            old(unreadable).wf(),
        ensures
            final(unreadable).wf(),
            ({
                let (files, table) = followed(
                    text::texts(resolved@),
                    self@.active,
                    enabled@,
                    snapshot,
                    old(unreadable)@,
                );
                &&& final(unreadable)@ == table
                &&& match res {
                    Ok(list) => files == Ok::<Seq<FileView>, Seq<char>>(
                        tracking::file_views(list@),
                    ),
                    Err(reason) => files == Err::<Seq<FileView>, Seq<char>>(reason@),
                }
            }),
    {
        let ghost wanted = text::texts(resolved@);
        let ghost before = unreadable@;
        let keys: Vec<Vec<Vec<char>>> = self.active_keys();
        let mut list: Vec<TrackedFileState> = Vec::new();
        let mut failure: Option<String> = None;
        let mut i: usize = 0;
        assert(tracking::file_views(list@) =~= seq![]);
        while i < resolved.len()
            invariant
                resolver::are_keys(keys@, file_paths(self@.active)),
                enabled.wf(),
                unreadable.wf(),
                wanted == text::texts(resolved@),
                i <= resolved@.len(),
                ({
                    let (files, table) = followed(
                        wanted.take(i as int),
                        self@.active,
                        enabled@,
                        snapshot,
                        before,
                    );
                    &&& unreadable@ == table
                    &&& match failure {
                        None => files == Ok::<Seq<FileView>, Seq<char>>(
                            tracking::file_views(list@),
                        ),
                        Some(reason) => files == Err::<Seq<FileView>, Seq<char>>(reason@),
                    }
                }),
            decreases resolved@.len() - i,
        {
            let ghost files = tracking::file_views(list@);
            proof {
                assert(wanted.take(i + 1).drop_last() =~= wanted.take(i as int));
                assert(wanted.take(i + 1).last() == resolved@[i as int]@);
            }
            if failure.is_none() {
                let path: &String = &resolved[i];
                if !is_file_enabled(enabled, path.as_str()) {
                    let _ = unreadable.remove(path.as_str());
                } else {
                    match self.active_position(&keys, path.as_str()) {
                        Some(at) => {
                            list.push(self.active_files[at].copy());
                            assert(tracking::file_views(list@) =~= files.push(
                                self.active_files@[at as int]@,
                            ));
                        },
                        None => match TrackedFileState::new(path.clone(), snapshot) {
                            Ok(file) => {
                                let ghost fresh = file@;
                                list.push(file);
                                assert(tracking::file_views(list@) =~= files.push(fresh));
                            },
                            Err(reason) => {
                                failure = Some(reason);
                            },
                        },
                    }
                }
            }
            i = i + 1;
        }
        assert(wanted.take(i as int) =~= wanted);
        match failure {
            Some(reason) => Err(reason),
            None => Ok(list),
        }
    }

    fn roll_over(
        &self,
        resolved: &Vec<String>,
        enabled: &PathTable<bool>,
        snapshot: &Snapshot,
    ) -> (res: Vec<TrackedFileState>)
        requires
            self.wf(),
            enabled.wf(),
        ensures
            tracking::file_views(res@) == rolled_over(
                self@.raw,
                self@.active,
                text::texts(resolved@),
                enabled@,
                snapshot,
            ),
    {
        let dated: bool = self.resolver.is_date_sensitive();
        let keys: Vec<Vec<Vec<char>>> = resolver::path_keys(resolved);
        let ghost files = self@.active;
        let mut res: Vec<TrackedFileState> = Vec::new();
        let mut i: usize = 0;
        assert(files.take(0) =~= seq![]);
        assert(tracking::file_views(res@) =~= seq![]);
        while i < self.active_files.len()
            invariant
                resolver::are_keys(keys@, text::texts(resolved@)),
                enabled.wf(),
                files == self@.active,
                dated == resolver::date_sensitive(self@.raw),
                i <= self.active_files@.len(),
                tracking::file_views(res@) == rolled_over(
                    self@.raw,
                    files.take(i as int),
                    text::texts(resolved@),
                    enabled@,
                    snapshot,
                ),
            decreases self.active_files@.len() - i,
        {
            let ghost kept = tracking::file_views(res@);
            proof {
                assert(files.take(i + 1).drop_last() =~= files.take(i as int));
                assert(files.take(i + 1).last() == self.active_files@[i as int]@);
            }
            let path: &String = self.active_files[i].path();
            proof {
                resolver::listed_by_key(keys@, text::texts(resolved@), path@);
            }
            if dated && !resolver::is_key_listed(
                &keys,
                &paths::components(path.as_str()),
            ) && is_file_enabled(
                enabled,
                path.as_str(),
            ) && should_keep_rollover_file(path, snapshot) {
                res.push(self.active_files[i].copy());
                assert(tracking::file_views(res@) =~= kept.push(self.active_files@[i as int]@));
            }
            i = i + 1;
        }
        assert(files.take(i as int) =~= files);
        res
    }

    fn forget_unresolved(&self, resolved: &Vec<String>, unreadable: &mut PathTable<String>)
        requires
            old(unreadable).wf(),
        ensures
            final(unreadable).wf(),
            final(unreadable)@ == without_unresolved(
                old(unreadable)@,
                self@.active,
                text::texts(resolved@),
            ),
    {
        let keys: Vec<Vec<Vec<char>>> = resolver::path_keys(resolved);
        let ghost files = self@.active;
        let ghost before = unreadable@;
        let mut i: usize = 0;
        assert(files.take(0) =~= seq![]);
        while i < self.active_files.len()
            invariant
                resolver::are_keys(keys@, text::texts(resolved@)),
                unreadable.wf(),
                files == self@.active,
                i <= self.active_files@.len(),
                unreadable@ == without_unresolved(
                    before,
                    files.take(i as int),
                    text::texts(resolved@),
                ),
            decreases self.active_files@.len() - i,
        {
            proof {
                assert(files.take(i + 1).drop_last() =~= files.take(i as int));
                assert(files.take(i + 1).last() == self.active_files@[i as int]@);
            }
            let path: &String = self.active_files[i].path();
            proof {
                resolver::listed_by_key(keys@, text::texts(resolved@), path@);
            }
            if !resolver::is_key_listed(&keys, &paths::components(path.as_str())) {
                let _ = unreadable.remove(path.as_str());
            }
            i = i + 1;
        }
        assert(files.take(i as int) =~= files);
    }

    /// Brings the followed files up to date with what the path stands for on the given day.
    pub fn sync_active_files(
        &mut self,
        today: CalendarDate,
        enabled: &PathTable<bool>,
        snapshot: &Snapshot,
        unreadable: &mut PathTable<String>,
        status_messages: &mut Vec<String>,
    ) -> (res: Result<(), String>)
        requires
            old(self).wf(),
            enabled.wf(),
            old(unreadable).wf(),
        ensures
            final(self).wf(),
            final(unreadable).wf(),
            ({
                let sync = old(self)@.synced(
                    today,
                    enabled@,
                    snapshot,
                    old(unreadable)@,
                    text::texts(old(status_messages)@),
                );
                &&& final(self)@ == sync.state
                &&& final(unreadable)@ == sync.unreadable
                &&& text::texts(final(status_messages)@) == sync.status
                &&& match res {
                    Ok(_) => sync.error is None,
                    Err(reason) => sync.error == Some(reason@),
                }
            }),
    {
        let found: ResolvedPaths = self.resolver.resolve_paths_for_date(today, snapshot);
        self.emit_resolution_warnings(&found.warnings, status_messages);
        self.forget_unresolved(&found.paths, unreadable);
        match self.follow(&found.paths, enabled, snapshot, unreadable) {
            Ok(list) => {
                let mut files: Vec<TrackedFileState> = list;
                let mut older: Vec<TrackedFileState> = self.roll_over(
                    &found.paths,
                    enabled,
                    snapshot,
                );
                let ghost followed_now = tracking::file_views(files@);
                let ghost kept = tracking::file_views(older@);
                files.append(&mut older);
                assert(tracking::file_views(files@) =~= followed_now + kept);
                self.active_files = files;
                Ok(())
            },
            Err(reason) => {
                self.active_files = Vec::new();
                assert(self@.active =~= seq![]);
                Err(reason)
            },
        }
    }
}

/// What a poll of one tracked path comes to.
pub struct PathPoll {
    pub state: PathView,
    pub ledger: Ledger,
    pub error: Option<Seq<char>>,
}

impl PathView {
    /// A poll of the path: the followed files are brought up to date, then each is polled.
    pub open spec fn polled(
        self,
        date: CalendarDate,
        enabled: Map<Seq<Seq<char>>, bool>,
        snapshot: &Snapshot,
        max: nat,
        now: i64,
        start: Ledger,
    ) -> PathPoll {
        let sync = self.synced(date, enabled, snapshot, start.unreadable, start.status);
        let ledger = Ledger {
            events: start.events,
            unreadable: sync.unreadable,
            status: sync.status,
        };
        match sync.error {
            Some(reason) => PathPoll { state: sync.state, ledger, error: Some(reason) },
            None => {
                let (files, entered) = polled_files(sync.state.active, snapshot, max, now, ledger);
                PathPoll {
                    state: PathView { active: files, ..sync.state },
                    ledger: entered,
                    error: None,
                }
            },
        }
    }
}

impl TrackedPathState {
    /// The paths of the followed files.
    pub fn active_paths(&self) -> (res: Vec<String>)
        ensures
            text::texts(res@) == file_paths(self@.active),
    {
        let ghost wanted = file_paths(self@.active);
        let mut res: Vec<String> = Vec::new();
        let mut i: usize = 0;
        while i < self.active_files.len()
            invariant
                wanted == file_paths(self@.active),
                i <= self.active_files@.len(),
                res@.len() == i,
                forall|j: int| 0 <= j < i ==> #[trigger] res@[j]@ == wanted[j],
            decreases self.active_files@.len() - i,
        {
            res.push(self.active_files[i].path().clone());
            i = i + 1;
        }
        assert(text::texts(res@) =~= wanted);
        res
    }

    /// Brings the followed files up to date and polls each. What they have gained goes to `out`;
    /// what could not be read, and what has changed about that, goes to the other two.
    pub fn poll(
        &mut self,
        today: CalendarDate,
        max_line_len: usize,
        enabled: &PathTable<bool>,
        snapshot: &Snapshot,
        now: i64,
        out: &mut Vec<LogEvent>,
        unreadable: &mut PathTable<String>,
        status_messages: &mut Vec<String>,
    ) -> (res: Result<(), String>)
        requires
            old(self).wf(),
            snapshot.wf(),
            enabled.wf(),
            old(unreadable).wf(),
        ensures
            final(self).wf(),
            final(unreadable).wf(),
            ({
                let poll = old(self)@.polled(
                    today,
                    enabled@,
                    snapshot,
                    max_line_len as nat,
                    now,
                    (Ledger {
                        events: tracking::event_views(old(out)@),
                        unreadable: old(unreadable)@,
                        status: text::texts(old(status_messages)@),
                    }),
                );
                &&& final(self)@ == poll.state
                &&& tracking::event_views(final(out)@) == poll.ledger.events
                &&& final(unreadable)@ == poll.ledger.unreadable
                &&& text::texts(final(status_messages)@) == poll.ledger.status
                &&& match res {
                    Ok(_) => poll.error is None,
                    Err(reason) => poll.error == Some(reason@),
                }
            }),
    {
        match self.sync_active_files(today, enabled, snapshot, unreadable, status_messages) {
            Ok(_) => {},
            Err(reason) => {
                return Err(reason);
            },
        }
        let ghost start = Ledger {
            events: tracking::event_views(out@),
            unreadable: unreadable@,
            status: text::texts(status_messages@),
        };
        let ghost synced = self@;
        let ghost files = self@.active;
        let ghost max = max_line_len as nat;
        let mut pending: Vec<TrackedFileState> = Vec::new();
        std::mem::swap(&mut pending, &mut self.active_files);
        let mut done: Vec<TrackedFileState> = Vec::new();
        let mut i: usize = 0;
        assert(files.take(0) =~= seq![]);
        assert(tracking::file_views(done@) =~= seq![]);
        while i < pending.len()
            invariant
                self.wf(),
                self@.raw == synced.raw,
                self@.warned == synced.warned,
                snapshot.wf(),
                unreadable.wf(),
                max == max_line_len as nat,
                files == tracking::file_views(pending@),
                i <= pending@.len(),
                ({
                    let (views, ledger) = polled_files(
                        files.take(i as int),
                        snapshot,
                        max,
                        now,
                        start,
                    );
                    &&& tracking::file_views(done@) == views
                    &&& tracking::event_views(out@) == ledger.events
                    &&& unreadable@ == ledger.unreadable
                    &&& text::texts(status_messages@) == ledger.status
                }),
            decreases pending@.len() - i,
        {
            let ghost views = tracking::file_views(done@);
            let ghost given = text::texts(status_messages@);
            proof {
                assert(files.take(i + 1).drop_last() =~= files.take(i as int));
                assert(files.take(i + 1).last() == pending@[i as int]@);
            }
            let mut file: TrackedFileState = pending[i].copy();
            let path: String = file.path().clone();
            match file.poll(max_line_len, snapshot, now, out) {
                Ok(_) => {
                    if unreadable.remove(path.as_str()).is_some() {
                        let mut message: String = "File readable again: ".to_owned();
                        message.append(path.as_str());
                        status_messages.push(message);
                        assert(text::texts(status_messages@) =~= given.push(
                            "File readable again: "@ + path@,
                        ));
                    }
                },
                Err(reason) => {
                    let previous: Option<String> = unreadable.insert(
                        path.as_str(),
                        reason.clone(),
                    );
                    let known: bool = match previous {
                        Some(before) => before == reason,
                        None => false,
                    };
                    if !known {
                        let mut message: String = "Ignoring unreadable file ".to_owned();
                        message.append(path.as_str());
                        message.append(": ");
                        message.append(reason.as_str());
                        status_messages.push(message);
                        assert(text::texts(status_messages@) =~= given.push(
                            "Ignoring unreadable file "@ + path@ + ": "@ + reason@,
                        ));
                    }
                },
            }
            let ghost polled = file@;
            done.push(file);
            assert(tracking::file_views(done@) =~= views.push(polled));
            i = i + 1;
        }
        assert(files.take(i as int) =~= files);
        self.active_files = done;
        Ok(())
    }
}

/// One file of a tracked path.
#[derive(Debug, Clone, PartialEq, Eq)]
pub struct TrackedResolvedFileDescriptor {
    pub path: String,
    pub source_label: String,
    pub enabled: bool,
    pub active: bool,
}

/// A tracked path with its files.
#[derive(Debug, Clone, PartialEq, Eq)]
pub struct TrackedPathDescriptor {
    pub raw_path: String,
    pub is_dynamic: bool,
    pub resolved_files: Vec<TrackedResolvedFileDescriptor>,
}

/// The paths of the list at which there is a file, or all of them.
pub open spec fn shown_paths(list: Seq<Seq<char>>, all: bool, snapshot: &Snapshot) -> Seq<
    Seq<char>,
>
    decreases list.len(),
{
    if list.len() == 0 {
        seq![]
    } else {
        let front = shown_paths(list.drop_last(), all, snapshot);
        if all || present(snapshot.stat_at(list.last())) {
            front.push(list.last())
        } else {
            front
        }
    }
}

/// The list with the paths of the followed files that are there and that it lacks.
pub open spec fn with_active(
    list: Seq<Seq<char>>,
    active: Seq<FileView>,
    snapshot: &Snapshot,
) -> Seq<Seq<char>>
    decreases active.len(),
{
    if active.len() == 0 {
        list
    } else {
        let front = with_active(list, active.drop_last(), snapshot);
        let path = active.last().path;
        if present(snapshot.stat_at(path)) && !resolver::lists_path(front, path) {
            front.push(path)
        } else {
            front
        }
    }
}

impl PathView {
    /// The files that are shown for the path: of those it stands for, the ones that are there, or
    /// all of them where it is a plain path; and the followed files that are there.
    pub open spec fn shown(self, date: CalendarDate, snapshot: &Snapshot) -> Seq<Seq<char>> {
        with_active(
            shown_paths(
                resolver::resolved(self.raw, date, snapshot),
                !resolver::dynamic(self.raw),
                snapshot,
            ),
            self.active,
            snapshot,
        )
    }
}

/// The paths of a list of descriptors.
pub open spec fn descriptor_paths(files: Seq<TrackedResolvedFileDescriptor>) -> Seq<Seq<char>> {
    files.map_values(|file: TrackedResolvedFileDescriptor| file.path@)
}

impl TrackedPathDescriptor {
    /// The descriptor is that of the path: its files in the order of their paths, each with how it
    /// is shown, whether it is switched on and whether it is followed.
    pub open spec fn describes(
        &self,
        state: PathView,
        date: CalendarDate,
        enabled: Map<Seq<Seq<char>>, bool>,
        snapshot: &Snapshot,
    ) -> bool {
        let paths = descriptor_paths(self.resolved_files@);
        &&& self.raw_path@ == state.raw
        &&& self.is_dynamic == resolver::dynamic(state.raw)
        &&& Order::Path.sorted(paths)
        &&& paths.to_multiset() == state.shown(date, snapshot).to_multiset()
        &&& forall|i: int|
            0 <= i < self.resolved_files@.len() ==> {
                let file = #[trigger] self.resolved_files@[i];
                &&& file.source_label@ == paths::path_label(file.path@)
                &&& file.enabled == file_enabled(enabled, file.path@)
                &&& file.active == (file_at(state.active, file.path@) is Some)
            }
    }
}

impl TrackedPathState {
    fn shown_files(&self, today: CalendarDate, snapshot: &Snapshot) -> (res: Vec<String>)
        requires
            self.wf(),
        ensures
            text::texts(res@) == self@.shown(today, snapshot),
    {
        let found: ResolvedPaths = self.resolver.resolve_paths_for_date(today, snapshot);
        let plain: bool = !self.resolver.is_dynamic();
        let ghost all = text::texts(found.paths@);
        let mut res: Vec<String> = Vec::new();
        let mut i: usize = 0;
        assert(text::texts(res@) =~= seq![]);
        while i < found.paths.len()
            invariant
                all == text::texts(found.paths@),
                i <= found.paths@.len(),
                text::texts(res@) == shown_paths(all.take(i as int), plain, snapshot),
            decreases found.paths@.len() - i,
        {
            let ghost before = text::texts(res@);
            proof {
                assert(all.take(i + 1).drop_last() =~= all.take(i as int));
                assert(all.take(i + 1).last() == found.paths@[i as int]@);
            }
            if plain || file_is_present(&found.paths[i], snapshot) {
                res.push(found.paths[i].clone());
                assert(text::texts(res@) =~= before.push(found.paths@[i as int]@));
            }
            i = i + 1;
        }
        assert(all.take(i as int) =~= all);
        let ghost list = text::texts(res@);
        let ghost files = self@.active;
        let mut k: usize = 0;
        assert(files.take(0) =~= seq![]);
        while k < self.active_files.len()
            invariant
                files == self@.active,
                k <= self.active_files@.len(),
                text::texts(res@) == with_active(list, files.take(k as int), snapshot),
            decreases self.active_files@.len() - k,
        {
            let ghost before = text::texts(res@);
            proof {
                assert(files.take(k + 1).drop_last() =~= files.take(k as int));
                assert(files.take(k + 1).last() == self.active_files@[k as int]@);
            }
            let path: &String = self.active_files[k].path();
            if file_is_present(path, snapshot) && !resolver::is_path_listed(&res, path.as_str()) {
                res.push(path.clone());
                assert(text::texts(res@) =~= before.push(path@));
            }
            k = k + 1;
        }
        assert(files.take(k as int) =~= files);
        res
    }

    fn descriptor(
        &self,
        today: CalendarDate,
        enabled: &PathTable<bool>,
        snapshot: &Snapshot,
    ) -> (res: TrackedPathDescriptor)
        requires
            self.wf(),
            enabled.wf(),
        ensures
            res.describes(self@, today, enabled@, snapshot),
    {
        let shown: Vec<String> = self.shown_files(today, snapshot);
        let keys: Vec<Vec<Vec<char>>> = self.active_keys();
        let sorted: Vec<String> = order::sort(Order::Path, &shown);
        let ghost all = text::texts(sorted@);
        let mut files: Vec<TrackedResolvedFileDescriptor> = Vec::new();
        let mut i: usize = 0;
        assert(descriptor_paths(files@) =~= all.take(0));
        while i < sorted.len()
            invariant
                resolver::are_keys(keys@, file_paths(self@.active)),
                enabled.wf(),
                all == text::texts(sorted@),
                i <= sorted@.len(),
                files@.len() == i,
                descriptor_paths(files@) == all.take(i as int),
                forall|j: int|
                    0 <= j < files@.len() ==> {
                        let file = #[trigger] files@[j];
                        &&& file.source_label@ == paths::path_label(file.path@)
                        &&& file.enabled == file_enabled(enabled@, file.path@)
                        &&& file.active == (file_at(self@.active, file.path@) is Some)
                    },
            decreases sorted@.len() - i,
        {
            let ghost before = descriptor_paths(files@);
            let path: &String = &sorted[i];
            files.push(
                TrackedResolvedFileDescriptor {
                    path: path.clone(),
                    source_label: paths::label(path.as_str()),
                    enabled: is_file_enabled(enabled, path.as_str()),
                    active: self.active_position(&keys, path.as_str()).is_some(),
                },
            );
            assert(descriptor_paths(files@) =~= before.push(path@));
            assert(all.take(i + 1) =~= before.push(path@));
            i = i + 1;
        }
        assert(all.take(i as int) =~= all);
        TrackedPathDescriptor {
            raw_path: self.raw_path.clone(),
            is_dynamic: self.resolver.is_dynamic(),
            resolved_files: files,
        }
    }
}

/// A watcher: the tracked paths, the length to which lines are clipped, the files that are switched
/// on or off, those that could not be read and why, and the messages since the last poll began.
pub struct WatcherView {
    pub states: Seq<PathView>,
    pub max_line_len: nat,
    pub enabled: Map<Seq<Seq<char>>, bool>,
    pub unreadable: Map<Seq<Seq<char>>, Seq<char>>,
    pub status: Seq<Seq<char>>,
}

/// The tracked paths brought up to date one after the other; the first failure ends it.
pub open spec fn synced_paths(
    states: Seq<PathView>,
    date: CalendarDate,
    enabled: Map<Seq<Seq<char>>, bool>,
    snapshot: &Snapshot,
    unreadable: Map<Seq<Seq<char>>, Seq<char>>,
    status: Seq<Seq<char>>,
) -> (
    Seq<PathView>,
    Map<Seq<Seq<char>>, Seq<char>>,
    Seq<Seq<char>>,
    Option<Seq<char>>,
)
    decreases states.len(),
{
    if states.len() == 0 {
        (seq![], unreadable, status, None)
    } else {
        let (front, table, messages, error) = synced_paths(
            states.drop_last(),
            date,
            enabled,
            snapshot,
            unreadable,
            status,
        );
        if error is Some {
            (front.push(states.last()), table, messages, error)
        } else {
            let sync = states.last().synced(date, enabled, snapshot, table, messages);
            (front.push(sync.state), sync.unreadable, sync.status, sync.error)
        }
    }
}

/// The tracked paths polled one after the other; the first failure ends it.
pub open spec fn polled_paths(
    states: Seq<PathView>,
    date: CalendarDate,
    enabled: Map<Seq<Seq<char>>, bool>,
    snapshot: &Snapshot,
    max: nat,
    now: i64,
    start: Ledger,
) -> (Seq<PathView>, Ledger, Option<Seq<char>>)
    decreases states.len(),
{
    if states.len() == 0 {
        (seq![], start, None)
    } else {
        let (front, ledger, error) = polled_paths(
            states.drop_last(),
            date,
            enabled,
            snapshot,
            max,
            now,
            start,
        );
        if error is Some {
            (front.push(states.last()), ledger, error)
        } else {
            let poll = states.last().polled(date, enabled, snapshot, max, now, ledger);
            (front.push(poll.state), poll.ledger, poll.error)
        }
    }
}

/// The files of the list that are switched on.
pub open spec fn enabled_files(files: Seq<FileView>, enabled: Map<Seq<Seq<char>>, bool>) -> Seq<
    FileView,
>
    decreases files.len(),
{
    if files.len() == 0 {
        seq![]
    } else {
        let front = enabled_files(files.drop_last(), enabled);
        if file_enabled(enabled, files.last().path) {
            front.push(files.last())
        } else {
            front
        }
    }
}

/// Paths that were not tracked before, or the first reason why one cannot be tracked.
pub open spec fn fresh_paths(raws: Seq<Seq<char>>, date: CalendarDate, snapshot: &Snapshot) -> Result<
    Seq<PathView>,
    Seq<char>,
>
    decreases raws.len(),
{
    if raws.len() == 0 {
        Ok(seq![])
    } else {
        match fresh_paths(raws.drop_last(), date, snapshot) {
            Err(reason) => Err(reason),
            Ok(states) => match fresh_path(raws.last(), date, snapshot) {
                Ok(state) => Ok(states.push(state)),
                Err(reason) => Err(reason),
            },
        }
    }
}

/// What a poll of a watcher comes to: the watcher afterwards, and the events or the failure.
pub struct WatcherPoll {
    pub watcher: WatcherView,
    pub events: Result<Seq<LogEventView>, Seq<char>>,
}

/// The labels of the followed files that are there.
pub open spec fn present_labels(files: Seq<FileView>, snapshot: &Snapshot) -> Seq<Seq<char>>
    decreases files.len(),
{
    if files.len() == 0 {
        seq![]
    } else {
        let front = present_labels(files.drop_last(), snapshot);
        if present(snapshot.stat_at(files.last().path)) {
            front.push(files.last().label)
        } else {
            front
        }
    }
}

/// The paths of the followed files that are there.
pub open spec fn present_paths(files: Seq<FileView>, snapshot: &Snapshot) -> Seq<Seq<char>>
    decreases files.len(),
{
    if files.len() == 0 {
        seq![]
    } else {
        let front = present_paths(files.drop_last(), snapshot);
        if present(snapshot.stat_at(files.last().path)) {
            front.push(files.last().path)
        } else {
            front
        }
    }
}

/// All the followed files of the tracked paths.
pub open spec fn all_active(states: Seq<PathView>) -> Seq<FileView>
    decreases states.len(),
{
    if states.len() == 0 {
        seq![]
    } else {
        all_active(states.drop_last()) + states.last().active
    }
}

/// A path of the list is tracked.
pub open spec fn is_tracked(states: Seq<PathView>, raw: Seq<char>) -> bool {
    exists|i: int| 0 <= i < states.len() && paths::same_path(#[trigger] states[i].raw, raw)
}

/// No path follows a file twice.
pub open spec fn follow_once(states: Seq<PathView>) -> bool {
    forall|i: int|
        0 <= i < states.len() ==> resolver::paths_differ(
            file_paths((#[trigger] states[i]).active),
        )
}

impl WatcherView {
    /// No tracked path follows a file twice.
    pub open spec fn wf(self) -> bool {
        follow_once(self.states)
    }

    /// A poll.
    pub open spec fn polled(self, date: CalendarDate, snapshot: &Snapshot, now: i64) -> WatcherPoll {
        let (states, ledger, error) = polled_paths(
            self.states,
            date,
            self.enabled,
            snapshot,
            self.max_line_len,
            now,
            (Ledger { events: seq![], unreadable: self.unreadable, status: seq![] }),
        );
        WatcherPoll {
            watcher: WatcherView {
                states,
                unreadable: ledger.unreadable,
                status: ledger.status,
                ..self
            },
            events: match error {
                None => Ok(ledger.events),
                Some(reason) => Err(reason),
            },
        }
    }

    /// The watcher once a file has been switched on or off, and the failure, if there was one.
    pub open spec fn switched(
        self,
        path: Seq<char>,
        value: bool,
        date: CalendarDate,
        snapshot: &Snapshot,
    ) -> (WatcherView, Option<Seq<char>>) {
        let enabled = self.enabled.insert(paths::path_components(path), value);
        let (states, unreadable, status, error) = synced_paths(
            self.states,
            date,
            enabled,
            snapshot,
            self.unreadable,
            self.status,
        );
        (WatcherView { states, enabled, unreadable, status, ..self }, error)
    }
}

/// Follows the files that the tracked paths stand for.
pub struct PollingWatcher {
    tracked_files: Vec<TrackedPathState>,
    max_line_len: usize,
    file_enabled: PathTable<bool>,
    unreadable_files: PathTable<String>,
    status_messages: Vec<String>,
}

spec fn state_views(v: Seq<TrackedPathState>) -> Seq<PathView> {
    v.map_values(|state: TrackedPathState| state@)
}

impl View for PollingWatcher {
    type V = WatcherView;

    closed spec fn view(&self) -> WatcherView {
        WatcherView {
            states: state_views(self.tracked_files@),
            max_line_len: self.max_line_len as nat,
            enabled: self.file_enabled@,
            unreadable: self.unreadable_files@,
            status: text::texts(self.status_messages@),
        }
    }
}

impl PollingWatcher {
    /// No file is followed twice for a path, and the parts of the watcher are in order.
    pub open spec fn wf(&self) -> bool {
        self@.wf() && self.in_order()
    }

    /// The parts of the watcher are in order.
    pub closed spec fn in_order(&self) -> bool {
        &&& self.file_enabled.wf()
        &&& self.unreadable_files.wf()
        &&& forall|i: int| 0 <= i < self.tracked_files@.len() ==> #[trigger]
            self.tracked_files@[i].wf()
    }

    /// A watcher of the paths, with every file switched on. The files are followed from their ends
    /// on.
    pub fn new(
        paths: Vec<String>,
        max_line_len: usize,
        today: CalendarDate,
        snapshot: &Snapshot,
    ) -> (res: Result<PollingWatcher, String>)
        ensures
            match res {
                Ok(watcher) => {
                    &&& watcher.wf()
                    &&& started(
                        text::texts(paths@),
                        Map::empty(),
                        max_line_len as nat,
                        today,
                        snapshot,
                    ) == Ok::<WatcherView, Seq<char>>(watcher@)
                },
                Err(reason) => started(
                    text::texts(paths@),
                    Map::empty(),
                    max_line_len as nat,
                    today,
                    snapshot,
                ) == Err::<WatcherView, Seq<char>>(reason@),
            },
    {
        PollingWatcher::with_file_enabled(paths, PathTable::new(), max_line_len, today, snapshot)
    }

    /// A watcher of the paths, with the given files switched on or off and all others on.
    pub fn with_file_enabled(
        paths: Vec<String>,
        file_enabled: PathTable<bool>,
        max_line_len: usize,
        today: CalendarDate,
        snapshot: &Snapshot,
    ) -> (res: Result<PollingWatcher, String>)
        requires
            file_enabled.wf(),
        ensures
            match res {
                Ok(watcher) => {
                    &&& watcher.wf()
                    &&& started(
                        text::texts(paths@),
                        file_enabled@,
                        max_line_len as nat,
                        today,
                        snapshot,
                    ) == Ok::<WatcherView, Seq<char>>(watcher@)
                },
                Err(reason) => started(
                    text::texts(paths@),
                    file_enabled@,
                    max_line_len as nat,
                    today,
                    snapshot,
                ) == Err::<WatcherView, Seq<char>>(reason@),
            },
    {
        match fresh_states(paths.as_slice(), today, snapshot) {
            Err(reason) => Err(reason),
            Ok(fresh) => {
                let ghost before = state_views(fresh@);
                let mut states: Vec<TrackedPathState> = Vec::new();
                let mut i: usize = 0;
                assert(state_views(states@) =~= only_enabled(before.take(0), file_enabled@));
                while i < fresh.len()
                    invariant
                        file_enabled.wf(),
                        before == state_views(fresh@),
                        forall|j: int| 0 <= j < fresh@.len() ==> #[trigger] fresh@[j].wf(),
                        i <= fresh@.len(),
                        forall|j: int| 0 <= j < states@.len() ==> #[trigger] states@[j].wf(),
                        state_views(states@) == only_enabled(
                            before.take(i as int),
                            file_enabled@,
                        ),
                    decreases fresh@.len() - i,
                {
                    let ghost views = state_views(states@);
                    let state: TrackedPathState = fresh[i].with_enabled(&file_enabled);
                    let ghost view = state@;
                    states.push(state);
                    proof {
                        assert(state_views(states@) =~= views.push(view));
                        assert(only_enabled(before.take(i + 1), file_enabled@) =~= only_enabled(
                            before.take(i as int),
                            file_enabled@,
                        ).push(view));
                    }
                    i = i + 1;
                }
                assert(before.take(i as int) =~= before);
                let res: PollingWatcher = PollingWatcher {
                    tracked_files: states,
                    max_line_len,
                    file_enabled,
                    unreadable_files: PathTable::new(),
                    status_messages: Vec::new(),
                };
                proof {
                    assert(res@.status =~= seq![]);
                    watcher_laws::started_watcher_follows_files_once(
                        text::texts(paths@),
                        file_enabled@,
                        max_line_len as nat,
                        today,
                        snapshot,
                    );
                }
                Ok(res)
            },
        }
    }
}

/// The tracked paths, following only files that are switched on.
pub open spec fn only_enabled(states: Seq<PathView>, enabled: Map<Seq<Seq<char>>, bool>) -> Seq<
    PathView,
> {
    states.map_values(
        |state: PathView|
            PathView { active: enabled_files(state.active, enabled), ..state },
    )
}

/// A watcher that starts to follow the paths.
pub open spec fn started(
    raws: Seq<Seq<char>>,
    enabled: Map<Seq<Seq<char>>, bool>,
    max_line_len: nat,
    date: CalendarDate,
    snapshot: &Snapshot,
) -> Result<WatcherView, Seq<char>> {
    match fresh_paths(raws, date, snapshot) {
        Err(reason) => Err(reason),
        Ok(states) => Ok(
            WatcherView {
                states: only_enabled(states, enabled),
                max_line_len,
                enabled,
                unreadable: Map::empty(),
                status: seq![],
            },
        ),
    }
}

fn fresh_states(raws: &[String], today: CalendarDate, snapshot: &Snapshot) -> (res: Result<
    Vec<TrackedPathState>,
    String,
>)
    ensures
        match res {
            Ok(states) => {
                &&& forall|i: int| 0 <= i < states@.len() ==> #[trigger] states@[i].wf()
                &&& fresh_paths(text::texts(raws@), today, snapshot) == Ok::<
                    Seq<PathView>,
                    Seq<char>,
                >(state_views(states@))
            },
            Err(reason) => fresh_paths(text::texts(raws@), today, snapshot) == Err::<
                Seq<PathView>,
                Seq<char>,
            >(reason@),
        },
{
    let ghost all = text::texts(raws@);
    let mut states: Vec<TrackedPathState> = Vec::new();
    let mut failure: Option<String> = None;
    let mut i: usize = 0;
    assert(state_views(states@) =~= seq![]);
    while i < raws.len()
        invariant
            all == text::texts(raws@),
            i <= raws@.len(),
            forall|j: int| 0 <= j < states@.len() ==> #[trigger] states@[j].wf(),
            match failure {
                None => fresh_paths(all.take(i as int), today, snapshot) == Ok::<
                    Seq<PathView>,
                    Seq<char>,
                >(state_views(states@)),
                Some(reason) => fresh_paths(all.take(i as int), today, snapshot) == Err::<
                    Seq<PathView>,
                    Seq<char>,
                >(reason@),
            },
        decreases raws@.len() - i,
    {
        let ghost before = state_views(states@);
        proof {
            assert(all.take(i + 1).drop_last() =~= all.take(i as int));
            assert(all.take(i + 1).last() == raws@[i as int]@);
        }
        if failure.is_none() {
            match TrackedPathState::new(raws[i].clone(), today, snapshot) {
                Ok(state) => {
                    let ghost fresh = state@;
                    states.push(state);
                    assert(state_views(states@) =~= before.push(fresh));
                },
                Err(reason) => {
                    failure = Some(reason);
                },
            }
        }
        i = i + 1;
    }
    assert(all.take(i as int) =~= all);
    match failure {
        Some(reason) => Err(reason),
        None => Ok(states),
    }
}

impl TrackedPathState {
    fn with_enabled(&self, enabled: &PathTable<bool>) -> (res: TrackedPathState)
        requires
            self.wf(),
            enabled.wf(),
        ensures
            res.wf(),
            res@ == (PathView { active: enabled_files(self@.active, enabled@), ..self@ }),
    {
        let ghost files = self@.active;
        let mut active_files: Vec<TrackedFileState> = Vec::new();
        let mut i: usize = 0;
        assert(files.take(0) =~= seq![]);
        assert(tracking::file_views(active_files@) =~= seq![]);
        while i < self.active_files.len()
            invariant
                enabled.wf(),
                files == self@.active,
                i <= self.active_files@.len(),
                tracking::file_views(active_files@) == enabled_files(
                    files.take(i as int),
                    enabled@,
                ),
            decreases self.active_files@.len() - i,
        {
            let ghost kept = tracking::file_views(active_files@);
            proof {
                assert(files.take(i + 1).drop_last() =~= files.take(i as int));
                assert(files.take(i + 1).last() == self.active_files@[i as int]@);
            }
            if is_file_enabled(enabled, self.active_files[i].path().as_str()) {
                active_files.push(self.active_files[i].copy());
                assert(tracking::file_views(active_files@) =~= kept.push(
                    self.active_files@[i as int]@,
                ));
            }
            i = i + 1;
        }
        assert(files.take(i as int) =~= files);
        let last_resolution_warnings: Vec<String> = text::copy_texts(
            &self.last_resolution_warnings,
        );
        TrackedPathState {
            raw_path: self.raw_path.clone(),
            resolver: PathResolver::new(self.raw_path.as_str()),
            active_files,
            last_resolution_warnings,
        }
    }
}

impl PollingWatcher {
    /// What the followed files have gained since the last poll. The events come in the order of
    /// the tracked paths and of their files; a file that cannot be read is passed over.
    pub fn poll(&mut self, today: CalendarDate, snapshot: &Snapshot, now: i64) -> (res: Result<
        Vec<LogEvent>,
        String,
    >)
        requires
            old(self).wf(),
            snapshot.wf(),
        ensures
            final(self).wf(),
            ({
                let poll = old(self)@.polled(today, snapshot, now);
                &&& final(self)@ == poll.watcher
                &&& match res {
                    Ok(events) => poll.events == Ok::<Seq<LogEventView>, Seq<char>>(
                        tracking::event_views(events@),
                    ),
                    Err(reason) => poll.events == Err::<Seq<LogEventView>, Seq<char>>(reason@),
                }
            }),
    {
        self.status_messages.clear();
        let ghost states = self@.states;
        let ghost start = Ledger {
            events: seq![],
            unreadable: self@.unreadable,
            status: seq![],
        };
        let ghost max = self@.max_line_len;
        let mut out: Vec<LogEvent> = Vec::new();
        let mut failure: Option<String> = None;
        let mut i: usize = 0;
        proof {
            assert(text::texts(self.status_messages@) =~= seq![]);
            assert(tracking::event_views(out@) =~= seq![]);
            assert(states.take(0) =~= seq![]);
            assert(state_views(self.tracked_files@.take(0)) =~= seq![]);
        }
        while i < self.tracked_files.len()
            invariant
                self.in_order(),
                snapshot.wf(),
                self.max_line_len as nat == max,
                self.max_line_len == old(self).max_line_len,
                self.file_enabled == old(self).file_enabled,
                i <= self.tracked_files@.len(),
                states.len() == self.tracked_files@.len(),
                forall|j: int|
                    i <= j < states.len() ==> #[trigger] states[j] == self.tracked_files@[j]@,
                ({
                    let (front, ledger, error) = polled_paths(
                        states.take(i as int),
                        today,
                        self.file_enabled@,
                        snapshot,
                        max,
                        now,
                        start,
                    );
                    &&& state_views(self.tracked_files@.take(i as int)) == front
                    &&& tracking::event_views(out@) == ledger.events
                    &&& self.unreadable_files@ == ledger.unreadable
                    &&& text::texts(self.status_messages@) == ledger.status
                    &&& match failure {
                        None => error is None,
                        Some(reason) => error == Some(reason@),
                    }
                }),
            decreases self.tracked_files@.len() - i,
        {
            let ghost before = self.tracked_files@;
            let ghost front = state_views(before.take(i as int));
            proof {
                assert(states.take(i + 1).drop_last() =~= states.take(i as int));
                assert(states.take(i + 1).last() == before[i as int]@);
                assert(before[i as int].wf());
            }
            if failure.is_none() {
                match self.tracked_files[i].poll(
                    today,
                    self.max_line_len,
                    &self.file_enabled,
                    snapshot,
                    now,
                    &mut out,
                    &mut self.unreadable_files,
                    &mut self.status_messages,
                ) {
                    Ok(_) => {},
                    Err(reason) => {
                        failure = Some(reason);
                    },
                }
            }
            proof {
                assert forall|j: int| 0 <= j < self.tracked_files@.len() implies #[trigger]
                    self.tracked_files@[j].wf() by {
                    assert(j != i ==> self.tracked_files@[j] == before[j]);
                    assert(before[j].wf());
                }
                assert(state_views(self.tracked_files@.take(i + 1)) =~= front.push(
                    self.tracked_files@[i as int]@,
                ));
            }
            i = i + 1;
        }
        proof {
            assert(states.take(i as int) =~= states);
            assert(self.tracked_files@.take(i as int) =~= self.tracked_files@);
            watcher_laws::polled_watcher_follows_files_once(old(self)@, today, snapshot, now);
        }
        match failure {
            Some(reason) => Err(reason),
            None => Ok(out),
        }
    }

    /// Switches the file at `path` on or off and brings the followed files up to date.
    pub fn set_file_enabled(
        &mut self,
        path: &str,
        enabled: bool,
        today: CalendarDate,
        snapshot: &Snapshot,
    ) -> (res: Result<(), String>)
        requires
            old(self).wf(),
        ensures
            final(self).wf(),
            ({
                let (watcher, error) = old(self)@.switched(path@, enabled, today, snapshot);
                &&& final(self)@ == watcher
                &&& match res {
                    Ok(_) => error is None,
                    Err(reason) => error == Some(reason@),
                }
            }),
    {
        let _ = self.file_enabled.insert(path, enabled);
        let ghost states = self@.states;
        let ghost table = self@.unreadable;
        let ghost messages = self@.status;
        let ghost chosen = self@.enabled;
        let mut failure: Option<String> = None;
        let mut i: usize = 0;
        proof {
            assert(states.take(0) =~= seq![]);
            assert(state_views(self.tracked_files@.take(0)) =~= seq![]);
        }
        while i < self.tracked_files.len()
            invariant
                self.in_order(),
                self.max_line_len == old(self).max_line_len,
                self.file_enabled@ == chosen,
                i <= self.tracked_files@.len(),
                states.len() == self.tracked_files@.len(),
                forall|j: int|
                    i <= j < states.len() ==> #[trigger] states[j] == self.tracked_files@[j]@,
                ({
                    let (front, unreadable, status, error) = synced_paths(
                        states.take(i as int),
                        today,
                        chosen,
                        snapshot,
                        table,
                        messages,
                    );
                    &&& state_views(self.tracked_files@.take(i as int)) == front
                    &&& self.unreadable_files@ == unreadable
                    &&& text::texts(self.status_messages@) == status
                    &&& match failure {
                        None => error is None,
                        Some(reason) => error == Some(reason@),
                    }
                }),
            decreases self.tracked_files@.len() - i,
        {
            let ghost before = self.tracked_files@;
            let ghost front = state_views(before.take(i as int));
            proof {
                assert(states.take(i + 1).drop_last() =~= states.take(i as int));
                assert(states.take(i + 1).last() == before[i as int]@);
                assert(before[i as int].wf());
            }
            if failure.is_none() {
                match self.tracked_files[i].sync_active_files(
                    today,
                    &self.file_enabled,
                    snapshot,
                    &mut self.unreadable_files,
                    &mut self.status_messages,
                ) {
                    Ok(_) => {},
                    Err(reason) => {
                        failure = Some(reason);
                    },
                }
            }
            proof {
                assert forall|j: int| 0 <= j < self.tracked_files@.len() implies #[trigger]
                    self.tracked_files@[j].wf() by {
                    assert(j != i ==> self.tracked_files@[j] == before[j]);
                    assert(before[j].wf());
                }
                assert(state_views(self.tracked_files@.take(i + 1)) =~= front.push(
                    self.tracked_files@[i as int]@,
                ));
            }
            i = i + 1;
        }
        proof {
            assert(states.take(i as int) =~= states);
            assert(self.tracked_files@.take(i as int) =~= self.tracked_files@);
            watcher_laws::switched_watcher_follows_files_once(
                old(self)@,
                path@,
                enabled,
                today,
                snapshot,
            );
        }
        match failure {
            Some(reason) => Err(reason),
            None => Ok(()),
        }
    }

    /// The messages since the last poll began; they are handed out once.
    pub fn take_status_messages(&mut self) -> (res: Vec<String>)
        requires
            old(self).wf(),
        ensures
            final(self).wf(),
            text::texts(res@) == old(self)@.status,
            final(self)@ == (WatcherView { status: seq![], ..old(self)@ }),
    {
        let mut res: Vec<String> = Vec::new();
        std::mem::swap(&mut res, &mut self.status_messages);
        assert(self@.status =~= seq![]);
        res
    }

    /// Tracks one more path; `false` where it is tracked already.
    pub fn add_file(&mut self, path: String, today: CalendarDate, snapshot: &Snapshot) -> (res:
        Result<bool, String>)
        requires
            old(self).wf(),
        ensures
            final(self).wf(),
            match res {
                Ok(added) => {
                    &&& added == !is_tracked(old(self)@.states, path@)
                    &&& if added {
                        &&& fresh_path(path@, today, snapshot) is Ok
                        &&& final(self)@ == (WatcherView {
                            states: old(self)@.states.push(
                                fresh_path(path@, today, snapshot)->Ok_0,
                            ),
                            ..old(self)@
                        })
                    } else {
                        final(self)@ == old(self)@
                    }
                },
                Err(reason) => {
                    &&& !is_tracked(old(self)@.states, path@)
                    &&& fresh_path(path@, today, snapshot) == Err::<PathView, Seq<char>>(reason@)
                    &&& final(self)@ == old(self)@
                },
            },
    {
        let ghost states = self@.states;
        let mut i: usize = 0;
        while i < self.tracked_files.len()
            invariant
                self.wf(),
                *self == *old(self),
                states == self@.states,
                i <= self.tracked_files@.len(),
                forall|j: int|
                    0 <= j < i ==> !paths::same_path(#[trigger] states[j].raw, path@),
            decreases self.tracked_files@.len() - i,
        {
            assert(states[i as int] == self.tracked_files@[i as int]@);
            if paths::is_same_path(self.tracked_files[i].raw_path.as_str(), path.as_str()) {
                assert(paths::same_path(states[i as int].raw, path@));
                return Ok(false);
            }
            i = i + 1;
        }
        match TrackedPathState::new(path, today, snapshot) {
            Err(reason) => Err(reason),
            Ok(state) => {
                let ghost fresh = state@;
                let ghost raw = path@;
                let ghost before = self.tracked_files@;
                self.tracked_files.push(state);
                proof {
                    assert(self@.states =~= states.push(fresh));
                    watcher_laws::fresh_files_differ(raw, today, snapshot);
                    assert forall|j: int| 0 <= j < self@.states.len() implies
                        resolver::paths_differ(
                        file_paths((#[trigger] self@.states[j]).active),
                    ) by {
                        if j < states.len() {
                            assert(self@.states[j] == states[j]);
                        }
                    }
                    assert forall|j: int| 0 <= j < self.tracked_files@.len() implies #[trigger]
                        self.tracked_files@[j].wf() by {
                        if j < before.len() {
                            assert(before[j].wf());
                        }
                    }
                }
                Ok(true)
            },
        }
    }

    /// The tracked paths with their files.
    pub fn tracked_path_descriptors(&self, today: CalendarDate, snapshot: &Snapshot) -> (res: Vec<
        TrackedPathDescriptor,
    >)
        requires
            self.wf(),
        ensures
            res@.len() == self@.states.len(),
            forall|i: int|
                0 <= i < res@.len() ==> (#[trigger] res@[i]).describes(
                    self@.states[i],
                    today,
                    self@.enabled,
                    snapshot,
                ),
    {
        describe_states(&self.tracked_files, today, &self.file_enabled, snapshot)
    }

    fn present_files(&self, snapshot: &Snapshot) -> (res: (Vec<String>, Vec<String>))
        ensures
            text::texts(res.0@) == present_labels(all_active(self@.states), snapshot),
            text::texts(res.1@) == present_paths(all_active(self@.states), snapshot),
    {
        let ghost states = self@.states;
        let mut labels: Vec<String> = Vec::new();
        let mut found: Vec<String> = Vec::new();
        let mut i: usize = 0;
        proof {
            assert(states.take(0) =~= seq![]);
            assert(text::texts(labels@) =~= seq![]);
            assert(text::texts(found@) =~= seq![]);
        }
        while i < self.tracked_files.len()
            invariant
                states == self@.states,
                i <= self.tracked_files@.len(),
                text::texts(labels@) == present_labels(
                    all_active(states.take(i as int)),
                    snapshot,
                ),
                text::texts(found@) == present_paths(all_active(states.take(i as int)), snapshot),
            decreases self.tracked_files@.len() - i,
        {
            let ghost earlier = all_active(states.take(i as int));
            let ghost files = self.tracked_files@[i as int]@.active;
            proof {
                assert(states.take(i + 1).drop_last() =~= states.take(i as int));
                assert(states.take(i + 1).last() == self.tracked_files@[i as int]@);
                assert(earlier + files.take(0) =~= earlier);
            }
            let mut k: usize = 0;
            while k < self.tracked_files[i].active_files.len()
                invariant
                    i < self.tracked_files@.len(),
                    files == self.tracked_files@[i as int]@.active,
                    k <= files.len(),
                    text::texts(labels@) == present_labels(
                        earlier + files.take(k as int),
                        snapshot,
                    ),
                    text::texts(found@) == present_paths(earlier + files.take(k as int), snapshot),
                decreases files.len() - k,
            {
                let file: &TrackedFileState = &self.tracked_files[i].active_files[k];
                let ghost shown = text::texts(labels@);
                let ghost there = text::texts(found@);
                proof {
                    let next = earlier + files.take(k + 1);
                    assert(next.drop_last() =~= earlier + files.take(k as int));
                    assert(next.last() == file@);
                }
                if file_is_present(file.path(), snapshot) {
                    labels.push(file.label().clone());
                    found.push(file.path().clone());
                    assert(text::texts(labels@) =~= shown.push(file@.label));
                    assert(text::texts(found@) =~= there.push(file@.path));
                }
                k = k + 1;
            }
            assert(files.take(k as int) =~= files);
            i = i + 1;
        }
        assert(states.take(i as int) =~= states);
        (labels, found)
    }

    /// How the followed files that are there are shown, in order, each once.
    pub fn active_sources(&self, snapshot: &Snapshot) -> (res: Vec<String>)
        requires
            self.wf(),
        ensures
            text::texts(res@) == order::ascending_texts(
                present_labels(all_active(self@.states), snapshot),
            ),
            order::strictly_ascending(text::texts(res@)),
            text::texts(res@).to_set() == present_labels(
                all_active(self@.states),
                snapshot,
            ).to_set(),
    {
        order::sort_distinct(&self.present_files(snapshot).0)
    }

    /// The paths of the followed files that are there, in order, each once.
    pub fn active_file_paths(&self, snapshot: &Snapshot) -> (res: Vec<String>)
        requires
            self.wf(),
        ensures
            text::texts(res@) == order::ascending_texts(
                present_paths(all_active(self@.states), snapshot),
            ),
            order::strictly_ascending(text::texts(res@)),
            text::texts(res@).to_set() == present_paths(
                all_active(self@.states),
                snapshot,
            ).to_set(),
    {
        order::sort_distinct(&self.present_files(snapshot).1)
    }
}

fn describe_states(
    states: &Vec<TrackedPathState>,
    today: CalendarDate,
    enabled: &PathTable<bool>,
    snapshot: &Snapshot,
) -> (res: Vec<TrackedPathDescriptor>)
    requires
        enabled.wf(),
        forall|i: int| 0 <= i < states@.len() ==> #[trigger] states@[i].wf(),
    ensures
        res@.len() == states@.len(),
        forall|i: int|
            0 <= i < res@.len() ==> (#[trigger] res@[i]).describes(
                state_views(states@)[i],
                today,
                enabled@,
                snapshot,
            ),
{
    let mut res: Vec<TrackedPathDescriptor> = Vec::new();
    let mut i: usize = 0;
    while i < states.len()
        invariant
            enabled.wf(),
            forall|j: int| 0 <= j < states@.len() ==> #[trigger] states@[j].wf(),
            i <= states@.len(),
            res@.len() == i,
            forall|j: int|
                0 <= j < res@.len() ==> (#[trigger] res@[j]).describes(
                    state_views(states@)[j],
                    today,
                    enabled@,
                    snapshot,
                ),
        decreases states@.len() - i,
    {
        assert(states@[i as int].wf());
        assert(state_views(states@)[i as int] == states@[i as int]@);
        res.push(states[i].descriptor(today, enabled, snapshot));
        i = i + 1;
    }
    res
}

/// The paths with their files, as they would be tracked from now on.
pub fn describe_tracked_paths(
    raw_paths: &[String],
    enabled: &PathTable<bool>,
    today: CalendarDate,
    snapshot: &Snapshot,
) -> (res: Result<Vec<TrackedPathDescriptor>, String>)
    requires
        enabled.wf(),
    ensures
        match res {
            Ok(list) => {
                &&& fresh_paths(text::texts(raw_paths@), today, snapshot) is Ok
                &&& list@.len() == raw_paths@.len()
                &&& forall|i: int|
                    0 <= i < list@.len() ==> (#[trigger] list@[i]).describes(
                        (fresh_paths(text::texts(raw_paths@), today, snapshot)->Ok_0)[i],
                        today,
                        enabled@,
                        snapshot,
                    )
            },
            Err(reason) => fresh_paths(text::texts(raw_paths@), today, snapshot) == Err::<
                Seq<PathView>,
                Seq<char>,
            >(reason@),
        },
{
    match fresh_states(raw_paths, today, snapshot) {
        Err(reason) => Err(reason),
        Ok(states) => {
            proof {
                fresh_paths_count(text::texts(raw_paths@), today, snapshot);
            }
            Ok(describe_states(&states, today, enabled, snapshot))
        },
    }
}

proof fn fresh_paths_count(raws: Seq<Seq<char>>, date: CalendarDate, snapshot: &Snapshot)
    ensures
        fresh_paths(raws, date, snapshot) is Ok ==> (fresh_paths(
            raws,
            date,
            snapshot,
        )->Ok_0).len() == raws.len(),
    decreases raws.len(),
{
    if raws.len() > 0 {
        fresh_paths_count(raws.drop_last(), date, snapshot);
    }
}

/// A stretch of a file to read: from `offset` to the end.
#[derive(Debug, Clone, PartialEq, Eq)]
pub struct ReadRequest {
    pub path: String,
    pub offset: u64,
}

/// The views of a list of requests.
pub open spec fn request_views(v: Seq<ReadRequest>) -> Seq<(Seq<char>, u64)> {
    v.map_values(|request: ReadRequest| (request.path@, request.offset))
}

/// The directories that must be listed to track the paths.
pub open spec fn dirs_asked(raws: Seq<Seq<char>>, date: CalendarDate) -> Seq<Seq<char>>
    decreases raws.len(),
{
    if raws.len() == 0 {
        seq![]
    } else {
        dirs_asked(raws.drop_last(), date) + resolver::dirs_needed(
            resolver::rendered(raws.last(), date),
        )
    }
}

/// The files that the paths stand for.
pub open spec fn all_resolved(raws: Seq<Seq<char>>, date: CalendarDate, snapshot: &Snapshot) -> Seq<
    Seq<char>,
>
    decreases raws.len(),
{
    if raws.len() == 0 {
        seq![]
    } else {
        all_resolved(raws.drop_last(), date, snapshot) + resolver::resolved(
            raws.last(),
            date,
            snapshot,
        )
    }
}

/// The paths of a list of files.
pub open spec fn file_paths(files: Seq<FileView>) -> Seq<Seq<char>> {
    files.map_values(|file: FileView| file.path)
}

/// The tracked paths as they were given.
pub open spec fn raw_paths_of(states: Seq<PathView>) -> Seq<Seq<char>> {
    states.map_values(|state: PathView| state.raw)
}

/// The stretches that a poll of the files reads.
pub open spec fn reads_of(files: Seq<FileView>, snapshot: &Snapshot) -> Seq<(Seq<char>, u64)>
    decreases files.len(),
{
    if files.len() == 0 {
        seq![]
    } else {
        let front = reads_of(files.drop_last(), snapshot);
        match files.last().reads_from(snapshot.stat_at(files.last().path)) {
            Some(offset) => front.push((files.last().path, offset)),
            None => front,
        }
    }
}

/// The files of the path once they have been brought up to date.
pub open spec fn next_files(
    state: PathView,
    date: CalendarDate,
    enabled: Map<Seq<Seq<char>>, bool>,
    snapshot: &Snapshot,
) -> Seq<FileView> {
    state.synced(date, enabled, snapshot, Map::empty(), seq![]).state.active
}

/// The stretches that a poll of the tracked paths reads.
pub open spec fn reads_asked(
    states: Seq<PathView>,
    date: CalendarDate,
    enabled: Map<Seq<Seq<char>>, bool>,
    snapshot: &Snapshot,
) -> Seq<(Seq<char>, u64)>
    decreases states.len(),
{
    if states.len() == 0 {
        seq![]
    } else {
        reads_asked(states.drop_last(), date, enabled, snapshot) + reads_of(
            next_files(states.last(), date, enabled, snapshot),
            snapshot,
        )
    }
}

/// The directories that must be listed before the paths can be tracked.
pub fn dirs_to_list(raw_paths: &Vec<String>, today: CalendarDate) -> (res: Vec<String>)
    ensures
        text::texts(res@) == dirs_asked(text::texts(raw_paths@), today),
{
    let ghost all = text::texts(raw_paths@);
    let mut res: Vec<String> = Vec::new();
    let mut i: usize = 0;
    assert(text::texts(res@) =~= dirs_asked(all.take(0), today));
    while i < raw_paths.len()
        invariant
            all == text::texts(raw_paths@),
            i <= raw_paths@.len(),
            text::texts(res@) == dirs_asked(all.take(i as int), today),
        decreases raw_paths@.len() - i,
    {
        let ghost before = text::texts(res@);
        proof {
            assert(all.take(i + 1).drop_last() =~= all.take(i as int));
            assert(all.take(i + 1).last() == raw_paths@[i as int]@);
        }
        let mut more: Vec<String> = PathResolver::new(raw_paths[i].as_str()).dirs_to_list(today);
        let ghost dirs = text::texts(more@);
        res.append(&mut more);
        assert(text::texts(res@) =~= before + dirs);
        i = i + 1;
    }
    assert(all.take(i as int) =~= all);
    res
}

/// The files that must be looked at before the paths can be tracked.
pub fn files_to_stat(raw_paths: &Vec<String>, today: CalendarDate, snapshot: &Snapshot) -> (res: Vec<
    String,
>)
    ensures
        text::texts(res@) == all_resolved(text::texts(raw_paths@), today, snapshot),
{
    let ghost all = text::texts(raw_paths@);
    let mut res: Vec<String> = Vec::new();
    let mut i: usize = 0;
    assert(text::texts(res@) =~= all_resolved(all.take(0), today, snapshot));
    while i < raw_paths.len()
        invariant
            all == text::texts(raw_paths@),
            i <= raw_paths@.len(),
            text::texts(res@) == all_resolved(all.take(i as int), today, snapshot),
        decreases raw_paths@.len() - i,
    {
        let ghost before = text::texts(res@);
        proof {
            assert(all.take(i + 1).drop_last() =~= all.take(i as int));
            assert(all.take(i + 1).last() == raw_paths@[i as int]@);
        }
        let found: ResolvedPaths = PathResolver::new(
            raw_paths[i].as_str(),
        ).resolve_paths_for_date(today, snapshot);
        let mut more: Vec<String> = found.paths;
        let ghost files = text::texts(more@);
        res.append(&mut more);
        assert(text::texts(res@) =~= before + files);
        i = i + 1;
    }
    assert(all.take(i as int) =~= all);
    res
}

impl TrackedPathState {
    fn reads(&self, today: CalendarDate, enabled: &PathTable<bool>, snapshot: &Snapshot) -> (res: Vec<
        ReadRequest,
    >)
        requires
            self.wf(),
            enabled.wf(),
        ensures
            request_views(res@) == reads_of(
                next_files(self@, today, enabled@, snapshot),
                snapshot,
            ),
    {
        let mut res: Vec<ReadRequest> = Vec::new();
        let found: ResolvedPaths = self.resolver.resolve_paths_for_date(today, snapshot);
        let mut scratch: PathTable<String> = PathTable::new();
        let ghost table = scratch@;
        assert(request_views(res@) =~= seq![]);
        match self.follow(&found.paths, enabled, snapshot, &mut scratch) {
            Err(_) => {
                proof {
                    followed_ignores_table(
                        text::texts(found.paths@),
                        self@.active,
                        enabled@,
                        snapshot,
                        table,
                        without_unresolved(
                            Map::empty(),
                            self@.active,
                            text::texts(found.paths@),
                        ),
                    );
                }
                res
            },
            Ok(list) => {
                let mut files: Vec<TrackedFileState> = list;
                let mut older: Vec<TrackedFileState> = self.roll_over(
                    &found.paths,
                    enabled,
                    snapshot,
                );
                let ghost now_followed = tracking::file_views(files@);
                let ghost kept = tracking::file_views(older@);
                files.append(&mut older);
                let ghost views = tracking::file_views(files@);
                proof {
                    assert(views =~= now_followed + kept);
                    followed_ignores_table(
                        text::texts(found.paths@),
                        self@.active,
                        enabled@,
                        snapshot,
                        table,
                        without_unresolved(
                            Map::empty(),
                            self@.active,
                            text::texts(found.paths@),
                        ),
                    );
                    assert(views == next_files(self@, today, enabled@, snapshot));
                    assert(views.take(0) =~= seq![]);
                }
                let mut i: usize = 0;
                while i < files.len()
                    invariant
                        views == tracking::file_views(files@),
                        i <= files@.len(),
                        request_views(res@) == reads_of(views.take(i as int), snapshot),
                    decreases files@.len() - i,
                {
                    let ghost before = request_views(res@);
                    proof {
                        assert(views.take(i + 1).drop_last() =~= views.take(i as int));
                        assert(views.take(i + 1).last() == files@[i as int]@);
                    }
                    match files[i].next_read(snapshot) {
                        Some(offset) => {
                            res.push(ReadRequest { path: files[i].path().clone(), offset });
                            assert(request_views(res@) =~= before.push(
                                (files@[i as int]@.path, offset),
                            ));
                        },
                        None => {},
                    }
                    i = i + 1;
                }
                assert(views.take(i as int) =~= views);
                res
            },
        }
    }
}

impl PollingWatcher {
    /// The tracked paths as they were given.
    pub fn raw_paths(&self) -> (res: Vec<String>)
        ensures
            text::texts(res@) == raw_paths_of(self@.states),
    {
        let mut res: Vec<String> = Vec::new();
        let mut i: usize = 0;
        while i < self.tracked_files.len()
            invariant
                i <= self.tracked_files@.len(),
                res@.len() == i,
                forall|j: int| 0 <= j < i ==> #[trigger] res@[j]@ == self@.states[j].raw,
            decreases self.tracked_files@.len() - i,
        {
            res.push(self.tracked_files[i].raw_path.clone());
            i = i + 1;
        }
        assert(text::texts(res@) =~= raw_paths_of(self@.states));
        res
    }

    /// The directories that must be listed before a poll.
    pub fn dirs_to_list(&self, today: CalendarDate) -> (res: Vec<String>)
        requires
            self.wf(),
        ensures
            text::texts(res@) == dirs_asked(raw_paths_of(self@.states), today),
    {
        dirs_to_list(&self.raw_paths(), today)
    }

    /// The files that must be looked at before a poll, given the directories: those that the
    /// tracked paths stand for, and those that are followed.
    pub fn files_to_stat(&self, today: CalendarDate, snapshot: &Snapshot) -> (res: Vec<String>)
        requires
            self.wf(),
        ensures
            text::texts(res@) == all_resolved(raw_paths_of(self@.states), today, snapshot)
                + file_paths(all_active(self@.states)),
    {
        let mut res: Vec<String> = files_to_stat(&self.raw_paths(), today, snapshot);
        let ghost states = self@.states;
        let ghost found = text::texts(res@);
        let mut i: usize = 0;
        proof {
            assert(states.take(0) =~= seq![]);
            assert(found + file_paths(all_active(states.take(0))) =~= found);
        }
        while i < self.tracked_files.len()
            invariant
                states == self@.states,
                i <= self.tracked_files@.len(),
                text::texts(res@) == found + file_paths(all_active(states.take(i as int))),
            decreases self.tracked_files@.len() - i,
        {
            let ghost earlier = all_active(states.take(i as int));
            let ghost files = self.tracked_files@[i as int]@.active;
            proof {
                assert(states.take(i + 1).drop_last() =~= states.take(i as int));
                assert(states.take(i + 1).last() == self.tracked_files@[i as int]@);
                assert(earlier + files.take(0) =~= earlier);
            }
            let mut k: usize = 0;
            while k < self.tracked_files[i].active_files.len()
                invariant
                    i < self.tracked_files@.len(),
                    files == self.tracked_files@[i as int]@.active,
                    k <= files.len(),
                    text::texts(res@) == found + file_paths(earlier + files.take(k as int)),
                decreases files.len() - k,
            {
                let ghost before = text::texts(res@);
                let file: &TrackedFileState = &self.tracked_files[i].active_files[k];
                res.push(file.path().clone());
                proof {
                    assert(text::texts(res@) =~= before.push(file@.path));
                    assert(earlier + files.take(k + 1) =~= (earlier + files.take(k as int)).push(
                        file@,
                    ));
                    assert(found + file_paths(earlier + files.take(k + 1)) =~= before.push(
                        file@.path,
                    ));
                }
                k = k + 1;
            }
            assert(files.take(k as int) =~= files);
            i = i + 1;
        }
        assert(states.take(i as int) =~= states);
        res
    }

    /// The stretches that must be read before a poll, given the directories and how the files
    /// stand.
    pub fn files_to_read(&self, today: CalendarDate, snapshot: &Snapshot) -> (res: Vec<ReadRequest>)
        requires
            self.wf(),
        ensures
            request_views(res@) == reads_asked(
                self@.states,
                today,
                self@.enabled,
                snapshot,
            ),
    {
        let ghost states = self@.states;
        let mut res: Vec<ReadRequest> = Vec::new();
        let mut i: usize = 0;
        assert(states.take(0) =~= seq![]);
        assert(request_views(res@) =~= seq![]);
        while i < self.tracked_files.len()
            invariant
                self.wf(),
                states == self@.states,
                i <= self.tracked_files@.len(),
                request_views(res@) == reads_asked(
                    states.take(i as int),
                    today,
                    self@.enabled,
                    snapshot,
                ),
            decreases self.tracked_files@.len() - i,
        {
            let ghost before = request_views(res@);
            proof {
                assert(states.take(i + 1).drop_last() =~= states.take(i as int));
                assert(states.take(i + 1).last() == self.tracked_files@[i as int]@);
                assert(self.tracked_files@[i as int].wf());
            }
            let mut more: Vec<ReadRequest> = self.tracked_files[i].reads(
                today,
                &self.file_enabled,
                snapshot,
            );
            let ghost next = request_views(more@);
            res.append(&mut more);
            assert(request_views(res@) =~= before + next);
            i = i + 1;
        }
        assert(states.take(i as int) =~= states);
        res
    }
}

} // verus!
