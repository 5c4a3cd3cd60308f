//! What a poll reports, and that a second poll of an unchanged disk reports nothing.

use crate::dates::CalendarDate;
use crate::paths;
use crate::resolver;
use crate::snapshot::ReadOutcomeView;
use crate::snapshot::Snapshot;
use crate::snapshot::StatOutcome;
use crate::tracking;
use crate::tracking::FilePoll;
use crate::tracking::FileView;
use crate::tracking::LogEventView;
use crate::watcher;
use crate::watcher::Ledger;
use crate::watcher::PathView;
use crate::watcher::WatcherView;
use crate::watcher_laws;
use vstd::prelude::*;

verus! {

/// The events that a poll of the files gathers, one file after the other.
pub open spec fn gained(files: Seq<FileView>, snapshot: &Snapshot, max: nat, now: i64) -> Seq<
    LogEventView,
>
    decreases files.len(),
{
    if files.len() == 0 {
        seq![]
    } else {
        gained(files.drop_last(), snapshot, max, now) + tracking::line_events(
            now,
            files.last().label,
            files.last().polled_from(snapshot, max).lines,
        )
    }
}

/// The events that a poll of the tracked paths gathers, one path after the other.
pub open spec fn all_gained(
    states: Seq<PathView>,
    date: CalendarDate,
    enabled: Map<Seq<Seq<char>>, bool>,
    snapshot: &Snapshot,
    max: nat,
    now: i64,
) -> Seq<LogEventView>
    decreases states.len(),
{
    if states.len() == 0 {
        seq![]
    } else {
        all_gained(states.drop_last(), date, enabled, snapshot, max, now) + gained(
            watcher::next_files(states.last(), date, enabled, snapshot),
            snapshot,
            max,
            now,
        )
    }
}

proof fn polled_files_gain(
    files: Seq<FileView>,
    snapshot: &Snapshot,
    max: nat,
    now: i64,
    start: Ledger,
)
    ensures
        watcher::polled_files(files, snapshot, max, now, start).1.events == start.events + gained(
            files,
            snapshot,
            max,
            now,
        ),
    decreases files.len(),
{
    if files.len() > 0 {
        polled_files_gain(files.drop_last(), snapshot, max, now, start);
        let front = gained(files.drop_last(), snapshot, max, now);
        let last = tracking::line_events(
            now,
            files.last().label,
            files.last().polled_from(snapshot, max).lines,
        );
        assert(start.events + front + last =~= start.events + (front + last));
    } else {
        assert(start.events + gained(files, snapshot, max, now) =~= start.events);
    }
}

/// The followed files once they have been brought up to date do not depend on the tables.
proof fn next_files_are_synced(
    state: PathView,
    date: CalendarDate,
    enabled: Map<Seq<Seq<char>>, bool>,
    snapshot: &Snapshot,
    table: Map<Seq<Seq<char>>, Seq<char>>,
    status: Seq<Seq<char>>,
)
    ensures
        state.synced(date, enabled, snapshot, table, status).state.active == watcher::next_files(
            state,
            date,
            enabled,
            snapshot,
        ),
{
    watcher_laws::synced_agree(state, date, enabled, table, status, snapshot, snapshot);
}

proof fn polled_paths_gain(
    states: Seq<PathView>,
    date: CalendarDate,
    enabled: Map<Seq<Seq<char>>, bool>,
    snapshot: &Snapshot,
    max: nat,
    now: i64,
    start: Ledger,
)
    requires
        watcher::polled_paths(states, date, enabled, snapshot, max, now, start).2 is None,
    ensures
        watcher::polled_paths(states, date, enabled, snapshot, max, now, start).1.events
            == start.events + all_gained(states, date, enabled, snapshot, max, now),
    decreases states.len(),
{
    if states.len() > 0 {
        let front = states.drop_last();
        let last = states.last();
        polled_paths_gain(front, date, enabled, snapshot, max, now, start);
        let ledger = watcher::polled_paths(front, date, enabled, snapshot, max, now, start).1;
        let sync = last.synced(date, enabled, snapshot, ledger.unreadable, ledger.status);
        next_files_are_synced(last, date, enabled, snapshot, ledger.unreadable, ledger.status);
        let next = Ledger {
            events: ledger.events,
            unreadable: sync.unreadable,
            status: sync.status,
        };
        polled_files_gain(sync.state.active, snapshot, max, now, next);
        let earlier = all_gained(front, date, enabled, snapshot, max, now);
        let more = gained(sync.state.active, snapshot, max, now);
        assert(start.events + earlier + more =~= start.events + (earlier + more));
    } else {
        assert(start.events + all_gained(states, date, enabled, snapshot, max, now)
            =~= start.events);
    }
}

/// The events of a poll are the lines that the files have gained, in the order of the tracked paths,
/// of their files, and of the lines in each.
pub proof fn events_come_path_by_path(
    view: WatcherView,
    date: CalendarDate,
    snapshot: &Snapshot,
    now: i64,
)
    requires
        view.polled(date, snapshot, now).events is Ok,
    ensures
        view.polled(date, snapshot, now).events->Ok_0 == all_gained(
            view.states,
            date,
            view.enabled,
            snapshot,
            view.max_line_len,
            now,
        ),
{
    let start = Ledger { events: seq![], unreadable: view.unreadable, status: seq![] };
    polled_paths_gain(
        view.states,
        date,
        view.enabled,
        snapshot,
        view.max_line_len,
        now,
        start,
    );
    let all = all_gained(view.states, date, view.enabled, snapshot, view.max_line_len, now);
    assert(start.events + all =~= all);
}

/// The file is missing, or it can be read and a poll reads it to its end.
pub open spec fn readable(file: FileView, snapshot: &Snapshot) -> bool {
    match snapshot.stat_at(file.path) {
        StatOutcome::Missing => true,
        StatOutcome::Failed => false,
        StatOutcome::Found(stat) => match file.reads_from(StatOutcome::Found(stat)) {
            None => true,
            Some(offset) => match snapshot.read_at(file.path, offset) {
                ReadOutcomeView::Bytes(bytes) => offset + bytes.len() == stat.len,
                _ => false,
            },
        },
    }
}

/// All files of the list are missing or readable.
pub open spec fn all_readable(files: Seq<FileView>, snapshot: &Snapshot) -> bool {
    forall|i: int| 0 <= i < files.len() ==> readable(#[trigger] files[i], snapshot)
}

/// A poll finds nothing new about the file, and reads nothing.
pub open spec fn settled(file: FileView, snapshot: &Snapshot, max: nat) -> bool {
    &&& file.polled_from(snapshot, max) == (FilePoll { file, lines: seq![], error: None })
    &&& file.reads_from(snapshot.stat_at(file.path)) is None
}

proof fn readable_file_settles(file: FileView, snapshot: &Snapshot, max: nat)
    requires
        readable(file, snapshot),
    ensures
        ({
            let poll = file.polled_from(snapshot, max);
            &&& poll.error is None
            &&& poll.file.path == file.path
            &&& settled(poll.file, snapshot, max)
        }),
{
    match snapshot.stat_at(file.path) {
        StatOutcome::Found(stat) => {
            let seen = file.seen(stat);
            match file.reads_from(StatOutcome::Found(stat)) {
                None => {
                    assert(seen.offset == stat.len);
                },
                Some(offset) => {
                    match snapshot.read_at(file.path, offset) {
                        ReadOutcomeView::Bytes(bytes) => {
                            let after = seen.fed(bytes);
                            assert(after.offset == stat.len);
                        },
                        _ => {},
                    }
                },
            }
        },
        _ => {},
    }
}

/// No reason is kept for any of the files.
pub open spec fn no_reasons(
    files: Seq<FileView>,
    table: Map<Seq<Seq<char>>, Seq<char>>,
) -> bool {
    forall|i: int|
        0 <= i < files.len() ==> !table.contains_key(
            paths::path_components((#[trigger] files[i]).path),
        )
}

/// Reasons may have been forgotten, and none added.
pub open spec fn only_forgets(
    before: Map<Seq<Seq<char>>, Seq<char>>,
    after: Map<Seq<Seq<char>>, Seq<char>>,
) -> bool {
    forall|key: Seq<Seq<char>>| #[trigger]
        after.contains_key(key) ==> before.contains_key(key)
}

proof fn readable_files_settle(
    files: Seq<FileView>,
    snapshot: &Snapshot,
    max: nat,
    now: i64,
    start: Ledger,
)
    requires
        all_readable(files, snapshot),
    ensures
        ({
            let (after, ledger) = watcher::polled_files(files, snapshot, max, now, start);
            &&& after.len() == files.len()
            &&& forall|i: int| 0 <= i < after.len() ==> settled(#[trigger] after[i], snapshot, max)
            &&& no_reasons(after, ledger.unreadable)
            &&& only_forgets(start.unreadable, ledger.unreadable)
        }),
    decreases files.len(),
{
    if files.len() > 0 {
        let front = files.drop_last();
        assert forall|i: int| 0 <= i < front.len() implies readable(
            #[trigger] front[i],
            snapshot,
        ) by {
            assert(front[i] == files[i]);
        }
        readable_files_settle(front, snapshot, max, now, start);
        let (before, ledger) = watcher::polled_files(front, snapshot, max, now, start);
        let (after, entered) = watcher::polled_files(files, snapshot, max, now, start);
        let last = files[files.len() - 1];
        assert(readable(last, snapshot));
        readable_file_settles(last, snapshot, max);
        assert forall|i: int| 0 <= i < after.len() implies settled(
            #[trigger] after[i],
            snapshot,
            max,
        ) by {
            if i < before.len() {
                assert(after[i] == before[i]);
            }
        }
        assert forall|i: int| 0 <= i < after.len() implies !entered.unreadable.contains_key(
            paths::path_components((#[trigger] after[i]).path),
        ) by {
            if i < before.len() {
                assert(after[i] == before[i]);
            }
        }
    }
}

proof fn settled_files_stay(
    files: Seq<FileView>,
    snapshot: &Snapshot,
    max: nat,
    now: i64,
    start: Ledger,
)
    requires
        forall|i: int| 0 <= i < files.len() ==> settled(#[trigger] files[i], snapshot, max),
        no_reasons(files, start.unreadable),
    ensures
        watcher::polled_files(files, snapshot, max, now, start) == (files, start),
        watcher::reads_of(files, snapshot) == Seq::<(Seq<char>, u64)>::empty(),
    decreases files.len(),
{
    if files.len() > 0 {
        let front = files.drop_last();
        let last = files[files.len() - 1];
        assert forall|i: int| 0 <= i < front.len() implies settled(
            #[trigger] front[i],
            snapshot,
            max,
        ) by {
            assert(front[i] == files[i]);
        }
        assert forall|i: int| 0 <= i < front.len() implies !start.unreadable.contains_key(
            paths::path_components((#[trigger] front[i]).path),
        ) by {
            assert(front[i] == files[i]);
        }
        settled_files_stay(front, snapshot, max, now, start);
        assert(settled(last, snapshot, max));
        assert(!start.unreadable.contains_key(paths::path_components(last.path)));
        let poll = last.polled_from(snapshot, max);
        assert(start.unreadable.remove(paths::path_components(last.path)) =~= start.unreadable);
        assert(start.events + tracking::line_events(now, last.label, poll.lines)
            =~= start.events);
        assert(start.entered(last, poll, now) == start);
        assert(front.push(last) =~= files);
    } else {
        assert(files =~= seq![]);
    }
}

/// A file that is followed once is found by its path.
proof fn followed_file_is_found(files: Seq<FileView>, path: Seq<char>, k: int)
    requires
        resolver::paths_differ(watcher::file_paths(files)),
        0 <= k < files.len(),
        paths::same_path(files[k].path, path),
    ensures
        watcher::file_at(files, path) == Some(files[k]),
    decreases files.len(),
{
    let all = watcher::file_paths(files);
    if k > 0 {
        assert(!paths::same_path(all[0], all[k]));
        let rest = files.skip(1);
        let less = watcher::file_paths(rest);
        assert forall|i: int, j: int| 0 <= i < j < less.len() implies !paths::same_path(
            #[trigger] less[i],
            #[trigger] less[j],
        ) by {
            assert(less[i] == all[i + 1] && less[j] == all[j + 1]);
        }
        followed_file_is_found(rest, path, k - 1);
    }
}

/// The files that were followed for the resolved paths are followed again, each as it is.
proof fn followed_again(
    list: Seq<Seq<char>>,
    active: Seq<FileView>,
    again: Seq<FileView>,
    enabled: Map<Seq<Seq<char>>, bool>,
    snapshot: &Snapshot,
    table: Map<Seq<Seq<char>>, Seq<char>>,
    other: Map<Seq<Seq<char>>, Seq<char>>,
)
    requires
        watcher::followed(list, active, enabled, snapshot, table).0 is Ok,
        resolver::paths_differ(watcher::file_paths(again)),
        ({
            let files = watcher::followed(list, active, enabled, snapshot, table).0->Ok_0;
            &&& files.len() <= again.len()
            &&& forall|i: int|
                0 <= i < files.len() ==> (#[trigger] again[i]).path == files[i].path
        }),
    ensures
        ({
            let files = watcher::followed(list, active, enabled, snapshot, table).0->Ok_0;
            watcher::followed(list, again, enabled, snapshot, other).0 == Ok::<
                Seq<FileView>,
                Seq<char>,
            >(again.take(files.len() as int))
        }),
    decreases list.len(),
{
    let files = watcher::followed(list, active, enabled, snapshot, table).0->Ok_0;
    if list.len() > 0 {
        let front = list.drop_last();
        let path = list.last();
        let before = watcher::followed(front, active, enabled, snapshot, table).0->Ok_0;
        assert forall|i: int| 0 <= i < before.len() implies (#[trigger] again[i]).path
            == before[i].path by {
            assert(files[i] == before[i]);
        }
        followed_again(front, active, again, enabled, snapshot, table, other);
        if watcher::file_enabled(enabled, path) {
            let k = before.len() as int;
            watcher_laws::file_at_is_listed(active, path);
            assert(paths::same_path(files[k].path, path));
            assert(again[k].path == files[k].path);
            followed_file_is_found(again, path, k);
            assert(again.take(k).push(again[k]) =~= again.take(k + 1));
        }
    } else {
        assert(again.take(0) =~= seq![]);
    }
}

/// Of the followed files, those behind the resolved ones are kept again.
proof fn rolled_over_again(
    raw: Seq<char>,
    again: Seq<FileView>,
    list: Seq<Seq<char>>,
    enabled: Map<Seq<Seq<char>>, bool>,
    snapshot: &Snapshot,
    n: int,
    m: int,
)
    requires
        0 <= n <= again.len(),
        0 <= m <= again.len(),
        forall|i: int|
            0 <= i < n ==> resolver::lists_path(list, (#[trigger] again[i]).path),
        forall|i: int|
            n <= i < again.len() ==> {
                let file = #[trigger] again[i];
                &&& !resolver::lists_path(list, file.path)
                &&& resolver::date_sensitive(raw)
                &&& watcher::file_enabled(enabled, file.path)
                &&& !(snapshot.stat_at(file.path) is Missing)
            },
    ensures
        watcher::rolled_over(raw, again.take(m), list, enabled, snapshot) == (if m > n {
            again.subrange(n, m)
        } else {
            seq![]
        }),
    decreases m,
{
    if m > 0 {
        rolled_over_again(raw, again, list, enabled, snapshot, n, m - 1);
        assert(again.take(m).drop_last() =~= again.take(m - 1));
        assert(again.take(m).last() == again[m - 1]);
        if m - 1 >= n {
            assert(again.subrange(n, m) =~= again.subrange(n, m - 1).push(again[m - 1]));
            if m - 1 == n {
                assert(again.subrange(n, n) =~= seq![]);
            }
        }
    } else {
        assert(again.take(0) =~= seq![]);
    }
}

/// Bringing the followed files up to date a second time changes nothing, and says nothing.
proof fn synced_again(
    state: PathView,
    again: Seq<FileView>,
    date: CalendarDate,
    enabled: Map<Seq<Seq<char>>, bool>,
    snapshot: &Snapshot,
    table: Map<Seq<Seq<char>>, Seq<char>>,
    status: Seq<Seq<char>>,
    other: Map<Seq<Seq<char>>, Seq<char>>,
    messages: Seq<Seq<char>>,
)
    requires
        resolver::paths_differ(watcher::file_paths(state.active)),
        state.synced(date, enabled, snapshot, table, status).error is None,
        watcher::file_paths(again) == watcher::file_paths(
            state.synced(date, enabled, snapshot, table, status).state.active,
        ),
    ensures
        ({
            let first = state.synced(date, enabled, snapshot, table, status);
            let after = PathView { active: again, ..first.state };
            let second = after.synced(date, enabled, snapshot, other, messages);
            &&& second.error is None
            &&& second.state == after
            &&& second.status == messages
        }),
{
    let list = resolver::resolved(state.raw, date, snapshot);
    let warnings = resolver::resolution_warnings(state.raw, date, snapshot);
    let rest = watcher::without_unresolved(table, state.active, list);
    let files = watcher::followed(list, state.active, enabled, snapshot, rest).0->Ok_0;
    let older = watcher::rolled_over(state.raw, state.active, list, enabled, snapshot);
    let first = state.synced(date, enabled, snapshot, table, status);
    let n = files.len() as int;
    watcher_laws::files_are_followed_once(state, date, enabled, snapshot, table, status);
    assert(again.len() == first.state.active.len()) by {
        assert(watcher::file_paths(again).len() == again.len());
        assert(watcher::file_paths(first.state.active).len() == first.state.active.len());
    }
    assert forall|i: int| 0 <= i < again.len() implies (#[trigger] again[i]).path
        == first.state.active[i].path by {
        assert(watcher::file_paths(again)[i] == again[i].path);
        assert(watcher::file_paths(first.state.active)[i] == first.state.active[i].path);
    }
    let remaining = watcher::without_unresolved(other, again, list);
    followed_again(list, state.active, again, enabled, snapshot, rest, remaining);
    assert forall|i: int| 0 <= i < n implies resolver::lists_path(
        list,
        (#[trigger] again[i]).path,
    ) by {
        watcher_laws::followed_files_come_from(
            list,
            state.active,
            enabled,
            snapshot,
            rest,
            i,
        );
    }
    assert forall|i: int| n <= i < again.len() implies ({
        let file = #[trigger] again[i];
        &&& !resolver::lists_path(list, file.path)
        &&& resolver::date_sensitive(state.raw)
        &&& watcher::file_enabled(enabled, file.path)
        &&& !(snapshot.stat_at(file.path) is Missing)
    }) by {
        watcher_laws::rolled_over_files_come_from(
            state.raw,
            state.active,
            list,
            enabled,
            snapshot,
            i - n,
        );
        watcher_laws::rolled_over_file_is_there(
            state.raw,
            state.active,
            list,
            enabled,
            snapshot,
            i - n,
        );
        assert(first.state.active[i] == older[i - n]);
    }
    rolled_over_again(state.raw, again, list, enabled, snapshot, n, again.len() as int);
    assert(again.take(again.len() as int) =~= again);
    let kept = watcher::rolled_over(state.raw, again, list, enabled, snapshot);
    assert(again.take(n) + kept =~= again);
    assert forall|i: int| 0 <= i < warnings.len() implies warnings.contains(
        #[trigger] warnings[i],
    ) by {}
    watcher_laws::known_warnings_are_not_new(warnings, warnings);
    assert(messages + Seq::<Seq<char>>::empty() =~= messages);
}

proof fn unresolved_only_forgets(
    table: Map<Seq<Seq<char>>, Seq<char>>,
    active: Seq<FileView>,
    list: Seq<Seq<char>>,
)
    ensures
        only_forgets(table, watcher::without_unresolved(table, active, list)),
    decreases active.len(),
{
    if active.len() > 0 {
        unresolved_only_forgets(table, active.drop_last(), list);
    }
}

proof fn followed_only_forgets(
    list: Seq<Seq<char>>,
    active: Seq<FileView>,
    enabled: Map<Seq<Seq<char>>, bool>,
    snapshot: &Snapshot,
    table: Map<Seq<Seq<char>>, Seq<char>>,
)
    ensures
        only_forgets(table, watcher::followed(list, active, enabled, snapshot, table).1),
    decreases list.len(),
{
    if list.len() > 0 {
        followed_only_forgets(list.drop_last(), active, enabled, snapshot, table);
    }
}

/// Bringing the followed files up to date adds no reason.
proof fn sync_only_forgets(
    state: PathView,
    date: CalendarDate,
    enabled: Map<Seq<Seq<char>>, bool>,
    snapshot: &Snapshot,
    table: Map<Seq<Seq<char>>, Seq<char>>,
    status: Seq<Seq<char>>,
)
    ensures
        only_forgets(
            table,
            state.synced(date, enabled, snapshot, table, status).unreadable,
        ),
{
    let list = resolver::resolved(state.raw, date, snapshot);
    let rest = watcher::without_unresolved(table, state.active, list);
    unresolved_only_forgets(table, state.active, list);
    followed_only_forgets(list, state.active, enabled, snapshot, rest);
}

/// A second poll of one tracked path changes nothing, and reports nothing.
proof fn path_polled_again(
    state: PathView,
    date: CalendarDate,
    enabled: Map<Seq<Seq<char>>, bool>,
    snapshot: &Snapshot,
    max: nat,
    now: i64,
    start: Ledger,
    later: i64,
    other: Ledger,
)
    requires
        resolver::paths_differ(watcher::file_paths(state.active)),
        state.polled(date, enabled, snapshot, max, now, start).error is None,
        all_readable(watcher::next_files(state, date, enabled, snapshot), snapshot),
        no_reasons(
            state.polled(date, enabled, snapshot, max, now, start).state.active,
            other.unreadable,
        ),
    ensures
        ({
            let first = state.polled(date, enabled, snapshot, max, now, start);
            let second = first.state.polled(date, enabled, snapshot, max, later, other);
            &&& no_reasons(first.state.active, first.ledger.unreadable)
            &&& only_forgets(start.unreadable, first.ledger.unreadable)
            &&& second.error is None
            &&& second.state == first.state
            &&& second.ledger.events == other.events
            &&& second.ledger.status == other.status
            &&& only_forgets(other.unreadable, second.ledger.unreadable)
            &&& watcher::reads_of(
                watcher::next_files(first.state, date, enabled, snapshot),
                snapshot,
            ) == Seq::<(Seq<char>, u64)>::empty()
        }),
{
    path_settles(state, date, enabled, snapshot, max, now, start);
    let sync = state.synced(date, enabled, snapshot, start.unreadable, start.status);
    let first = state.polled(date, enabled, snapshot, max, now, start);
    let ledger = Ledger { events: start.events, unreadable: sync.unreadable, status: sync.status };
    watcher_laws::polled_files_keep_paths(sync.state.active, snapshot, max, now, ledger);
    synced_again(
        state,
        first.state.active,
        date,
        enabled,
        snapshot,
        start.unreadable,
        start.status,
        other.unreadable,
        other.status,
    );
    sync_only_forgets(
        first.state,
        date,
        enabled,
        snapshot,
        other.unreadable,
        other.status,
    );
    let resync = first.state.synced(date, enabled, snapshot, other.unreadable, other.status);
    let next = Ledger {
        events: other.events,
        unreadable: resync.unreadable,
        status: resync.status,
    };
    assert(no_reasons(first.state.active, next.unreadable));
    settled_files_stay(first.state.active, snapshot, max, later, next);
    next_files_are_synced(
        first.state,
        date,
        enabled,
        snapshot,
        other.unreadable,
        other.status,
    );
}

/// Once a path has been polled, its readable files are settled, and no reason is kept for them.
proof fn path_settles(
    state: PathView,
    date: CalendarDate,
    enabled: Map<Seq<Seq<char>>, bool>,
    snapshot: &Snapshot,
    max: nat,
    now: i64,
    start: Ledger,
)
    requires
        state.polled(date, enabled, snapshot, max, now, start).error is None,
        all_readable(watcher::next_files(state, date, enabled, snapshot), snapshot),
    ensures
        ({
            let first = state.polled(date, enabled, snapshot, max, now, start);
            &&& no_reasons(first.state.active, first.ledger.unreadable)
            &&& only_forgets(start.unreadable, first.ledger.unreadable)
            &&& forall|i: int|
                0 <= i < first.state.active.len() ==> settled(
                    #[trigger] first.state.active[i],
                    snapshot,
                    max,
                )
        }),
{
    let sync = state.synced(date, enabled, snapshot, start.unreadable, start.status);
    let ledger = Ledger { events: start.events, unreadable: sync.unreadable, status: sync.status };
    next_files_are_synced(state, date, enabled, snapshot, start.unreadable, start.status);
    sync_only_forgets(state, date, enabled, snapshot, start.unreadable, start.status);
    readable_files_settle(sync.state.active, snapshot, max, now, ledger);
}

/// All next files of the tracked paths are missing or readable.
pub open spec fn all_paths_readable(
    states: Seq<PathView>,
    date: CalendarDate,
    enabled: Map<Seq<Seq<char>>, bool>,
    snapshot: &Snapshot,
) -> bool {
    forall|i: int|
        0 <= i < states.len() ==> all_readable(
            watcher::next_files(#[trigger] states[i], date, enabled, snapshot),
            snapshot,
        )
}

/// No reason is kept for any file of the tracked paths.
pub open spec fn paths_have_no_reasons(
    states: Seq<PathView>,
    table: Map<Seq<Seq<char>>, Seq<char>>,
) -> bool {
    forall|i: int| 0 <= i < states.len() ==> no_reasons((#[trigger] states[i]).active, table)
}

proof fn parts_of_states(
    states: Seq<PathView>,
    date: CalendarDate,
    enabled: Map<Seq<Seq<char>>, bool>,
    snapshot: &Snapshot,
)
    requires
        states.len() > 0,
        watcher::follow_once(states),
        all_paths_readable(states, date, enabled, snapshot),
    ensures
        watcher::follow_once(states.drop_last()),
        all_paths_readable(states.drop_last(), date, enabled, snapshot),
        resolver::paths_differ(watcher::file_paths(states.last().active)),
        all_readable(watcher::next_files(states.last(), date, enabled, snapshot), snapshot),
{
    let front = states.drop_last();
    assert forall|i: int| 0 <= i < front.len() implies resolver::paths_differ(
        watcher::file_paths((#[trigger] front[i]).active),
    ) by {
        assert(front[i] == states[i]);
    }
    assert forall|i: int| 0 <= i < front.len() implies all_readable(
        watcher::next_files(#[trigger] front[i], date, enabled, snapshot),
        snapshot,
    ) by {
        assert(front[i] == states[i]);
    }
    assert(states[states.len() - 1] == states.last());
}

/// Once the paths have been polled, no reason is kept for their readable files.
proof fn paths_settle(
    states: Seq<PathView>,
    date: CalendarDate,
    enabled: Map<Seq<Seq<char>>, bool>,
    snapshot: &Snapshot,
    max: nat,
    now: i64,
    start: Ledger,
)
    requires
        watcher::follow_once(states),
        all_paths_readable(states, date, enabled, snapshot),
        watcher::polled_paths(states, date, enabled, snapshot, max, now, start).2 is None,
    ensures
        ({
            let (after, ledger, error) = watcher::polled_paths(
                states,
                date,
                enabled,
                snapshot,
                max,
                now,
                start,
            );
            paths_have_no_reasons(after, ledger.unreadable)
        }),
    decreases states.len(),
{
    if states.len() > 0 {
        let front = states.drop_last();
        parts_of_states(states, date, enabled, snapshot);
        paths_settle(front, date, enabled, snapshot, max, now, start);
        let (done, ledger, error) = watcher::polled_paths(
            front,
            date,
            enabled,
            snapshot,
            max,
            now,
            start,
        );
        let poll = states.last().polled(date, enabled, snapshot, max, now, ledger);
        path_settles(states.last(), date, enabled, snapshot, max, now, ledger);
        let after = done.push(poll.state);
        assert forall|i: int| 0 <= i < after.len() implies no_reasons(
            (#[trigger] after[i]).active,
            poll.ledger.unreadable,
        ) by {
            if i < done.len() {
                assert(no_reasons(done[i].active, ledger.unreadable));
            }
        }
    }
}

/// A second poll of the tracked paths changes nothing, and reports nothing.
proof fn paths_polled_again(
    states: Seq<PathView>,
    date: CalendarDate,
    enabled: Map<Seq<Seq<char>>, bool>,
    snapshot: &Snapshot,
    max: nat,
    now: i64,
    start: Ledger,
    later: i64,
    other: Ledger,
)
    requires
        watcher::follow_once(states),
        all_paths_readable(states, date, enabled, snapshot),
        watcher::polled_paths(states, date, enabled, snapshot, max, now, start).2 is None,
        paths_have_no_reasons(
            watcher::polled_paths(states, date, enabled, snapshot, max, now, start).0,
            other.unreadable,
        ),
    ensures
        ({
            let after = watcher::polled_paths(
                states,
                date,
                enabled,
                snapshot,
                max,
                now,
                start,
            ).0;
            let (again, ledger, error) = watcher::polled_paths(
                after,
                date,
                enabled,
                snapshot,
                max,
                later,
                other,
            );
            &&& again == after
            &&& error is None
            &&& ledger.events == other.events
            &&& ledger.status == other.status
            &&& only_forgets(other.unreadable, ledger.unreadable)
            &&& watcher::reads_asked(after, date, enabled, snapshot) == Seq::<
                (Seq<char>, u64),
            >::empty()
        }),
    decreases states.len(),
{
    let after = watcher::polled_paths(states, date, enabled, snapshot, max, now, start).0;
    if states.len() > 0 {
        let front = states.drop_last();
        let last = states.last();
        parts_of_states(states, date, enabled, snapshot);
        let (done, ledger, error) = watcher::polled_paths(
            front,
            date,
            enabled,
            snapshot,
            max,
            now,
            start,
        );
        let poll = last.polled(date, enabled, snapshot, max, now, ledger);
        assert(after.drop_last() =~= done);
        assert(after.last() == poll.state);
        assert forall|i: int| 0 <= i < done.len() implies no_reasons(
            (#[trigger] done[i]).active,
            other.unreadable,
        ) by {
            assert(after[i] == done[i]);
        }
        paths_polled_again(
            front,
            date,
            enabled,
            snapshot,
            max,
            now,
            start,
            later,
            other,
        );
        let middle = watcher::polled_paths(
            done,
            date,
            enabled,
            snapshot,
            max,
            later,
            other,
        ).1;
        assert(no_reasons(after[after.len() - 1].active, other.unreadable));
        assert(no_reasons(poll.state.active, middle.unreadable));
        path_polled_again(
            last,
            date,
            enabled,
            snapshot,
            max,
            now,
            ledger,
            later,
            middle,
        );
        assert(done.push(poll.state) =~= after);
        assert(watcher::reads_asked(after, date, enabled, snapshot) =~= seq![]);
    } else {
        assert(after =~= seq![]);
    }
}

/// A second poll, on the same day, of a disk that has not changed gives no event and no message,
/// where every file was missing or was read to its end by the first.
pub proof fn second_poll_is_silent(
    view: WatcherView,
    date: CalendarDate,
    snapshot: &Snapshot,
    now: i64,
    unchanged: &Snapshot,
    later: i64,
)
    requires
        view.wf(),
        view.polled(date, snapshot, now).events is Ok,
        all_paths_readable(view.states, date, view.enabled, snapshot),
        ({
            let after = view.polled(date, snapshot, now).watcher;
            let raws = watcher::raw_paths_of(after.states);
            &&& resolver::agree_on_dirs(snapshot, unchanged, watcher::dirs_asked(raws, date))
            &&& watcher_laws::agree_on_files(
                snapshot,
                unchanged,
                watcher::all_resolved(raws, date, snapshot) + watcher::file_paths(
                    watcher::all_active(after.states),
                ),
            )
        }),
    ensures
        ({
            let after = view.polled(date, snapshot, now).watcher;
            let second = after.polled(date, unchanged, later);
            &&& second.events == Ok::<Seq<LogEventView>, Seq<char>>(Seq::empty())
            &&& second.watcher.status == Seq::<Seq<char>>::empty()
            &&& second.watcher.states == after.states
        }),
{
    let start = Ledger { events: seq![], unreadable: view.unreadable, status: seq![] };
    let after = view.polled(date, snapshot, now).watcher;
    let other = Ledger { events: seq![], unreadable: after.unreadable, status: seq![] };
    paths_settle(
        view.states,
        date,
        view.enabled,
        snapshot,
        view.max_line_len,
        now,
        start,
    );
    paths_polled_again(
        view.states,
        date,
        view.enabled,
        snapshot,
        view.max_line_len,
        now,
        start,
        later,
        other,
    );
    watcher_laws::poll_depends_on_what_is_asked(after, date, later, snapshot, unchanged);
}

} // verus!
