//! Which files are followed, in which order they are polled, and what is said about them.

use crate::dates::CalendarDate;
use crate::paths;
use crate::resolver;
use crate::snapshot::Snapshot;
use crate::snapshot::StatOutcome;
use crate::tracking;
use crate::tracking::FilePoll;
use crate::tracking::FileView;
use crate::tracking::LogEventView;
use crate::watcher;
use crate::watcher::Ledger;
use crate::watcher::PathView;
use crate::watcher::WatcherView;
use vstd::prelude::*;

verus! {

/// A file is followed unless it is switched off.
pub proof fn files_are_on_unless_switched_off(
    enabled: Map<Seq<Seq<char>>, bool>,
    path: Seq<char>,
)
    ensures
        !watcher::file_enabled(enabled, path) == (enabled.dom().contains(
            paths::path_components(path),
        ) && !enabled[paths::path_components(path)]),
{
}

/// A file is there where it is found and is a regular file, or cannot be looked at.
pub proof fn present_files_are_regular_or_out_of_sight(stat: StatOutcome)
    ensures
        watcher::present(stat) == (stat is Failed || (stat is Found && stat->Found_0.is_file)),
{
}

/// The file at a path is the first that is followed under any spelling of it.
pub proof fn file_at_is_the_first(files: Seq<FileView>, path: Seq<char>, k: int)
    requires
        0 <= k < files.len(),
        paths::same_path(files[k].path, path),
        forall|i: int| 0 <= i < k ==> !paths::same_path((#[trigger] files[i]).path, path),
    ensures
        watcher::file_at(files, path) == Some(files[k]),
    decreases files.len(),
{
    if k > 0 {
        let rest = files.skip(1);
        assert(!paths::same_path(files[0].path, path));
        assert(rest[k - 1] == files[k]);
        assert forall|i: int| 0 <= i < k - 1 implies !paths::same_path(
            (#[trigger] rest[i]).path,
            path,
        ) by {
            assert(rest[i] == files[i + 1]);
        }
        file_at_is_the_first(rest, path, k - 1);
    }
}

/// There is a file at a path where one is followed under any spelling of it.
pub proof fn file_at_is_found_exactly_when(files: Seq<FileView>, path: Seq<char>)
    ensures
        watcher::file_at(files, path) is Some == exists|i: int|
            0 <= i < files.len() && paths::same_path((#[trigger] files[i]).path, path),
    decreases files.len(),
{
    if files.len() > 0 {
        let rest = files.skip(1);
        if paths::same_path(files[0].path, path) {
            assert(watcher::file_at(files, path) is Some);
        } else {
            file_at_is_found_exactly_when(rest, path);
            if watcher::file_at(files, path) is Some {
                let i = choose|i: int|
                    0 <= i < rest.len() && paths::same_path((#[trigger] rest[i]).path, path);
                assert(files[i + 1] == rest[i]);
            } else if exists|i: int|
                0 <= i < files.len() && paths::same_path((#[trigger] files[i]).path, path) {
                let i = choose|i: int|
                    0 <= i < files.len() && paths::same_path((#[trigger] files[i]).path, path);
                assert(rest[i - 1] == files[i]);
            }
        }
    }
}

/// A warning is given where it was not given before, each in its place.
pub proof fn warnings_that_were_given_are_left_out(
    warnings: Seq<Seq<char>>,
    warned: Seq<Seq<char>>,
)
    ensures
        watcher::new_warnings(warnings, warned) == warnings.filter(
            |warning: Seq<char>| !warned.contains(warning),
        ),
    decreases warnings.len(),
{
    reveal(Seq::filter);
    if warnings.len() > 0 {
        warnings_that_were_given_are_left_out(warnings.drop_last(), warned);
    } else {
        assert(watcher::new_warnings(warnings, warned) =~= warnings);
    }
}

/// The files that are switched on stay, in their order.
pub proof fn enabled_files_stay(files: Seq<FileView>, enabled: Map<Seq<Seq<char>>, bool>)
    ensures
        watcher::enabled_files(files, enabled) == files.filter(
            |file: FileView| watcher::file_enabled(enabled, file.path),
        ),
    decreases files.len(),
{
    reveal(Seq::filter);
    if files.len() > 0 {
        enabled_files_stay(files.drop_last(), enabled);
    } else {
        assert(watcher::enabled_files(files, enabled) =~= files);
    }
}

/// The files of other days that stay are all that are not among those of the day, are switched on
/// and are not gone; and none stay of a path without a date.
pub proof fn files_of_other_days_stay(
    raw: Seq<char>,
    active: Seq<FileView>,
    resolved: Seq<Seq<char>>,
    enabled: Map<Seq<Seq<char>>, bool>,
    snapshot: &Snapshot,
)
    ensures
        watcher::rolled_over(raw, active, resolved, enabled, snapshot) == active.filter(
            |file: FileView|
                {
                    &&& resolver::date_sensitive(raw)
                    &&& forall|i: int|
                        0 <= i < resolved.len() ==> !paths::same_path(
                            #[trigger] resolved[i],
                            file.path,
                        )
                    &&& watcher::file_enabled(enabled, file.path)
                    &&& snapshot.stat_at(file.path) != StatOutcome::Missing
                },
        ),
    decreases active.len(),
{
    reveal(Seq::filter);
    if active.len() > 0 {
        files_of_other_days_stay(raw, active.drop_last(), resolved, enabled, snapshot);
    } else {
        assert(watcher::rolled_over(raw, active, resolved, enabled, snapshot) =~= active);
    }
}

/// The file that is followed for a path: as it was, or afresh.
pub open spec fn file_for(
    active: Seq<FileView>,
    snapshot: &Snapshot,
    path: Seq<char>,
) -> FileView {
    match watcher::file_at(active, path) {
        Some(file) => file,
        None => tracking::fresh_file(path, snapshot.stat_at(path))->Ok_0,
    }
}

/// The file that is followed for a path is the one that was, or one that begins to be.
pub proof fn file_for_a_path(active: Seq<FileView>, snapshot: &Snapshot, path: Seq<char>)
    ensures
        watcher::file_at(active, path) is Some ==> file_for(active, snapshot, path)
            == watcher::file_at(active, path)->0,
        watcher::file_at(active, path) is None ==> file_for(active, snapshot, path)
            == tracking::fresh_file(path, snapshot.stat_at(path))->Ok_0,
{
}

/// Where every file that is new can be looked at, one file is followed for every path that is
/// switched on, in the order of the paths.
pub proof fn one_file_for_every_path(
    resolved: Seq<Seq<char>>,
    active: Seq<FileView>,
    enabled: Map<Seq<Seq<char>>, bool>,
    snapshot: &Snapshot,
    unreadable: Map<Seq<Seq<char>>, Seq<char>>,
)
    requires
        forall|i: int|
            0 <= i < resolved.len() && watcher::file_enabled(enabled, #[trigger] resolved[i])
                && watcher::file_at(active, resolved[i]) is None ==> !(snapshot.stat_at(
                resolved[i],
            ) is Failed),
    ensures
        watcher::followed(resolved, active, enabled, snapshot, unreadable).0 == Ok::<
            Seq<FileView>,
            Seq<char>,
        >(
            resolved.filter(|path: Seq<char>| watcher::file_enabled(enabled, path)).map_values(
                |path: Seq<char>| file_for(active, snapshot, path),
            ),
        ),
    decreases resolved.len(),
{
    reveal(Seq::filter);
    let on = |path: Seq<char>| watcher::file_enabled(enabled, path);
    let of = |path: Seq<char>| file_for(active, snapshot, path);
    if resolved.len() > 0 {
        let front = resolved.drop_last();
        let path = resolved.last();
        assert forall|i: int|
            0 <= i < front.len() && watcher::file_enabled(enabled, #[trigger] front[i])
                && watcher::file_at(active, front[i]) is None implies !(snapshot.stat_at(
            front[i],
        ) is Failed) by {
            assert(front[i] == resolved[i]);
        }
        one_file_for_every_path(front, active, enabled, snapshot, unreadable);
        assert(resolved[resolved.len() - 1] == path);
        if on(path) {
            assert(front.filter(on).push(path).map_values(of) =~= front.filter(on).map_values(
                of,
            ).push(of(path)));
        }
    } else {
        assert(resolved.filter(on).map_values(of) =~= Seq::empty());
    }
}

/// Where a new file cannot be looked at, nothing is followed for the path, and the first such file
/// is named.
pub proof fn first_file_out_of_sight_is_named(
    resolved: Seq<Seq<char>>,
    active: Seq<FileView>,
    enabled: Map<Seq<Seq<char>>, bool>,
    snapshot: &Snapshot,
    unreadable: Map<Seq<Seq<char>>, Seq<char>>,
    k: int,
)
    requires
        0 <= k < resolved.len(),
        watcher::file_enabled(enabled, resolved[k]),
        watcher::file_at(active, resolved[k]) is None,
        snapshot.stat_at(resolved[k]) is Failed,
        forall|i: int|
            0 <= i < k && watcher::file_enabled(enabled, #[trigger] resolved[i])
                && watcher::file_at(active, resolved[i]) is None ==> !(snapshot.stat_at(
                resolved[i],
            ) is Failed),
    ensures
        watcher::followed(resolved, active, enabled, snapshot, unreadable).0 == Err::<
            Seq<FileView>,
            Seq<char>,
        >("failed to stat "@ + resolved[k]),
    decreases resolved.len(),
{
    let front = resolved.drop_last();
    if k < front.len() {
        assert forall|i: int|
            0 <= i < k && watcher::file_enabled(enabled, #[trigger] front[i])
                && watcher::file_at(active, front[i]) is None implies !(snapshot.stat_at(
            front[i],
        ) is Failed) by {
            assert(front[i] == resolved[i]);
        }
        first_file_out_of_sight_is_named(front, active, enabled, snapshot, unreadable, k);
    } else {
        assert forall|i: int|
            0 <= i < front.len() && watcher::file_enabled(enabled, #[trigger] front[i])
                && watcher::file_at(active, front[i]) is None implies !(snapshot.stat_at(
            front[i],
        ) is Failed) by {
            assert(front[i] == resolved[i]);
        }
        one_file_for_every_path(front, active, enabled, snapshot, unreadable);
    }
}

/// Bringing a path up to date: the files of the day that are switched on, as they were or afresh,
/// and behind them the files of other days that stay; the warnings are remembered, and those that
/// were not given before are given behind the messages that there are.
pub proof fn synced_path_follows_the_day(
    state: PathView,
    date: CalendarDate,
    enabled: Map<Seq<Seq<char>>, bool>,
    snapshot: &Snapshot,
    unreadable: Map<Seq<Seq<char>>, Seq<char>>,
    status: Seq<Seq<char>>,
)
    requires
        forall|path: Seq<char>|
            resolver::resolved(state.raw, date, snapshot).contains(path) ==> !(
            #[trigger] snapshot.stat_at(path) is Failed),
    ensures
        ({
            let sync = state.synced(date, enabled, snapshot, unreadable, status);
            let list = resolver::resolved(state.raw, date, snapshot);
            let warnings = resolver::resolution_warnings(state.raw, date, snapshot);
            &&& sync.error is None
            &&& sync.state.raw == state.raw
            &&& sync.state.active == list.filter(
                |path: Seq<char>| watcher::file_enabled(enabled, path),
            ).map_values(|path: Seq<char>| file_for(state.active, snapshot, path))
                + state.active.filter(
                |file: FileView|
                    {
                        &&& resolver::date_sensitive(state.raw)
                        &&& forall|i: int|
                            0 <= i < list.len() ==> !paths::same_path(
                                #[trigger] list[i],
                                file.path,
                            )
                        &&& watcher::file_enabled(enabled, file.path)
                        &&& snapshot.stat_at(file.path) != StatOutcome::Missing
                    },
            )
            &&& sync.state.warned == warnings
            &&& sync.status == status + warnings.filter(
                |warning: Seq<char>| !state.warned.contains(warning),
            )
        }),
{
    let list = resolver::resolved(state.raw, date, snapshot);
    assert forall|i: int| 0 <= i < list.len() implies !(snapshot.stat_at(#[trigger] list[i])
        is Failed) by {
        assert(list.contains(list[i]));
    }
    one_file_for_every_path(
        list,
        state.active,
        enabled,
        snapshot,
        watcher::without_unresolved(unreadable, state.active, list),
    );
    files_of_other_days_stay(state.raw, state.active, list, enabled, snapshot);
    warnings_that_were_given_are_left_out(
        resolver::resolution_warnings(state.raw, date, snapshot),
        state.warned,
    );
}

/// What is remembered of files that could not be read: all but those that are followed and no
/// longer resolved.
pub proof fn reasons_of_other_files_stay(
    unreadable: Map<Seq<Seq<char>>, Seq<char>>,
    active: Seq<FileView>,
    resolved: Seq<Seq<char>>,
    key: Seq<Seq<char>>,
)
    ensures
        ({
            let after = watcher::without_unresolved(unreadable, active, resolved);
            let dropped = exists|i: int|
                0 <= i < active.len() && paths::path_components((#[trigger] active[i]).path) == key
                    && !resolver::lists_path(resolved, active[i].path);
            &&& after.dom().contains(key) == (unreadable.dom().contains(key) && !dropped)
            &&& after.dom().contains(key) ==> after[key] == unreadable[key]
        }),
    decreases active.len(),
{
    if active.len() > 0 {
        let front = active.drop_last();
        let last: int = active.len() - 1;
        reasons_of_other_files_stay(unreadable, front, resolved, key);
        if exists|i: int|
            0 <= i < front.len() && paths::path_components((#[trigger] front[i]).path) == key
                && !resolver::lists_path(resolved, front[i].path) {
            let i = choose|i: int|
                0 <= i < front.len() && paths::path_components((#[trigger] front[i]).path) == key
                    && !resolver::lists_path(resolved, front[i].path);
            assert(active[i] == front[i]);
        }
        if exists|i: int|
            0 <= i < active.len() && paths::path_components((#[trigger] active[i]).path) == key
                && !resolver::lists_path(resolved, active[i].path) {
            let i = choose|i: int|
                0 <= i < active.len() && paths::path_components((#[trigger] active[i]).path) == key
                    && !resolver::lists_path(resolved, active[i].path);
            if i < last {
                assert(active[i] == front[i]);
            }
        }
        assert(active[last] == active.last());
    }
}

/// A poll of one file adds its lines behind the events that there are, with the time of the poll
/// and the label of the file. That it cannot be read is said once for each reason, and that it can
/// be read again once.
pub proof fn poll_is_entered(ledger: Ledger, file: FileView, poll: FilePoll, now: i64)
    ensures
        ({
            let after = ledger.entered(file, poll, now);
            let key = paths::path_components(file.path);
            let known = ledger.unreadable.dom().contains(key);
            &&& after.events == ledger.events + poll.lines.map_values(
                |line: Seq<char>| LogEventView { ts: now, source: file.label, line },
            )
            &&& poll.error is None ==> after.unreadable == ledger.unreadable.remove(key)
            &&& poll.error is Some ==> after.unreadable == ledger.unreadable.insert(
                key,
                poll.error->0,
            )
            &&& poll.error is None && known ==> after.status == ledger.status + seq![
                "File readable again: "@ + file.path,
            ]
            &&& poll.error is None && !known ==> after.status == ledger.status
            &&& poll.error is Some && known && ledger.unreadable[key] == poll.error->0
                ==> after.status == ledger.status
            &&& poll.error is Some && !(known && ledger.unreadable[key] == poll.error->0)
                ==> after.status == ledger.status + seq![
                "Ignoring unreadable file "@ + file.path + ": "@ + poll.error->0,
            ]
        }),
{
    let again = "File readable again: "@ + file.path;
    assert(ledger.status.push(again) =~= ledger.status + seq![again]);
    if poll.error is Some {
        let ignoring = "Ignoring unreadable file "@ + file.path + ": "@ + poll.error->0;
        assert(ledger.status.push(ignoring) =~= ledger.status + seq![ignoring]);
    }
}

/// Files are polled one after the other, every one of them: each is left as its own poll leaves it,
/// and the events are those of the polls in the order of the files.
pub proof fn files_are_polled_in_order(
    files: Seq<FileView>,
    snapshot: &Snapshot,
    max: nat,
    now: i64,
    start: Ledger,
)
    ensures
        watcher::polled_files(files, snapshot, max, now, start).0 == files.map_values(
            |file: FileView| file.polled_from(snapshot, max).file,
        ),
        watcher::polled_files(files, snapshot, max, now, start).1.events == start.events
            + files.map_values(
            |file: FileView|
                tracking::line_events(now, file.label, file.polled_from(snapshot, max).lines),
        ).flatten(),
    decreases files.len(),
{
    let after = |file: FileView| file.polled_from(snapshot, max).file;
    let events = |file: FileView|
        tracking::line_events(now, file.label, file.polled_from(snapshot, max).lines);
    if files.len() > 0 {
        let front = files.drop_last();
        let last = files.last();
        files_are_polled_in_order(front, snapshot, max, now, start);
        assert(files.map_values(after) =~= front.map_values(after).push(after(last)));
        assert(files.map_values(events) =~= front.map_values(events).push(events(last)));
        front.map_values(events).lemma_flatten_push(events(last));
        assert(start.events + front.map_values(events).flatten() + events(last) =~= start.events
            + (front.map_values(events).flatten() + events(last)));
    } else {
        assert(files.map_values(after) =~= Seq::empty());
        assert(files.map_values(events) =~= Seq::empty());
        assert(Seq::<Seq<LogEventView>>::empty().flatten() =~= Seq::empty());
        assert(start.events + Seq::empty() =~= start.events);
    }
}

/// Polling more files goes on from what polling the others came to.
pub proof fn polling_goes_on(
    files: Seq<FileView>,
    more: Seq<FileView>,
    snapshot: &Snapshot,
    max: nat,
    now: i64,
    start: Ledger,
)
    ensures
        ({
            let (first, ledger) = watcher::polled_files(files, snapshot, max, now, start);
            let (second, end) = watcher::polled_files(more, snapshot, max, now, ledger);
            watcher::polled_files(files + more, snapshot, max, now, start) == (first + second, end)
        }),
    decreases more.len(),
{
    let (first, ledger) = watcher::polled_files(files, snapshot, max, now, start);
    let (second, end) = watcher::polled_files(more, snapshot, max, now, ledger);
    if more.len() > 0 {
        let front = more.drop_last();
        polling_goes_on(files, front, snapshot, max, now, start);
        assert((files + more).drop_last() =~= files + front);
        assert((files + more).last() == more.last());
        let before = watcher::polled_files(front, snapshot, max, now, ledger).0;
        let poll = more.last().polled_from(snapshot, max);
        assert((first + before).push(poll.file) =~= first + before.push(poll.file));
    } else {
        assert(files + more =~= files);
        assert(first + second =~= first);
    }
}

/// What polling a single file comes to.
pub proof fn one_file_is_polled(
    file: FileView,
    snapshot: &Snapshot,
    max: nat,
    now: i64,
    start: Ledger,
)
    ensures
        watcher::polled_files(seq![file], snapshot, max, now, start) == (
            seq![file.polled_from(snapshot, max).file],
            start.entered(file, file.polled_from(snapshot, max), now),
        ),
{
    let list = seq![file];
    assert(list.drop_last() =~= Seq::empty());
    assert(watcher::polled_files(list.drop_last(), snapshot, max, now, start) == (
        Seq::<FileView>::empty(),
        start,
    ));
    assert(Seq::<FileView>::empty().push(file.polled_from(snapshot, max).file) =~= seq![
        file.polled_from(snapshot, max).file,
    ]);
}

/// A path is polled as it stands once it has been brought up to date; where that fails, none of its
/// files is polled.
pub proof fn path_is_synced_and_polled(
    state: PathView,
    date: CalendarDate,
    enabled: Map<Seq<Seq<char>>, bool>,
    snapshot: &Snapshot,
    max: nat,
    now: i64,
    start: Ledger,
)
    ensures
        ({
            let sync = state.synced(date, enabled, snapshot, start.unreadable, start.status);
            let poll = state.polled(date, enabled, snapshot, max, now, start);
            let ledger = Ledger {
                events: start.events,
                unreadable: sync.unreadable,
                status: sync.status,
            };
            let (files, entered) = watcher::polled_files(
                sync.state.active,
                snapshot,
                max,
                now,
                ledger,
            );
            &&& poll.error == sync.error
            &&& poll.state.raw == state.raw
            &&& poll.state.warned == sync.state.warned
            &&& sync.error is None ==> poll.state.active == files && poll.ledger == entered
            &&& sync.error is Some ==> poll.state == sync.state && poll.ledger == ledger
        }),
{
}

/// Paths are polled one after the other, and the first that fails is the last that is polled.
pub proof fn paths_are_polled_in_order(
    states: Seq<PathView>,
    next: PathView,
    date: CalendarDate,
    enabled: Map<Seq<Seq<char>>, bool>,
    snapshot: &Snapshot,
    max: nat,
    now: i64,
    start: Ledger,
)
    ensures
        ({
            let (done, ledger, error) = watcher::polled_paths(
                states,
                date,
                enabled,
                snapshot,
                max,
                now,
                start,
            );
            let poll = next.polled(date, enabled, snapshot, max, now, ledger);
            watcher::polled_paths(states + seq![next], date, enabled, snapshot, max, now, start)
                == if error is None {
                (done + seq![poll.state], poll.ledger, poll.error)
            } else {
                (done + seq![next], ledger, error)
            }
        }),
        watcher::polled_paths(Seq::empty(), date, enabled, snapshot, max, now, start) == (
            Seq::<PathView>::empty(),
            start,
            None::<Seq<char>>,
        ),
{
    let all = states + seq![next];
    assert(all.drop_last() =~= states);
    let (done, ledger, error) = watcher::polled_paths(
        states,
        date,
        enabled,
        snapshot,
        max,
        now,
        start,
    );
    let poll = next.polled(date, enabled, snapshot, max, now, ledger);
    assert(done.push(poll.state) =~= done + seq![poll.state]);
    assert(done.push(next) =~= done + seq![next]);
}

/// The same of bringing paths up to date.
pub proof fn paths_are_synced_in_order(
    states: Seq<PathView>,
    next: PathView,
    date: CalendarDate,
    enabled: Map<Seq<Seq<char>>, bool>,
    snapshot: &Snapshot,
    unreadable: Map<Seq<Seq<char>>, Seq<char>>,
    status: Seq<Seq<char>>,
)
    ensures
        ({
            let (done, table, messages, error) = watcher::synced_paths(
                states,
                date,
                enabled,
                snapshot,
                unreadable,
                status,
            );
            let sync = next.synced(date, enabled, snapshot, table, messages);
            watcher::synced_paths(
                states + seq![next],
                date,
                enabled,
                snapshot,
                unreadable,
                status,
            ) == if error is None {
                (done + seq![sync.state], sync.unreadable, sync.status, sync.error)
            } else {
                (done + seq![next], table, messages, error)
            }
        }),
        watcher::synced_paths(Seq::empty(), date, enabled, snapshot, unreadable, status) == (
            Seq::<PathView>::empty(),
            unreadable,
            status,
            None::<Seq<char>>,
        ),
{
    let all = states + seq![next];
    assert(all.drop_last() =~= states);
    let (done, table, messages, error) = watcher::synced_paths(
        states,
        date,
        enabled,
        snapshot,
        unreadable,
        status,
    );
    let sync = next.synced(date, enabled, snapshot, table, messages);
    assert(done.push(sync.state) =~= done + seq![sync.state]);
    assert(done.push(next) =~= done + seq![next]);
}

/// A poll of the watcher polls all its paths, starting with no events and no messages; it reports
/// the events unless a path failed, and then why.
pub proof fn watcher_polls_all_paths(
    view: WatcherView,
    date: CalendarDate,
    snapshot: &Snapshot,
    now: i64,
)
    ensures
        ({
            let poll = view.polled(date, snapshot, now);
            let (states, ledger, error) = watcher::polled_paths(
                view.states,
                date,
                view.enabled,
                snapshot,
                view.max_line_len,
                now,
                (Ledger {
                    events: Seq::empty(),
                    unreadable: view.unreadable,
                    status: Seq::empty(),
                }),
            );
            &&& poll.watcher.states == states
            &&& poll.watcher.unreadable == ledger.unreadable
            &&& poll.watcher.status == ledger.status
            &&& poll.watcher.enabled == view.enabled
            &&& poll.watcher.max_line_len == view.max_line_len
            &&& error is None ==> poll.events == Ok::<Seq<LogEventView>, Seq<char>>(ledger.events)
            &&& error is Some ==> poll.events == Err::<Seq<LogEventView>, Seq<char>>(error->0)
        }),
{
}

/// All the files that are followed, path by path.
pub proof fn followed_files_come_path_by_path(states: Seq<PathView>)
    ensures
        watcher::all_active(states) == states.map_values(
            |state: PathView| state.active,
        ).flatten(),
    decreases states.len(),
{
    let files = |state: PathView| state.active;
    if states.len() > 0 {
        let front = states.drop_last();
        followed_files_come_path_by_path(front);
        assert(states.map_values(files) =~= front.map_values(files).push(states.last().active));
        front.map_values(files).lemma_flatten_push(states.last().active);
    } else {
        assert(states.map_values(files) =~= Seq::empty());
        assert(Seq::<Seq<FileView>>::empty().flatten() =~= Seq::empty());
    }
}

/// The paths and the labels of the files that are there, in the order of the files.
pub proof fn present_files_are_listed(files: Seq<FileView>, snapshot: &Snapshot)
    ensures
        watcher::present_paths(files, snapshot) == files.filter(
            |file: FileView| watcher::present(snapshot.stat_at(file.path)),
        ).map_values(|file: FileView| file.path),
        watcher::present_labels(files, snapshot) == files.filter(
            |file: FileView| watcher::present(snapshot.stat_at(file.path)),
        ).map_values(|file: FileView| file.label),
    decreases files.len(),
{
    reveal(Seq::filter);
    let there = |file: FileView| watcher::present(snapshot.stat_at(file.path));
    let path = |file: FileView| file.path;
    let label = |file: FileView| file.label;
    if files.len() > 0 {
        let front = files.drop_last();
        let last = files.last();
        present_files_are_listed(front, snapshot);
        if there(last) {
            let kept = front.filter(there);
            assert(kept.push(last).map_values(path) =~= kept.map_values(path).push(last.path));
            assert(kept.push(last).map_values(label) =~= kept.map_values(label).push(last.label));
        }
    } else {
        assert(files.filter(there).map_values(path) =~= Seq::empty());
        assert(files.filter(there).map_values(label) =~= Seq::empty());
    }
}

/// The files that a list shows: all of them, or those that are there.
pub proof fn listed_files_are_shown(list: Seq<Seq<char>>, snapshot: &Snapshot)
    ensures
        watcher::shown_paths(list, true, snapshot) == list,
        watcher::shown_paths(list, false, snapshot) == list.filter(
            |path: Seq<char>| watcher::present(snapshot.stat_at(path)),
        ),
    decreases list.len(),
{
    reveal(Seq::filter);
    if list.len() > 0 {
        listed_files_are_shown(list.drop_last(), snapshot);
        assert(list.drop_last().push(list.last()) =~= list);
    } else {
        assert(watcher::shown_paths(list, true, snapshot) =~= list);
        assert(watcher::shown_paths(list, false, snapshot) =~= list);
    }
}

/// To a list of files those come that are followed and there and are not in it, and no others; the
/// list stays in front.
pub proof fn followed_files_join_the_list(
    list: Seq<Seq<char>>,
    active: Seq<FileView>,
    snapshot: &Snapshot,
    path: Seq<char>,
)
    ensures
        ({
            let all = watcher::with_active(list, active, snapshot);
            &&& list.is_prefix_of(all)
            &&& resolver::lists_path(all, path) == (resolver::lists_path(list, path) || exists|
                i: int,
            |
                0 <= i < active.len() && paths::same_path((#[trigger] active[i]).path, path)
                    && watcher::present(snapshot.stat_at(active[i].path)))
            &&& resolver::paths_differ(list) ==> resolver::paths_differ(all)
        }),
    decreases active.len(),
{
    let all = watcher::with_active(list, active, snapshot);
    if active.len() > 0 {
        let front = active.drop_last();
        let last: int = active.len() - 1;
        let before = watcher::with_active(list, front, snapshot);
        followed_files_join_the_list(list, front, snapshot, path);
        followed_files_join_the_list(list, front, snapshot, active.last().path);
        let there = watcher::present(snapshot.stat_at(active.last().path));
        let joins = there && !resolver::lists_path(before, active.last().path);
        assert(active[last] == active.last());
        let one = exists|i: int|
            0 <= i < active.len() && paths::same_path((#[trigger] active[i]).path, path)
                && watcher::present(snapshot.stat_at(active[i].path));
        let earlier = exists|i: int|
            0 <= i < front.len() && paths::same_path((#[trigger] front[i]).path, path)
                && watcher::present(snapshot.stat_at(front[i].path));
        if earlier {
            let i = choose|i: int|
                0 <= i < front.len() && paths::same_path((#[trigger] front[i]).path, path)
                    && watcher::present(snapshot.stat_at(front[i].path));
            assert(active[i] == front[i]);
        }
        if one {
            let i = choose|i: int|
                0 <= i < active.len() && paths::same_path((#[trigger] active[i]).path, path)
                    && watcher::present(snapshot.stat_at(active[i].path));
            if i < last {
                assert(active[i] == front[i]);
            } else if !joins {
                let j = choose|j: int|
                    0 <= j < before.len() && paths::same_path(
                        #[trigger] before[j],
                        active.last().path,
                    );
                assert(paths::same_path(before[j], path));
            }
        }
        if joins {
            if resolver::lists_path(before, path) {
                let j = choose|j: int|
                    0 <= j < before.len() && paths::same_path(#[trigger] before[j], path);
                assert(all[j] == before[j]);
            }
            if resolver::lists_path(all, path) {
                let j = choose|j: int|
                    0 <= j < all.len() && paths::same_path(#[trigger] all[j], path);
                if j < before.len() {
                    assert(all[j] == before[j]);
                }
            }
            assert(all[before.len() as int] == active.last().path);
            if resolver::paths_differ(list) {
                assert forall|i: int, j: int| 0 <= i < j < all.len() implies !paths::same_path(
                    #[trigger] all[i],
                    #[trigger] all[j],
                ) by {
                    if j < before.len() {
                        assert(!paths::same_path(before[i], before[j]));
                    } else if paths::same_path(before[i], active.last().path) {
                        assert(resolver::lists_path(before, active.last().path));
                    }
                }
            }
            assert(list =~= all.subrange(0, list.len() as int)) by {
                assert(list =~= before.subrange(0, list.len() as int));
            }
        }
    } else {
        assert(list =~= all.subrange(0, list.len() as int));
    }
}

/// What is shown of a tracked path: its files of the day, and, where it stands for more than one
/// file or for another each day, only those that are there; behind them the followed files that
/// are there.
pub proof fn path_shows_its_files(state: PathView, date: CalendarDate, snapshot: &Snapshot)
    ensures
        state.shown(date, snapshot) == watcher::with_active(
            if resolver::date_sensitive(state.raw) || state.raw.contains('*')
                || state.raw.contains('?') {
                resolver::resolved(state.raw, date, snapshot).filter(
                    |path: Seq<char>| watcher::present(snapshot.stat_at(path)),
                )
            } else {
                resolver::resolved(state.raw, date, snapshot)
            },
            state.active,
            snapshot,
        ),
{
    listed_files_are_shown(resolver::resolved(state.raw, date, snapshot), snapshot);
}

/// Where all files can be looked at, each begins to be followed, in order.
pub proof fn files_begin_to_be_followed(list: Seq<Seq<char>>, snapshot: &Snapshot)
    requires
        forall|i: int| 0 <= i < list.len() ==> !(snapshot.stat_at(#[trigger] list[i]) is Failed),
    ensures
        watcher::fresh_files(list, snapshot) == Ok::<Seq<FileView>, Seq<char>>(
            list.map_values(
                |path: Seq<char>| tracking::fresh_file(path, snapshot.stat_at(path))->Ok_0,
            ),
        ),
    decreases list.len(),
{
    let fresh = |path: Seq<char>| tracking::fresh_file(path, snapshot.stat_at(path))->Ok_0;
    if list.len() > 0 {
        let front = list.drop_last();
        assert(list[list.len() - 1] == list.last());
        assert forall|i: int| 0 <= i < front.len() implies !(snapshot.stat_at(#[trigger] front[i])
            is Failed) by {
            assert(front[i] == list[i]);
        }
        files_begin_to_be_followed(front, snapshot);
        assert(list.map_values(fresh) =~= front.map_values(fresh).push(fresh(list.last())));
    } else {
        assert(list.map_values(fresh) =~= Seq::empty());
    }
}

/// Where a file cannot be looked at, none begins to be followed, and the first such is named.
pub proof fn first_file_that_cannot_begin_is_named(
    list: Seq<Seq<char>>,
    snapshot: &Snapshot,
    k: int,
)
    requires
        0 <= k < list.len(),
        snapshot.stat_at(list[k]) is Failed,
        forall|i: int| 0 <= i < k ==> !(snapshot.stat_at(#[trigger] list[i]) is Failed),
    ensures
        watcher::fresh_files(list, snapshot) == Err::<Seq<FileView>, Seq<char>>(
            "failed to stat "@ + list[k],
        ),
    decreases list.len(),
{
    let front = list.drop_last();
    assert forall|i: int| 0 <= i < k && i < front.len() implies !(snapshot.stat_at(
        #[trigger] front[i],
    ) is Failed) by {
        assert(front[i] == list[i]);
    }
    if k < front.len() {
        assert(front[k] == list[k]);
        first_file_that_cannot_begin_is_named(front, snapshot, k);
    } else {
        files_begin_to_be_followed(front, snapshot);
    }
}

proof fn begun_files_can_be_looked_at(list: Seq<Seq<char>>, snapshot: &Snapshot)
    requires
        watcher::fresh_files(list, snapshot) is Ok,
    ensures
        forall|i: int| 0 <= i < list.len() ==> !(snapshot.stat_at(#[trigger] list[i]) is Failed),
    decreases list.len(),
{
    if list.len() > 0 {
        let front = list.drop_last();
        begun_files_can_be_looked_at(front, snapshot);
        assert forall|i: int| 0 <= i < list.len() implies !(snapshot.stat_at(#[trigger] list[i])
            is Failed) by {
            if i < front.len() {
                assert(front[i] == list[i]);
            }
        }
    }
}

/// A watcher starts with the tracked paths in their order, each with its files of the day that are
/// switched on, none of which has been read; nothing has been said yet. It does not start where a
/// file cannot be looked at.
pub proof fn watcher_starts_with_the_files_of_the_day(
    raws: Seq<Seq<char>>,
    enabled: Map<Seq<Seq<char>>, bool>,
    max_line_len: nat,
    date: CalendarDate,
    snapshot: &Snapshot,
)
    ensures
        watcher::started(raws, enabled, max_line_len, date, snapshot) is Ok == forall|i: int|
            0 <= i < raws.len() ==> watcher::fresh_files(
                resolver::resolved(#[trigger] raws[i], date, snapshot),
                snapshot,
            ) is Ok,
        watcher::started(raws, enabled, max_line_len, date, snapshot) is Ok ==> {
            let view = watcher::started(raws, enabled, max_line_len, date, snapshot)->Ok_0;
            &&& view.states.len() == raws.len()
            &&& forall|i: int|
                0 <= i < raws.len() ==> #[trigger] view.states[i] == (PathView {
                    raw: raws[i],
                    active: resolver::resolved(raws[i], date, snapshot).map_values(
                        |path: Seq<char>| tracking::fresh_file(path, snapshot.stat_at(path))->Ok_0,
                    ).filter(|file: FileView| watcher::file_enabled(enabled, file.path)),
                    warned: Seq::empty(),
                })
            &&& view.enabled == enabled
            &&& view.max_line_len == max_line_len
            &&& view.unreadable == Map::<Seq<Seq<char>>, Seq<char>>::empty()
            &&& view.status == Seq::<Seq<char>>::empty()
        },
{
    paths_begin_to_be_tracked(raws, date, snapshot);
    if forall|i: int|
        0 <= i < raws.len() ==> watcher::fresh_files(
            resolver::resolved(#[trigger] raws[i], date, snapshot),
            snapshot,
        ) is Ok {
        assert forall|i: int| 0 <= i < raws.len() implies watcher::fresh_path(
            #[trigger] raws[i],
            date,
            snapshot,
        ) is Ok by {}
    }
    if watcher::started(raws, enabled, max_line_len, date, snapshot) is Ok {
        let states = watcher::fresh_paths(raws, date, snapshot)->Ok_0;
        let view = watcher::started(raws, enabled, max_line_len, date, snapshot)->Ok_0;
        assert forall|i: int| 0 <= i < raws.len() implies #[trigger] view.states[i] == (PathView {
            raw: raws[i],
            active: resolver::resolved(raws[i], date, snapshot).map_values(
                |path: Seq<char>| tracking::fresh_file(path, snapshot.stat_at(path))->Ok_0,
            ).filter(|file: FileView| watcher::file_enabled(enabled, file.path)),
            warned: Seq::empty(),
        }) by {
            enabled_files_stay(states[i].active, enabled);
            begun_files_can_be_looked_at(resolver::resolved(raws[i], date, snapshot), snapshot);
            files_begin_to_be_followed(resolver::resolved(raws[i], date, snapshot), snapshot);
        }
    }
}

/// What each path begins with, where all can begin.
spec fn all_begun(
    raws: Seq<Seq<char>>,
    begin: spec_fn(Seq<char>) -> Result<PathView, Seq<char>>,
) -> Result<Seq<PathView>, Seq<char>>
    decreases raws.len(),
{
    if raws.len() == 0 {
        Ok(seq![])
    } else {
        match all_begun(raws.drop_last(), begin) {
            Err(reason) => Err(reason),
            Ok(states) => match begin(raws.last()) {
                Ok(state) => Ok(states.push(state)),
                Err(reason) => Err(reason),
            },
        }
    }
}

proof fn all_begun_one_by_one(
    raws: Seq<Seq<char>>,
    begin: spec_fn(Seq<char>) -> Result<PathView, Seq<char>>,
)
    ensures
        all_begun(raws, begin) is Ok == forall|i: int|
            0 <= i < raws.len() ==> begin(#[trigger] raws[i]) is Ok,
        all_begun(raws, begin) is Ok ==> {
            let states = all_begun(raws, begin)->Ok_0;
            &&& states.len() == raws.len()
            &&& forall|i: int|
                0 <= i < raws.len() ==> Ok::<PathView, Seq<char>>(#[trigger] states[i]) == begin(
                    raws[i],
                )
        },
    decreases raws.len(),
{
    if raws.len() > 0 {
        let front = raws.drop_last();
        let last: int = raws.len() - 1;
        all_begun_one_by_one(front, begin);
        assert(raws[last] == raws.last());
        if all_begun(raws, begin) is Ok {
            assert forall|i: int| 0 <= i < raws.len() implies begin(#[trigger] raws[i]) is Ok by {
                if i < last {
                    assert(front[i] == raws[i]);
                }
            }
        }
        if forall|i: int| 0 <= i < raws.len() ==> begin(#[trigger] raws[i]) is Ok {
            assert forall|i: int| 0 <= i < front.len() implies begin(#[trigger] front[i]) is Ok by {
                assert(front[i] == raws[i]);
            }
        }
    }
}

proof fn first_that_cannot_begin_decides(
    raws: Seq<Seq<char>>,
    begin: spec_fn(Seq<char>) -> Result<PathView, Seq<char>>,
    k: int,
)
    requires
        0 <= k < raws.len(),
        begin(raws[k]) is Err,
        forall|i: int| 0 <= i < k ==> begin(#[trigger] raws[i]) is Ok,
    ensures
        all_begun(raws, begin) == Err::<Seq<PathView>, Seq<char>>(begin(raws[k])->Err_0),
    decreases raws.len(),
{
    let front = raws.drop_last();
    assert forall|i: int| 0 <= i < k && i < front.len() implies begin(#[trigger] front[i]) is Ok by {
        assert(front[i] == raws[i]);
    }
    if k < front.len() {
        first_that_cannot_begin_decides(front, begin, k);
    } else {
        all_begun_one_by_one(front, begin);
    }
}

/// A watcher that cannot start says why: what is wrong with the first path that cannot be tracked.
pub proof fn first_path_that_fails_is_named(
    raws: Seq<Seq<char>>,
    enabled: Map<Seq<Seq<char>>, bool>,
    max_line_len: nat,
    date: CalendarDate,
    snapshot: &Snapshot,
    k: int,
)
    requires
        0 <= k < raws.len(),
        watcher::fresh_path(raws[k], date, snapshot) is Err,
        forall|i: int| 0 <= i < k ==> watcher::fresh_path(#[trigger] raws[i], date, snapshot) is Ok,
    ensures
        watcher::started(raws, enabled, max_line_len, date, snapshot) == Err::<
            WatcherView,
            Seq<char>,
        >(watcher::fresh_path(raws[k], date, snapshot)->Err_0),
{
    let begin = |raw: Seq<char>| watcher::fresh_path(raw, date, snapshot);
    fresh_paths_are_begun(raws, date, snapshot);
    assert forall|i: int| 0 <= i < k implies begin(#[trigger] raws[i]) is Ok by {
        assert(watcher::fresh_path(raws[i], date, snapshot) is Ok);
    }
    first_that_cannot_begin_decides(raws, begin, k);
}

proof fn fresh_paths_are_begun(raws: Seq<Seq<char>>, date: CalendarDate, snapshot: &Snapshot)
    ensures
        watcher::fresh_paths(raws, date, snapshot) == all_begun(
            raws,
            |raw: Seq<char>| watcher::fresh_path(raw, date, snapshot),
        ),
    decreases raws.len(),
{
    if raws.len() > 0 {
        fresh_paths_are_begun(raws.drop_last(), date, snapshot);
    }
}

proof fn paths_begin_to_be_tracked(raws: Seq<Seq<char>>, date: CalendarDate, snapshot: &Snapshot)
    ensures
        watcher::fresh_paths(raws, date, snapshot) is Ok == forall|i: int|
            0 <= i < raws.len() ==> watcher::fresh_path(#[trigger] raws[i], date, snapshot) is Ok,
        watcher::fresh_paths(raws, date, snapshot) is Ok ==> {
            let states = watcher::fresh_paths(raws, date, snapshot)->Ok_0;
            &&& states.len() == raws.len()
            &&& forall|i: int|
                0 <= i < raws.len() ==> Ok::<PathView, Seq<char>>(#[trigger] states[i])
                    == watcher::fresh_path(raws[i], date, snapshot)
        },
{
    let begin = |raw: Seq<char>| watcher::fresh_path(raw, date, snapshot);
    fresh_paths_are_begun(raws, date, snapshot);
    all_begun_one_by_one(raws, begin);
    assert forall|i: int| 0 <= i < raws.len() implies begin(#[trigger] raws[i])
        == watcher::fresh_path(raws[i], date, snapshot) by {}
}

/// Switching a file brings every path up to date under the new setting and leaves the rest.
pub proof fn switching_brings_paths_up_to_date(
    view: WatcherView,
    path: Seq<char>,
    value: bool,
    date: CalendarDate,
    snapshot: &Snapshot,
)
    ensures
        ({
            let (after, error) = view.switched(path, value, date, snapshot);
            let (states, unreadable, status, failure) = watcher::synced_paths(
                view.states,
                date,
                view.enabled.insert(paths::path_components(path), value),
                snapshot,
                view.unreadable,
                view.status,
            );
            &&& error == failure
            &&& after.enabled == view.enabled.insert(paths::path_components(path), value)
            &&& after.states == states
            &&& after.unreadable == unreadable
            &&& after.status == status
            &&& after.max_line_len == view.max_line_len
        }),
{
}

/// A path is tracked where one of the tracked paths spells it in any way.
pub proof fn tracked_paths_are_told_by_any_spelling(states: Seq<PathView>, raw: Seq<char>)
    ensures
        watcher::is_tracked(states, raw) == exists|i: int|
            0 <= i < states.len() && paths::path_components((#[trigger] states[i]).raw)
                == paths::path_components(raw),
{
    if watcher::is_tracked(states, raw) {
        let i = choose|i: int|
            0 <= i < states.len() && paths::same_path(#[trigger] states[i].raw, raw);
        assert(paths::path_components(states[i].raw) == paths::path_components(raw));
    }
    if exists|i: int|
        0 <= i < states.len() && paths::path_components((#[trigger] states[i]).raw)
            == paths::path_components(raw) {
        let i = choose|i: int|
            0 <= i < states.len() && paths::path_components((#[trigger] states[i]).raw)
                == paths::path_components(raw);
        assert(paths::same_path(states[i].raw, raw));
    }
}

/// Where bringing a path up to date fails, nothing is followed for it; otherwise its files are, and
/// behind them those of other days. The warnings are given either way.
pub proof fn failed_path_follows_nothing(
    state: PathView,
    date: CalendarDate,
    enabled: Map<Seq<Seq<char>>, bool>,
    snapshot: &Snapshot,
    unreadable: Map<Seq<Seq<char>>, Seq<char>>,
    status: Seq<Seq<char>>,
)
    ensures
        ({
            let sync = state.synced(date, enabled, snapshot, unreadable, status);
            let list = resolver::resolved(state.raw, date, snapshot);
            let warnings = resolver::resolution_warnings(state.raw, date, snapshot);
            let (files, table) = watcher::followed(
                list,
                state.active,
                enabled,
                snapshot,
                watcher::without_unresolved(unreadable, state.active, list),
            );
            &&& sync.error is Some == files is Err
            &&& files is Err ==> sync.error->0 == files->Err_0
            &&& files is Err ==> sync.state.active == Seq::<FileView>::empty()
            &&& files is Ok ==> sync.state.active == files->Ok_0 + watcher::rolled_over(
                state.raw,
                state.active,
                list,
                enabled,
                snapshot,
            )
            &&& sync.state.raw == state.raw
            &&& sync.state.warned == warnings
            &&& sync.status == status + warnings.filter(
                |warning: Seq<char>| !state.warned.contains(warning),
            )
            &&& sync.unreadable == table
        }),
{
    warnings_that_were_given_are_left_out(
        resolver::resolution_warnings(state.raw, date, snapshot),
        state.warned,
    );
}

/// What is remembered of a file that is switched off is forgotten; of the others it stays.
pub proof fn reasons_of_files_switched_off_are_forgotten(
    resolved: Seq<Seq<char>>,
    active: Seq<FileView>,
    enabled: Map<Seq<Seq<char>>, bool>,
    snapshot: &Snapshot,
    unreadable: Map<Seq<Seq<char>>, Seq<char>>,
    key: Seq<Seq<char>>,
)
    requires
        watcher::followed(resolved, active, enabled, snapshot, unreadable).0 is Ok,
    ensures
        ({
            let after = watcher::followed(resolved, active, enabled, snapshot, unreadable).1;
            let off = exists|i: int|
                0 <= i < resolved.len() && paths::path_components(#[trigger] resolved[i]) == key
                    && !watcher::file_enabled(enabled, resolved[i]);
            &&& after.dom().contains(key) == (unreadable.dom().contains(key) && !off)
            &&& after.dom().contains(key) ==> after[key] == unreadable[key]
        }),
    decreases resolved.len(),
{
    if resolved.len() > 0 {
        let front = resolved.drop_last();
        let last: int = resolved.len() - 1;
        reasons_of_files_switched_off_are_forgotten(
            front,
            active,
            enabled,
            snapshot,
            unreadable,
            key,
        );
        assert(resolved[last] == resolved.last());
        if exists|i: int|
            0 <= i < front.len() && paths::path_components(#[trigger] front[i]) == key
                && !watcher::file_enabled(enabled, front[i]) {
            let i = choose|i: int|
                0 <= i < front.len() && paths::path_components(#[trigger] front[i]) == key
                    && !watcher::file_enabled(enabled, front[i]);
            assert(resolved[i] == front[i]);
        }
        if exists|i: int|
            0 <= i < resolved.len() && paths::path_components(#[trigger] resolved[i]) == key
                && !watcher::file_enabled(enabled, resolved[i]) {
            let i = choose|i: int|
                0 <= i < resolved.len() && paths::path_components(#[trigger] resolved[i]) == key
                    && !watcher::file_enabled(enabled, resolved[i]);
            if i < last {
                assert(front[i] == resolved[i]);
            }
        }
    }
}

} // verus!
