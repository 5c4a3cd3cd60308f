//! What switching a file on or off does to what is followed.

use crate::dates::CalendarDate;
use crate::paths;
use crate::resolver;
use crate::snapshot::FileStat;
use crate::snapshot::Snapshot;
use crate::snapshot::StatOutcome;
use crate::tracking;
use crate::tracking::FileView;
use crate::watcher;
use crate::watcher::PathView;
use crate::watcher::WatcherView;
use crate::watcher_laws;
use vstd::prelude::*;

verus! {

/// Every spelling of the path names a regular file.
pub open spec fn regular_file(snapshot: &Snapshot, path: Seq<char>) -> bool {
    forall|other: Seq<char>|
        paths::same_path(other, path) ==> match #[trigger] snapshot.stat_at(other) {
            StatOutcome::Found(stat) => stat.is_file,
            _ => false,
        }
}

/// A tracked path is brought up to date with the others, whatever came before it.
proof fn synced_state_at(
    states: Seq<PathView>,
    date: CalendarDate,
    enabled: Map<Seq<Seq<char>>, bool>,
    snapshot: &Snapshot,
    table: Map<Seq<Seq<char>>, Seq<char>>,
    status: Seq<Seq<char>>,
    i: int,
) -> (given: (Map<Seq<Seq<char>>, Seq<char>>, Seq<Seq<char>>))
    requires
        watcher::synced_paths(states, date, enabled, snapshot, table, status).3 is None,
        0 <= i < states.len(),
    ensures
        watcher::synced_paths(states, date, enabled, snapshot, table, status).0.len()
            == states.len(),
        states[i].synced(date, enabled, snapshot, given.0, given.1).error is None,
        watcher::synced_paths(states, date, enabled, snapshot, table, status).0[i]
            == states[i].synced(date, enabled, snapshot, given.0, given.1).state,
    decreases states.len(),
{
    let front = states.drop_last();
    let (done, unreadable, messages, error) = watcher::synced_paths(
        front,
        date,
        enabled,
        snapshot,
        table,
        status,
    );
    synced_paths_count(front, date, enabled, snapshot, table, status);
    if i < front.len() {
        synced_state_at(front, date, enabled, snapshot, table, status, i)
    } else {
        (unreadable, messages)
    }
}

proof fn synced_paths_count(
    states: Seq<PathView>,
    date: CalendarDate,
    enabled: Map<Seq<Seq<char>>, bool>,
    snapshot: &Snapshot,
    table: Map<Seq<Seq<char>>, Seq<char>>,
    status: Seq<Seq<char>>,
)
    ensures
        watcher::synced_paths(states, date, enabled, snapshot, table, status).0.len()
            == states.len(),
    decreases states.len(),
{
    if states.len() > 0 {
        synced_paths_count(states.drop_last(), date, enabled, snapshot, table, status);
    }
}

/// A file that is followed for a path is among all that are followed.
proof fn followed_file_is_among_all(states: Seq<PathView>, i: int, k: int) -> (at: int)
    requires
        0 <= i < states.len(),
        0 <= k < states[i].active.len(),
    ensures
        0 <= at < watcher::all_active(states).len(),
        watcher::all_active(states)[at] == states[i].active[k],
    decreases states.len(),
{
    let front = states.drop_last();
    if i < front.len() {
        followed_file_is_among_all(front, i, k)
    } else {
        watcher::all_active(front).len() + k
    }
}

/// A file among all that are followed is followed for a path.
proof fn followed_for_a_path(states: Seq<PathView>, at: int) -> (place: (int, int))
    requires
        0 <= at < watcher::all_active(states).len(),
    ensures
        0 <= place.0 < states.len(),
        0 <= place.1 < states[place.0].active.len(),
        states[place.0].active[place.1] == watcher::all_active(states)[at],
    decreases states.len(),
{
    let front = states.drop_last();
    if at < watcher::all_active(front).len() {
        followed_for_a_path(front, at)
    } else {
        (states.len() - 1, at - watcher::all_active(front).len())
    }
}

proof fn present_file_is_listed(files: Seq<FileView>, snapshot: &Snapshot, k: int)
    requires
        0 <= k < files.len(),
        watcher::present(snapshot.stat_at(files[k].path)),
    ensures
        watcher::present_paths(files, snapshot).contains(files[k].path),
    decreases files.len(),
{
    let front = files.drop_last();
    let before = watcher::present_paths(front, snapshot);
    let all = watcher::present_paths(files, snapshot);
    if k < front.len() {
        present_file_is_listed(front, snapshot, k);
        let j = choose|j: int| 0 <= j < before.len() && before[j] == files[k].path;
        assert(all[j] == files[k].path);
    } else {
        assert(all[all.len() - 1] == files[k].path);
    }
}

proof fn listed_file_is_followed(files: Seq<FileView>, snapshot: &Snapshot, j: int) -> (k: int)
    requires
        0 <= j < watcher::present_paths(files, snapshot).len(),
    ensures
        0 <= k < files.len(),
        files[k].path == watcher::present_paths(files, snapshot)[j],
    decreases files.len(),
{
    let front = files.drop_last();
    if j < watcher::present_paths(front, snapshot).len() {
        listed_file_is_followed(front, snapshot, j)
    } else {
        files.len() - 1
    }
}

/// Every file that is followed once the files have been brought up to date was followed before, or
/// is followed afresh.
proof fn followed_files_are_known_or_fresh(
    list: Seq<Seq<char>>,
    active: Seq<FileView>,
    enabled: Map<Seq<Seq<char>>, bool>,
    snapshot: &Snapshot,
    table: Map<Seq<Seq<char>>, Seq<char>>,
    i: int,
)
    requires
        watcher::followed(list, active, enabled, snapshot, table).0 is Ok,
        0 <= i < (watcher::followed(list, active, enabled, snapshot, table).0->Ok_0).len(),
    ensures
        ({
            let file = (watcher::followed(list, active, enabled, snapshot, table).0->Ok_0)[i];
            active.contains(file) || (list.contains(file.path) && tracking::fresh_file(
                file.path,
                snapshot.stat_at(file.path),
            ) == Ok::<FileView, Seq<char>>(file))
        }),
    decreases list.len(),
{
    let front = list.drop_last();
    let path = list.last();
    let before = watcher::followed(front, active, enabled, snapshot, table).0->Ok_0;
    let files = watcher::followed(list, active, enabled, snapshot, table).0->Ok_0;
    if i < before.len() {
        followed_files_are_known_or_fresh(front, active, enabled, snapshot, table, i);
        assert(files[i] == before[i]);
        if front.contains(files[i].path) {
            let k = choose|k: int| 0 <= k < front.len() && front[k] == files[i].path;
            assert(list[k] == files[i].path);
        }
    } else {
        watcher_laws::file_at_is_listed(active, path);
        assert(list[list.len() - 1] == path);
    }
}

proof fn synced_files_are_known_or_fresh(
    state: PathView,
    date: CalendarDate,
    enabled: Map<Seq<Seq<char>>, bool>,
    snapshot: &Snapshot,
    table: Map<Seq<Seq<char>>, Seq<char>>,
    status: Seq<Seq<char>>,
    i: int,
)
    requires
        state.synced(date, enabled, snapshot, table, status).error is None,
        0 <= i < state.synced(date, enabled, snapshot, table, status).state.active.len(),
    ensures
        ({
            let file = state.synced(date, enabled, snapshot, table, status).state.active[i];
            state.active.contains(file) || (resolver::resolved(
                state.raw,
                date,
                snapshot,
            ).contains(file.path) && tracking::fresh_file(
                file.path,
                snapshot.stat_at(file.path),
            ) == Ok::<FileView, Seq<char>>(file))
        }),
{
    let list = resolver::resolved(state.raw, date, snapshot);
    let rest = watcher::without_unresolved(table, state.active, list);
    let files = watcher::followed(list, state.active, enabled, snapshot, rest).0->Ok_0;
    if i < files.len() {
        followed_files_are_known_or_fresh(list, state.active, enabled, snapshot, rest, i);
    } else {
        watcher_laws::rolled_over_files_come_from(
            state.raw,
            state.active,
            list,
            enabled,
            snapshot,
            i - files.len(),
        );
    }
}

/// A file that a path stands for and that is switched on is followed, under some spelling.
proof fn resolved_file_is_followed(
    state: PathView,
    date: CalendarDate,
    enabled: Map<Seq<Seq<char>>, bool>,
    snapshot: &Snapshot,
    table: Map<Seq<Seq<char>>, Seq<char>>,
    status: Seq<Seq<char>>,
    path: Seq<char>,
) -> (k: int)
    requires
        state.synced(date, enabled, snapshot, table, status).error is None,
        resolver::lists_path(resolver::resolved(state.raw, date, snapshot), path),
        watcher::file_enabled(enabled, path),
    ensures
        0 <= k < state.synced(date, enabled, snapshot, table, status).state.active.len(),
        paths::same_path(
            state.synced(date, enabled, snapshot, table, status).state.active[k].path,
            path,
        ),
{
    let list = resolver::resolved(state.raw, date, snapshot);
    let after = state.synced(date, enabled, snapshot, table, status).state.active;
    let i = choose|i: int| 0 <= i < list.len() && paths::same_path(#[trigger] list[i], path);
    watcher_laws::every_resolved_file_is_followed(
        state,
        date,
        enabled,
        snapshot,
        table,
        status,
        i,
    );
    watcher_laws::file_at_is_listed(state.active, list[i]);
    let file = match watcher::file_at(state.active, list[i]) {
        Some(file) => file,
        None => tracking::fresh_file(list[i], snapshot.stat_at(list[i]))->Ok_0,
    };
    let k = choose|k: int| 0 <= k < after.len() && after[k] == file;
    k
}

/// Nothing that is followed or resolved spells the path in another way.
pub open spec fn spelled_one_way(
    states: Seq<PathView>,
    date: CalendarDate,
    snapshot: &Snapshot,
    path: Seq<char>,
) -> bool {
    &&& forall|i: int, k: int|
        0 <= i < states.len() && 0 <= k < states[i].active.len() && paths::same_path(
            (#[trigger] states[i].active[k]).path,
            path,
        ) ==> states[i].active[k].path == path
    &&& forall|i: int, other: Seq<char>|
        0 <= i < states.len() && #[trigger] resolver::resolved(
            states[i].raw,
            date,
            snapshot,
        ).contains(other) && paths::same_path(other, path) ==> other == path
}

/// Switching a file changes the setting of that file, under every spelling, and of no other.
pub proof fn switch_sets_one_file(
    view: WatcherView,
    path: Seq<char>,
    value: bool,
    date: CalendarDate,
    snapshot: &Snapshot,
    other: Seq<char>,
)
    ensures
        watcher::file_enabled(view.switched(path, value, date, snapshot).0.enabled, other) == (
        if paths::same_path(other, path) {
            value
        } else {
            watcher::file_enabled(view.enabled, other)
        }),
{
}

/// A regular file that a tracked path stands for is among the files that are followed and there
/// exactly where it is switched on.
pub proof fn switched_file_is_followed_exactly_when_on(
    view: WatcherView,
    path: Seq<char>,
    value: bool,
    date: CalendarDate,
    snapshot: &Snapshot,
    i: int,
)
    requires
        view.switched(path, value, date, snapshot).1 is None,
        regular_file(snapshot, path),
        0 <= i < view.states.len(),
        resolver::lists_path(resolver::resolved(view.states[i].raw, date, snapshot), path),
    ensures
        ({
            let after = view.switched(path, value, date, snapshot).0;
            let shown = watcher::present_paths(watcher::all_active(after.states), snapshot);
            &&& resolver::lists_path(shown, path) == value
            &&& spelled_one_way(view.states, date, snapshot, path) ==> shown.contains(path)
                == value
        }),
{
    let after = view.switched(path, value, date, snapshot).0;
    let enabled = view.enabled.insert(paths::path_components(path), value);
    let files = watcher::all_active(after.states);
    let shown = watcher::present_paths(files, snapshot);
    if value {
        let (table, status) = synced_state_at(
            view.states,
            date,
            enabled,
            snapshot,
            view.unreadable,
            view.status,
            i,
        );
        let state = view.states[i];
        let k = resolved_file_is_followed(state, date, enabled, snapshot, table, status, path);
        let file = after.states[i].active[k];
        let at = followed_file_is_among_all(after.states, i, k);
        assert(files[at] == file);
        assert(watcher::present(snapshot.stat_at(file.path)));
        present_file_is_listed(files, snapshot, at);
        let j = choose|j: int| 0 <= j < shown.len() && shown[j] == file.path;
        assert(paths::same_path(shown[j], path));
        if spelled_one_way(view.states, date, snapshot, path) {
            synced_files_are_known_or_fresh(state, date, enabled, snapshot, table, status, k);
            if state.active.contains(file) {
                let m = choose|m: int| 0 <= m < state.active.len() && state.active[m] == file;
                assert(view.states[i].active[m].path == path);
            } else {
                assert(resolver::resolved(view.states[i].raw, date, snapshot).contains(
                    file.path,
                ));
            }
            assert(file.path == path);
        }
    } else {
        watcher_laws::switching_off_ends_following(view, path, date, snapshot);
        assert forall|j: int| 0 <= j < shown.len() implies !paths::same_path(
            #[trigger] shown[j],
            path,
        ) by {
            let k = listed_file_is_followed(files, snapshot, j);
            assert(!paths::same_path(files[k].path, path));
        }
    }
}

/// A file that is switched off and then on again is followed afresh: what stands in it by then
/// counts as read, and unless the file starts over, a later poll reads on from there.
pub proof fn file_switched_on_again_is_followed_from_its_end(
    view: WatcherView,
    path: Seq<char>,
    date: CalendarDate,
    snapshot: &Snapshot,
    later: CalendarDate,
    next: &Snapshot,
    at: int,
)
    requires
        view.switched(path, false, date, snapshot).1 is None,
        view.switched(path, false, date, snapshot).0.switched(path, true, later, next).1 is None,
        ({
            let on = view.switched(path, false, date, snapshot).0.switched(
                path,
                true,
                later,
                next,
            ).0;
            &&& 0 <= at < watcher::all_active(on.states).len()
            &&& paths::same_path(watcher::all_active(on.states)[at].path, path)
        }),
    ensures
        ({
            let on = view.switched(path, false, date, snapshot).0.switched(
                path,
                true,
                later,
                next,
            ).0;
            let file = watcher::all_active(on.states)[at];
            let stat = next.stat_at(file.path);
            &&& tracking::fresh_file(file.path, stat) == Ok::<FileView, Seq<char>>(file)
            &&& file.partial == Seq::<u8>::empty()
            &&& match stat {
                StatOutcome::Found(stat) => file.offset == stat.len,
                _ => file.offset == 0,
            }
            &&& forall|grown: FileStat|
                !file.starts_over(grown) && grown.len > file.offset
                    ==> #[trigger] file.reads_from(StatOutcome::Found(grown)) == Some(file.offset)
        }),
{
    let off = view.switched(path, false, date, snapshot).0;
    let on = off.switched(path, true, later, next).0;
    let enabled = off.enabled.insert(paths::path_components(path), true);
    let file = watcher::all_active(on.states)[at];
    let (i, k) = followed_for_a_path(on.states, at);
    synced_paths_count(off.states, later, enabled, next, off.unreadable, off.status);
    let (table, status) = synced_state_at(
        off.states,
        later,
        enabled,
        next,
        off.unreadable,
        off.status,
        i,
    );
    synced_files_are_known_or_fresh(off.states[i], later, enabled, next, table, status, k);
    watcher_laws::switching_off_ends_following(view, path, date, snapshot);
    if off.states[i].active.contains(file) {
        let m = choose|m: int|
            0 <= m < off.states[i].active.len() && off.states[i].active[m] == file;
        let place = followed_file_is_among_all(off.states, i, m);
        assert(!paths::same_path(watcher::all_active(off.states)[place].path, path));
    }
}

} // verus!
