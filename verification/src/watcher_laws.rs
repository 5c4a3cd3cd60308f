//! What holds of every watcher and every poll.

use crate::dates::CalendarDate;
use crate::paths;
use crate::resolver;
use crate::snapshot::Snapshot;
use crate::tracking;
use crate::tracking::FilePoll;
use crate::tracking::FileView;
use crate::tracking::LogEventView;
use crate::watcher;
use crate::watcher::Ledger;
use crate::watcher::PathView;
use crate::watcher::WatcherView;
use vstd::prelude::*;

verus! {

/// Two snapshots answer the same of every file in the list.
pub open spec fn agree_on_files(a: &Snapshot, b: &Snapshot, files: Seq<Seq<char>>) -> bool {
    forall|i: int| 0 <= i < files.len() ==> a.stat_at(#[trigger] files[i]) == b.stat_at(files[i])
}

/// Two snapshots answer the same of every stretch in the list.
pub open spec fn agree_on_reads(a: &Snapshot, b: &Snapshot, reads: Seq<(Seq<char>, u64)>) -> bool {
    forall|i: int|
        0 <= i < reads.len() ==> a.read_at((#[trigger] reads[i]).0, reads[i].1) == b.read_at(
            reads[i].0,
            reads[i].1,
        )
}

proof fn fresh_files_agree(list: Seq<Seq<char>>, a: &Snapshot, b: &Snapshot)
    requires
        agree_on_files(a, b, list),
    ensures
        watcher::fresh_files(list, a) == watcher::fresh_files(list, b),
    decreases list.len(),
{
    if list.len() > 0 {
        let front = list.drop_last();
        assert forall|i: int| 0 <= i < front.len() implies a.stat_at(#[trigger] front[i])
            == b.stat_at(front[i]) by {
            assert(front[i] == list[i]);
        }
        fresh_files_agree(front, a, b);
        assert(a.stat_at(list[list.len() - 1]) == b.stat_at(list[list.len() - 1]));
    }
}

proof fn fresh_paths_agree(raws: Seq<Seq<char>>, date: CalendarDate, a: &Snapshot, b: &Snapshot)
    requires
        resolver::agree_on_dirs(a, b, watcher::dirs_asked(raws, date)),
        agree_on_files(a, b, watcher::all_resolved(raws, date, a)),
    ensures
        watcher::fresh_paths(raws, date, a) == watcher::fresh_paths(raws, date, b),
        watcher::all_resolved(raws, date, a) == watcher::all_resolved(raws, date, b),
    decreases raws.len(),
{
    if raws.len() > 0 {
        let front = raws.drop_last();
        let dirs = watcher::dirs_asked(raws, date);
        let dirs_front = watcher::dirs_asked(front, date);
        let dirs_last = resolver::dirs_needed(resolver::rendered(raws.last(), date));
        assert forall|i: int| 0 <= i < dirs_front.len() implies a.dir_at(#[trigger] dirs_front[i])
            == b.dir_at(dirs_front[i]) by {
            assert(dirs[i] == dirs_front[i]);
        }
        assert forall|i: int| 0 <= i < dirs_last.len() implies a.dir_at(#[trigger] dirs_last[i])
            == b.dir_at(dirs_last[i]) by {
            assert(dirs[dirs_front.len() + i] == dirs_last[i]);
        }
        let files = watcher::all_resolved(raws, date, a);
        let files_front = watcher::all_resolved(front, date, a);
        let files_last = resolver::resolved(raws.last(), date, a);
        assert forall|i: int| 0 <= i < files_front.len() implies a.stat_at(
            #[trigger] files_front[i],
        ) == b.stat_at(files_front[i]) by {
            assert(files[i] == files_front[i]);
        }
        assert forall|i: int| 0 <= i < files_last.len() implies a.stat_at(#[trigger] files_last[i])
            == b.stat_at(files_last[i]) by {
            assert(files[files_front.len() + i] == files_last[i]);
        }
        fresh_paths_agree(front, date, a, b);
        resolver::resolution_reads_needed_dirs(raws.last(), date, a, b);
        fresh_files_agree(files_last, a, b);
    }
}

/// How a watcher starts depends on nothing but the directories and files that are asked for.
pub proof fn start_depends_on_what_is_asked(
    raws: Seq<Seq<char>>,
    enabled: Map<Seq<Seq<char>>, bool>,
    max: nat,
    date: CalendarDate,
    a: &Snapshot,
    b: &Snapshot,
)
    requires
        resolver::agree_on_dirs(a, b, watcher::dirs_asked(raws, date)),
        agree_on_files(a, b, watcher::all_resolved(raws, date, a)),
    ensures
        watcher::started(raws, enabled, max, date, a) == watcher::started(
            raws,
            enabled,
            max,
            date,
            b,
        ),
{
    fresh_paths_agree(raws, date, a, b);
}

proof fn followed_agree(
    list: Seq<Seq<char>>,
    active: Seq<FileView>,
    enabled: Map<Seq<Seq<char>>, bool>,
    table: Map<Seq<Seq<char>>, Seq<char>>,
    a: &Snapshot,
    b: &Snapshot,
)
    requires
        agree_on_files(a, b, list),
    ensures
        watcher::followed(list, active, enabled, a, table) == watcher::followed(
            list,
            active,
            enabled,
            b,
            table,
        ),
    decreases list.len(),
{
    if list.len() > 0 {
        let front = list.drop_last();
        assert forall|i: int| 0 <= i < front.len() implies a.stat_at(#[trigger] front[i])
            == b.stat_at(front[i]) by {
            assert(front[i] == list[i]);
        }
        followed_agree(front, active, enabled, table, a, b);
        assert(a.stat_at(list[list.len() - 1]) == b.stat_at(list[list.len() - 1]));
    }
}

proof fn rolled_over_agree(
    raw: Seq<char>,
    active: Seq<FileView>,
    list: Seq<Seq<char>>,
    enabled: Map<Seq<Seq<char>>, bool>,
    a: &Snapshot,
    b: &Snapshot,
)
    requires
        agree_on_files(a, b, watcher::file_paths(active)),
    ensures
        watcher::rolled_over(raw, active, list, enabled, a) == watcher::rolled_over(
            raw,
            active,
            list,
            enabled,
            b,
        ),
    decreases active.len(),
{
    if active.len() > 0 {
        let front = active.drop_last();
        let all = watcher::file_paths(active);
        let some = watcher::file_paths(front);
        assert forall|i: int| 0 <= i < some.len() implies a.stat_at(#[trigger] some[i])
            == b.stat_at(some[i]) by {
            assert(some[i] == all[i]);
        }
        rolled_over_agree(raw, front, list, enabled, a, b);
        assert(all[active.len() - 1] == active.last().path);
    }
}

/// The path of the file that is found is that of a file of the list.
pub proof fn file_at_is_listed(active: Seq<FileView>, path: Seq<char>)
    ensures
        match watcher::file_at(active, path) {
            Some(file) => active.contains(file) && paths::same_path(file.path, path),
            None => !resolver::lists_path(watcher::file_paths(active), path),
        },
    decreases active.len(),
{
    if active.len() > 0 {
        if paths::same_path(active[0].path, path) {
            assert(active.contains(active[0]));
        } else {
            let rest = active.skip(1);
            file_at_is_listed(rest, path);
            match watcher::file_at(rest, path) {
                Some(file) => {
                    let i = choose|i: int| 0 <= i < rest.len() && rest[i] == file;
                    assert(active[i + 1] == file);
                },
                None => {
                    if resolver::lists_path(watcher::file_paths(active), path) {
                        let i = choose|i: int|
                            0 <= i < active.len() && paths::same_path(
                                #[trigger] watcher::file_paths(active)[i],
                                path,
                            );
                        assert(i > 0);
                        assert(watcher::file_paths(rest)[i - 1] == watcher::file_paths(active)[i]);
                    }
                },
            }
        }
    }
}

/// Every file that is followed for the resolved paths is at one of them, as it is spelled there or
/// as it was spelled before, and is switched on.
pub proof fn followed_files_come_from(
    list: Seq<Seq<char>>,
    active: Seq<FileView>,
    enabled: Map<Seq<Seq<char>>, bool>,
    snapshot: &Snapshot,
    table: Map<Seq<Seq<char>>, Seq<char>>,
    i: int,
)
    requires
        watcher::followed(list, active, enabled, snapshot, table).0 is Ok,
        0 <= i < (watcher::followed(list, active, enabled, snapshot, table).0->Ok_0).len(),
    ensures
        ({
            let file = (watcher::followed(list, active, enabled, snapshot, table).0->Ok_0)[i];
            &&& list.contains(file.path) || active.contains(file)
            &&& resolver::lists_path(list, file.path)
            &&& watcher::file_enabled(enabled, file.path)
        }),
    decreases list.len(),
{
    let front = list.drop_last();
    let before = watcher::followed(front, active, enabled, snapshot, table).0->Ok_0;
    let files = watcher::followed(list, active, enabled, snapshot, table).0->Ok_0;
    let last = list.last();
    assert(list[list.len() - 1] == last);
    if i < before.len() {
        followed_files_come_from(front, active, enabled, snapshot, table, i);
        assert(before[i] == files[i]);
        if front.contains(before[i].path) {
            let k = choose|k: int| 0 <= k < front.len() && front[k] == before[i].path;
            assert(list[k] == before[i].path);
        }
        let k = choose|k: int|
            0 <= k < front.len() && paths::same_path(#[trigger] front[k], before[i].path);
        assert(paths::same_path(list[k], before[i].path));
    } else {
        file_at_is_listed(active, last);
        assert(paths::same_path(list[list.len() - 1], files[i].path));
    }
}

/// Every file that is followed on from an earlier date was followed before, is no longer one of the
/// resolved paths and is switched on.
pub proof fn rolled_over_files_come_from(
    raw: Seq<char>,
    active: Seq<FileView>,
    list: Seq<Seq<char>>,
    enabled: Map<Seq<Seq<char>>, bool>,
    snapshot: &Snapshot,
    i: int,
)
    requires
        0 <= i < watcher::rolled_over(raw, active, list, enabled, snapshot).len(),
    ensures
        ({
            let file = watcher::rolled_over(raw, active, list, enabled, snapshot)[i];
            &&& active.contains(file)
            &&& !resolver::lists_path(list, file.path)
            &&& watcher::file_enabled(enabled, file.path)
        }),
    decreases active.len(),
{
    let front = active.drop_last();
    let before = watcher::rolled_over(raw, front, list, enabled, snapshot);
    if i < before.len() {
        rolled_over_files_come_from(raw, front, list, enabled, snapshot, i);
        let k = choose|k: int| 0 <= k < front.len() && front[k] == before[i];
        assert(active[k] == before[i]);
    } else {
        assert(active[active.len() - 1] == active.last());
    }
}

/// No file that is switched off is followed once the followed files have been brought up to date.
pub proof fn switched_off_files_are_not_followed(
    state: PathView,
    date: CalendarDate,
    enabled: Map<Seq<Seq<char>>, bool>,
    snapshot: &Snapshot,
    table: Map<Seq<Seq<char>>, Seq<char>>,
    status: Seq<Seq<char>>,
    i: int,
)
    requires
        0 <= i < state.synced(date, enabled, snapshot, table, status).state.active.len(),
    ensures
        watcher::file_enabled(
            enabled,
            state.synced(date, enabled, snapshot, table, status).state.active[i].path,
        ),
{
    let list = resolver::resolved(state.raw, date, snapshot);
    let rest = watcher::without_unresolved(table, state.active, list);
    let files = watcher::followed(list, state.active, enabled, snapshot, rest).0->Ok_0;
    if i < files.len() {
        followed_files_come_from(list, state.active, enabled, snapshot, rest, i);
    } else {
        rolled_over_files_come_from(
            state.raw,
            state.active,
            list,
            enabled,
            snapshot,
            i - files.len(),
        );
    }
}

proof fn followed_files_differ(
    list: Seq<Seq<char>>,
    active: Seq<FileView>,
    enabled: Map<Seq<Seq<char>>, bool>,
    snapshot: &Snapshot,
    table: Map<Seq<Seq<char>>, Seq<char>>,
)
    requires
        resolver::paths_differ(list),
        watcher::followed(list, active, enabled, snapshot, table).0 is Ok,
    ensures
        resolver::paths_differ(
            watcher::file_paths(watcher::followed(list, active, enabled, snapshot, table).0->Ok_0),
        ),
    decreases list.len(),
{
    if list.len() > 0 {
        let front = list.drop_last();
        let last = list.last();
        let before = watcher::followed(front, active, enabled, snapshot, table).0->Ok_0;
        let files = watcher::followed(list, active, enabled, snapshot, table).0->Ok_0;
        assert forall|i: int, j: int| 0 <= i < j < front.len() implies !paths::same_path(
            #[trigger] front[i],
            #[trigger] front[j],
        ) by {
            assert(front[i] == list[i] && front[j] == list[j]);
        }
        followed_files_differ(front, active, enabled, snapshot, table);
        file_at_is_listed(active, last);
        let known = watcher::file_paths(before);
        let all = watcher::file_paths(files);
        assert forall|i: int, j: int| 0 <= i < j < all.len() implies !paths::same_path(
            #[trigger] all[i],
            #[trigger] all[j],
        ) by {
            assert(all[i] == known[i]);
            if j < before.len() {
                assert(all[j] == known[j]);
            } else {
                followed_files_come_from(front, active, enabled, snapshot, table, i);
                let k = choose|k: int|
                    0 <= k < front.len() && paths::same_path(#[trigger] front[k], before[i].path);
                assert(front[k] == list[k]);
                assert(!paths::same_path(list[k], list[list.len() - 1]));
                assert(paths::same_path(files[j].path, last));
            }
        }
    }
}

proof fn rolled_over_files_differ(
    raw: Seq<char>,
    active: Seq<FileView>,
    list: Seq<Seq<char>>,
    enabled: Map<Seq<Seq<char>>, bool>,
    snapshot: &Snapshot,
)
    requires
        resolver::paths_differ(watcher::file_paths(active)),
    ensures
        resolver::paths_differ(
            watcher::file_paths(watcher::rolled_over(raw, active, list, enabled, snapshot)),
        ),
    decreases active.len(),
{
    if active.len() > 0 {
        let front = active.drop_last();
        let paths_before = watcher::file_paths(active);
        let paths_front = watcher::file_paths(front);
        assert forall|i: int, j: int| 0 <= i < j < paths_front.len() implies !paths::same_path(
            #[trigger] paths_front[i],
            #[trigger] paths_front[j],
        ) by {
            assert(paths_front[i] == paths_before[i] && paths_front[j] == paths_before[j]);
        }
        rolled_over_files_differ(raw, front, list, enabled, snapshot);
        let before = watcher::rolled_over(raw, front, list, enabled, snapshot);
        let files = watcher::rolled_over(raw, active, list, enabled, snapshot);
        let known = watcher::file_paths(before);
        let all = watcher::file_paths(files);
        assert forall|i: int, j: int| 0 <= i < j < all.len() implies !paths::same_path(
            #[trigger] all[i],
            #[trigger] all[j],
        ) by {
            assert(all[i] == known[i]);
            if j < before.len() {
                assert(all[j] == known[j]);
            } else {
                rolled_over_files_come_from(raw, front, list, enabled, snapshot, i);
                let k = choose|k: int| 0 <= k < front.len() && front[k] == before[i];
                assert(paths_before[k] == before[i].path);
                assert(paths_before[active.len() - 1] == files[j].path);
                assert(!paths::same_path(paths_before[k], paths_before[active.len() - 1]));
            }
        }
    }
}

/// Where no file was followed twice for a path, none is once the followed files have been brought
/// up to date.
pub proof fn files_are_followed_once(
    state: PathView,
    date: CalendarDate,
    enabled: Map<Seq<Seq<char>>, bool>,
    snapshot: &Snapshot,
    table: Map<Seq<Seq<char>>, Seq<char>>,
    status: Seq<Seq<char>>,
)
    requires
        resolver::paths_differ(watcher::file_paths(state.active)),
    ensures
        resolver::paths_differ(
            watcher::file_paths(
                state.synced(date, enabled, snapshot, table, status).state.active,
            ),
        ),
{
    let list = resolver::resolved(state.raw, date, snapshot);
    let rest = watcher::without_unresolved(table, state.active, list);
    resolver::resolved_paths_differ(state.raw, date, snapshot);
    let outcome = watcher::followed(list, state.active, enabled, snapshot, rest).0;
    if outcome is Ok {
        let files = outcome->Ok_0;
        let older = watcher::rolled_over(state.raw, state.active, list, enabled, snapshot);
        followed_files_differ(list, state.active, enabled, snapshot, rest);
        rolled_over_files_differ(state.raw, state.active, list, enabled, snapshot);
        let all = watcher::file_paths(files + older);
        assert forall|i: int, j: int| 0 <= i < j < all.len() implies !paths::same_path(
            #[trigger] all[i],
            #[trigger] all[j],
        ) by {
            if j < files.len() {
                assert(all[i] == watcher::file_paths(files)[i]);
                assert(all[j] == watcher::file_paths(files)[j]);
            } else if i >= files.len() {
                assert(all[i] == watcher::file_paths(older)[i - files.len()]);
                assert(all[j] == watcher::file_paths(older)[j - files.len()]);
            } else {
                followed_files_come_from(list, state.active, enabled, snapshot, rest, i);
                rolled_over_files_come_from(
                    state.raw,
                    state.active,
                    list,
                    enabled,
                    snapshot,
                    j - files.len(),
                );
                if paths::same_path(all[i], all[j]) {
                    let k = choose|k: int|
                        0 <= k < list.len() && paths::same_path(#[trigger] list[k], files[i].path);
                    assert(paths::same_path(list[k], all[j]));
                }
            }
        }
    }
}

/// A path that is newly tracked follows no file twice.
pub proof fn fresh_files_differ(raw: Seq<char>, date: CalendarDate, snapshot: &Snapshot)
    requires
        watcher::fresh_path(raw, date, snapshot) is Ok,
    ensures
        resolver::paths_differ(
            watcher::file_paths((watcher::fresh_path(raw, date, snapshot)->Ok_0).active),
        ),
{
    let list = resolver::resolved(raw, date, snapshot);
    resolver::resolved_paths_differ(raw, date, snapshot);
    fresh_files_paths(list, snapshot);
}

proof fn fresh_files_paths(list: Seq<Seq<char>>, snapshot: &Snapshot)
    requires
        watcher::fresh_files(list, snapshot) is Ok,
    ensures
        watcher::file_paths(watcher::fresh_files(list, snapshot)->Ok_0) == list,
    decreases list.len(),
{
    let files = watcher::fresh_files(list, snapshot)->Ok_0;
    if list.len() > 0 {
        fresh_files_paths(list.drop_last(), snapshot);
        let front = watcher::fresh_files(list.drop_last(), snapshot)->Ok_0;
        assert(watcher::file_paths(files) =~= watcher::file_paths(front).push(list.last()));
        assert(list.drop_last().push(list.last()) =~= list);
    } else {
        assert(watcher::file_paths(files) =~= list);
    }
}

/// A poll of files changes no path, and so follows none twice that was followed once.
pub proof fn polled_files_keep_paths(
    files: Seq<FileView>,
    snapshot: &Snapshot,
    max: nat,
    now: i64,
    start: Ledger,
)
    ensures
        watcher::file_paths(watcher::polled_files(files, snapshot, max, now, start).0)
            == watcher::file_paths(files),
    decreases files.len(),
{
    if files.len() > 0 {
        polled_files_keep_paths(files.drop_last(), snapshot, max, now, start);
        let front = watcher::polled_files(files.drop_last(), snapshot, max, now, start).0;
        let all = watcher::polled_files(files, snapshot, max, now, start).0;
        assert(watcher::file_paths(all) =~= watcher::file_paths(front).push(files.last().path));
        assert(watcher::file_paths(files) =~= watcher::file_paths(files.drop_last()).push(
            files.last().path,
        ));
    } else {
        assert(watcher::file_paths(
            watcher::polled_files(files, snapshot, max, now, start).0,
        ) =~= watcher::file_paths(files));
    }
}

/// Where no file was followed twice for a path, none is after a poll.
pub proof fn poll_follows_files_once(
    state: PathView,
    date: CalendarDate,
    enabled: Map<Seq<Seq<char>>, bool>,
    snapshot: &Snapshot,
    max: nat,
    now: i64,
    start: Ledger,
)
    requires
        resolver::paths_differ(watcher::file_paths(state.active)),
    ensures
        resolver::paths_differ(
            watcher::file_paths(
                state.polled(date, enabled, snapshot, max, now, start).state.active,
            ),
        ),
{
    files_are_followed_once(state, date, enabled, snapshot, start.unreadable, start.status);
    let sync = state.synced(date, enabled, snapshot, start.unreadable, start.status);
    let ledger = Ledger { events: start.events, unreadable: sync.unreadable, status: sync.status };
    polled_files_keep_paths(sync.state.active, snapshot, max, now, ledger);
}

proof fn enabled_files_come_from(
    files: Seq<FileView>,
    enabled: Map<Seq<Seq<char>>, bool>,
    i: int,
)
    requires
        0 <= i < watcher::enabled_files(files, enabled).len(),
    ensures
        files.contains(watcher::enabled_files(files, enabled)[i]),
    decreases files.len(),
{
    let front = watcher::enabled_files(files.drop_last(), enabled);
    if i < front.len() {
        enabled_files_come_from(files.drop_last(), enabled, i);
        let k = choose|k: int|
            0 <= k < files.drop_last().len() && files.drop_last()[k] == front[i];
        assert(files[k] == front[i]);
    } else {
        assert(files[files.len() - 1] == files.last());
    }
}

proof fn enabled_files_differ(files: Seq<FileView>, enabled: Map<Seq<Seq<char>>, bool>)
    requires
        resolver::paths_differ(watcher::file_paths(files)),
    ensures
        resolver::paths_differ(watcher::file_paths(watcher::enabled_files(files, enabled))),
    decreases files.len(),
{
    if files.len() > 0 {
        let front = files.drop_last();
        let paths_all = watcher::file_paths(files);
        let paths_front = watcher::file_paths(front);
        assert forall|i: int, j: int| 0 <= i < j < paths_front.len() implies !paths::same_path(
            #[trigger] paths_front[i],
            #[trigger] paths_front[j],
        ) by {
            assert(paths_front[i] == paths_all[i] && paths_front[j] == paths_all[j]);
        }
        enabled_files_differ(front, enabled);
        let before = watcher::enabled_files(front, enabled);
        let kept = watcher::enabled_files(files, enabled);
        let known = watcher::file_paths(before);
        let all = watcher::file_paths(kept);
        assert forall|i: int, j: int| 0 <= i < j < all.len() implies !paths::same_path(
            #[trigger] all[i],
            #[trigger] all[j],
        ) by {
            assert(all[i] == known[i]);
            if j < before.len() {
                assert(all[j] == known[j]);
            } else {
                enabled_files_come_from(front, enabled, i);
                let k = choose|k: int| 0 <= k < front.len() && front[k] == before[i];
                assert(paths_all[k] == before[i].path);
                assert(paths_all[files.len() - 1] == kept[j].path);
                assert(!paths::same_path(paths_all[k], paths_all[files.len() - 1]));
            }
        }
    }
}

proof fn fresh_states_follow_once(raws: Seq<Seq<char>>, date: CalendarDate, snapshot: &Snapshot)
    requires
        watcher::fresh_paths(raws, date, snapshot) is Ok,
    ensures
        watcher::follow_once(watcher::fresh_paths(raws, date, snapshot)->Ok_0),
    decreases raws.len(),
{
    if raws.len() > 0 {
        fresh_states_follow_once(raws.drop_last(), date, snapshot);
        fresh_files_differ(raws.last(), date, snapshot);
        let front = watcher::fresh_paths(raws.drop_last(), date, snapshot)->Ok_0;
        let all = watcher::fresh_paths(raws, date, snapshot)->Ok_0;
        assert forall|i: int| 0 <= i < all.len() implies resolver::paths_differ(
            watcher::file_paths((#[trigger] all[i]).active),
        ) by {
            if i < front.len() {
                assert(all[i] == front[i]);
            }
        }
    }
}

/// A watcher that starts follows no file twice for a path.
pub proof fn started_watcher_follows_files_once(
    raws: Seq<Seq<char>>,
    enabled: Map<Seq<Seq<char>>, bool>,
    max: nat,
    date: CalendarDate,
    snapshot: &Snapshot,
)
    requires
        watcher::started(raws, enabled, max, date, snapshot) is Ok,
    ensures
        (watcher::started(raws, enabled, max, date, snapshot)->Ok_0).wf(),
{
    let fresh = watcher::fresh_paths(raws, date, snapshot)->Ok_0;
    let states = (watcher::started(raws, enabled, max, date, snapshot)->Ok_0).states;
    fresh_states_follow_once(raws, date, snapshot);
    assert forall|i: int| 0 <= i < states.len() implies resolver::paths_differ(
        watcher::file_paths((#[trigger] states[i]).active),
    ) by {
        assert(resolver::paths_differ(watcher::file_paths(fresh[i].active)));
        enabled_files_differ(fresh[i].active, enabled);
    }
}

proof fn polled_states_follow_once(
    states: Seq<PathView>,
    date: CalendarDate,
    enabled: Map<Seq<Seq<char>>, bool>,
    snapshot: &Snapshot,
    max: nat,
    now: i64,
    start: Ledger,
)
    requires
        watcher::follow_once(states),
    ensures
        watcher::follow_once(
            watcher::polled_paths(states, date, enabled, snapshot, max, now, start).0,
        ),
    decreases states.len(),
{
    if states.len() > 0 {
        let front = states.drop_last();
        assert forall|i: int| 0 <= i < front.len() implies resolver::paths_differ(
            watcher::file_paths((#[trigger] front[i]).active),
        ) by {
            assert(front[i] == states[i]);
        }
        polled_states_follow_once(front, date, enabled, snapshot, max, now, start);
        let (done, ledger, error) = watcher::polled_paths(
            front,
            date,
            enabled,
            snapshot,
            max,
            now,
            start,
        );
        let all = watcher::polled_paths(states, date, enabled, snapshot, max, now, start).0;
        let last = states[states.len() - 1];
        assert(resolver::paths_differ(watcher::file_paths(last.active)));
        poll_follows_files_once(last, date, enabled, snapshot, max, now, ledger);
        assert forall|i: int| 0 <= i < all.len() implies resolver::paths_differ(
            watcher::file_paths((#[trigger] all[i]).active),
        ) by {
            if i < done.len() {
                assert(all[i] == done[i]);
            }
        }
    }
}

/// A poll keeps it so that no file is followed twice for a path.
pub proof fn polled_watcher_follows_files_once(
    view: WatcherView,
    date: CalendarDate,
    snapshot: &Snapshot,
    now: i64,
)
    requires
        view.wf(),
    ensures
        view.polled(date, snapshot, now).watcher.wf(),
{
    polled_states_follow_once(
        view.states,
        date,
        view.enabled,
        snapshot,
        view.max_line_len,
        now,
        (Ledger { events: seq![], unreadable: view.unreadable, status: seq![] }),
    );
}

proof fn synced_states_follow_once(
    states: Seq<PathView>,
    date: CalendarDate,
    enabled: Map<Seq<Seq<char>>, bool>,
    snapshot: &Snapshot,
    table: Map<Seq<Seq<char>>, Seq<char>>,
    status: Seq<Seq<char>>,
)
    requires
        watcher::follow_once(states),
    ensures
        watcher::follow_once(
            watcher::synced_paths(states, date, enabled, snapshot, table, status).0,
        ),
    decreases states.len(),
{
    if states.len() > 0 {
        let front = states.drop_last();
        assert forall|i: int| 0 <= i < front.len() implies resolver::paths_differ(
            watcher::file_paths((#[trigger] front[i]).active),
        ) by {
            assert(front[i] == states[i]);
        }
        synced_states_follow_once(front, date, enabled, snapshot, table, status);
        let (done, unreadable, messages, error) = watcher::synced_paths(
            front,
            date,
            enabled,
            snapshot,
            table,
            status,
        );
        let all = watcher::synced_paths(states, date, enabled, snapshot, table, status).0;
        let last = states[states.len() - 1];
        assert(resolver::paths_differ(watcher::file_paths(last.active)));
        files_are_followed_once(last, date, enabled, snapshot, unreadable, messages);
        assert forall|i: int| 0 <= i < all.len() implies resolver::paths_differ(
            watcher::file_paths((#[trigger] all[i]).active),
        ) by {
            if i < done.len() {
                assert(all[i] == done[i]);
            }
        }
    }
}

/// Switching a file on or off keeps it so that no file is followed twice for a path.
pub proof fn switched_watcher_follows_files_once(
    view: WatcherView,
    path: Seq<char>,
    value: bool,
    date: CalendarDate,
    snapshot: &Snapshot,
)
    requires
        view.wf(),
    ensures
        view.switched(path, value, date, snapshot).0.wf(),
{
    synced_states_follow_once(
        view.states,
        date,
        view.enabled.insert(paths::path_components(path), value),
        snapshot,
        view.unreadable,
        view.status,
    );
}

/// A file that fails twice for the same reason is named once.
pub proof fn same_failure_is_reported_once(
    ledger: Ledger,
    file: FileView,
    first: FilePoll,
    second: FilePoll,
    now: i64,
    later: i64,
)
    requires
        first.error is Some,
        second.error == first.error,
    ensures
        ledger.entered(file, first, now).entered(file, second, later).status == ledger.entered(
            file,
            first,
            now,
        ).status,
{
}

/// A file that failed and can be read again is named once more, and then no longer.
pub proof fn recovery_is_reported_once(
    ledger: Ledger,
    file: FileView,
    failed: FilePoll,
    read: FilePoll,
    now: i64,
)
    requires
        failed.error is Some,
        read.error is None,
    ensures
        ({
            let after = ledger.entered(file, failed, now);
            let again = after.entered(file, read, now);
            &&& again.status == after.status.push("File readable again: "@ + file.path)
            &&& again.entered(file, read, now).status == again.status
        }),
{
}

/// Of the warnings, those are new that were not given before: all of them, and no others.
pub proof fn new_warnings_were_not_given(
    warnings: Seq<Seq<char>>,
    warned: Seq<Seq<char>>,
    warning: Seq<char>,
)
    ensures
        watcher::new_warnings(warnings, warned).contains(warning) == (warnings.contains(warning)
            && !warned.contains(warning)),
    decreases warnings.len(),
{
    if warnings.len() > 0 {
        let front = warnings.drop_last();
        let before = watcher::new_warnings(front, warned);
        let after = watcher::new_warnings(warnings, warned);
        new_warnings_were_not_given(front, warned, warning);
        if warnings.contains(warning) && !front.contains(warning) {
            let i = choose|i: int| 0 <= i < warnings.len() && warnings[i] == warning;
            if i < front.len() {
                assert(front[i] == warning);
            }
            assert(warnings.last() == warning);
            if !warned.contains(warning) {
                assert(after[after.len() - 1] == warning);
            }
        }
        if front.contains(warning) {
            let i = choose|i: int| 0 <= i < front.len() && front[i] == warning;
            assert(warnings[i] == warning);
            if !warned.contains(warning) {
                let k = choose|k: int| 0 <= k < before.len() && before[k] == warning;
                assert(after[k] == warning);
            }
        }
        if after.contains(warning) && !before.contains(warning) {
            let k = choose|k: int| 0 <= k < after.len() && after[k] == warning;
            if k < before.len() {
                assert(before[k] == warning);
            }
            assert(warnings[warnings.len() - 1] == warning);
        }
    }
}

/// A warning is given once while it lasts, and once more where it was absent and comes back.
pub proof fn returning_warning_is_given_again(
    first: Seq<Seq<char>>,
    second: Seq<Seq<char>>,
    warning: Seq<char>,
)
    requires
        first.contains(warning),
        !second.contains(warning),
    ensures
        watcher::new_warnings(first, first) == Seq::<Seq<char>>::empty(),
        watcher::new_warnings(first, second).contains(warning),
{
    assert forall|i: int| 0 <= i < first.len() implies first.contains(#[trigger] first[i]) by {}
    known_warnings_are_not_new(first, first);
    new_warnings_were_not_given(first, second, warning);
}

/// Warnings that were all given before are not new.
pub proof fn known_warnings_are_not_new(warnings: Seq<Seq<char>>, warned: Seq<Seq<char>>)
    requires
        forall|i: int| 0 <= i < warnings.len() ==> warned.contains(#[trigger] warnings[i]),
    ensures
        watcher::new_warnings(warnings, warned) == Seq::<Seq<char>>::empty(),
    decreases warnings.len(),
{
    if warnings.len() > 0 {
        let front = warnings.drop_last();
        assert forall|i: int| 0 <= i < front.len() implies warned.contains(#[trigger] front[i]) by {
            assert(front[i] == warnings[i]);
        }
        known_warnings_are_not_new(front, warned);
        assert(warned.contains(warnings[warnings.len() - 1]));
    }
}

/// A warning is given once for as long as it lasts: where nothing has changed, a second look gives
/// none.
pub proof fn lasting_warning_is_given_once(
    state: PathView,
    date: CalendarDate,
    enabled: Map<Seq<Seq<char>>, bool>,
    snapshot: &Snapshot,
    table: Map<Seq<Seq<char>>, Seq<char>>,
    status: Seq<Seq<char>>,
)
    ensures
        ({
            let first = state.synced(date, enabled, snapshot, table, status);
            let second = first.state.synced(
                date,
                enabled,
                snapshot,
                first.unreadable,
                first.status,
            );
            second.status == first.status
        }),
{
    let warnings = resolver::resolution_warnings(state.raw, date, snapshot);
    let first = state.synced(date, enabled, snapshot, table, status);
    assert forall|i: int| 0 <= i < warnings.len() implies warnings.contains(
        #[trigger] warnings[i],
    ) by {}
    known_warnings_are_not_new(warnings, warnings);
    assert(first.status + Seq::<Seq<char>>::empty() =~= first.status);
}

proof fn next_files_are_asked_for(
    state: PathView,
    date: CalendarDate,
    enabled: Map<Seq<Seq<char>>, bool>,
    snapshot: &Snapshot,
    i: int,
)
    requires
        0 <= i < watcher::next_files(state, date, enabled, snapshot).len(),
    ensures
        ({
            let path = watcher::next_files(state, date, enabled, snapshot)[i].path;
            resolver::resolved(state.raw, date, snapshot).contains(path) || watcher::file_paths(
                state.active,
            ).contains(path)
        }),
{
    let list = resolver::resolved(state.raw, date, snapshot);
    let rest = watcher::without_unresolved(Map::empty(), state.active, list);
    let files = watcher::followed(list, state.active, enabled, snapshot, rest).0->Ok_0;
    let file = watcher::next_files(state, date, enabled, snapshot)[i];
    if i < files.len() {
        followed_files_come_from(list, state.active, enabled, snapshot, rest, i);
    } else {
        rolled_over_files_come_from(
            state.raw,
            state.active,
            list,
            enabled,
            snapshot,
            i - files.len(),
        );
    }
    if state.active.contains(file) {
        let k = choose|k: int| 0 <= k < state.active.len() && state.active[k] == file;
        assert(watcher::file_paths(state.active)[k] == file.path);
    }
}

/// Bringing the followed files up to date depends on nothing but what is asked for; and which files
/// are followed depends on neither table nor messages.
pub proof fn synced_agree(
    state: PathView,
    date: CalendarDate,
    enabled: Map<Seq<Seq<char>>, bool>,
    table: Map<Seq<Seq<char>>, Seq<char>>,
    status: Seq<Seq<char>>,
    a: &Snapshot,
    b: &Snapshot,
)
    requires
        resolver::agree_on_dirs(a, b, resolver::dirs_needed(resolver::rendered(state.raw, date))),
        agree_on_files(a, b, resolver::resolved(state.raw, date, a)),
        agree_on_files(a, b, watcher::file_paths(state.active)),
    ensures
        state.synced(date, enabled, a, table, status) == state.synced(
            date,
            enabled,
            b,
            table,
            status,
        ),
        state.synced(date, enabled, a, table, status).state.active == watcher::next_files(
            state,
            date,
            enabled,
            a,
        ),
{
    resolver::resolution_reads_needed_dirs(state.raw, date, a, b);
    let list = resolver::resolved(state.raw, date, a);
    let rest = watcher::without_unresolved(table, state.active, list);
    followed_agree(list, state.active, enabled, rest, a, b);
    rolled_over_agree(state.raw, state.active, list, enabled, a, b);
    watcher::followed_ignores_table(
        list,
        state.active,
        enabled,
        a,
        rest,
        watcher::without_unresolved(Map::empty(), state.active, list),
    );
}

proof fn polled_files_agree(
    files: Seq<FileView>,
    max: nat,
    now: i64,
    start: Ledger,
    a: &Snapshot,
    b: &Snapshot,
)
    requires
        agree_on_files(a, b, watcher::file_paths(files)),
        agree_on_reads(a, b, watcher::reads_of(files, a)),
    ensures
        watcher::polled_files(files, a, max, now, start) == watcher::polled_files(
            files,
            b,
            max,
            now,
            start,
        ),
    decreases files.len(),
{
    if files.len() > 0 {
        let front = files.drop_last();
        let all = watcher::file_paths(files);
        let some = watcher::file_paths(front);
        let reads = watcher::reads_of(files, a);
        let reads_front = watcher::reads_of(front, a);
        assert forall|i: int| 0 <= i < some.len() implies a.stat_at(#[trigger] some[i])
            == b.stat_at(some[i]) by {
            assert(some[i] == all[i]);
        }
        assert forall|i: int| 0 <= i < reads_front.len() implies a.read_at(
            (#[trigger] reads_front[i]).0,
            reads_front[i].1,
        ) == b.read_at(reads_front[i].0, reads_front[i].1) by {
            assert(reads[i] == reads_front[i]);
        }
        polled_files_agree(front, max, now, start, a, b);
        let last = files.last();
        assert(all[files.len() - 1] == last.path);
        match last.reads_from(a.stat_at(last.path)) {
            Some(offset) => {
                assert(reads[reads_front.len() as int] == (last.path, offset));
            },
            None => {},
        }
    }
}

proof fn polled_agree(
    state: PathView,
    date: CalendarDate,
    enabled: Map<Seq<Seq<char>>, bool>,
    max: nat,
    now: i64,
    start: Ledger,
    a: &Snapshot,
    b: &Snapshot,
)
    requires
        resolver::agree_on_dirs(a, b, resolver::dirs_needed(resolver::rendered(state.raw, date))),
        agree_on_files(a, b, resolver::resolved(state.raw, date, a)),
        agree_on_files(a, b, watcher::file_paths(state.active)),
        agree_on_reads(
            a,
            b,
            watcher::reads_of(watcher::next_files(state, date, enabled, a), a),
        ),
    ensures
        state.polled(date, enabled, a, max, now, start) == state.polled(
            date,
            enabled,
            b,
            max,
            now,
            start,
        ),
{
    synced_agree(state, date, enabled, start.unreadable, start.status, a, b);
    let files = watcher::next_files(state, date, enabled, a);
    let sync = state.synced(date, enabled, a, start.unreadable, start.status);
    let ledger = Ledger { events: start.events, unreadable: sync.unreadable, status: sync.status };
    let all = watcher::file_paths(files);
    let list = resolver::resolved(state.raw, date, a);
    let known = watcher::file_paths(state.active);
    assert forall|i: int| 0 <= i < all.len() implies a.stat_at(#[trigger] all[i]) == b.stat_at(
        all[i],
    ) by {
        next_files_are_asked_for(state, date, enabled, a, i);
        assert(all[i] == files[i].path);
        if list.contains(all[i]) {
            let k = choose|k: int| 0 <= k < list.len() && list[k] == all[i];
            assert(a.stat_at(list[k]) == b.stat_at(list[k]));
        } else {
            let k = choose|k: int| 0 <= k < known.len() && known[k] == all[i];
            assert(a.stat_at(known[k]) == b.stat_at(known[k]));
        }
    }
    polled_files_agree(files, max, now, ledger, a, b);
}

proof fn polled_paths_agree(
    states: Seq<PathView>,
    date: CalendarDate,
    enabled: Map<Seq<Seq<char>>, bool>,
    max: nat,
    now: i64,
    start: Ledger,
    a: &Snapshot,
    b: &Snapshot,
)
    requires
        resolver::agree_on_dirs(a, b, watcher::dirs_asked(watcher::raw_paths_of(states), date)),
        agree_on_files(a, b, watcher::all_resolved(watcher::raw_paths_of(states), date, a)),
        agree_on_files(a, b, watcher::file_paths(watcher::all_active(states))),
        agree_on_reads(a, b, watcher::reads_asked(states, date, enabled, a)),
    ensures
        watcher::polled_paths(states, date, enabled, a, max, now, start) == watcher::polled_paths(
            states,
            date,
            enabled,
            b,
            max,
            now,
            start,
        ),
    decreases states.len(),
{
    if states.len() > 0 {
        let front = states.drop_last();
        let last = states.last();
        let raws = watcher::raw_paths_of(states);
        assert(raws.drop_last() =~= watcher::raw_paths_of(front));
        assert(raws.last() == last.raw);
        let dirs = watcher::dirs_asked(raws, date);
        let dirs_front = watcher::dirs_asked(raws.drop_last(), date);
        let dirs_last = resolver::dirs_needed(resolver::rendered(last.raw, date));
        assert forall|i: int| 0 <= i < dirs_front.len() implies a.dir_at(#[trigger] dirs_front[i])
            == b.dir_at(dirs_front[i]) by {
            assert(dirs[i] == dirs_front[i]);
        }
        assert forall|i: int| 0 <= i < dirs_last.len() implies a.dir_at(#[trigger] dirs_last[i])
            == b.dir_at(dirs_last[i]) by {
            assert(dirs[dirs_front.len() + i] == dirs_last[i]);
        }
        let found = watcher::all_resolved(raws, date, a);
        let found_front = watcher::all_resolved(raws.drop_last(), date, a);
        let found_last = resolver::resolved(last.raw, date, a);
        assert forall|i: int| 0 <= i < found_front.len() implies a.stat_at(
            #[trigger] found_front[i],
        ) == b.stat_at(found_front[i]) by {
            assert(found[i] == found_front[i]);
        }
        assert forall|i: int| 0 <= i < found_last.len() implies a.stat_at(#[trigger] found_last[i])
            == b.stat_at(found_last[i]) by {
            assert(found[found_front.len() + i] == found_last[i]);
        }
        let known = watcher::file_paths(watcher::all_active(states));
        let known_front = watcher::file_paths(watcher::all_active(front));
        let known_last = watcher::file_paths(last.active);
        assert forall|i: int| 0 <= i < known_front.len() implies a.stat_at(
            #[trigger] known_front[i],
        ) == b.stat_at(known_front[i]) by {
            assert(known[i] == known_front[i]);
        }
        assert forall|i: int| 0 <= i < known_last.len() implies a.stat_at(#[trigger] known_last[i])
            == b.stat_at(known_last[i]) by {
            assert(known[known_front.len() + i] == known_last[i]);
        }
        let reads = watcher::reads_asked(states, date, enabled, a);
        let reads_front = watcher::reads_asked(front, date, enabled, a);
        let reads_last = watcher::reads_of(watcher::next_files(last, date, enabled, a), a);
        assert forall|i: int| 0 <= i < reads_front.len() implies a.read_at(
            (#[trigger] reads_front[i]).0,
            reads_front[i].1,
        ) == b.read_at(reads_front[i].0, reads_front[i].1) by {
            assert(reads[i] == reads_front[i]);
        }
        assert forall|i: int| 0 <= i < reads_last.len() implies a.read_at(
            (#[trigger] reads_last[i]).0,
            reads_last[i].1,
        ) == b.read_at(reads_last[i].0, reads_last[i].1) by {
            assert(reads[reads_front.len() + i] == reads_last[i]);
        }
        polled_paths_agree(front, date, enabled, max, now, start, a, b);
        let ledger = watcher::polled_paths(front, date, enabled, a, max, now, start).1;
        polled_agree(last, date, enabled, max, now, ledger, a, b);
    }
}

/// A poll depends on nothing but the directories, files and stretches that the watcher asks for.
pub proof fn poll_depends_on_what_is_asked(
    view: WatcherView,
    date: CalendarDate,
    now: i64,
    a: &Snapshot,
    b: &Snapshot,
)
    requires
        resolver::agree_on_dirs(
            a,
            b,
            watcher::dirs_asked(watcher::raw_paths_of(view.states), date),
        ),
        agree_on_files(
            a,
            b,
            watcher::all_resolved(watcher::raw_paths_of(view.states), date, a)
                + watcher::file_paths(watcher::all_active(view.states)),
        ),
        agree_on_reads(a, b, watcher::reads_asked(view.states, date, view.enabled, a)),
    ensures
        view.polled(date, a, now) == view.polled(date, b, now),
{
    let found = watcher::all_resolved(watcher::raw_paths_of(view.states), date, a);
    let known = watcher::file_paths(watcher::all_active(view.states));
    let both = found + known;
    assert forall|i: int| 0 <= i < found.len() implies a.stat_at(#[trigger] found[i])
        == b.stat_at(found[i]) by {
        assert(both[i] == found[i]);
    }
    assert forall|i: int| 0 <= i < known.len() implies a.stat_at(#[trigger] known[i])
        == b.stat_at(known[i]) by {
        assert(both[found.len() + i] == known[i]);
    }
    polled_paths_agree(
        view.states,
        date,
        view.enabled,
        view.max_line_len,
        now,
        (Ledger { events: seq![], unreadable: view.unreadable, status: seq![] }),
        a,
        b,
    );
}

/// A poll keeps the tracked paths in their order, what is switched on or off, and the length to
/// which lines are clipped.
pub proof fn poll_keeps_settings(
    view: WatcherView,
    date: CalendarDate,
    snapshot: &Snapshot,
    now: i64,
)
    ensures
        ({
            let after = view.polled(date, snapshot, now).watcher;
            &&& watcher::raw_paths_of(after.states) == watcher::raw_paths_of(view.states)
            &&& after.enabled == view.enabled
            &&& after.max_line_len == view.max_line_len
        }),
{
    polled_paths_keep_raws(
        view.states,
        date,
        view.enabled,
        snapshot,
        view.max_line_len,
        now,
        (Ledger { events: seq![], unreadable: view.unreadable, status: seq![] }),
    );
}

proof fn polled_paths_keep_raws(
    states: Seq<PathView>,
    date: CalendarDate,
    enabled: Map<Seq<Seq<char>>, bool>,
    snapshot: &Snapshot,
    max: nat,
    now: i64,
    start: Ledger,
)
    ensures
        watcher::raw_paths_of(
            watcher::polled_paths(states, date, enabled, snapshot, max, now, start).0,
        ) == watcher::raw_paths_of(states),
    decreases states.len(),
{
    let after = watcher::polled_paths(states, date, enabled, snapshot, max, now, start).0;
    if states.len() > 0 {
        let front = states.drop_last();
        polled_paths_keep_raws(front, date, enabled, snapshot, max, now, start);
        let done = watcher::polled_paths(front, date, enabled, snapshot, max, now, start).0;
        assert(watcher::raw_paths_of(after) =~= watcher::raw_paths_of(done).push(
            states.last().raw,
        ));
        assert(watcher::raw_paths_of(states) =~= watcher::raw_paths_of(front).push(
            states.last().raw,
        ));
    } else {
        assert(watcher::raw_paths_of(after) =~= watcher::raw_paths_of(states));
    }
}

/// All the events are of the given second.
pub open spec fn all_at(events: Seq<LogEventView>, now: i64) -> bool {
    forall|i: int| 0 <= i < events.len() ==> (#[trigger] events[i]).ts == now
}

proof fn polled_files_stamp_events(
    files: Seq<FileView>,
    snapshot: &Snapshot,
    max: nat,
    now: i64,
    start: Ledger,
)
    requires
        all_at(start.events, now),
    ensures
        all_at(watcher::polled_files(files, snapshot, max, now, start).1.events, now),
    decreases files.len(),
{
    if files.len() > 0 {
        polled_files_stamp_events(files.drop_last(), snapshot, max, now, start);
    }
}

proof fn polled_paths_stamp_events(
    states: Seq<PathView>,
    date: CalendarDate,
    enabled: Map<Seq<Seq<char>>, bool>,
    snapshot: &Snapshot,
    max: nat,
    now: i64,
    start: Ledger,
)
    requires
        all_at(start.events, now),
    ensures
        all_at(
            watcher::polled_paths(states, date, enabled, snapshot, max, now, start).1.events,
            now,
        ),
    decreases states.len(),
{
    if states.len() > 0 {
        let front = states.drop_last();
        polled_paths_stamp_events(front, date, enabled, snapshot, max, now, start);
        let ledger = watcher::polled_paths(front, date, enabled, snapshot, max, now, start).1;
        let sync = states.last().synced(
            date,
            enabled,
            snapshot,
            ledger.unreadable,
            ledger.status,
        );
        let next = Ledger {
            events: ledger.events,
            unreadable: sync.unreadable,
            status: sync.status,
        };
        polled_files_stamp_events(sync.state.active, snapshot, max, now, next);
    }
}

/// Every event of a poll carries the time of the poll.
pub proof fn events_carry_the_time_of_the_poll(
    view: WatcherView,
    date: CalendarDate,
    snapshot: &Snapshot,
    now: i64,
)
    requires
        view.polled(date, snapshot, now).events is Ok,
    ensures
        all_at(view.polled(date, snapshot, now).events->Ok_0, now),
{
    polled_paths_stamp_events(
        view.states,
        date,
        view.enabled,
        snapshot,
        view.max_line_len,
        now,
        (Ledger { events: seq![], unreadable: view.unreadable, status: seq![] }),
    );
}

proof fn followed_lists_every_enabled(
    list: Seq<Seq<char>>,
    active: Seq<FileView>,
    enabled: Map<Seq<Seq<char>>, bool>,
    snapshot: &Snapshot,
    table: Map<Seq<Seq<char>>, Seq<char>>,
    i: int,
)
    requires
        watcher::followed(list, active, enabled, snapshot, table).0 is Ok,
        0 <= i < list.len(),
        watcher::file_enabled(enabled, list[i]),
    ensures
        ({
            let files = watcher::followed(list, active, enabled, snapshot, table).0->Ok_0;
            match watcher::file_at(active, list[i]) {
                Some(file) => files.contains(file),
                None => match tracking::fresh_file(list[i], snapshot.stat_at(list[i])) {
                    Ok(file) => files.contains(file),
                    Err(_) => false,
                },
            }
        }),
    decreases list.len(),
{
    let front = list.drop_last();
    let before = watcher::followed(front, active, enabled, snapshot, table).0->Ok_0;
    let files = watcher::followed(list, active, enabled, snapshot, table).0->Ok_0;
    if i < front.len() {
        followed_lists_every_enabled(front, active, enabled, snapshot, table, i);
        assert(front[i] == list[i]);
        let wanted = match watcher::file_at(active, list[i]) {
            Some(file) => file,
            None => tracking::fresh_file(list[i], snapshot.stat_at(list[i]))->Ok_0,
        };
        let k = choose|k: int| 0 <= k < before.len() && before[k] == wanted;
        assert(files[k] == wanted);
    } else {
        assert(files[files.len() - 1] == files.last());
    }
}

/// Every file that a path stands for and that is switched on is followed once the followed files
/// have been brought up to date: as it was followed before, or afresh from its end.
pub proof fn every_resolved_file_is_followed(
    state: PathView,
    date: CalendarDate,
    enabled: Map<Seq<Seq<char>>, bool>,
    snapshot: &Snapshot,
    table: Map<Seq<Seq<char>>, Seq<char>>,
    status: Seq<Seq<char>>,
    i: int,
)
    requires
        state.synced(date, enabled, snapshot, table, status).error is None,
        0 <= i < resolver::resolved(state.raw, date, snapshot).len(),
        watcher::file_enabled(enabled, resolver::resolved(state.raw, date, snapshot)[i]),
    ensures
        ({
            let path = resolver::resolved(state.raw, date, snapshot)[i];
            let after = state.synced(date, enabled, snapshot, table, status).state.active;
            match watcher::file_at(state.active, path) {
                Some(file) => after.contains(file),
                None => match tracking::fresh_file(path, snapshot.stat_at(path)) {
                    Ok(file) => after.contains(file),
                    Err(_) => false,
                },
            }
        }),
{
    let list = resolver::resolved(state.raw, date, snapshot);
    let rest = watcher::without_unresolved(table, state.active, list);
    let files = watcher::followed(list, state.active, enabled, snapshot, rest).0->Ok_0;
    let after = state.synced(date, enabled, snapshot, table, status).state.active;
    followed_lists_every_enabled(list, state.active, enabled, snapshot, rest, i);
    let wanted = match watcher::file_at(state.active, list[i]) {
        Some(file) => file,
        None => tracking::fresh_file(list[i], snapshot.stat_at(list[i]))->Ok_0,
    };
    let k = choose|k: int| 0 <= k < files.len() && files[k] == wanted;
    assert(after[k] == wanted);
}

proof fn rolled_over_holds(
    raw: Seq<char>,
    active: Seq<FileView>,
    list: Seq<Seq<char>>,
    enabled: Map<Seq<Seq<char>>, bool>,
    snapshot: &Snapshot,
    i: int,
)
    requires
        0 <= i < active.len(),
        !resolver::lists_path(list, active[i].path),
        resolver::date_sensitive(raw),
        watcher::file_enabled(enabled, active[i].path),
        !(snapshot.stat_at(active[i].path) is Missing),
    ensures
        watcher::rolled_over(raw, active, list, enabled, snapshot).contains(active[i]),
    decreases active.len(),
{
    let front = active.drop_last();
    let before = watcher::rolled_over(raw, front, list, enabled, snapshot);
    let all = watcher::rolled_over(raw, active, list, enabled, snapshot);
    if i < front.len() {
        rolled_over_holds(raw, front, list, enabled, snapshot, i);
        let k = choose|k: int| 0 <= k < before.len() && before[k] == front[i];
        assert(all[k] == active[i]);
    } else {
        assert(all[all.len() - 1] == active[i]);
    }
}

/// Every file that is followed on from an earlier date is not known to be gone.
pub proof fn rolled_over_file_is_there(
    raw: Seq<char>,
    active: Seq<FileView>,
    list: Seq<Seq<char>>,
    enabled: Map<Seq<Seq<char>>, bool>,
    snapshot: &Snapshot,
    i: int,
)
    requires
        0 <= i < watcher::rolled_over(raw, active, list, enabled, snapshot).len(),
    ensures
        !(snapshot.stat_at(
            watcher::rolled_over(raw, active, list, enabled, snapshot)[i].path,
        ) is Missing),
        resolver::date_sensitive(raw),
    decreases active.len(),
{
    let front = active.drop_last();
    if i < watcher::rolled_over(raw, front, list, enabled, snapshot).len() {
        rolled_over_file_is_there(raw, front, list, enabled, snapshot, i);
    }
}

/// A file that a dated path stood for and no longer stands for is followed on, as it was, until it
/// is gone.
pub proof fn dated_file_is_kept_until_gone(
    state: PathView,
    date: CalendarDate,
    enabled: Map<Seq<Seq<char>>, bool>,
    snapshot: &Snapshot,
    table: Map<Seq<Seq<char>>, Seq<char>>,
    status: Seq<Seq<char>>,
    i: int,
)
    requires
        state.synced(date, enabled, snapshot, table, status).error is None,
        0 <= i < state.active.len(),
        !resolver::lists_path(
            resolver::resolved(state.raw, date, snapshot),
            state.active[i].path,
        ),
        resolver::date_sensitive(state.raw),
        watcher::file_enabled(enabled, state.active[i].path),
    ensures
        ({
            let file = state.active[i];
            let after = state.synced(date, enabled, snapshot, table, status).state.active;
            &&& !(snapshot.stat_at(file.path) is Missing) ==> after.contains(file)
            &&& snapshot.stat_at(file.path) is Missing ==> !after.contains(file)
        }),
{
    let list = resolver::resolved(state.raw, date, snapshot);
    let rest = watcher::without_unresolved(table, state.active, list);
    let files = watcher::followed(list, state.active, enabled, snapshot, rest).0->Ok_0;
    let older = watcher::rolled_over(state.raw, state.active, list, enabled, snapshot);
    let after = state.synced(date, enabled, snapshot, table, status).state.active;
    let file = state.active[i];
    if !(snapshot.stat_at(file.path) is Missing) {
        rolled_over_holds(state.raw, state.active, list, enabled, snapshot, i);
        let k = choose|k: int| 0 <= k < older.len() && older[k] == file;
        assert(after[files.len() + k] == file);
    } else if after.contains(file) {
        let k = choose|k: int| 0 <= k < after.len() && after[k] == file;
        if k < files.len() {
            followed_files_come_from(list, state.active, enabled, snapshot, rest, k);
        } else {
            rolled_over_file_is_there(
                state.raw,
                state.active,
                list,
                enabled,
                snapshot,
                k - files.len(),
            );
        }
    }
}

/// Every file that is followed is switched on.
pub open spec fn all_enabled(files: Seq<FileView>, enabled: Map<Seq<Seq<char>>, bool>) -> bool {
    forall|i: int| 0 <= i < files.len() ==> watcher::file_enabled(enabled, (#[trigger] files[i]).path)
}

proof fn synced_paths_follow_enabled(
    states: Seq<PathView>,
    date: CalendarDate,
    enabled: Map<Seq<Seq<char>>, bool>,
    snapshot: &Snapshot,
    table: Map<Seq<Seq<char>>, Seq<char>>,
    status: Seq<Seq<char>>,
)
    requires
        watcher::synced_paths(states, date, enabled, snapshot, table, status).3 is None,
    ensures
        all_enabled(
            watcher::all_active(
                watcher::synced_paths(states, date, enabled, snapshot, table, status).0,
            ),
            enabled,
        ),
    decreases states.len(),
{
    let after = watcher::synced_paths(states, date, enabled, snapshot, table, status).0;
    if states.len() > 0 {
        let front = states.drop_last();
        let (done, unreadable, messages, error) = watcher::synced_paths(
            front,
            date,
            enabled,
            snapshot,
            table,
            status,
        );
        synced_paths_follow_enabled(front, date, enabled, snapshot, table, status);
        let sync = states.last().synced(date, enabled, snapshot, unreadable, messages);
        assert(after.drop_last() =~= done);
        assert(after.last() == sync.state);
        let known = watcher::all_active(done);
        let all = watcher::all_active(after);
        assert forall|i: int| 0 <= i < all.len() implies watcher::file_enabled(
            enabled,
            (#[trigger] all[i]).path,
        ) by {
            if i < known.len() {
                assert(all[i] == known[i]);
            } else {
                switched_off_files_are_not_followed(
                    states.last(),
                    date,
                    enabled,
                    snapshot,
                    unreadable,
                    messages,
                    i - known.len(),
                );
            }
        }
    }
}

/// A file that is switched off is not followed any more; and whatever is followed is switched on.
pub proof fn switching_off_ends_following(
    view: WatcherView,
    path: Seq<char>,
    date: CalendarDate,
    snapshot: &Snapshot,
)
    requires
        view.switched(path, false, date, snapshot).1 is None,
    ensures
        ({
            let after = view.switched(path, false, date, snapshot).0;
            let files = watcher::all_active(after.states);
            &&& all_enabled(files, after.enabled)
            &&& forall|i: int|
                0 <= i < files.len() ==> !paths::same_path((#[trigger] files[i]).path, path)
        }),
{
    let enabled = view.enabled.insert(paths::path_components(path), false);
    synced_paths_follow_enabled(
        view.states,
        date,
        enabled,
        snapshot,
        view.unreadable,
        view.status,
    );
    let files = watcher::all_active(view.switched(path, false, date, snapshot).0.states);
    assert forall|i: int| 0 <= i < files.len() implies !paths::same_path(
        (#[trigger] files[i]).path,
        path,
    ) by {
        assert(watcher::file_enabled(enabled, files[i].path));
    }
}

proof fn unresolved_spares(
    table: Map<Seq<Seq<char>>, Seq<char>>,
    active: Seq<FileView>,
    list: Seq<Seq<char>>,
    path: Seq<char>,
)
    requires
        resolver::lists_path(list, path),
    ensures
        ({
            let key = paths::path_components(path);
            let after = watcher::without_unresolved(table, active, list);
            &&& after.contains_key(key) == table.contains_key(key)
            &&& table.contains_key(key) ==> after[key] == table[key]
        }),
    decreases active.len(),
{
    if active.len() > 0 {
        unresolved_spares(table, active.drop_last(), list, path);
        let other = active.last().path;
        if !resolver::lists_path(list, other) && paths::same_path(other, path) {
            let i = choose|i: int| 0 <= i < list.len() && paths::same_path(#[trigger] list[i], path);
            assert(paths::same_path(list[i], other));
        }
    }
}

proof fn followed_spares(
    list: Seq<Seq<char>>,
    active: Seq<FileView>,
    enabled: Map<Seq<Seq<char>>, bool>,
    snapshot: &Snapshot,
    table: Map<Seq<Seq<char>>, Seq<char>>,
    path: Seq<char>,
)
    requires
        watcher::file_enabled(enabled, path),
    ensures
        ({
            let key = paths::path_components(path);
            let after = watcher::followed(list, active, enabled, snapshot, table).1;
            &&& after.contains_key(key) == table.contains_key(key)
            &&& table.contains_key(key) ==> after[key] == table[key]
        }),
    decreases list.len(),
{
    if list.len() > 0 {
        followed_spares(list.drop_last(), active, enabled, snapshot, table, path);
    }
}

/// Why a file could not be read is remembered for as long as the path stands for it and it is
/// switched on, so a lasting failure is not reported again.
pub proof fn reasons_are_remembered(
    state: PathView,
    date: CalendarDate,
    enabled: Map<Seq<Seq<char>>, bool>,
    snapshot: &Snapshot,
    table: Map<Seq<Seq<char>>, Seq<char>>,
    status: Seq<Seq<char>>,
    path: Seq<char>,
)
    requires
        resolver::lists_path(resolver::resolved(state.raw, date, snapshot), path),
        watcher::file_enabled(enabled, path),
    ensures
        ({
            let key = paths::path_components(path);
            let after = state.synced(date, enabled, snapshot, table, status).unreadable;
            &&& after.contains_key(key) == table.contains_key(key)
            &&& table.contains_key(key) ==> after[key] == table[key]
        }),
{
    let list = resolver::resolved(state.raw, date, snapshot);
    let rest = watcher::without_unresolved(table, state.active, list);
    unresolved_spares(table, state.active, list, path);
    followed_spares(list, state.active, enabled, snapshot, rest, path);
}

} // verus!
