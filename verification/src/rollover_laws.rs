//! What becomes of the followed files when a new day begins.

use crate::dates;
use crate::dates::CalendarDate;
use crate::paths;
use crate::resolver;
use crate::snapshot::Snapshot;
use crate::suggestion_laws;
use crate::text;
use crate::token_laws;
use crate::tracking;
use crate::tracking::FileView;
use crate::watcher;
use crate::watcher::PathView;
use crate::wildcard;
use vstd::prelude::*;

verus! {

/// The followed files of a path that stands for one file a day: its file of the day, as it was
/// followed or afresh, and behind it the file of an earlier day, unless that is gone.
proof fn synced_single(
    state: PathView,
    old: FileView,
    date: CalendarDate,
    enabled: Map<Seq<Seq<char>>, bool>,
    snapshot: &Snapshot,
    table: Map<Seq<Seq<char>>, Seq<char>>,
    status: Seq<Seq<char>>,
)
    requires
        resolver::date_sensitive(state.raw),
        !wildcard::has_wildcards(state.raw),
        !text::contains_text(state.raw, "{today}"@),
        state.active.len() >= 1,
        state.active.last() == old,
        state.active.len() == 1 || state.active.len() == 2 && paths::same_path(
            state.active[0].path,
            date.applied(state.raw),
        ),
        !paths::same_path(old.path, date.applied(state.raw)),
        watcher::file_enabled(enabled, old.path),
        watcher::file_enabled(enabled, date.applied(state.raw)),
        state.active.len() == 1 ==> !(snapshot.stat_at(date.applied(state.raw)) is Failed),
    ensures
        ({
            let path = date.applied(state.raw);
            let sync = state.synced(date, enabled, snapshot, table, status);
            let current = if state.active.len() == 2 {
                state.active[0]
            } else {
                tracking::fresh_file(path, snapshot.stat_at(path))->Ok_0
            };
            &&& sync.error is None
            &&& sync.state.active == (if snapshot.stat_at(old.path) is Missing {
                seq![current]
            } else {
                seq![current, old]
            })
        }),
{
    let path = date.applied(state.raw);
    let active = state.active;
    resolver::dated_path_stands_for_one_file(state.raw, date, snapshot);
    let list = seq![path];
    assert(resolver::resolved(state.raw, date, snapshot) == list);
    assert(list.drop_last() =~= seq![]);
    let rest = watcher::without_unresolved(table, active, list);
    assert(watcher::followed(list.drop_last(), active, enabled, snapshot, rest).0 == Ok::<
        Seq<FileView>,
        Seq<char>,
    >(seq![]));
    let current = if active.len() == 2 {
        active[0]
    } else {
        tracking::fresh_file(path, snapshot.stat_at(path))->Ok_0
    };
    if active.len() == 1 {
        assert(active.skip(1) =~= seq![]);
        assert(watcher::file_at(active.skip(1), path) is None);
        assert(active[0] == old);
        assert(watcher::file_at(active, path) is None);
    } else {
        assert(watcher::file_at(active, path) == Some(active[0]));
    }
    assert(watcher::followed(list, active, enabled, snapshot, rest).0->Ok_0 =~= seq![current]);
    assert(!resolver::lists_path(list, old.path)) by {
        if resolver::lists_path(list, old.path) {
            let i = choose|i: int|
                0 <= i < list.len() && paths::same_path(#[trigger] list[i], old.path);
            assert(list[i] == path);
        }
    }
    let front = active.drop_last();
    assert(watcher::rolled_over(state.raw, front, list, enabled, snapshot) =~= seq![]) by {
        if active.len() == 2 {
            assert(front.last() == active[0]);
            assert(paths::same_path(list[0], active[0].path));
            assert(resolver::lists_path(list, active[0].path));
            assert(front.drop_last() =~= seq![]);
            assert(watcher::rolled_over(state.raw, front.drop_last(), list, enabled, snapshot)
                =~= seq![]);
        } else {
            assert(front =~= seq![]);
        }
    }
    let older = watcher::rolled_over(state.raw, active, list, enabled, snapshot);
    if snapshot.stat_at(old.path) is Missing {
        assert(older =~= seq![]);
        assert(seq![current] + older =~= seq![current]);
    } else {
        assert(older =~= seq![old]);
        assert(seq![current] + older =~= seq![current, old]);
    }
}

/// On a new day the file of that day is followed first, afresh, and behind it the one of the day
/// before, as it was, unless that is gone.
pub proof fn new_day_follows_both_files(
    state: PathView,
    date: CalendarDate,
    enabled: Map<Seq<Seq<char>>, bool>,
    snapshot: &Snapshot,
    table: Map<Seq<Seq<char>>, Seq<char>>,
    status: Seq<Seq<char>>,
)
    requires
        resolver::date_sensitive(state.raw),
        !wildcard::has_wildcards(state.raw),
        !text::contains_text(state.raw, "{today}"@),
        state.active.len() == 1,
        !paths::same_path(state.active[0].path, date.applied(state.raw)),
        watcher::file_enabled(enabled, state.active[0].path),
        watcher::file_enabled(enabled, date.applied(state.raw)),
        !(snapshot.stat_at(date.applied(state.raw)) is Failed),
    ensures
        ({
            let path = date.applied(state.raw);
            let old = state.active[0];
            let new = tracking::fresh_file(path, snapshot.stat_at(path))->Ok_0;
            let sync = state.synced(date, enabled, snapshot, table, status);
            &&& sync.error is None
            &&& sync.state.active == (if snapshot.stat_at(old.path) is Missing {
                seq![new]
            } else {
                seq![new, old]
            })
        }),
{
    synced_single(state, state.active[0], date, enabled, snapshot, table, status);
}

/// Later on that day both are followed as they were, and the new one alone once the old is gone.
pub proof fn old_file_is_followed_until_gone(
    state: PathView,
    date: CalendarDate,
    enabled: Map<Seq<Seq<char>>, bool>,
    snapshot: &Snapshot,
    table: Map<Seq<Seq<char>>, Seq<char>>,
    status: Seq<Seq<char>>,
)
    requires
        resolver::date_sensitive(state.raw),
        !wildcard::has_wildcards(state.raw),
        !text::contains_text(state.raw, "{today}"@),
        state.active.len() == 2,
        paths::same_path(state.active[0].path, date.applied(state.raw)),
        !paths::same_path(state.active[1].path, date.applied(state.raw)),
        watcher::file_enabled(enabled, state.active[1].path),
        watcher::file_enabled(enabled, date.applied(state.raw)),
    ensures
        ({
            let sync = state.synced(date, enabled, snapshot, table, status);
            &&& sync.error is None
            &&& sync.state.active == (if snapshot.stat_at(state.active[1].path) is Missing {
                seq![state.active[0]]
            } else {
                state.active
            })
        }),
{
    synced_single(state, state.active[1], date, enabled, snapshot, table, status);
    assert(seq![state.active[0], state.active[1]] =~= state.active);
}

/// A tracked path that stands for one file a day, of which the file of one day is followed: on a
/// day whose file is another, the followed files are the file of that day and then the old one, or
/// the new one alone where the old is gone; and the same again when the old one goes later.
pub proof fn rollover_follows_the_new_file_and_the_old(
    day: CalendarDate,
    today: CalendarDate,
    state: PathView,
    enabled: Map<Seq<Seq<char>>, bool>,
    snapshot: &Snapshot,
    later: &Snapshot,
    table: Map<Seq<Seq<char>>, Seq<char>>,
    status: Seq<Seq<char>>,
)
    requires
        resolver::date_sensitive(state.raw),
        !wildcard::has_wildcards(state.raw),
        !text::contains_text(state.raw, "{today}"@),
        !paths::same_path(day.applied(state.raw), today.applied(state.raw)),
        state.active.len() == 1,
        state.active[0].path == day.applied(state.raw),
        watcher::file_enabled(enabled, day.applied(state.raw)),
        watcher::file_enabled(enabled, today.applied(state.raw)),
        !(snapshot.stat_at(today.applied(state.raw)) is Failed),
    ensures
        ({
            let old = state.active[0];
            let first = state.synced(today, enabled, snapshot, table, status);
            let second = first.state.synced(
                today,
                enabled,
                later,
                first.unreadable,
                first.status,
            );
            &&& first.error is None
            &&& snapshot.stat_at(old.path) is Missing ==> watcher::file_paths(first.state.active)
                == seq![today.applied(state.raw)]
            &&& !(snapshot.stat_at(old.path) is Missing) ==> {
                &&& watcher::file_paths(first.state.active) == seq![
                    today.applied(state.raw),
                    old.path,
                ]
                &&& first.state.active[1] == old
                &&& second.error is None
                &&& later.stat_at(old.path) is Missing ==> second.state.active == seq![
                    first.state.active[0],
                ]
                &&& !(later.stat_at(old.path) is Missing) ==> second.state.active
                    == first.state.active
            }
        }),
{
    let old = state.active[0];
    let path = today.applied(state.raw);
    new_day_follows_both_files(state, today, enabled, snapshot, table, status);
    let first = state.synced(today, enabled, snapshot, table, status);
    assert(first.state.raw == state.raw);
    if snapshot.stat_at(old.path) is Missing {
        assert(watcher::file_paths(first.state.active) =~= seq![path]);
    } else {
        assert(watcher::file_paths(first.state.active) =~= seq![path, old.path]);
        old_file_is_followed_until_gone(
            first.state,
            today,
            enabled,
            later,
            first.unreadable,
            first.status,
        );
    }
}

/// A part of a path that holds no placeholder and no wildcard.
pub open spec fn plain_part(s: Seq<char>) -> bool {
    !dates::has_placeholder(s) && !wildcard::has_wildcards(s)
}

/// A part of a file name that holds no placeholder and no wildcard.
pub open spec fn plain_name_part(s: Seq<char>) -> bool {
    plain_part(s) && !s.contains('/')
}

/// The name with the date between its parts, in the directory.
pub open spec fn dated_path(
    dir: Seq<char>,
    before: Seq<char>,
    middle: Seq<char>,
    after: Seq<char>,
) -> Seq<char> {
    paths::joined(dir, before + middle + after)
}

/// What stands before the name in a joined path.
proof fn joined_parts(dir: Seq<char>) -> (front: Seq<char>)
    ensures
        forall|c: char| #[trigger] front.contains(c) ==> c == '/' || dir.contains(c),
        forall|name: Seq<char>|
            !paths::is_absolute(name) ==> #[trigger] paths::joined(dir, name) == front + name,
{
    let front = if dir.len() == 0 {
        seq![]
    } else if dir.last() == '/' {
        dir
    } else {
        dir.push('/')
    };
    assert forall|c: char| #[trigger] front.contains(c) implies c == '/' || dir.contains(c) by {
        let i = choose|i: int| 0 <= i < front.len() && front[i] == c;
        if i < dir.len() {
            assert(dir[i] == c);
        }
    }
    assert forall|name: Seq<char>| !paths::is_absolute(name) implies #[trigger] paths::joined(
        dir,
        name,
    ) == front + name by {
        assert(paths::joined(dir, name) =~= front + name);
    }
    front
}

proof fn concat_holds(a: Seq<char>, b: Seq<char>, c: char)
    requires
        !a.contains(c),
        !b.contains(c),
    ensures
        !(a + b).contains(c),
{
    let all = a + b;
    if all.contains(c) {
        let i = choose|i: int| 0 <= i < all.len() && all[i] == c;
        if i < a.len() {
            assert(a[i] == c);
        } else {
            assert(b[i - a.len()] == c);
        }
    }
}

/// The placeholders that are filled in are those behind `{today}`.
proof fn placeholderless_text_holds_no_token(s: Seq<char>)
    requires
        !dates::has_placeholder(s),
    ensures
        !token_laws::holds_token(s),
        !text::contains_text(s, "{today}"@),
{
    assert(dates::placeholders()[0] == "{today}"@);
    assert forall|i: int| 0 <= i < token_laws::tokens().len() implies !text::contains_text(
        s,
        #[trigger] token_laws::tokens()[i],
    ) by {
        assert(dates::placeholders()[i + 1] == token_laws::tokens()[i]);
    }
}

/// What a date is written with in a file name.
proof fn written_date_fits_a_name(date: CalendarDate, i: int)
    requires
        0 <= i < token_laws::tokens().len(),
    ensures
        token_laws::values(date)[i].len() >= 1,
        token_laws::values(date)[i] != seq!['.'],
        !token_laws::values(date)[i].contains('/'),
{
    token_laws::token_values_hold_no_brace(date, i);
    let value = token_laws::values(date)[i];
    let d = choose|j: int| 0 <= j < value.len() && text::is_digit(#[trigger] value[j]);
    assert(text::is_digit(value[d]));
}

/// A path with a placeholder in its name stands, each day, for the path with the date in its place.
pub proof fn dated_path_is_filled_in(
    dir: Seq<char>,
    before: Seq<char>,
    i: int,
    after: Seq<char>,
    date: CalendarDate,
)
    requires
        plain_part(dir),
        plain_name_part(before),
        plain_name_part(after),
        0 <= i < token_laws::tokens().len(),
    ensures
        ({
            let raw = dated_path(dir, before, token_laws::tokens()[i], after);
            &&& date.applied(raw) == dated_path(dir, before, token_laws::values(date)[i], after)
            &&& resolver::date_sensitive(raw)
            &&& !wildcard::has_wildcards(raw)
            &&& !text::contains_text(raw, "{today}"@)
        }),
{
    let mark = token_laws::tokens()[i];
    let value = token_laws::values(date)[i];
    let raw = dated_path(dir, before, mark, after);
    let front = joined_parts(dir);
    let a = front + before;
    token_laws::tokens_are_marks(i);
    written_date_fits_a_name(date, i);
    assert(before.len() > 0 ==> before.contains(before[0]));
    assert(value.contains(value[0]));
    assert((before + mark + after)[0] != '/');
    assert((before + value + after)[0] != '/');
    assert(!paths::is_absolute(before));
    assert(paths::joined(dir, before) == a);
    assert(raw =~= a + mark + after);
    assert(dated_path(dir, before, value, after) =~= a + value + after);
    suggestion_laws::joined_holds_no_placeholder(dir, before);
    placeholderless_text_holds_no_token(a);
    placeholderless_text_holds_no_token(after);
    token_laws::token_between_is_filled_in(a, i, after, date);
    if text::contains_text(raw, "{today}"@) {
        let at = choose|at: int| text::stands_at(raw, "{today}"@, at);
        token_laws::mark_between_stands_alone(a, mark, after, "{today}"@, at);
        token_laws::today_is_no_token(i);
    }
    assert(raw.subrange(a.len() as int, (a.len() + mark.len()) as int) =~= mark);
    assert(text::stands_at(raw, mark, a.len() as int));
    assert(dates::placeholders()[i + 1] == mark);
    token_laws::tokens_hold_no_wildcard(i);
    assert forall|c: char| c == '*' || c == '?' implies !raw.contains(c) by {
        concat_holds(front, before, c);
        concat_holds(a, mark, c);
        concat_holds(a + mark, after, c);
    }
}

/// The files of days that are written differently differ.
pub proof fn files_of_other_days_differ(
    dir: Seq<char>,
    before: Seq<char>,
    i: int,
    after: Seq<char>,
    day: CalendarDate,
    other: CalendarDate,
)
    requires
        !before.contains('/'),
        !after.contains('/'),
        0 <= i < token_laws::tokens().len(),
        token_laws::values(day)[i] != token_laws::values(other)[i],
    ensures
        !paths::same_path(
            dated_path(dir, before, token_laws::values(day)[i], after),
            dated_path(dir, before, token_laws::values(other)[i], after),
        ),
{
    let x = token_laws::values(day)[i];
    let y = token_laws::values(other)[i];
    let a = before + x + after;
    let b = before + y + after;
    written_date_fits_a_name(day, i);
    written_date_fits_a_name(other, i);
    concat_holds(before, x, '/');
    concat_holds(before + x, after, '/');
    concat_holds(before, y, '/');
    concat_holds(before + y, after, '/');
    dated_name_is_no_dot(before, x, after);
    dated_name_is_no_dot(before, y, after);
    paths::join_adds_a_component(dir, a);
    paths::join_adds_a_component(dir, b);
    if paths::same_path(paths::joined(dir, a), paths::joined(dir, b)) {
        assert(paths::path_components(dir).push(a).last() == a);
        assert(paths::path_components(dir).push(b).last() == b);
        assert(x.len() == y.len());
        assert forall|i: int| 0 <= i < x.len() implies x[i] == y[i] by {
            assert(a[before.len() + i] == x[i]);
            assert(b[before.len() + i] == y[i]);
        }
        assert(x =~= y);
    }
}

proof fn dated_name_is_no_dot(before: Seq<char>, value: Seq<char>, after: Seq<char>)
    requires
        value.len() >= 1,
        value != seq!['.'],
    ensures
        (before + value + after).len() > 0,
        before + value + after != seq!['.'],
{
    let name = before + value + after;
    if name == seq!['.'] {
        assert(name.len() == 1);
        assert(name[0] == value[0]);
        assert(value =~= seq!['.']);
    }
}

/// A tracked path with a placeholder in its name, of which the file of one day is followed: on a
/// day that is written differently, the file with that day in its name is followed, and behind it
/// the old one, as it was.
pub proof fn rollover_of_a_dated_name(
    dir: Seq<char>,
    before: Seq<char>,
    i: int,
    after: Seq<char>,
    day: CalendarDate,
    today: CalendarDate,
    state: PathView,
    enabled: Map<Seq<Seq<char>>, bool>,
    snapshot: &Snapshot,
    table: Map<Seq<Seq<char>>, Seq<char>>,
    status: Seq<Seq<char>>,
)
    requires
        plain_part(dir),
        plain_name_part(before),
        plain_name_part(after),
        0 <= i < token_laws::tokens().len(),
        token_laws::values(day)[i] != token_laws::values(today)[i],
        state.raw == dated_path(dir, before, token_laws::tokens()[i], after),
        state.active.len() == 1,
        state.active[0].path == dated_path(dir, before, token_laws::values(day)[i], after),
        watcher::file_enabled(enabled, state.active[0].path),
        watcher::file_enabled(
            enabled,
            dated_path(dir, before, token_laws::values(today)[i], after),
        ),
        !(snapshot.stat_at(state.active[0].path) is Missing),
        !(snapshot.stat_at(
            dated_path(dir, before, token_laws::values(today)[i], after),
        ) is Failed),
    ensures
        ({
            let new_path = dated_path(dir, before, token_laws::values(today)[i], after);
            let old = state.active[0];
            let sync = state.synced(today, enabled, snapshot, table, status);
            &&& sync.error is None
            &&& watcher::file_paths(sync.state.active) == seq![new_path, old.path]
            &&& sync.state.active[1] == old
        }),
{
    dated_path_is_filled_in(dir, before, i, after, day);
    dated_path_is_filled_in(dir, before, i, after, today);
    files_of_other_days_differ(dir, before, i, after, day, today);
    rollover_follows_the_new_file_and_the_old(
        day,
        today,
        state,
        enabled,
        snapshot,
        snapshot,
        table,
        status,
    );
}

} // verus!
