//! A suggested pattern stands for the file that it was suggested for.

use crate::dates;
use crate::dates::CalendarDate;
use crate::paths;
use crate::resolver;
use crate::snapshot::Snapshot;
use crate::text;
use crate::wildcard;
use vstd::prelude::*;

verus! {

/// The only match of a text is replaced.
pub proof fn replaced_once(a: Seq<char>, from: Seq<char>, b: Seq<char>, to: Seq<char>)
    requires
        from.len() > 0,
        forall|at: int| text::stands_at(a + from + b, from, at) ==> at >= a.len(),
        !text::contains_text(b, from),
    ensures
        text::replaced(a + from + b, from, to) == a + to + b,
    decreases a.len(),
{
    let all = a + from + b;
    if a.len() == 0 {
        assert(all.subrange(0, from.len() as int) =~= from);
        assert(text::stands_at(all, from, 0));
        assert(all.skip(from.len() as int) =~= b);
        dates::replaced_absent(b, from, to);
        assert(a + to + b =~= to + b);
    } else {
        let rest = a.skip(1);
        assert(!text::stands_at(all, from, 0));
        assert(all.skip(1) =~= rest + from + b);
        assert forall|at: int| text::stands_at(rest + from + b, from, at) implies at
            >= rest.len() by {
            assert(all.subrange(at + 1, at + 1 + from.len()) =~= (rest + from + b).subrange(
                at,
                at + from.len(),
            ));
            assert(text::stands_at(all, from, at + 1));
        }
        replaced_once(rest, from, b, to);
        assert(seq![all[0]] + (rest + to + b) =~= a + to + b);
    }
}

/// `{today}` does not overlap itself, so it stands no earlier than where it was put.
proof fn today_stands_alone(a: Seq<char>, b: Seq<char>, at: int)
    requires
        !text::contains_text(a, "{today}"@),
        text::stands_at(a + "{today}"@ + b, "{today}"@, at),
    ensures
        at >= a.len(),
{
    let needle = "{today}"@;
    let all = a + needle + b;
    reveal_strlit("{today}");
    assert(needle.len() == 7 && needle[0] == '{' && needle[1] == 't' && needle[2] == 'o'
        && needle[3] == 'd' && needle[4] == 'a' && needle[5] == 'y' && needle[6] == '}');
    if at < a.len() {
        let found = all.subrange(at, at + 7);
        if at + 7 <= a.len() {
            assert(a.subrange(at, at + 7) =~= found);
            assert(text::stands_at(a, needle, at));
        } else {
            let d = a.len() - at;
            assert(found[d] == all[a.len() as int]);
            assert(all[a.len() as int] == '{');
            assert(needle[d] == '{');
        }
    }
}

/// What holds no slash stands in a joined path only where it stands in one of its parts.
proof fn slashless_text_stands_in_a_part(dir: Seq<char>, name: Seq<char>, needle: Seq<char>)
    requires
        needle.len() > 0,
        !needle.contains('/'),
        !paths::is_absolute(name),
        text::contains_text(paths::joined(dir, name), needle),
    ensures
        text::contains_text(dir, needle) || text::contains_text(name, needle),
{
    let all = paths::joined(dir, name);
    let front = if dir.len() == 0 {
        seq![]
    } else if dir.last() == '/' {
        dir
    } else {
        dir.push('/')
    };
    assert(all =~= front + name);
    let at = choose|at: int| text::stands_at(all, needle, at);
    let end = at + needle.len();
    let found = all.subrange(at, end);
    if at >= front.len() {
        assert(name.subrange(at - front.len(), end - front.len()) =~= found);
        assert(text::stands_at(name, needle, at - front.len()));
    } else if end >= front.len() {
        assert(found[front.len() - 1 - at] == '/');
        assert(needle.contains('/'));
    } else {
        assert(dir.subrange(at, end) =~= found);
        assert(text::stands_at(dir, needle, at));
    }
}

proof fn stands_in_whole(part: Seq<char>, rest: Seq<char>, needle: Seq<char>)
    requires
        text::contains_text(part, needle),
    ensures
        text::contains_text(part + rest, needle),
{
    let at = choose|at: int| text::stands_at(part, needle, at);
    assert((part + rest).subrange(at, at + needle.len()) =~= part.subrange(
        at,
        at + needle.len(),
    ));
    assert(text::stands_at(part + rest, needle, at));
}

/// Placeholders are not empty and hold no slash.
proof fn placeholders_hold_no_slash(i: int)
    requires
        0 <= i < dates::placeholders().len(),
    ensures
        dates::placeholders()[i].len() > 0,
        !dates::placeholders()[i].contains('/'),
{
    reveal_strlit("{today}");
    reveal_strlit("{yyyymmdd}");
    reveal_strlit("{yyyy-mm-dd}");
    reveal_strlit("{yyyy_mm_dd}");
    reveal_strlit("{yymmdd}");
    reveal_strlit("{yy-mm-dd}");
    reveal_strlit("{yy_mm_dd}");
    reveal_strlit("{mmdd}");
    reveal_strlit("{mm-dd}");
    reveal_strlit("{mm_dd}");
    reveal_strlit("{yyyy}");
    reveal_strlit("{yy}");
    reveal_strlit("{mm}");
    reveal_strlit("{dd}");
}

proof fn last_dot_is_a_dot(name: Seq<char>)
    ensures
        -1 <= paths::last_dot(name) < name.len(),
        paths::last_dot(name) >= 0 ==> name[paths::last_dot(name)] == '.',
    decreases name.len(),
{
    if name.len() > 0 && name.last() != '.' {
        last_dot_is_a_dot(name.drop_last());
    }
}

proof fn shortest_prefix_is_a_prefix(s: Seq<char>, target: Seq<Seq<char>>, n: int) -> (k: int)
    requires
        0 <= n,
        paths::shortest_prefix(s, target, n) is Some,
    ensures
        0 <= k <= s.len(),
        paths::shortest_prefix(s, target, n) == Some(s.take(k)),
    decreases s.len() - n,
{
    if paths::path_components(s.take(n)) == target {
        n
    } else {
        assert(paths::shortest_prefix(s, target, n + 1) is Some);
        assert(n + 1 <= s.len());
        shortest_prefix_is_a_prefix(s, target, n + 1)
    }
}

/// A name is its stem, and where it has an extension, a dot and the extension.
pub open spec fn after_stem(name: Seq<char>) -> Seq<char> {
    match paths::name_extension(name) {
        Some(extension) => "."@ + extension,
        None => seq![],
    }
}

proof fn name_is_stem_and_rest(name: Seq<char>)
    ensures
        name == paths::name_stem(name) + after_stem(name),
{
    last_dot_is_a_dot(name);
    reveal_strlit(".");
    assert("."@ =~= seq!['.']);
    assert(name =~= paths::name_stem(name) + after_stem(name));
}

/// The stem of the path's name ends in the date, in the given format.
pub open spec fn named_after(path: Seq<char>, date: CalendarDate, i: int) -> bool {
    match paths::path_file_name(path) {
        Some(name) => {
            let stem = paths::name_stem(name);
            match dates::date_suffix_len(stem) {
                Some(len) => len <= stem.len() && stem.skip(stem.len() - len) == date.formatted(
                    dates::today_formats()[i],
                ),
                None => false,
            }
        },
        None => false,
    }
}

/// The parts of a path for which a pattern is suggested: its directory, what stands before the
/// date in its name, and what stands behind.
proof fn parts_of(path: Seq<char>, date: CalendarDate, i: int) -> (parts: (
    Seq<char>,
    Seq<char>,
    Seq<char>,
))
    requires
        0 <= i < dates::today_formats().len(),
        dates::today_pattern(path) is Some,
        named_after(path, date, i),
        !dates::has_placeholder(path),
    ensures
        ({
            let (dir, prefix, rest) = parts;
            let value = date.formatted(dates::today_formats()[i]);
            let name = paths::path_file_name(path)->0;
            &&& name == prefix + value + rest
            &&& paths::joined(dir, prefix + "{today}"@ + rest) == dates::today_pattern(path)->0
            &&& paths::path_components(paths::joined(dir, name)) == paths::path_components(path)
            &&& name.len() > 0
            &&& !name.contains('/')
            &&& !dates::has_placeholder(name)
            &&& exists|k: int| 0 <= k <= path.len() && dir == #[trigger] path.take(k)
        }),
{
    let value = date.formatted(dates::today_formats()[i]);
    let name = paths::path_file_name(path)->0;
    let all = paths::path_components(path);
    let stem = paths::name_stem(name);
    let len = dates::date_suffix_len(stem)->0;
    let prefix = stem.take(stem.len() - len);
    let rest = after_stem(name);
    let dir = paths::path_parent(path)->0;
    paths::parent_drops_last_component(path);
    let k = shortest_prefix_is_a_prefix(path, all.drop_last(), 0);
    assert(dir == path.take(k));
    paths::components_are_made_of_the_path(path, all.len() - 1);
    paths::join_adds_a_component(dir, name);
    assert(all.drop_last().push(name) =~= all);
    name_is_stem_and_rest(name);
    assert(stem =~= prefix + value);
    assert(name =~= prefix + value + rest);
    let suggested = dates::today_name(name)->0;
    assert(suggested =~= prefix + "{today}"@ + rest);
    (dir, prefix, rest)
}

/// A part of a path holds no placeholder where the path holds none.
proof fn prefix_holds_no_placeholder(path: Seq<char>, k: int)
    requires
        0 <= k <= path.len(),
        !dates::has_placeholder(path),
    ensures
        !dates::has_placeholder(path.take(k)),
{
    if dates::has_placeholder(path.take(k)) {
        let i = choose|i: int|
            0 <= i < dates::placeholders().len() && text::contains_text(
                path.take(k),
                #[trigger] dates::placeholders()[i],
            );
        stands_in_whole(path.take(k), path.skip(k), dates::placeholders()[i]);
        assert(path.take(k) + path.skip(k) =~= path);
    }
}

/// Joining texts that hold no placeholder makes none.
pub proof fn joined_holds_no_placeholder(dir: Seq<char>, name: Seq<char>)
    requires
        !dates::has_placeholder(dir),
        !dates::has_placeholder(name),
        !paths::is_absolute(name),
    ensures
        !dates::has_placeholder(paths::joined(dir, name)),
{
    if dates::has_placeholder(paths::joined(dir, name)) {
        let i = choose|i: int|
            0 <= i < dates::placeholders().len() && text::contains_text(
                paths::joined(dir, name),
                #[trigger] dates::placeholders()[i],
            );
        placeholders_hold_no_slash(i);
        slashless_text_stands_in_a_part(dir, name, dates::placeholders()[i]);
    }
}

/// `{today}` in a joined path is replaced where it was put, and nowhere else.
proof fn today_in_a_name_is_replaced(
    dir: Seq<char>,
    prefix: Seq<char>,
    value: Seq<char>,
    rest: Seq<char>,
)
    requires
        !text::contains_text(dir, "{today}"@),
        !text::contains_text(prefix + value + rest, "{today}"@),
        !paths::is_absolute(prefix),
        !paths::is_absolute(prefix + value + rest),
    ensures
        text::replaced(paths::joined(dir, prefix + "{today}"@ + rest), "{today}"@, value)
            == paths::joined(dir, prefix + value + rest),
{
    let today = "{today}"@;
    let name = prefix + value + rest;
    let front = paths::joined(dir, prefix);
    reveal_strlit("{today}");
    assert(today.len() == 7 && today[0] == '{');
    placeholders_hold_no_slash(0);
    assert(dates::placeholders()[0] == today);
    if text::contains_text(prefix, today) {
        stands_in_whole(prefix, value + rest, today);
        assert(prefix + (value + rest) =~= name);
    }
    if text::contains_text(rest, today) {
        dates::text_stands_in_longer(prefix + value, rest, today);
    }
    if text::contains_text(front, today) {
        slashless_text_stands_in_a_part(dir, prefix, today);
    }
    assert(paths::joined(dir, prefix + today + rest) =~= front + today + rest);
    assert(paths::joined(dir, name) =~= front + value + rest);
    assert forall|at: int| text::stands_at(front + today + rest, today, at) implies at
        >= front.len() by {
        today_stands_alone(front, rest, at);
    }
    replaced_once(front, today, rest, value);
}

/// Filling in a suggested pattern for the date that a file is named after gives the path of the
/// file, up to its spelling.
proof fn filled_in_pattern(path: Seq<char>, date: CalendarDate, i: int) -> (dir: Seq<char>)
    requires
        0 <= i < dates::today_formats().len(),
        dates::today_pattern(path) is Some,
        named_after(path, date, i),
        !dates::has_placeholder(path),
    ensures
        ({
            let pattern = dates::today_pattern(path)->0;
            let name = paths::path_file_name(path)->0;
            let filled = paths::joined(dir, name);
            &&& i < resolver::rendered(pattern, date).len()
            &&& resolver::rendered(pattern, date)[i] == filled
            &&& paths::same_path(filled, path)
            &&& name.len() > 0
            &&& !name.contains('/')
            &&& exists|k: int| 0 <= k <= path.len() && dir == #[trigger] path.take(k)
        }),
{
    let pattern = dates::today_pattern(path)->0;
    let name = paths::path_file_name(path)->0;
    let value = date.formatted(dates::today_formats()[i]);
    let (dir, prefix, rest) = parts_of(path, date, i);
    let k = choose|k: int| 0 <= k <= path.len() && dir == #[trigger] path.take(k);
    assert(name[0] != '/');
    assert(prefix.len() > 0 ==> prefix[0] == name[0]);
    prefix_holds_no_placeholder(path, k);
    assert(dates::placeholders()[0] == "{today}"@);
    today_in_a_name_is_replaced(dir, prefix, value, rest);
    joined_holds_no_placeholder(dir, name);
    dates::dateless_text_is_unchanged(date, paths::joined(dir, name));
    dates::suggestion_follows_the_date(path);
    rendered_at(pattern, date, i);
    dir
}

proof fn rendered_at(pattern: Seq<char>, date: CalendarDate, i: int)
    requires
        0 <= i < dates::today_formats().len(),
        text::contains_text(pattern, "{today}"@),
    ensures
        i < resolver::rendered(pattern, date).len(),
        resolver::rendered(pattern, date)[i] == date.applied(
            text::replaced(pattern, "{today}"@, date.formatted(dates::today_formats()[i])),
        ),
{
}

proof fn suggested_pattern_holds_no_wildcard(path: Seq<char>, date: CalendarDate, i: int)
    requires
        0 <= i < dates::today_formats().len(),
        dates::today_pattern(path) is Some,
        named_after(path, date, i),
        !dates::has_placeholder(path),
        !wildcard::has_wildcards(path),
    ensures
        !wildcard::has_wildcards(dates::today_pattern(path)->0),
{
    let pattern = dates::today_pattern(path)->0;
    let all = paths::path_components(path);
    let name = paths::path_file_name(path)->0;
    let today = "{today}"@;
    let (dir, prefix, rest) = parts_of(path, date, i);
    let k = choose|k: int| 0 <= k <= path.len() && dir == #[trigger] path.take(k);
    let value = date.formatted(dates::today_formats()[i]);
    let suggested = prefix + today + rest;
    paths::components_are_made_of_the_path(path, all.len() - 1);
    reveal_strlit("{today}");
    assert(prefix.len() > 0 ==> prefix[0] == name[0]);
    assert(suggested[0] != '/');
    assert forall|c: char| c == '*' || c == '?' implies !pattern.contains(c) by {
        if pattern.contains(c) {
            let at = choose|at: int| 0 <= at < pattern.len() && pattern[at] == c;
            let start = pattern.len() - suggested.len();
            if at < dir.len() && at < start {
                assert(path[at] == c);
            } else if at >= start {
                let j = at - start;
                assert(suggested[j] == c);
                if j < prefix.len() {
                    assert(name[j] == c);
                    assert(name.contains(c));
                } else if j < prefix.len() + today.len() {
                    assert(today[j - prefix.len()] == c);
                } else {
                    let m = j - prefix.len() - today.len();
                    assert(name[prefix.len() + value.len() + m] == c);
                    assert(name.contains(c));
                }
            }
        }
    }
}

/// A suggested pattern stands for the file that it was suggested for, on the day that the file is
/// named after.
pub proof fn suggestion_stands_for_the_file(
    path: Seq<char>,
    date: CalendarDate,
    i: int,
    snapshot: &Snapshot,
)
    requires
        0 <= i < dates::today_formats().len(),
        dates::today_pattern(path) is Some,
        named_after(path, date, i),
        !dates::has_placeholder(path),
        !wildcard::has_wildcards(path),
    ensures
        resolver::lists_path(
            resolver::resolved(dates::today_pattern(path)->0, date, snapshot),
            path,
        ),
{
    let pattern = dates::today_pattern(path)->0;
    let list = resolver::rendered(pattern, date);
    let dir = filled_in_pattern(path, date, i);
    suggested_pattern_holds_no_wildcard(path, date, i);
    resolver::wildcardless_path_stands_for_its_renderings(pattern, date, snapshot);
    assert(paths::same_path(list[i], path));
    assert(resolver::lists_path(list, path));
    resolver::distinct_paths_keep_each_once(list);
}

/// Where the stem of a file's name ends in a written date, and nothing before it can belong to
/// one, a pattern that is suggested for the file stands for it on that day.
pub proof fn suggestion_stands_for_the_dated_file(
    path: Seq<char>,
    prefix: Seq<char>,
    date: CalendarDate,
    i: int,
    snapshot: &Snapshot,
)
    requires
        0 <= i < dates::today_formats().len(),
        0 <= date.year,
        dates::calendar_has(date.year as int, date.month as int, date.day as int),
        paths::path_file_name(path) is Some,
        paths::name_stem(paths::path_file_name(path)->0) == prefix + date.formatted(
            dates::today_formats()[i],
        ),
        dates::ends_outside_a_date(prefix),
        dates::today_pattern(path) is Some,
        !dates::has_placeholder(path),
        !wildcard::has_wildcards(path),
    ensures
        resolver::lists_path(
            resolver::resolved(dates::today_pattern(path)->0, date, snapshot),
            path,
        ),
{
    let stem = paths::name_stem(paths::path_file_name(path)->0);
    let value = date.formatted(dates::today_formats()[i]);
    dates::todays_forms_are_recognised(date, i, prefix);
    assert(stem.skip(stem.len() - value.len()) =~= value);
    suggestion_stands_for_the_file(path, date, i, snapshot);
}

} // verus!
