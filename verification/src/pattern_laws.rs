//! Which files a tracked path stands for.

use crate::dates;
use crate::dates::CalendarDate;
use crate::order;
use crate::paths;
use crate::resolver;
use crate::snapshot::DirEntryView;
use crate::snapshot::DirOutcomeView;
use crate::snapshot::Snapshot;
use crate::text;
use crate::text_laws;
use crate::token_laws;
use crate::wildcard;
use crate::wildcard::WildcardPlanView;
use vstd::prelude::*;

verus! {

/// A pattern that is put together from two matches what can be divided into something that the
/// first matches and something that the second does.
pub proof fn patterns_match_part_by_part(a: Seq<u8>, b: Seq<u8>, candidate: Seq<u8>)
    ensures
        wildcard::matches_pattern(a + b, candidate) == exists|k: int|
            0 <= k <= candidate.len() && wildcard::matches_pattern(a, #[trigger] candidate.take(k))
                && wildcard::matches_pattern(b, candidate.skip(k)),
{
    if wildcard::matches_pattern(a + b, candidate) {
        let k = match_divides(a, b, candidate);
        assert(wildcard::matches_pattern(a, candidate.take(k)));
    }
    if exists|k: int|
        0 <= k <= candidate.len() && wildcard::matches_pattern(a, #[trigger] candidate.take(k))
            && wildcard::matches_pattern(b, candidate.skip(k)) {
        let k = choose|k: int|
            0 <= k <= candidate.len() && wildcard::matches_pattern(a, #[trigger] candidate.take(k))
                && wildcard::matches_pattern(b, candidate.skip(k));
        matches_join(a, b, candidate, k);
    }
}

proof fn match_divides(a: Seq<u8>, b: Seq<u8>, c: Seq<u8>) -> (k: int)
    requires
        wildcard::matches_pattern(a + b, c),
    ensures
        0 <= k <= c.len(),
        wildcard::matches_pattern(a, c.take(k)),
        wildcard::matches_pattern(b, c.skip(k)),
    decreases a.len() + c.len(),
{
    if a.len() == 0 {
        assert(a + b =~= b);
        assert(c.skip(0) =~= c);
        assert(c.take(0).len() == 0);
        0
    } else {
        let p = a + b;
        assert(p.skip(1) =~= a.skip(1) + b);
        assert(p[0] == a[0]);
        if a[0] == 0x2A && wildcard::matches_pattern(p.skip(1), c) {
            match_divides(a.skip(1), b, c)
        } else if a[0] == 0x2A {
            let k = match_divides(a, b, c.skip(1));
            assert(c.take(k + 1).skip(1) =~= c.skip(1).take(k));
            assert(c.skip(1).skip(k) =~= c.skip(k + 1));
            k + 1
        } else {
            let k = match_divides(a.skip(1), b, c.skip(1));
            assert(c.take(k + 1).skip(1) =~= c.skip(1).take(k));
            assert(c.skip(1).skip(k) =~= c.skip(k + 1));
            assert(c.take(k + 1)[0] == c[0]);
            k + 1
        }
    }
}

proof fn matches_join(a: Seq<u8>, b: Seq<u8>, c: Seq<u8>, k: int)
    requires
        0 <= k <= c.len(),
        wildcard::matches_pattern(a, c.take(k)),
        wildcard::matches_pattern(b, c.skip(k)),
    ensures
        wildcard::matches_pattern(a + b, c),
    decreases a.len() + k,
{
    let p = a + b;
    if a.len() == 0 {
        assert(p =~= b);
        assert(c.skip(k) =~= c);
    } else {
        assert(p.skip(1) =~= a.skip(1) + b);
        assert(p[0] == a[0]);
        if a[0] == 0x2A && wildcard::matches_pattern(a.skip(1), c.take(k)) {
            matches_join(a.skip(1), b, c, k);
        } else {
            assert(k > 0);
            assert(c.take(k).skip(1) =~= c.skip(1).take(k - 1));
            assert(c.skip(1).skip(k - 1) =~= c.skip(k));
            assert(c.take(k)[0] == c[0]);
            if a[0] == 0x2A {
                matches_join(a, b, c.skip(1), k - 1);
            } else {
                matches_join(a.skip(1), b, c.skip(1), k - 1);
            }
        }
    }
}

/// A star matches anything, a question mark any one byte, every other byte itself, and the empty
/// pattern nothing but emptiness.
pub proof fn single_bytes_match(byte: u8, candidate: Seq<u8>)
    ensures
        wildcard::matches_pattern(Seq::empty(), candidate) == (candidate.len() == 0),
        byte == '*' ==> wildcard::matches_pattern(seq![byte], candidate),
        byte == '?' ==> wildcard::matches_pattern(seq![byte], candidate) == (candidate.len() == 1),
        byte != '*' && byte != '?' ==> wildcard::matches_pattern(seq![byte], candidate) == (
        candidate == seq![byte]),
    decreases candidate.len(),
{
    let p = seq![byte];
    assert(p.skip(1) =~= Seq::empty());
    if candidate.len() > 0 {
        single_bytes_match(byte, candidate.skip(1));
        if byte != 0x2A {
            assert(wildcard::matches_pattern(p.skip(1), candidate.skip(1)) == (candidate.len()
                == 1));
            if candidate.len() == 1 && candidate[0] == byte {
                assert(candidate =~= seq![byte]);
            }
        }
    } else {
        assert(wildcard::matches_pattern(p.skip(1), candidate));
    }
}

/// A file matches where it is a regular file and its name does.
pub proof fn regular_files_match_by_name(pattern: Seq<char>, entry: DirEntryView)
    ensures
        wildcard::entry_matches(pattern, entry) == (entry.is_file && wildcard::matches_pattern(
            vstd::utf8::encode_utf8(pattern),
            vstd::utf8::encode_utf8(entry.name),
        )),
{
}

/// The files of a directory that match are all that do, in the order of its entries, each by its
/// path.
pub proof fn matching_files_by_path(
    dir: Seq<char>,
    pattern: Seq<char>,
    entries: Seq<DirEntryView>,
)
    ensures
        wildcard::matching_paths(dir, pattern, entries) == entries.filter(
            |entry: DirEntryView| wildcard::entry_matches(pattern, entry),
        ).map_values(|entry: DirEntryView| paths::joined(dir, entry.name)),
    decreases entries.len(),
{
    reveal(Seq::filter);
    let fits = |entry: DirEntryView| wildcard::entry_matches(pattern, entry);
    let path = |entry: DirEntryView| paths::joined(dir, entry.name);
    if entries.len() > 0 {
        let front = entries.drop_last();
        matching_files_by_path(dir, pattern, front);
        if fits(entries.last()) {
            assert(front.filter(fits).push(entries.last()).map_values(path) =~= front.filter(
                fits,
            ).map_values(path).push(path(entries.last())));
        }
    } else {
        assert(entries.filter(fits).map_values(path) =~= Seq::empty());
    }
}

/// The files that a pattern is given: all that match, sorted, where there are at most 200;
/// otherwise the first 200 of the directory, sorted, and that there are more. A directory that is
/// not there gives none, and one that cannot be read a warning.
pub proof fn pattern_is_given_its_files(
    raw: Seq<char>,
    dir: Seq<char>,
    pattern: Seq<char>,
    entries: Seq<DirEntryView>,
    reason: Seq<char>,
)
    ensures
        ({
            let all = wildcard::matching_paths(dir, pattern, entries);
            let (files, warnings, more) = wildcard::listed(
                raw,
                dir,
                pattern,
                DirOutcomeView::Entries(entries),
            );
            let first = if all.len() > 200 {
                all.take(200)
            } else {
                all
            };
            &&& files.to_multiset() == first.to_multiset()
            &&& forall|i: int, j: int|
                0 <= i < j < files.len() ==> order::text_le(
                    #[trigger] files[i],
                    #[trigger] files[j],
                )
            &&& warnings == Seq::<Seq<char>>::empty()
            &&& more == (all.len() > 200)
        }),
        wildcard::listed(raw, dir, pattern, DirOutcomeView::Missing) == (
            Seq::<Seq<char>>::empty(),
            Seq::<Seq<char>>::empty(),
            false,
        ),
        wildcard::listed(raw, dir, pattern, DirOutcomeView::Failed(reason)) == (
            Seq::<Seq<char>>::empty(),
            seq![
                "Ignoring tracked pattern "@ + raw + ": "@ + ("failed to read "@ + dir + ": "@
                    + reason),
            ],
            false,
        ),
{
    let all = wildcard::matching_paths(dir, pattern, entries);
    text_laws::sorting_orders_all_texts(all);
    text_laws::sorting_orders_all_texts(all.take(200));
}

/// A path without wildcards stands for itself; one with two stars in a row is refused.
pub proof fn plain_paths_and_double_stars(raw: Seq<char>)
    ensures
        !raw.contains('*') && !raw.contains('?') ==> wildcard::plan_of(raw)
            == WildcardPlanView::Literal(raw),
        (exists|i: int| 0 <= i && i + 1 < raw.len() && #[trigger] raw[i] == '*' && raw[i + 1] == '*')
            ==> wildcard::plan_of(raw) == WildcardPlanView::Rejected(
            "Ignoring tracked pattern "@ + raw + ": "@
                + "recursive wildcards (`**`) are not supported"@,
        ),
{
    reveal_strlit("**");
    let two = "**"@;
    if text::contains_text(raw, two) {
        let at = choose|at: int| text::stands_at(raw, two, at);
        assert(raw.subrange(at, at + 2)[0] == '*');
        assert(raw[at] == '*');
        assert(raw.contains('*'));
    }
    if exists|i: int|
        0 <= i && i + 1 < raw.len() && #[trigger] raw[i] == '*' && raw[i + 1] == '*' {
        let i = choose|i: int|
            0 <= i && i + 1 < raw.len() && #[trigger] raw[i] == '*' && raw[i + 1] == '*';
        assert(raw.subrange(i, i + 2) =~= two);
        assert(text::stands_at(raw, two, i));
    }
}

/// The directory of a path, which is the current one where none is given.
pub open spec fn directory_of(raw: Seq<char>) -> Seq<char> {
    match paths::path_parent(raw) {
        Some(dir) => if dir.len() == 0 {
            "."@
        } else {
            dir
        },
        None => "."@,
    }
}

/// A component of the path holds a wildcard.
pub open spec fn wildcard_in_a_component(path: Seq<char>) -> bool {
    exists|i: int|
        0 <= i < paths::path_components(path).len() && ((#[trigger] paths::path_components(
            path,
        )[i]).contains('*') || paths::path_components(path)[i].contains('?'))
}

/// What the directory of a path is, and where a component holds a wildcard.
pub proof fn directories_and_wildcards(raw: Seq<char>, dir: Seq<char>)
    ensures
        paths::path_parent(raw) is Some && (paths::path_parent(raw)->0).len() > 0 ==> directory_of(
            raw,
        ) == paths::path_parent(raw)->0,
        paths::path_parent(raw) is None || (paths::path_parent(raw)->0).len() == 0 ==> directory_of(
            raw,
        ) == "."@,
        wildcard_in_a_component(dir) == exists|i: int|
            0 <= i < paths::path_components(dir).len() && ((#[trigger] paths::path_components(
                dir,
            )[i]).contains('*') || paths::path_components(dir)[i].contains('?')),
{
}

/// A path with wildcards in its name alone stands for the files of its directory whose names match;
/// with wildcards elsewhere, or without a name, it is refused.
pub proof fn wildcards_stand_in_the_name(raw: Seq<char>)
    requires
        raw.contains('*') || raw.contains('?'),
        forall|i: int| 0 <= i && i + 1 < raw.len() && #[trigger] raw[i] == '*' ==> raw[i + 1] != '*',
    ensures
        ({
            let name = paths::path_file_name(raw);
            let dir = directory_of(raw);
            let elsewhere = wildcard_in_a_component(dir);
            &&& name is None ==> wildcard::plan_of(raw) == WildcardPlanView::Rejected(
                "Ignoring tracked pattern "@ + raw + ": "@
                    + "wildcard patterns must end in a filename segment"@,
            )
            &&& name is Some && elsewhere ==> wildcard::plan_of(raw) == WildcardPlanView::Rejected(
                "Ignoring tracked pattern "@ + raw + ": "@
                    + "wildcards are only supported in the final path segment"@,
            )
            &&& name is Some && !elsewhere ==> wildcard::plan_of(raw) == (WildcardPlanView::List {
                dir,
                pattern: name->0,
            })
        }),
{
    reveal_strlit("**");
    let two = "**"@;
    if text::contains_text(raw, two) {
        let at = choose|at: int| text::stands_at(raw, two, at);
        let found = raw.subrange(at, at + 2);
        assert(found[0] == '*' && found[1] == '*');
        assert(raw[at] == '*' && raw[at + 1] == '*');
    }
    wildcards_are_told_by_components(directory_of(raw));
}

/// A path holds wildcards where one of its components does.
pub proof fn wildcards_are_told_by_components(path: Seq<char>)
    ensures
        wildcard::path_has_wildcards(path) == wildcard_in_a_component(path),
{
    if wildcard::path_has_wildcards(path) {
        let i = choose|i: int|
            0 <= i < paths::path_components(path).len() && wildcard::has_wildcards(
                #[trigger] paths::path_components(path)[i],
            );
        let part = paths::path_components(path)[i];
        assert(part.contains('*') || part.contains('?'));
    }
    if wildcard_in_a_component(path) {
        let i = choose|i: int|
            0 <= i < paths::path_components(path).len() && ((#[trigger] paths::path_components(
                path,
            )[i]).contains('*') || paths::path_components(path)[i].contains('?'));
        assert(wildcard::has_wildcards(paths::path_components(path)[i]));
    }
}

/// A path with `{today}` has a rendering for each of its formats, in their order; any other has one.
pub proof fn today_has_a_rendering_for_each_format(raw: Seq<char>, date: CalendarDate)
    ensures
        text::contains_text(raw, "{today}"@) ==> {
            &&& resolver::rendered(raw, date).len() == dates::today_formats().len()
            &&& forall|i: int|
                0 <= i < dates::today_formats().len() ==> #[trigger] resolver::rendered(
                    raw,
                    date,
                )[i] == date.applied(
                    text::replaced(
                        raw,
                        "{today}"@,
                        date.formatted(dates::today_formats()[i]),
                    ),
                )
        },
        !text::contains_text(raw, "{today}"@) ==> resolver::rendered(raw, date) == seq![
            date.applied(raw),
        ],
{
}

/// The formats of `{today}`: with the year in full, without it and with two digits of it, each
/// compact, with dashes and with underscores.
pub proof fn formats_of_today()
    ensures
        dates::today_formats() == seq![
            "yyyymmdd"@,
            "yyyy-mm-dd"@,
            "yyyy_mm_dd"@,
            "mmdd"@,
            "mm-dd"@,
            "mm_dd"@,
            "yymmdd"@,
            "yy-mm-dd"@,
            "yy_mm_dd"@,
        ],
{
}

/// A text depends on the date where it holds `{today}` or a placeholder that is filled in.
pub proof fn dated_texts_hold_a_placeholder(s: Seq<char>)
    ensures
        dates::has_placeholder(s) == (text::contains_text(s, "{today}"@)
            || token_laws::holds_token(s)),
        resolver::date_sensitive(s) == dates::has_placeholder(s),
        resolver::dynamic(s) == (dates::has_placeholder(s) || s.contains('*') || s.contains('?')),
{
    if dates::has_placeholder(s) {
        let i = choose|i: int|
            0 <= i < dates::placeholders().len() && text::contains_text(
                s,
                #[trigger] dates::placeholders()[i],
            );
        if i > 0 {
            assert(token_laws::tokens()[i - 1] == dates::placeholders()[i]);
        }
    }
    if text::contains_text(s, "{today}"@) {
        assert(dates::placeholders()[0] == "{today}"@);
    }
    if token_laws::holds_token(s) {
        let i = choose|i: int|
            0 <= i < token_laws::tokens().len() && text::contains_text(
                s,
                #[trigger] token_laws::tokens()[i],
            );
        assert(dates::placeholders()[i + 1] == token_laws::tokens()[i]);
    }
}

/// One rendering stands for itself, for the files of a directory, or for nothing but a warning.
pub proof fn rendering_stands_for_its_files(path: Seq<char>, snapshot: &Snapshot)
    ensures
        match wildcard::plan_of(path) {
            WildcardPlanView::Rejected(warning) => resolver::expanded(path, snapshot) == (
                Seq::<Seq<char>>::empty(),
                seq![warning],
                false,
            ),
            WildcardPlanView::Literal(literal) => resolver::expanded(path, snapshot) == (
                seq![literal],
                Seq::<Seq<char>>::empty(),
                false,
            ),
            WildcardPlanView::List { dir, pattern } => resolver::expanded(path, snapshot)
                == wildcard::listed(path, dir, pattern, snapshot.dir_at(dir)),
        },
{
}

/// All renderings stand for what each of them does, one behind the other.
pub proof fn renderings_are_taken_together(list: Seq<Seq<char>>, snapshot: &Snapshot)
    ensures
        resolver::all_expanded(list, snapshot).0 == list.map_values(
            |path: Seq<char>| resolver::expanded(path, snapshot).0,
        ).flatten(),
        resolver::all_expanded(list, snapshot).1 == list.map_values(
            |path: Seq<char>| resolver::expanded(path, snapshot).1,
        ).flatten(),
        resolver::all_expanded(list, snapshot).2 == exists|i: int|
            0 <= i < list.len() && resolver::expanded(#[trigger] list[i], snapshot).2,
{
    renderings_one_by_one(
        list,
        snapshot,
        |path: Seq<char>| resolver::expanded(path, snapshot).0,
        |path: Seq<char>| resolver::expanded(path, snapshot).1,
    );
}

proof fn renderings_one_by_one(
    list: Seq<Seq<char>>,
    snapshot: &Snapshot,
    files: spec_fn(Seq<char>) -> Seq<Seq<char>>,
    warnings: spec_fn(Seq<char>) -> Seq<Seq<char>>,
)
    requires
        files == (|path: Seq<char>| resolver::expanded(path, snapshot).0),
        warnings == (|path: Seq<char>| resolver::expanded(path, snapshot).1),
    ensures
        resolver::all_expanded(list, snapshot).0 == list.map_values(files).flatten(),
        resolver::all_expanded(list, snapshot).1 == list.map_values(warnings).flatten(),
        resolver::all_expanded(list, snapshot).2 == exists|i: int|
            0 <= i < list.len() && resolver::expanded(#[trigger] list[i], snapshot).2,
    decreases list.len(),
{
    if list.len() > 0 {
        let front = list.drop_last();
        let last: int = list.len() - 1;
        renderings_one_by_one(front, snapshot, files, warnings);
        assert(list.map_values(files) =~= front.map_values(files).push(files(list.last())));
        assert(list.map_values(warnings) =~= front.map_values(warnings).push(
            warnings(list.last()),
        ));
        front.map_values(files).lemma_flatten_push(files(list.last()));
        front.map_values(warnings).lemma_flatten_push(warnings(list.last()));
        assert(list[last] == list.last());
        if exists|i: int|
            0 <= i < front.len() && resolver::expanded(#[trigger] front[i], snapshot).2 {
            let i = choose|i: int|
                0 <= i < front.len() && resolver::expanded(#[trigger] front[i], snapshot).2;
            assert(list[i] == front[i]);
        }
        if exists|i: int|
            0 <= i < list.len() && resolver::expanded(#[trigger] list[i], snapshot).2 {
            let i = choose|i: int|
                0 <= i < list.len() && resolver::expanded(#[trigger] list[i], snapshot).2;
            if i < last {
                assert(front[i] == list[i]);
            }
        }
    } else {
        assert(list.map_values(files) =~= Seq::empty());
        assert(list.map_values(warnings) =~= Seq::empty());
        assert(Seq::<Seq<Seq<char>>>::empty().flatten() =~= Seq::empty());
    }
}

/// A tracked path stands for the first 200 of the files that its renderings stand for, each once;
/// that there are more is the last warning, and the others are those of the renderings.
pub proof fn tracked_path_stands_for_its_files(
    raw: Seq<char>,
    date: CalendarDate,
    snapshot: &Snapshot,
)
    ensures
        ({
            let (all, warnings, more) = resolver::all_expanded(
                resolver::rendered(raw, date),
                snapshot,
            );
            let each = resolver::distinct_paths(all);
            let name = if text::contains_text(raw, "{today}"@) {
                raw
            } else {
                date.applied(raw)
            };
            &&& each.len() <= 200 ==> resolver::resolved(raw, date, snapshot) == each
            &&& each.len() > 200 ==> resolver::resolved(raw, date, snapshot) == each.take(200)
            &&& !more && each.len() <= 200 ==> resolver::resolution_warnings(raw, date, snapshot)
                == warnings
            &&& more || each.len() > 200 ==> resolver::resolution_warnings(raw, date, snapshot)
                == warnings + seq![
                "Tracked pattern "@ + name
                    + " matched more than 200 files; using the first 200 matches"@,
            ]
        }),
{
    let (all, warnings, more) = resolver::all_expanded(resolver::rendered(raw, date), snapshot);
    let warning = wildcard::too_many(resolver::capped_name(raw, date));
    assert(warnings.push(warning) =~= warnings + seq![warning]);
}

} // verus!
