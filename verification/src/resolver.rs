//! From a tracked path, which may hold placeholders and wildcards, to the files it stands for.

use crate::dates;
use crate::dates::CalendarDate;
use crate::dates::DateTokens;
use crate::paths;
use crate::snapshot::DirOutcomeView;
use crate::snapshot::Snapshot;
use crate::text;
use crate::wildcard;
use crate::wildcard::WildcardPlan;
use crate::wildcard::WildcardPlanView;
use vstd::prelude::*;

verus! {

/// The paths that `raw` stands for on the given day, before wildcards are expanded: one for each
/// date format where it holds `{today}`, otherwise one.
pub open spec fn rendered(raw: Seq<char>, date: CalendarDate) -> Seq<Seq<char>> {
    if text::contains_text(raw, "{today}"@) {
        dates::today_formats().map_values(
            |name: Seq<char>|
                date.applied(text::replaced(raw, "{today}"@, date.formatted(name))),
        )
    } else {
        seq![date.applied(raw)]
    }
}

/// The files that one rendered path stands for, the warnings about it, and whether more files match.
pub open spec fn expanded(raw: Seq<char>, snapshot: &Snapshot) -> (
    Seq<Seq<char>>,
    Seq<Seq<char>>,
    bool,
) {
    match wildcard::plan_of(raw) {
        WildcardPlanView::Rejected(warning) => (seq![], seq![warning], false),
        WildcardPlanView::Literal(path) => (seq![path], seq![], false),
        WildcardPlanView::List { dir, pattern } => wildcard::listed(
            raw,
            dir,
            pattern,
            snapshot.dir_at(dir),
        ),
    }
}

/// The files that rendered paths stand for and the warnings about them, one path after the other,
/// and whether more files match one of them.
pub open spec fn all_expanded(rendered: Seq<Seq<char>>, snapshot: &Snapshot) -> (
    Seq<Seq<char>>,
    Seq<Seq<char>>,
    bool,
)
    decreases rendered.len(),
{
    if rendered.len() == 0 {
        (seq![], seq![], false)
    } else {
        let front = all_expanded(rendered.drop_last(), snapshot);
        let last = expanded(rendered.last(), snapshot);
        (front.0 + last.0, front.1 + last.1, front.2 || last.2)
    }
}

/// The path stands in the list, in some spelling.
pub open spec fn lists_path(list: Seq<Seq<char>>, path: Seq<char>) -> bool {
    exists|i: int| 0 <= i < list.len() && paths::same_path(#[trigger] list[i], path)
}

/// The paths of the list, each where it comes first.
pub open spec fn distinct_paths(list: Seq<Seq<char>>) -> Seq<Seq<char>>
    decreases list.len(),
{
    if list.len() == 0 {
        seq![]
    } else {
        let front = distinct_paths(list.drop_last());
        if lists_path(list.drop_last(), list.last()) {
            front
        } else {
            front.push(list.last())
        }
    }
}

/// No path stands in the list twice.
pub open spec fn paths_differ(list: Seq<Seq<char>>) -> bool {
    forall|i: int, j: int|
        0 <= i < j < list.len() ==> !paths::same_path(#[trigger] list[i], #[trigger] list[j])
}

/// Keeping each path where it comes first keeps every path, and none twice.
pub proof fn distinct_paths_keep_each_once(list: Seq<Seq<char>>)
    ensures
        paths_differ(distinct_paths(list)),
        forall|path: Seq<char>|
            lists_path(distinct_paths(list), path) == #[trigger] lists_path(list, path),
    decreases list.len(),
{
    if list.len() > 0 {
        let front = list.drop_last();
        let kept = distinct_paths(list);
        distinct_paths_keep_each_once(front);
        assert forall|path: Seq<char>| lists_path(kept, path) == #[trigger] lists_path(
            list,
            path,
        ) by {
            lists_path_in_front(list, path);
            if !lists_path(front, list.last()) {
                lists_path_in_front(kept, path);
                assert(kept.drop_last() =~= distinct_paths(front));
            } else if paths::same_path(list.last(), path) {
                let i = choose|i: int|
                    0 <= i < front.len() && paths::same_path(#[trigger] front[i], list.last());
                assert(paths::same_path(front[i], path));
            }
        }
        if !lists_path(front, list.last()) {
            assert forall|i: int, j: int| 0 <= i < j < kept.len() implies !paths::same_path(
                #[trigger] kept[i],
                #[trigger] kept[j],
            ) by {
                let before = distinct_paths(front);
                if j < before.len() {
                    assert(before[i] == kept[i] && before[j] == kept[j]);
                } else {
                    assert(!lists_path(before, list.last()));
                    assert(before[i] == kept[i]);
                }
            }
        }
    }
}

proof fn lists_path_in_front(list: Seq<Seq<char>>, path: Seq<char>)
    requires
        list.len() > 0,
    ensures
        lists_path(list, path) == (lists_path(list.drop_last(), path) || paths::same_path(
            list.last(),
            path,
        )),
{
    let front = list.drop_last();
    if lists_path(list, path) {
        let i = choose|i: int|
            0 <= i < list.len() && paths::same_path(#[trigger] list[i], path);
        if i < front.len() {
            assert(paths::same_path(front[i], path));
        }
    }
    if lists_path(front, path) {
        let i = choose|i: int|
            0 <= i < front.len() && paths::same_path(#[trigger] front[i], path);
        assert(paths::same_path(list[i], path));
    }
    if paths::same_path(list.last(), path) {
        assert(paths::same_path(list[list.len() - 1], path));
    }
}

/// The keys are the components of the paths.
pub open spec fn are_keys(keys: Seq<Vec<Vec<char>>>, list: Seq<Seq<char>>) -> bool {
    &&& keys.len() == list.len()
    &&& forall|i: int|
        0 <= i < keys.len() ==> text::char_lists((#[trigger] keys[i])@) == paths::path_components(
            list[i],
        )
}

/// The key is one of the list.
pub open spec fn lists_key(keys: Seq<Vec<Vec<char>>>, key: Seq<Seq<char>>) -> bool {
    exists|i: int| 0 <= i < keys.len() && text::char_lists((#[trigger] keys[i])@) == key
}

/// A path stands in a list exactly where its components are among the keys.
pub proof fn listed_by_key(keys: Seq<Vec<Vec<char>>>, list: Seq<Seq<char>>, path: Seq<char>)
    requires
        are_keys(keys, list),
    ensures
        lists_key(keys, paths::path_components(path)) == lists_path(list, path),
{
    if lists_key(keys, paths::path_components(path)) {
        let i = choose|i: int|
            0 <= i < keys.len() && text::char_lists((#[trigger] keys[i])@)
                == paths::path_components(path);
        assert(paths::same_path(list[i], path));
    }
    if lists_path(list, path) {
        let i = choose|i: int| 0 <= i < list.len() && paths::same_path(#[trigger] list[i], path);
        assert(text::char_lists(keys[i]@) == paths::path_components(path));
    }
}

/// The components of the paths.
pub fn path_keys(list: &Vec<String>) -> (res: Vec<Vec<Vec<char>>>)
    ensures
        are_keys(res@, text::texts(list@)),
{
    let mut res: Vec<Vec<Vec<char>>> = Vec::new();
    let mut i: usize = 0;
    while i < list.len()
        invariant
            i <= list@.len(),
            res@.len() == i,
            forall|j: int|
                0 <= j < i ==> text::char_lists((#[trigger] res@[j])@) == paths::path_components(
                    list@[j]@,
                ),
        decreases list@.len() - i,
    {
        res.push(paths::components(list[i].as_str()));
        i = i + 1;
    }
    res
}

/// Whether the key is one of the list.
pub fn is_key_listed(keys: &Vec<Vec<Vec<char>>>, key: &Vec<Vec<char>>) -> (res: bool)
    ensures
        res == lists_key(keys@, text::char_lists(key@)),
{
    let mut i: usize = 0;
    while i < keys.len()
        invariant
            i <= keys@.len(),
            forall|j: int|
                0 <= j < i ==> text::char_lists((#[trigger] keys@[j])@) != text::char_lists(key@),
        decreases keys@.len() - i,
    {
        if paths::same_components(&keys[i], key) {
            assert(text::char_lists(keys@[i as int]@) == text::char_lists(key@));
            return true;
        }
        i = i + 1;
    }
    false
}

/// Whether the path stands in the list, in some spelling.
pub fn is_path_listed(list: &Vec<String>, path: &str) -> (res: bool)
    ensures
        res == lists_path(text::texts(list@), path@),
{
    let keys: Vec<Vec<Vec<char>>> = path_keys(list);
    proof {
        listed_by_key(keys@, text::texts(list@), path@);
    }
    is_key_listed(&keys, &paths::components(path))
}

/// The files that a tracked path stands for, and the warnings about it.
#[derive(Debug)]
pub struct ResolvedPaths {
    pub paths: Vec<String>,
    pub warnings: Vec<String>,
}

/// A tracked path as it was given.
#[derive(Debug)]
pub struct PathResolver {
    pub raw: String,
}

/// The path depends on the date.
pub open spec fn date_sensitive(raw: Seq<char>) -> bool {
    dates::has_placeholder(raw)
}

/// The path can stand for other files later.
pub open spec fn dynamic(raw: Seq<char>) -> bool {
    date_sensitive(raw) || wildcard::has_wildcards(raw)
}

/// The first entries of the list, up to `max`.
pub open spec fn first_entries(list: Seq<Seq<char>>, max: nat) -> Seq<Seq<char>> {
    if list.len() > max {
        list.take(max as int)
    } else {
        list
    }
}

/// The files that a tracked path stands for on the given day: those of its renderings, each once,
/// up to the cap.
pub open spec fn resolved(raw: Seq<char>, date: CalendarDate, snapshot: &Snapshot) -> Seq<
    Seq<char>,
> {
    first_entries(
        distinct_paths(all_expanded(rendered(raw, date), snapshot).0),
        wildcard::MAX_WILDCARD_MATCHES as nat,
    )
}

/// More files match a tracked path on the given day than it stands for.
pub open spec fn exceeds_cap(raw: Seq<char>, date: CalendarDate, snapshot: &Snapshot) -> bool {
    let all = all_expanded(rendered(raw, date), snapshot);
    all.2 || distinct_paths(all.0).len() > wildcard::MAX_WILDCARD_MATCHES
}

/// How a tracked path is named where more files match: as it is rendered, or as it was given where
/// it has several renderings.
pub open spec fn capped_name(raw: Seq<char>, date: CalendarDate) -> Seq<char> {
    if rendered(raw, date).len() == 1 {
        rendered(raw, date)[0]
    } else {
        raw
    }
}

/// The warnings about a tracked path on the given day: those about its renderings, and that more
/// files match than it stands for.
pub open spec fn resolution_warnings(
    raw: Seq<char>,
    date: CalendarDate,
    snapshot: &Snapshot,
) -> Seq<Seq<char>> {
    let warnings = all_expanded(rendered(raw, date), snapshot).1;
    if exceeds_cap(raw, date, snapshot) {
        warnings.push(wildcard::too_many(capped_name(raw, date)))
    } else {
        warnings
    }
}

/// The directories that must be listed to expand the rendered paths.
pub open spec fn dirs_needed(rendered: Seq<Seq<char>>) -> Seq<Seq<char>>
    decreases rendered.len(),
{
    if rendered.len() == 0 {
        seq![]
    } else {
        let front = dirs_needed(rendered.drop_last());
        match wildcard::plan_of(rendered.last()) {
            WildcardPlanView::List { dir, pattern } => front.push(dir),
            _ => front,
        }
    }
}

impl PathResolver {
    /// A resolver of the path.
    pub fn new(path: &str) -> (res: PathResolver)
        ensures
            res.raw@ == path@,
    {
        PathResolver { raw: path.to_owned() }
    }

    fn render(&self, date: CalendarDate) -> (res: Vec<String>)
        ensures
            text::texts(res@) == rendered(self.raw@, date),
    {
        let tokens: DateTokens = DateTokens::for_date(date);
        let mut res: Vec<String> = Vec::new();
        if text::contains(self.raw.as_str(), "{today}") {
            let names: Vec<&'static str> = dates::today_format_names();
            let ghost wanted = rendered(self.raw@, date);
            let mut i: usize = 0;
            proof {
                reveal_strlit("{today}");
            }
            while i < names.len()
                invariant
                    tokens@ == date,
                    "{today}"@.len() > 0,
                    text::slices(names@) == dates::today_formats(),
                    wanted.len() == names@.len(),
                    wanted == dates::today_formats().map_values(
                        |name: Seq<char>|
                            date.applied(
                                text::replaced(self.raw@, "{today}"@, date.formatted(name)),
                            ),
                    ),
                    i <= names@.len(),
                    text::texts(res@) == wanted.take(i as int),
                decreases names@.len() - i,
            {
                assert(dates::today_formats()[i as int] == names@[i as int]@);
                let ghost before = text::texts(res@);
                let candidate: String = text::replace(
                    self.raw.as_str(),
                    "{today}",
                    tokens.value_for(names[i]).as_str(),
                );
                res.push(tokens.apply(candidate.as_str()));
                i = i + 1;
                assert(text::texts(res@) =~= before.push(wanted[i - 1]));
                assert(wanted.take(i as int) =~= before.push(wanted[i - 1]));
            }
            assert(wanted.take(i as int) =~= wanted);
        } else {
            res.push(tokens.apply(self.raw.as_str()));
            assert(text::texts(res@) =~= rendered(self.raw@, date));
        }
        res
    }

    /// The files that the path stands for on the given day, and the warnings about it.
    pub fn resolve_paths_for_date(&self, date: CalendarDate, snapshot: &Snapshot) -> (res:
        ResolvedPaths)
        ensures
            text::texts(res.paths@) == resolved(self.raw@, date, snapshot),
            text::texts(res.warnings@) == resolution_warnings(self.raw@, date, snapshot),
            paths_differ(text::texts(res.paths@)),
    {
        let candidates: Vec<String> = self.render(date);
        let ghost wanted = rendered(self.raw@, date);
        let mut found: Vec<String> = Vec::new();
        let mut warnings: Vec<String> = Vec::new();
        let mut capped: bool = false;
        let mut i: usize = 0;
        assert(text::texts(found@) =~= seq![]);
        assert(text::texts(warnings@) =~= seq![]);
        while i < candidates.len()
            invariant
                text::texts(candidates@) == wanted,
                i <= candidates@.len(),
                (text::texts(found@), text::texts(warnings@), capped) == all_expanded(
                    wanted.take(i as int),
                    snapshot,
                ),
            decreases candidates@.len() - i,
        {
            let ghost found_before = text::texts(found@);
            let ghost warnings_before = text::texts(warnings@);
            proof {
                assert(wanted.take(i + 1).drop_last() =~= wanted.take(i as int));
                assert(wanted.take(i + 1).last() == candidates@[i as int]@);
            }
            let ghost next = expanded(candidates@[i as int]@, snapshot);
            let (mut more, mut more_warnings, exceeded) = expand_wildcard_pattern(
                candidates[i].as_str(),
                snapshot,
            );
            found.append(&mut more);
            warnings.append(&mut more_warnings);
            capped = capped || exceeded;
            assert(text::texts(found@) =~= found_before + next.0);
            assert(text::texts(warnings@) =~= warnings_before + next.1);
            i = i + 1;
        }
        assert(wanted.take(i as int) =~= wanted);
        let mut paths: Vec<String> = keep_distinct(&found);
        let ghost distinct = text::texts(paths@);
        let ghost given = text::texts(warnings@);
        if paths.len() > wildcard::MAX_WILDCARD_MATCHES {
            capped = true;
            paths.truncate(wildcard::MAX_WILDCARD_MATCHES);
            assert(text::texts(paths@) =~= distinct.take(wildcard::MAX_WILDCARD_MATCHES as int));
        }
        if capped {
            let name: &str = if candidates.len() == 1 {
                candidates[0].as_str()
            } else {
                self.raw.as_str()
            };
            assert(name@ == capped_name(self.raw@, date));
            warnings.push(wildcard::too_many_warning(name));
            assert(text::texts(warnings@) =~= given.push(wildcard::too_many(name@)));
        }
        proof {
            resolved_paths_differ(self.raw@, date, snapshot);
        }
        ResolvedPaths { paths, warnings }
    }

    /// The directories that must be listed to resolve the path on the given day.
    pub fn dirs_to_list(&self, date: CalendarDate) -> (res: Vec<String>)
        ensures
            text::texts(res@) == dirs_needed(rendered(self.raw@, date)),
    {
        let candidates: Vec<String> = self.render(date);
        let ghost wanted = rendered(self.raw@, date);
        let mut res: Vec<String> = Vec::new();
        let mut i: usize = 0;
        assert(text::texts(res@) =~= dirs_needed(wanted.take(0)));
        while i < candidates.len()
            invariant
                text::texts(candidates@) == wanted,
                i <= candidates@.len(),
                text::texts(res@) == dirs_needed(wanted.take(i as int)),
            decreases candidates@.len() - i,
        {
            let ghost before = text::texts(res@);
            proof {
                assert(wanted.take(i + 1).drop_last() =~= wanted.take(i as int));
                assert(wanted.take(i + 1).last() == candidates@[i as int]@);
            }
            match wildcard::plan_wildcard(candidates[i].as_str()) {
                WildcardPlan::List { dir, pattern: _ } => {
                    let ghost last = dir@;
                    res.push(dir);
                    assert(text::texts(res@) =~= before.push(last));
                },
                _ => {},
            }
            i = i + 1;
        }
        assert(wanted.take(i as int) =~= wanted);
        res
    }

    /// Whether the path depends on the date.
    pub fn is_date_sensitive(&self) -> (res: bool)
        ensures
            res == date_sensitive(self.raw@),
    {
        dates::contains_placeholder(self.raw.as_str())
    }

    /// Whether the path can stand for other files later.
    pub fn is_dynamic(&self) -> (res: bool)
        ensures
            res == dynamic(self.raw@),
    {
        self.is_date_sensitive() || wildcard::contains_wildcards(self.raw.as_str())
    }
}

/// The files that one rendered path stands for, the warnings about it, and whether more files match.
pub fn expand_wildcard_pattern(raw: &str, snapshot: &Snapshot) -> (res: (
    Vec<String>,
    Vec<String>,
    bool,
))
    ensures
        (text::texts(res.0@), text::texts(res.1@), res.2) == expanded(raw@, snapshot),
{
    let mut found: Vec<String> = Vec::new();
    let mut warnings: Vec<String> = Vec::new();
    match wildcard::plan_wildcard(raw) {
        WildcardPlan::Rejected(warning) => {
            let ghost reason = warning@;
            warnings.push(warning);
            assert(text::texts(found@) =~= seq![]);
            assert(text::texts(warnings@) =~= seq![reason]);
            (found, warnings, false)
        },
        WildcardPlan::Literal(path) => {
            let ghost literal = path@;
            found.push(path);
            assert(text::texts(found@) =~= seq![literal]);
            assert(text::texts(warnings@) =~= seq![]);
            (found, warnings, false)
        },
        WildcardPlan::List { dir, pattern } => wildcard::select_wildcard_matches(
            raw,
            dir.as_str(),
            pattern.as_str(),
            snapshot.dir(&dir),
        ),
    }
}

/// The paths of the list, each where it comes first.
fn keep_distinct(list: &Vec<String>) -> (res: Vec<String>)
    ensures
        text::texts(res@) == distinct_paths(text::texts(list@)),
{
    let ghost all = text::texts(list@);
    let mut res: Vec<String> = Vec::new();
    let mut keys: Vec<Vec<Vec<char>>> = Vec::new();
    let mut i: usize = 0;
    assert(text::texts(res@) =~= distinct_paths(all.take(0)));
    while i < list.len()
        invariant
            all == text::texts(list@),
            i <= list@.len(),
            text::texts(res@) == distinct_paths(all.take(i as int)),
            are_keys(keys@, text::texts(res@)),
        decreases list@.len() - i,
    {
        let ghost before = text::texts(res@);
        let ghost known = keys@;
        let ghost path = list@[i as int]@;
        proof {
            assert(all.take(i + 1).drop_last() =~= all.take(i as int));
            assert(all.take(i + 1).last() == path);
            distinct_paths_keep_each_once(all.take(i as int));
            listed_by_key(known, before, path);
        }
        let key: Vec<Vec<char>> = paths::components(list[i].as_str());
        if !is_key_listed(&keys, &key) {
            res.push(list[i].clone());
            keys.push(key);
            proof {
                assert(text::texts(res@) =~= before.push(path));
                assert forall|j: int| 0 <= j < keys@.len() implies text::char_lists(
                    (#[trigger] keys@[j])@,
                ) == paths::path_components(text::texts(res@)[j]) by {
                    if j < known.len() {
                        assert(keys@[j] == known[j]);
                    }
                }
            }
        }
        i = i + 1;
    }
    assert(all.take(i as int) =~= all);
    res
}

/// Two snapshots answer the same of every directory in the list.
pub open spec fn agree_on_dirs(a: &Snapshot, b: &Snapshot, dirs: Seq<Seq<char>>) -> bool {
    forall|i: int| 0 <= i < dirs.len() ==> a.dir_at(#[trigger] dirs[i]) == b.dir_at(dirs[i])
}

proof fn expansion_reads_needed_dirs(list: Seq<Seq<char>>, a: &Snapshot, b: &Snapshot)
    requires
        agree_on_dirs(a, b, dirs_needed(list)),
    ensures
        all_expanded(list, a) == all_expanded(list, b),
    decreases list.len(),
{
    if list.len() > 0 {
        let front = dirs_needed(list.drop_last());
        let all = dirs_needed(list);
        assert forall|i: int| 0 <= i < front.len() implies a.dir_at(#[trigger] front[i])
            == b.dir_at(front[i]) by {
            assert(all[i] == front[i]);
        }
        expansion_reads_needed_dirs(list.drop_last(), a, b);
        match wildcard::plan_of(list.last()) {
            WildcardPlanView::List { dir, pattern } => {
                assert(all[front.len() as int] == dir);
            },
            _ => {},
        }
    }
}

/// What a tracked path stands for depends on no directory but those that are asked for.
pub proof fn resolution_reads_needed_dirs(
    raw: Seq<char>,
    date: CalendarDate,
    a: &Snapshot,
    b: &Snapshot,
)
    requires
        agree_on_dirs(a, b, dirs_needed(rendered(raw, date))),
    ensures
        resolved(raw, date, a) == resolved(raw, date, b),
        resolution_warnings(raw, date, a) == resolution_warnings(raw, date, b),
{
    expansion_reads_needed_dirs(rendered(raw, date), a, b);
}

/// A rendering holds a wildcard only where the tracked path does.
pub proof fn renderings_bring_in_no_wildcards(raw: Seq<char>, date: CalendarDate, i: int)
    requires
        !wildcard::has_wildcards(raw),
        0 <= i < rendered(raw, date).len(),
    ensures
        !wildcard::has_wildcards(rendered(raw, date)[i]),
{
    let one = rendered(raw, date)[i];
    assert(dates::drawn_from(raw, raw));
    if text::contains_text(raw, "{today}"@) {
        let name = dates::today_formats()[i];
        let filled = text::replaced(raw, "{today}"@, date.formatted(name));
        dates::filling_in_adds_digits_and_separators(date, raw, raw, name);
        dates::filling_in_adds_digits_and_separators(date, raw, filled, name);
        assert(one == date.applied(filled));
    } else {
        dates::filling_in_adds_digits_and_separators(date, raw, raw, "mmdd"@);
    }
    assert forall|c: char| c == '*' || c == '?' implies !one.contains(c) by {
        if one.contains(c) {
            let k = choose|k: int| 0 <= k < one.len() && one[k] == c;
            assert(raw.contains(one[k]) || dates::date_char(one[k]));
        }
    }
}

/// Text without wildcards is followed as it stands.
pub proof fn wildcardless_text_is_literal(s: Seq<char>)
    requires
        !wildcard::has_wildcards(s),
    ensures
        wildcard::plan_of(s) == WildcardPlanView::Literal(s),
{
    if text::contains_text(s, "**"@) {
        let at = choose|at: int| text::stands_at(s, "**"@, at);
        reveal_strlit("**");
        assert(s.subrange(at, at + 2)[0] == '*');
        assert(s[at] == '*');
    }
}

proof fn literal_renderings(list: Seq<Seq<char>>, snapshot: &Snapshot)
    requires
        forall|i: int| 0 <= i < list.len() ==> !wildcard::has_wildcards(#[trigger] list[i]),
    ensures
        all_expanded(list, snapshot) == (list, Seq::<Seq<char>>::empty(), false),
        dirs_needed(list) == Seq::<Seq<char>>::empty(),
        distinct_paths(list).len() <= list.len(),
    decreases list.len(),
{
    if list.len() > 0 {
        let front = list.drop_last();
        assert forall|i: int| 0 <= i < front.len() implies !wildcard::has_wildcards(
            #[trigger] front[i],
        ) by {
            assert(front[i] == list[i]);
        }
        literal_renderings(front, snapshot);
        assert(!wildcard::has_wildcards(list[list.len() - 1]));
        wildcardless_text_is_literal(list.last());
        assert(all_expanded(list, snapshot).0 =~= list);
        assert(all_expanded(list, snapshot).1 =~= seq![]);
    } else {
        assert(list =~= seq![]);
    }
}

/// A path without wildcards stands for its renderings, each once, whatever the directories list;
/// none is asked for, and there is nothing to warn about.
pub proof fn wildcardless_path_stands_for_its_renderings(
    raw: Seq<char>,
    date: CalendarDate,
    snapshot: &Snapshot,
)
    requires
        !wildcard::has_wildcards(raw),
    ensures
        resolved(raw, date, snapshot) == distinct_paths(rendered(raw, date)),
        resolution_warnings(raw, date, snapshot) == Seq::<Seq<char>>::empty(),
        dirs_needed(rendered(raw, date)) == Seq::<Seq<char>>::empty(),
{
    let list = rendered(raw, date);
    assert forall|i: int| 0 <= i < list.len() implies !wildcard::has_wildcards(
        #[trigger] list[i],
    ) by {
        renderings_bring_in_no_wildcards(raw, date, i);
    }
    literal_renderings(list, snapshot);
    assert(list.len() <= 9);
}

proof fn only_path_is_distinct(path: Seq<char>)
    ensures
        distinct_paths(seq![path]) == seq![path],
{
    let one = seq![path];
    assert(one.drop_last() =~= seq![]);
    assert(distinct_paths(one.drop_last()) =~= seq![]);
    assert(!lists_path(one.drop_last(), path));
    assert(distinct_paths(one) =~= one);
}

/// A path without wildcards and without `{today}` stands for one file a day.
pub proof fn dated_path_stands_for_one_file(
    raw: Seq<char>,
    date: CalendarDate,
    snapshot: &Snapshot,
)
    requires
        !wildcard::has_wildcards(raw),
        !text::contains_text(raw, "{today}"@),
    ensures
        resolved(raw, date, snapshot) == seq![date.applied(raw)],
        resolution_warnings(raw, date, snapshot) == Seq::<Seq<char>>::empty(),
{
    wildcardless_path_stands_for_its_renderings(raw, date, snapshot);
    only_path_is_distinct(date.applied(raw));
}

/// A path without placeholders and wildcards stands for itself, on every day and whatever exists.
pub proof fn plain_path_stands_for_itself(raw: Seq<char>, date: CalendarDate, snapshot: &Snapshot)
    requires
        !dynamic(raw),
    ensures
        resolved(raw, date, snapshot) == seq![raw],
        resolution_warnings(raw, date, snapshot) == Seq::<Seq<char>>::empty(),
        dirs_needed(rendered(raw, date)) == Seq::<Seq<char>>::empty(),
{
    dates::dateless_text_is_unchanged(date, raw);
    assert(!text::contains_text(raw, "{today}"@)) by {
        assert(dates::placeholders()[0] == "{today}"@);
    }
    dated_path_stands_for_one_file(raw, date, snapshot);
    wildcardless_path_stands_for_its_renderings(raw, date, snapshot);
}

/// A warning that says that a pattern is ignored.
proof fn ignoring_is_not_too_many(raw: Seq<char>, other: Seq<char>, reason: Seq<char>)
    ensures
        wildcard::ignoring(other, reason) != wildcard::too_many(raw),
{
    reveal_strlit("Ignoring tracked pattern ");
    reveal_strlit("Tracked pattern ");
    assert(wildcard::ignoring(other, reason)[0] == 'I');
    assert(wildcard::too_many(raw)[0] == 'T');
}

proof fn renderings_do_not_warn_of_the_cap(
    raw: Seq<char>,
    list: Seq<Seq<char>>,
    snapshot: &Snapshot,
)
    ensures
        !all_expanded(list, snapshot).1.contains(wildcard::too_many(raw)),
    decreases list.len(),
{
    if list.len() > 0 {
        renderings_do_not_warn_of_the_cap(raw, list.drop_last(), snapshot);
        let front = all_expanded(list.drop_last(), snapshot).1;
        let last = list.last();
        let more = expanded(last, snapshot).1;
        let all = all_expanded(list, snapshot).1;
        ignoring_is_not_too_many(raw, last, "recursive wildcards (`**`) are not supported"@);
        ignoring_is_not_too_many(raw, last, "wildcard patterns must end in a filename segment"@);
        ignoring_is_not_too_many(
            raw,
            last,
            "wildcards are only supported in the final path segment"@,
        );
        match wildcard::plan_of(last) {
            WildcardPlanView::List { dir, pattern } => {
                match snapshot.dir_at(dir) {
                    DirOutcomeView::Failed(reason) => {
                        ignoring_is_not_too_many(
                            raw,
                            last,
                            "failed to read "@ + dir + ": "@ + reason,
                        );
                    },
                    _ => {},
                }
            },
            _ => {},
        }
        if all.contains(wildcard::too_many(raw)) {
            let i = choose|i: int| 0 <= i < all.len() && all[i] == wildcard::too_many(raw);
            if i < front.len() {
                assert(front[i] == all[i]);
            } else {
                assert(more[i - front.len()] == all[i]);
            }
        }
    }
}

/// A path stands for each file once.
pub proof fn resolved_paths_differ(raw: Seq<char>, date: CalendarDate, snapshot: &Snapshot)
    ensures
        paths_differ(resolved(raw, date, snapshot)),
{
    let all = distinct_paths(all_expanded(rendered(raw, date), snapshot).0);
    let kept = resolved(raw, date, snapshot);
    distinct_paths_keep_each_once(all_expanded(rendered(raw, date), snapshot).0);
    assert forall|i: int, j: int| 0 <= i < j < kept.len() implies !paths::same_path(
        #[trigger] kept[i],
        #[trigger] kept[j],
    ) by {
        assert(kept[i] == all[i] && kept[j] == all[j]);
    }
}

/// A tracked path stands for no more files than the cap, on any day and whatever the directories
/// list; and a warning names it exactly where more files match.
pub proof fn resolved_paths_are_capped(raw: Seq<char>, date: CalendarDate, snapshot: &Snapshot)
    ensures
        resolved(raw, date, snapshot).len() <= wildcard::MAX_WILDCARD_MATCHES,
        resolution_warnings(raw, date, snapshot).contains(
            wildcard::too_many(capped_name(raw, date)),
        )
            == exceeds_cap(raw, date, snapshot),
{
    let list = rendered(raw, date);
    renderings_do_not_warn_of_the_cap(capped_name(raw, date), list, snapshot);
    if exceeds_cap(raw, date, snapshot) {
        let all = resolution_warnings(raw, date, snapshot);
        assert(all[all.len() - 1] == wildcard::too_many(capped_name(raw, date)));
    }
}

} // verus!
