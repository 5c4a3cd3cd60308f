//! File name patterns with the wildcards `*` and `?`.

use crate::order;
use crate::paths;
use crate::snapshot::DirEntry;
use crate::snapshot::DirEntryView;
use crate::snapshot::DirOutcome;
use crate::snapshot::DirOutcomeView;
use crate::text;
use vstd::prelude::*;

verus! {

/// `candidate` matches `pattern`: `*` stands for any bytes, `?` for one byte, every other byte for
/// itself.
pub open spec fn matches_pattern(pattern: Seq<u8>, candidate: Seq<u8>) -> bool
    decreases pattern.len() + candidate.len(),
{
    if pattern.len() == 0 {
        candidate.len() == 0
    } else if pattern[0] == 0x2A {
        ||| matches_pattern(pattern.skip(1), candidate)
        ||| candidate.len() > 0 && matches_pattern(pattern, candidate.skip(1))
    } else {
        &&& candidate.len() > 0
        &&& pattern[0] == 0x3F || pattern[0] == candidate[0]
        &&& matches_pattern(pattern.skip(1), candidate.skip(1))
    }
}

/// The pattern byte `p`, which is not a star, accepts the byte `c`.
spec fn accepts(p: u8, c: u8) -> bool {
    p != 0x2A && (p == 0x3F || p == c)
}

/// The pattern from `a` to `b`, without stars, accepts the bytes of `c` from `k` on.
spec fn segment_fits(p: Seq<u8>, a: int, b: int, c: Seq<u8>, k: int) -> bool {
    &&& k + (b - a) <= c.len()
    &&& forall|j: int| a <= j < b ==> accepts(#[trigger] p[j], c[k + j - a])
}

proof fn fitting_segment_decides(p: Seq<u8>, a: int, b: int, c: Seq<u8>, k: int)
    requires
        0 <= a <= b <= p.len(),
        0 <= k,
        segment_fits(p, a, b, c, k),
    ensures
        matches_pattern(p.skip(a), c.skip(k)) == matches_pattern(p.skip(b), c.skip(k + (b - a))),
    decreases b - a,
{
    if a < b {
        assert(accepts(p[a], c[k + a - a]));
        assert(p.skip(a).skip(1) =~= p.skip(a + 1));
        assert(c.skip(k).skip(1) =~= c.skip(k + 1));
        assert(segment_fits(p, a + 1, b, c, k + 1)) by {
            assert forall|j: int| a + 1 <= j < b implies accepts(
                #[trigger] p[j],
                c[k + 1 + j - (a + 1)],
            ) by {
                assert(accepts(p[j], c[k + j - a]));
            }
        }
        fitting_segment_decides(p, a + 1, b, c, k + 1);
    }
}

proof fn segment_consumes(p: Seq<u8>, a: int, b: int, c: Seq<u8>, k: int)
    requires
        0 <= a <= b <= p.len(),
        0 <= k <= c.len(),
        forall|j: int| a <= j < b ==> #[trigger] p[j] != 0x2A,
        matches_pattern(p.skip(a), c.skip(k)),
    ensures
        k + (b - a) <= c.len(),
        matches_pattern(p.skip(b), c.skip(k + (b - a))),
    decreases b - a,
{
    if a < b {
        assert(p[a] != 0x2A);
        assert(p.skip(a).skip(1) =~= p.skip(a + 1));
        assert(c.skip(k).skip(1) =~= c.skip(k + 1));
        segment_consumes(p, a + 1, b, c, k + 1);
    }
}

proof fn star_absorbs(p: Seq<u8>, c: Seq<u8>, i: int, j: int)
    requires
        p.len() > 0,
        p[0] == 0x2A,
        0 <= i <= j <= c.len(),
        matches_pattern(p, c.skip(j)),
    ensures
        matches_pattern(p, c.skip(i)),
    decreases j - i,
{
    if i < j {
        star_absorbs(p, c, i + 1, j);
        assert(c.skip(i).skip(1) =~= c.skip(i + 1));
    }
}

proof fn star_tries(p: Seq<u8>, c: Seq<u8>, i: int) -> (j: int)
    requires
        p.len() > 0,
        p[0] == 0x2A,
        0 <= i <= c.len(),
        matches_pattern(p, c.skip(i)),
    ensures
        i <= j <= c.len(),
        matches_pattern(p.skip(1), c.skip(j)),
    decreases c.len() - i,
{
    if matches_pattern(p.skip(1), c.skip(i)) {
        i
    } else {
        assert(c.skip(i).skip(1) =~= c.skip(i + 1));
        star_tries(p, c, i + 1)
    }
}

/// Where the pattern's segment behind the star at `s` fits at `mi` and ends before another star,
/// what is left is decided from there on.
proof fn first_fit_suffices(p: Seq<u8>, c: Seq<u8>, s: int, mi: int, pi: int, ci: int)
    requires
        0 <= s < pi < p.len(),
        p[s] == 0x2A,
        p[pi] == 0x2A,
        0 <= mi,
        ci == mi + (pi - s - 1),
        segment_fits(p, s + 1, pi, c, mi),
    ensures
        matches_pattern(p.skip(s), c.skip(mi)) == matches_pattern(p.skip(pi), c.skip(ci)),
{
    fitting_segment_decides(p, s + 1, pi, c, mi);
    assert(p.skip(s).skip(1) =~= p.skip(s + 1));
    if matches_pattern(p.skip(s), c.skip(mi)) {
        let k = star_tries(p.skip(s), c, mi);
        assert forall|j: int| s + 1 <= j < pi implies #[trigger] p[j] != 0x2A by {
            assert(accepts(p[j], c[mi + j - (s + 1)]));
        }
        segment_consumes(p, s + 1, pi, c, k);
        star_absorbs(p.skip(pi), c, ci, k + (pi - s - 1));
    }
}

/// Where the segment behind the star at `s` fits up to the end of the candidate, no later start can
/// succeed.
proof fn last_fit_decides(p: Seq<u8>, c: Seq<u8>, s: int, mi: int, pi: int)
    requires
        0 <= s < pi <= p.len(),
        p[s] == 0x2A,
        0 <= mi,
        c.len() == mi + (pi - s - 1),
        segment_fits(p, s + 1, pi, c, mi),
    ensures
        matches_pattern(p.skip(s), c.skip(mi)) == matches_pattern(
            p.skip(pi),
            c.skip(c.len() as int),
        ),
{
    fitting_segment_decides(p, s + 1, pi, c, mi);
    assert(p.skip(s).skip(1) =~= p.skip(s + 1));
    if matches_pattern(p.skip(s), c.skip(mi)) {
        let k = star_tries(p.skip(s), c, mi);
        assert forall|j: int| s + 1 <= j < pi implies #[trigger] p[j] != 0x2A by {
            assert(accepts(p[j], c[mi + j - (s + 1)]));
        }
        segment_consumes(p, s + 1, pi, c, k);
    }
}

/// How far the search has come: the pattern up to `pi` fits the candidate up to `ci`, counted from
/// the last star `star`, tried at `mi`, where there was one.
spec fn searched(p: Seq<u8>, c: Seq<u8>, star: Option<usize>, mi: int, pi: int, ci: int) -> bool {
    &&& 0 <= pi <= p.len()
    &&& 0 <= mi <= ci <= c.len()
    &&& match star {
        None => mi == 0 && pi == ci && segment_fits(p, 0, pi, c, 0),
        Some(s) => {
            &&& s < pi
            &&& p[s as int] == 0x2A
            &&& ci == mi + (pi - s - 1)
            &&& segment_fits(p, s + 1, pi, c, mi)
            &&& matches_pattern(p, c) == matches_pattern(p.skip(s as int), c.skip(mi))
        },
    }
}

proof fn search_takes_star(p: Seq<u8>, c: Seq<u8>, star: Option<usize>, mi: int, pi: usize, ci: int)
    requires
        searched(p, c, star, mi, pi as int, ci),
        pi < p.len(),
        p[pi as int] == 0x2A,
    ensures
        searched(p, c, Some(pi), ci, pi + 1, ci),
{
    assert(p.skip(0) =~= p);
    assert(c.skip(0) =~= c);
    match star {
        None => fitting_segment_decides(p, 0, pi as int, c, 0),
        Some(s) => first_fit_suffices(p, c, s as int, mi, pi as int, ci),
    }
}

proof fn search_takes_byte(p: Seq<u8>, c: Seq<u8>, star: Option<usize>, mi: int, pi: int, ci: int)
    requires
        searched(p, c, star, mi, pi, ci),
        pi < p.len(),
        ci < c.len(),
        accepts(p[pi], c[ci]),
    ensures
        searched(p, c, star, mi, pi + 1, ci + 1),
{
}

proof fn search_steps_back(p: Seq<u8>, c: Seq<u8>, s: usize, mi: int, pi: int, ci: int)
    requires
        searched(p, c, Some(s), mi, pi, ci),
        ci < c.len(),
        pi == p.len() || (p[pi] != 0x2A && !accepts(p[pi], c[ci])),
    ensures
        searched(p, c, Some(s), mi + 1, s + 1, mi + 1),
{
    fitting_segment_decides(p, s + 1, pi, c, mi);
    assert(p.skip(s as int).skip(1) =~= p.skip(s + 1));
    assert(c.skip(mi).skip(1) =~= c.skip(mi + 1));
}

proof fn search_fails(p: Seq<u8>, c: Seq<u8>, mi: int, pi: int, ci: int)
    requires
        searched(p, c, None, mi, pi, ci),
        ci < c.len(),
        pi == p.len() || (p[pi] != 0x2A && !accepts(p[pi], c[ci])),
    ensures
        !matches_pattern(p, c),
{
    assert(p.skip(0) =~= p);
    assert(c.skip(0) =~= c);
    fitting_segment_decides(p, 0, pi, c, 0);
}

proof fn search_ends(p: Seq<u8>, c: Seq<u8>, star: Option<usize>, mi: int, pi: int)
    requires
        searched(p, c, star, mi, pi, c.len() as int),
    ensures
        matches_pattern(p, c) == matches_pattern(p.skip(pi), Seq::<u8>::empty()),
{
    assert(p.skip(0) =~= p);
    assert(c.skip(0) =~= c);
    assert(c.skip(c.len() as int) =~= Seq::<u8>::empty());
    match star {
        None => fitting_segment_decides(p, 0, pi, c, 0),
        Some(s) => last_fit_decides(p, c, s as int, mi, pi),
    }
}

/// Whether `candidate` matches `pattern`.
pub fn wildcard_match(pattern: &str, candidate: &str) -> (res: bool)
    ensures
        res == matches_pattern(
            vstd::utf8::encode_utf8(pattern@),
            vstd::utf8::encode_utf8(candidate@),
        ),
{
    bytes_match(pattern.as_bytes(), candidate.as_bytes())
}

fn bytes_match(p: &[u8], c: &[u8]) -> (res: bool)
    ensures
        res == matches_pattern(p@, c@),
{
    let mut pi: usize = 0;
    let mut ci: usize = 0;
    let mut star: Option<usize> = None;
    let mut mi: usize = 0;
    while ci < c.len()
        invariant
            searched(p@, c@, star, mi as int, pi as int, ci as int),
        decreases c@.len() - mi, p@.len() - pi,
    {
        if pi < p.len() && p[pi] == 0x2A {
            proof {
                search_takes_star(p@, c@, star, mi as int, pi, ci as int);
            }
            star = Some(pi);
            mi = ci;
            pi = pi + 1;
        } else if pi < p.len() && (p[pi] == 0x3F || p[pi] == c[ci]) {
            proof {
                search_takes_byte(p@, c@, star, mi as int, pi as int, ci as int);
            }
            pi = pi + 1;
            ci = ci + 1;
        } else {
            match star {
                None => {
                    proof {
                        search_fails(p@, c@, mi as int, pi as int, ci as int);
                    }
                    return false;
                },
                Some(s) => {
                    proof {
                        search_steps_back(p@, c@, s, mi as int, pi as int, ci as int);
                    }
                    pi = s + 1;
                    mi = mi + 1;
                    ci = mi;
                },
            }
        }
    }
    proof {
        search_ends(p@, c@, star, mi as int, pi as int);
    }
    while pi < p.len() && p[pi] == 0x2A
        invariant
            pi <= p@.len(),
            matches_pattern(p@, c@) == matches_pattern(p@.skip(pi as int), Seq::<u8>::empty()),
        decreases p@.len() - pi,
    {
        assert(p@.skip(pi as int).skip(1) =~= p@.skip(pi + 1));
        pi = pi + 1;
    }
    pi == p.len()
}

/// At most so many files are followed for one pattern.
pub const MAX_WILDCARD_MATCHES: usize = 200;

/// The text holds a wildcard.
pub open spec fn has_wildcards(s: Seq<char>) -> bool {
    s.contains('*') || s.contains('?')
}

/// Whether the text holds a wildcard.
pub fn contains_wildcards(raw: &str) -> (res: bool)
    ensures
        res == has_wildcards(raw@),
{
    let chars: Vec<char> = text::chars_of(raw);
    has_wildcard_chars(chars.as_slice())
}

fn has_wildcard_chars(chars: &[char]) -> (res: bool)
    ensures
        res == has_wildcards(chars@),
{
    let mut i: usize = 0;
    while i < chars.len()
        invariant
            i <= chars@.len(),
            forall|j: int| 0 <= j < i ==> chars@[j] != '*' && chars@[j] != '?',
        decreases chars@.len() - i,
    {
        if chars[i] == '*' || chars[i] == '?' {
            return true;
        }
        i = i + 1;
    }
    false
}

/// A component of the path holds a wildcard.
pub open spec fn path_has_wildcards(s: Seq<char>) -> bool {
    exists|i: int|
        0 <= i < paths::path_components(s).len() && has_wildcards(
            #[trigger] paths::path_components(s)[i],
        )
}

/// Whether a component of the path holds a wildcard.
pub fn contains_wildcards_in_path(path: &str) -> (res: bool)
    ensures
        res == path_has_wildcards(path@),
{
    let all: Vec<Vec<char>> = paths::components(path);
    let ghost components = paths::path_components(path@);
    let mut i: usize = 0;
    while i < all.len()
        invariant
            text::char_lists(all@) == components,
            components == paths::path_components(path@),
            i <= all@.len(),
            forall|j: int| 0 <= j < i ==> !has_wildcards(#[trigger] components[j]),
        decreases all@.len() - i,
    {
        assert(components[i as int] == all@[i as int]@);
        if has_wildcard_chars(all[i].as_slice()) {
            return true;
        }
        i = i + 1;
    }
    false
}

/// How a tracked path is to be expanded.
#[derive(Debug, Clone)]
pub enum WildcardPlan {
    /// Not at all, for the given reason.
    Rejected(String),
    /// As it stands.
    Literal(String),
    /// To the files of a directory whose names match a pattern.
    List { dir: String, pattern: String },
}

/// How a tracked path is to be expanded, as contracts speak of it.
pub enum WildcardPlanView {
    Rejected(Seq<char>),
    Literal(Seq<char>),
    List { dir: Seq<char>, pattern: Seq<char> },
}

impl View for WildcardPlan {
    type V = WildcardPlanView;

    open spec fn view(&self) -> WildcardPlanView {
        match self {
            WildcardPlan::Rejected(reason) => WildcardPlanView::Rejected(reason@),
            WildcardPlan::Literal(path) => WildcardPlanView::Literal(path@),
            WildcardPlan::List { dir, pattern } => WildcardPlanView::List {
                dir: dir@,
                pattern: pattern@,
            },
        }
    }
}

/// The warning that a tracked pattern is ignored.
pub open spec fn ignoring(raw: Seq<char>, reason: Seq<char>) -> Seq<char> {
    "Ignoring tracked pattern "@ + raw + ": "@ + reason
}

fn ignoring_text(raw: &str, reason: &str) -> (res: String)
    ensures
        res@ == ignoring(raw@, reason@),
{
    let mut res: String = "Ignoring tracked pattern ".to_owned();
    res.append(raw);
    res.append(": ");
    res.append(reason);
    res
}

/// How the tracked path `raw` is to be expanded. A name without a directory stands in the current
/// one.
pub open spec fn plan_of(raw: Seq<char>) -> WildcardPlanView {
    if text::contains_text(raw, "**"@) {
        WildcardPlanView::Rejected(
            ignoring(raw, "recursive wildcards (`**`) are not supported"@),
        )
    } else if !has_wildcards(raw) {
        WildcardPlanView::Literal(raw)
    } else {
        match paths::path_file_name(raw) {
            None => WildcardPlanView::Rejected(
                ignoring(raw, "wildcard patterns must end in a filename segment"@),
            ),
            Some(name) => {
                let dir = match paths::path_parent(raw) {
                    Some(dir) => if dir.len() == 0 {
                        "."@
                    } else {
                        dir
                    },
                    None => "."@,
                };
                if path_has_wildcards(dir) {
                    WildcardPlanView::Rejected(
                        ignoring(
                            raw,
                            "wildcards are only supported in the final path segment"@,
                        ),
                    )
                } else {
                    WildcardPlanView::List { dir, pattern: name }
                }
            },
        }
    }
}

/// How the tracked path `raw` is to be expanded.
pub fn plan_wildcard(raw: &str) -> (res: WildcardPlan)
    ensures
        res@ == plan_of(raw@),
{
    if text::contains(raw, "**") {
        return WildcardPlan::Rejected(
            ignoring_text(raw, "recursive wildcards (`**`) are not supported"),
        );
    }
    if !contains_wildcards(raw) {
        return WildcardPlan::Literal(raw.to_owned());
    }
    let pattern: Vec<char> = match paths::file_name(raw) {
        Some(name) => name,
        None => {
            return WildcardPlan::Rejected(
                ignoring_text(raw, "wildcard patterns must end in a filename segment"),
            );
        },
    };
    let dir: String = match paths::parent(raw) {
        Some(dir) => if dir.as_str().unicode_len() == 0 {
            ".".to_owned()
        } else {
            dir
        },
        None => ".".to_owned(),
    };
    if contains_wildcards_in_path(dir.as_str()) {
        return WildcardPlan::Rejected(
            ignoring_text(raw, "wildcards are only supported in the final path segment"),
        );
    }
    WildcardPlan::List { dir, pattern: text::text_of(pattern.as_slice()) }
}

/// A directory entry is a file whose name matches the pattern.
pub open spec fn entry_matches(pattern: Seq<char>, entry: DirEntryView) -> bool {
    entry.is_file && matches_pattern(
        vstd::utf8::encode_utf8(pattern),
        vstd::utf8::encode_utf8(entry.name),
    )
}

/// The paths of the entries that match, in the order of the listing.
pub open spec fn matching_paths(
    dir: Seq<char>,
    pattern: Seq<char>,
    entries: Seq<DirEntryView>,
) -> Seq<Seq<char>>
    decreases entries.len(),
{
    if entries.len() == 0 {
        seq![]
    } else {
        let front = matching_paths(dir, pattern, entries.drop_last());
        if entry_matches(pattern, entries.last()) {
            front.push(paths::joined(dir, entries.last().name))
        } else {
            front
        }
    }
}

/// The warning that a pattern matched more files than are followed.
pub open spec fn too_many(raw: Seq<char>) -> Seq<char> {
    "Tracked pattern "@ + raw + " matched more than 200 files; using the first 200 matches"@
}

/// The warning that a pattern matched more files than are followed.
pub fn too_many_warning(raw: &str) -> (res: String)
    ensures
        res@ == too_many(raw@),
{
    text::concat3(
        "Tracked pattern ",
        raw,
        " matched more than 200 files; using the first 200 matches",
    )
}

/// The files that a pattern stands for, the warnings about it, and whether more files match, given
/// what its directory lists: the first matches of the listing, up to the cap, in order.
pub open spec fn listed(
    raw: Seq<char>,
    dir: Seq<char>,
    pattern: Seq<char>,
    outcome: DirOutcomeView,
) -> (Seq<Seq<char>>, Seq<Seq<char>>, bool) {
    match outcome {
        DirOutcomeView::Missing => (seq![], seq![], false),
        DirOutcomeView::Failed(reason) => (
            seq![],
            seq![ignoring(raw, "failed to read "@ + dir + ": "@ + reason)],
            false,
        ),
        DirOutcomeView::Entries(entries) => {
            let all = matching_paths(dir, pattern, entries);
            if all.len() > MAX_WILDCARD_MATCHES {
                (order::sorted_texts(all.take(MAX_WILDCARD_MATCHES as int)), seq![], true)
            } else {
                (order::sorted_texts(all), seq![], false)
            }
        },
    }
}

/// The files that a pattern stands for, the warnings about it, and whether more files match, given
/// what its directory lists. `None` stands for a directory that does not exist.
#[verifier::loop_isolation(false)]
pub fn select_wildcard_matches(
    raw: &str,
    dir: &str,
    pattern: &str,
    outcome: Option<&DirOutcome>,
) -> (res: (Vec<String>, Vec<String>, bool))
    ensures
        (text::texts(res.0@), text::texts(res.1@), res.2) == listed(
            raw@,
            dir@,
            pattern@,
            match outcome {
                Some(outcome) => outcome@,
                None => DirOutcomeView::Missing,
            },
        ),
{
    let mut warnings: Vec<String> = Vec::new();
    let mut matched: Vec<String> = Vec::new();
    match outcome {
        None => {
            assert(text::texts(matched@) =~= seq![]);
            assert(text::texts(warnings@) =~= seq![]);
            (matched, warnings, false)
        },
        Some(DirOutcome::Missing) => {
            assert(text::texts(matched@) =~= seq![]);
            assert(text::texts(warnings@) =~= seq![]);
            (matched, warnings, false)
        },
        Some(DirOutcome::Failed(reason)) => {
            let mut detail: String = "failed to read ".to_owned();
            detail.append(dir);
            detail.append(": ");
            detail.append(reason.as_str());
            warnings.push(ignoring_text(raw, detail.as_str()));
            assert(text::texts(matched@) =~= seq![]);
            assert(text::texts(warnings@) =~= seq![
                ignoring(raw@, "failed to read "@ + dir@ + ": "@ + reason@),
            ]);
            (matched, warnings, false)
        },
        Some(DirOutcome::Entries(entries)) => {
            let ghost views = entries@.map_values(|entry: DirEntry| entry@);
            let mut capped: bool = false;
            let mut i: usize = 0;
            let ghost cap = MAX_WILDCARD_MATCHES as int;
            assert(text::texts(matched@) =~= matching_paths(dir@, pattern@, views.take(0)));
            while i < entries.len()
                invariant
                    i <= entries@.len(),
                    ({
                        let all = matching_paths(dir@, pattern@, views.take(i as int));
                        &&& capped == (all.len() > cap)
                        &&& text::texts(matched@) == (if capped {
                            all.take(cap)
                        } else {
                            all
                        })
                    }),
                decreases entries@.len() - i,
            {
                let ghost all = matching_paths(dir@, pattern@, views.take(i as int));
                let ghost before = text::texts(matched@);
                proof {
                    assert(views.take(i + 1).drop_last() =~= views.take(i as int));
                    assert(views.take(i + 1).last() == entries@[i as int]@);
                }
                if entries[i].is_file && wildcard_match(pattern, entries[i].name.as_str()) {
                    let ghost path = paths::joined(dir@, entries@[i as int].name@);
                    if matched.len() < MAX_WILDCARD_MATCHES {
                        matched.push(paths::join(dir, entries[i].name.as_str()));
                        assert(text::texts(matched@) =~= before.push(path));
                    } else {
                        capped = true;
                        assert(all.push(path).take(cap) =~= all.take(cap));
                        assert(all.len() == cap ==> all.take(cap) =~= all);
                    }
                }
                i = i + 1;
            }
            assert(views.take(i as int) =~= views);
            let sorted: Vec<String> = order::sort(order::Order::Text, &matched);
            assert(text::texts(warnings@) =~= seq![]);
            (sorted, warnings, capped)
        },
    }
}

proof fn matching_paths_come_from_entries(
    dir: Seq<char>,
    pattern: Seq<char>,
    entries: Seq<DirEntryView>,
    i: int,
)
    requires
        0 <= i < matching_paths(dir, pattern, entries).len(),
    ensures
        is_match(dir, pattern, entries, matching_paths(dir, pattern, entries)[i]),
    decreases entries.len(),
{
    let front = entries.drop_last();
    if i < matching_paths(dir, pattern, front).len() {
        matching_paths_come_from_entries(dir, pattern, front, i);
        let j = choose|j: int|
            0 <= j < front.len() && entry_matches(pattern, #[trigger] front[j])
                && matching_paths(dir, pattern, front)[i] == paths::joined(dir, front[j].name);
        assert(entries[j] == front[j]);
    } else {
        assert(entry_matches(pattern, entries[entries.len() - 1]));
    }
}

/// The path is that of a file of the directory whose name matches.
pub open spec fn is_match(
    dir: Seq<char>,
    pattern: Seq<char>,
    entries: Seq<DirEntryView>,
    path: Seq<char>,
) -> bool {
    exists|j: int|
        0 <= j < entries.len() && entry_matches(pattern, #[trigger] entries[j]) && path
            == paths::joined(dir, entries[j].name)
}

/// A pattern stands for no more files than the cap, each of them a file of the directory whose name
/// matches, in the order of their texts.
pub proof fn listed_files_match(
    raw: Seq<char>,
    dir: Seq<char>,
    pattern: Seq<char>,
    entries: Seq<DirEntryView>,
)
    ensures
        ({
            let files = listed(raw, dir, pattern, DirOutcomeView::Entries(entries)).0;
            &&& files.len() <= MAX_WILDCARD_MATCHES
            &&& order::Order::Text.sorted(files)
            &&& forall|i: int|
                0 <= i < files.len() ==> is_match(dir, pattern, entries, #[trigger] files[i])
        }),
{
    let files = listed(raw, dir, pattern, DirOutcomeView::Entries(entries)).0;
    let all = matching_paths(dir, pattern, entries);
    let kept = if all.len() > MAX_WILDCARD_MATCHES {
        all.take(MAX_WILDCARD_MATCHES as int)
    } else {
        all
    };
    let leq = |a: Seq<char>, b: Seq<char>| order::text_le(a, b);
    order::text_order_is_total_ordering();
    kept.lemma_sort_by_ensures(leq);
    assert(files.to_multiset() == kept.to_multiset());
    kept.to_multiset_ensures();
    files.to_multiset_ensures();
    assert(files.len() == kept.len());
    assert forall|i: int, j: int| 0 <= i <= j < files.len() implies order::Order::Text.le(
        #[trigger] files[i],
        #[trigger] files[j],
    ) by {
        order::text_order_reflexive(files[i]);
        assert(i < j ==> leq(files[i], files[j]));
    }
    assert forall|i: int| 0 <= i < files.len() implies is_match(
        dir,
        pattern,
        entries,
        #[trigger] files[i],
    ) by {
        assert(files.to_multiset().count(files[i]) > 0);
        assert(kept.contains(files[i]));
        let k = choose|k: int| 0 <= k < kept.len() && kept[k] == files[i];
        assert(all[k] == files[i]);
        matching_paths_come_from_entries(dir, pattern, entries, k);
    }
}

/// Wildcards in a name without a directory are looked up in the current directory.
pub proof fn bare_pattern_looks_in_the_current_directory(name: Seq<char>)
    requires
        has_wildcards(name),
        !text::contains_text(name, "**"@),
        !name.contains('/'),
    ensures
        plan_of(name) == (WildcardPlanView::List { dir: "."@, pattern: name }),
{
    let none = Seq::<char>::empty();
    let i = choose|i: int| 0 <= i < name.len() && (name[i] == '*' || name[i] == '?');
    assert(name.contains(name[i]));
    assert(name != seq!['.'] && name != seq!['/']);
    assert(name != seq!['.', '.']);
    paths::join_adds_a_component(none, name);
    assert(paths::joined(none, name) == name);
    assert(paths::pieces(none, '/') =~= seq![none]);
    assert(paths::pieces(none, '/').drop_last() =~= seq![]);
    assert(paths::counted(paths::pieces(none, '/').drop_last()) =~= seq![]);
    assert(paths::path_components(none) =~= seq![]);
    let all = paths::path_components(name);
    assert(all =~= seq![name]);
    assert(all.drop_last() =~= paths::path_components(none));
    assert(name.take(0) =~= none);
    assert(paths::path_parent(name) == Some(none));
    reveal_strlit(".");
    assert("."@ =~= seq!['.']);
    if path_has_wildcards("."@) {
        let k = choose|k: int|
            0 <= k < paths::path_components("."@).len() && has_wildcards(
                #[trigger] paths::path_components("."@)[k],
            );
        paths::components_are_made_of_the_path("."@, k);
        let c = if paths::path_components("."@)[k].contains('*') {
            '*'
        } else {
            '?'
        };
        assert("."@.contains(c));
    }
}

/// Where no more files match than the cap, every one of them is among those that a pattern stands
/// for.
pub proof fn matching_file_is_listed(
    raw: Seq<char>,
    dir: Seq<char>,
    pattern: Seq<char>,
    entries: Seq<DirEntryView>,
    i: int,
)
    requires
        0 <= i < entries.len(),
        entry_matches(pattern, entries[i]),
        matching_paths(dir, pattern, entries).len() <= MAX_WILDCARD_MATCHES,
    ensures
        listed(raw, dir, pattern, DirOutcomeView::Entries(entries)).0.contains(
            paths::joined(dir, entries[i].name),
        ),
{
    let all = matching_paths(dir, pattern, entries);
    let files = order::sorted_texts(all);
    let path = paths::joined(dir, entries[i].name);
    let leq = |a: Seq<char>, b: Seq<char>| order::text_le(a, b);
    matching_entry_is_found(dir, pattern, entries, i);
    order::text_order_is_total_ordering();
    all.lemma_sort_by_ensures(leq);
    all.to_multiset_ensures();
    files.to_multiset_ensures();
    assert(all.to_multiset().count(path) > 0);
    assert(files.to_multiset().count(path) > 0);
}

proof fn matching_entry_is_found(
    dir: Seq<char>,
    pattern: Seq<char>,
    entries: Seq<DirEntryView>,
    i: int,
)
    requires
        0 <= i < entries.len(),
        entry_matches(pattern, entries[i]),
    ensures
        matching_paths(dir, pattern, entries).contains(paths::joined(dir, entries[i].name)),
    decreases entries.len(),
{
    let front = entries.drop_last();
    let before = matching_paths(dir, pattern, front);
    let all = matching_paths(dir, pattern, entries);
    let path = paths::joined(dir, entries[i].name);
    if i < front.len() {
        assert(front[i] == entries[i]);
        matching_entry_is_found(dir, pattern, front, i);
        let k = choose|k: int| 0 <= k < before.len() && before[k] == path;
        assert(all[k] == path);
    } else {
        assert(all[all.len() - 1] == path);
    }
}

} // verus!
