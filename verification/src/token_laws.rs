//! What filling in the placeholders of a date does to a text.

use crate::dates;
use crate::dates::CalendarDate;
use crate::suggestion_laws;
use crate::text;
use vstd::prelude::*;

verus! {

/// The placeholders that are filled in, in the order in which they are; `{today}` is not one of
/// them.
pub open spec fn tokens() -> Seq<Seq<char>> {
    seq![
        "{yyyymmdd}"@,
        "{yyyy-mm-dd}"@,
        "{yyyy_mm_dd}"@,
        "{yymmdd}"@,
        "{yy-mm-dd}"@,
        "{yy_mm_dd}"@,
        "{mmdd}"@,
        "{mm-dd}"@,
        "{mm_dd}"@,
        "{yyyy}"@,
        "{yy}"@,
        "{mm}"@,
        "{dd}"@,
    ]
}

/// What the placeholders are filled in with.
pub open spec fn values(date: CalendarDate) -> Seq<Seq<char>> {
    seq![
        date.formatted("yyyymmdd"@),
        date.formatted("yyyy-mm-dd"@),
        date.formatted("yyyy_mm_dd"@),
        date.formatted("yymmdd"@),
        date.formatted("yy-mm-dd"@),
        date.formatted("yy_mm_dd"@),
        date.formatted("mmdd"@),
        date.formatted("mm-dd"@),
        date.formatted("mm_dd"@),
        date.yyyy(),
        date.yy(),
        date.mm(),
        date.dd(),
    ]
}

/// The text holds a placeholder that is filled in.
pub open spec fn holds_token(s: Seq<char>) -> bool {
    exists|i: int| 0 <= i < tokens().len() && text::contains_text(s, #[trigger] tokens()[i])
}

/// The text once the first `k` placeholders have been filled in.
pub open spec fn filled(raw: Seq<char>, date: CalendarDate, k: nat) -> Seq<char>
    decreases k,
{
    if k == 0 {
        raw
    } else {
        text::replaced(
            filled(raw, date, (k - 1) as nat),
            tokens()[k - 1],
            values(date)[k - 1],
        )
    }
}

/// Filling in a date is filling in one placeholder after the other.
pub proof fn applied_is_filled(raw: Seq<char>, date: CalendarDate)
    ensures
        date.applied(raw) == filled(raw, date, 13),
{
    reveal_with_fuel(filled, 14);
}

/// A text in braces, without braces or digits inside.
pub open spec fn is_mark(s: Seq<char>) -> bool {
    &&& s.len() >= 3
    &&& s[0] == '{'
    &&& s.last() == '}'
    &&& forall|i: int| 0 < i < s.len() ==> #[trigger] s[i] != '{'
    &&& forall|i: int| 0 <= i < s.len() - 1 ==> #[trigger] s[i] != '}'
    &&& forall|i: int| 0 <= i < s.len() ==> !text::is_digit(#[trigger] s[i])
}

/// A text without braces that holds a digit.
pub open spec fn is_value(s: Seq<char>) -> bool {
    &&& forall|i: int| 0 <= i < s.len() ==> #[trigger] s[i] != '{'
    &&& forall|i: int| 0 <= i < s.len() ==> #[trigger] s[i] != '}'
    &&& exists|i: int| 0 <= i < s.len() && text::is_digit(#[trigger] s[i])
}

proof fn long_tokens_are_marks()
    ensures
        is_mark("{yyyymmdd}"@),
        is_mark("{yyyy-mm-dd}"@),
        is_mark("{yyyy_mm_dd}"@),
        is_mark("{yymmdd}"@),
        is_mark("{yy-mm-dd}"@),
        is_mark("{yy_mm_dd}"@),
{
    reveal_strlit("{yyyymmdd}");
    reveal_strlit("{yyyy-mm-dd}");
    reveal_strlit("{yyyy_mm_dd}");
    reveal_strlit("{yymmdd}");
    reveal_strlit("{yy-mm-dd}");
    reveal_strlit("{yy_mm_dd}");
}

proof fn short_tokens_are_marks()
    ensures
        is_mark("{today}"@),
        is_mark("{mmdd}"@),
        is_mark("{mm-dd}"@),
        is_mark("{mm_dd}"@),
        is_mark("{yyyy}"@),
        is_mark("{yy}"@),
        is_mark("{mm}"@),
        is_mark("{dd}"@),
{
    reveal_strlit("{today}");
    reveal_strlit("{mmdd}");
    reveal_strlit("{mm-dd}");
    reveal_strlit("{mm_dd}");
    reveal_strlit("{yyyy}");
    reveal_strlit("{yy}");
    reveal_strlit("{mm}");
    reveal_strlit("{dd}");
}

/// Every placeholder is a mark.
pub proof fn tokens_are_marks(i: int)
    requires
        0 <= i < tokens().len(),
    ensures
        is_mark(tokens()[i]),
        is_mark("{today}"@),
{
    long_tokens_are_marks();
    short_tokens_are_marks();
}

/// No placeholder holds a wildcard.
pub proof fn tokens_hold_no_wildcard(i: int)
    requires
        0 <= i < tokens().len(),
    ensures
        !tokens()[i].contains('*'),
        !tokens()[i].contains('?'),
{
    reveal_strlit("{yyyymmdd}");
    reveal_strlit("{yyyy-mm-dd}");
    reveal_strlit("{yyyy_mm_dd}");
    reveal_strlit("{yymmdd}");
    reveal_strlit("{yy-mm-dd}");
    reveal_strlit("{yy_mm_dd}");
    reveal_strlit("{mmdd}");
    reveal_strlit("{mm-dd}");
    reveal_strlit("{mm_dd}");
    reveal_strlit("{yyyy}");
    reveal_strlit("{yy}");
    reveal_strlit("{mm}");
    reveal_strlit("{dd}");
}

/// No two placeholders are the same.
pub proof fn tokens_differ(i: int, j: int)
    requires
        0 <= i < tokens().len(),
        0 <= j < tokens().len(),
        i != j,
    ensures
        tokens()[i] != tokens()[j],
{
    reveal_strlit("{yyyymmdd}");
    reveal_strlit("{yyyy-mm-dd}");
    reveal_strlit("{yyyy_mm_dd}");
    reveal_strlit("{yymmdd}");
    reveal_strlit("{yy-mm-dd}");
    reveal_strlit("{yy_mm_dd}");
    reveal_strlit("{mmdd}");
    reveal_strlit("{mm-dd}");
    reveal_strlit("{mm_dd}");
    reveal_strlit("{yyyy}");
    reveal_strlit("{yy}");
    reveal_strlit("{mm}");
    reveal_strlit("{dd}");
    assert("{yyyymmdd}"@.len() == 10 && "{yyyymmdd}"@[3] == 'y');
    assert("{yy-mm-dd}"@.len() == 10 && "{yy-mm-dd}"@[3] == '-');
    assert("{yy_mm_dd}"@.len() == 10 && "{yy_mm_dd}"@[3] == '_');
    assert("{yyyy-mm-dd}"@.len() == 12 && "{yyyy-mm-dd}"@[5] == '-');
    assert("{yyyy_mm_dd}"@.len() == 12 && "{yyyy_mm_dd}"@[5] == '_');
    assert("{yymmdd}"@.len() == 8);
    assert("{mmdd}"@.len() == 6 && "{mmdd}"@[1] == 'm');
    assert("{yyyy}"@.len() == 6 && "{yyyy}"@[1] == 'y');
    assert("{mm-dd}"@.len() == 7 && "{mm-dd}"@[3] == '-' && "{mm-dd}"@[1] == 'm');
    assert("{mm_dd}"@.len() == 7 && "{mm_dd}"@[3] == '_' && "{mm_dd}"@[1] == 'm');
    assert("{yy}"@.len() == 4 && "{yy}"@[1] == 'y');
    assert("{mm}"@.len() == 4 && "{mm}"@[1] == 'm');
    assert("{dd}"@.len() == 4 && "{dd}"@[1] == 'd');
}

/// `{today}` is no placeholder that is filled in.
pub proof fn today_is_no_token(i: int)
    requires
        0 <= i < tokens().len(),
    ensures
        tokens()[i] != "{today}"@,
{
    reveal_strlit("{today}");
    reveal_strlit("{yyyymmdd}");
    reveal_strlit("{yyyy-mm-dd}");
    reveal_strlit("{yyyy_mm_dd}");
    reveal_strlit("{yymmdd}");
    reveal_strlit("{yy-mm-dd}");
    reveal_strlit("{yy_mm_dd}");
    reveal_strlit("{mmdd}");
    reveal_strlit("{mm-dd}");
    reveal_strlit("{mm_dd}");
    reveal_strlit("{yyyy}");
    reveal_strlit("{yy}");
    reveal_strlit("{mm}");
    reveal_strlit("{dd}");
    assert("{today}"@[1] == 't');
    assert(tokens()[i][1] != 't');
}

/// A written date is a value.
proof fn written_date_is_a_value(s: Seq<char>)
    requires
        dates::drawn_from(s, Seq::<char>::empty()),
        dates::ends_in_a_digit(s),
    ensures
        is_value(s),
        !s.contains('/'),
{
    assert forall|i: int| 0 <= i < s.len() implies dates::date_char(#[trigger] s[i]) by {
        assert(Seq::<char>::empty().contains(s[i]) || dates::date_char(s[i]));
    }
    if s.contains('/') {
        let i = choose|i: int| 0 <= i < s.len() && s[i] == '/';
        assert(dates::date_char(s[i]));
    }
    assert(text::is_digit(s[s.len() - 1]));
}

proof fn format_is_a_value(date: CalendarDate, name: Seq<char>)
    ensures
        is_value(date.yyyy()),
        is_value(date.yy()),
        is_value(date.mm()),
        is_value(date.dd()),
        is_value(date.formatted(name)),
        !date.yyyy().contains('/'),
        !date.yy().contains('/'),
        !date.mm().contains('/'),
        !date.dd().contains('/'),
        !date.formatted(name).contains('/'),
{
    dates::written_date_is_plain(date, name, Seq::<char>::empty());
    dates::written_date_ends_in_a_digit(date, name);
    written_date_is_a_value(date.yyyy());
    written_date_is_a_value(date.yy());
    written_date_is_a_value(date.mm());
    written_date_is_a_value(date.dd());
    written_date_is_a_value(date.formatted(name));
}

/// What a placeholder is filled in with is a value.
pub proof fn token_values_hold_no_brace(date: CalendarDate, i: int)
    requires
        0 <= i < tokens().len(),
    ensures
        is_value(values(date)[i]),
        !values(date)[i].contains('/'),
{
    if i >= 9 {
        format_is_a_value(date, "mmdd"@);
    } else if i == 0 {
        format_is_a_value(date, "yyyymmdd"@);
    } else if i == 1 {
        format_is_a_value(date, "yyyy-mm-dd"@);
    } else if i == 2 {
        format_is_a_value(date, "yyyy_mm_dd"@);
    } else if i == 3 {
        format_is_a_value(date, "yymmdd"@);
    } else if i == 4 {
        format_is_a_value(date, "yy-mm-dd"@);
    } else if i == 5 {
        format_is_a_value(date, "yy_mm_dd"@);
    } else if i == 6 {
        format_is_a_value(date, "mmdd"@);
    } else if i == 7 {
        format_is_a_value(date, "mm-dd"@);
    } else if i == 8 {
        format_is_a_value(date, "mm_dd"@);
    }
}

/// Where a text without digits that ends in a brace begins a text with values filled in, it begins
/// the text before: no value stands in it.
proof fn filled_in_prefix_was_there(
    s: Seq<char>,
    from: Seq<char>,
    to: Seq<char>,
    prefix: Seq<char>,
)
    requires
        is_value(to),
        prefix.len() > 0,
        prefix.last() == '}',
        forall|i: int| 0 <= i < prefix.len() ==> !text::is_digit(#[trigger] prefix[i]),
        text::stands_at(text::replaced(s, from, to), prefix, 0),
    ensures
        text::stands_at(s, prefix, 0),
    decreases s.len(),
{
    let after = text::replaced(s, from, to);
    assert(after.subrange(0, prefix.len() as int) == prefix);
    assert forall|i: int| 0 <= i < prefix.len() implies #[trigger] prefix[i] == after[i] by {}
    if from.len() == 0 || s.len() == 0 {
    } else if text::stands_at(s, from, 0) {
        let d = choose|i: int| 0 <= i < to.len() && text::is_digit(#[trigger] to[i]);
        if d < prefix.len() {
            assert(prefix[d] == to[d]);
        } else {
            let last: int = prefix.len() - 1;
            assert(prefix[last] == to[last]);
        }
        assert(false);
    } else {
        let rest = text::replaced(s.skip(1), from, to);
        assert(prefix[0] == s[0]);
        if prefix.len() > 1 {
            let tail = prefix.skip(1);
            assert(rest.subrange(0, tail.len() as int) =~= tail);
            filled_in_prefix_was_there(s.skip(1), from, to, tail);
            assert(s.skip(1).subrange(0, tail.len() as int) == tail);
            assert forall|i: int| 0 <= i < prefix.len() implies s[i] == #[trigger] prefix[i] by {
                if i > 0 {
                    assert(tail[i - 1] == prefix[i]);
                    assert(s.skip(1).subrange(0, tail.len() as int)[i - 1] == s[i]);
                }
            }
        }
        assert(s.subrange(0, prefix.len() as int) =~= prefix);
    }
}

/// A mark that stands in a text with values filled in stood in the text before, and it is not the
/// mark that was filled in.
proof fn filled_in_mark_was_there(s: Seq<char>, from: Seq<char>, to: Seq<char>, mark: Seq<char>)
    requires
        is_value(to),
        is_mark(mark),
        is_mark(from),
        text::contains_text(text::replaced(s, from, to), mark),
    ensures
        text::contains_text(s, mark),
        mark != from,
    decreases s.len(),
{
    let after = text::replaced(s, from, to);
    let at = choose|at: int| text::stands_at(after, mark, at);
    assert(after.subrange(at, at + mark.len()) == mark);
    assert(after[at] == mark[0]);
    if s.len() == 0 {
    } else if text::stands_at(s, from, 0) {
        let n = from.len() as int;
        let rest = text::replaced(s.skip(n), from, to);
        if at < to.len() {
            assert(after[at] == to[at]);
            assert(false);
        }
        assert(rest.subrange(at - to.len(), at - to.len() + mark.len()) =~= mark);
        assert(text::stands_at(rest, mark, at - to.len()));
        filled_in_mark_was_there(s.skip(n), from, to, mark);
        mark_stands_in_whole(s, n, mark);
    } else {
        let rest = text::replaced(s.skip(1), from, to);
        if at > 0 {
            assert(rest.subrange(at - 1, at - 1 + mark.len()) =~= mark);
            assert(text::stands_at(rest, mark, at - 1));
            filled_in_mark_was_there(s.skip(1), from, to, mark);
            mark_stands_in_whole(s, 1, mark);
        } else {
            let tail = mark.skip(1);
            assert(rest.subrange(0, tail.len() as int) =~= tail);
            filled_in_prefix_was_there(s.skip(1), from, to, tail);
            assert(s.skip(1).subrange(0, tail.len() as int) == tail);
            assert forall|i: int| 0 <= i < mark.len() implies s[i] == #[trigger] mark[i] by {
                if i > 0 {
                    assert(tail[i - 1] == mark[i]);
                    assert(s.skip(1).subrange(0, tail.len() as int)[i - 1] == s[i]);
                }
            }
            assert(s.subrange(0, mark.len() as int) =~= mark);
            assert(text::stands_at(s, mark, 0));
        }
    }
}

/// What stands behind the first `n` characters stands in the whole.
proof fn mark_stands_in_whole(s: Seq<char>, n: int, mark: Seq<char>)
    requires
        0 <= n <= s.len(),
        text::contains_text(s.skip(n), mark),
    ensures
        text::contains_text(s, mark),
{
    let at = choose|at: int| text::stands_at(s.skip(n), mark, at);
    assert(s.subrange(at + n, at + n + mark.len()) =~= s.skip(n).subrange(at, at + mark.len()));
    assert(text::stands_at(s, mark, at + n));
}

proof fn filled_tokens_are_gone(raw: Seq<char>, date: CalendarDate, k: nat, i: int)
    requires
        0 <= i < k <= tokens().len(),
    ensures
        !text::contains_text(filled(raw, date, k), tokens()[i]),
    decreases k,
{
    let before = filled(raw, date, (k - 1) as nat);
    let from = tokens()[k - 1];
    let to = values(date)[k - 1];
    tokens_are_marks(i);
    tokens_are_marks(k - 1);
    token_values_hold_no_brace(date, k - 1);
    if text::contains_text(filled(raw, date, k), tokens()[i]) {
        filled_in_mark_was_there(before, from, to, tokens()[i]);
        if i < k - 1 {
            filled_tokens_are_gone(raw, date, (k - 1) as nat, i);
        }
    }
}

proof fn tokenless_text_is_not_filled(raw: Seq<char>, date: CalendarDate, k: nat)
    requires
        !holds_token(raw),
        k <= tokens().len(),
    ensures
        filled(raw, date, k) == raw,
    decreases k,
{
    if k > 0 {
        tokenless_text_is_not_filled(raw, date, (k - 1) as nat);
        assert(!text::contains_text(raw, tokens()[k - 1]));
        dates::replaced_absent(raw, tokens()[k - 1], values(date)[k - 1]);
    }
}

/// A text that holds none of the placeholders that are filled in is left as it is, whether or not
/// it holds `{today}`.
pub proof fn tokenless_text_is_unchanged(raw: Seq<char>, date: CalendarDate)
    requires
        !holds_token(raw),
    ensures
        date.applied(raw) == raw,
{
    applied_is_filled(raw, date);
    tokenless_text_is_not_filled(raw, date, 13);
}

/// Filling in a date leaves none of the placeholders that are filled in, so that filling in again,
/// for whatever day, changes nothing.
pub proof fn filling_in_leaves_no_token(raw: Seq<char>, date: CalendarDate, later: CalendarDate)
    ensures
        !holds_token(date.applied(raw)),
        later.applied(date.applied(raw)) == date.applied(raw),
{
    applied_is_filled(raw, date);
    assert forall|i: int| 0 <= i < tokens().len() implies !text::contains_text(
        date.applied(raw),
        #[trigger] tokens()[i],
    ) by {
        filled_tokens_are_gone(raw, date, 13, i);
    }
    tokenless_text_is_unchanged(date.applied(raw), later);
}

/// A mark that stands where a mark was put between two texts is that mark, or stands in one of the
/// texts; and the one that was put stands no earlier than it was put.
pub proof fn mark_between_stands_alone(
    a: Seq<char>,
    mark: Seq<char>,
    b: Seq<char>,
    other: Seq<char>,
    at: int,
)
    requires
        is_mark(mark),
        is_mark(other),
        text::stands_at(a + mark + b, other, at),
        !text::contains_text(a, other),
    ensures
        at >= a.len(),
        other == mark || text::contains_text(b, other),
{
    let all = a + mark + b;
    let end = at + other.len();
    let found = all.subrange(at, end);
    assert(found == other);
    assert forall|i: int| 0 <= i < other.len() implies #[trigger] other[i] == all[at + i] by {}
    if at < a.len() {
        if end <= a.len() {
            assert(a.subrange(at, end) =~= found);
            assert(text::stands_at(a, other, at));
        } else {
            assert(other[a.len() - at] == mark[0]);
        }
        assert(false);
    }
    let past = a.len() + mark.len();
    if at >= past {
        assert(b.subrange(at - past, end - past) =~= found);
        assert(text::stands_at(b, other, at - past));
    } else {
        assert(other[0] == mark[at - a.len()]);
        assert(at == a.len());
        if other.len() < mark.len() {
            assert(other[other.len() - 1] == mark[other.len() - 1]);
            assert(false);
        }
        if mark.len() < other.len() {
            assert(other[mark.len() - 1] == mark[mark.len() - 1]);
            assert(false);
        }
        assert(other =~= mark);
    }
}

/// A mark that stands where a value was put between two texts stands in one of the texts.
proof fn value_between_brings_no_mark(
    a: Seq<char>,
    value: Seq<char>,
    b: Seq<char>,
    mark: Seq<char>,
)
    requires
        is_value(value),
        is_mark(mark),
        !text::contains_text(a, mark),
        !text::contains_text(b, mark),
    ensures
        !text::contains_text(a + value + b, mark),
{
    let all = a + value + b;
    if text::contains_text(all, mark) {
        let at = choose|at: int| text::stands_at(all, mark, at);
        let end = at + mark.len();
        let found = all.subrange(at, end);
        assert(found == mark);
        assert forall|i: int| 0 <= i < mark.len() implies #[trigger] mark[i] == all[at + i] by {}
        let past = a.len() + value.len();
        if at >= past {
            assert(b.subrange(at - past, end - past) =~= found);
            assert(text::stands_at(b, mark, at - past));
        } else if at >= a.len() {
            assert(mark[0] == value[at - a.len()]);
        } else if end <= a.len() {
            assert(a.subrange(at, end) =~= found);
            assert(text::stands_at(a, mark, at));
        } else if end <= past {
            assert(mark[mark.len() - 1] == value[end - 1 - a.len()]);
        } else {
            let d = choose|i: int| 0 <= i < value.len() && text::is_digit(#[trigger] value[i]);
            assert(mark[a.len() + d - at] == value[d]);
        }
    }
}

proof fn token_between_is_filled(
    a: Seq<char>,
    i: int,
    b: Seq<char>,
    date: CalendarDate,
    k: nat,
)
    requires
        0 <= i < tokens().len(),
        k <= tokens().len(),
        !holds_token(a),
        !holds_token(b),
    ensures
        filled(a + tokens()[i] + b, date, k) == if k <= i {
            a + tokens()[i] + b
        } else {
            a + values(date)[i] + b
        },
    decreases k,
{
    if k > 0 {
        let j = k - 1;
        let raw = a + tokens()[i] + b;
        token_between_is_filled(a, i, b, date, j as nat);
        tokens_are_marks(i);
        tokens_are_marks(j);
        token_values_hold_no_brace(date, i);
        assert(!text::contains_text(a, tokens()[j]));
        assert(!text::contains_text(b, tokens()[j]));
        if j < i {
            tokens_differ(i, j);
            if text::contains_text(raw, tokens()[j]) {
                let at = choose|at: int| text::stands_at(raw, tokens()[j], at);
                mark_between_stands_alone(a, tokens()[i], b, tokens()[j], at);
            }
            dates::replaced_absent(raw, tokens()[j], values(date)[j]);
        } else if j == i {
            assert forall|at: int| text::stands_at(raw, tokens()[i], at) implies at
                >= a.len() by {
                mark_between_stands_alone(a, tokens()[i], b, tokens()[i], at);
            }
            suggestion_laws::replaced_once(a, tokens()[i], b, values(date)[i]);
        } else {
            value_between_brings_no_mark(a, values(date)[i], b, tokens()[j]);
            dates::replaced_absent(a + values(date)[i] + b, tokens()[j], values(date)[j]);
        }
    }
}

/// A placeholder between texts that hold none is filled in, and the texts are left as they are.
pub proof fn token_between_is_filled_in(a: Seq<char>, i: int, b: Seq<char>, date: CalendarDate)
    requires
        0 <= i < tokens().len(),
        !holds_token(a),
        !holds_token(b),
    ensures
        date.applied(a + tokens()[i] + b) == a + values(date)[i] + b,
{
    applied_is_filled(a + tokens()[i] + b, date);
    token_between_is_filled(a, i, b, date, 13);
}

/// The placeholder that stands for the format of the given place among those of `{today}`.
pub open spec fn token_of_format(j: int) -> int {
    if j < 3 {
        j
    } else if j < 6 {
        j + 3
    } else {
        j - 3
    }
}

proof fn format_in_braces_is_a_token(date: CalendarDate, j: int)
    requires
        0 <= j < dates::today_formats().len(),
    ensures
        "{"@ + dates::today_formats()[j] + "}"@ == tokens()[token_of_format(j)],
        date.formatted(dates::today_formats()[j]) == values(date)[token_of_format(j)],
{
    reveal_strlit("{");
    reveal_strlit("}");
    if j == 0 {
        reveal_strlit("yyyymmdd");
        reveal_strlit("{yyyymmdd}");
        assert("{"@ + "yyyymmdd"@ + "}"@ =~= "{yyyymmdd}"@);
    } else if j == 1 {
        reveal_strlit("yyyy-mm-dd");
        reveal_strlit("{yyyy-mm-dd}");
        assert("{"@ + "yyyy-mm-dd"@ + "}"@ =~= "{yyyy-mm-dd}"@);
    } else if j == 2 {
        reveal_strlit("yyyy_mm_dd");
        reveal_strlit("{yyyy_mm_dd}");
        assert("{"@ + "yyyy_mm_dd"@ + "}"@ =~= "{yyyy_mm_dd}"@);
    } else if j == 3 {
        reveal_strlit("mmdd");
        reveal_strlit("{mmdd}");
        assert("{"@ + "mmdd"@ + "}"@ =~= "{mmdd}"@);
    } else if j == 4 {
        reveal_strlit("mm-dd");
        reveal_strlit("{mm-dd}");
        assert("{"@ + "mm-dd"@ + "}"@ =~= "{mm-dd}"@);
    } else if j == 5 {
        reveal_strlit("mm_dd");
        reveal_strlit("{mm_dd}");
        assert("{"@ + "mm_dd"@ + "}"@ =~= "{mm_dd}"@);
    } else if j == 6 {
        reveal_strlit("yymmdd");
        reveal_strlit("{yymmdd}");
        assert("{"@ + "yymmdd"@ + "}"@ =~= "{yymmdd}"@);
    } else if j == 7 {
        reveal_strlit("yy-mm-dd");
        reveal_strlit("{yy-mm-dd}");
        assert("{"@ + "yy-mm-dd"@ + "}"@ =~= "{yy-mm-dd}"@);
    } else {
        reveal_strlit("yy_mm_dd");
        reveal_strlit("{yy_mm_dd}");
        assert("{"@ + "yy_mm_dd"@ + "}"@ =~= "{yy_mm_dd}"@);
    }
}

proof fn empty_text_holds_no_token()
    ensures
        !holds_token(Seq::<char>::empty()),
{
    let none = Seq::<char>::empty();
    assert forall|i: int| 0 <= i < tokens().len() implies !text::contains_text(
        none,
        #[trigger] tokens()[i],
    ) by {
        tokens_are_marks(i);
    }
}

/// The name of a format that `{today}` stands for, in braces, is filled in with the date in that
/// format.
pub proof fn format_in_braces_is_filled_in(date: CalendarDate, j: int)
    requires
        0 <= j < dates::today_formats().len(),
    ensures
        date.applied("{"@ + dates::today_formats()[j] + "}"@) == date.formatted(
            dates::today_formats()[j],
        ),
{
    let none = Seq::<char>::empty();
    let i = token_of_format(j);
    format_in_braces_is_a_token(date, j);
    empty_text_holds_no_token();
    token_between_is_filled_in(none, i, none, date);
    assert(none + tokens()[i] + none =~= tokens()[i]);
    assert(none + values(date)[i] + none =~= values(date)[i]);
}

/// `{today}` is not filled in.
pub proof fn today_is_left_alone(date: CalendarDate)
    ensures
        date.applied("{today}"@) == "{today}"@,
{
    let none = Seq::<char>::empty();
    let today = "{today}"@;
    empty_text_holds_no_token();
    assert forall|i: int| 0 <= i < tokens().len() implies !text::contains_text(
        today,
        #[trigger] tokens()[i],
    ) by {
        tokens_are_marks(i);
        today_is_no_token(i);
        if text::contains_text(today, tokens()[i]) {
            let at = choose|at: int| text::stands_at(today, tokens()[i], at);
            assert(none + today + none =~= today);
            assert(!text::contains_text(none, tokens()[i]));
            mark_between_stands_alone(none, today, none, tokens()[i], at);
        }
    }
    tokenless_text_is_unchanged(today, date);
}

} // verus!
