//! What filling in a date does to texts with several placeholders, how dates are written, and which
//! texts are read as dates.

use crate::dates;
use crate::dates::CalendarDate;
use crate::dates::DateSuffixFormat;
use crate::paths;
use crate::text;
use crate::text_laws;
use crate::token_laws;
use vstd::prelude::*;

verus! {

/// Where no match begins in the first part, it stays as it is.
proof fn matches_behind_are_replaced(
    part: Seq<char>,
    rest: Seq<char>,
    from: Seq<char>,
    to: Seq<char>,
)
    requires
        from.len() > 0,
        forall|at: int| 0 <= at < part.len() ==> !text::stands_at(part + rest, from, at),
    ensures
        text::replaced(part + rest, from, to) == part + text::replaced(rest, from, to),
    decreases part.len(),
{
    let all = part + rest;
    if part.len() == 0 {
        assert(all =~= rest);
        assert(part + text::replaced(rest, from, to) =~= text::replaced(rest, from, to));
    } else {
        let tail = part.skip(1);
        assert(!text::stands_at(all, from, 0));
        assert(all.skip(1) =~= tail + rest);
        assert forall|at: int| 0 <= at < tail.len() implies !text::stands_at(
            tail + rest,
            from,
            at,
        ) by {
            if text::stands_at(tail + rest, from, at) {
                assert(all.subrange(at + 1, at + 1 + from.len()) =~= (tail + rest).subrange(
                    at,
                    at + from.len(),
                ));
                assert(text::stands_at(all, from, at + 1));
            }
        }
        matches_behind_are_replaced(tail, rest, from, to);
        assert(seq![all[0]] + (tail + text::replaced(rest, from, to)) =~= part + text::replaced(
            rest,
            from,
            to,
        ));
    }
}

/// Where no match reaches from the first part into the second, the two are replaced separately.
proof fn parts_are_replaced_separately(
    a: Seq<char>,
    rest: Seq<char>,
    from: Seq<char>,
    to: Seq<char>,
)
    requires
        from.len() > 0,
        forall|at: int|
            0 <= at < a.len() && #[trigger] text::stands_at(a + rest, from, at) ==> at + from.len()
                <= a.len(),
    ensures
        text::replaced(a + rest, from, to) == text::replaced(a, from, to) + text::replaced(
            rest,
            from,
            to,
        ),
    decreases a.len(),
{
    let all = a + rest;
    let behind = text::replaced(rest, from, to);
    if a.len() == 0 {
        assert(all =~= rest);
        assert(text::replaced(a, from, to) + behind =~= behind);
    } else {
        let stands = text::stands_at(all, from, 0);
        assert(stands == text::stands_at(a, from, 0)) by {
            if stands {
                assert(a.subrange(0, from.len() as int) =~= all.subrange(0, from.len() as int));
            }
            if text::stands_at(a, from, 0) {
                assert(a.subrange(0, from.len() as int) =~= all.subrange(0, from.len() as int));
            }
        }
        let n: int = if stands {
            from.len() as int
        } else {
            1
        };
        let tail = a.skip(n);
        assert(all.skip(n) =~= tail + rest);
        assert forall|at: int|
            0 <= at < tail.len() && #[trigger] text::stands_at(tail + rest, from, at) implies at
            + from.len() <= tail.len() by {
            assert(all.subrange(at + n, at + n + from.len()) =~= (tail + rest).subrange(
                at,
                at + from.len(),
            ));
            assert(text::stands_at(all, from, at + n));
        }
        parts_are_replaced_separately(tail, rest, from, to);
        let inner = text::replaced(tail, from, to);
        if stands {
            assert(to + (inner + behind) =~= (to + inner) + behind);
        } else {
            assert(seq![all[0]] + (inner + behind) =~= (seq![a[0]] + inner) + behind);
        }
    }
}

/// No mark reaches into a mark from before it, and none begins inside of it but itself.
proof fn marks_do_not_overlap(
    a: Seq<char>,
    mark: Seq<char>,
    b: Seq<char>,
    other: Seq<char>,
    at: int,
)
    requires
        token_laws::is_mark(mark),
        token_laws::is_mark(other),
        text::stands_at(a + mark + b, other, at),
        at < a.len() + mark.len(),
    ensures
        at < a.len() ==> at + other.len() <= a.len(),
        at >= a.len() ==> at == a.len() && other == mark,
{
    let all = a + mark + b;
    let found = all.subrange(at, at + other.len());
    assert(found == other);
    assert forall|i: int| 0 <= i < other.len() implies #[trigger] other[i] == all[at + i] by {}
    if at < a.len() {
        if at + other.len() > a.len() {
            assert(other[a.len() - at] == mark[0]);
        }
    } else {
        assert(other[0] == mark[at - a.len()]);
        assert(at == a.len());
        if other.len() < mark.len() {
            assert(other[other.len() - 1] == mark[other.len() - 1]);
        }
        if mark.len() < other.len() {
            assert(other[mark.len() - 1] == mark[mark.len() - 1]);
        }
        assert(other =~= mark);
    }
}

/// No mark reaches into a value from before it, and none begins inside of it.
proof fn marks_do_not_reach_into_values(
    a: Seq<char>,
    value: Seq<char>,
    b: Seq<char>,
    mark: Seq<char>,
    at: int,
)
    requires
        token_laws::is_value(value),
        token_laws::is_mark(mark),
        text::stands_at(a + value + b, mark, at),
        at < a.len() + value.len(),
    ensures
        at + mark.len() <= a.len(),
{
    let all = a + value + b;
    let end = at + mark.len();
    assert(all.subrange(at, end) == mark);
    assert forall|i: int| 0 <= i < mark.len() implies #[trigger] mark[i] == all[at + i] by {}
    if at >= a.len() {
        assert(mark[0] == value[at - a.len()]);
    } else if end > a.len() {
        if end <= a.len() + value.len() {
            assert(mark[mark.len() - 1] == value[end - 1 - a.len()]);
        } else {
            let d = choose|i: int| 0 <= i < value.len() && text::is_digit(#[trigger] value[i]);
            assert(mark[a.len() + d - at] == value[d]);
        }
    }
}

proof fn other_mark_stays(
    a: Seq<char>,
    mark: Seq<char>,
    b: Seq<char>,
    from: Seq<char>,
    to: Seq<char>,
)
    requires
        token_laws::is_mark(mark),
        token_laws::is_mark(from),
        from != mark,
    ensures
        text::replaced(a + mark + b, from, to) == text::replaced(a, from, to) + mark
            + text::replaced(b, from, to),
{
    let all = a + mark + b;
    let rest = mark + b;
    assert(all =~= a + rest);
    assert forall|at: int|
        0 <= at < a.len() && #[trigger] text::stands_at(a + rest, from, at) implies at + from.len()
        <= a.len() by {
        marks_do_not_overlap(a, mark, b, from, at);
    }
    parts_are_replaced_separately(a, rest, from, to);
    let none = Seq::<char>::empty();
    assert(none + mark + b =~= rest);
    assert forall|at: int| 0 <= at < mark.len() implies !text::stands_at(mark + b, from, at) by {
        if text::stands_at(rest, from, at) {
            marks_do_not_overlap(none, mark, b, from, at);
        }
    }
    matches_behind_are_replaced(mark, b, from, to);
    assert(text::replaced(a, from, to) + (mark + text::replaced(b, from, to)) =~= text::replaced(
        a,
        from,
        to,
    ) + mark + text::replaced(b, from, to));
}

proof fn same_mark_is_replaced(a: Seq<char>, from: Seq<char>, b: Seq<char>, to: Seq<char>)
    requires
        token_laws::is_mark(from),
    ensures
        text::replaced(a + from + b, from, to) == text::replaced(a, from, to) + to
            + text::replaced(b, from, to),
{
    let all = a + from + b;
    let rest = from + b;
    assert(all =~= a + rest);
    assert forall|at: int|
        0 <= at < a.len() && #[trigger] text::stands_at(a + rest, from, at) implies at + from.len()
        <= a.len() by {
        marks_do_not_overlap(a, from, b, from, at);
    }
    parts_are_replaced_separately(a, rest, from, to);
    text_laws::matches_are_replaced_left_to_right(from, to, ' ', b);
    assert(text::replaced(a, from, to) + (to + text::replaced(b, from, to)) =~= text::replaced(
        a,
        from,
        to,
    ) + to + text::replaced(b, from, to));
}

proof fn value_stays(
    a: Seq<char>,
    value: Seq<char>,
    b: Seq<char>,
    from: Seq<char>,
    to: Seq<char>,
)
    requires
        token_laws::is_value(value),
        token_laws::is_mark(from),
    ensures
        text::replaced(a + value + b, from, to) == text::replaced(a, from, to) + value
            + text::replaced(b, from, to),
{
    let rest = value + b;
    assert(a + value + b =~= a + rest);
    assert forall|at: int|
        0 <= at < a.len() && #[trigger] text::stands_at(a + rest, from, at) implies at + from.len()
        <= a.len() by {
        marks_do_not_reach_into_values(a, value, b, from, at);
    }
    parts_are_replaced_separately(a, rest, from, to);
    let none = Seq::<char>::empty();
    assert(none + value + b =~= rest);
    assert forall|at: int| 0 <= at < value.len() implies !text::stands_at(value + b, from, at) by {
        if text::stands_at(rest, from, at) {
            marks_do_not_reach_into_values(none, value, b, from, at);
        }
    }
    matches_behind_are_replaced(value, b, from, to);
    assert(text::replaced(a, from, to) + (value + text::replaced(b, from, to)) =~= text::replaced(
        a,
        from,
        to,
    ) + value + text::replaced(b, from, to));
}

proof fn filled_on_both_sides(
    a: Seq<char>,
    i: int,
    b: Seq<char>,
    date: CalendarDate,
    k: nat,
)
    requires
        0 <= i < token_laws::tokens().len(),
        k <= token_laws::tokens().len(),
    ensures
        token_laws::filled(a + token_laws::tokens()[i] + b, date, k) == token_laws::filled(
            a,
            date,
            k,
        ) + (if k <= i {
            token_laws::tokens()[i]
        } else {
            token_laws::values(date)[i]
        }) + token_laws::filled(b, date, k),
    decreases k,
{
    if k > 0 {
        let j: int = k - 1;
        filled_on_both_sides(a, i, b, date, j as nat);
        let before = token_laws::filled(a, date, j as nat);
        let behind = token_laws::filled(b, date, j as nat);
        token_laws::tokens_are_marks(i);
        token_laws::tokens_are_marks(j);
        token_laws::token_values_hold_no_brace(date, i);
        let from = token_laws::tokens()[j];
        let to = token_laws::values(date)[j];
        if j < i {
            token_laws::tokens_differ(i, j);
            other_mark_stays(before, token_laws::tokens()[i], behind, from, to);
        } else if j == i {
            same_mark_is_replaced(before, from, behind, to);
        } else {
            value_stays(before, token_laws::values(date)[i], behind, from, to);
        }
    }
}

/// Every placeholder is filled in where it stands, whatever stands around it, other placeholders
/// too.
pub proof fn every_placeholder_is_filled_in(
    a: Seq<char>,
    i: int,
    b: Seq<char>,
    date: CalendarDate,
)
    requires
        0 <= i < token_laws::tokens().len(),
    ensures
        date.applied(a + token_laws::tokens()[i] + b) == date.applied(a) + token_laws::values(
            date,
        )[i] + date.applied(b),
{
    token_laws::applied_is_filled(a + token_laws::tokens()[i] + b, date);
    token_laws::applied_is_filled(a, date);
    token_laws::applied_is_filled(b, date);
    filled_on_both_sides(a, i, b, date, 13);
}

/// Which placeholders there are, and what each is filled in with.
pub proof fn placeholders_and_their_values(date: CalendarDate)
    ensures
        token_laws::tokens() == seq![
            "{yyyymmdd}"@,
            "{yyyy-mm-dd}"@,
            "{yyyy_mm_dd}"@,
            "{yymmdd}"@,
            "{yy-mm-dd}"@,
            "{yy_mm_dd}"@,
            "{mmdd}"@,
            "{mm-dd}"@,
            "{mm_dd}"@,
            "{yyyy}"@,
            "{yy}"@,
            "{mm}"@,
            "{dd}"@,
        ],
        token_laws::values(date) == seq![
            date.yyyy() + date.mm() + date.dd(),
            date.yyyy() + "-"@ + date.mm() + "-"@ + date.dd(),
            date.yyyy() + "_"@ + date.mm() + "_"@ + date.dd(),
            date.yy() + date.mm() + date.dd(),
            date.yy() + "-"@ + date.mm() + "-"@ + date.dd(),
            date.yy() + "_"@ + date.mm() + "_"@ + date.dd(),
            date.mm() + date.dd(),
            date.mm() + "-"@ + date.dd(),
            date.mm() + "_"@ + date.dd(),
            date.yyyy(),
            date.yy(),
            date.mm(),
            date.dd(),
        ],
{
    dates::format_names_differ();
}

/// The parts of a date are written in digits that stand for them: the month, the day, the year or,
/// behind a sign, its distance from zero, and the last two digits of that.
pub proof fn parts_of_a_date_stand_for_it(date: CalendarDate)
    ensures
        text::digits_value(date.mm()) == date.month,
        text::digits_value(date.dd()) == date.day,
        date.year >= 0 ==> text::digits_value(date.yyyy()) == date.year,
        date.year >= 0 ==> text::digits_value(date.yy()) == date.year % 100,
        date.year < 0 ==> date.yyyy().len() > 0 && date.yyyy()[0] == '-' && text::digits_value(
            date.yyyy().skip(1),
        ) == -date.year,
        date.year < 0 ==> text::digits_value(date.yy()) == (-date.year) % 100,
{
    let n = dates::year_magnitude(date.year);
    padded_number_stands_for(date.month as nat, 2);
    padded_number_stands_for(date.day as nat, 2);
    padded_number_stands_for(n % 100, 2);
    padded_number_stands_for(n, 3);
    padded_number_stands_for(n, 4);
    if date.year < 0 {
        assert(date.yyyy().skip(1) =~= text::padded(text::decimal(n), '0', 3));
    }
}

/// Month, day and short year have two characters, and the year four, or five with its sign.
pub proof fn parts_of_a_date_have_their_lengths(date: CalendarDate)
    ensures
        date.month < 100 ==> date.mm().len() == 2,
        date.day < 100 ==> date.dd().len() == 2,
        date.yy().len() == 2,
        -999 <= date.year <= 9999 ==> date.yyyy().len() == 4,
        -9999 <= date.year < -999 ==> date.yyyy().len() == 5,
{
    let n = dates::year_magnitude(date.year);
    length_of_a_number(date.month as nat);
    length_of_a_number(date.day as nat);
    length_of_a_number(n % 100);
    length_of_a_number(n);
}

proof fn length_of_a_number(n: nat)
    ensures
        n < 10 ==> text::decimal(n).len() == 1,
        10 <= n < 100 ==> text::decimal(n).len() == 2,
        100 <= n < 1000 ==> text::decimal(n).len() == 3,
        1000 <= n < 10000 ==> text::decimal(n).len() == 4,
{
    reveal_with_fuel(text::decimal, 4);
}

proof fn zeros_add_nothing(count: nat, s: Seq<char>)
    ensures
        text::digits_value(text::repeated('0', count) + s) == text::digits_value(s),
    decreases s.len(), count,
{
    let all = text::repeated('0', count) + s;
    if s.len() > 0 {
        assert(all.drop_last() =~= text::repeated('0', count) + s.drop_last());
        zeros_add_nothing(count, s.drop_last());
    } else if count > 0 {
        assert(s =~= Seq::empty());
        assert(all.drop_last() =~= text::repeated('0', (count - 1) as nat) + s);
        zeros_add_nothing((count - 1) as nat, s);
        assert(all.last() == '0');
    } else {
        assert(all =~= s);
    }
}

proof fn padded_number_stands_for(n: nat, width: nat)
    ensures
        text::digits_value(text::padded(text::decimal(n), '0', width)) == n,
{
    text_laws::number_is_written_in_digits(n);
    let s = text::decimal(n);
    if s.len() < width {
        zeros_add_nothing((width - s.len()) as nat, s);
    }
}

/// The months have 31 and 30 days in turn, August and those behind it shifted by one, and February
/// 28, or 29 in every fourth year but for the centuries that 400 does not divide. So a year has 365
/// days, or 366.
pub proof fn months_add_up_to_a_year(year: int)
    ensures
        dates::days_in_month(year, 2) == (if year % 4 == 0 && year % 100 != 0 || year % 400 == 0 {
            29int
        } else {
            28
        }),
        forall|month: int|
            1 <= month <= 12 && month != 2 ==> #[trigger] dates::days_in_month(year, month) == (
            if month < 8 {
                30 + month % 2
            } else {
                31 - month % 2
            }),
{
}

/// A day is in the calendar where its year has at most four digits and it is a day of its month;
/// and a month has a day in some year where it has it in a leap year.
pub proof fn days_of_the_calendar(year: int, month: int, day: int)
    ensures
        dates::calendar_has(year, month, day) == (-9999 <= year <= 9999 && 1 <= month <= 12 && 1
            <= day <= dates::days_in_month(year, month)),
        dates::some_year_has(month, day) == exists|some: int|
            #[trigger] dates::calendar_has(some, month, day),
{
    if dates::some_year_has(month, day) {
        assert(dates::calendar_has(2000, month, day));
    }
}

/// Day, month and year that are written with a separator are read, exactly where each can be.
pub proof fn separated_date_is_read(
    year: Seq<char>,
    month: Seq<char>,
    day: Seq<char>,
    separator: char,
)
    requires
        !year.contains(separator),
        !month.contains(separator),
        !day.contains(separator),
    ensures
        ({
            let value = year + seq![separator] + month + seq![separator] + day;
            let (y, m, d) = (
                dates::parsed_year(year),
                dates::parsed_part(month),
                dates::parsed_part(day),
            );
            &&& y is Some && m is Some && d is Some ==> dates::parsed_ymd(value, separator)
                == Some((y->0, m->0, d->0))
            &&& !(y is Some && m is Some && d is Some) ==> dates::parsed_ymd(value, separator)
                is None
            &&& m is Some && d is Some ==> dates::parsed_md(
                month + seq![separator] + day,
                separator,
            ) == Some((m->0, d->0))
            &&& !(m is Some && d is Some) ==> dates::parsed_md(
                month + seq![separator] + day,
                separator,
            ) is None
        }),
{
    let value = year + seq![separator] + month + seq![separator] + day;
    paths::one_piece(year, separator);
    paths::one_piece(month, separator);
    paths::one_more_piece(year, month, separator);
    let front = year.push(separator) + month;
    paths::one_more_piece(front, day, separator);
    assert(value =~= front.push(separator) + day);
    paths::one_more_piece(month, day, separator);
    assert(month + seq![separator] + day =~= month.push(separator) + day);
    assert(paths::pieces(value, separator) =~= seq![year, month, day]);
    assert(paths::pieces(month + seq![separator] + day, separator) =~= seq![month, day]);
}

/// A part of a date is digits for at most 255, with one plus sign before them or none; a year may
/// have either sign and goes as far as a number of 32 bits does.
pub proof fn signs_may_stand_before_numbers(s: Seq<char>)
    ensures
        ({
            let plus = s.len() > 0 && s[0] == '+';
            let minus = s.len() > 0 && s[0] == '-';
            let digits = if plus || minus {
                s.drop_first()
            } else {
                s
            };
            let negative = text::parsed_number(digits, 0x8000_0000);
            let positive = text::parsed_number(digits, 0x7fff_ffff);
            &&& minus ==> dates::parsed_part(s) is None
            &&& !minus ==> dates::parsed_part(s) == text::parsed_number(digits, 255)
            &&& minus ==> dates::parsed_year(s) is Some == negative is Some
            &&& minus && negative is Some ==> dates::parsed_year(s)->0 == -(negative->0 as int)
            &&& !minus ==> dates::parsed_year(s) is Some == positive is Some
            &&& !minus && positive is Some ==> dates::parsed_year(s)->0 == positive->0 as int
        }),
{
    if s.len() > 0 {
        assert(s.skip(1) =~= s.drop_first());
        if s[0] == '-' {
            assert(!text::is_digit(s[0]));
        }
    }
}

/// What each form of a date takes: a day of the calendar, written in its way.
pub proof fn forms_take_days_of_the_calendar(value: Seq<char>, separator: char)
    ensures
        DateSuffixFormat::YearMonthDay(separator).accepts(value) == (dates::parsed_ymd(
            value,
            separator,
        ) is Some && dates::calendar_has(
            (dates::parsed_ymd(value, separator)->0).0,
            (dates::parsed_ymd(value, separator)->0).1 as int,
            (dates::parsed_ymd(value, separator)->0).2 as int,
        )),
        DateSuffixFormat::ShortYearMonthDay(separator).accepts(value) == (dates::parsed_ymd(
            value,
            separator,
        ) is Some && dates::calendar_has(
            2000 + (dates::parsed_ymd(value, separator)->0).0 % 100,
            (dates::parsed_ymd(value, separator)->0).1 as int,
            (dates::parsed_ymd(value, separator)->0).2 as int,
        )),
        DateSuffixFormat::MonthDay(separator).accepts(value) == (dates::parsed_md(value, separator)
            is Some && dates::calendar_has(
            2000,
            (dates::parsed_md(value, separator)->0).0 as int,
            (dates::parsed_md(value, separator)->0).1 as int,
        )),
{
}

/// The same of the compact forms: nothing but digits, as many as the form has.
pub proof fn compact_forms_take_days_of_the_calendar(value: Seq<char>)
    ensures
        ({
            let digits = forall|i: int| 0 <= i < value.len() ==> '0' <= #[trigger] value[i] <= '9';
            &&& DateSuffixFormat::YearMonthDayCompact.accepts(value) == (value.len() == 8 && digits
                && dates::calendar_has(
                text::digits_value(value.subrange(0, 4)) as int,
                text::digits_value(value.subrange(4, 6)) as int,
                text::digits_value(value.subrange(6, 8)) as int,
            ))
            &&& DateSuffixFormat::ShortYearMonthDayCompact.accepts(value) == (value.len() == 6
                && digits && dates::calendar_has(
                2000 + text::digits_value(value.subrange(0, 2)) as int,
                text::digits_value(value.subrange(2, 4)) as int,
                text::digits_value(value.subrange(4, 6)) as int,
            ))
            &&& DateSuffixFormat::MonthDayCompact.accepts(value) == (value.len() == 4 && digits
                && dates::calendar_has(
                2000,
                text::digits_value(value.subrange(0, 2)) as int,
                text::digits_value(value.subrange(2, 4)) as int,
            ))
        }),
{
    text_laws::number_is_read_exactly_when(value, text::digits_value(value));
    assert(text::all_digits(value) == forall|i: int|
        0 <= i < value.len() ==> '0' <= #[trigger] value[i] <= '9') by {
        if text::all_digits(value) {
            assert forall|i: int| 0 <= i < value.len() implies '0' <= #[trigger] value[i]
                <= '9' by {
                assert(text::is_digit(value[i]));
            }
        }
    }
}

/// The stem ends, in as many characters as given, in something that the form takes.
pub open spec fn takes_the_end(stem: Seq<char>, len: nat, format: DateSuffixFormat) -> bool {
    exists|before: Seq<char>, end: Seq<char>|
        stem == #[trigger] (before + end) && end.len() == len && format.accepts(end)
}

/// Where a form takes the end of a stem, and where a text holds a placeholder.
pub proof fn ends_and_placeholders(stem: Seq<char>, len: nat, format: DateSuffixFormat)
    ensures
        takes_the_end(stem, len, format) == exists|before: Seq<char>, end: Seq<char>|
            stem == #[trigger] (before + end) && end.len() == len && format.accepts(end),
        token_laws::holds_token(stem) == exists|i: int|
            0 <= i < token_laws::tokens().len() && text::contains_text(
                stem,
                #[trigger] token_laws::tokens()[i],
            ),
{
}

proof fn end_is_taken(stem: Seq<char>, len: nat, format: DateSuffixFormat)
    ensures
        takes_the_end(stem, len, format) == dates::ends_in(stem, len, format),
{
    if dates::ends_in(stem, len, format) {
        let at = stem.len() - len;
        assert(stem =~= stem.take(at) + stem.skip(at));
    }
    if takes_the_end(stem, len, format) {
        let (before, end) = choose|before: Seq<char>, end: Seq<char>|
            stem == #[trigger] (before + end) && end.len() == len && format.accepts(end);
        assert(stem.skip(stem.len() - len) =~= end);
    }
}

/// A date is recognised at the end of a stem exactly where one of the forms takes it, and of several
/// the longest counts.
pub proof fn longest_date_is_recognised(stem: Seq<char>)
    ensures
        ({
            let ten = takes_the_end(stem, 10, DateSuffixFormat::YearMonthDay('-'))
                || takes_the_end(stem, 10, DateSuffixFormat::YearMonthDay('_'));
            let eight = takes_the_end(stem, 8, DateSuffixFormat::YearMonthDayCompact)
                || takes_the_end(stem, 8, DateSuffixFormat::ShortYearMonthDay('-'))
                || takes_the_end(stem, 8, DateSuffixFormat::ShortYearMonthDay('_'));
            let six = takes_the_end(stem, 6, DateSuffixFormat::ShortYearMonthDayCompact);
            let five = takes_the_end(stem, 5, DateSuffixFormat::MonthDay('-')) || takes_the_end(
                stem,
                5,
                DateSuffixFormat::MonthDay('_'),
            );
            let four = takes_the_end(stem, 4, DateSuffixFormat::MonthDayCompact);
            let len = dates::date_suffix_len(stem);
            &&& ten ==> len == Some(10nat)
            &&& !ten && eight ==> len == Some(8nat)
            &&& !ten && !eight && six ==> len == Some(6nat)
            &&& !ten && !eight && !six && five ==> len == Some(5nat)
            &&& !ten && !eight && !six && !five && four ==> len == Some(4nat)
            &&& !ten && !eight && !six && !five && !four ==> len is None
        }),
{
    end_is_taken(stem, 10, DateSuffixFormat::YearMonthDay('-'));
    end_is_taken(stem, 10, DateSuffixFormat::YearMonthDay('_'));
    end_is_taken(stem, 8, DateSuffixFormat::YearMonthDayCompact);
    end_is_taken(stem, 8, DateSuffixFormat::ShortYearMonthDay('-'));
    end_is_taken(stem, 8, DateSuffixFormat::ShortYearMonthDay('_'));
    end_is_taken(stem, 6, DateSuffixFormat::ShortYearMonthDayCompact);
    end_is_taken(stem, 5, DateSuffixFormat::MonthDay('-'));
    end_is_taken(stem, 5, DateSuffixFormat::MonthDay('_'));
    end_is_taken(stem, 4, DateSuffixFormat::MonthDayCompact);
}

/// A name is suggested for every name whose stem ends in a date, with `{today}` in its place and
/// everything else as it was, unless a placeholder stands in it or the date is all there is.
pub proof fn date_at_the_end_is_suggested(name: Seq<char>)
    ensures
        ({
            let stem = paths::name_stem(name);
            let len = dates::date_suffix_len(stem);
            let bare = paths::name_extension(name) is None;
            let suggested = !dates::has_placeholder(name) && len is Some && !(bare && len->0
                == stem.len());
            &&& dates::today_name(name) is Some == suggested
            &&& suggested && bare ==> dates::today_name(name)->0 == stem.take(
                stem.len() - len->0,
            ) + "{today}"@
            &&& suggested && !bare ==> dates::today_name(name)->0 == stem.take(
                stem.len() - len->0,
            ) + "{today}"@ + "."@ + paths::name_extension(name)->0
        }),
{
    let stem = paths::name_stem(name);
    suffix_is_part_of_the_stem(stem);
}

proof fn suffix_is_part_of_the_stem(stem: Seq<char>)
    ensures
        dates::date_suffix_len(stem) is Some ==> dates::date_suffix_len(stem)->0 <= stem.len(),
{
}

/// A path is suggested where its name is, in the same directory.
pub proof fn suggested_path_is_in_the_same_directory(path: Seq<char>)
    ensures
        ({
            let name = paths::path_file_name(path);
            let suggested = if name is Some {
                dates::today_name(name->0)
            } else {
                None
            };
            &&& suggested is None ==> dates::today_pattern(path) is None
            &&& suggested is Some ==> {
                let pattern = match paths::path_parent(path) {
                    Some(dir) => paths::joined(dir, suggested->0),
                    None => suggested->0,
                };
                &&& paths::same_path(pattern, path) ==> dates::today_pattern(path) is None
                &&& !paths::same_path(pattern, path) ==> dates::today_pattern(path) == Some(pattern)
            }
        }),
{
}

/// Digits are divided into fields of the given widths, one behind the other, and read where they are
/// nothing but digits, fill the fields, and no field stands for more than a number can hold.
pub proof fn digits_are_divided_into_fields(value: Seq<char>, widths: Seq<usize>, i: int)
    requires
        0 <= i < widths.len(),
    ensures
        dates::field_start(widths, 0) == 0,
        dates::field_start(widths, i + 1) == dates::field_start(widths, i) + widths[i],
        dates::field(value, widths, i) == value.subrange(
            dates::field_start(widths, i),
            dates::field_start(widths, i) + widths[i],
        ),
        dates::has_fields(value, widths) == ({
            &&& forall|k: int| 0 <= k < value.len() ==> '0' <= #[trigger] value[k] <= '9'
            &&& value.len() == dates::field_start(widths, widths.len() as int)
            &&& forall|k: int| 0 <= k < widths.len() ==> #[trigger] widths[k] > 0
            &&& forall|k: int|
                0 <= k < widths.len() ==> text::digits_value(
                    #[trigger] dates::field(value, widths, k),
                ) <= 0x7fff_ffff
        }),
{
    assert(text::all_digits(value) == forall|k: int|
        0 <= k < value.len() ==> '0' <= #[trigger] value[k] <= '9') by {
        if text::all_digits(value) {
            assert forall|k: int| 0 <= k < value.len() implies '0' <= #[trigger] value[k]
                <= '9' by {
                assert(text::is_digit(value[k]));
            }
        }
    }
}

} // verus!
