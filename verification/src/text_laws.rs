//! What holds of texts, numbers and times as they are written.

use crate::formatting;
use crate::order;
use crate::text;
use crate::tracking::LogEventView;
use vstd::prelude::*;

verus! {

/// Lists of texts are read entry by entry.
pub proof fn texts_are_read_one_by_one(list: Seq<String>)
    ensures
        text::texts(list).len() == list.len(),
        forall|i: int| 0 <= i < list.len() ==> #[trigger] text::texts(list)[i] == list[i]@,
{
}

/// Lines are written one behind the other, each with a line feed.
pub proof fn lines_are_written_with_line_feeds(list: Seq<Seq<char>>)
    ensures
        text::lines_text(list) == list.map_values(|line: Seq<char>| line + seq!['\n']).flatten(),
    decreases list.len(),
{
    let ended = |line: Seq<char>| line + seq!['\n'];
    if list.len() > 0 {
        let front = list.drop_last();
        lines_are_written_with_line_feeds(front);
        assert(list.map_values(ended) =~= front.map_values(ended).push(ended(list.last())));
        front.map_values(ended).lemma_flatten_push(ended(list.last()));
        assert(text::lines_text(list) =~= text::lines_text(front) + (list.last() + seq!['\n']));
    } else {
        assert(list.map_values(ended) =~= Seq::empty());
        assert(Seq::<Seq<char>>::empty().flatten() =~= Seq::empty());
    }
}

/// Texts are put together with the separator between every two.
pub proof fn separator_stands_between(list: Seq<Seq<char>>, next: Seq<char>, separator: Seq<char>)
    ensures
        text::separated(Seq::empty(), separator) == Seq::<char>::empty(),
        text::separated(seq![next], separator) == next,
        list.len() > 0 ==> text::separated(list + seq![next], separator) == text::separated(
            list,
            separator,
        ) + separator + next,
{
    assert((list + seq![next]).drop_last() =~= list);
}

/// Every match is replaced, from left to right, and nothing else changes.
pub proof fn matches_are_replaced_left_to_right(
    from: Seq<char>,
    to: Seq<char>,
    c: char,
    rest: Seq<char>,
)
    requires
        from.len() > 0,
    ensures
        text::replaced(from + rest, from, to) == to + text::replaced(rest, from, to),
        !from.is_prefix_of(seq![c] + rest) ==> text::replaced(seq![c] + rest, from, to) == seq![c]
            + text::replaced(rest, from, to),
        text::replaced(Seq::empty(), from, to) == Seq::<char>::empty(),
{
    let whole = from + rest;
    assert(whole.subrange(0, from.len() as int) =~= from);
    assert(text::stands_at(whole, from, 0));
    assert(whole.skip(from.len() as int) =~= rest);
    let other = seq![c] + rest;
    assert(other.skip(1) =~= rest);
    if text::stands_at(other, from, 0) {
        assert(from.is_prefix_of(other));
    }
}

/// A text is its trimmed form with nothing but white space around it, and the trimmed form neither
/// begins nor ends with any.
pub proof fn white_space_around_is_taken_off(s: Seq<char>)
    ensures
        exists|before: Seq<char>, behind: Seq<char>|
            {
                &&& s == #[trigger] (before + text::trimmed(s) + behind)
                &&& forall|i: int|
                    0 <= i < before.len() ==> text::white_space(#[trigger] before[i])
                &&& forall|i: int|
                    0 <= i < behind.len() ==> text::white_space(#[trigger] behind[i])
            },
        text::trimmed(s).len() > 0 ==> !text::white_space(text::trimmed(s)[0])
            && !text::white_space(text::trimmed(s).last()),
{
    let start = text::trimmed_start(s);
    let t = text::trimmed(s);
    let before = start_is_white(s);
    let behind = end_is_white(start);
    assert(s =~= before + t + behind);
    if t.len() > 0 {
        assert(t[0] == start[0]);
    }
}

proof fn start_is_white(s: Seq<char>) -> (before: Seq<char>)
    ensures
        s == before + text::trimmed_start(s),
        forall|i: int| 0 <= i < before.len() ==> text::white_space(#[trigger] before[i]),
        text::trimmed_start(s).len() > 0 ==> !text::white_space(text::trimmed_start(s)[0]),
    decreases s.len(),
{
    if s.len() > 0 && text::white_space(s[0]) {
        let rest = start_is_white(s.skip(1));
        let before = seq![s[0]] + rest;
        assert(s =~= seq![s[0]] + s.skip(1));
        assert(seq![s[0]] + (rest + text::trimmed_start(s)) =~= before + text::trimmed_start(s));
        before
    } else {
        assert(s =~= Seq::<char>::empty() + text::trimmed_start(s));
        Seq::empty()
    }
}

proof fn end_is_white(s: Seq<char>) -> (behind: Seq<char>)
    ensures
        s == text::trimmed_end(s) + behind,
        forall|i: int| 0 <= i < behind.len() ==> text::white_space(#[trigger] behind[i]),
        text::trimmed_end(s).len() > 0 ==> !text::white_space(text::trimmed_end(s).last()),
    decreases s.len(),
{
    if s.len() > 0 && text::white_space(s.last()) {
        let rest = end_is_white(s.drop_last());
        let behind = rest.push(s.last());
        assert(s =~= s.drop_last().push(s.last()));
        assert((text::trimmed_end(s) + rest).push(s.last()) =~= text::trimmed_end(s) + behind);
        behind
    } else {
        assert(s =~= text::trimmed_end(s) + Seq::<char>::empty());
        Seq::empty()
    }
}

/// The characters that are white space: tab to carriage return, the spaces of all widths, and the
/// line and paragraph separators.
pub proof fn white_space_is(c: char)
    ensures
        text::white_space(c) == ({
            ||| '\t' <= c <= '\r'
            ||| c == ' '
            ||| c == '\u{85}'
            ||| c == '\u{a0}'
            ||| c == '\u{1680}'
            ||| '\u{2000}' <= c <= '\u{200a}'
            ||| c == '\u{2028}'
            ||| c == '\u{2029}'
            ||| c == '\u{202f}'
            ||| c == '\u{205f}'
            ||| c == '\u{3000}'
        }),
{
}

/// A number is written in decimal digits that stand for it, without a zero in front.
pub proof fn number_is_written_in_digits(n: nat)
    ensures
        forall|i: int| 0 <= i < text::decimal(n).len() ==> '0' <= #[trigger] text::decimal(n)[i]
            <= '9',
        text::digits_value(text::decimal(n)) == n,
        text::decimal(n).len() > 0,
        n > 0 ==> text::decimal(n)[0] != '0',
    decreases n,
{
    if n < 10 {
        let s = seq![text::digit_char(n as int)];
        assert(text::decimal(n) == s);
        assert(s.drop_last() =~= Seq::empty());
        assert(text::digits_value(s.drop_last()) == 0);
        assert(s.last() as u32 == n + 0x30);
    } else {
        number_is_written_in_digits(n / 10);
        let front = text::decimal(n / 10);
        let s = text::decimal(n);
        assert(s.drop_last() =~= front);
        assert(s.last() as u32 == n % 10 + 0x30);
        assert(s[0] == front[0]);
        assert forall|i: int| 0 <= i < s.len() implies '0' <= #[trigger] s[i] <= '9' by {
            if i < front.len() {
                assert(s[i] == front[i]);
            }
        }
    }
}

/// What digits stand for: each further digit makes ten times as much and its own value.
pub proof fn digits_stand_for_a_number(s: Seq<char>, c: char)
    requires
        '0' <= c <= '9',
    ensures
        text::digits_value(Seq::empty()) == 0,
        text::digits_value(s + seq![c]) == 10 * text::digits_value(s) + (c as int - '0' as int),
{
    assert((s + seq![c]).drop_last() =~= s);
}

/// A number is read where the text is nothing but digits, at least one, and it is not too large.
pub proof fn number_is_read_exactly_when(s: Seq<char>, max: nat)
    ensures
        text::parsed_number(s, max) is Some == (s.len() > 0 && (forall|i: int|
            0 <= i < s.len() ==> '0' <= #[trigger] s[i] <= '9') && text::digits_value(s) <= max),
        text::parsed_number(s, max) is Some ==> text::parsed_number(s, max)->0
            == text::digits_value(s),
{
    assert(text::all_digits(s) == forall|i: int| 0 <= i < s.len() ==> '0' <= #[trigger] s[i]
        <= '9') by {
        if text::all_digits(s) {
            assert forall|i: int| 0 <= i < s.len() implies '0' <= #[trigger] s[i] <= '9' by {
                assert(text::is_digit(s[i]));
            }
        }
    }
}

/// A number that is written is read back.
pub proof fn written_number_is_read_back(n: nat, max: nat)
    requires
        n <= max,
    ensures
        text::parsed_number(text::decimal(n), max) == Some(n),
{
    number_is_written_in_digits(n);
    number_is_read_exactly_when(text::decimal(n), max);
}

/// A padded text is the text with copies of the character before it, as many as it lacks.
pub proof fn padding_goes_in_front(s: Seq<char>, c: char, width: nat)
    ensures
        ({
            let padded = text::padded(s, c, width);
            &&& padded.len() == (if s.len() < width {
                width
            } else {
                s.len()
            })
            &&& forall|i: int|
                0 <= i < padded.len() ==> #[trigger] padded[i] == (if i < padded.len() - s.len() {
                    c
                } else {
                    s[i - (padded.len() - s.len())]
                })
        }),
{
}

/// Hours, minutes and seconds make up the time that has passed of the day.
pub proof fn clock_adds_up(second: int)
    ensures
        ({
            let (h, m, s) = formatting::clock(second);
            &&& 0 <= h < 24
            &&& 0 <= m < 60
            &&& 0 <= s < 60
            &&& (second - (h * 3600 + m * 60 + s)) % 86_400 == 0
        }),
{
    let of_day = second % 86_400;
    let (h, m, s) = formatting::clock(second);
    assert(h * 3600 + m * 60 + s == of_day);
    assert((second - of_day) % 86_400 == 0) by {
        vstd::arithmetic::div_mod::lemma_fundamental_div_mod(second, 86_400);
        vstd::arithmetic::div_mod::lemma_mod_multiples_basic(second / 86_400, 86_400);
        assert(second - of_day == 86_400 * (second / 86_400));
    }
}

/// A time is written as hours, minutes and seconds of two digits with colons between, that of the
/// given distance from universal time; where that is not known, as question marks.
pub proof fn time_is_written_in_two_digits(ts: int, offset: i32)
    ensures
        ({
            let (h, m, s) = formatting::clock(ts + offset);
            let shown = formatting::time_text(ts, Some(offset));
            &&& shown.len() == 8
            &&& shown[2] == ':'
            &&& shown[5] == ':'
            &&& text::digits_value(shown.subrange(0, 2)) == h
            &&& text::digits_value(shown.subrange(3, 5)) == m
            &&& text::digits_value(shown.subrange(6, 8)) == s
            &&& formatting::time_text(ts, None) == "??:??:??"@
        }),
{
    let (h, m, s) = formatting::clock(ts + offset);
    clock_adds_up(ts + offset);
    reveal_strlit(":");
    two_digits_stand_for(h);
    two_digits_stand_for(m);
    two_digits_stand_for(s);
    let shown = formatting::time_text(ts, Some(offset));
    assert(shown.subrange(0, 2) =~= formatting::two_digits(h));
    assert(shown.subrange(3, 5) =~= formatting::two_digits(m));
    assert(shown.subrange(6, 8) =~= formatting::two_digits(s));
}

proof fn two_digits_stand_for(n: int)
    requires
        0 <= n < 100,
    ensures
        formatting::two_digits(n).len() == 2,
        text::digits_value(formatting::two_digits(n)) == n,
{
    let s = formatting::two_digits(n);
    number_is_written_in_digits(n as nat);
    if n < 10 {
        assert(text::decimal(n as nat).len() == 1);
        assert(s =~= seq!['0', text::digit_char(n)]);
        assert(s.drop_last() =~= seq!['0']);
        assert(seq!['0'].drop_last() =~= Seq::empty());
        assert(text::digits_value(Seq::empty()) == 0);
        assert(text::digits_value(seq!['0']) == 0);
        assert(s.last() as u32 == n + 0x30);
    } else {
        assert(text::decimal((n / 10) as nat).len() == 1);
        assert(text::decimal(n as nat).len() == 2);
    }
}

/// An event is written with its source and its line, and with its time in front where times are
/// shown; nothing of the line is left out.
pub proof fn event_is_written_whole(event: LogEventView, offset: Option<i32>)
    ensures
        formatting::event_line(event, false, offset) == "["@ + event.source + "] "@ + event.line,
        formatting::event_line(event, true, offset) == "["@ + formatting::time_text(
            event.ts as int,
            offset,
        ) + "] "@ + formatting::event_line(event, false, offset),
{
    let time = formatting::time_text(event.ts as int, offset);
    reveal_strlit("] [");
    reveal_strlit("] ");
    reveal_strlit("[");
    assert("] ["@ =~= "] "@ + "["@);
    assert(formatting::event_line(event, true, offset) =~= "["@ + time + "] "@
        + formatting::event_line(event, false, offset));
}

/// Texts are ordered by the first character in which they differ, and a text comes before every
/// longer one that begins with it.
pub proof fn first_difference_decides(common: Seq<char>, a: Seq<char>, b: Seq<char>)
    ensures
        a.len() > 0 && b.len() > 0 && a[0] != b[0] ==> order::text_le(common + a, common + b) == (
        a[0] < b[0]),
        a.len() == 0 ==> order::text_le(common + a, common + b),
        a.len() > 0 && b.len() == 0 ==> !order::text_le(common + a, common + b),
    decreases common.len(),
{
    let x = common + a;
    let y = common + b;
    if common.len() > 0 {
        first_difference_decides(common.skip(1), a, b);
        assert(x.skip(1) =~= common.skip(1) + a);
        assert(y.skip(1) =~= common.skip(1) + b);
    } else {
        assert(x =~= a);
        assert(y =~= b);
    }
}

/// Sorting keeps every text as often as it is there and puts each before those that come after it.
pub proof fn sorting_orders_all_texts(list: Seq<Seq<char>>)
    ensures
        order::sorted_texts(list).to_multiset() == list.to_multiset(),
        forall|i: int, j: int|
            0 <= i < j < order::sorted_texts(list).len() ==> order::text_le(
                #[trigger] order::sorted_texts(list)[i],
                #[trigger] order::sorted_texts(list)[j],
            ),
{
    let leq = |a: Seq<char>, b: Seq<char>| order::text_le(a, b);
    order::text_order_is_total_ordering();
    list.lemma_sort_by_ensures(leq);
    let sorted = order::sorted_texts(list);
    assert forall|i: int, j: int| 0 <= i < j < sorted.len() implies order::text_le(
        #[trigger] sorted[i],
        #[trigger] sorted[j],
    ) by {
        assert(leq(sorted[i], sorted[j]));
    }
}

/// Paths are ordered by the first component in which they differ: the root before a leading dot,
/// that before two dots, those before names, and names by their texts.
pub proof fn first_differing_component_decides(
    common: Seq<Seq<char>>,
    a: Seq<Seq<char>>,
    b: Seq<Seq<char>>,
)
    ensures
        a.len() == 0 ==> order::components_le(common + a, common + b),
        a.len() > 0 && b.len() == 0 ==> !order::components_le(common + a, common + b),
        a.len() > 0 && b.len() > 0 && a[0] != b[0] ==> order::components_le(common + a, common + b)
            == ({
            let rank = |component: Seq<char>|
                if component == "/"@ {
                    0int
                } else if component == "."@ {
                    1
                } else if component == ".."@ {
                    2
                } else {
                    3
                };
            ||| rank(a[0]) < rank(b[0])
            ||| rank(a[0]) == rank(b[0]) && order::text_le(a[0], b[0])
        }),
    decreases common.len(),
{
    let x = common + a;
    let y = common + b;
    if common.len() > 0 {
        first_differing_component_decides(common.skip(1), a, b);
        assert(x.skip(1) =~= common.skip(1) + a);
        assert(y.skip(1) =~= common.skip(1) + b);
        assert(x[0] == y[0]);
    } else {
        assert(x =~= a);
        assert(y =~= b);
        if a.len() > 0 {
            kinds_of_components(a[0]);
        }
        if b.len() > 0 {
            kinds_of_components(b[0]);
        }
    }
}

/// The root, a dot and two dots are told apart from names.
proof fn kinds_of_components(component: Seq<char>)
    ensures
        order::component_rank(component) == if component == "/"@ {
            0int
        } else if component == "."@ {
            1
        } else if component == ".."@ {
            2
        } else {
            3
        },
{
    reveal_strlit("/");
    reveal_strlit(".");
    reveal_strlit("..");
    assert("/"@ =~= seq!['/']);
    assert("."@ =~= seq!['.']);
    assert(".."@ =~= seq!['.', '.']);
}

/// Characters are taken out of a text wherever they stand, and the rest stays in its order.
pub proof fn characters_are_taken_out(s: Seq<char>, a: char, b: char)
    ensures
        text::without(s, a, b) == s.filter(|c: char| c != a && c != b),
    decreases s.len(),
{
    reveal(Seq::filter);
    if s.len() > 0 {
        characters_are_taken_out(s.drop_last(), a, b);
    } else {
        assert(text::without(s, a, b) =~= s);
    }
}

} // verus!
