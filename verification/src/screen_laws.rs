//! Which events pass the filters, and which of them are on the screen.

use crate::buffer;
use crate::text;
use crate::tracking::LogEventView;
use crate::ui::TuiView;
use vstd::prelude::*;

verus! {

/// The events that pass the filters are all that pass, in their order.
pub proof fn filters_keep_the_order(view: TuiView)
    ensures
        view.filtered() == view.events.filter(|event: LogEventView| view.accepts(event)),
{
    accepted_are_filtered(view, view.events, |event: LogEventView| view.accepts(event));
}

proof fn accepted_are_filtered(
    view: TuiView,
    events: Seq<LogEventView>,
    passes: spec_fn(LogEventView) -> bool,
)
    requires
        forall|event: LogEventView| #[trigger] passes(event) == view.accepts(event),
    ensures
        view.accepted(events) == events.filter(passes),
    decreases events.len(),
{
    reveal(Seq::filter);
    if events.len() > 0 {
        accepted_are_filtered(view, events.drop_last(), passes);
        assert(passes(events.last()) == view.accepts(events.last()));
    } else {
        assert(view.accepted(events) =~= events);
    }
}

/// `needle` stands in `hay`: there is something before it and something behind it that make up the
/// whole.
pub proof fn standing_is_between(hay: Seq<char>, needle: Seq<char>)
    ensures
        text::contains_text(hay, needle) == exists|before: Seq<char>, behind: Seq<char>|
            hay == #[trigger] (before + needle + behind),
{
    if text::contains_text(hay, needle) {
        let at = choose|at: int| text::stands_at(hay, needle, at);
        let before = hay.take(at);
        let behind = hay.skip(at + needle.len());
        assert(hay.subrange(at, at + needle.len()) == needle);
        assert(hay =~= before + needle + behind);
    }
    if exists|before: Seq<char>, behind: Seq<char>|
        hay == #[trigger] (before + needle + behind) {
        let (before, behind) = choose|before: Seq<char>, behind: Seq<char>|
            hay == #[trigger] (before + needle + behind);
        assert(hay.subrange(before.len() as int, (before.len() + needle.len()) as int) =~= needle);
        assert(text::stands_at(hay, needle, before.len() as int));
    }
}

/// An event passes exactly where it comes from the chosen source, if one is chosen, and the text
/// filter, if there is one, stands somewhere in its line; upper and lower case are told apart only
/// where that is asked for. How long the filter, the line or the list of sources is makes no
/// difference.
pub proof fn event_passes_exactly_when(view: TuiView, event: LogEventView)
    requires
        view.wf(),
    ensures
        view.accepts(event) == ({
            &&& match view.active_source_filter_idx {
                Some(idx) => view.sources[idx as int] == event.source,
                None => true,
            }
            &&& view.text_filter.len() == 0 || if view.case_insensitive_text_filter {
                exists|before: Seq<char>, behind: Seq<char>|
                    text::lowercased(event.line) == #[trigger] (before + text::lowercased(
                        view.text_filter,
                    ) + behind)
            } else {
                exists|before: Seq<char>, behind: Seq<char>|
                    event.line == #[trigger] (before + view.text_filter + behind)
            }
        }),
{
    standing_is_between(text::lowercased(event.line), text::lowercased(view.text_filter));
    standing_is_between(event.line, view.text_filter);
}

/// Filters that differ only in upper and lower case let the same events through where case is not
/// told apart.
pub proof fn case_of_the_filter_does_not_matter(a: TuiView, b: TuiView)
    requires
        a.wf(),
        b.wf(),
        a.case_insensitive_text_filter,
        b.case_insensitive_text_filter,
        a.active_source_filter_idx == b.active_source_filter_idx,
        a.sources == b.sources,
        a.events == b.events,
        a.text_filter.len() > 0,
        b.text_filter.len() > 0,
        text::lowercased(a.text_filter) == text::lowercased(b.text_filter),
    ensures
        a.filtered() == b.filtered(),
{
    let passes = |event: LogEventView| a.accepts(event);
    filters_keep_the_order(a);
    assert forall|event: LogEventView| #[trigger] passes(event) == b.accepts(event) by {
        event_passes_exactly_when(a, event);
        event_passes_exactly_when(b, event);
    }
    accepted_are_filtered(b, b.events, passes);
}

/// The screen is filled: it ends where the scroll offset puts its end, though never before the
/// oldest event, and it holds as many events as there is room for, or all up to its end.
pub proof fn screen_is_filled(view: TuiView, height: nat)
    ensures
        ({
            let all = view.filtered();
            let shown = view.on_screen(height);
            let end = if all.len() == 0 {
                0
            } else if view.scroll_offset < all.len() {
                all.len() - view.scroll_offset
            } else {
                1
            };
            &&& shown.len() == (if height < end {
                height as int
            } else {
                end
            })
            &&& forall|i: int|
                0 <= i < shown.len() ==> #[trigger] shown[i] == all[end - shown.len() + i]
        }),
{
}

/// One line more of height shows the event before, and nothing else changes.
pub proof fn taller_screen_shows_more(view: TuiView, height: nat)
    ensures
        view.on_screen(height).is_suffix_of(view.on_screen(height + 1)),
        view.on_screen(height).len() < height ==> view.on_screen(height + 1) == view.on_screen(
            height,
        ),
        view.on_screen(height + 1).len() <= view.on_screen(height).len() + 1,
{
}

/// How many lines can be scrolled: all that pass but one.
pub proof fn scrolling_ends_at_the_oldest(view: TuiView)
    ensures
        view.filtered().len() > 0 ==> view.max_scroll() == view.filtered().len() - 1,
        view.filtered().len() == 0 ==> view.max_scroll() == 0,
{
}

/// What has come in is kept behind what was there, up to the newest `max` of all; and where nothing
/// has come in, what was there stays.
pub proof fn buffer_holds_the_newest<T>(items: Seq<T>, new: Seq<T>, max: nat)
    ensures
        new.len() == 0 ==> buffer::capped(items, new, max) == items,
        new.len() > 0 ==> buffer::capped(items, new, max).len() == if items.len() + new.len()
            < max {
            items.len() + new.len()
        } else {
            max
        },
        buffer::capped(items, new, max).is_suffix_of(items + new),
        buffer::taken_out(items, new, max) + buffer::capped(items, new, max).len() == items.len()
            + new.len(),
{
    if new.len() == 0 {
        assert(items + new =~= items);
    }
}

/// A counter shows the number itself as long as it has room for it, and goes on from zero after
/// that.
pub proof fn counter_counts(n: int)
    ensures
        0 <= n <= u64::MAX ==> buffer::counter(n) == n,
        n >= 0 ==> buffer::counter(n + 0x1_0000_0000_0000_0000) == buffer::counter(n),
{
    vstd::arithmetic::div_mod::lemma_mod_add_multiples_vanish(n, 0x1_0000_0000_0000_0000);
    if 0 <= n <= u64::MAX {
        vstd::arithmetic::div_mod::lemma_small_mod(n as nat, 0x1_0000_0000_0000_0000);
    }
}

/// What a poll brings is counted and kept: the newest `max` events stay, and the counters grow by
/// what came, what went and what the rules held back. Nothing else changes but the scroll offset,
/// which stays unless it goes beyond what can be scrolled.
pub proof fn incoming_events_are_kept_and_counted(
    view: TuiView,
    new: Seq<LogEventView>,
    suppressed: nat,
    max: nat,
)
    requires
        view.total_events_seen + new.len() <= u64::MAX,
        view.suppressed_by_rules + suppressed <= u64::MAX,
        view.dropped_events + view.events.len() + new.len() <= u64::MAX,
    ensures
        ({
            let after = view.with_events(new, suppressed, max);
            let kept = after.events.len();
            &&& after.events.is_suffix_of(view.events + new)
            &&& new.len() > 0 && view.events.len() + new.len() >= max ==> kept == max
            &&& new.len() == 0 || view.events.len() + new.len() < max ==> after.events
                == view.events + new
            &&& after.total_events_seen == view.total_events_seen + new.len()
            &&& after.dropped_events == view.dropped_events + (view.events.len() + new.len() - kept)
            &&& after.suppressed_by_rules == view.suppressed_by_rules + suppressed
            &&& view.scroll_offset < after.filtered().len() ==> after.scroll_offset
                == view.scroll_offset
            &&& view.scroll_offset >= after.filtered().len() > 0 ==> after.scroll_offset
                == after.filtered().len() - 1
            &&& after.filtered().len() == 0 ==> after.scroll_offset == 0
            &&& after == (TuiView {
                events: after.events,
                total_events_seen: after.total_events_seen,
                dropped_events: after.dropped_events,
                suppressed_by_rules: after.suppressed_by_rules,
                scroll_offset: after.scroll_offset,
                ..view
            })
        }),
{
    let after = view.with_events(new, suppressed, max);
    let fed = TuiView { scroll_offset: view.scroll_offset, ..after };
    counter_counts(view.total_events_seen + new.len());
    counter_counts(view.suppressed_by_rules + suppressed as int);
    counter_counts(view.dropped_events + buffer::taken_out(view.events, new, max));
    buffer_holds_the_newest(view.events, new, max);
    if new.len() == 0 {
        assert(view.events + new =~= view.events);
    } else if view.events.len() + new.len() < max {
        assert(after.events =~= view.events + new);
    }
    let passes = |event: LogEventView| after.accepts(event);
    assert forall|event: LogEventView| #[trigger] passes(event) == fed.accepts(event) by {}
    accepted_are_filtered(after, after.events, passes);
    accepted_are_filtered(fed, after.events, passes);
}

} // verus!
