//! Which lines are shown: patterns that hide lines, and patterns that show them all the same.

use crate::text;
use crate::tracking;
use crate::tracking::LogEvent;
use crate::tracking::LogEventView;
use regex::Regex;
use vstd::prelude::*;

verus! {

/// The compiled patterns of the `regex` crate.
#[verifier::external_type_specification]
#[verifier::external_body]
pub struct RegexType(Regex);

/// What `regex::Regex::new` makes of a pattern: the compiled pattern, or the text of the error.
pub uninterp spec fn compiled(pattern: Seq<char>) -> Result<Regex, Seq<char>>;

/// What `regex::Regex::is_match` says of a line.
pub uninterp spec fn accepts(regex: Regex, line: Seq<char>) -> bool;

/// `Regex::new` compiles a pattern or says why it cannot; what it does depends on the pattern
/// alone, as `compiled` says.
#[verifier::external_body]
pub(crate) fn compile_pattern(pattern: &str) -> (res: Result<Regex, String>)
    ensures
        match res {
            Ok(regex) => compiled(pattern@) == Ok::<Regex, Seq<char>>(regex),
            Err(message) => compiled(pattern@) == Err::<Regex, Seq<char>>(message@),
        },
{
    Regex::new(pattern).map_err(|err| err.to_string())
}

/// `Regex::is_match` says whether the pattern matches somewhere in the line; the answer depends on
/// the two alone, as `accepts` says.
#[verifier::external_body]
fn is_match(regex: &Regex, line: &str) -> (res: bool)
    ensures
        res == accepts(*regex, line@),
{
    regex.is_match(line)
}

/// A pattern of the list matches the line.
pub open spec fn any_accepts(list: Seq<Regex>, line: Seq<char>) -> bool {
    exists|i: int| 0 <= i < list.len() && accepts(#[trigger] list[i], line)
}

/// A line is shown unless a pattern hides it and none shows it all the same.
pub open spec fn shown(whitelisted: bool, blacklisted: bool) -> bool {
    whitelisted || !blacklisted
}

/// Whether a line is shown, given whether a pattern of each kind matches it.
pub fn is_shown(whitelisted: bool, blacklisted: bool) -> (res: bool)
    ensures
        res == shown(whitelisted, blacklisted),
{
    if whitelisted {
        return true;
    }
    if blacklisted {
        return false;
    }
    true
}

/// The message that a pattern of some kind cannot be compiled.
pub open spec fn invalid_pattern(kind: Seq<char>, pattern: Seq<char>) -> Seq<char> {
    "invalid "@ + kind + " regex `"@ + pattern + "`"@
}

/// The message that a pattern of some kind cannot be compiled.
pub fn invalid_pattern_message(kind: &str, pattern: &str) -> (res: String)
    ensures
        res@ == invalid_pattern(kind@, pattern@),
{
    let mut res: String = "invalid ".to_owned();
    res.append(kind);
    res.append(" regex `");
    res.append(pattern);
    res.append("`");
    res
}

/// The patterns of one kind, compiled; or the message about the first that cannot be.
pub open spec fn all_compiled(patterns: Seq<Seq<char>>, kind: Seq<char>) -> Result<
    Seq<Regex>,
    Seq<char>,
>
    decreases patterns.len(),
{
    if patterns.len() == 0 {
        Ok(seq![])
    } else {
        match all_compiled(patterns.drop_last(), kind) {
            Err(message) => Err(message),
            Ok(front) => match compiled(patterns.last()) {
                Ok(regex) => Ok(front.push(regex)),
                Err(_) => Err(invalid_pattern(kind, patterns.last())),
            },
        }
    }
}

fn compile_patterns(patterns: &[String], kind: &str) -> (res: Result<Vec<Regex>, String>)
    ensures
        match res {
            Ok(list) => all_compiled(text::texts(patterns@), kind@) == Ok::<Seq<Regex>, Seq<char>>(
                list@,
            ),
            Err(message) => all_compiled(text::texts(patterns@), kind@) == Err::<
                Seq<Regex>,
                Seq<char>,
            >(message@),
        },
{
    let ghost all = text::texts(patterns@);
    let mut list: Vec<Regex> = Vec::new();
    let mut failure: Option<String> = None;
    let mut i: usize = 0;
    assert(list@ =~= seq![]);
    while i < patterns.len()
        invariant
            all == text::texts(patterns@),
            i <= patterns@.len(),
            match failure {
                None => all_compiled(all.take(i as int), kind@) == Ok::<Seq<Regex>, Seq<char>>(
                    list@,
                ),
                Some(message) => all_compiled(all.take(i as int), kind@) == Err::<
                    Seq<Regex>,
                    Seq<char>,
                >(message@),
            },
        decreases patterns@.len() - i,
    {
        proof {
            assert(all.take(i + 1).drop_last() =~= all.take(i as int));
            assert(all.take(i + 1).last() == patterns@[i as int]@);
        }
        if failure.is_none() {
            match compile_pattern(patterns[i].as_str()) {
                Ok(regex) => {
                    list.push(regex);
                },
                Err(_) => {
                    failure = Some(invalid_pattern_message(kind, patterns[i].as_str()));
                },
            }
        }
        i = i + 1;
    }
    assert(all.take(i as int) =~= all);
    match failure {
        Some(message) => Err(message),
        None => Ok(list),
    }
}

/// The events whose flag is set.
pub open spec fn flagged(events: Seq<LogEventView>, flags: Seq<bool>) -> Seq<LogEventView>
    decreases events.len(),
{
    if events.len() == 0 {
        seq![]
    } else {
        let front = flagged(events.drop_last(), flags);
        if flags[events.len() - 1] {
            front.push(events.last())
        } else {
            front
        }
    }
}

/// No more events are flagged than there are.
pub proof fn flagged_is_part(events: Seq<LogEventView>, flags: Seq<bool>)
    ensures
        flagged(events, flags).len() <= events.len(),
    decreases events.len(),
{
    if events.len() > 0 {
        flagged_is_part(events.drop_last(), flags);
    }
}

/// The events whose flag is set, in their order, and the number of the others.
pub fn split_events(events: Vec<LogEvent>, flags: &Vec<bool>) -> (res: (Vec<LogEvent>, usize))
    requires
        flags@.len() == events@.len(),
    ensures
        tracking::event_views(res.0@) == flagged(tracking::event_views(events@), flags@),
        res.1 == events@.len() - res.0@.len(),
{
    let ghost all = tracking::event_views(events@);
    let mut kept: Vec<LogEvent> = Vec::new();
    let mut suppressed: usize = 0;
    let mut i: usize = 0;
    assert(tracking::event_views(kept@) =~= seq![]);
    while i < events.len()
        invariant
            flags@.len() == events@.len(),
            all == tracking::event_views(events@),
            i <= events@.len(),
            tracking::event_views(kept@) == flagged(all.take(i as int), flags@),
            kept@.len() + suppressed == i,
        decreases events@.len() - i,
    {
        let ghost before = tracking::event_views(kept@);
        proof {
            assert(all.take(i + 1).drop_last() =~= all.take(i as int));
            assert(all.take(i + 1).last() == events@[i as int]@);
        }
        if flags[i] {
            kept.push(events[i].copy());
            assert(tracking::event_views(kept@) =~= before.push(events@[i as int]@));
        } else {
            suppressed = suppressed + 1;
        }
        i = i + 1;
    }
    assert(all.take(i as int) =~= all);
    (kept, suppressed)
}

/// The patterns that hide lines and those that show them all the same.
#[derive(Debug)]
pub struct LineRules {
    blacklist: Vec<Regex>,
    whitelist: Vec<Regex>,
}

/// The patterns, as contracts speak of them.
pub struct RulesView {
    pub blacklist: Seq<Regex>,
    pub whitelist: Seq<Regex>,
}

impl View for LineRules {
    type V = RulesView;

    closed spec fn view(&self) -> RulesView {
        RulesView { blacklist: self.blacklist@, whitelist: self.whitelist@ }
    }
}

impl RulesView {
    /// The line is shown.
    pub open spec fn displays(self, line: Seq<char>) -> bool {
        shown(any_accepts(self.whitelist, line), any_accepts(self.blacklist, line))
    }

    /// Whether each of the events is shown.
    pub open spec fn flags(self, events: Seq<LogEventView>) -> Seq<bool> {
        events.map_values(|event: LogEventView| self.displays(event.line))
    }
}

/// The rules that patterns make; or the message about the first that cannot be compiled, those that
/// hide lines first.
pub open spec fn rules_of(blacklist: Seq<Seq<char>>, whitelist: Seq<Seq<char>>) -> Result<
    RulesView,
    Seq<char>,
> {
    match all_compiled(blacklist, "blacklist"@) {
        Err(message) => Err(message),
        Ok(blacklist) => match all_compiled(whitelist, "whitelist"@) {
            Err(message) => Err(message),
            Ok(whitelist) => Ok(RulesView { blacklist, whitelist }),
        },
    }
}

fn any_match(list: &Vec<Regex>, line: &str) -> (res: bool)
    ensures
        res == any_accepts(list@, line@),
{
    let mut i: usize = 0;
    while i < list.len()
        invariant
            i <= list@.len(),
            forall|j: int| 0 <= j < i ==> !accepts(#[trigger] list@[j], line@),
        decreases list@.len() - i,
    {
        if is_match(&list[i], line) {
            return true;
        }
        i = i + 1;
    }
    false
}

impl LineRules {
    /// The rules that the patterns make.
    pub fn new(blacklist_patterns: &[String], whitelist_patterns: &[String]) -> (res: Result<
        LineRules,
        String,
    >)
        ensures
            match res {
                Ok(rules) => rules_of(
                    text::texts(blacklist_patterns@),
                    text::texts(whitelist_patterns@),
                ) == Ok::<RulesView, Seq<char>>(rules@),
                Err(message) => rules_of(
                    text::texts(blacklist_patterns@),
                    text::texts(whitelist_patterns@),
                ) == Err::<RulesView, Seq<char>>(message@),
            },
    {
        let blacklist: Vec<Regex> = match compile_patterns(blacklist_patterns, "blacklist") {
            Ok(list) => list,
            Err(message) => {
                return Err(message);
            },
        };
        let whitelist: Vec<Regex> = match compile_patterns(whitelist_patterns, "whitelist") {
            Ok(list) => list,
            Err(message) => {
                return Err(message);
            },
        };
        Ok(LineRules { blacklist, whitelist })
    }

    /// The events whose lines are shown, in their order, and the number of the others.
    pub fn partition_events(&self, events: Vec<LogEvent>) -> (res: (Vec<LogEvent>, usize))
        ensures
            tracking::event_views(res.0@) == flagged(
                tracking::event_views(events@),
                self@.flags(tracking::event_views(events@)),
            ),
            res.1 == events@.len() - res.0@.len(),
    {
        let mut flags: Vec<bool> = Vec::new();
        let ghost all = tracking::event_views(events@);
        let mut i: usize = 0;
        while i < events.len()
            invariant
                all == tracking::event_views(events@),
                i <= events@.len(),
                flags@.len() == i,
                forall|j: int| 0 <= j < i ==> #[trigger] flags@[j] == self@.flags(all)[j],
            decreases events@.len() - i,
        {
            flags.push(self.should_display(events[i].line.as_str()));
            i = i + 1;
        }
        assert(flags@ =~= self@.flags(all));
        split_events(events, &flags)
    }

    /// Whether the line is shown.
    pub fn should_display(&self, line: &str) -> (res: bool)
        ensures
            res == self@.displays(line@),
    {
        is_shown(any_match(&self.whitelist, line), any_match(&self.blacklist, line))
    }
}

/// A line that a pattern of the whitelist matches is shown, whatever the blacklist holds.
pub proof fn whitelist_overrides_blacklist(rules: RulesView, line: Seq<char>)
    requires
        any_accepts(rules.whitelist, line),
    ensures
        rules.displays(line),
{
}

/// A line that no pattern matches is shown.
pub proof fn unmatched_lines_are_shown(rules: RulesView, line: Seq<char>)
    requires
        !any_accepts(rules.blacklist, line),
    ensures
        rules.displays(line),
{
}

/// A line that a pattern of the blacklist matches and none of the whitelist does is hidden.
pub proof fn blacklisted_lines_are_hidden(rules: RulesView, line: Seq<char>, i: int)
    requires
        0 <= i < rules.blacklist.len(),
        accepts(rules.blacklist[i], line),
        forall|j: int|
            0 <= j < rules.whitelist.len() ==> !accepts(#[trigger] rules.whitelist[j], line),
    ensures
        !rules.displays(line),
{
}

/// Every line that is not hidden so is shown: one that some pattern of the whitelist matches, or
/// that none of the blacklist does.
pub proof fn other_lines_are_shown(rules: RulesView, line: Seq<char>)
    requires
        (exists|i: int|
            0 <= i < rules.whitelist.len() && accepts(#[trigger] rules.whitelist[i], line))
            || forall|i: int|
            0 <= i < rules.blacklist.len() ==> !accepts(#[trigger] rules.blacklist[i], line),
    ensures
        rules.displays(line),
{
}

/// Of a list of events those stay whose lines are shown, all of them, in their order.
pub proof fn shown_events_stay(rules: RulesView, events: Seq<LogEventView>)
    ensures
        flagged(events, rules.flags(events)) == events.filter(
            |event: LogEventView| rules.displays(event.line),
        ),
{
    flagged_are_filtered(
        events,
        rules.flags(events),
        |event: LogEventView| rules.displays(event.line),
    );
}

proof fn flagged_are_filtered(
    events: Seq<LogEventView>,
    flags: Seq<bool>,
    shows: spec_fn(LogEventView) -> bool,
)
    requires
        flags.len() >= events.len(),
        forall|i: int| 0 <= i < events.len() ==> #[trigger] flags[i] == shows(events[i]),
    ensures
        flagged(events, flags) == events.filter(shows),
    decreases events.len(),
{
    reveal(Seq::filter);
    if events.len() > 0 {
        let front = events.drop_last();
        assert forall|i: int| 0 <= i < front.len() implies #[trigger] flags[i] == shows(
            front[i],
        ) by {
            assert(events[i] == front[i]);
        }
        flagged_are_filtered(front, flags, shows);
    } else {
        assert(flagged(events, flags) =~= events);
    }
}

/// Patterns that can all be compiled make a list of the compiled patterns, one for each, in order.
pub proof fn patterns_are_compiled_one_by_one(patterns: Seq<Seq<char>>, kind: Seq<char>)
    requires
        forall|i: int| 0 <= i < patterns.len() ==> compiled(#[trigger] patterns[i]) is Ok,
    ensures
        all_compiled(patterns, kind) is Ok,
        (all_compiled(patterns, kind)->Ok_0).len() == patterns.len(),
        forall|i: int|
            0 <= i < patterns.len() ==> compiled(#[trigger] patterns[i]) == Ok::<Regex, Seq<char>>(
                (all_compiled(patterns, kind)->Ok_0)[i],
            ),
    decreases patterns.len(),
{
    if patterns.len() > 0 {
        let front = patterns.drop_last();
        assert forall|i: int| 0 <= i < front.len() implies compiled(#[trigger] front[i]) is Ok by {
            assert(front[i] == patterns[i]);
        }
        patterns_are_compiled_one_by_one(front, kind);
        assert(compiled(patterns[patterns.len() - 1]) is Ok);
        assert forall|i: int| 0 <= i < patterns.len() implies compiled(#[trigger] patterns[i])
            == Ok::<Regex, Seq<char>>((all_compiled(patterns, kind)->Ok_0)[i]) by {
            if i < front.len() {
                assert(front[i] == patterns[i]);
            }
        }
    }
}

/// Where a pattern cannot be compiled, the first such is named.
pub proof fn first_bad_pattern_is_named(patterns: Seq<Seq<char>>, kind: Seq<char>, k: int)
    requires
        0 <= k < patterns.len(),
        compiled(patterns[k]) is Err,
        forall|i: int| 0 <= i < k ==> compiled(#[trigger] patterns[i]) is Ok,
    ensures
        all_compiled(patterns, kind) == Err::<Seq<Regex>, Seq<char>>(
            "invalid "@ + kind + " regex `"@ + patterns[k] + "`"@,
        ),
    decreases patterns.len(),
{
    let front = patterns.drop_last();
    if k < front.len() {
        assert forall|i: int| 0 <= i < k implies compiled(#[trigger] front[i]) is Ok by {
            assert(front[i] == patterns[i]);
        }
        first_bad_pattern_is_named(front, kind, k);
    } else {
        assert forall|i: int| 0 <= i < front.len() implies compiled(#[trigger] front[i]) is Ok by {
            assert(front[i] == patterns[i]);
        }
        patterns_are_compiled_one_by_one(front, kind);
    }
}

/// The rules hold what the two lists of patterns are compiled to; where one cannot be compiled, the
/// message is about the blacklist first.
pub proof fn rules_hold_both_lists(blacklist: Seq<Seq<char>>, whitelist: Seq<Seq<char>>)
    ensures
        rules_of(blacklist, whitelist) is Ok == (all_compiled(blacklist, "blacklist"@) is Ok
            && all_compiled(whitelist, "whitelist"@) is Ok),
        rules_of(blacklist, whitelist) is Ok ==> {
            &&& Ok::<Seq<Regex>, Seq<char>>((rules_of(blacklist, whitelist)->Ok_0).blacklist)
                == all_compiled(blacklist, "blacklist"@)
            &&& Ok::<Seq<Regex>, Seq<char>>((rules_of(blacklist, whitelist)->Ok_0).whitelist)
                == all_compiled(whitelist, "whitelist"@)
        },
        all_compiled(blacklist, "blacklist"@) is Err ==> rules_of(blacklist, whitelist)->Err_0
            == all_compiled(blacklist, "blacklist"@)->Err_0,
        all_compiled(blacklist, "blacklist"@) is Ok && all_compiled(whitelist, "whitelist"@)
            is Err ==> rules_of(blacklist, whitelist)->Err_0 == all_compiled(
            whitelist,
            "whitelist"@,
        )->Err_0,
{
}

/// A line is hidden by patterns, as they were given, exactly where one of the blacklist matches it
/// and none of the whitelist does.
pub proof fn given_patterns_hide_lines(
    blacklist: Seq<Seq<char>>,
    whitelist: Seq<Seq<char>>,
    line: Seq<char>,
)
    requires
        forall|i: int| 0 <= i < blacklist.len() ==> compiled(#[trigger] blacklist[i]) is Ok,
        forall|i: int| 0 <= i < whitelist.len() ==> compiled(#[trigger] whitelist[i]) is Ok,
    ensures
        rules_of(blacklist, whitelist) is Ok,
        !(rules_of(blacklist, whitelist)->Ok_0).displays(line) == ((exists|i: int|
            0 <= i < blacklist.len() && accepts(compiled(#[trigger] blacklist[i])->Ok_0, line))
            && !(exists|i: int|
            0 <= i < whitelist.len() && accepts(compiled(#[trigger] whitelist[i])->Ok_0, line))),
{
    patterns_are_compiled_one_by_one(blacklist, "blacklist"@);
    patterns_are_compiled_one_by_one(whitelist, "whitelist"@);
    let rules = rules_of(blacklist, whitelist)->Ok_0;
    if any_accepts(rules.blacklist, line) {
        let i = choose|i: int|
            0 <= i < rules.blacklist.len() && accepts(#[trigger] rules.blacklist[i], line);
        assert(accepts(compiled(blacklist[i])->Ok_0, line));
    }
    if any_accepts(rules.whitelist, line) {
        let i = choose|i: int|
            0 <= i < rules.whitelist.len() && accepts(#[trigger] rules.whitelist[i], line);
        assert(accepts(compiled(whitelist[i])->Ok_0, line));
    }
    if exists|i: int|
        0 <= i < blacklist.len() && accepts(compiled(#[trigger] blacklist[i])->Ok_0, line) {
        let i = choose|i: int|
            0 <= i < blacklist.len() && accepts(compiled(#[trigger] blacklist[i])->Ok_0, line);
        assert(accepts(rules.blacklist[i], line));
    }
    if exists|i: int|
        0 <= i < whitelist.len() && accepts(compiled(#[trigger] whitelist[i])->Ok_0, line) {
        let i = choose|i: int|
            0 <= i < whitelist.len() && accepts(compiled(#[trigger] whitelist[i])->Ok_0, line);
        assert(accepts(rules.whitelist[i], line));
    }
}

} // verus!
