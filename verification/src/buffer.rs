//! A buffer that keeps the last items that came, and counters beside it.

use std::collections::VecDeque;
use vstd::prelude::*;

verus! {

/// The value of a counter of sixty-four bits that has counted to `n`.
pub open spec fn counter(n: int) -> u64 {
    (n % 0x1_0000_0000_0000_0000) as u64
}

/// A counter that goes on by `n`.
pub fn count(start: u64, n: u64) -> (res: u64)
    ensures
        res == counter(start + n),
{
    start.wrapping_add(n)
}

/// The items with `new` behind them, without the oldest where there are more than `max`. Where
/// nothing is new, nothing is taken out.
pub open spec fn capped<T>(items: Seq<T>, new: Seq<T>, max: nat) -> Seq<T> {
    let all = items + new;
    if new.len() > 0 && all.len() > max {
        all.skip(all.len() - max)
    } else {
        all
    }
}

/// How many items are taken out where `new` comes in.
pub open spec fn taken_out<T>(items: Seq<T>, new: Seq<T>, max: nat) -> int {
    items.len() + new.len() - capped(items, new, max).len()
}

/// Takes out the oldest items where there are more than `max`, and counts them.
pub fn trim_front<T>(items: &mut VecDeque<T>, max: usize, dropped: u64) -> (res: u64)
    ensures
        final(items)@ == (if old(items)@.len() > max {
            old(items)@.skip(old(items)@.len() - max)
        } else {
            old(items)@
        }),
        res == counter(dropped + old(items)@.len() - final(items)@.len()),
{
    let ghost before = items@;
    let mut res: u64 = dropped;
    assert(before.skip(0) =~= before);
    while items.len() > max
        invariant
            items@.len() <= before.len(),
            items@ == before.skip(before.len() - items@.len()),
            res == counter(dropped + before.len() - items@.len()),
            before.len() > max ==> items@.len() >= max,
            before.len() <= max ==> items@ == before,
        decreases items@.len(),
    {
        let ghost at = before.len() - items@.len();
        let _ = items.pop_front();
        assert(items@ =~= before.skip(at + 1));
        res = count(res, 1);
    }
    res
}

/// Puts the new items behind the others, takes out the oldest where there are more than `max`, and
/// counts those.
pub fn push_capped<T>(items: &mut VecDeque<T>, new: Vec<T>, max: usize, dropped: u64) -> (res: u64)
    ensures
        final(items)@ == capped(old(items)@, new@, max as nat),
        res == counter(dropped + taken_out(old(items)@, new@, max as nat)),
{
    let ghost before = items@;
    let mut res: u64 = dropped;
    assert(before + new@.take(0) =~= before);
    for item in it: new
        invariant
            it.seq() == new@,
            items@ == capped(before, new@.take(it.index() as int), max as nat),
            res == counter(
                dropped + taken_out(before, new@.take(it.index() as int), max as nat),
            ),
    {
        let ghost front = new@.take(it.index() as int);
        let ghost held = items@;
        let ghost all = before + front;
        let ghost counted = res;
        items.push_back(item);
        res = trim_front(items, max, res);
        proof {
            let next = new@.take(it.index() + 1);
            assert(next =~= front.push(item));
            assert(before + next =~= all.push(item));
            if front.len() > 0 && all.len() > max {
                assert(held.push(item) =~= all.push(item).skip(all.len() - max));
            } else {
                assert(held.push(item) =~= all.push(item));
            }
            assert(items@ =~= capped(before, next, max as nat));
        }
    }
    assert(new@.take(new@.len() as int) =~= new@);
    res
}

/// A buffer holds no more than `max` items once something new has come, and the newest of them.
pub proof fn buffer_keeps_the_newest<T>(items: Seq<T>, new: Seq<T>, max: nat)
    requires
        new.len() > 0,
    ensures
        capped(items, new, max).len() <= max,
        forall|i: int|
            0 <= i < capped(items, new, max).len() ==> #[trigger] capped(items, new, max)[i] == (
            items + new)[items.len() + new.len() - capped(items, new, max).len() + i],
{
}

} // verus!
