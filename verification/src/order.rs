//! The orders by which texts and paths are listed.

use crate::paths;
use crate::text;
use vstd::prelude::*;

verus! {

/// `a` stands before `b` or equals it, compared character by character.
pub open spec fn text_le(a: Seq<char>, b: Seq<char>) -> bool
    decreases a.len(),
{
    ||| a.len() == 0
    ||| {
        &&& b.len() > 0
        &&& {
            ||| a[0] < b[0]
            ||| a[0] == b[0] && text_le(a.skip(1), b.skip(1))
        }
    }
}

/// Where a path component stands among those with other first marks: the root, then `.`, then
/// `..`, then names.
pub open spec fn component_rank(c: Seq<char>) -> int {
    if c == seq!['/'] {
        0
    } else if c == seq!['.'] {
        1
    } else if c == seq!['.', '.'] {
        2
    } else {
        3
    }
}

/// `a` stands before `b` or equals it, as path components.
pub open spec fn component_le(a: Seq<char>, b: Seq<char>) -> bool {
    component_rank(a) < component_rank(b) || component_rank(a) == component_rank(b) && text_le(a, b)
}

/// `a` stands before `b` or equals it, compared component by component.
pub open spec fn components_le(a: Seq<Seq<char>>, b: Seq<Seq<char>>) -> bool
    decreases a.len(),
{
    ||| a.len() == 0
    ||| {
        &&& b.len() > 0
        &&& {
            ||| a[0] != b[0] && component_le(a[0], b[0])
            ||| a[0] == b[0] && components_le(a.skip(1), b.skip(1))
        }
    }
}

/// How a list is ordered.
#[derive(Clone, Copy)]
pub enum Order {
    /// By the characters.
    Text,
    /// By the path components.
    Path,
}

impl Order {
    /// `a` stands before `b` or ties with it.
    pub open spec fn le(self, a: Seq<char>, b: Seq<char>) -> bool {
        match self {
            Order::Text => text_le(a, b),
            Order::Path => components_le(paths::path_components(a), paths::path_components(b)),
        }
    }

    /// Each entry stands before those behind it or ties with them.
    pub open spec fn sorted(self, s: Seq<Seq<char>>) -> bool {
        forall|i: int, j: int| 0 <= i <= j < s.len() ==> self.le(#[trigger] s[i], #[trigger] s[j])
    }
}

/// Each text stands before those behind it and differs from them.
pub open spec fn strictly_ascending(s: Seq<Seq<char>>) -> bool {
    forall|i: int, j: int|
        0 <= i < j < s.len() ==> text_le(#[trigger] s[i], #[trigger] s[j]) && s[i] != s[j]
}

/// The order of texts is reflexive.
pub proof fn text_order_reflexive(a: Seq<char>)
    ensures
        text_le(a, a),
    decreases a.len(),
{
    if a.len() > 0 {
        text_order_reflexive(a.skip(1));
    }
}

/// Of two texts one stands before the other.
pub proof fn text_order_total(a: Seq<char>, b: Seq<char>)
    ensures
        text_le(a, b) || text_le(b, a),
    decreases a.len(),
{
    if a.len() > 0 && b.len() > 0 {
        text_order_total(a.skip(1), b.skip(1));
    }
}

/// Texts that stand before each other are equal.
pub proof fn text_order_antisymmetric(a: Seq<char>, b: Seq<char>)
    requires
        text_le(a, b),
        text_le(b, a),
    ensures
        a == b,
    decreases a.len(),
{
    if a.len() > 0 && b.len() > 0 {
        text_order_antisymmetric(a.skip(1), b.skip(1));
        assert(a =~= seq![a[0]] + a.skip(1));
        assert(b =~= seq![b[0]] + b.skip(1));
    } else {
        assert(a =~= b);
    }
}

/// The order of texts is transitive.
pub proof fn text_order_transitive(a: Seq<char>, b: Seq<char>, c: Seq<char>)
    requires
        text_le(a, b),
        text_le(b, c),
    ensures
        text_le(a, c),
    decreases a.len(),
{
    if a.len() > 0 {
        if a[0] == b[0] && b[0] == c[0] {
            text_order_transitive(a.skip(1), b.skip(1), c.skip(1));
        }
    }
}

proof fn components_le_total(a: Seq<Seq<char>>, b: Seq<Seq<char>>)
    ensures
        components_le(a, b) || components_le(b, a),
    decreases a.len(),
{
    if a.len() > 0 && b.len() > 0 {
        text_order_total(a[0], b[0]);
        components_le_total(a.skip(1), b.skip(1));
    }
}

proof fn components_le_transitive(a: Seq<Seq<char>>, b: Seq<Seq<char>>, c: Seq<Seq<char>>)
    requires
        components_le(a, b),
        components_le(b, c),
    ensures
        components_le(a, c),
    decreases a.len(),
{
    if a.len() > 0 {
        if a[0] == b[0] && b[0] == c[0] {
            components_le_transitive(a.skip(1), b.skip(1), c.skip(1));
        } else if a[0] != b[0] && b[0] != c[0] {
            if component_rank(a[0]) == component_rank(b[0]) && component_rank(b[0])
                == component_rank(c[0]) {
                text_order_transitive(a[0], b[0], c[0]);
                if a[0] == c[0] {
                    text_order_antisymmetric(a[0], b[0]);
                }
            }
        }
    }
}

/// Paths that stand before each other have the same components.
pub proof fn path_order_antisymmetric(a: Seq<Seq<char>>, b: Seq<Seq<char>>)
    requires
        components_le(a, b),
        components_le(b, a),
    ensures
        a == b,
    decreases a.len(),
{
    if a.len() > 0 && b.len() > 0 {
        if a[0] != b[0] {
            text_order_antisymmetric(a[0], b[0]);
        }
        path_order_antisymmetric(a.skip(1), b.skip(1));
        assert(a =~= seq![a[0]] + a.skip(1));
        assert(b =~= seq![b[0]] + b.skip(1));
    } else {
        assert(a =~= b);
    }
}

/// Of two entries one stands before the other or they tie.
pub proof fn order_total(order: Order, a: Seq<char>, b: Seq<char>)
    ensures
        order.le(a, b) || order.le(b, a),
{
    match order {
        Order::Text => text_order_total(a, b),
        Order::Path => components_le_total(paths::path_components(a), paths::path_components(b)),
    }
}

/// Both orders are transitive.
pub proof fn order_transitive(order: Order, a: Seq<char>, b: Seq<char>, c: Seq<char>)
    requires
        order.le(a, b),
        order.le(b, c),
    ensures
        order.le(a, c),
{
    match order {
        Order::Text => text_order_transitive(a, b, c),
        Order::Path => components_le_transitive(
            paths::path_components(a),
            paths::path_components(b),
            paths::path_components(c),
        ),
    }
}

/// Whether `a` stands before `b` or equals it.
pub fn chars_le(a: &[char], b: &[char]) -> (res: bool)
    ensures
        res == text_le(a@, b@),
{
    let mut i: usize = 0;
    assert(a@.skip(0) =~= a@);
    assert(b@.skip(0) =~= b@);
    while i < a.len()
        invariant
            i <= a@.len(),
            i <= b@.len(),
            text_le(a@, b@) == text_le(a@.skip(i as int), b@.skip(i as int)),
        decreases a@.len() - i,
    {
        if i >= b.len() {
            return false;
        }
        if a[i] != b[i] {
            return a[i] < b[i];
        }
        proof {
            assert(a@.skip(i as int).skip(1) =~= a@.skip(i + 1));
            assert(b@.skip(i as int).skip(1) =~= b@.skip(i + 1));
        }
        i = i + 1;
    }
    true
}

fn rank_of(c: &[char]) -> (res: u8)
    ensures
        res == component_rank(c@),
{
    if c.len() == 1 && c[0] == '/' {
        assert(c@ =~= seq!['/']);
        0
    } else if c.len() == 1 && c[0] == '.' {
        assert(c@ =~= seq!['.']);
        1
    } else if c.len() == 2 && c[0] == '.' && c[1] == '.' {
        assert(c@ =~= seq!['.', '.']);
        2
    } else {
        3
    }
}

fn components_ordered(a: &Vec<Vec<char>>, b: &Vec<Vec<char>>) -> (res: bool)
    ensures
        res == components_le(text::char_lists(a@), text::char_lists(b@)),
{
    let ghost av = text::char_lists(a@);
    let ghost bv = text::char_lists(b@);
    let mut i: usize = 0;
    assert(av.skip(0) =~= av);
    assert(bv.skip(0) =~= bv);
    while i < a.len()
        invariant
            av == text::char_lists(a@),
            bv == text::char_lists(b@),
            i <= a@.len(),
            i <= b@.len(),
            components_le(av, bv) == components_le(av.skip(i as int), bv.skip(i as int)),
        decreases a@.len() - i,
    {
        if i >= b.len() {
            return false;
        }
        proof {
            assert(av[i as int] =~= a@[i as int]@);
            assert(bv[i as int] =~= b@[i as int]@);
            text_order_reflexive(av[i as int]);
        }
        let forward: bool = chars_le(a[i].as_slice(), b[i].as_slice());
        let backward: bool = chars_le(b[i].as_slice(), a[i].as_slice());
        let x: u8 = rank_of(a[i].as_slice());
        let y: u8 = rank_of(b[i].as_slice());
        if !(forward && backward) {
            return x < y || (x == y && forward);
        }
        proof {
            text_order_antisymmetric(av[i as int], bv[i as int]);
            assert(av.skip(i as int).skip(1) =~= av.skip(i + 1));
            assert(bv.skip(i as int).skip(1) =~= bv.skip(i + 1));
        }
        i = i + 1;
    }
    true
}

impl Order {
    /// Whether `a` stands before `b` or ties with it.
    pub fn precedes(self, a: &str, b: &str) -> (res: bool)
        ensures
            res == self.le(a@, b@),
    {
        match self {
            Order::Text => {
                let x: Vec<char> = text::chars_of(a);
                let y: Vec<char> = text::chars_of(b);
                chars_le(x.as_slice(), y.as_slice())
            },
            Order::Path => {
                let x: Vec<Vec<char>> = paths::components(a);
                let y: Vec<Vec<char>> = paths::components(b);
                components_ordered(&x, &y)
            },
        }
    }
}

/// The order of texts is total.
pub proof fn text_order_is_total_ordering()
    ensures
        vstd::relations::total_ordering(|a: Seq<char>, b: Seq<char>| text_le(a, b)),
{
    let leq = |a: Seq<char>, b: Seq<char>| text_le(a, b);
    assert forall|x: Seq<char>| #[trigger] leq(x, x) by {
        text_order_reflexive(x);
    }
    assert forall|x: Seq<char>, y: Seq<char>| #[trigger] leq(x, y) && #[trigger] leq(y, x) implies x
        == y by {
        text_order_antisymmetric(x, y);
    }
    assert forall|x: Seq<char>, y: Seq<char>, z: Seq<char>| #[trigger]
        leq(x, y) && #[trigger] leq(y, z) implies leq(x, z) by {
        text_order_transitive(x, y, z);
    }
    assert forall|x: Seq<char>, y: Seq<char>| #[trigger] leq(x, y) || #[trigger] leq(y, x) by {
        text_order_total(x, y);
    }
}

/// The texts of `s` in order.
pub open spec fn sorted_texts(s: Seq<Seq<char>>) -> Seq<Seq<char>> {
    s.sort_by(|a: Seq<char>, b: Seq<char>| text_le(a, b))
}

/// A sorted list with the entries of `s` is the only one.
pub proof fn sorted_texts_unique(s: Seq<Seq<char>>, r: Seq<Seq<char>>)
    requires
        Order::Text.sorted(r),
        r.to_multiset() == s.to_multiset(),
    ensures
        r == sorted_texts(s),
{
    let leq = |a: Seq<char>, b: Seq<char>| text_le(a, b);
    text_order_is_total_ordering();
    s.lemma_sort_by_ensures(leq);
    assert forall|i: int, j: int| 0 <= i < j < r.len() implies #[trigger] leq(r[i], r[j]) by {
        assert(Order::Text.le(r[i], r[j]));
    }
    vstd::seq_lib::lemma_sorted_unique(r, sorted_texts(s), leq);
}

/// Inserts `x` into the sorted list `v`, behind the entries that stand before it or tie with it.
#[verifier::loop_isolation(false)]
fn insert_sorted(order: Order, v: &mut Vec<String>, x: String)
    requires
        order.sorted(text::texts(old(v)@)),
    ensures
        order.sorted(text::texts(final(v)@)),
        text::texts(final(v)@).to_multiset() == text::texts(old(v)@).to_multiset().insert(x@),
{
    let ghost before = text::texts(v@);
    let mut k: usize = 0;
    while k < v.len() && order.precedes(v[k].as_str(), x.as_str())
        invariant
            k <= v@.len(),
            v@ == old(v)@,
            forall|i: int| 0 <= i < k ==> order.le(#[trigger] before[i], x@),
        decreases v@.len() - k,
    {
        k = k + 1;
    }
    let ghost item = x@;
    v.insert(k, x);
    proof {
        let after = text::texts(v@);
        assert(after =~= before.insert(k as int, item));
        broadcast use vstd::seq_lib::group_to_multiset_ensures;

        assert forall|i: int, j: int| 0 <= i <= j < after.len() implies order.le(
            #[trigger] after[i],
            #[trigger] after[j],
        ) by {
            if i == j {
                order_total(order, after[i], after[i]);
            } else if j == k {
                assert(after[i] == before[i]);
            } else if i == k {
                order_total(order, item, before[k as int]);
                assert(after[j] == before[j - 1]);
                order_transitive(order, item, before[k as int], before[j - 1]);
            } else {
                let i0 = if i < k {
                    i
                } else {
                    i - 1
                };
                let j0 = if j < k {
                    j
                } else {
                    j - 1
                };
                assert(after[i] == before[i0]);
                assert(after[j] == before[j0]);
            }
        }
    }
}

/// The texts of `v` in order.
pub fn sort(order: Order, v: &Vec<String>) -> (res: Vec<String>)
    ensures
        order.sorted(text::texts(res@)),
        text::texts(res@).to_multiset() == text::texts(v@).to_multiset(),
        order is Text ==> text::texts(res@) == sorted_texts(text::texts(v@)),
{
    let mut res: Vec<String> = Vec::new();
    let mut i: usize = 0;
    assert(text::texts(res@) =~= text::texts(v@.take(0)));
    while i < v.len()
        invariant
            i <= v@.len(),
            order.sorted(text::texts(res@)),
            text::texts(res@).to_multiset() == text::texts(v@.take(i as int)).to_multiset(),
        decreases v@.len() - i,
    {
        insert_sorted(order, &mut res, v[i].clone());
        proof {
            broadcast use vstd::seq_lib::group_to_multiset_ensures;

            assert(text::texts(v@.take(i + 1)) =~= text::texts(v@.take(i as int)).push(v@[i as int]@));
        }
        i = i + 1;
    }
    proof {
        assert(v@.take(i as int) =~= v@);
        if order is Text {
            sorted_texts_unique(text::texts(v@), text::texts(res@));
        }
    }
    res
}

/// The texts of `s` in order, each once.
pub open spec fn ascending_texts(s: Seq<Seq<char>>) -> Seq<Seq<char>> {
    choose|r: Seq<Seq<char>>| #[trigger] strictly_ascending(r) && r.to_set() == s.to_set()
}

/// Two lists in order without repetition that hold the same texts are the same.
pub proof fn ascending_lists_are_unique(a: Seq<Seq<char>>, b: Seq<Seq<char>>)
    requires
        strictly_ascending(a),
        strictly_ascending(b),
        a.to_set() == b.to_set(),
    ensures
        a == b,
{
    let leq = |x: Seq<char>, y: Seq<char>| text_le(x, y);
    text_order_is_total_ordering();
    assert forall|i: int, j: int| 0 <= i < a.len() && 0 <= j < a.len() && i != j implies a[i]
        != a[j] by {
        assert(i < j ==> a[i] != a[j]);
        assert(j < i ==> a[j] != a[i]);
    }
    assert forall|i: int, j: int| 0 <= i < b.len() && 0 <= j < b.len() && i != j implies b[i]
        != b[j] by {
        assert(i < j ==> b[i] != b[j]);
        assert(j < i ==> b[j] != b[i]);
    }
    a.lemma_multiset_has_no_duplicates();
    b.lemma_multiset_has_no_duplicates();
    a.to_multiset_ensures();
    b.to_multiset_ensures();
    assert forall|x: Seq<char>| a.to_multiset().count(x) == b.to_multiset().count(x) by {
        assert(a.contains(x) == b.contains(x)) by {
            assert(a.to_set().contains(x) == a.contains(x));
            assert(b.to_set().contains(x) == b.contains(x));
        }
    }
    assert(a.to_multiset() =~= b.to_multiset());
    assert forall|i: int, j: int| 0 <= i < j < a.len() implies #[trigger] leq(a[i], a[j]) by {}
    assert forall|i: int, j: int| 0 <= i < j < b.len() implies #[trigger] leq(b[i], b[j]) by {}
    vstd::seq_lib::lemma_sorted_unique(a, b, leq);
}

/// The texts of `v` in order, each once.
pub fn sort_distinct(v: &Vec<String>) -> (res: Vec<String>)
    ensures
        text::texts(res@) == ascending_texts(text::texts(v@)),
        strictly_ascending(text::texts(res@)),
        text::texts(res@).to_set() == text::texts(v@).to_set(),
{
    let res: Vec<String> = sort_and_drop_repeats(v);
    proof {
        let all = text::texts(v@);
        let found = text::texts(res@);
        assert(strictly_ascending(found) && found.to_set() == all.to_set());
        ascending_lists_are_unique(found, ascending_texts(all));
    }
    res
}

#[verifier::loop_isolation(false)]
fn sort_and_drop_repeats(v: &Vec<String>) -> (res: Vec<String>)
    ensures
        strictly_ascending(text::texts(res@)),
        text::texts(res@).to_set() == text::texts(v@).to_set(),
{
    let sorted: Vec<String> = sort(Order::Text, v);
    let mut res: Vec<String> = Vec::new();
    let mut i: usize = 0;
    let ghost all = text::texts(sorted@);
    while i < sorted.len()
        invariant
            i <= sorted@.len(),
            strictly_ascending(text::texts(res@)),
            text::texts(res@).to_set() == all.take(i as int).to_set(),
            i > 0 ==> res@.len() > 0 && text::texts(res@).last() == all[i - 1],
            forall|k: int| 0 <= k < res@.len() ==> all.contains(#[trigger] text::texts(res@)[k]),
            forall|k: int, m: int|
                0 <= k < res@.len() && i <= m < all.len() ==> text_le(
                    #[trigger] text::texts(res@)[k],
                    #[trigger] all[m],
                ),
        decreases sorted@.len() - i,
    {
        let repeat: bool = res.len() > 0 && res[res.len() - 1] == sorted[i];
        let ghost before = text::texts(res@);
        proof {
            assert(all.take(i + 1) =~= all.take(i as int).push(all[i as int]));
            assert(all.take(i + 1).to_set() =~= all.take(i as int).to_set().insert(all[i as int]))
                by {
                push_to_set(all.take(i as int), all[i as int]);
            }
            if before.len() > 0 {
                assert(res@[res@.len() - 1]@ == before.last());
            }
        }
        if !repeat {
            res.push(sorted[i].clone());
            proof {
                let after = text::texts(res@);
                assert(after =~= before.push(all[i as int]));
                push_to_set(before, all[i as int]);
                assert forall|a: int, b: int| 0 <= a < b < after.len() implies text_le(
                    #[trigger] after[a],
                    #[trigger] after[b],
                ) && after[a] != after[b] by {
                    if b == after.len() - 1 {
                        assert(after[a] == before[a]);
                        if after[a] == after[b] {
                            if a < before.len() - 1 {
                                assert(text_le(before[a], before.last()));
                                assert(text_le(before.last(), all[i as int]));
                                text_order_antisymmetric(before[a], before.last());
                            }
                        }
                    } else {
                        assert(after[a] == before[a] && after[b] == before[b]);
                    }
                }
                assert forall|k: int, m: int|
                    0 <= k < res@.len() && i + 1 <= m < all.len() implies text_le(
                    #[trigger] after[k],
                    #[trigger] all[m],
                ) by {
                    if k < before.len() {
                        assert(after[k] == before[k]);
                    } else {
                        assert(Order::Text.le(all[i as int], all[m]));
                    }
                }
            }
        } else {
            proof {
                assert(before.contains(all[i as int])) by {
                    assert(before[before.len() - 1] == all[i as int]);
                }
                assert(before.to_set().insert(all[i as int]) =~= before.to_set());
            }
        }
        i = i + 1;
    }
    proof {
        assert(all.take(i as int) =~= all);
        same_multiset_same_set(all, text::texts(v@));
    }
    res
}

/// Appending to a list adds the entry to its set.
pub proof fn push_to_set<A>(s: Seq<A>, x: A)
    ensures
        s.push(x).to_set() == s.to_set().insert(x),
{
    assert forall|y: A| s.push(x).to_set().contains(y) == s.to_set().insert(x).contains(y) by {
        if s.to_set().contains(y) {
            let i = choose|i: int| 0 <= i < s.len() && s[i] == y;
            assert(s.push(x)[i] == y);
        }
        if y == x {
            assert(s.push(x)[s.len() as int] == x);
        }
    }
    assert(s.push(x).to_set() =~= s.to_set().insert(x));
}

/// Lists with the same entries, counted, have the same set of entries.
pub proof fn same_multiset_same_set<A>(a: Seq<A>, b: Seq<A>)
    requires
        a.to_multiset() == b.to_multiset(),
    ensures
        a.to_set() == b.to_set(),
{
    broadcast use vstd::seq_lib::group_to_multiset_ensures;

    assert forall|x: A| a.to_set().contains(x) == b.to_set().contains(x) by {
        assert(a.contains(x) <==> a.to_multiset().count(x) > 0);
        assert(b.contains(x) <==> b.to_multiset().count(x) > 0);
    }
    assert(a.to_set() =~= b.to_set());
}

} // verus!
