//! A table from paths to values, in which two spellings of one path are the same entry.

use crate::paths;
use crate::text;
use vstd::prelude::*;

verus! {

struct Entry<T> {
    key: Vec<Vec<char>>,
    value: T,
}

/// A table from paths to values.
pub struct PathTable<T> {
    entries: Vec<Entry<T>>,
}

spec fn key_of<T>(entry: Entry<T>) -> Seq<Seq<char>> {
    text::char_lists(entry.key@)
}

spec fn contents<T: View>(entries: Seq<Entry<T>>) -> Map<Seq<Seq<char>>, T::V>
    decreases entries.len(),
{
    if entries.len() == 0 {
        Map::empty()
    } else {
        contents(entries.drop_last()).insert(key_of(entries.last()), entries.last().value@)
    }
}

spec fn keys_differ<T>(entries: Seq<Entry<T>>) -> bool {
    forall|i: int, j: int|
        0 <= i < j < entries.len() ==> #[trigger] key_of(entries[i]) != #[trigger] key_of(
            entries[j],
        )
}

proof fn contents_of_entry<T: View>(entries: Seq<Entry<T>>, i: int)
    requires
        keys_differ(entries),
        0 <= i < entries.len(),
    ensures
        contents(entries).contains_key(key_of(entries[i])),
        contents(entries)[key_of(entries[i])] == entries[i].value@,
    decreases entries.len(),
{
    if i < entries.len() - 1 {
        let front = entries.drop_last();
        assert forall|a: int, b: int| 0 <= a < b < front.len() implies #[trigger] key_of(front[a])
            != #[trigger] key_of(front[b]) by {
            assert(key_of(entries[a]) != key_of(entries[b]));
        }
        contents_of_entry(front, i);
        assert(key_of(entries[i]) != key_of(entries[entries.len() - 1]));
    }
}

proof fn absent_from_contents<T: View>(entries: Seq<Entry<T>>, key: Seq<Seq<char>>)
    requires
        forall|i: int| 0 <= i < entries.len() ==> #[trigger] key_of(entries[i]) != key,
    ensures
        !contents(entries).contains_key(key),
    decreases entries.len(),
{
    if entries.len() > 0 {
        let front = entries.drop_last();
        assert forall|i: int| 0 <= i < front.len() implies #[trigger] key_of(front[i]) != key by {
            assert(key_of(entries[i]) != key);
        }
        absent_from_contents(front, key);
        assert(key_of(entries[entries.len() - 1]) != key);
    }
}

proof fn contents_without<T: View>(entries: Seq<Entry<T>>, i: int)
    requires
        keys_differ(entries),
        0 <= i < entries.len(),
    ensures
        keys_differ(entries.remove(i)),
        contents(entries.remove(i)) == contents(entries).remove(key_of(entries[i])),
    decreases entries.len(),
{
    let front = entries.drop_last();
    let rest = entries.remove(i);
    let key = key_of(entries[i]);
    let last = entries.len() - 1;
    assert forall|a: int, b: int| 0 <= a < b < front.len() implies #[trigger] key_of(front[a])
        != #[trigger] key_of(front[b]) by {
        assert(key_of(entries[a]) != key_of(entries[b]));
    }
    assert forall|a: int, b: int| 0 <= a < b < rest.len() implies #[trigger] key_of(rest[a])
        != #[trigger] key_of(rest[b]) by {
        let a1 = if a < i { a } else { a + 1 };
        let b1 = if b < i { b } else { b + 1 };
        assert(key_of(entries[a1]) != key_of(entries[b1]));
    }
    if i == last {
        assert(rest =~= front);
        assert forall|a: int| 0 <= a < front.len() implies #[trigger] key_of(front[a]) != key by {
            assert(key_of(entries[a]) != key_of(entries[last]));
        }
        absent_from_contents(front, key);
        assert(contents(rest) =~= contents(entries).remove(key));
    } else {
        contents_without(front, i);
        assert(rest.drop_last() =~= front.remove(i));
        assert(rest.last() == entries.last());
        assert(key_of(entries[i]) != key_of(entries[last]));
        assert(contents(rest) =~= contents(entries).remove(key));
    }
}

impl<T: View> View for PathTable<T> {
    type V = Map<Seq<Seq<char>>, T::V>;

    /// The values by the components of their paths.
    closed spec fn view(&self) -> Map<Seq<Seq<char>>, T::V> {
        contents(self.entries@)
    }
}

impl<T: View> PathTable<T> {
    /// Each path stands in the table once.
    pub closed spec fn wf(&self) -> bool {
        keys_differ(self.entries@)
    }

    /// A table without entries.
    pub fn new() -> (res: PathTable<T>)
        ensures
            res.wf(),
            res@ == Map::<Seq<Seq<char>>, T::V>::empty(),
    {
        PathTable { entries: Vec::new() }
    }

    fn position(&self, key: &Vec<Vec<char>>) -> (res: Option<usize>)
        requires
            self.wf(),
        ensures
            match res {
                Some(i) => {
                    &&& i < self.entries@.len()
                    &&& key_of(self.entries@[i as int]) == text::char_lists(key@)
                },
                None => forall|i: int|
                    0 <= i < self.entries@.len() ==> #[trigger] key_of(self.entries@[i])
                        != text::char_lists(key@),
            },
    {
        let mut i: usize = 0;
        while i < self.entries.len()
            invariant
                i <= self.entries@.len(),
                forall|j: int|
                    0 <= j < i ==> #[trigger] key_of(self.entries@[j]) != text::char_lists(key@),
            decreases self.entries@.len() - i,
        {
            if paths::same_components(&self.entries[i].key, key) {
                return Some(i);
            }
            i = i + 1;
        }
        None
    }

    /// The value of `path`.
    pub fn get(&self, path: &str) -> (res: Option<&T>)
        requires
            self.wf(),
        ensures
            match res {
                Some(value) => {
                    &&& self@.contains_key(paths::path_components(path@))
                    &&& self@[paths::path_components(path@)] == value@
                },
                None => !self@.contains_key(paths::path_components(path@)),
            },
    {
        let key: Vec<Vec<char>> = paths::components(path);
        match self.position(&key) {
            Some(i) => {
                proof {
                    contents_of_entry(self.entries@, i as int);
                }
                Some(&self.entries[i].value)
            },
            None => {
                proof {
                    absent_from_contents(self.entries@, text::char_lists(key@));
                }
                None
            },
        }
    }

    /// Takes `path` out of the table and returns its value, where it had one.
    pub fn remove(&mut self, path: &str) -> (res: Option<T>)
        requires
            old(self).wf(),
        ensures
            final(self).wf(),
            final(self)@ == old(self)@.remove(paths::path_components(path@)),
            match res {
                Some(value) => {
                    &&& old(self)@.contains_key(paths::path_components(path@))
                    &&& old(self)@[paths::path_components(path@)] == value@
                },
                None => !old(self)@.contains_key(paths::path_components(path@)),
            },
    {
        let key: Vec<Vec<char>> = paths::components(path);
        match self.position(&key) {
            Some(i) => {
                proof {
                    contents_of_entry(self.entries@, i as int);
                    contents_without(self.entries@, i as int);
                }
                let entry: Entry<T> = self.entries.remove(i);
                Some(entry.value)
            },
            None => {
                proof {
                    absent_from_contents(self.entries@, text::char_lists(key@));
                    assert(self@.remove(text::char_lists(key@)) =~= self@);
                }
                None
            },
        }
    }

    /// Gives `path` the value and returns the value that it had.
    pub fn insert(&mut self, path: &str, value: T) -> (res: Option<T>)
        requires
            old(self).wf(),
        ensures
            final(self).wf(),
            final(self)@ == old(self)@.insert(paths::path_components(path@), value@),
            match res {
                Some(previous) => {
                    &&& old(self)@.contains_key(paths::path_components(path@))
                    &&& old(self)@[paths::path_components(path@)] == previous@
                },
                None => !old(self)@.contains_key(paths::path_components(path@)),
            },
    {
        let res: Option<T> = self.remove(path);
        let key: Vec<Vec<char>> = paths::components(path);
        let ghost before = self.entries@;
        let ghost fresh = text::char_lists(key@);
        proof {
            assert forall|i: int| 0 <= i < before.len() implies #[trigger] key_of(before[i])
                != fresh by {
                contents_of_entry(before, i);
            }
        }
        self.entries.push(Entry { key, value });
        proof {
            assert(self.entries@.drop_last() =~= before);
            assert(self@ =~= old(self)@.insert(paths::path_components(path@), value@));
        }
        res
    }
}

} // verus!
