//! The files that a configuration switches on or off, by the texts of their paths, in order.

use crate::order;
use crate::path_table::PathTable;
use crate::paths;
use crate::text;
use vstd::prelude::*;

verus! {

/// A file and whether it is switched on.
#[derive(Debug, Clone, PartialEq, Eq)]
pub struct EnabledFile {
    pub path: String,
    pub enabled: bool,
}

/// The views of a list of files.
pub open spec fn listing_of(v: Seq<EnabledFile>) -> Seq<(Seq<char>, bool)> {
    v.map_values(|file: EnabledFile| (file.path@, file.enabled))
}

/// The table that a listing stands for.
pub open spec fn table_of(listing: Seq<(Seq<char>, bool)>) -> Map<Seq<char>, bool>
    decreases listing.len(),
{
    if listing.len() == 0 {
        Map::empty()
    } else {
        table_of(listing.drop_last()).insert(listing.last().0, listing.last().1)
    }
}

/// The listing is in the order of its texts, and each text stands in it once.
pub open spec fn ascending(listing: Seq<(Seq<char>, bool)>) -> bool {
    forall|i: int, j: int|
        0 <= i < j < listing.len() ==> order::text_le(
            (#[trigger] listing[i]).0,
            (#[trigger] listing[j]).0,
        ) && listing[i].0 != listing[j].0
}

/// Which files are switched on or off, by path: later entries of a listing prevail.
pub open spec fn by_path(listing: Seq<(Seq<char>, bool)>) -> Map<Seq<Seq<char>>, bool>
    decreases listing.len(),
{
    if listing.len() == 0 {
        Map::empty()
    } else {
        by_path(listing.drop_last()).insert(
            paths::path_components(listing.last().0),
            listing.last().1,
        )
    }
}

/// The files that are switched on or off.
#[derive(Debug, Clone, PartialEq, Eq)]
pub struct EnabledFiles {
    files: Vec<EnabledFile>,
}

impl EnabledFiles {
    /// The files in order.
    pub closed spec fn listing(&self) -> Seq<(Seq<char>, bool)> {
        listing_of(self.files@)
    }

    /// The files stand in order, each once.
    pub open spec fn wf(&self) -> bool {
        ascending(self.listing())
    }

    /// No file is switched.
    pub fn new() -> (res: EnabledFiles)
        ensures
            res.wf(),
            res.listing() == Seq::<(Seq<char>, bool)>::empty(),
    {
        let res: EnabledFiles = EnabledFiles { files: Vec::new() };
        assert(res.listing() =~= seq![]);
        res
    }

    /// The number of files.
    pub fn len(&self) -> (res: usize)
        ensures
            res == self.listing().len(),
    {
        self.files.len()
    }

    /// The path of a file, by its place.
    pub fn path_at(&self, i: usize) -> (res: &String)
        requires
            i < self.listing().len(),
        ensures
            res@ == self.listing()[i as int].0,
    {
        &self.files[i].path
    }

    /// Whether a file is switched on, by its place.
    pub fn enabled_at(&self, i: usize) -> (res: bool)
        requires
            i < self.listing().len(),
        ensures
            res == self.listing()[i as int].1,
    {
        self.files[i].enabled
    }

    /// The same files once more.
    pub fn copy(&self) -> (res: EnabledFiles)
        ensures
            res.listing() == self.listing(),
    {
        let mut files: Vec<EnabledFile> = Vec::new();
        let mut i: usize = 0;
        while i < self.files.len()
            invariant
                i <= self.files@.len(),
                files@.len() == i,
                forall|j: int|
                    0 <= j < i ==> (#[trigger] files@[j]).path@ == self.files@[j].path@
                        && files@[j].enabled == self.files@[j].enabled,
            decreases self.files@.len() - i,
        {
            files.push(
                EnabledFile { path: self.files[i].path.clone(), enabled: self.files[i].enabled },
            );
            i = i + 1;
        }
        let res: EnabledFiles = EnabledFiles { files };
        assert(res.listing() =~= self.listing());
        res
    }

    /// Switches the file with this path text on or off.
    pub fn insert(&mut self, path: String, enabled: bool)
        requires
            old(self).wf(),
        ensures
            final(self).wf(),
            table_of(final(self).listing()) == table_of(old(self).listing()).insert(
                path@,
                enabled,
            ),
    {
        let ghost before = self.listing();
        let mut at: usize = 0;
        let path_chars: Vec<char> = text::chars_of(path.as_str());
        while at < self.files.len() && !order::chars_le(
            path_chars.as_slice(),
            text::chars_of(self.files[at].path.as_str()).as_slice(),
        )
            invariant
                self.files@ == old(self).files@,
                path_chars@ == path@,
                at <= self.files@.len(),
                forall|j: int|
                    0 <= j < at ==> !order::text_le(path@, #[trigger] self.files@[j].path@),
            decreases self.files@.len() - at,
        {
            at = at + 1;
        }
        let present: bool = at < self.files.len() && text::same_text(
            self.files[at].path.as_str(),
            path.as_str(),
        );
        let ghost name = path@;
        if present {
            self.files.set(at, EnabledFile { path, enabled });
            proof {
                assert(self.listing() =~= before.update(at as int, (name, enabled)));
                updated_listing(before, at as int, enabled);
            }
        } else {
            self.files.insert(at, EnabledFile { path, enabled });
            proof {
                assert(self.listing() =~= before.insert(at as int, (name, enabled)));
                assert forall|j: int| 0 <= j < at implies !order::text_le(
                    name,
                    (#[trigger] before[j]).0,
                ) by {
                    assert(before[j].0 == old(self).files@[j].path@);
                }
                inserted_listing(before, at as int, name, enabled);
            }
        }
    }

    /// Which files are switched on or off, by path.
    pub fn to_table(&self) -> (res: PathTable<bool>)
        ensures
            res.wf(),
            res@ == by_path(self.listing()),
    {
        let ghost all = self.listing();
        let mut res: PathTable<bool> = PathTable::new();
        let mut i: usize = 0;
        assert(all.take(0) =~= seq![]);
        while i < self.files.len()
            invariant
                all == self.listing(),
                i <= self.files@.len(),
                res.wf(),
                res@ == by_path(all.take(i as int)),
            decreases self.files@.len() - i,
        {
            proof {
                assert(all.take(i + 1).drop_last() =~= all.take(i as int));
                assert(all.take(i + 1).last() == all[i as int]);
            }
            let _ = res.insert(self.files[i].path.as_str(), self.files[i].enabled);
            i = i + 1;
        }
        assert(all.take(i as int) =~= all);
        res
    }
}

proof fn updated_listing(listing: Seq<(Seq<char>, bool)>, at: int, value: bool)
    requires
        ascending(listing),
        0 <= at < listing.len(),
    ensures
        ascending(listing.update(at, (listing[at].0, value))),
        table_of(listing.update(at, (listing[at].0, value))) == table_of(listing).insert(
            listing[at].0,
            value,
        ),
    decreases listing.len(),
{
    let name = listing[at].0;
    let after = listing.update(at, (name, value));
    let front = listing.drop_last();
    assert forall|i: int, j: int| 0 <= i < j < after.len() implies order::text_le(
        (#[trigger] after[i]).0,
        (#[trigger] after[j]).0,
    ) && after[i].0 != after[j].0 by {
        assert(after[i].0 == listing[i].0 && after[j].0 == listing[j].0);
        assert(order::text_le(listing[i].0, listing[j].0) && listing[i].0 != listing[j].0);
    }
    if at == listing.len() - 1 {
        assert(after.drop_last() =~= front);
        assert(table_of(after) =~= table_of(listing).insert(name, value));
    } else {
        assert forall|i: int, j: int| 0 <= i < j < front.len() implies order::text_le(
            (#[trigger] front[i]).0,
            (#[trigger] front[j]).0,
        ) && front[i].0 != front[j].0 by {
            assert(order::text_le(listing[i].0, listing[j].0) && listing[i].0 != listing[j].0);
        }
        updated_listing(front, at, value);
        assert(after.drop_last() =~= front.update(at, (name, value)));
        assert(after.last() == listing.last());
        assert(listing[at].0 != listing[listing.len() - 1].0);
        assert(table_of(after) =~= table_of(listing).insert(name, value));
    }
}

proof fn inserted_listing(
    listing: Seq<(Seq<char>, bool)>,
    at: int,
    name: Seq<char>,
    value: bool,
)
    requires
        ascending(listing),
        0 <= at <= listing.len(),
        forall|j: int| 0 <= j < at ==> !order::text_le(name, (#[trigger] listing[j]).0),
        at < listing.len() ==> order::text_le(name, listing[at].0) && listing[at].0 != name,
    ensures
        ascending(listing.insert(at, (name, value))),
        table_of(listing.insert(at, (name, value))) == table_of(listing).insert(name, value),
    decreases listing.len(),
{
    let after = listing.insert(at, (name, value));
    assert forall|i: int, j: int| 0 <= i < j < after.len() implies order::text_le(
        (#[trigger] after[i]).0,
        (#[trigger] after[j]).0,
    ) && after[i].0 != after[j].0 by {
        let i1 = if i < at { i } else { i - 1 };
        let j1 = if j < at { j } else { j - 1 };
        if i != at && j != at {
            assert(after[i] == listing[i1] && after[j] == listing[j1]);
        } else if j == at {
            assert(after[i] == listing[i]);
            order::text_order_total(name, listing[i].0);
            order::text_order_reflexive(name);
        } else {
            assert(after[j] == listing[j1]);
            if j1 > at {
                order::text_order_transitive(name, listing[at].0, listing[j1].0);
                if listing[j1].0 == name {
                    order::text_order_antisymmetric(name, listing[at].0);
                }
            }
        }
    }
    if at == listing.len() {
        assert(after.drop_last() =~= listing);
    } else {
        let front = listing.drop_last();
        assert forall|i: int, j: int| 0 <= i < j < front.len() implies order::text_le(
            (#[trigger] front[i]).0,
            (#[trigger] front[j]).0,
        ) && front[i].0 != front[j].0 by {
            assert(order::text_le(listing[i].0, listing[j].0) && listing[i].0 != listing[j].0);
        }
        assert forall|j: int| 0 <= j < at implies !order::text_le(
            name,
            (#[trigger] front[j]).0,
        ) by {
            assert(front[j] == listing[j]);
        }
        inserted_listing(front, at, name, value);
        assert(after.drop_last() =~= front.insert(at, (name, value)));
        assert(after.last() == listing.last());
        assert(after[at].0 != after[after.len() - 1].0);
        assert(table_of(after) =~= table_of(listing).insert(name, value));
    }
}

/// A file that is switched on or off under one spelling only is found so by its path.
pub proof fn switched_file_is_found(listing: Seq<(Seq<char>, bool)>, path: Seq<char>)
    requires
        table_of(listing).contains_key(path),
        forall|i: int|
            0 <= i < listing.len() && paths::same_path((#[trigger] listing[i]).0, path)
                ==> listing[i].0 == path,
    ensures
        by_path(listing).contains_key(paths::path_components(path)),
        by_path(listing)[paths::path_components(path)] == table_of(listing)[path],
    decreases listing.len(),
{
    let front = listing.drop_last();
    let last = listing[listing.len() - 1];
    if last.0 != path {
        assert forall|i: int|
            0 <= i < front.len() && paths::same_path((#[trigger] front[i]).0, path) implies
            front[i].0 == path by {
            assert(front[i] == listing[i]);
        }
        switched_file_is_found(front, path);
        assert(!paths::same_path(last.0, path));
    }
}

} // verus!
