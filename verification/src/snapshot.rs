//! What a poll was told of the file system.
//!
//! A snapshot holds the answers to the questions that a poll asks: what a directory lists, how a
//! file stands, what could be read of it. A question without an answer in the snapshot is taken as
//! one about something that does not exist.

use vstd::prelude::*;

verus! {

/// The device and inode of a file.
#[derive(Debug, Clone, Copy, PartialEq, Eq, Structural)]
pub struct FileIdentity {
    pub dev: u64,
    pub ino: u64,
}

/// The standing of a file: its kind, its size, when it was modified (in nanoseconds since the Unix
/// epoch) and which file it is, where the system tells.
#[derive(Debug, Clone, Copy, PartialEq, Eq, Structural)]
pub struct FileStat {
    pub is_file: bool,
    pub len: u64,
    pub modified: Option<i128>,
    pub identity: Option<FileIdentity>,
}

/// What came of asking for a file's standing.
#[derive(Debug, Clone, Copy, PartialEq, Eq, Structural)]
pub enum StatOutcome {
    Found(FileStat),
    Missing,
    Failed,
}

/// An entry of a directory.
#[derive(Debug, Clone)]
pub struct DirEntry {
    pub name: String,
    pub is_file: bool,
}

/// An entry of a directory, as contracts speak of it.
pub struct DirEntryView {
    pub name: Seq<char>,
    pub is_file: bool,
}

impl View for DirEntry {
    type V = DirEntryView;

    open spec fn view(&self) -> DirEntryView {
        DirEntryView { name: self.name@, is_file: self.is_file }
    }
}

/// What came of listing a directory; a failure comes with its reason.
#[derive(Debug, Clone)]
pub enum DirOutcome {
    Entries(Vec<DirEntry>),
    Missing,
    Failed(String),
}

/// What came of listing a directory, as contracts speak of it.
pub enum DirOutcomeView {
    Entries(Seq<DirEntryView>),
    Missing,
    Failed(Seq<char>),
}

impl View for DirOutcome {
    type V = DirOutcomeView;

    open spec fn view(&self) -> DirOutcomeView {
        match self {
            DirOutcome::Entries(entries) => DirOutcomeView::Entries(
                entries@.map_values(|entry: DirEntry| entry@),
            ),
            DirOutcome::Missing => DirOutcomeView::Missing,
            DirOutcome::Failed(reason) => DirOutcomeView::Failed(reason@),
        }
    }
}

/// What came of reading a file from some position to its end.
#[derive(Debug, Clone)]
pub enum ReadOutcome {
    Bytes(Vec<u8>),
    OpenFailed,
    SeekFailed,
    ReadFailed,
}

/// What came of reading a file, as contracts speak of it.
pub enum ReadOutcomeView {
    Bytes(Seq<u8>),
    OpenFailed,
    SeekFailed,
    ReadFailed,
}

impl View for ReadOutcome {
    type V = ReadOutcomeView;

    open spec fn view(&self) -> ReadOutcomeView {
        match self {
            ReadOutcome::Bytes(bytes) => ReadOutcomeView::Bytes(bytes@),
            ReadOutcome::OpenFailed => ReadOutcomeView::OpenFailed,
            ReadOutcome::SeekFailed => ReadOutcomeView::SeekFailed,
            ReadOutcome::ReadFailed => ReadOutcomeView::ReadFailed,
        }
    }
}

struct StatRecord {
    path: String,
    outcome: StatOutcome,
}

struct DirRecord {
    path: String,
    outcome: DirOutcome,
}

struct ReadRecord {
    path: String,
    offset: u64,
    outcome: ReadOutcome,
}

/// The answers that were collected for one poll.
pub struct Snapshot {
    stats: Vec<StatRecord>,
    dirs: Vec<DirRecord>,
    reads: Vec<ReadRecord>,
}

spec fn last_stat(records: Seq<StatRecord>, path: Seq<char>) -> StatOutcome
    decreases records.len(),
{
    if records.len() == 0 {
        StatOutcome::Missing
    } else if records.last().path@ == path {
        records.last().outcome
    } else {
        last_stat(records.drop_last(), path)
    }
}

spec fn last_dir(records: Seq<DirRecord>, path: Seq<char>) -> DirOutcomeView
    decreases records.len(),
{
    if records.len() == 0 {
        DirOutcomeView::Missing
    } else if records.last().path@ == path {
        records.last().outcome@
    } else {
        last_dir(records.drop_last(), path)
    }
}

spec fn last_read(records: Seq<ReadRecord>, path: Seq<char>, offset: u64) -> ReadOutcomeView
    decreases records.len(),
{
    if records.len() == 0 {
        ReadOutcomeView::Bytes(Seq::empty())
    } else if records.last().path@ == path && records.last().offset == offset {
        records.last().outcome@
    } else {
        last_read(records.drop_last(), path, offset)
    }
}

impl Snapshot {
    /// The recorded standing of `path`; `Missing` where none was recorded.
    pub closed spec fn stat_at(&self, path: Seq<char>) -> StatOutcome {
        last_stat(self.stats@, path)
    }

    /// The recorded listing of `path`; `Missing` where none was recorded.
    pub closed spec fn dir_at(&self, path: Seq<char>) -> DirOutcomeView {
        last_dir(self.dirs@, path)
    }

    /// What was recorded of reading `path` from `offset`; nothing where none was recorded.
    pub closed spec fn read_at(&self, path: Seq<char>, offset: u64) -> ReadOutcomeView {
        last_read(self.reads@, path, offset)
    }

    /// What was read of a file lies within the positions that a file can have.
    pub open spec fn wf(&self) -> bool {
        forall|path: Seq<char>, offset: u64|
            match #[trigger] self.read_at(path, offset) {
                ReadOutcomeView::Bytes(bytes) => offset + bytes.len() <= u64::MAX,
                _ => true,
            }
    }

    /// A snapshot without answers.
    pub fn new() -> (res: Snapshot)
        ensures
            forall|path: Seq<char>| #[trigger] res.stat_at(path) == StatOutcome::Missing,
            forall|path: Seq<char>| #[trigger] res.dir_at(path) == DirOutcomeView::Missing,
            forall|path: Seq<char>, offset: u64| #[trigger]
                res.read_at(path, offset) == ReadOutcomeView::Bytes(Seq::empty()),
            res.wf(),
    {
        Snapshot { stats: Vec::new(), dirs: Vec::new(), reads: Vec::new() }
    }

    /// Records how `path` stands, in place of what was recorded before.
    pub fn record_stat(&mut self, path: String, outcome: StatOutcome)
        ensures
            forall|p: Seq<char>| #[trigger]
                final(self).stat_at(p) == (if p == path@ {
                    outcome
                } else {
                    old(self).stat_at(p)
                }),
            forall|p: Seq<char>| #[trigger] final(self).dir_at(p) == old(self).dir_at(p),
            forall|p: Seq<char>, offset: u64| #[trigger]
                final(self).read_at(p, offset) == old(self).read_at(p, offset),
    {
        let ghost before = self.stats@;
        self.stats.push(StatRecord { path, outcome });
        assert(self.stats@.drop_last() =~= before);
    }

    /// Records what `path` lists, in place of what was recorded before.
    pub fn record_dir(&mut self, path: String, outcome: DirOutcome)
        ensures
            forall|p: Seq<char>| #[trigger]
                final(self).dir_at(p) == (if p == path@ {
                    outcome@
                } else {
                    old(self).dir_at(p)
                }),
            forall|p: Seq<char>| #[trigger] final(self).stat_at(p) == old(self).stat_at(p),
            forall|p: Seq<char>, offset: u64| #[trigger]
                final(self).read_at(p, offset) == old(self).read_at(p, offset),
    {
        let ghost before = self.dirs@;
        self.dirs.push(DirRecord { path, outcome });
        assert(self.dirs@.drop_last() =~= before);
    }

    /// Records what was read of `path` from `offset` on, in place of what was recorded before.
    pub fn record_read(&mut self, path: String, offset: u64, outcome: ReadOutcome)
        requires
            match outcome@ {
                ReadOutcomeView::Bytes(bytes) => offset + bytes.len() <= u64::MAX,
                _ => true,
            },
        ensures
            forall|p: Seq<char>, o: u64| #[trigger]
                final(self).read_at(p, o) == (if p == path@ && o == offset {
                    outcome@
                } else {
                    old(self).read_at(p, o)
                }),
            forall|p: Seq<char>| #[trigger] final(self).stat_at(p) == old(self).stat_at(p),
            forall|p: Seq<char>| #[trigger] final(self).dir_at(p) == old(self).dir_at(p),
    {
        let ghost before = self.reads@;
        self.reads.push(ReadRecord { path, offset, outcome });
        assert(self.reads@.drop_last() =~= before);
    }

    /// The recorded standing of `path`.
    pub fn stat(&self, path: &String) -> (res: StatOutcome)
        ensures
            res == self.stat_at(path@),
    {
        let mut i: usize = self.stats.len();
        assert(self.stats@.take(i as int) =~= self.stats@);
        while i > 0
            invariant
                i <= self.stats@.len(),
                self.stat_at(path@) == last_stat(self.stats@.take(i as int), path@),
            decreases i,
        {
            assert(self.stats@.take(i as int).drop_last() =~= self.stats@.take(i - 1));
            if self.stats[i - 1].path == *path {
                return self.stats[i - 1].outcome;
            }
            i = i - 1;
        }
        StatOutcome::Missing
    }

    /// The recorded listing of `path`; `None` stands for one that is missing.
    pub fn dir(&self, path: &String) -> (res: Option<&DirOutcome>)
        ensures
            match res {
                Some(outcome) => self.dir_at(path@) == outcome@,
                None => self.dir_at(path@) == DirOutcomeView::Missing,
            },
    {
        let mut i: usize = self.dirs.len();
        assert(self.dirs@.take(i as int) =~= self.dirs@);
        while i > 0
            invariant
                i <= self.dirs@.len(),
                self.dir_at(path@) == last_dir(self.dirs@.take(i as int), path@),
            decreases i,
        {
            assert(self.dirs@.take(i as int).drop_last() =~= self.dirs@.take(i - 1));
            if self.dirs[i - 1].path == *path {
                return Some(&self.dirs[i - 1].outcome);
            }
            i = i - 1;
        }
        None
    }

    /// What was recorded of reading `path` from `offset` on; `None` stands for no bytes.
    pub fn read(&self, path: &String, offset: u64) -> (res: Option<&ReadOutcome>)
        ensures
            match res {
                Some(outcome) => self.read_at(path@, offset) == outcome@,
                None => self.read_at(path@, offset) == ReadOutcomeView::Bytes(Seq::empty()),
            },
    {
        let mut i: usize = self.reads.len();
        assert(self.reads@.take(i as int) =~= self.reads@);
        while i > 0
            invariant
                i <= self.reads@.len(),
                self.read_at(path@, offset) == last_read(
                    self.reads@.take(i as int),
                    path@,
                    offset,
                ),
            decreases i,
        {
            assert(self.reads@.take(i as int).drop_last() =~= self.reads@.take(i - 1));
            if self.reads[i - 1].offset == offset && self.reads[i - 1].path == *path {
                return Some(&self.reads[i - 1].outcome);
            }
            i = i - 1;
        }
        None
    }
}

} // verus!
