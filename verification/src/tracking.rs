//! Following one file: what has been read of it, and what a poll makes of how it stands now.

use crate::lines;
use crate::paths;
use crate::snapshot::FileIdentity;
use crate::snapshot::FileStat;
use crate::snapshot::ReadOutcome;
use crate::snapshot::ReadOutcomeView;
use crate::snapshot::Snapshot;
use crate::snapshot::StatOutcome;
use vstd::prelude::*;

verus! {

/// A line that a file has gained: when it was seen, in seconds since the Unix epoch, in which file,
/// and its text.
#[derive(Debug, Clone, PartialEq, Eq)]
pub struct LogEvent {
    pub ts: i64,
    pub source: String,
    pub line: String,
}

/// A line that a file has gained, as contracts speak of it.
pub struct LogEventView {
    pub ts: i64,
    pub source: Seq<char>,
    pub line: Seq<char>,
}

impl View for LogEvent {
    type V = LogEventView;

    open spec fn view(&self) -> LogEventView {
        LogEventView { ts: self.ts, source: self.source@, line: self.line@ }
    }
}

impl LogEvent {
    /// The same event once more.
    pub fn copy(&self) -> (res: LogEvent)
        ensures
            res@ == self@,
    {
        LogEvent { ts: self.ts, source: self.source.clone(), line: self.line.clone() }
    }
}

/// The views of a list of events.
pub open spec fn event_views(v: Seq<LogEvent>) -> Seq<LogEventView> {
    v.map_values(|event: LogEvent| event@)
}

/// The events that lines of one file become.
pub open spec fn line_events(
    ts: i64,
    source: Seq<char>,
    lines: Seq<Seq<char>>,
) -> Seq<LogEventView> {
    lines.map_values(|line: Seq<char>| LogEventView { ts, source, line })
}

/// A file that is followed.
#[derive(Debug)]
pub struct TrackedFileState {
    path: String,
    source_label: String,
    file_id: Option<FileIdentity>,
    read_offset: u64,
    last_modified: Option<i128>,
    partial_line: Vec<u8>,
}

/// A file that is followed: its path and how it is shown, which file it was and when it was
/// modified at the last poll, how much of it has been read, and the bytes of the line that was not
/// complete.
pub struct FileView {
    pub path: Seq<char>,
    pub label: Seq<char>,
    pub file_id: Option<FileIdentity>,
    pub offset: u64,
    pub modified: Option<i128>,
    pub partial: Seq<u8>,
}

impl View for TrackedFileState {
    type V = FileView;

    closed spec fn view(&self) -> FileView {
        FileView {
            path: self.path@,
            label: self.source_label@,
            file_id: self.file_id,
            offset: self.read_offset,
            modified: self.last_modified,
            partial: self.partial_line@,
        }
    }
}

/// The views of a list of files.
pub open spec fn file_views(v: Seq<TrackedFileState>) -> Seq<FileView> {
    v.map_values(|file: TrackedFileState| file@)
}

/// A file that was not followed before: what stands in it now counts as read.
pub open spec fn fresh_file(path: Seq<char>, stat: StatOutcome) -> Result<FileView, Seq<char>> {
    match stat {
        StatOutcome::Found(stat) => Ok(
            FileView {
                path,
                label: paths::path_label(path),
                file_id: stat.identity,
                offset: stat.len,
                modified: stat.modified,
                partial: seq![],
            },
        ),
        StatOutcome::Missing => Ok(
            FileView {
                path,
                label: paths::path_label(path),
                file_id: None,
                offset: 0,
                modified: None,
                partial: seq![],
            },
        ),
        StatOutcome::Failed => Err("failed to stat "@ + path),
    }
}

/// What a poll of one file comes to: the file as it is known afterwards, the lines that it gained,
/// and why it could not be read, if it could not.
pub struct FilePoll {
    pub file: FileView,
    pub lines: Seq<Seq<char>>,
    pub error: Option<Seq<char>>,
}

impl FileView {
    /// The file at this path is another one than before, or a shorter one, or was written anew
    /// with the same length.
    pub open spec fn starts_over(self, stat: FileStat) -> bool {
        ||| self.file_id is Some && self.file_id != stat.identity
        ||| stat.len < self.offset
        ||| stat.len == self.offset && self.modified is Some && stat.modified is Some
            && stat.modified->0 > self.modified->0
    }

    /// The file as it is known once its standing has been looked at.
    pub open spec fn seen(self, stat: FileStat) -> FileView {
        if self.starts_over(stat) {
            FileView {
                file_id: stat.identity,
                modified: stat.modified,
                offset: 0,
                partial: seq![],
                ..self
            }
        } else {
            FileView { file_id: stat.identity, modified: stat.modified, ..self }
        }
    }

    /// The position from which a poll reads, where it reads at all.
    pub open spec fn reads_from(self, stat: StatOutcome) -> Option<u64> {
        match stat {
            StatOutcome::Found(stat) => if stat.len > self.seen(stat).offset {
                Some(self.seen(stat).offset)
            } else {
                None
            },
            _ => None,
        }
    }

    /// The file of which nothing is known.
    pub open spec fn forgotten(self) -> FileView {
        FileView { file_id: None, modified: None, offset: 0, partial: seq![], ..self }
    }

    /// The file once `bytes` have been read.
    pub open spec fn fed(self, bytes: Seq<u8>) -> FileView {
        FileView {
            offset: (self.offset + bytes.len()) as u64,
            partial: lines::cut(self.partial + bytes).1,
            ..self
        }
    }

    /// What a poll comes to, given how the file stands and what could be read of it.
    pub open spec fn polled(self, stat: StatOutcome, read: ReadOutcomeView, max: nat) -> FilePoll {
        match stat {
            StatOutcome::Missing => FilePoll {
                file: self.forgotten(),
                lines: seq![],
                error: None,
            },
            StatOutcome::Failed => FilePoll {
                file: self,
                lines: seq![],
                error: Some("failed to stat tracked file "@ + self.path),
            },
            StatOutcome::Found(found) => {
                let seen = self.seen(found);
                if self.reads_from(stat) is None {
                    FilePoll { file: seen, lines: seq![], error: None }
                } else {
                    match read {
                        ReadOutcomeView::Bytes(bytes) => if bytes.len() == 0 {
                            FilePoll { file: seen, lines: seq![], error: None }
                        } else {
                            FilePoll {
                                file: seen.fed(bytes),
                                lines: lines::line_texts(seen.partial + bytes, max),
                                error: None,
                            }
                        },
                        ReadOutcomeView::OpenFailed => FilePoll {
                            file: seen,
                            lines: seq![],
                            error: Some("failed to open tracked file "@ + self.path),
                        },
                        ReadOutcomeView::SeekFailed => FilePoll {
                            file: seen,
                            lines: seq![],
                            error: Some("failed to seek tracked file "@ + self.path),
                        },
                        ReadOutcomeView::ReadFailed => FilePoll {
                            file: seen,
                            lines: seq![],
                            error: Some("failed to read tracked file "@ + self.path),
                        },
                    }
                }
            },
        }
    }

    /// What a poll comes to when it is answered from a snapshot.
    pub open spec fn polled_from(self, snapshot: &Snapshot, max: nat) -> FilePoll {
        let stat = snapshot.stat_at(self.path);
        let read = match self.reads_from(stat) {
            Some(offset) => snapshot.read_at(self.path, offset),
            None => ReadOutcomeView::Bytes(seq![]),
        };
        self.polled(stat, read, max)
    }
}

fn message(start: &str, path: &String) -> (res: String)
    ensures
        res@ == start@ + path@,
{
    let mut res: String = start.to_owned();
    res.append(path.as_str());
    res
}

impl TrackedFileState {
    /// Follows `path` from its end on, as the snapshot shows it.
    pub fn new(path: String, snapshot: &Snapshot) -> (res: Result<TrackedFileState, String>)
        ensures
            match res {
                Ok(file) => fresh_file(path@, snapshot.stat_at(path@)) == Ok::<FileView, Seq<char>>(
                    file@,
                ),
                Err(reason) => fresh_file(path@, snapshot.stat_at(path@)) == Err::<
                    FileView,
                    Seq<char>,
                >(reason@),
            },
    {
        let source_label: String = paths::label(path.as_str());
        match snapshot.stat(&path) {
            StatOutcome::Found(stat) => {
                let res: TrackedFileState = TrackedFileState {
                    path,
                    source_label,
                    file_id: stat.identity,
                    read_offset: stat.len,
                    last_modified: stat.modified,
                    partial_line: Vec::new(),
                };
                assert(res@.partial =~= seq![]);
                Ok(res)
            },
            StatOutcome::Missing => {
                let res: TrackedFileState = TrackedFileState {
                    path,
                    source_label,
                    file_id: None,
                    read_offset: 0,
                    last_modified: None,
                    partial_line: Vec::new(),
                };
                assert(res@.partial =~= seq![]);
                Ok(res)
            },
            StatOutcome::Failed => Err(message("failed to stat ", &path)),
        }
    }

    /// The path of the file.
    pub fn path(&self) -> (res: &String)
        ensures
            res@ == self@.path,
    {
        &self.path
    }

    /// How the file is shown as the source of a line.
    pub fn label(&self) -> (res: &String)
        ensures
            res@ == self@.label,
    {
        &self.source_label
    }

    /// The same file once more.
    pub fn copy(&self) -> (res: TrackedFileState)
        ensures
            res@ == self@,
    {
        TrackedFileState {
            path: self.path.clone(),
            source_label: self.source_label.clone(),
            file_id: self.file_id,
            read_offset: self.read_offset,
            last_modified: self.last_modified,
            partial_line: self.partial_line.clone(),
        }
    }

    fn is_starting_over(&self, stat: FileStat) -> (res: bool)
        ensures
            res == self@.starts_over(stat),
    {
        let replaced: bool = match (self.file_id, stat.identity) {
            (None, _) => false,
            (Some(_), None) => true,
            (Some(before), Some(now)) => !(before.dev == now.dev && before.ino == now.ino),
        };
        let rewritten: bool = stat.len == self.read_offset && match (
            self.last_modified,
            stat.modified,
        ) {
            (Some(previous), Some(current)) => current > previous,
            _ => false,
        };
        replaced || stat.len < self.read_offset || rewritten
    }

    /// The position from which a poll will read, where it will read at all.
    pub fn next_read(&self, snapshot: &Snapshot) -> (res: Option<u64>)
        ensures
            res == self@.reads_from(snapshot.stat_at(self@.path)),
    {
        match snapshot.stat(&self.path) {
            StatOutcome::Found(stat) => {
                let offset: u64 = if self.is_starting_over(stat) {
                    0
                } else {
                    self.read_offset
                };
                if stat.len > offset {
                    Some(offset)
                } else {
                    None
                }
            },
            _ => None,
        }
    }

    /// Appends what the file has gained to `out`; the file is left as it is known now.
    pub fn poll(
        &mut self,
        max_line_len: usize,
        snapshot: &Snapshot,
        now: i64,
        out: &mut Vec<LogEvent>,
    ) -> (res: Result<(), String>)
        requires
            snapshot.wf(),
        ensures
            ({
                let poll = old(self)@.polled_from(snapshot, max_line_len as nat);
                &&& final(self)@ == poll.file
                &&& event_views(final(out)@) == event_views(old(out)@) + line_events(
                    now,
                    old(self)@.label,
                    poll.lines,
                )
                &&& match res {
                    Ok(_) => poll.error is None,
                    Err(reason) => poll.error == Some(reason@),
                }
            }),
    {
        let ghost poll = self@.polled_from(snapshot, max_line_len as nat);
        let ghost before = event_views(out@);
        proof {
            assert(before + line_events(now, self@.label, seq![]) =~= before);
        }
        let stat: FileStat = match snapshot.stat(&self.path) {
            StatOutcome::Found(stat) => stat,
            StatOutcome::Missing => {
                self.file_id = None;
                self.read_offset = 0;
                self.last_modified = None;
                self.partial_line.clear();
                assert(self@.partial =~= seq![]);
                return Ok(());
            },
            StatOutcome::Failed => {
                return Err(message("failed to stat tracked file ", &self.path));
            },
        };
        if self.is_starting_over(stat) {
            self.read_offset = 0;
            self.partial_line.clear();
            assert(self.partial_line@ =~= seq![]);
        }
        self.file_id = stat.identity;
        self.last_modified = stat.modified;
        assert(self@ == old(self)@.seen(stat));
        if stat.len <= self.read_offset {
            return Ok(());
        }
        match snapshot.read(&self.path, self.read_offset) {
            None => Ok(()),
            Some(ReadOutcome::OpenFailed) => Err(
                message("failed to open tracked file ", &self.path),
            ),
            Some(ReadOutcome::SeekFailed) => Err(
                message("failed to seek tracked file ", &self.path),
            ),
            Some(ReadOutcome::ReadFailed) => Err(
                message("failed to read tracked file ", &self.path),
            ),
            Some(ReadOutcome::Bytes(bytes)) => {
                if bytes.len() == 0 {
                    return Ok(());
                }
                assert(snapshot.read_at(self@.path, self@.offset) == ReadOutcomeView::Bytes(
                    bytes@,
                ));
                self.read_offset = self.read_offset + bytes.len() as u64;
                self.emit_events(bytes, max_line_len, now, out);
                Ok(())
            },
        }
    }

    /// Appends the lines that `bytes` complete to `out` and keeps the bytes behind them.
    pub fn emit_events(
        &mut self,
        bytes: &Vec<u8>,
        max_line_len: usize,
        now: i64,
        out: &mut Vec<LogEvent>,
    )
        ensures
            final(self)@ == (FileView {
                partial: lines::cut(old(self)@.partial + bytes@).1,
                ..old(self)@
            }),
            event_views(final(out)@) == event_views(old(out)@) + line_events(
                now,
                old(self)@.label,
                lines::line_texts(old(self)@.partial + bytes@, max_line_len as nat),
            ),
    {
        let mut combined: Vec<u8> = Vec::new();
        std::mem::swap(&mut combined, &mut self.partial_line);
        let mut i: usize = 0;
        let ghost all = combined@ + bytes@;
        while i < bytes.len()
            invariant
                i <= bytes@.len(),
                combined@ == old(self)@.partial + bytes@.take(i as int),
            decreases bytes@.len() - i,
        {
            combined.push(bytes[i]);
            i = i + 1;
        }
        assert(bytes@.take(i as int) =~= bytes@);
        assert(combined@ == all);
        let ghost before = event_views(out@);
        let ghost label = self.source_label@;
        let ghost max = max_line_len as nat;
        let mut rest: Vec<u8> = Vec::new();
        let mut at: usize = 0;
        proof {
            assert(all.take(0) =~= seq![]);
            assert(line_events(now, label, lines::line_texts(all.take(0), max)) =~= seq![]);
            assert(before + seq![] =~= before);
            assert(rest@ =~= lines::cut(all.take(0)).1);
        }
        while at < combined.len()
            invariant
                combined@ == all,
                at <= combined@.len(),
                label == self.source_label@,
                self.path == old(self).path,
                self.source_label == old(self).source_label,
                self.file_id == old(self).file_id,
                self.read_offset == old(self).read_offset,
                self.last_modified == old(self).last_modified,
                max == max_line_len as nat,
                rest@ == lines::cut(all.take(at as int)).1,
                event_views(out@) == before + line_events(
                    now,
                    label,
                    lines::line_texts(all.take(at as int), max),
                ),
            decreases combined@.len() - at,
        {
            let ghost taken = all.take(at as int);
            let ghost next = all.take(at + 1);
            let ghost events = event_views(out@);
            proof {
                assert(next.drop_last() =~= taken);
                assert(next.last() == all[at as int]);
            }
            if combined[at] == 0x0A {
                let line: String = lines::decode_line(rest.as_slice(), max_line_len);
                let ghost shown = line@;
                out.push(LogEvent { ts: now, source: self.source_label.clone(), line });
                rest.clear();
                proof {
                    assert(lines::line_texts(next, max) =~= lines::line_texts(taken, max).push(
                        shown,
                    ));
                    let event = LogEventView { ts: now, source: label, line: shown };
                    assert(event_views(out@) =~= events.push(event));
                    assert(line_events(now, label, lines::line_texts(next, max)) =~= line_events(
                        now,
                        label,
                        lines::line_texts(taken, max),
                    ).push(event));
                    assert(rest@ =~= seq![]);
                }
            } else {
                rest.push(combined[at]);
            }
            at = at + 1;
        }
        assert(all.take(at as int) =~= all);
        self.partial_line = rest;
    }
}

/// However bytes are divided, the events that they become are the same, and so are the bytes of the
/// line that is not complete.
pub proof fn events_do_not_depend_on_reads(
    partial: Seq<u8>,
    a: Seq<u8>,
    b: Seq<u8>,
    ts: i64,
    source: Seq<char>,
    max: nat,
)
    ensures
        ({
            let rest = lines::cut(partial + a).1;
            &&& lines::cut(partial + (a + b)).1 == lines::cut(rest + b).1
            &&& lines::line_texts(partial + (a + b), max) == lines::line_texts(partial + a, max)
                + lines::line_texts(rest + b, max)
            &&& line_events(ts, source, lines::line_texts(partial + (a + b), max)) == line_events(
                ts,
                source,
                lines::line_texts(partial + a, max),
            ) + line_events(ts, source, lines::line_texts(rest + b, max))
        }),
{
    let rest = lines::cut(partial + a).1;
    let first = lines::line_texts(partial + a, max);
    let second = lines::line_texts(rest + b, max);
    lines::cutting_in_parts(partial + a, b);
    assert(partial + a + b =~= partial + (a + b));
    assert(lines::line_texts(partial + (a + b), max) =~= first + second);
    assert(line_events(ts, source, first + second) =~= line_events(ts, source, first)
        + line_events(ts, source, second));
}

/// However a stretch of a file is divided among polls, the lines are the same, and so is what is
/// known of the file at the end.
pub proof fn lines_do_not_depend_on_polls(file: FileView, a: Seq<u8>, b: Seq<u8>, max: nat)
    requires
        file.offset + a.len() + b.len() <= u64::MAX,
    ensures
        file.fed(a).fed(b) == file.fed(a + b),
        lines::line_texts(file.partial + (a + b), max) == lines::line_texts(file.partial + a, max)
            + lines::line_texts(file.fed(a).partial + b, max),
{
    events_do_not_depend_on_reads(file.partial, a, b, 0, file.label, max);
}

/// What stands in a file when it is first followed is not reported.
pub proof fn followed_from_the_end(path: Seq<char>, stat: StatOutcome, read: ReadOutcomeView, max: nat)
    requires
        !(stat is Failed),
    ensures
        ({
            let poll = (fresh_file(path, stat)->Ok_0).polled(stat, read, max);
            &&& poll.file == fresh_file(path, stat)->Ok_0
            &&& poll.lines == Seq::<Seq<char>>::empty()
            &&& poll.error is None
        }),
{
}

/// A file that has been read to its end is not read again while it stays as it is.
pub proof fn unchanged_file_is_left_alone(
    file: FileView,
    stat: FileStat,
    bytes: Seq<u8>,
    read: ReadOutcomeView,
    max: nat,
)
    requires
        file.seen(stat).offset + bytes.len() == stat.len,
    ensures
        ({
            let after = file.polled(
                StatOutcome::Found(stat),
                ReadOutcomeView::Bytes(bytes),
                max,
            ).file;
            &&& after.offset == stat.len
            &&& after.polled(StatOutcome::Found(stat), read, max) == (FilePoll {
                file: after,
                lines: seq![],
                error: None,
            })
        }),
{
}

/// A file that replaced another, or was cut short or written anew, is read from its start.
pub proof fn replaced_file_is_read_from_its_start(file: FileView, stat: FileStat)
    requires
        stat.len > 0,
        file.starts_over(stat),
    ensures
        file.reads_from(StatOutcome::Found(stat)) == Some(0u64),
        file.seen(stat).partial == Seq::<u8>::empty(),
{
}

/// A file that was gone at one poll is read from its start when it is there again.
pub proof fn returning_file_is_read_from_its_start(
    file: FileView,
    stat: FileStat,
    read: ReadOutcomeView,
    max: nat,
)
    requires
        stat.len > 0,
    ensures
        file.polled(StatOutcome::Missing, read, max).file.reads_from(StatOutcome::Found(stat))
            == Some(0u64),
{
}

/// A poll changes neither the path of a file nor how it is shown.
pub proof fn poll_keeps_the_path(
    file: FileView,
    stat: StatOutcome,
    read: ReadOutcomeView,
    max: nat,
)
    ensures
        file.polled(stat, read, max).file.path == file.path,
        file.polled(stat, read, max).file.label == file.label,
        file.polled(stat, read, max).error is Some ==> file.polled(stat, read, max).lines
            == Seq::<Seq<char>>::empty(),
{
}

} // verus!
