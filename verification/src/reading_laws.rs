//! What a poll reads of a file, and which lines come of it.

use crate::lines;
use crate::paths;
use crate::snapshot::FileStat;
use crate::snapshot::ReadOutcomeView;
use crate::snapshot::Snapshot;
use crate::snapshot::StatOutcome;
use crate::tracking;
use crate::tracking::FileView;
use crate::tracking::LogEventView;
use vstd::prelude::*;

verus! {

/// The lines and the rest of some bytes are those bytes again once every line has its line feed
/// back, and no line feed stands in a line or in the rest: nothing is lost, doubled or moved.
pub proof fn lines_make_up_the_bytes(bytes: Seq<u8>)
    ensures
        lines::cut(bytes).0.map_values(|line: Seq<u8>| line.push(0x0A)).flatten()
            + lines::cut(bytes).1 == bytes,
        forall|i: int|
            0 <= i < lines::cut(bytes).0.len() ==> !(#[trigger] lines::cut(bytes).0[i]).contains(
                0x0A,
            ),
        !lines::cut(bytes).1.contains(0x0A),
    decreases bytes.len(),
{
    let ended = |line: Seq<u8>| line.push(0x0A);
    if bytes.len() == 0 {
        assert(Seq::<Seq<u8>>::empty().map_values(ended) =~= Seq::empty());
        Seq::<Seq<u8>>::empty().lemma_flatten_and_flatten_alt_are_equivalent();
        assert(Seq::<Seq<u8>>::empty().flatten() =~= Seq::empty());
        assert(lines::cut(bytes).0.map_values(ended).flatten() =~= Seq::empty());
    } else {
        let front = bytes.drop_last();
        lines_make_up_the_bytes(front);
        let (before, rest) = lines::cut(front);
        if bytes.last() == 0x0A {
            let after = lines::cut(bytes).0;
            assert(after.map_values(ended) =~= before.map_values(ended).push(ended(rest)));
            before.map_values(ended).push(
                ended(rest),
            ).lemma_flatten_and_flatten_alt_are_equivalent();
            before.map_values(ended).lemma_flatten_and_flatten_alt_are_equivalent();
            assert(before.map_values(ended).push(ended(rest)).drop_last() =~= before.map_values(
                ended,
            ));
            assert(after.map_values(ended).flatten() =~= before.map_values(ended).flatten()
                + rest.push(0x0A));
            assert(after.map_values(ended).flatten() + lines::cut(bytes).1 =~= front.push(0x0A));
            assert(front.push(0x0A) =~= bytes);
            assert forall|i: int| 0 <= i < after.len() implies !(#[trigger] after[i]).contains(
                0x0A,
            ) by {
                if i < before.len() {
                    assert(after[i] == before[i]);
                }
            }
        } else {
            assert(rest.push(bytes.last()).contains(0x0A) ==> rest.contains(0x0A)) by {
                if rest.push(bytes.last()).contains(0x0A) {
                    let i = choose|i: int|
                        0 <= i < rest.len() + 1 && rest.push(bytes.last())[i] == 0x0A;
                    assert(rest[i] == 0x0A);
                }
            }
            assert(before.map_values(ended).flatten() + rest.push(bytes.last()) =~= front.push(
                bytes.last(),
            ));
            assert(front.push(bytes.last()) =~= bytes);
        }
    }
}

/// The text of a line is what its bytes encode, but for one carriage return at the end, as far as
/// it fits: a prefix that takes up at most `max` bytes, which one character more would not.
pub proof fn line_is_shown_as_far_as_it_fits(line: Seq<u8>, max: nat)
    ensures
        ({
            let kept = if line.len() > 0 && line.last() == 0x0D {
                line.drop_last()
            } else {
                line
            };
            let whole = if vstd::utf8::valid_utf8(kept) {
                vstd::utf8::decode_utf8(kept)
            } else {
                lines::lossy_text(kept)
            };
            let shown = lines::line_text(line, max);
            &&& shown.is_prefix_of(whole)
            &&& vstd::utf8::encode_utf8(shown).len() <= max
            &&& shown == whole || vstd::utf8::encode_utf8(
                whole.take(shown.len() as int + 1),
            ).len() > max
        }),
{
    let whole = lines::decoded(lines::without_return(line));
    let shown = lines::line_text(line, max);
    lines::clipped_text_fits(whole, max);
    if shown != whole {
        assert(shown.len() < whole.len()) by {
            if shown.len() == whole.len() {
                assert(shown =~= whole);
            }
        }
        if lines::byte_len(whole.take(shown.len() as int + 1)) <= max {
            lines::clipped_text_is_longest(whole, max, shown.len() as int + 1);
        }
    }
}

/// Every complete line becomes one text, in order.
pub proof fn every_line_becomes_one_text(bytes: Seq<u8>, max: nat)
    ensures
        lines::line_texts(bytes, max).len() == lines::cut(bytes).0.len(),
        forall|i: int|
            0 <= i < lines::cut(bytes).0.len() ==> #[trigger] lines::line_texts(bytes, max)[i]
                == lines::line_text(lines::cut(bytes).0[i], max),
{
}

/// Every text becomes one event with the time of the poll and the label of the file, in order.
pub proof fn every_text_becomes_one_event(ts: i64, source: Seq<char>, texts: Seq<Seq<char>>)
    ensures
        tracking::line_events(ts, source, texts).len() == texts.len(),
        forall|i: int|
            0 <= i < texts.len() ==> #[trigger] tracking::line_events(ts, source, texts)[i] == (
            LogEventView { ts, source, line: texts[i] }),
{
}

/// A file that has grown and is not another one is read on from where reading stopped, however much
/// it has grown: what was read completes the line that was not complete, and the lines are those of
/// the two together. Where nothing could be read, nothing changes but what is known of the file.
pub proof fn grown_file_is_read_on(file: FileView, stat: FileStat, bytes: Seq<u8>, max: nat)
    requires
        file.file_id is None || file.file_id == stat.identity,
        stat.len > file.offset,
    ensures
        file.reads_from(StatOutcome::Found(stat)) == Some(file.offset),
        ({
            let poll = file.polled(StatOutcome::Found(stat), ReadOutcomeView::Bytes(bytes), max);
            &&& poll.error is None
            &&& file.offset + bytes.len() <= u64::MAX ==> poll.file.offset == file.offset
                + bytes.len()
            &&& bytes.len() > 0 ==> poll.file.partial == lines::cut(file.partial + bytes).1
            &&& bytes.len() > 0 ==> poll.lines == lines::line_texts(file.partial + bytes, max)
            &&& bytes.len() == 0 ==> poll.file.partial == file.partial
            &&& bytes.len() == 0 ==> poll.lines == Seq::<Seq<char>>::empty()
            &&& poll.file.file_id == stat.identity
            &&& poll.file.modified == stat.modified
        }),
{
}

/// A file that is another one, or shorter than what was read of it, or as long and modified later,
/// is read from its start, if there is anything in it, and the line that was not complete is
/// dropped.
pub proof fn new_contents_are_read_from_the_start(
    file: FileView,
    stat: FileStat,
    bytes: Seq<u8>,
    max: nat,
)
    requires
        ({
            ||| file.file_id is Some && file.file_id != stat.identity
            ||| stat.len < file.offset
            ||| stat.len == file.offset && file.modified is Some && stat.modified is Some
                && file.modified->0 < stat.modified->0
        }),
    ensures
        file.reads_from(StatOutcome::Found(stat)) == if stat.len > 0 {
            Some(0u64)
        } else {
            None
        },
        ({
            let poll = file.polled(StatOutcome::Found(stat), ReadOutcomeView::Bytes(bytes), max);
            let read = if stat.len > 0 {
                bytes
            } else {
                Seq::empty()
            };
            &&& poll.error is None
            &&& read.len() <= u64::MAX ==> poll.file.offset == read.len()
            &&& poll.file.partial == lines::cut(read).1
            &&& poll.lines == lines::line_texts(read, max)
            &&& poll.file.file_id == stat.identity
            &&& poll.file.modified == stat.modified
        }),
{
    assert(Seq::<u8>::empty() + bytes =~= bytes);
    let read = if stat.len > 0 {
        bytes
    } else {
        Seq::empty()
    };
    if read.len() == 0 {
        assert(read =~= Seq::empty());
        assert(lines::cut(read).1 =~= Seq::empty());
        assert(lines::line_texts(read, max) =~= Seq::empty());
    }
}

/// A file that is as long as what was read of it, is not another one and was not modified later is
/// not read, and nothing is reported.
pub proof fn file_without_news_is_not_read(
    file: FileView,
    stat: FileStat,
    read: ReadOutcomeView,
    max: nat,
)
    requires
        file.file_id is None || file.file_id == stat.identity,
        stat.len == file.offset,
        file.modified is None || stat.modified is None || stat.modified->0 <= file.modified->0,
    ensures
        file.reads_from(StatOutcome::Found(stat)) is None,
        ({
            let poll = file.polled(StatOutcome::Found(stat), read, max);
            &&& poll.error is None
            &&& poll.lines == Seq::<Seq<char>>::empty()
            &&& poll.file.offset == file.offset
            &&& poll.file.partial == file.partial
            &&& poll.file.file_id == stat.identity
            &&& poll.file.modified == stat.modified
        }),
{
}

/// A file that is gone is forgotten without a word; one that cannot be looked at stays as it was
/// known, and the reason is given.
pub proof fn absent_file_is_forgotten(file: FileView, read: ReadOutcomeView, max: nat)
    ensures
        file.reads_from(StatOutcome::Missing) is None,
        file.reads_from(StatOutcome::Failed) is None,
        ({
            let gone = file.polled(StatOutcome::Missing, read, max);
            &&& gone.error is None
            &&& gone.lines == Seq::<Seq<char>>::empty()
            &&& gone.file.path == file.path
            &&& gone.file.label == file.label
            &&& gone.file.file_id is None
            &&& gone.file.modified is None
            &&& gone.file.offset == 0
            &&& gone.file.partial == Seq::<u8>::empty()
        }),
        ({
            let failed = file.polled(StatOutcome::Failed, read, max);
            &&& failed.error == Some("failed to stat tracked file "@ + file.path)
            &&& failed.lines == Seq::<Seq<char>>::empty()
            &&& failed.file == file
        }),
{
}

/// A failed read loses nothing: the next poll reads from the same place, and what it reads becomes
/// the same lines as if the failure had not been.
pub proof fn failed_read_loses_nothing(
    file: FileView,
    stat: FileStat,
    failure: ReadOutcomeView,
    bytes: Seq<u8>,
    max: nat,
)
    requires
        !(failure is Bytes),
        file.reads_from(StatOutcome::Found(stat)) is Some,
    ensures
        ({
            let failed = file.polled(StatOutcome::Found(stat), failure, max);
            let again = failed.file.polled(
                StatOutcome::Found(stat),
                ReadOutcomeView::Bytes(bytes),
                max,
            );
            &&& failed.lines == Seq::<Seq<char>>::empty()
            &&& failed.error == Some(
                (match failure {
                    ReadOutcomeView::OpenFailed => "failed to open tracked file "@,
                    ReadOutcomeView::SeekFailed => "failed to seek tracked file "@,
                    _ => "failed to read tracked file "@,
                }) + file.path,
            )
            &&& failed.file.reads_from(StatOutcome::Found(stat)) == file.reads_from(
                StatOutcome::Found(stat),
            )
            &&& again == file.polled(
                StatOutcome::Found(stat),
                ReadOutcomeView::Bytes(bytes),
                max,
            )
        }),
{
}

/// A file that begins to be followed is known as it stands: its first poll reads what came after,
/// or all of it where it was replaced, cut short or written anew in the meantime.
pub proof fn first_poll_reads_what_came_after(path: Seq<char>, stat: FileStat, later: FileStat)
    ensures
        ({
            let file = tracking::fresh_file(path, StatOutcome::Found(stat));
            let anew = {
                ||| stat.identity is Some && stat.identity != later.identity
                ||| later.len < stat.len
                ||| later.len == stat.len && stat.modified is Some && later.modified is Some
                    && stat.modified->0 < later.modified->0
            };
            &&& file is Ok
            &&& file->Ok_0.path == path
            &&& file->Ok_0.label == paths::path_label(path)
            &&& file->Ok_0.partial == Seq::<u8>::empty()
            &&& file->Ok_0.reads_from(StatOutcome::Found(later)) == if anew && later.len > 0 {
                Some(0u64)
            } else if later.len > stat.len {
                Some(stat.len)
            } else {
                None
            }
        }),
{
}

/// A file that is not there yet is read from its start once it is; one that cannot be looked at is
/// not followed.
pub proof fn file_to_come_is_read_whole(path: Seq<char>, later: FileStat)
    ensures
        ({
            let file = tracking::fresh_file(path, StatOutcome::Missing);
            &&& file is Ok
            &&& file->Ok_0.path == path
            &&& file->Ok_0.label == paths::path_label(path)
            &&& file->Ok_0.partial == Seq::<u8>::empty()
            &&& file->Ok_0.reads_from(StatOutcome::Found(later)) == if later.len > 0 {
                Some(0u64)
            } else {
                None
            }
        }),
        tracking::fresh_file(path, StatOutcome::Failed) == Err::<FileView, Seq<char>>(
            "failed to stat "@ + path,
        ),
{
}

/// Where the file stood at one poll decides what the next reads: what came after, or all of it
/// where it was replaced, cut short or written anew in between.
pub proof fn next_poll_reads_what_came_after(
    file: FileView,
    stat: FileStat,
    bytes: Seq<u8>,
    max: nat,
    later: FileStat,
)
    requires
        match file.reads_from(StatOutcome::Found(stat)) {
            Some(offset) => offset + bytes.len() == stat.len,
            None => true,
        },
    ensures
        ({
            let known = file.polled(
                StatOutcome::Found(stat),
                ReadOutcomeView::Bytes(bytes),
                max,
            ).file;
            let anew = {
                ||| stat.identity is Some && stat.identity != later.identity
                ||| later.len < stat.len
                ||| later.len == stat.len && stat.modified is Some && later.modified is Some
                    && stat.modified->0 < later.modified->0
            };
            known.reads_from(StatOutcome::Found(later)) == if anew && later.len > 0 {
                Some(0u64)
            } else if later.len > stat.len {
                Some(stat.len)
            } else {
                None
            }
        }),
{
}

/// A poll that is answered from a snapshot looks at the path of the file and reads from where it
/// has to.
pub proof fn poll_reads_where_it_has_to(file: FileView, snapshot: &Snapshot, max: nat)
    ensures
        ({
            let stat = snapshot.stat_at(file.path);
            &&& file.reads_from(stat) is Some ==> file.polled_from(snapshot, max) == file.polled(
                stat,
                snapshot.read_at(file.path, file.reads_from(stat)->0),
                max,
            )
            &&& forall|read: ReadOutcomeView|
                file.reads_from(stat) is None ==> file.polled_from(snapshot, max)
                    == #[trigger] file.polled(stat, read, max)
        }),
{
}

/// Of a file that only grows, two polls together report the lines that came after it began to be
/// followed, every one once, however what came is divided between them and however much it is.
pub proof fn appended_lines_are_reported_once(
    path: Seq<char>,
    stat: FileStat,
    later: FileStat,
    latest: FileStat,
    first: Seq<u8>,
    second: Seq<u8>,
    max: nat,
)
    requires
        stat.identity is None || stat.identity == later.identity,
        later.identity is None || later.identity == latest.identity,
        stat.len < later.len < latest.len,
        first.len() == later.len - stat.len,
        second.len() == latest.len - later.len,
    ensures
        ({
            let file = tracking::fresh_file(path, StatOutcome::Found(stat))->Ok_0;
            let one = file.polled(StatOutcome::Found(later), ReadOutcomeView::Bytes(first), max);
            let two = one.file.polled(
                StatOutcome::Found(latest),
                ReadOutcomeView::Bytes(second),
                max,
            );
            &&& file.reads_from(StatOutcome::Found(later)) == Some(stat.len)
            &&& one.file.reads_from(StatOutcome::Found(latest)) == Some(later.len)
            &&& one.lines + two.lines == lines::line_texts(first + second, max)
            &&& two.file.partial == lines::cut(first + second).1
            &&& two.file.offset == latest.len
        }),
{
    let file = tracking::fresh_file(path, StatOutcome::Found(stat))->Ok_0;
    let one = file.polled(StatOutcome::Found(later), ReadOutcomeView::Bytes(first), max);
    let none = Seq::<u8>::empty();
    assert(file.partial =~= none);
    grown_file_is_read_on(file, later, first, max);
    grown_file_is_read_on(one.file, latest, second, max);
    tracking::events_do_not_depend_on_reads(none, first, second, 0, path, max);
    assert(none + first =~= first);
    assert(none + (first + second) =~= first + second);
}

} // verus!
