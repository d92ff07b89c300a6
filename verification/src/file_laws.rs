//! What holds of an open file whatever is done with it.

use vstd::math::{max, min};
use vstd::prelude::*;

use crate::file::{
    fresh_file, room_for, RoraFile, RoraFileView, BUFFER_AHEAD, BUFFER_TOTAL_SIZE, READ_SIZE,
};

verus! {

/// The buffer of a file takes at most three quarters of a GiB, and never more
/// than the size of the file: the room that it was given when the file was opened
/// is always enough.
pub proof fn law_buffer_is_bounded<H>(file: RoraFileView<H>)
    requires
        file.wf(),
        file.within(),
    ensures
        file.buffer.len() <= room_for(file.size),
        room_for(file.size) <= file.size,
        room_for(file.size) <= BUFFER_TOTAL_SIZE,
        BUFFER_TOTAL_SIZE == 3 * (1024 * 1024 * 1024) / 4,
{
}

/// A file that was just opened has the right bytes buffered, namely none.
pub proof fn law_fresh_file_reflects<H>(
    path: Seq<u8>,
    ino: u64,
    file_size: u64,
    handle: H,
    content: Seq<u8>,
)
    requires
        content.len() == file_size,
    ensures
        fresh_file(path, ino, file_size, handle).reflects(content),
        fresh_file(path, ino, file_size, handle).wf(),
        fresh_file(path, ino, file_size, handle).within(),
{
    assert(content.subrange(0, 0) =~= Seq::<u8>::empty());
}

/// Moving to another offset never makes the buffer wrong.
pub proof fn law_seek_keeps_content<H>(file: RoraFileView<H>, offset: int, content: Seq<u8>)
    requires
        file.wf(),
        file.reflects(content),
        0 <= offset <= file.size,
    ensures
        file.seeked(offset).reflects(content),
        file.seeked(offset).wf(),
        file.seeked(offset).within(),
{
    let after = file.seeked(offset);
    if !(file.start() <= offset <= file.end()) {
        assert(after.buffer =~= content.subrange(offset, offset));
    }
}

/// Seeking makes the given offset the one where the next read is expected, up to
/// and including the end of the file. There nothing has to be fetched.
pub proof fn law_seek_moves_there<H>(file: RoraFileView<H>, offset: int)
    requires
        file.wf(),
        0 <= offset <= file.size,
    ensures
        file.seeked(offset).pos == offset,
        !file.must_fetch(file.size),
        file.seeked(offset).must_fetch(offset) == file.must_fetch(offset),
        file.seeked(offset).seeked(offset) == file.seeked(offset),
{
}

/// Bytes of the file, offered where they belong or anywhere else, never make the
/// buffer wrong.
pub proof fn law_feed_keeps_content<H>(
    file: RoraFileView<H>,
    offset: int,
    moar: Seq<u8>,
    content: Seq<u8>,
)
    requires
        file.wf(),
        file.reflects(content),
        0 <= offset,
        offset + moar.len() <= content.len(),
        moar == content.subrange(offset, offset + moar.len()),
        moar.len() <= BUFFER_TOTAL_SIZE,
    ensures
        file.fed(offset, moar).reflects(content),
        file.fed(offset, moar).wf(),
        file.fed(offset, moar).within(),
{
    if offset == file.end() {
        let after = file.fed(offset, moar);
        assert(file.buffer + moar =~= content.subrange(file.start(), offset + moar.len()));
        assert(after.buffer =~= content.subrange(after.start(), after.end()));
    }
}

/// Bytes that are taken in on behalf of a file that wanted some never push out
/// bytes that were not read yet.
pub proof fn law_feed_spares_unread<H>(file: RoraFileView<H>, moar: Seq<u8>)
    requires
        file.wf(),
        file.wanted() > 0,
        moar.len() <= READ_SIZE,
    ensures
        file.fed(file.end(), moar).pos == file.pos,
        file.fed(file.end(), moar).end() == file.end() + moar.len(),
{
}

/// A read gives bytes of the file, leaves the buffer right, and gives at least
/// one byte unless it asked for none or starts at or beyond the end.
pub proof fn law_read_gives_content<H>(
    file: RoraFileView<H>,
    offset: int,
    size: int,
    content: Seq<u8>,
)
    requires
        file.wf(),
        file.reflects(content),
        0 <= offset,
        0 <= size,
    ensures
        file.read(offset, size).reflects(content),
        file.read(offset, size).wf(),
        file.read(offset, size).within(),
        match file.read_result(offset, size) {
            Some(bytes) => {
                &&& bytes.len() <= size
                &&& offset < content.len() ==> bytes == content.subrange(
                    offset,
                    offset + bytes.len(),
                )
                &&& bytes.len() == 0 <==> size == 0 || offset >= content.len()
            },
            None => offset < content.len(),
        },
{
    if offset < file.size {
        law_seek_keeps_content(file, offset, content);
        if !file.must_fetch(offset) {
            let bytes = file.read_result(offset, size)->0;
            assert(bytes =~= content.subrange(offset, offset + bytes.len()));
        }
    }
}

/// A file that a reader waits for lacks as much as a file can lack, so it is
/// among the first that are served.
pub proof fn law_waiting_is_most_urgent<H>(file: RoraFileView<H>, other: RoraFileView<H>, offset: int)
    requires
        file.wf(),
        other.wf(),
        0 <= offset,
        file.must_fetch(offset),
    ensures
        file.seeked(offset).wanted() == BUFFER_AHEAD,
        file.seeked(offset).end() == offset,
        other.wanted() <= file.seeked(offset).wanted(),
{
}

/// A reader's wait is over once any byte was taken in for it.
pub proof fn law_feed_ends_wait<H>(file: RoraFileView<H>, offset: int, moar: Seq<u8>)
    requires
        file.wf(),
        0 <= offset,
        file.must_fetch(offset),
        0 < moar.len() <= READ_SIZE,
    ensures
        !file.seeked(offset).fed(offset, moar).must_fetch(offset),
{
}

/// The mathematical view of a file leaves nothing out and makes nothing up.
pub proof fn law_file_is_as_seen<H>(file: RoraFile<H>)
    ensures
        file@.path == file.path@,
        file@.ino == file.ino,
        file@.underlying_file == file.underlying_file,
        file@.behind == file.buffered_behind,
        file@.pos == file.buffer_pos,
        file@.size == file.file_size,
        file@.buffer == file.buffer@,
        file@.start() == file.buffer_pos - file.buffered_behind,
        file@.end() == file.buffer_pos - file.buffered_behind + file.buffer@.len(),
        file@.ahead() == file.buffer@.len() - file.buffered_behind,
{
}

/// A file that was just opened is expected to be read from its beginning, and is
/// as big as it was said to be. What it is read through has not moved yet.
pub proof fn law_fresh_file_is_at_its_start<H>(path: Seq<u8>, ino: u64, file_size: u64, handle: H)
    ensures
        ({
            let file = fresh_file(path, ino, file_size, handle);
            &&& file.path == path
            &&& file.ino == ino
            &&& file.size == file_size
            &&& file.underlying_file == Some((handle, 0u64))
            &&& file.pos == 0
            &&& file.behind == 0
            &&& file.buffer.len() == 0
        }),
{
}

/// The room that a file is due is the size of the file or three quarters of a
/// GiB, whichever is less.
pub proof fn law_room_is_due(file_size: int)
    ensures
        room_for(file_size) == min(file_size, 805_306_368),
        BUFFER_TOTAL_SIZE == 805_306_368,
        BUFFER_AHEAD == 536_870_912,
        READ_SIZE == 32_768,
{
}

/// A buffer holds what `content` has in its place exactly if it agrees with it
/// byte for byte.
pub proof fn law_reflecting_is_agreeing<H>(file: RoraFileView<H>, content: Seq<u8>)
    requires
        0 <= file.behind <= file.pos,
    ensures
        file.reflects(content) <==> {
            let start = file.pos - file.behind;
            &&& content.len() == file.size
            &&& start + file.buffer.len() <= content.len()
            &&& forall|i: int|
                0 <= i < file.buffer.len() ==> #[trigger] file.buffer[i] == content[start + i]
        },
{
    let start = file.pos - file.behind;
    let there = content.subrange(start, start + file.buffer.len());
    if start + file.buffer.len() <= content.len() {
        assert(there.len() == file.buffer.len());
        assert(forall|i: int| 0 <= i < file.buffer.len() ==> there[i] == content[start + i]);
        if forall|i: int|
            0 <= i < file.buffer.len() ==> #[trigger] file.buffer[i] == content[start + i] {
            assert(there =~= file.buffer);
        }
    }
}

/// Seeking drops the buffer only if the offset lies neither within it nor right
/// behind it, and touches nothing else of the file.
pub proof fn law_seek_keeps_buffer<H>(file: RoraFileView<H>, offset: int)
    requires
        0 <= file.behind <= file.buffer.len(),
    ensures
        ({
            let after = file.seeked(offset);
            let start = file.pos - file.behind;
            let end = start + file.buffer.len();
            &&& after.pos == offset
            &&& after.path == file.path && after.ino == file.ino && after.size == file.size
            &&& after.underlying_file == file.underlying_file
            &&& start <= offset <= end ==> after.buffer == file.buffer && after.behind == offset
                - start
            &&& !(start <= offset <= end) ==> after.buffer.len() == 0 && after.behind == 0
            &&& file.must_fetch(offset) <==> offset < file.size && (offset < start || offset >= end)
        }),
{
}

/// Bytes that follow the buffer are all taken in. What is buffered then is the
/// last of what was and of what was added, as much of it as three quarters of a
/// GiB hold. The next read is expected where it was, unless that left the buffer.
pub proof fn law_feed_takes_what_follows<H>(file: RoraFileView<H>, offset: int, moar: Seq<u8>)
    requires
        0 <= file.behind <= file.buffer.len() <= 805_306_368,
        moar.len() <= 805_306_368,
    ensures
        ({
            let after = file.fed(offset, moar);
            let end = file.pos - file.behind + file.buffer.len();
            let all = file.buffer + moar;
            &&& after.path == file.path && after.ino == file.ino && after.size == file.size
            &&& after.underlying_file == file.underlying_file
            &&& offset != end ==> after == file
            &&& offset == end ==> {
                &&& after.buffer.len() == min(all.len() as int, 805_306_368)
                &&& after.buffer == all.skip(all.len() - after.buffer.len())
                &&& after.pos - after.behind + after.buffer.len() == end + moar.len()
                &&& after.pos == max(file.pos, after.pos - after.behind)
            }
        }),
{
    let after = file.fed(offset, moar);
    let all = file.buffer + moar;
    if offset == file.end() {
        assert(after.buffer =~= all.skip(all.len() - after.buffer.len()));
    }
}

/// A file wants more exactly while fewer than 512 MiB are buffered ahead of where
/// it is read and its buffer ends before the file does; it then wants as much as
/// it lacks of that amount.
pub proof fn law_wanting_more<H>(file: RoraFileView<H>)
    ensures
        ({
            let ahead = file.buffer.len() - file.behind;
            let end = file.pos - file.behind + file.buffer.len();
            &&& file.wanted() > 0 <==> ahead < 536_870_912 && end < file.size
            &&& file.wanted() > 0 ==> file.wanted() + ahead == 536_870_912
            &&& file.wanted() >= 0
        }),
{
}

/// A read takes from the buffer what is there, from the very byte that it asks
/// for on. It gives nothing at or beyond the end of the file, and has to wait
/// exactly if its first byte is one of the file that is not buffered.
pub proof fn law_read_takes_what_is_buffered<H>(file: RoraFileView<H>, offset: int, size: int)
    requires
        0 <= file.behind <= file.buffer.len(),
        0 <= file.pos - file.behind,
        0 <= offset,
        0 <= size,
    ensures
        ({
            let start = file.pos - file.behind;
            let end = start + file.buffer.len();
            let after = file.read(offset, size);
            let given = file.read_result(offset, size);
            if offset >= file.size {
                after == file && given == Some(Seq::<u8>::empty())
            } else if offset < start || offset >= end {
                &&& given is None
                &&& after.pos == offset
                &&& after.size == file.size && after.underlying_file == file.underlying_file
            } else {
                let count = min(size, min(end, file.size) - offset);
                &&& given is Some
                &&& given->0.len() == count
                &&& forall|i: int|
                    0 <= i < count ==> #[trigger] given->0[i] == file.buffer[offset - start + i]
                &&& after.pos == offset + count
                &&& after.pos - after.behind == start
                &&& after.buffer == file.buffer
                &&& after.size == file.size && after.underlying_file == file.underlying_file
                &&& after.path == file.path && after.ino == file.ino
            }
        }),
{
}

/// Reading on where a read left off gives the bytes that follow: two reads, one
/// after the other, give what one read of both sizes gives.
pub proof fn law_reads_add_up<H>(file: RoraFileView<H>, offset: int, first: int, second: int)
    requires
        0 <= file.behind <= file.buffer.len(),
        0 <= file.pos - file.behind <= offset,
        0 <= first,
        0 < second,
        offset + first + second <= file.pos - file.behind + file.buffer.len(),
        file.pos - file.behind + file.buffer.len() <= file.size,
    ensures
        ({
            let next = file.read(offset, first);
            let whole = file.read_result(offset, first + second);
            &&& whole is Some
            &&& file.read_result(offset, first) is Some
            &&& next.read_result(offset + first, second) is Some
            &&& file.read_result(offset, first)->0 + next.read_result(offset + first, second)->0
                == whole->0
            &&& whole->0.len() == first + second
            &&& next.read(offset + first, second) == file.read(offset, first + second)
        }),
{
    let next = file.read(offset, first);
    let whole = file.read_result(offset, first + second)->0;
    assert(file.read_result(offset, first)->0 + next.read_result(offset + first, second)->0
        =~= whole);
}

} // verus!
