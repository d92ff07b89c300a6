//! One open file and the contiguous part of it that is buffered.

use std::collections::VecDeque;
use vstd::prelude::*;

verus! {

/// Number of bytes to buffer ahead: 512 MiB.
pub const BUFFER_AHEAD: usize = 536_870_912;

/// Number of bytes to buffer "behind": 256 MiB.
pub const BUFFER_BEHIND: usize = 268_435_456;

/// Total number of bytes in the buffer at once.
pub const BUFFER_TOTAL_SIZE: usize = BUFFER_AHEAD + BUFFER_BEHIND;

/// Amount to read at once. 32 KiB takes less than 3 ms to transfer on a 100 Mb
/// link.
pub const READ_SIZE: usize = 32768;

/// An open file. `H` is whatever the caller reads the underlying file through.
pub struct RoraFile<H> {
    /// Where the file is, below the source directory.
    pub path: Vec<u8>,
    /// The made-up inode that was opened.
    pub ino: u64,
    /// The handle that the file is read through and the position it is at.
    /// Absent while a read is under way.
    pub underlying_file: Option<(H, u64)>,
    /// Number of bytes behind `buffer_pos` currently still buffered.
    pub buffered_behind: usize,
    /// Where, in the file, is the next read expected.
    pub buffer_pos: u64,
    /// How big we think the file is.
    pub file_size: u64,
    /// The buffered bytes.
    pub buffer: VecDeque<u8>,
}

/// The mathematical view of an open file.
#[verifier::ext_equal]
pub struct RoraFileView<H> {
    pub path: Seq<u8>,
    pub ino: u64,
    pub underlying_file: Option<(H, u64)>,
    pub behind: int,
    pub pos: int,
    pub size: int,
    pub buffer: Seq<u8>,
}

/// The smaller of two integers.
pub open spec fn least(a: int, b: int) -> int {
    if a <= b {
        a
    } else {
        b
    }
}

impl<H> RoraFileView<H> {
    /// Where in the file the buffer starts.
    pub open spec fn start(self) -> int {
        self.pos - self.behind
    }

    /// Where in the file the buffer ends.
    pub open spec fn end(self) -> int {
        self.start() + self.buffer.len()
    }

    /// Number of bytes buffered from `pos` on.
    pub open spec fn ahead(self) -> int {
        self.buffer.len() - self.behind
    }

    /// What every operation keeps: `pos` lies within the buffer or at one of its
    /// ends, and the buffer is not too long.
    pub open spec fn wf(self) -> bool {
        &&& 0 <= self.behind <= self.buffer.len() <= BUFFER_TOTAL_SIZE
        &&& 0 <= self.start()
        &&& self.end() <= u64::MAX
        &&& 0 <= self.size <= u64::MAX
    }

    /// Whether the buffer lies within the file. Every operation keeps that too,
    /// unless it is offered bytes from beyond the end.
    pub open spec fn within(self) -> bool {
        self.end() <= self.size
    }

    /// Whether a byte of the file has to be fetched before it can be given.
    pub open spec fn must_fetch(self, offset: int) -> bool {
        offset < self.size && !(self.start() <= offset < self.end())
    }

    /// The file with the next read expected at `offset`. The buffer is kept if
    /// the offset lies within it or right behind it.
    pub open spec fn seeked(self, offset: int) -> Self {
        if self.start() <= offset <= self.end() {
            RoraFileView { pos: offset, behind: offset - self.start(), ..self }
        } else {
            RoraFileView { pos: offset, behind: 0, buffer: Seq::<u8>::empty(), ..self }
        }
    }

    /// How many bytes the buffer lacks ahead of `pos`; zero if all that is left
    /// of the file is buffered.
    pub open spec fn wanted(self) -> int {
        if self.ahead() < BUFFER_AHEAD && self.end() < self.size {
            BUFFER_AHEAD - self.ahead()
        } else {
            0
        }
    }

    /// How many bytes leave the front of the buffer when `count` are added.
    pub open spec fn displaced(self, count: int) -> int {
        if self.buffer.len() + count > BUFFER_TOTAL_SIZE {
            self.buffer.len() + count - BUFFER_TOTAL_SIZE
        } else {
            0
        }
    }

    /// The file after bytes read at `offset` were offered to it. They are taken
    /// only if they follow the buffer; what does not fit then leaves the front.
    pub open spec fn fed(self, offset: int, moar: Seq<u8>) -> Self {
        if offset != self.end() {
            self
        } else {
            let gone = self.displaced(moar.len() as int);
            let start = self.start() + gone;
            let pos = if self.pos < start {
                start
            } else {
                self.pos
            };
            RoraFileView { pos, behind: pos - start, buffer: (self.buffer + moar).skip(gone), ..self }
        }
    }

    /// The file after `count` bytes were read at `pos`.
    pub open spec fn advanced(self, count: int) -> Self {
        RoraFileView { pos: self.pos + count, behind: self.behind + count, ..self }
    }

    /// How many bytes a read at `offset` is given when it need not wait.
    pub open spec fn available(self, offset: int, size: int) -> int {
        least(size, least(self.end(), self.size) - offset)
    }

    /// The file after a read of up to `size` bytes at `offset`.
    pub open spec fn read(self, offset: int, size: int) -> Self {
        if offset >= self.size {
            self
        } else if self.must_fetch(offset) {
            self.seeked(offset)
        } else {
            self.seeked(offset).advanced(self.available(offset, size))
        }
    }

    /// What that read is given: nothing past the end of the file, and `None` if
    /// the first byte has to be fetched first.
    pub open spec fn read_result(self, offset: int, size: int) -> Option<Seq<u8>> {
        if offset >= self.size {
            Some(Seq::<u8>::empty())
        } else if self.must_fetch(offset) {
            None
        } else {
            Some(
                self.buffer.subrange(
                    offset - self.start(),
                    offset - self.start() + self.available(offset, size),
                ),
            )
        }
    }

    /// Whether the buffer holds what `content` has in its place.
    pub open spec fn reflects(self, content: Seq<u8>) -> bool {
        &&& content.len() == self.size
        &&& self.within()
        &&& self.buffer == content.subrange(self.start(), self.end())
    }
}

impl<H> View for RoraFile<H> {
    type V = RoraFileView<H>;

    open spec fn view(&self) -> RoraFileView<H> {
        RoraFileView {
            path: self.path@,
            ino: self.ino,
            underlying_file: self.underlying_file,
            behind: self.buffered_behind as int,
            pos: self.buffer_pos as int,
            size: self.file_size as int,
            buffer: self.buffer@,
        }
    }
}

/// A file as it is right after it was opened: nothing is buffered.
pub open spec fn fresh_file<H>(path: Seq<u8>, ino: u64, file_size: u64, handle: H) -> RoraFileView<H> {
    RoraFileView {
        path,
        ino,
        underlying_file: Some((handle, 0)),
        behind: 0,
        pos: 0,
        size: file_size as int,
        buffer: Seq::<u8>::empty(),
    }
}

/// Room for the buffer of a file: no more than the file has bytes, and no more
/// than are ever buffered at once.
pub open spec fn room_for(file_size: int) -> int {
    least(file_size, BUFFER_TOTAL_SIZE as int)
}

/// Computes how much room to ask for when a file is opened.
pub fn buffer_capacity(file_size: u64) -> (capacity: usize)
    ensures
        capacity == room_for(file_size as int),
{
    if file_size < BUFFER_TOTAL_SIZE as u64 {
        file_size as usize
    } else {
        BUFFER_TOTAL_SIZE
    }
}

/// An empty buffer for a file, made with the room that the file is due.
fn empty_buffer(file_size: u64, capacity: usize) -> (buffer: VecDeque<u8>)
    requires
        capacity == room_for(file_size as int),
    ensures
        buffer@ == Seq::<u8>::empty(),
{
    VecDeque::with_capacity(capacity)
}

impl<H> RoraFile<H> {
    /// A file that was just opened through `handle`.
    pub fn new(path: Vec<u8>, ino: u64, file_size: u64, handle: H) -> (file: Self)
        ensures
            file@ == fresh_file(path@, ino, file_size, handle),
            file@.wf(),
            file@.within(),
    {
        RoraFile {
            path,
            ino,
            underlying_file: Some((handle, 0)),
            buffered_behind: 0,
            buffer_pos: 0,
            file_size,
            buffer: empty_buffer(file_size, buffer_capacity(file_size)),
        }
    }

    /// Makes it so that `buffer_pos` is equal to the given offset, which may be
    /// the end of the file. Returns true if the bytes there have to be fetched.
    pub fn seek(&mut self, offset: u64) -> (wait: bool)
        requires
            old(self)@.wf(),
            offset <= old(self).file_size,
        ensures
            final(self)@ == old(self)@.seeked(offset as int),
            final(self).buffer_pos == offset,
            final(self)@.wf(),
            old(self)@.within() ==> final(self)@.within(),
            wait == old(self)@.must_fetch(offset as int),
    {
        let buffer_start_pos: u64 = self.buffer_pos - self.buffered_behind as u64;
        let buffer_end_pos: u64 = buffer_start_pos + self.buffer.len() as u64;
        if offset > buffer_end_pos || offset < buffer_start_pos {
            // discard the whole buffer :(
            self.buffer_pos = offset;
            self.buffered_behind = 0;
            self.buffer.clear();
            offset < self.file_size
        } else if offset == buffer_end_pos {
            // no need to discard anything! We just have to wait a bit.
            self.buffered_behind = self.buffer.len();
            self.buffer_pos = buffer_end_pos;
            offset < self.file_size
        } else {
            self.buffer_pos = offset;
            self.buffered_behind = (offset - buffer_start_pos) as usize;
            false
        }
    }

    /// How many more bytes the file would like to have buffered ahead.
    pub fn needs_service(&self) -> (amount: usize)
        requires
            self@.wf(),
        ensures
            amount == self@.wanted(),
    {
        let amount_buffered_ahead: usize = self.buffer.len() - self.buffered_behind;
        if amount_buffered_ahead < BUFFER_AHEAD {
            let buffer_start_pos: u64 = self.buffer_pos - self.buffered_behind as u64;
            let buffer_end_pos: u64 = buffer_start_pos + self.buffer.len() as u64;
            if buffer_end_pos < self.file_size {
                return BUFFER_AHEAD - amount_buffered_ahead;
            }
        }
        0
    }

    /// Takes bytes that were read at `offset`, if they follow what is buffered.
    /// What no longer fits leaves the front of the buffer.
    pub fn maybe_accept_moar(&mut self, offset: u64, moar: &[u8])
        requires
            old(self)@.wf(),
            offset == old(self)@.end() ==> moar@.len() <= BUFFER_TOTAL_SIZE && offset + moar@.len()
                <= u64::MAX,
        ensures
            final(self)@ == old(self)@.fed(offset as int, moar@),
            final(self)@.wf(),
            old(self)@.within() && (offset == old(self)@.end() ==> offset + moar@.len()
                <= old(self).file_size) ==> final(self)@.within(),
    {
        let buffer_start_pos: u64 = self.buffer_pos - self.buffered_behind as u64;
        let buffer_end_pos: u64 = buffer_start_pos + self.buffer.len() as u64;
        if offset != buffer_end_pos {
            return;
        }
        let new_size: usize = self.buffer.len() + moar.len();
        if new_size > BUFFER_TOTAL_SIZE {
            let to_discard: usize = new_size - BUFFER_TOTAL_SIZE;
            self.discard(to_discard);
        }
        self.extend(moar);
        assert(self@.buffer =~= old(self)@.fed(offset as int, moar@).buffer);
    }

    /// Drops bytes from the front of the buffer. Where unread ones are among
    /// them, the next read is expected behind them.
    fn discard(&mut self, count: usize)
        requires
            old(self)@.wf(),
            count <= old(self)@.buffer.len(),
        ensures
            final(self)@.wf(),
            final(self)@.buffer == old(self)@.buffer.skip(count as int),
            final(self)@.start() == old(self)@.start() + count,
            final(self)@.pos == (if old(self)@.pos < old(self)@.start() + count {
                old(self)@.start() + count
            } else {
                old(self)@.pos
            }),
            final(self)@ == (RoraFileView {
                pos: final(self)@.pos,
                behind: final(self)@.behind,
                buffer: final(self)@.buffer,
                ..old(self)@
            }),
    {
        let mut i: usize = 0;
        assert(self.buffer@ =~= old(self)@.buffer.skip(0));
        while i < count
            invariant
                i <= count <= old(self)@.buffer.len(),
                self.buffer@ == old(self)@.buffer.skip(i as int),
                self@ == (RoraFileView { buffer: self@.buffer, ..old(self)@ }),
            decreases count - i,
        {
            let _ = self.buffer.pop_front();
            assert(self.buffer@ =~= old(self)@.buffer.skip(i + 1));
            i = i + 1;
        }
        if count <= self.buffered_behind {
            self.buffered_behind = self.buffered_behind - count;
        } else {
            self.buffer_pos = self.buffer_pos + (count - self.buffered_behind) as u64;
            self.buffered_behind = 0;
        }
    }

    /// Adds bytes at the end of the buffer.
    fn extend(&mut self, moar: &[u8])
        requires
            old(self)@.wf(),
            old(self)@.buffer.len() + moar@.len() <= BUFFER_TOTAL_SIZE,
            old(self)@.end() + moar@.len() <= u64::MAX,
        ensures
            final(self)@ == (RoraFileView { buffer: old(self)@.buffer + moar@, ..old(self)@ }),
    {
        let mut i: usize = 0;
        assert(self.buffer@ =~= old(self)@.buffer + moar@.take(0));
        while i < moar.len()
            invariant
                i <= moar@.len(),
                self.buffer@ == old(self)@.buffer + moar@.take(i as int),
                self@ == (RoraFileView { buffer: self@.buffer, ..old(self)@ }),
            decreases moar.len() - i,
        {
            self.buffer.push_back(moar[i]);
            assert(moar@.take(i + 1) =~= moar@.take(i as int).push(moar@[i as int]));
            assert(self.buffer@ =~= old(self)@.buffer + moar@.take(i + 1));
            i = i + 1;
        }
        assert(moar@.take(i as int) =~= moar@);
    }

    /// Reads up to `size` bytes at `offset` out of the buffer. Gives `None` if
    /// the first of them has to be fetched before it can be read.
    pub fn read_at(&mut self, offset: u64, size: u32) -> (bytes: Option<Vec<u8>>)
        requires
            old(self)@.wf(),
        ensures
            final(self)@ == old(self)@.read(offset as int, size as int),
            final(self)@.wf(),
            old(self)@.within() ==> final(self)@.within(),
            match bytes {
                Some(got) => old(self)@.read_result(offset as int, size as int) == Some(got@),
                None => old(self)@.read_result(offset as int, size as int) is None,
            },
    {
        if offset >= self.file_size {
            let nothing: Vec<u8> = Vec::new();
            assert(nothing@ =~= Seq::<u8>::empty());
            return Some(nothing);
        }
        if self.seek(offset) {
            return None;
        }
        let amount_ahead: usize = self.buffer.len() - self.buffered_behind;
        let buffered: usize = if (size as usize) < amount_ahead {
            size as usize
        } else {
            amount_ahead
        };
        let left: u64 = self.file_size - offset;
        let amount: usize = if left < buffered as u64 {
            left as usize
        } else {
            buffered
        };
        let bytes = self.peek(amount);
        self.buffer_pos = self.buffer_pos + amount as u64;
        self.buffered_behind = self.buffered_behind + amount;
        Some(bytes)
    }

    /// Copies the next `count` bytes out of the buffer.
    fn peek(&self, count: usize) -> (bytes: Vec<u8>)
        requires
            self@.wf(),
            count <= self@.ahead(),
        ensures
            bytes@ == self@.buffer.subrange(self@.behind, self@.behind + count),
    {
        let mut bytes: Vec<u8> = Vec::with_capacity(count);
        let mut i: usize = 0;
        while i < count
            invariant
                i <= count <= self@.ahead(),
                self@.wf(),
                bytes@ == self@.buffer.subrange(self@.behind, self@.behind + i),
            decreases count - i,
        {
            bytes.push(self.buffer[self.buffered_behind + i]);
            assert(bytes@ =~= self@.buffer.subrange(self@.behind, self@.behind + i + 1));
            i = i + 1;
        }
        assert(bytes@ =~= self@.buffer.subrange(self@.behind, self@.behind + count));
        bytes
    }
}

} // verus!
