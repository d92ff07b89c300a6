//! Opening, reading and closing files.

use vstd::math::min;
use vstd::prelude::*;

use crate::attr::FileKind;
use crate::dingus::{Dingus, DingusView};
use crate::errno::Errno;
use crate::file::{fresh_file, RoraFile, RoraFileView};
use crate::file_laws::law_read_gives_content;
use crate::path::{append_bytes, canonical, copy_bytes};

verus! {

/// A file that may be opened, and what has to be known about it afterwards.
pub struct OpenPlan {
    /// Where the file is, below the source directory.
    pub path: Vec<u8>,
    pub ino: u64,
    pub file_size: u64,
}

/// A read that is being answered.
pub struct Reading {
    pub fh: usize,
    pub offset: u64,
    pub size: u32,
    /// What was read so far.
    pub got: Vec<u8>,
}

/// How far a read has come.
pub enum ReadStep {
    /// These are the bytes. They are fewer than asked for only at the end of the
    /// file: any short read is taken for that.
    Done(Vec<u8>),
    /// The next byte has to be fetched first.
    Wait,
    /// The read failed.
    Fail(Errno),
}

impl Reading {
    /// A read starts where a file can have bytes, and never gets more bytes than
    /// it asks for.
    pub open spec fn wf(self) -> bool {
        self.offset <= i64::MAX && self.got@.len() <= self.size
    }

    /// Where the next byte is read.
    pub open spec fn next(self) -> int {
        self.offset + self.got@.len()
    }

    /// How many bytes are still to be read.
    pub open spec fn missing(self) -> int {
        self.size - self.got@.len()
    }

    /// Begins to answer a request to read.
    pub fn new(fh: u64, offset: i64, size: u32) -> (reading: Result<Reading, Errno>)
        ensures
            match reading {
                Ok(r) => {
                    &&& r.wf()
                    &&& r.fh == fh && r.offset == offset && r.size == size
                    &&& r.got@ == Seq::<u8>::empty()
                },
                Err(errno) => if offset < 0 {
                    errno == Errno::Invalid
                } else {
                    fh > usize::MAX && errno == Errno::BadHandle
                },
            },
            reading is Ok <==> offset >= 0 && fh <= usize::MAX,
    {
        if offset < 0 {
            return Err(Errno::Invalid);
        }
        if fh > usize::MAX as u64 {
            return Err(Errno::BadHandle);
        }
        Ok(Reading { fh: fh as usize, offset: offset as u64, size, got: Vec::new() })
    }
}

impl<H> RoraFileView<H> {
    /// What a read at `offset` that still misses `missing` bytes finds in the
    /// buffer.
    pub open spec fn found(self, offset: int, missing: int) -> Seq<u8> {
        match self.read_result(offset, missing) {
            Some(bytes) => bytes,
            None => Seq::<u8>::empty(),
        }
    }

    /// Whether such a read is then complete: it has all it asked for, or has
    /// come to the end of the file.
    pub open spec fn completes(self, offset: int, missing: int) -> bool {
        let found = self.found(offset, missing).len();
        self.read_result(offset, missing) is Some && (found == missing || offset + found
            >= self.size)
    }
}

impl<H> DingusView<H> {
    /// Why an inode cannot be opened, if it cannot.
    pub open spec fn open_error(self, ino: u64) -> Option<Errno> {
        if !self.paths.contains_key(ino) {
            Some(Errno::NoEntry)
        } else if !self.lookups.contains_key(canonical(self.paths[ino])) {
            Some(Errno::Io)
        } else {
            match self.lookups[canonical(self.paths[ino])].attr.kind {
                FileKind::Directory => Some(Errno::IsDirectory),
                FileKind::Symlink => Some(Errno::Invalid),
                FileKind::RegularFile => None,
            }
        }
    }

    /// Whether `fh` is the handle that the next opened file gets: the lowest one
    /// that is not in use.
    pub open spec fn is_next_handle(self, fh: int) -> bool {
        &&& 0 <= fh <= self.files.len()
        &&& !self.is_open(fh)
        &&& forall|lower: int| 0 <= lower < fh ==> #[trigger] self.is_open(lower)
    }

    /// The caches with something else under a handle.
    pub open spec fn with_file(self, fh: int, slot: Option<RoraFileView<H>>) -> Self {
        let files = if fh == self.files.len() {
            self.files.push(slot)
        } else {
            self.files.update(fh, slot)
        };
        DingusView { files, ..self }
    }
}

/// Changing what is under one handle keeps the caches in order.
pub(crate) proof fn lemma_with_file_inv<H>(
    caches: DingusView<H>,
    fh: int,
    slot: Option<RoraFileView<H>>,
)
    requires
        caches.inv(),
        0 <= fh <= caches.files.len(),
        slot is Some ==> slot->0.wf() && slot->0.within(),
    ensures
        caches.with_file(fh, slot).inv(),
        forall|other: int| other != fh ==> caches.with_file(fh, slot).is_open(other)
            == #[trigger] caches.is_open(other),
{
    let after = caches.with_file(fh, slot);
    assert forall|dir: u64| #[trigger] after.readdirs.contains_key(dir) implies {
        &&& after.paths.contains_key(dir)
        &&& after.are_entries(dir, after.readdirs[dir].entries)
    } by {
        assert(caches.readdirs.contains_key(dir));
        let entries = caches.readdirs[dir].entries;
        assert forall|k: int| 0 <= k < entries.len() implies after.is_entry(
            dir,
            (#[trigger] entries[k]).0,
            entries[k].1,
        ) by {
            assert(caches.is_entry(dir, entries[k].0, entries[k].1));
        }
    }
    assert forall|other: int| #[trigger] after.is_open(other) implies after.files[other]->0.wf()
        && after.files[other]->0.within() by {
        if other != fh {
            assert(caches.is_open(other));
        }
    }
}

/// Reading on from what a source has gives what it has further on.
proof fn lemma_reading_on<H>(caches: DingusView<H>, fh: int, reading: Reading)
    requires
        caches.inv(),
        caches.is_open(fh),
        reading.wf(),
    ensures
        forall|content: Seq<u8>|
            #![trigger content.len()]
            ({
                let file = caches.files[fh]->0;
                let start = file.pos - file.behind;
                let from = min(reading.offset as int, content.len() as int);
                let got = reading.got@;
                &&& content.len() == file.size
                &&& start + file.buffer.len() <= content.len()
                &&& file.buffer == content.subrange(start, start + file.buffer.len())
                &&& from + got.len() <= content.len()
                &&& got == content.subrange(from, from + got.len())
            }) ==> ({
                let offset = reading.offset as int;
                let size = reading.size as int;
                let from = min(offset, content.len() as int);
                let next = offset + reading.got@.len();
                let missing = size - reading.got@.len();
                let before = caches.files[fh]->0;
                let got = reading.got@ + before.found(next, missing);
                let file = before.read(next, missing);
                let start = file.pos - file.behind;
                &&& start + file.buffer.len() <= content.len()
                &&& file.buffer == content.subrange(start, start + file.buffer.len())
                &&& before.completes(next, missing) ==> got == content.subrange(
                    from,
                    min(offset + size, content.len() as int),
                )
                &&& !before.completes(next, missing) ==> {
                    &&& offset + got.len() < content.len()
                    &&& got == content.subrange(from, from + got.len())
                    &&& !(start <= offset + got.len() < start + file.buffer.len())
                }
            }),
{
    let file = caches.files[fh]->0;
    let next = reading.offset + reading.got@.len();
    let missing = reading.size - reading.got@.len();
    assert(file.wf() && file.within());
    assert forall|content: Seq<u8>|
        #![trigger content.len()]
        ({
            let from = min(reading.offset as int, content.len() as int);
            let got = reading.got@;
            &&& content.len() == file.size
            &&& file.end() <= content.len()
            &&& file.buffer == content.subrange(file.start(), file.end())
            &&& from + got.len() <= content.len()
            &&& got == content.subrange(from, from + got.len())
        }) implies ({
        let from = min(reading.offset as int, content.len() as int);
        let got = reading.got@ + file.found(next, missing);
        let after = file.read(next, missing);
        &&& after.end() <= content.len()
        &&& after.buffer == content.subrange(after.start(), after.end())
        &&& file.completes(next, missing) ==> got == content.subrange(
            from,
            min(reading.offset + reading.size, content.len() as int),
        )
        &&& !file.completes(next, missing) ==> {
            &&& reading.offset + got.len() < content.len()
            &&& got == content.subrange(from, from + got.len())
            &&& !(after.start() <= reading.offset + got.len() < after.end())
        }
    }) by {
        assert(file.reflects(content));
        law_read_gives_content(file, next, missing, content);
        let from = min(reading.offset as int, content.len() as int);
        let got = reading.got@ + file.found(next, missing);
        if next < content.len() {
            assert(got =~= content.subrange(from, from + got.len()));
        } else {
            assert(got =~= reading.got@);
        }
    }
}

impl<H> Dingus<H> {
    /// Decides whether an inode may be opened.
    pub fn plan_open(&self, ino: u64) -> (plan: Result<OpenPlan, Errno>)
        requires
            self.wf(),
        ensures
            match plan {
                Ok(plan) => {
                    &&& self@.open_error(ino) is None
                    &&& plan.ino == ino
                    &&& plan.path@ == self@.paths[ino]
                    &&& plan.file_size == self@.lookups[canonical(self@.paths[ino])].attr.size
                },
                Err(errno) => self@.open_error(ino) == Some(errno),
            },
            plan is Ok <==> {
                &&& self@.paths.contains_key(ino)
                &&& self@.lookups.contains_key(canonical(self@.paths[ino]))
                &&& self@.lookups[canonical(self@.paths[ino])].attr.kind == FileKind::RegularFile
            },
    {
        let path = match self.path_of(ino) {
            Some(path) => path,
            None => return Err(Errno::NoEntry),
        };
        let lookup = match self.lookups.get(path.as_slice()) {
            Some(lookup) => lookup,
            None => return Err(Errno::Io),
        };
        match lookup.attr.kind {
            FileKind::Directory => Err(Errno::IsDirectory),
            FileKind::Symlink => Err(Errno::Invalid),
            FileKind::RegularFile => Ok(
                OpenPlan { path: copy_bytes(path.as_slice()), ino, file_size: lookup.attr.size },
            ),
        }
    }

    /// The lowest handle that is not in use.
    fn free_handle(&self) -> (fh: usize)
        ensures
            self@.is_next_handle(fh as int),
    {
        let mut fh: usize = 0;
        while fh < self.open_files.len()
            invariant
                fh <= self.open_files.len(),
                forall|lower: int| 0 <= lower < fh ==> #[trigger] self@.is_open(lower),
            decreases self.open_files.len() - fh,
        {
            if self.open_files[fh].is_none() {
                return fh;
            }
            fh = fh + 1;
        }
        fh
    }

    /// Gives a handle to a file that was opened as planned.
    pub fn finish_open(&mut self, plan: OpenPlan, handle: H) -> (fh: usize)
        requires
            old(self).wf(),
        ensures
            final(self).wf(),
            old(self)@.is_next_handle(fh as int),
            final(self)@ == old(self)@.with_file(
                fh as int,
                Some(fresh_file(plan.path@, plan.ino, plan.file_size, handle)),
            ),
            fh < final(self).open_files@.len(),
            fh < old(self).open_files@.len() ==> old(self).open_files@[fh as int] is None,
            fh >= old(self).open_files@.len() ==> fh == old(self).open_files@.len(),
            forall|lower: int| 0 <= lower < fh ==> #[trigger] old(self).open_files@[lower] is Some,
            final(self).open_files@[fh as int] matches Some(file) && {
                &&& file.path@ == plan.path@
                &&& file.ino == plan.ino
                &&& file.file_size == plan.file_size
                &&& file.underlying_file == Some((handle, 0u64))
                &&& file.buffer_pos == 0
                &&& file.buffered_behind == 0
                &&& file.buffer@.len() == 0
            },
            forall|other: int|
                0 <= other < old(self).open_files@.len() && other != fh
                    ==> #[trigger] final(self).open_files@[other] == old(self).open_files@[other],
    {
        let ghost before = self@;
        let file = RoraFile::new(plan.path, plan.ino, plan.file_size, handle);
        let ghost fresh = file@;
        let fh = self.free_handle();
        assert forall|lower: int| 0 <= lower < fh implies #[trigger] old(
            self,
        ).open_files@[lower] is Some by {
            assert(before.is_open(lower));
        }
        if fh >= self.open_files.len() {
            self.open_files.push(Some(file));
        } else {
            self.open_files.set(fh, Some(file));
        }
        proof {
            assert(self@ =~= before.with_file(fh as int, Some(fresh)));
            lemma_with_file_inv(before, fh as int, Some(fresh));
        }
        fh
    }

    /// Closes a file. The worker should then be bumped, so that its status line
    /// can follow.
    pub fn close(&mut self, fh: u64) -> (closed: Result<(), Errno>)
        requires
            old(self).wf(),
        ensures
            final(self).wf(),
            match closed {
                Ok(_) => old(self)@.is_open(fh as int) && final(self)@ == old(self)@.with_file(
                    fh as int,
                    None,
                ),
                Err(errno) => {
                    &&& !old(self)@.is_open(fh as int)
                    &&& errno == Errno::BadHandle
                    &&& final(self)@ == old(self)@
                },
            },
            closed is Ok <==> fh < old(self).open_files@.len() && old(self).open_files@[
                fh as int
            ] is Some,
            closed is Ok ==> final(self).open_files@ == old(self).open_files@.update(
                fh as int,
                None,
            ),
            closed is Err ==> final(self).open_files@ == old(self).open_files@,
    {
        let ghost before = self@;
        if fh >= self.open_files.len() as u64 {
            return Err(Errno::BadHandle);
        }
        if self.open_files[fh as usize].is_none() {
            return Err(Errno::BadHandle);
        }
        assert(before.is_open(fh as int));
        self.open_files.set(fh as usize, None);
        proof {
            assert(self@ =~= before.with_file(fh as int, None));
            lemma_with_file_inv(before, fh as int, None);
        }
        Ok(())
    }

    /// Reads from an open file what its buffer has. `None` says that the first
    /// byte has to be fetched first.
    pub fn inner_read(&mut self, fh: usize, offset: u64, size: u32) -> (bytes: Result<
        Option<Vec<u8>>,
        Errno,
    >)
        requires
            old(self).wf(),
        ensures
            final(self).wf(),
            match bytes {
                Ok(bytes) => {
                    &&& old(self)@.is_open(fh as int)
                    &&& final(self)@ == old(self)@.with_file(
                        fh as int,
                        Some(old(self)@.files[fh as int]->0.read(offset as int, size as int)),
                    )
                    &&& match bytes {
                        Some(got) => old(self)@.files[fh as int]->0.read_result(
                            offset as int,
                            size as int,
                        ) == Some(got@),
                        None => old(self)@.files[fh as int]->0.read_result(
                            offset as int,
                            size as int,
                        ) is None,
                    }
                },
                Err(errno) => {
                    &&& !old(self)@.is_open(fh as int)
                    &&& errno == Errno::BadHandle
                    &&& final(self)@ == old(self)@
                },
            },
    {
        let ghost before = self@;
        if fh >= self.open_files.len() {
            return Err(Errno::BadHandle);
        }
        match &mut self.open_files[fh] {
            None => {
                assert(self@ =~= before);
                Err(Errno::BadHandle)
            },
            Some(file) => {
                assert(before.is_open(fh as int));
                let bytes = file.read_at(offset, size);
                proof {
                    let slot = Some(before.files[fh as int]->0.read(offset as int, size as int));
                    assert(self@ =~= before.with_file(fh as int, slot));
                    lemma_with_file_inv(before, fh as int, slot);
                }
                Ok(bytes)
            },
        }
    }

    /// Carries a read as far as the buffer allows.
    pub fn read(&mut self, reading: &mut Reading) -> (step: ReadStep)
        requires
            old(self).wf(),
            old(reading).wf(),
        ensures
            final(self).wf(),
            final(reading).wf(),
            final(reading).fh == old(reading).fh,
            final(reading).offset == old(reading).offset,
            final(reading).size == old(reading).size,
            ({
                let fh = old(reading).fh as int;
                let file = old(self)@.files[fh]->0;
                let next = old(reading).offset + old(reading).got@.len();
                let missing = old(reading).size - old(reading).got@.len();
                let got = old(reading).got@ + file.found(next, missing);
                match step {
                    ReadStep::Done(bytes) => {
                        &&& old(self)@.is_open(fh)
                        &&& file.completes(next, missing)
                        &&& bytes@ == got
                        &&& final(reading).got@ == Seq::<u8>::empty()
                        &&& final(self)@ == old(self)@.with_file(fh, Some(file.read(next, missing)))
                    },
                    ReadStep::Wait => {
                        &&& old(self)@.is_open(fh)
                        &&& !file.completes(next, missing)
                        &&& final(reading).got@ == got
                        &&& final(self)@ == old(self)@.with_file(fh, Some(file.read(next, missing)))
                    },
                    ReadStep::Fail(errno) => {
                        &&& !old(self)@.is_open(fh)
                        &&& errno == Errno::BadHandle
                        &&& final(reading).got@ == old(reading).got@
                        &&& final(self)@ == old(self)@
                    },
                }
            }),
            step is Fail <==> !(old(reading).fh < old(self).open_files@.len() && old(
                self,
            ).open_files@[old(reading).fh as int] is Some),
            // However long it takes: a read that has come to what the source has so
            // far gives what the source has, or goes on from there.
            forall|content: Seq<u8>|
                #![trigger content.len()]
                ({
                    let file = old(self)@.files[old(reading).fh as int]->0;
                    let start = file.pos - file.behind;
                    let from = min(old(reading).offset as int, content.len() as int);
                    let got = old(reading).got@;
                    &&& step !is Fail
                    &&& content.len() == file.size
                    &&& start + file.buffer.len() <= content.len()
                    &&& file.buffer == content.subrange(start, start + file.buffer.len())
                    &&& from + got.len() <= content.len()
                    &&& got == content.subrange(from, from + got.len())
                }) ==> ({
                    let offset = old(reading).offset as int;
                    let size = old(reading).size as int;
                    let from = min(offset, content.len() as int);
                    let got = final(reading).got@;
                    let file = final(self)@.files[old(reading).fh as int]->0;
                    let start = file.pos - file.behind;
                    &&& start + file.buffer.len() <= content.len()
                    &&& file.buffer == content.subrange(start, start + file.buffer.len())
                    &&& step matches ReadStep::Done(bytes) ==> bytes@ == content.subrange(
                        from,
                        min(offset + size, content.len() as int),
                    )
                    &&& step is Wait ==> {
                        &&& offset + got.len() < content.len()
                        &&& got == content.subrange(from, from + got.len())
                        &&& !(start <= offset + got.len() < start + file.buffer.len())
                    }
                }),
    {
        let ghost before = self@;
        let next: u64 = reading.offset + reading.got.len() as u64;
        let missing: u32 = reading.size - reading.got.len() as u32;
        match self.inner_read(reading.fh, next, missing) {
            Err(errno) => ReadStep::Fail(errno),
            Ok(None) => {
                assert(reading.got@ + Seq::<u8>::empty() =~= reading.got@);
                proof {
                    lemma_reading_on(before, reading.fh as int, *old(reading));
                }
                ReadStep::Wait
            },
            Ok(Some(bytes)) => {
                append_bytes(&mut reading.got, bytes.as_slice());
                proof {
                    lemma_reading_on(before, reading.fh as int, *old(reading));
                }
                if bytes.len() == missing as usize || self.is_at_end(
                    reading.fh,
                    next + bytes.len() as u64,
                ) {
                    let mut got: Vec<u8> = Vec::new();
                    std::mem::swap(&mut got, &mut reading.got);
                    ReadStep::Done(got)
                } else {
                    ReadStep::Wait
                }
            },
        }
    }

    /// Whether an offset is at or beyond the end of an open file.
    fn is_at_end(&self, fh: usize, offset: u64) -> (yes: bool)
        requires
            self@.is_open(fh as int),
        ensures
            yes == (offset >= self@.files[fh as int]->0.size),
    {
        match &self.open_files[fh] {
            Some(file) => offset >= file.file_size,
            None => true,
        }
    }
}

} // verus!
