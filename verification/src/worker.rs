//! The worker: it looks things up, lists directories, and otherwise reads ahead.
//!
//! The worker polls for requests. Whatever it gets, it asks [`Dingus::on_poll`]
//! or [`Dingus::on_request`] what to do, does it, and hands back what came of it.

use vstd::math::min;
use vstd::prelude::*;

use crate::attr::{FileKind, Metadata};
use crate::dingus::{
    add_lookup, entries_view, Dingus, DingusView, Listing, ListingView, LOOKUP_EXPIRE_TIME,
};
use crate::errno::Errno;
use crate::file::{least, RoraFileView, READ_SIZE};
use crate::handles::lemma_with_file_inv;
use crate::path::{
    canonical, canonicalize, copy_bytes, is_dots, is_rooted, join, joined, same_bytes, DOT,
};
use crate::request::{Reply, Request};

verus! {

broadcast use vstd::std_specs::hash::group_hash_axioms;

/// What polling for a request came to.
pub enum Polled {
    /// There is none at the moment.
    Empty,
    /// Nobody can make requests any more.
    Disconnected,
    /// Here is one.
    Ready(Request),
}

/// A piece of a file that is to be read ahead.
pub struct ServiceJob<H> {
    /// The handle under which the file is open.
    pub fh: usize,
    pub ino: u64,
    /// What the file is read through.
    pub handle: H,
    /// Where that is at the moment.
    pub pos: u64,
    /// Where the bytes to be read start.
    pub offset: u64,
    /// How many of them there are.
    pub amount: usize,
}

impl<H> ServiceJob<H> {
    /// Whether what the file is read through has to be moved first.
    pub fn must_seek(&self) -> (yes: bool)
        ensures
            yes == (self.pos != self.offset),
    {
        self.pos != self.offset
    }
}

/// A directory that is being listed.
pub struct Scan {
    /// The inode of the directory.
    pub ino: u64,
    /// Where the directory is, below the source directory.
    pub path: Vec<u8>,
    /// Inodes and names of what was found in it so far.
    pub red: Vec<(u64, Vec<u8>)>,
}

/// What can happen while a directory is gone through. A refusal comes with the
/// number that the operating system gave for it, if any.
pub enum DirEvent {
    /// The directory cannot be read, or not further.
    Failed(Option<i32>),
    /// There is something of this name, with this metadata.
    Found(Vec<u8>, Result<Metadata, Option<i32>>),
    /// There is nothing more.
    End,
}

/// What the worker does next.
pub enum Work<H> {
    /// Stop for good.
    Stop,
    /// Wait for a request.
    Wait,
    /// Read a piece of a file, and call [`Dingus::finish_service`].
    Service(ServiceJob<H>),
    /// Get the metadata of a path below the source directory, and call
    /// [`Dingus::finish_lookup`].
    Stat(Vec<u8>),
    /// Go through a directory, calling [`Dingus::on_dir_event`] for all that
    /// happens until there is an answer.
    List(Scan),
    /// Answer, if anybody waits for an answer.
    Answer(Reply),
}

impl<H> DingusView<H> {
    /// How many bytes the file under a handle lacks.
    pub open spec fn wanted_at(self, fh: int) -> int {
        if self.is_open(fh) {
            self.files[fh]->0.wanted()
        } else {
            0
        }
    }

    /// Whether the file under a handle is the one to be served: it lacks
    /// something, none lacks more, and none before it lacks as much.
    pub open spec fn is_neediest(self, fh: int) -> bool {
        &&& self.wanted_at(fh) > 0
        &&& forall|other: int| #[trigger] self.wanted_at(other) <= self.wanted_at(fh)
        &&& forall|other: int| other < fh ==> #[trigger] self.wanted_at(other) < self.wanted_at(fh)
    }

    /// Whether no file lacks anything.
    pub open spec fn is_content(self) -> bool {
        forall|fh: int| #[trigger] self.wanted_at(fh) == 0
    }

    /// Whether the file under a handle, if there is one, can be read from.
    pub open spec fn at_hand(self, fh: int) -> bool {
        self.is_open(fh) ==> self.files[fh]->0.underlying_file is Some
    }

    /// Whether no file is being read ahead.
    pub open spec fn is_idle(self) -> bool {
        forall|fh: int| #[trigger] self.at_hand(fh)
    }

    /// Whether the only file that may be being read ahead is the one that the
    /// job is about. It may have been closed meanwhile.
    pub open spec fn is_serving(self, job: ServiceJob<H>) -> bool {
        &&& job.fh < self.files.len()
        &&& forall|fh: int| fh != job.fh ==> #[trigger] self.at_hand(fh)
        &&& !self.at_hand(job.fh as int) ==> {
            let file = self.files[job.fh as int]->0;
            &&& file.ino == job.ino
            &&& job.offset + job.amount <= file.size
        }
        &&& job.offset + job.amount <= u64::MAX
        &&& job.amount <= READ_SIZE
    }

    /// The caches while the file under a handle is being read ahead.
    pub open spec fn taken(self, fh: int) -> Self {
        self.with_file(
            fh,
            Some(RoraFileView { underlying_file: None, ..self.files[fh]->0 }),
        )
    }

    /// Whether a job is the one for the file under its handle.
    pub open spec fn is_job(self, job: ServiceJob<H>) -> bool {
        let file = self.files[job.fh as int]->0;
        &&& self.is_open(job.fh as int)
        &&& job.ino == file.ino
        &&& file.underlying_file == Some((job.handle, job.pos))
        &&& job.offset == file.end()
        &&& job.amount == least(file.size - file.end(), READ_SIZE as int)
    }

    /// The caches after a job was done and gave some bytes. If its file was
    /// closed, or another one got the handle, the bytes are forgotten.
    pub open spec fn served(self, job: ServiceJob<H>, bytes: Seq<u8>) -> Self {
        let fh = job.fh as int;
        if self.is_open(fh) && self.files[fh]->0.ino == job.ino
            && self.files[fh]->0.underlying_file is None {
            let file = RoraFileView {
                underlying_file: Some((job.handle, (job.offset + bytes.len()) as u64)),
                ..self.files[fh]->0
            };
            self.with_file(fh, Some(file.fed(job.offset as int, bytes)))
        } else {
            self
        }
    }

    /// Why an inode cannot be listed, if it cannot.
    pub open spec fn list_error(self, ino: u64) -> Option<Errno> {
        if !self.paths.contains_key(ino) {
            Some(Errno::NoEntry)
        } else if !self.lookups.contains_key(canonical(self.paths[ino])) || self.lookups[canonical(
            self.paths[ino],
        )].attr.kind != FileKind::Directory {
            Some(Errno::NotDirectory)
        } else {
            None
        }
    }

    /// Whether a scan is one of a known directory, and all it found is known.
    pub open spec fn is_scanning(self, scan: Scan) -> bool {
        &&& self.paths.contains_key(scan.ino)
        &&& self.paths[scan.ino] == scan.path@
        &&& self.are_entries(scan.ino, entries_view(scan.red@))
    }

    /// Whether `work` is what a request calls for.
    pub open spec fn calls_for(self, request: Request, work: Work<H>) -> bool {
        match request {
            Request::Lookup(path) => work matches Work::Stat(wanted) && wanted@ == path@,
            Request::Readdir(ino) => match self.list_error(ino) {
                Some(errno) => work matches Work::Answer(reply) && reply == Err::<(), Errno>(errno),
                None => work matches Work::List(scan) && {
                    &&& scan.ino == ino
                    &&& scan.path@ == self.paths[ino]
                    &&& scan.red@.len() == 0
                },
            },
            Request::Bump => work matches Work::Answer(reply) && reply == Ok::<(), Errno>(()),
        }
    }

    /// The caches after a directory was listed at the time `now`.
    pub open spec fn listed(self, ino: u64, entries: Seq<(u64, Seq<u8>)>, now: u64) -> Self {
        let listing = ListingView { expires: (now + LOOKUP_EXPIRE_TIME) as u64, entries };
        DingusView { readdirs: self.readdirs.insert(ino, listing), ..self }
    }
}

/// Whether polling came to nothing that keeps the worker from reading ahead.
pub open spec fn leaves_time(polled: Polled) -> bool {
    match polled {
        Polled::Empty => true,
        Polled::Disconnected => false,
        Polled::Ready(request) => request is Bump,
    }
}

/// Whether something found in a directory is left out of its listing.
pub open spec fn is_left_out(name: Seq<u8>) -> bool {
    name == seq![DOT] || name == seq![DOT, DOT]
}

/// Whether a request is one that the worker can be asked: paths to look up do
/// not start at the root.
pub open spec fn is_servable(request: Request) -> bool {
    request matches Request::Lookup(path) ==> !is_rooted(path@)
}

impl<H> Dingus<H> {
    /// Finds the file that is to be served, if any lacks anything.
    fn neediest(&self) -> (found: Option<usize>)
        requires
            self.wf(),
        ensures
            match found {
                Some(fh) => self@.is_neediest(fh as int),
                None => self@.is_content(),
            },
    {
        let mut found: Option<usize> = None;
        let mut most: usize = 0;
        let mut i: usize = 0;
        while i < self.open_files.len()
            invariant
                self.wf(),
                i <= self.open_files.len(),
                match found {
                    Some(fh) => {
                        &&& fh < i
                        &&& most == self@.wanted_at(fh as int)
                        &&& most > 0
                        &&& forall|j: int| j < fh ==> #[trigger] self@.wanted_at(j) < most
                    },
                    None => most == 0,
                },
                forall|j: int| j < i ==> #[trigger] self@.wanted_at(j) <= most,
                most == 0 ==> found is None,
            decreases self.open_files.len() - i,
        {
            if let Some(file) = &self.open_files[i] {
                assert(self@.is_open(i as int));
                let amount = file.needs_service();
                if amount > most {
                    found = Some(i);
                    most = amount;
                }
            }
            i = i + 1;
        }
        found
    }

    /// Whether no file is being read ahead.
    pub fn all_at_hand(&self) -> (yes: bool)
        ensures
            yes == self@.is_idle(),
    {
        self.others_at_hand(self.open_files.len())
    }

    /// Whether no file but possibly the one under `fh` is being read ahead.
    fn others_at_hand(&self, fh: usize) -> (yes: bool)
        ensures
            yes == (forall|other: int| other != fh ==> #[trigger] self@.at_hand(other)),
            fh >= self.open_files.len() ==> yes == self@.is_idle(),
    {
        let mut i: usize = 0;
        while i < self.open_files.len()
            invariant
                i <= self.open_files.len(),
                forall|other: int| other < i && other != fh ==> #[trigger] self@.at_hand(other),
            decreases self.open_files.len() - i,
        {
            if i != fh {
                if let Some(file) = &self.open_files[i] {
                    if file.underlying_file.is_none() {
                        assert(!self@.at_hand(i as int));
                        return false;
                    }
                }
                assert(self@.at_hand(i as int));
            }
            i = i + 1;
        }
        assert forall|other: int| other != fh implies #[trigger] self@.at_hand(other) by {
            assert(other < i || !self@.is_open(other));
        }
        assert(fh >= self.open_files.len() ==> self@.at_hand(fh as int));
        true
    }

    /// Whether a job can be handed in.
    pub fn serves(&self, job: &ServiceJob<H>) -> (yes: bool)
        ensures
            yes == self@.is_serving(*job),
    {
        if job.amount > READ_SIZE || job.offset > u64::MAX - job.amount as u64 {
            return false;
        }
        if job.fh >= self.open_files.len() || !self.others_at_hand(job.fh) {
            return false;
        }
        match &self.open_files[job.fh] {
            Some(file) => file.underlying_file.is_some() || (file.ino == job.ino && job.offset
                + job.amount as u64 <= file.file_size),
            None => true,
        }
    }

    /// Decides what to do after polling for a request. Requests to look something
    /// up or to list something come first; otherwise the neediest file is served.
    pub fn on_poll(&mut self, polled: Polled) -> (work: Work<H>)
        requires
            old(self).wf(),
            leaves_time(polled) ==> old(self)@.is_idle(),
            polled matches Polled::Ready(request) ==> is_servable(request),
        ensures
            final(self).wf(),
            match polled {
                Polled::Disconnected => work is Stop && final(self)@ == old(self)@,
                Polled::Ready(request) if !leaves_time(polled) => {
                    &&& old(self)@.calls_for(request, work)
                    &&& final(self)@ == old(self)@
                },
                _ => match work {
                    Work::Service(job) => {
                        &&& old(self)@.is_neediest(job.fh as int)
                        &&& old(self)@.is_job(job)
                        &&& final(self)@ == old(self)@.taken(job.fh as int)
                        &&& final(self)@.is_serving(job)
                    },
                    _ => {
                        &&& old(self)@.is_content()
                        &&& polled is Empty ==> work is Wait
                        &&& polled matches Polled::Ready(request) ==> old(self)@.calls_for(
                            request,
                            work,
                        )
                        &&& final(self)@ == old(self)@
                    },
                },
            },
            // What is idle reads ahead: as long as the buffer of an open file ends
            // before the file does and reaches less than 512 MiB ahead.
            polled is Empty || polled == Polled::Ready(Request::Bump) ==> {
                &&& work is Service <==> exists|fh: int|
                    #![trigger old(self).open_files@[fh]]
                    0 <= fh < old(self).open_files@.len() && {
                        &&& old(self).open_files@[fh] is Some
                        &&& old(self)@.files[fh]->0.ahead() < 536_870_912
                        &&& old(self)@.files[fh]->0.end() < old(self)@.files[fh]->0.size
                    }
                &&& polled is Empty && !(work is Service) ==> work is Wait
                &&& work matches Work::Service(job) ==> {
                    let file = old(self).open_files@[job.fh as int]->0;
                    let end = file.buffer_pos - file.buffered_behind + file.buffer@.len();
                    &&& job.fh < old(self).open_files@.len()
                    &&& old(self).open_files@[job.fh as int] is Some
                    &&& job.ino == file.ino
                    &&& file.underlying_file == Some((job.handle, job.pos))
                    &&& job.offset == end
                    &&& job.amount == min(32_768, file.file_size - end)
                }
            },
    {
        proof {
            self.lemma_lacking();
        }
        match polled {
            Polled::Disconnected => Work::Stop,
            Polled::Ready(Request::Bump) => match self.begin_service() {
                Some(job) => Work::Service(job),
                None => self.on_request(Request::Bump),
            },
            Polled::Ready(request) => self.on_request(request),
            Polled::Empty => match self.begin_service() {
                Some(job) => Work::Service(job),
                None => Work::Wait,
            },
        }
    }

    /// The caches lack nothing exactly if no open file lacks anything.
    proof fn lemma_lacking(self)
        ensures
            self@.is_content() <==> forall|fh: int|
                #![trigger self.open_files@[fh]]
                0 <= fh < self.open_files@.len() && self.open_files@[fh] is Some ==> {
                    ||| self@.files[fh]->0.ahead() >= 536_870_912
                    ||| self@.files[fh]->0.end() >= self@.files[fh]->0.size
                },
            forall|fh: int| #[trigger]
                self@.is_neediest(fh) ==> 0 <= fh < self.open_files@.len()
                    && self.open_files@[fh] is Some && self@.files[fh]->0.ahead() < 536_870_912
                    && self@.files[fh]->0.end() < self@.files[fh]->0.size,
    {
        if forall|fh: int|
            #![trigger self.open_files@[fh]]
            0 <= fh < self.open_files@.len() && self.open_files@[fh] is Some ==> {
                ||| self@.files[fh]->0.ahead() >= 536_870_912
                ||| self@.files[fh]->0.end() >= self@.files[fh]->0.size
            } {
            assert forall|fh: int| #[trigger] self@.wanted_at(fh) == 0 by {
                if self@.is_open(fh) {
                    assert(self.open_files@[fh] is Some);
                }
            }
        }
        if self@.is_content() {
            assert forall|fh: int|
                #![trigger self.open_files@[fh]]
                0 <= fh < self.open_files@.len() && self.open_files@[fh] is Some implies {
                ||| self@.files[fh]->0.ahead() >= 536_870_912
                ||| self@.files[fh]->0.end() >= self@.files[fh]->0.size
            } by {
                assert(self@.is_open(fh));
                assert(self@.wanted_at(fh) == 0);
            }
        }
    }

    /// Decides what to do about a request that is not put off.
    pub fn on_request(&self, request: Request) -> (work: Work<H>)
        requires
            self.wf(),
            is_servable(request),
        ensures
            self@.calls_for(request, work),
    {
        match request {
            Request::Lookup(path) => Work::Stat(path),
            Request::Readdir(ino) => match self.begin_readdir(ino) {
                Ok(scan) => Work::List(scan),
                Err(errno) => Work::Answer(Err(errno)),
            },
            Request::Bump => Work::Answer(Ok(())),
        }
    }

    /// Takes what the neediest file is read through, to read a piece of it.
    pub fn begin_service(&mut self) -> (job: Option<ServiceJob<H>>)
        requires
            old(self).wf(),
            old(self)@.is_idle(),
        ensures
            final(self).wf(),
            match job {
                Some(job) => {
                    &&& old(self)@.is_neediest(job.fh as int)
                    &&& old(self)@.is_job(job)
                    &&& final(self)@ == old(self)@.taken(job.fh as int)
                    &&& final(self)@.is_serving(job)
                },
                None => old(self)@.is_content() && final(self)@ == old(self)@,
            },
    {
        let ghost before = self@;
        let fh: usize = match self.neediest() {
            Some(fh) => fh,
            None => return None,
        };
        assert(before.at_hand(fh as int));
        match &mut self.open_files[fh] {
            None => None,
            Some(file) => match file.underlying_file.take() {
                None => None,
                Some((handle, pos)) => {
                    let offset: u64 = file.buffer_pos - file.buffered_behind as u64
                        + file.buffer.len() as u64;
                    let left: u64 = file.file_size - offset;
                    let amount: usize = if left < READ_SIZE as u64 {
                        left as usize
                    } else {
                        READ_SIZE
                    };
                    let job = ServiceJob { fh, ino: file.ino, handle, pos, offset, amount };
                    proof {
                        let slot = Some(
                            RoraFileView {
                                underlying_file: None,
                                ..before.files[fh as int]->0
                            },
                        );
                        assert(self@ =~= before.taken(fh as int));
                        lemma_with_file_inv(before, fh as int, slot);
                        assert forall|other: int| other != fh implies #[trigger] self@.at_hand(
                            other,
                        ) by {
                            assert(before.at_hand(other));
                            assert(before.is_open(other) == self@.is_open(other));
                        }
                    }
                    Some(job)
                },
            },
        }
    }

    /// Hands in what a job gave: the bytes that were read, and what the file is
    /// read through.
    pub fn finish_service(&mut self, job: ServiceJob<H>, bytes: &[u8]) -> (reply: Reply)
        requires
            old(self).wf(),
            old(self)@.is_serving(job),
            bytes@.len() <= job.amount,
        ensures
            final(self).wf(),
            final(self)@ == old(self)@.served(job, bytes@),
            final(self)@.is_idle(),
            reply == Ok::<(), Errno>(()),
    {
        let ghost before = self@;
        let ghost whole = job;
        let fh: usize = job.fh;
        match &mut self.open_files[fh] {
            None => {
                assert(self@ =~= before);
            },
            Some(file) => {
                assert(before.is_open(fh as int));
                if file.ino == job.ino && file.underlying_file.is_none() {
                    assert(!before.at_hand(fh as int));
                    file.underlying_file = Some((job.handle, job.offset + bytes.len() as u64));
                    file.maybe_accept_moar(job.offset, bytes);
                    proof {
                        assert(self@ =~= before.served(whole, bytes@));
                        lemma_with_file_inv(before, fh as int, self@.files[fh as int]);
                    }
                } else {
                    assert(self@ =~= before);
                }
            },
        }
        proof {
            assert forall|other: int| #[trigger] self@.at_hand(other) by {
                if other != fh {
                    assert(before.at_hand(other));
                    assert(before.is_open(other) == self@.is_open(other));
                }
            }
        }
        Ok(())
    }

    /// Hands in what became of looking a path up, at the time `now`. A refusal
    /// comes with the number that the operating system gave for it, if any, and
    /// is not remembered. A special file is passed off as missing.
    pub fn finish_lookup(
        &mut self,
        path: &[u8],
        outcome: Result<Metadata, Option<i32>>,
        uid: u32,
        gid: u32,
        now: u64,
    ) -> (reply: Reply)
        requires
            old(self).wf(),
            outcome matches Ok(metadata) ==> metadata.is_special() || {
                &&& metadata.is_usable()
                &&& old(self)@.has_inode_for(path@)
                &&& now + LOOKUP_EXPIRE_TIME <= u64::MAX
            },
        ensures
            final(self).wf(),
            match outcome {
                Ok(metadata) => if metadata.is_special() {
                    &&& reply == Err::<(), Errno>(Errno::NoEntry)
                    &&& final(self)@ == old(self)@
                } else {
                    &&& reply == Ok::<(), Errno>(())
                    &&& final(self)@ == old(self)@.looked_up(path@, metadata, uid, gid, now)
                },
                Err(raw) => {
                    &&& reply == Err::<(), Errno>(Errno::of_os(raw))
                    &&& final(self)@ == old(self)@
                },
            },
    {
        match outcome {
            Ok(metadata) => {
                if metadata.is_censored() {
                    return Err(Errno::NoEntry);
                }
                let _ = add_lookup(&metadata, path, self, uid, gid, now);
                Ok(())
            },
            Err(raw) => Err(Errno::from_os(raw)),
        }
    }

    /// Decides whether an inode can be listed.
    pub fn begin_readdir(&self, ino: u64) -> (scan: Result<Scan, Errno>)
        requires
            self.wf(),
        ensures
            match scan {
                Ok(scan) => {
                    &&& self@.list_error(ino) is None
                    &&& scan.ino == ino
                    &&& scan.path@ == self@.paths[ino]
                    &&& scan.red@.len() == 0
                    &&& self@.is_scanning(scan)
                },
                Err(errno) => self@.list_error(ino) == Some(errno),
            },
    {
        let path = match self.path_of(ino) {
            Some(path) => path,
            None => return Err(Errno::NoEntry),
        };
        match self.lookups.get(path.as_slice()) {
            Some(lookup) => if lookup.attr.kind != FileKind::Directory {
                return Err(Errno::NotDirectory);
            },
            None => return Err(Errno::NotDirectory),
        }
        Ok(Scan { ino, path: copy_bytes(path.as_slice()), red: Vec::new() })
    }

    /// Whether an inode is the one of `name` in the directory at `path`, and was
    /// looked up.
    fn has_entry(&self, path: &[u8], ino: u64, name: &[u8]) -> (yes: bool)
        requires
            self.wf(),
        ensures
            yes == {
                &&& self@.paths.contains_key(ino)
                &&& self@.lookups.contains_key(canonical(self@.paths[ino]))
                &&& canonical(self@.paths[ino]) == canonical(joined(path@, name@))
            },
    {
        match self.path_of(ino) {
            None => false,
            Some(known) => {
                let truepath = join(path, name);
                self.lookups.get(known.as_slice()).is_some() && same_bytes(
                    canonicalize(known.as_slice()).as_slice(),
                    canonicalize(truepath.as_slice()).as_slice(),
                )
            },
        }
    }

    /// Whether a scan can go on: it is one of a known directory, and all it found
    /// is known.
    pub fn scans(&self, scan: &Scan) -> (yes: bool)
        requires
            self.wf(),
        ensures
            yes == self@.is_scanning(*scan),
    {
        match self.path_of(scan.ino) {
            None => return false,
            Some(path) => if !same_bytes(path.as_slice(), scan.path.as_slice()) {
                return false;
            },
        }
        let ghost entries = entries_view(scan.red@);
        let mut i: usize = 0;
        while i < scan.red.len()
            invariant
                self.wf(),
                self@.paths.contains_key(scan.ino),
                self@.paths[scan.ino] == scan.path@,
                entries == entries_view(scan.red@),
                i <= scan.red.len(),
                forall|k: int|
                    0 <= k < i ==> self@.is_entry(
                        scan.ino,
                        (#[trigger] entries[k]).0,
                        entries[k].1,
                    ),
            decreases scan.red.len() - i,
        {
            assert(entries[i as int] == (scan.red@[i as int].0, scan.red@[i as int].1@));
            if !self.has_entry(scan.path.as_slice(), scan.red[i].0, scan.red[i].1.as_slice()) {
                return false;
            }
            i = i + 1;
        }
        true
    }

    /// Hands in something that was found in a directory, with its metadata, at
    /// the time `now`.
    fn scan_entry(
        &mut self,
        scan: &mut Scan,
        name: Vec<u8>,
        metadata: &Metadata,
        uid: u32,
        gid: u32,
        now: u64,
    )
        requires
            old(self).wf(),
            old(self)@.is_scanning(*old(scan)),
            metadata.is_usable(),
            !metadata.is_special(),
            old(self)@.has_inode_for(joined(old(scan).path@, name@)),
            now + LOOKUP_EXPIRE_TIME <= u64::MAX,
        ensures
            final(self).wf(),
            final(self)@ == old(self)@.looked_up(
                joined(old(scan).path@, name@),
                *metadata,
                uid,
                gid,
                now,
            ),
            final(self)@.is_scanning(*final(scan)),
            final(scan).ino == old(scan).ino,
            final(scan).path@ == old(scan).path@,
            entries_view(final(scan).red@) == entries_view(old(scan).red@).push(
                (old(self)@.inode_of(joined(old(scan).path@, name@)), name@),
            ),
            final(scan).red@.len() == old(scan).red@.len() + 1,
            final(scan).red@.drop_last() == old(scan).red@,
            final(scan).red@.last().1@ == name@,
            final(self)@.paths.contains_key(final(scan).red@.last().0),
            canonical(final(self)@.paths[final(scan).red@.last().0]) == canonical(
                joined(old(scan).path@, name@),
            ),
            final(self).readdirs@ == old(self).readdirs@,
    {
        let ghost before = self@;
        let ghost found = entries_view(scan.red@);
        let truepath = join(scan.path.as_slice(), name.as_slice());
        let ino = add_lookup(metadata, truepath.as_slice(), self, uid, gid, now);
        scan.red.push((ino, name));
        proof {
            let entries = entries_view(scan.red@);
            assert(entries =~= found.push((ino, name@)));
            assert forall|k: int| 0 <= k < entries.len() implies self@.is_entry(
                scan.ino,
                (#[trigger] entries[k]).0,
                entries[k].1,
            ) by {
                if k < found.len() {
                    assert(before.is_entry(scan.ino, found[k].0, found[k].1));
                }
            }
            assert(scan.red@.drop_last() =~= old(scan).red@);
        }
    }

    /// Decides what to do about something that happened while a directory was
    /// gone through, at the time `now`. Returns the answer to whoever asked for
    /// the listing, if there is one already. A failure leaves the directory
    /// without a new listing. Special files are left out of it.
    pub fn on_dir_event(
        &mut self,
        scan: &mut Scan,
        event: DirEvent,
        uid: u32,
        gid: u32,
        now: u64,
    ) -> (reply: Option<Reply>)
        requires
            old(self).wf(),
            old(self)@.is_scanning(*old(scan)),
            event matches DirEvent::Found(name, Ok(metadata)) ==> is_left_out(name@)
                || metadata.is_special() || {
                &&& metadata.is_usable()
                &&& old(self)@.has_inode_for(joined(old(scan).path@, name@))
                &&& now + LOOKUP_EXPIRE_TIME <= u64::MAX
            },
            event is End ==> now + LOOKUP_EXPIRE_TIME <= u64::MAX,
        ensures
            final(self).wf(),
            final(self)@.is_scanning(*final(scan)),
            final(scan).ino == old(scan).ino,
            final(scan).path@ == old(scan).path@,
            ({
                let found = entries_view(old(scan).red@);
                match event {
                    DirEvent::Failed(raw) => {
                        &&& reply == Some(Err::<(), Errno>(Errno::of_os(raw)))
                        &&& final(self)@ == old(self)@
                        &&& entries_view(final(scan).red@) == found
                    },
                    DirEvent::Found(name, outcome) => if is_left_out(name@) {
                        &&& reply is None
                        &&& final(self)@ == old(self)@
                        &&& entries_view(final(scan).red@) == found
                    } else {
                        match outcome {
                            Err(raw) => {
                                &&& reply == Some(Err::<(), Errno>(Errno::of_os(raw)))
                                &&& final(self)@ == old(self)@
                                &&& entries_view(final(scan).red@) == found
                            },
                            Ok(metadata) => if metadata.is_special() {
                                &&& reply is None
                                &&& final(self)@ == old(self)@
                                &&& entries_view(final(scan).red@) == found
                            } else {
                                let path = joined(old(scan).path@, name@);
                                &&& reply is None
                                &&& final(self)@ == old(self)@.looked_up(
                                    path,
                                    metadata,
                                    uid,
                                    gid,
                                    now,
                                )
                                &&& entries_view(final(scan).red@) == found.push(
                                    (old(self)@.inode_of(path), name@),
                                )
                            },
                        }
                    },
                    DirEvent::End => {
                        &&& reply == Some(Ok::<(), Errno>(()))
                        &&& final(self)@ == old(self)@.listed(old(scan).ino, found, now)
                        &&& final(scan).red@.len() == 0
                    },
                }
            }),
            event is End ==> {
                &&& final(self).readdirs@.contains_key(old(scan).ino)
                &&& final(self).readdirs@[old(scan).ino].entries@ == old(scan).red@
                &&& final(self).readdirs@[old(scan).ino].expires == now + 600_000_000_000
            },
            !(event is End) ==> final(self).readdirs@ == old(self).readdirs@,
            event matches DirEvent::Found(name, Ok(metadata)) ==> if name@ == seq![0x2eu8]
                || name@ == seq![0x2eu8, 0x2eu8] || !(metadata.is_file || metadata.is_dir
                || metadata.is_symlink) {
                final(scan).red@ == old(scan).red@
            } else {
                &&& reply is None
                &&& final(scan).red@.len() == old(scan).red@.len() + 1
                &&& final(scan).red@.drop_last() == old(scan).red@
                &&& final(scan).red@.last().1@ == name@
                &&& final(self)@.paths.contains_key(final(scan).red@.last().0)
                &&& canonical(final(self)@.paths[final(scan).red@.last().0]) == canonical(
                    joined(old(scan).path@, name@),
                )
            },
            event is Failed ==> final(scan).red@ == old(scan).red@,
    {
        match event {
            DirEvent::Failed(raw) => Some(Err(Errno::from_os(raw))),
            DirEvent::Found(name, outcome) => {
                if is_dots(name.as_slice()) {
                    return None;
                }
                match outcome {
                    Err(raw) => Some(Err(Errno::from_os(raw))),
                    Ok(metadata) => {
                        if metadata.is_censored() {
                            return None;
                        }
                        self.scan_entry(scan, name, &metadata, uid, gid, now);
                        None
                    },
                }
            },
            DirEvent::End => {
                let mut red: Vec<(u64, Vec<u8>)> = Vec::new();
                std::mem::swap(&mut red, &mut scan.red);
                self.finish_readdir(scan.ino, red, now);
                Some(Ok(()))
            },
        }
    }

    /// Remembers the listing of a directory, at the time `now`.
    fn finish_readdir(&mut self, ino: u64, red: Vec<(u64, Vec<u8>)>, now: u64)
        requires
            old(self).wf(),
            old(self)@.paths.contains_key(ino),
            old(self)@.are_entries(ino, entries_view(red@)),
            now + LOOKUP_EXPIRE_TIME <= u64::MAX,
        ensures
            final(self).wf(),
            final(self)@ == old(self)@.listed(ino, entries_view(red@), now),
            final(self).readdirs@.contains_key(ino),
            final(self).readdirs@[ino].entries@ == red@,
            final(self).readdirs@[ino].expires == now + 600_000_000_000,
    {
        let ghost before = self@;
        let listing = Listing { expires: now + LOOKUP_EXPIRE_TIME, entries: red };
        self.readdirs.insert(ino, listing);
        proof {
            let after = before.listed(ino, entries_view(red@), now);
            assert(self@ =~= after);
            assert forall|dir: u64| #[trigger] after.readdirs.contains_key(dir) implies {
                &&& after.paths.contains_key(dir)
                &&& after.are_entries(dir, after.readdirs[dir].entries)
            } by {
                let entries = after.readdirs[dir].entries;
                assert forall|k: int| 0 <= k < entries.len() implies after.is_entry(
                    dir,
                    (#[trigger] entries[k]).0,
                    entries[k].1,
                ) by {
                    if dir != ino {
                        assert(before.readdirs.contains_key(dir));
                    }
                    assert(before.is_entry(dir, entries[k].0, entries[k].1));
                }
            }
            assert forall|fh: int| #[trigger] after.is_open(fh) implies after.files[fh]->0.wf()
                && after.files[fh]->0.within() by {
                assert(before.is_open(fh));
            }
        }
    }
}

} // verus!
