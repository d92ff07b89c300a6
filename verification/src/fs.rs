//! The kernel's side: what is answered to the kernel, and what is asked of the
//! worker for it.

use crossbeam_channel::{Receiver, Sender};
use std::collections::HashMap;
use vstd::prelude::*;

use crate::attr::FileAttr;
use crate::dingus::{root_path, Dingus, DingusView, Lookup};
use crate::errno::Errno;
use crate::path::{canonical, copy_bytes, join, joined, DOT};
use crate::request::{
    is_same_way, leads_to, never_full, request_channel, sent_through, Message, Reply, Request,
};

verus! {

broadcast use vstd::std_specs::hash::group_hash_axioms;

/// There is no worker any more that could be asked something.
#[derive(Debug)]
pub struct WorkerGone;

/// What became of checking something again that is remembered.
#[derive(Clone, Copy, Debug, PartialEq, Eq, Structural)]
pub enum Recheck {
    /// It is not time yet.
    NotDue,
    /// The worker was asked to.
    Asked,
    /// There is no worker any more that could.
    Gone,
}

/// How a lookup is answered.
pub enum LookupStep {
    /// It fails.
    Fail(Errno),
    /// With these attributes and this generation.
    Entry(FileAttr, u64, Recheck),
    /// The worker was asked to look this path up. Its answer is to be handed to
    /// [`Dingus::finish_wait`].
    Wait(Vec<u8>, Receiver<Reply>),
}

/// How opening a directory is answered.
pub enum OpendirStep {
    /// It is open.
    Opened(Recheck),
    /// The worker was asked to list it. Its answer is the answer.
    Wait(Receiver<Reply>),
}

/// How reading a symbolic link is answered.
pub enum ReadlinkStep {
    /// It fails.
    Fail(Errno),
    /// With this target.
    Target(Vec<u8>),
    /// The link at this path has to be read first. What came of that is to be
    /// handed to [`FS::finish_readlink`].
    Read(Vec<u8>),
}

/// Something in a directory.
pub struct DirEntry {
    pub ino: u64,
    /// The offset of what follows.
    pub next: i64,
    pub name: Vec<u8>,
    pub attr: FileAttr,
    pub generation: u64,
}

/// What is told about the filesystem as a whole.
#[derive(Clone, Copy, Debug, PartialEq, Eq, Structural)]
pub struct Statfs {
    pub blocks: u64,
    pub bfree: u64,
    pub bavail: u64,
    pub files: u64,
    pub ffree: u64,
    pub bsize: u32,
    pub namelen: u32,
    pub frsize: u32,
}

/// What the kernel's side has to itself.
pub struct FS {
    /// The targets of the symbolic links that were read.
    pub readlinks: HashMap<u64, Vec<u8>>,
    /// The source directory.
    pub srcpath: Vec<u8>,
    /// Where the worker is asked.
    pub request_tx: Sender<Message>,
}

impl<H> DingusView<H> {
    /// The path of `name` in the directory that has the inode `parent`.
    pub open spec fn child_path(self, parent: u64, name: Seq<u8>) -> Seq<u8> {
        joined(self.paths[parent], name)
    }

    /// What is remembered about the path of an inode, if anything.
    pub open spec fn known(self, ino: u64) -> Option<Lookup> {
        if self.paths.contains_key(ino) {
            self.known_at(self.paths[ino])
        } else {
            None
        }
    }

    /// What is remembered about a path, if anything.
    pub open spec fn known_at(self, path: Seq<u8>) -> Option<Lookup> {
        if self.lookups.contains_key(canonical(path)) {
            Some(self.lookups[canonical(path)])
        } else {
            None
        }
    }
}

/// Whether a request is one to look up `path`.
pub open spec fn is_lookup_of(request: Request, path: Seq<u8>) -> bool {
    request matches Request::Lookup(asked) && asked@ == path
}

/// Whether exactly one message was sent in between, which nobody waits for an
/// answer to.
pub open spec fn told_once(before: Seq<Message>, after: Seq<Message>) -> bool {
    &&& after.len() == before.len() + 1
    &&& after.drop_last() == before
    &&& after.last().1 is None
}

/// Where the answer to a request arrives, given what became of sending it. A
/// request that comes back says that there is no worker any more.
pub fn expect_answer(sent: Result<Receiver<Reply>, Request>) -> (asked: Result<
    Receiver<Reply>,
    WorkerGone,
>)
    ensures
        match sent {
            Ok(rx) => asked == Ok::<Receiver<Reply>, WorkerGone>(rx),
            Err(_) => asked == Err::<Receiver<Reply>, WorkerGone>(WorkerGone),
        },
{
    match sent {
        Ok(rx) => Ok(rx),
        Err(_) => Err(WorkerGone),
    }
}

/// What became of checking something again, given what became of sending the
/// request to do so.
pub fn rechecked(sent: Result<(), Request>) -> (recheck: Recheck)
    ensures
        recheck == (match sent {
            Ok(_) => Recheck::Asked,
            Err(_) => Recheck::Gone,
        }),
{
    match sent {
        Ok(()) => Recheck::Asked,
        Err(_) => Recheck::Gone,
    }
}

impl<H> Dingus<H> {
    /// What is remembered about a path.
    fn recall(&self, path: &[u8]) -> (known: Option<Lookup>)
        requires
            self.wf(),
        ensures
            known == self@.known_at(path@),
    {
        match self.lookups.get(path) {
            Some(lookup) => Some(*lookup),
            None => None,
        }
    }

    /// Answers a lookup after the worker answered the request to look `path` up.
    pub fn finish_wait(&self, path: &[u8], reply: Reply) -> (entry: Result<(FileAttr, u64), Errno>)
        requires
            self.wf(),
        ensures
            match reply {
                Err(errno) => entry == Err::<(FileAttr, u64), Errno>(errno),
                Ok(_) => match self@.known_at(path@) {
                    None => entry == Err::<(FileAttr, u64), Errno>(Errno::NoEntry),
                    Some(lookup) => entry == Ok::<(FileAttr, u64), Errno>(
                        (lookup.attr, lookup.generation),
                    ),
                },
            },
    {
        match reply {
            Err(errno) => Err(errno),
            Ok(()) => match self.recall(path) {
                None => Err(Errno::NoEntry),
                Some(lookup) => Ok((lookup.attr, lookup.generation)),
            },
        }
    }

    /// Answers a request for the attributes of an inode.
    pub fn getattr(&self, ino: u64) -> (attr: Result<FileAttr, Errno>)
        requires
            self.wf(),
        ensures
            attr == (match self@.known(ino) {
                Some(lookup) => Ok::<FileAttr, Errno>(lookup.attr),
                None => Err::<FileAttr, Errno>(Errno::NoEntry),
            }),
    {
        match self.path_of(ino) {
            None => Err(Errno::NoEntry),
            Some(path) => match self.recall(path.as_slice()) {
                Some(lookup) => Ok(lookup.attr),
                None => Err(Errno::NoEntry),
            },
        }
    }

    /// Gives what stands at an offset in the listing of a directory; `None` at
    /// and beyond its end.
    pub fn readdir(&self, ino: u64, offset: i64) -> (entry: Result<Option<DirEntry>, Errno>)
        requires
            self.wf(),
        ensures
            match entry {
                Err(errno) => errno == Errno::Io && !self@.readdirs.contains_key(ino),
                Ok(entry) => {
                    let entries = self@.readdirs[ino].entries;
                    let at = offset as usize;
                    &&& self@.readdirs.contains_key(ino)
                    &&& entry is Some <==> at < entries.len() && offset < i64::MAX
                    &&& entry matches Some(e) ==> {
                        &&& e.ino == entries[at as int].0
                        &&& e.name@ == entries[at as int].1
                        &&& e.next == offset + 1
                        &&& self@.known(e.ino) is Some
                        &&& e.attr == self@.known(e.ino)->0.attr
                        &&& e.generation == self@.known(e.ino)->0.generation
                    }
                },
            },
    {
        let listing = match self.readdirs.get(&ino) {
            Some(listing) => listing,
            None => return Err(Errno::Io),
        };
        #[verifier::truncate]
        let at: usize = offset as usize;
        if at >= listing.entries.len() || offset == i64::MAX {
            return Ok(None);
        }
        let (child, name) = &listing.entries[at];
        proof {
            let entries = self@.readdirs[ino].entries;
            assert(self@.readdirs.contains_key(ino));
            assert(self@.is_entry(ino, entries[at as int].0, entries[at as int].1));
        }
        let path = match self.path_of(*child) {
            Some(path) => path,
            None => return Err(Errno::Io),
        };
        match self.recall(path.as_slice()) {
            Some(lookup) => Ok(
                Some(
                    DirEntry {
                        ino: *child,
                        next: offset + 1,
                        name: copy_bytes(name.as_slice()),
                        attr: lookup.attr,
                        generation: lookup.generation,
                    },
                ),
            ),
            None => Err(Errno::Io),
        }
    }
}

impl FS {
    /// Whether the target of a link was read, and what it is.
    pub open spec fn target(self, ino: u64) -> Option<Seq<u8>> {
        if self.readlinks@.contains_key(ino) {
            Some(self.readlinks@[ino]@)
        } else {
            None
        }
    }

    /// Everything that was sent to the worker.
    pub open spec fn sent(self) -> Seq<Message> {
        sent_through(self.request_tx)
    }

    /// What every operation keeps: asking the worker never has to wait.
    pub open spec fn wf(self) -> bool {
        never_full(self.request_tx)
    }

    /// Whether nothing but what was sent differs.
    pub open spec fn only_sent(self, before: FS) -> bool {
        &&& self.readlinks == before.readlinks
        &&& self.srcpath == before.srcpath
        &&& is_same_way(before.request_tx, self.request_tx)
    }

    /// The kernel's side of a cache for `srcpath`, and where the worker gets its
    /// requests. The first one, which is there already, is to look up the root.
    pub fn new(srcpath: Vec<u8>) -> (halves: (FS, Receiver<Message>))
        ensures
            halves.0.wf(),
            halves.0.srcpath == srcpath,
            forall|ino: u64| #[trigger] halves.0.target(ino) is None,
            leads_to(halves.0.request_tx, halves.1),
            told_once(Seq::<Message>::empty(), halves.0.sent()),
            is_lookup_of(halves.0.sent().last().0, root_path()),
    {
        let (mut tx, rx) = request_channel();
        let mut root: Vec<u8> = Vec::new();
        root.push(DOT);
        assert(root@ =~= root_path());
        Request::Lookup(root).send_ahead(&mut tx, &rx);
        assert(sent_through(tx).drop_last() =~= Seq::<Message>::empty());
        (FS { readlinks: HashMap::new(), srcpath, request_tx: tx }, rx)
    }

    /// The path of a name in a directory, if the directory is known.
    pub fn path_from_inoderef<H>(dingus: &Dingus<H>, parent: u64, filename: &[u8]) -> (path: Result<
        Vec<u8>,
        (),
    >)
        ensures
            match path {
                Ok(path) => dingus@.paths.contains_key(parent) && path@ == dingus@.child_path(
                    parent,
                    filename@,
                ),
                Err(_) => !dingus@.paths.contains_key(parent),
            },
    {
        match dingus.path_of(parent) {
            Some(base) => Ok(join(base.as_slice(), filename)),
            None => Err(()),
        }
    }

    /// Where something below the source directory is.
    pub fn source_of(&self, path: &[u8]) -> (full: Vec<u8>)
        ensures
            full@ == joined(self.srcpath@, path@),
    {
        join(self.srcpath.as_slice(), path)
    }

    /// Answers a lookup, or asks the worker for the answer. What is remembered is
    /// answered even if it is time to check it again; the worker, if there still
    /// is one, is then asked to do so, but not waited for.
    pub fn lookup<H>(&mut self, dingus: &Dingus<H>, parent: u64, name: &[u8], now: u64) -> (step:
        Result<LookupStep, WorkerGone>)
        requires
            old(self).wf(),
            dingus.wf(),
        ensures
            final(self).wf(),
            final(self).only_sent(*old(self)),
            ({
                let path = dingus@.child_path(parent, name@);
                let known = dingus@.known_at(path);
                let is_stale = known is Some && known->0.expires < now;
                match step {
                    Ok(LookupStep::Fail(errno)) => {
                        &&& !dingus@.paths.contains_key(parent)
                        &&& errno == Errno::NoEntry
                        &&& final(self).sent() == old(self).sent()
                    },
                    Ok(LookupStep::Entry(attr, generation, recheck)) => {
                        &&& dingus@.paths.contains_key(parent)
                        &&& known is Some
                        &&& attr == known->0.attr
                        &&& generation == known->0.generation
                        &&& recheck == Recheck::NotDue <==> !is_stale
                        &&& if recheck == Recheck::Asked {
                            &&& told_once(old(self).sent(), final(self).sent())
                            &&& is_lookup_of(final(self).sent().last().0, path)
                        } else {
                            final(self).sent() == old(self).sent()
                        }
                    },
                    Ok(LookupStep::Wait(asked, rx)) => {
                        let after = final(self).sent();
                        &&& dingus@.paths.contains_key(parent)
                        &&& known is None
                        &&& asked@ == path
                        &&& is_lookup_of(after.last().0, path)
                        &&& after.last().0.was_asked(old(self).sent(), after, rx)
                    },
                    Err(_) => {
                        &&& dingus@.paths.contains_key(parent)
                        &&& known is None
                        &&& final(self).sent() == old(self).sent()
                    },
                }
            }),
    {
        let path = match FS::path_from_inoderef(dingus, parent, name) {
            Ok(path) => path,
            Err(_) => return Ok(LookupStep::Fail(Errno::NoEntry)),
        };
        let ghost before = self.sent();
        match dingus.recall(path.as_slice()) {
            None => {
                let asked = copy_bytes(path.as_slice());
                match Request::Lookup(path).send_sync(&mut self.request_tx) {
                    Ok(rx) => Ok(LookupStep::Wait(asked, rx)),
                    Err(_) => Err(WorkerGone),
                }
            },
            Some(lookup) => {
                let recheck = if lookup.expires < now {
                    // send a request to recheck this, but don't wait for it
                    rechecked(Request::Lookup(path).send_async(&mut self.request_tx))
                } else {
                    Recheck::NotDue
                };
                assert(recheck == Recheck::Asked ==> self.sent().drop_last() =~= before);
                Ok(LookupStep::Entry(lookup.attr, lookup.generation, recheck))
            },
        }
    }

    /// Opens a directory, or asks the worker to list it first. A listing that is
    /// remembered serves even if it is time to check it again; the worker is then
    /// asked to do so, but not waited for.
    pub fn opendir<H>(&mut self, dingus: &Dingus<H>, ino: u64, now: u64) -> (step: Result<
        OpendirStep,
        WorkerGone,
    >)
        requires
            old(self).wf(),
        ensures
            final(self).wf(),
            final(self).only_sent(*old(self)),
            ({
                let is_listed = dingus@.readdirs.contains_key(ino);
                let is_stale = is_listed && dingus@.readdirs[ino].expires < now;
                match step {
                    Ok(OpendirStep::Opened(recheck)) => {
                        &&& is_listed
                        &&& recheck == Recheck::NotDue <==> !is_stale
                        &&& if recheck == Recheck::Asked {
                            &&& told_once(old(self).sent(), final(self).sent())
                            &&& final(self).sent().last().0 == Request::Readdir(ino)
                        } else {
                            final(self).sent() == old(self).sent()
                        }
                    },
                    Ok(OpendirStep::Wait(rx)) => {
                        &&& !is_listed
                        &&& Request::Readdir(ino).was_asked(old(self).sent(), final(self).sent(), rx)
                    },
                    Err(_) => {
                        &&& !is_listed
                        &&& final(self).sent() == old(self).sent()
                    },
                }
            }),
    {
        let ghost before = self.sent();
        match dingus.readdirs.get(&ino) {
            Some(listing) => {
                let recheck = if listing.expires < now {
                    // send another request, just in case (but don't wait)
                    rechecked(Request::Readdir(ino).send_async(&mut self.request_tx))
                } else {
                    Recheck::NotDue
                };
                assert(recheck == Recheck::Asked ==> self.sent().drop_last() =~= before);
                Ok(OpendirStep::Opened(recheck))
            },
            None => match Request::Readdir(ino).send_sync(&mut self.request_tx) {
                Ok(rx) => Ok(OpendirStep::Wait(rx)),
                Err(_) => Err(WorkerGone),
            },
        }
    }

    /// Closes a file, and bumps the worker so that its status line can follow.
    pub fn release<H>(&mut self, dingus: &mut Dingus<H>, fh: u64) -> (closed: Result<
        Result<(), Errno>,
        WorkerGone,
    >)
        requires
            old(self).wf(),
            old(dingus).wf(),
        ensures
            final(self).wf(),
            final(self).only_sent(*old(self)),
            final(dingus).wf(),
            if old(dingus)@.is_open(fh as int) {
                &&& final(dingus)@ == old(dingus)@.with_file(fh as int, None)
                &&& match closed {
                    Ok(result) => {
                        &&& result == Ok::<(), Errno>(())
                        &&& told_once(old(self).sent(), final(self).sent())
                        &&& final(self).sent().last().0 == Request::Bump
                    },
                    Err(_) => final(self).sent() == old(self).sent(),
                }
            } else {
                &&& closed == Ok::<Result<(), Errno>, WorkerGone>(
                    Err::<(), Errno>(Errno::BadHandle),
                )
                &&& final(dingus)@ == old(dingus)@
                &&& final(self).sent() == old(self).sent()
            },
    {
        let ghost before = self.sent();
        match dingus.close(fh) {
            Err(errno) => Ok(Err(errno)),
            Ok(()) => {
                if Request::Bump.send_async(&mut self.request_tx).is_err() {
                    return Err(WorkerGone);
                }
                assert(self.sent().drop_last() =~= before);
                Ok(Ok(()))
            },
        }
    }

    /// Asks the worker to read ahead, for a reader that has to wait. When the
    /// answer is there, the reader should try again.
    pub fn bump(&mut self) -> (asked: Result<Receiver<Reply>, WorkerGone>)
        requires
            old(self).wf(),
        ensures
            final(self).wf(),
            final(self).only_sent(*old(self)),
            match asked {
                Ok(rx) => Request::Bump.was_asked(old(self).sent(), final(self).sent(), rx),
                Err(_) => final(self).sent() == old(self).sent(),
            },
    {
        expect_answer(Request::Bump.send_sync(&mut self.request_tx))
    }

    /// Answers a request for the target of a symbolic link, or tells which link
    /// has to be read for that. The worker has no part in this: it is going to be
    /// very rare, and the target is remembered forever.
    pub fn readlink<H>(&self, dingus: &Dingus<H>, ino: u64) -> (step: ReadlinkStep)
        ensures
            match self.target(ino) {
                Some(target) => step matches ReadlinkStep::Target(bytes) && bytes@ == target,
                None => if dingus@.paths.contains_key(ino) {
                    step matches ReadlinkStep::Read(path) && path@ == joined(
                        self.srcpath@,
                        dingus@.paths[ino],
                    )
                } else {
                    step == ReadlinkStep::Fail(Errno::NoEntry)
                },
            },
    {
        if let Some(target) = self.readlinks.get(&ino) {
            return ReadlinkStep::Target(copy_bytes(target.as_slice()));
        }
        match dingus.path_of(ino) {
            None => ReadlinkStep::Fail(Errno::NoEntry),
            Some(path) => ReadlinkStep::Read(self.source_of(path.as_slice())),
        }
    }

    /// Answers a request for the target of a symbolic link after the link was
    /// read. A target is remembered; a refusal, which comes as the number that
    /// the operating system gave for it, is not.
    pub fn finish_readlink(&mut self, ino: u64, outcome: Result<Vec<u8>, i32>) -> (target: Result<
        Vec<u8>,
        Errno,
    >)
        ensures
            final(self).srcpath == old(self).srcpath,
            final(self).request_tx == old(self).request_tx,
            match outcome {
                Ok(bytes) => {
                    &&& target matches Ok(answer) && answer@ == bytes@
                    &&& final(self).target(ino) == Some(bytes@)
                },
                Err(number) => {
                    &&& target == Err::<Vec<u8>, Errno>(Errno::Os(number))
                    &&& final(self).target(ino) == old(self).target(ino)
                },
            },
            forall|other: u64| other != ino ==> final(self).target(other) == #[trigger] old(
                self,
            ).target(other),
    {
        match outcome {
            Err(number) => Err(Errno::Os(number)),
            Ok(bytes) => {
                let answer = copy_bytes(bytes.as_slice());
                self.readlinks.insert(ino, bytes);
                Ok(answer)
            },
        }
    }

    /// Answers a request for facts about the filesystem as a whole. There are
    /// none, but names may be as long as they like.
    pub fn statfs(&self) -> (facts: Statfs)
        ensures
            facts == (Statfs {
                blocks: 0,
                bfree: 0,
                bavail: 0,
                files: 0,
                ffree: 0,
                bsize: 0,
                namelen: u32::MAX,
                frsize: 0,
            }),
    {
        Statfs {
            blocks: 0,
            bfree: 0,
            bavail: 0,
            files: 0,
            ffree: 0,
            bsize: 0,
            namelen: u32::MAX,
            frsize: 0,
        }
    }
}

} // verus!
