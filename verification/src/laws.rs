//! What holds of the caches whatever is done with them.

use crossbeam_channel::{Receiver, Sender};
use vstd::math::min;
use vstd::prelude::*;

use crate::attr::{FileKind, Metadata, BLOCK_SIZE};
use crate::dingus::{
    entries_view, files_view, fresh_caches, lemma_looked_up_inv, root_path, Dingus, DingusView,
    ROOT_INODE,
};
use crate::errno::Errno;
use crate::file::{fresh_file, least, RoraFileView, BUFFER_AHEAD};
use crate::file_laws::{
    law_feed_keeps_content, law_feed_takes_what_follows, law_read_gives_content,
    law_waiting_is_most_urgent,
};
use crate::fs::{is_lookup_of, told_once, FS};
use crate::handles::{lemma_with_file_inv, Reading};
use crate::path::{canonical, joined};
use crate::path_laws::{is_name, law_join_tells_names_apart};
use crate::request::{
    is_channel, is_same_way, leads_to, never_full, sent_through, Message, Reply, Request,
};
use crate::worker::{
    is_left_out, is_servable, leaves_time, Polled, Scan, ServiceJob, Work,
};

verus! {

/// Whether `got` is what `content` has from `offset` on.
pub open spec fn is_read_of(content: Seq<u8>, offset: int, got: Seq<u8>) -> bool {
    let from = least(offset, content.len() as int);
    &&& from + got.len() <= content.len()
    &&& got == content.subrange(from, from + got.len())
}

/// However often a read has to wait, what it gives in the end is what the source
/// has there, all of it up to the end of the file; and it only ever waits for
/// bytes that the source has.
pub proof fn law_read_is_like_source<H>(
    file: RoraFileView<H>,
    content: Seq<u8>,
    offset: int,
    size: int,
    got: Seq<u8>,
)
    requires
        file.wf(),
        file.reflects(content),
        0 <= offset,
        got.len() <= size,
        is_read_of(content, offset, got),
    ensures
        ({
            let next = offset + got.len();
            let missing = size - got.len();
            let more = got + file.found(next, missing);
            &&& file.read(next, missing).reflects(content)
            &&& more.len() <= size
            &&& is_read_of(content, offset, more)
            &&& if file.completes(next, missing) {
                more == content.subrange(
                    least(offset, content.len() as int),
                    least(offset + size, content.len() as int),
                )
            } else {
                offset + more.len() < content.len()
            }
        }),
{
    let next = offset + got.len();
    let missing = size - got.len();
    let found = file.found(next, missing);
    let more = got + found;
    law_read_gives_content(file, next, missing, content);
    let from = least(offset, content.len() as int);
    if next < content.len() {
        assert(more =~= content.subrange(from, from + more.len()));
    } else {
        assert(more =~= got);
    }
}

/// Whether the buffers of all open files hold what their sources have.
pub open spec fn mirrors<H>(caches: DingusView<H>, source: spec_fn(int) -> Seq<u8>) -> bool {
    forall|fh: int| #[trigger] caches.is_open(fh) ==> caches.files[fh]->0.reflects(source(fh))
}

/// Buffers stay right whatever the kernel's side does: reading from a file,
/// closing it, opening another; and so they do while paths are looked up,
/// directories are listed, or a file is taken to be read ahead.
pub proof fn law_buffers_stay_right<H>(
    caches: DingusView<H>,
    source: spec_fn(int) -> Seq<u8>,
    fh: int,
    file: RoraFileView<H>,
    offset: int,
    count: int,
    path: Seq<u8>,
    metadata: Metadata,
    uid: u32,
    gid: u32,
    now: u64,
    ino: u64,
    entries: Seq<(u64, Seq<u8>)>,
)
    requires
        caches.inv(),
        mirrors(caches, source),
        0 <= fh <= caches.files.len(),
        0 <= offset,
        0 <= count,
    ensures
        caches.is_open(fh) ==> mirrors(
            caches.with_file(fh, Some(caches.files[fh]->0.read(offset, count))),
            source,
        ),
        mirrors(caches.with_file(fh, None), source),
        file.reflects(source(fh)) ==> mirrors(caches.with_file(fh, Some(file)), source),
        caches.is_open(fh) ==> mirrors(caches.taken(fh), source),
        mirrors(caches.looked_up(path, metadata, uid, gid, now), source),
        mirrors(caches.listed(ino, entries, now), source),
{
    let read = caches.files[fh]->0.read(offset, count);
    if caches.is_open(fh) {
        law_read_gives_content(caches.files[fh]->0, offset, count, source(fh));
        lemma_mirrors_with_file(caches, source, fh, Some(read));
        let taken = RoraFileView { underlying_file: None, ..caches.files[fh]->0 };
        assert(taken.reflects(source(fh)));
        lemma_mirrors_with_file(caches, source, fh, Some(taken));
    }
    lemma_mirrors_with_file(caches, source, fh, None);
    if file.reflects(source(fh)) {
        lemma_mirrors_with_file(caches, source, fh, Some(file));
    }
    let found = caches.looked_up(path, metadata, uid, gid, now);
    assert forall|other: int| #[trigger] found.is_open(other) implies found.files[
        other
    ]->0.reflects(source(other)) by {
        assert(caches.is_open(other));
    }
    let listed = caches.listed(ino, entries, now);
    assert forall|other: int| #[trigger] listed.is_open(other) implies listed.files[
        other
    ]->0.reflects(source(other)) by {
        assert(caches.is_open(other));
    }
}

/// Buffers stay right when what is under one handle is right.
proof fn lemma_mirrors_with_file<H>(
    caches: DingusView<H>,
    source: spec_fn(int) -> Seq<u8>,
    fh: int,
    slot: Option<RoraFileView<H>>,
)
    requires
        mirrors(caches, source),
        0 <= fh <= caches.files.len(),
        slot is Some ==> slot->0.reflects(source(fh)),
    ensures
        mirrors(caches.with_file(fh, slot), source),
{
    let after = caches.with_file(fh, slot);
    assert forall|other: int| #[trigger] after.is_open(other) implies after.files[
        other
    ]->0.reflects(source(other)) by {
        if other != fh {
            assert(caches.is_open(other));
        }
    }
}

/// Reading ahead never makes a buffer wrong, as long as the bytes are those that
/// the source has, and touches no other file.
pub proof fn law_service_keeps_content<H>(
    caches: DingusView<H>,
    job: ServiceJob<H>,
    bytes: Seq<u8>,
    source: spec_fn(int) -> Seq<u8>,
)
    requires
        caches.inv(),
        caches.is_serving(job),
        mirrors(caches, source),
        bytes.len() <= job.amount,
        !caches.at_hand(job.fh as int) ==> bytes == source(job.fh as int).subrange(
            job.offset as int,
            job.offset + bytes.len(),
        ),
    ensures
        forall|fh: int| #[trigger]
            caches.served(job, bytes).is_open(fh) <==> caches.is_open(fh),
        mirrors(caches.served(job, bytes), source),
        forall|fh: int|
            fh != job.fh && #[trigger] caches.is_open(fh) ==> caches.served(job, bytes).files[fh]
                == caches.files[fh],
{
    let slot = job.fh as int;
    let after = caches.served(job, bytes);
    assert(caches.at_hand(slot) || !caches.at_hand(slot));
    if caches.is_open(slot) && caches.files[slot]->0.ino == job.ino
        && caches.files[slot]->0.underlying_file is None {
        let file = RoraFileView {
            underlying_file: Some((job.handle, (job.offset + bytes.len()) as u64)),
            ..caches.files[slot]->0
        };
        assert(file.reflects(source(slot)));
        law_feed_keeps_content(file, job.offset as int, bytes, source(slot));
        lemma_with_file_inv(caches, slot, Some(file.fed(job.offset as int, bytes)));
    }
    assert forall|fh: int| #[trigger] after.is_open(fh) implies after.files[fh]->0.reflects(
        source(fh),
    ) by {
        assert(caches.is_open(fh));
    }
}

/// A file that was closed while it was read ahead, even one that was opened again
/// under the same handle, gets none of the bytes.
pub proof fn law_service_spares_new_files<H>(
    caches: DingusView<H>,
    job: ServiceJob<H>,
    bytes: Seq<u8>,
)
    requires
        caches.is_serving(job),
        caches.at_hand(job.fh as int),
    ensures
        caches.served(job, bytes) == caches,
{
}

/// Whatever else happens while a file is read ahead, the job can be handed in:
/// files may be opened, read and closed, paths looked up, directories listed.
pub proof fn law_service_survives<H>(
    caches: DingusView<H>,
    job: ServiceJob<H>,
    fh: int,
    path: Seq<u8>,
    ino: u64,
    size: u64,
    handle: H,
    offset: int,
    count: int,
    metadata: Metadata,
    uid: u32,
    gid: u32,
    now: u64,
    entries: Seq<(u64, Seq<u8>)>,
)
    requires
        caches.inv(),
        caches.is_serving(job),
        0 <= fh <= caches.files.len(),
    ensures
        caches.with_file(fh, None).is_serving(job),
        caches.with_file(fh, Some(fresh_file(path, ino, size, handle))).is_serving(job),
        caches.is_open(fh) ==> caches.with_file(
            fh,
            Some(caches.files[fh]->0.read(offset, count)),
        ).is_serving(job),
        caches.looked_up(path, metadata, uid, gid, now).is_serving(job),
        caches.listed(ino, entries, now).is_serving(job),
{
    let slots = seq![
        None,
        Some(fresh_file(path, ino, size, handle)),
        Some(caches.files[fh]->0.read(offset, count)),
    ];
    assert forall|i: int| 0 <= i < 3 && (i == 2 ==> caches.is_open(fh)) implies (
    #[trigger] caches.with_file(fh, slots[i])).is_serving(job) by {
        let after = caches.with_file(fh, slots[i]);
        assert forall|other: int| other != job.fh implies #[trigger] after.at_hand(other) by {
            assert(caches.at_hand(other));
        }
        assert(!after.at_hand(job.fh as int) ==> !caches.at_hand(job.fh as int));
    }
    assert(caches.with_file(fh, slots[0]).is_serving(job));
    assert(caches.with_file(fh, slots[1]).is_serving(job));
    assert(caches.is_open(fh) ==> caches.with_file(fh, slots[2]).is_serving(job));
    let found = caches.looked_up(path, metadata, uid, gid, now);
    let listed = caches.listed(ino, entries, now);
    assert forall|other: int| other != job.fh implies #[trigger] found.at_hand(other) by {
        assert(caches.at_hand(other));
    }
    assert(found.at_hand(job.fh as int) == caches.at_hand(job.fh as int));
    assert forall|other: int| other != job.fh implies #[trigger] listed.at_hand(other) by {
        assert(caches.at_hand(other));
    }
    assert(listed.at_hand(job.fh as int) == caches.at_hand(job.fh as int));
}

/// A reader that has to wait is not forgotten: there is then something to read
/// ahead, and the file that is served is the reader's, or one under a lower
/// handle that lacks as much.
pub proof fn law_waiting_is_served<H>(caches: DingusView<H>, fh: int, offset: int, count: int)
    requires
        caches.inv(),
        caches.is_open(fh),
        0 <= offset,
        caches.files[fh]->0.must_fetch(offset),
    ensures
        ({
            let after = caches.with_file(fh, Some(caches.files[fh]->0.read(offset, count)));
            &&& after.wanted_at(fh) == BUFFER_AHEAD
            &&& !after.is_content()
            &&& forall|served: int| #[trigger]
                after.is_neediest(served) ==> served <= fh && after.wanted_at(served)
                    == BUFFER_AHEAD
        }),
{
    let file = caches.files[fh]->0;
    let after = caches.with_file(fh, Some(file.read(offset, count)));
    law_waiting_is_most_urgent(file, file, offset);
    assert(after.is_open(fh));
    assert(after.wanted_at(fh) == BUFFER_AHEAD);
    assert forall|served: int| #[trigger] after.is_neediest(served) implies served <= fh
        && after.wanted_at(served) == BUFFER_AHEAD by {
        assert(after.wanted_at(fh) <= after.wanted_at(served));
        if after.is_open(served) && served != fh {
            assert(caches.is_open(served));
            law_waiting_is_most_urgent(file, caches.files[served]->0, offset);
        }
    }
}

/// The file that is served is the one that is closest to running out of buffer,
/// among those that have anything left to be buffered.
pub proof fn law_neediest_is_closest_to_running_out<H>(
    caches: DingusView<H>,
    served: int,
    other: int,
)
    requires
        caches.inv(),
        caches.is_neediest(served),
        caches.is_open(other),
        caches.files[other]->0.end() < caches.files[other]->0.size,
    ensures
        caches.is_open(served),
        caches.files[served]->0.ahead() <= caches.files[other]->0.ahead(),
{
    assert(caches.wanted_at(other) <= caches.wanted_at(served));
}

/// What is done with one open file makes no difference to any other, nor to what
/// is remembered.
pub proof fn law_files_are_separate<H>(
    caches: DingusView<H>,
    fh: int,
    slot: Option<RoraFileView<H>>,
    other: int,
)
    requires
        0 <= fh <= caches.files.len(),
        other != fh,
    ensures
        caches.with_file(fh, slot).is_open(other) == caches.is_open(other),
        caches.is_open(other) ==> caches.with_file(fh, slot).files[other] == caches.files[other],
        caches.with_file(fh, slot) == (DingusView {
            files: caches.with_file(fh, slot).files,
            ..caches
        }),
{
}

/// A file gets a handle that no open file has; closing it gives the handle back
/// and leaves the others as they were.
pub proof fn law_closing_undoes_opening<H>(
    caches: DingusView<H>,
    fh: int,
    file: RoraFileView<H>,
    other: int,
)
    requires
        caches.is_next_handle(fh),
    ensures
        !caches.is_open(fh),
        caches.with_file(fh, Some(file)).is_open(fh),
        caches.with_file(fh, Some(file)).files[fh] == Some(file),
        ({
            let after = caches.with_file(fh, Some(file)).with_file(fh, None);
            &&& after.is_open(other) == caches.is_open(other)
            &&& caches.is_open(other) ==> after.files[other] == caches.files[other]
            &&& after.is_next_handle(fh)
            &&& fh < caches.files.len() ==> after == caches
        }),
{
    let after = caches.with_file(fh, Some(file)).with_file(fh, None);
    assert forall|lower: int| 0 <= lower < fh implies #[trigger] after.is_open(lower) by {
        assert(caches.is_open(lower));
    }
    if fh < caches.files.len() {
        assert(after.files =~= caches.files);
    }
}

/// The caches start in order, with the root as the first inode and nothing
/// looked up.
pub proof fn law_fresh_caches<H>()
    ensures
        fresh_caches::<H>().inv(),
        fresh_caches::<H>().inode_of(root_path()) == ROOT_INODE,
        fresh_caches::<H>().is_idle(),
        fresh_caches::<H>().is_content(),
{
}

/// The root is the first inode, whatever was looked up.
pub proof fn law_root_is_first<H>(caches: DingusView<H>)
    requires
        caches.inv(),
    ensures
        caches.inode_of(root_path()) == 1,
        caches.paths[1] == root_path(),
{
    assert(caches.paths.contains_key(ROOT_INODE));
}

/// A path keeps the inode that it has. A new one gets the next in sequence.
pub proof fn law_inodes_are_sequential<H>(
    caches: DingusView<H>,
    path: Seq<u8>,
    metadata: Metadata,
    uid: u32,
    gid: u32,
    now: u64,
    other: Seq<u8>,
)
    requires
        caches.inv(),
        caches.has_inode_for(path),
    ensures
        ({
            let after = caches.looked_up(path, metadata, uid, gid, now);
            &&& after.inv()
            &&& after.inodes.contains_key(canonical(path))
            &&& after.inode_of(path) == caches.inode_of(path)
            &&& caches.inodes.contains_key(canonical(other)) ==> after.inode_of(other)
                == caches.inode_of(other)
            &&& if caches.inodes.contains_key(canonical(path)) {
                after.next_inode == caches.next_inode
            } else {
                &&& after.inode_of(path) == caches.next_inode
                &&& after.next_inode == caches.next_inode + 1
            }
        }),
{
    lemma_looked_up_inv(caches, path, metadata, uid, gid, now);
}

/// Two paths have one inode exactly when they are the same path.
pub proof fn law_inodes_tell_paths_apart<H>(caches: DingusView<H>, a: Seq<u8>, b: Seq<u8>)
    requires
        caches.inv(),
        caches.inodes.contains_key(canonical(a)),
        caches.inodes.contains_key(canonical(b)),
    ensures
        caches.inode_of(a) == caches.inode_of(b) <==> canonical(a) == canonical(b),
{
}

/// Two names in one directory have one inode exactly when they are the same name.
pub proof fn law_names_have_own_inodes<H>(
    caches: DingusView<H>,
    parent: u64,
    a: Seq<u8>,
    b: Seq<u8>,
)
    requires
        caches.inv(),
        caches.paths.contains_key(parent),
        is_name(a),
        is_name(b),
        caches.inodes.contains_key(canonical(caches.child_path(parent, a))),
        caches.inodes.contains_key(canonical(caches.child_path(parent, b))),
    ensures
        caches.inode_of(caches.child_path(parent, a)) == caches.inode_of(
            caches.child_path(parent, b),
        ) <==> a == b,
{
    let base = caches.paths[parent];
    law_join_tells_names_apart(base, base, a, b);
    law_inodes_tell_paths_apart(caches, joined(base, a), joined(base, b));
}

/// A listing agrees with lookups: a name in it has the inode that it is listed
/// with, and attributes that say so.
pub proof fn law_listing_agrees_with_lookup<H>(caches: DingusView<H>, dir: u64, k: int)
    requires
        caches.inv(),
        caches.readdirs.contains_key(dir),
        0 <= k < caches.readdirs[dir].entries.len(),
    ensures
        ({
            let (ino, name) = caches.readdirs[dir].entries[k];
            let path = caches.child_path(dir, name);
            &&& caches.paths.contains_key(dir)
            &&& caches.inode_of(path) == ino
            &&& caches.known_at(path) is Some
            &&& caches.known_at(path)->0.attr.ino == ino
            &&& caches.known(ino) == caches.known_at(path)
        }),
{
    let (ino, name) = caches.readdirs[dir].entries[k];
    assert(caches.is_entry(dir, ino, name));
}

/// What was looked up is remembered, under the inode of its path; nothing that
/// was remembered about another path is lost or changed.
pub proof fn law_lookups_are_kept<H>(
    caches: DingusView<H>,
    path: Seq<u8>,
    metadata: Metadata,
    uid: u32,
    gid: u32,
    now: u64,
    other: Seq<u8>,
)
    requires
        caches.inv(),
        caches.has_inode_for(path),
        canonical(other) != canonical(path),
    ensures
        ({
            let after = caches.looked_up(path, metadata, uid, gid, now);
            let ino = caches.inode_of(path);
            &&& after.known_at(path) is Some
            &&& after.known_at(path)->0.attr == metadata.attributes(ino, uid, gid)
            &&& after.known(ino) == after.known_at(path)
            &&& after.known_at(other) == caches.known_at(other)
            &&& after.readdirs == caches.readdirs
            &&& after.files == caches.files
        }),
{
    lemma_looked_up_inv(caches, path, metadata, uid, gid, now);
    let after = caches.looked_up(path, metadata, uid, gid, now);
    assert(after.inodes.contains_key(canonical(path)));
}

/// The generation of a path is 1, except right after a lookup that found other
/// attributes than the one before it: then it is 2.
pub proof fn law_generation_tells_change<H>(
    caches: DingusView<H>,
    path: Seq<u8>,
    metadata: Metadata,
    uid: u32,
    gid: u32,
    now: u64,
)
    requires
        caches.inv(),
        caches.has_inode_for(path),
    ensures
        ({
            let after = caches.looked_up(path, metadata, uid, gid, now);
            let attr = metadata.attributes(caches.inode_of(path), uid, gid);
            &&& after.known_at(path)->0.generation == (if caches.known_at(path) is Some
                && caches.known_at(path)->0.attr != attr {
                2
            } else {
                1int
            })
            &&& after.looked_up(path, metadata, uid, gid, now).known_at(path)->0.generation == 1
        }),
{
    lemma_looked_up_inv(caches, path, metadata, uid, gid, now);
    let after = caches.looked_up(path, metadata, uid, gid, now);
    assert(caches.inodes.contains_key(canonical(path)) ==> caches.inodes[canonical(path)].1 == 1);
    assert(after.inodes.contains_key(canonical(path)));
    assert(after.inode_of(path) == caches.inode_of(path));
}

/// Permissions are flat: nobody may write, everybody may read, and everybody may
/// execute exactly if somebody may. Everything belongs to the given user and
/// group.
pub proof fn law_permissions_are_flat(metadata: Metadata, ino: u64, uid: u32, gid: u32)
    ensures
        ({
            let attr = metadata.attributes(ino, uid, gid);
            &&& attr.perm == 0o555 <==> metadata.mode & 0o111 != 0
            &&& attr.perm == 0o444 <==> metadata.mode & 0o111 == 0
            &&& attr.perm & 0o222 == 0
            &&& attr.uid == uid && attr.gid == gid
        }),
{
    assert(0o555u16 & 0o222 == 0) by (bit_vector);
    assert(0o444u16 & 0o222 == 0) by (bit_vector);
}

/// The blocks that are told are the fewest that hold the file.
pub proof fn law_blocks_hold_file(metadata: Metadata, ino: u64, uid: u32, gid: u32)
    requires
        metadata.is_usable(),
    ensures
        ({
            let attr = metadata.attributes(ino, uid, gid);
            attr.blocks * BLOCK_SIZE - BLOCK_SIZE < attr.size <= attr.blocks * BLOCK_SIZE
        }),
{
}

/// The target of a symbolic link that was read once is never read again: nothing
/// that asks the worker something forgets it.
pub proof fn law_targets_are_kept(before: FS, after: FS, ino: u64)
    requires
        after.only_sent(before),
    ensures
        after.target(ino) == before.target(ino),
{
}

/// While a directory is gone through, files can be opened, read, served and
/// closed, and paths can be looked up and other directories listed: the scan can
/// go on after each of these.
pub proof fn law_scan_survives<H>(
    caches: DingusView<H>,
    scan: Scan,
    fh: int,
    slot: Option<RoraFileView<H>>,
    path: Seq<u8>,
    metadata: Metadata,
    uid: u32,
    gid: u32,
    ino: u64,
    entries: Seq<(u64, Seq<u8>)>,
    now: u64,
)
    requires
        caches.inv(),
        caches.is_scanning(scan),
    ensures
        caches.with_file(fh, slot).is_scanning(scan),
        caches.looked_up(path, metadata, uid, gid, now).is_scanning(scan),
        caches.listed(ino, entries, now).is_scanning(scan),
{
    let found = entries_view(scan.red@);
    let filed = caches.with_file(fh, slot);
    let looked = caches.looked_up(path, metadata, uid, gid, now);
    let listed = caches.listed(ino, entries, now);
    assert forall|k: int| 0 <= k < found.len() implies {
        &&& filed.is_entry(scan.ino, (#[trigger] found[k]).0, found[k].1)
        &&& looked.is_entry(scan.ino, found[k].0, found[k].1)
        &&& listed.is_entry(scan.ino, found[k].0, found[k].1)
    } by {
        assert(caches.is_entry(scan.ino, found[k].0, found[k].1));
    }
}

/// Being asked to notice something never fails: where there is nothing to serve,
/// the answer is given at once. (Serving a file never fails either, see
/// [`Dingus::finish_service`](crate::dingus::Dingus::finish_service).)
pub proof fn law_bump_never_fails<H>(caches: DingusView<H>, work: Work<H>)
    requires
        caches.calls_for(Request::Bump, work),
    ensures
        work matches Work::Answer(reply) && reply is Ok,
{
}

/// The mathematical view of the caches leaves nothing out and makes nothing up.
pub proof fn law_caches_are_as_seen<H>(dingus: Dingus<H>)
    ensures
        dingus@.files.len() == dingus.open_files@.len(),
        forall|fh: int|
            0 <= fh < dingus.open_files@.len() ==> {
                &&& #[trigger] dingus@.files[fh] is Some <==> dingus.open_files@[fh] is Some
                &&& dingus@.files[fh] is Some ==> dingus@.files[fh]->0
                    == dingus.open_files@[fh]->0@
            },
        forall|fh: int| #[trigger]
            dingus@.is_open(fh) <==> 0 <= fh < dingus.open_files@.len()
                && dingus.open_files@[fh] is Some,
        forall|ino: u64| #[trigger]
            dingus@.paths.contains_key(ino) <==> dingus.paths_for_inodes@.contains_key(ino),
        forall|ino: u64|
            dingus.paths_for_inodes@.contains_key(ino) ==> #[trigger] dingus@.paths[ino]
                == dingus.paths_for_inodes@[ino]@,
        forall|dir: u64| #[trigger]
            dingus@.readdirs.contains_key(dir) <==> dingus.readdirs@.contains_key(dir),
        forall|dir: u64|
            dingus.readdirs@.contains_key(dir) ==> {
                let seen = #[trigger] dingus@.readdirs[dir];
                let held = dingus.readdirs@[dir];
                &&& seen.expires == held.expires
                &&& seen.entries.len() == held.entries@.len()
                &&& forall|k: int|
                    0 <= k < held.entries@.len() ==> (#[trigger] seen.entries[k]).0
                        == held.entries@[k].0 && seen.entries[k].1 == held.entries@[k].1@
            },
        dingus@.lookups == dingus.lookups@,
        dingus@.inodes == dingus.inodes_for_paths@,
        dingus@.next_inode == dingus.next_inode,
{
    assert(dingus@.files == files_view(dingus.open_files@));
}

/// However often it has to wait, a read gives what the source has at the offset
/// that it was asked for, as much as it was asked for, up to the end of the file;
/// and while it waits, it has what the source has from that offset on.
pub proof fn law_reading_is_like_source<H>(
    file: RoraFileView<H>,
    content: Seq<u8>,
    reading: Reading,
)
    requires
        file.wf(),
        file.pos - file.behind + file.buffer.len() <= content.len(),
        content.len() == file.size,
        file.buffer == content.subrange(
            file.pos - file.behind,
            file.pos - file.behind + file.buffer.len(),
        ),
        reading.got@.len() <= reading.size,
        min(reading.offset as int, content.len() as int) + reading.got@.len() <= content.len(),
        reading.got@ == content.subrange(
            min(reading.offset as int, content.len() as int),
            min(reading.offset as int, content.len() as int) + reading.got@.len(),
        ),
    ensures
        ({
            let from = min(reading.offset as int, content.len() as int);
            let got = reading.got@ + file.found(reading.next(), reading.missing());
            let after = file.read(reading.next(), reading.missing());
            let start = after.pos - after.behind;
            &&& start + after.buffer.len() <= content.len()
            &&& after.buffer == content.subrange(start, start + after.buffer.len())
            &&& if file.completes(reading.next(), reading.missing()) {
                got == content.subrange(
                    from,
                    min(reading.offset + reading.size, content.len() as int),
                )
            } else {
                &&& reading.offset + got.len() < content.len()
                &&& got == content.subrange(from, from + got.len())
                &&& !(start <= reading.offset + got.len() < start + after.buffer.len())
            }
        }),
{
    assert(file.reflects(content));
    law_read_is_like_source(
        file,
        content,
        reading.offset as int,
        reading.size as int,
        reading.got@,
    );
}

/// A worker that has nothing else to do reads ahead until every open file is
/// buffered up to its end or 512 MiB ahead.
pub proof fn law_idle_means_all_is_buffered<H>(caches: DingusView<H>)
    ensures
        caches.is_content() <==> forall|fh: int|
            #![trigger caches.files[fh]]
            0 <= fh < caches.files.len() && caches.files[fh] is Some ==> {
                let file = caches.files[fh]->0;
                ||| file.buffer.len() - file.behind >= 536_870_912
                ||| file.pos - file.behind + file.buffer.len() >= file.size
            },
{
    if caches.is_content() {
        assert forall|fh: int|
            #![trigger caches.files[fh]]
            0 <= fh < caches.files.len() && caches.files[fh] is Some implies {
            let file = caches.files[fh]->0;
            ||| file.buffer.len() - file.behind >= 536_870_912
            ||| file.pos - file.behind + file.buffer.len() >= file.size
        } by {
            assert(caches.is_open(fh));
            assert(caches.wanted_at(fh) == 0);
        }
    }
    if forall|fh: int|
        #![trigger caches.files[fh]]
        0 <= fh < caches.files.len() && caches.files[fh] is Some ==> {
            let file = caches.files[fh]->0;
            ||| file.buffer.len() - file.behind >= 536_870_912
            ||| file.pos - file.behind + file.buffer.len() >= file.size
        } {
        assert forall|fh: int| #[trigger] caches.wanted_at(fh) == 0 by {
            if caches.is_open(fh) {
                assert(caches.files[fh] is Some);
            }
        }
    }
}

/// The file that is read ahead is one that is neither buffered up to its end nor
/// 512 MiB ahead. Of these it has the fewest bytes ahead, and the lowest handle
/// among equals.
pub proof fn law_served_has_fewest_ahead<H>(caches: DingusView<H>, fh: int)
    requires
        caches.inv(),
    ensures
        caches.is_neediest(fh) <==> 0 <= fh < caches.files.len() && caches.files[fh] is Some && {
            let file = caches.files[fh]->0;
            let ahead = file.buffer.len() - file.behind;
            &&& ahead < 536_870_912
            &&& file.pos - file.behind + file.buffer.len() < file.size
            &&& forall|other: int|
                #![trigger caches.files[other]]
                0 <= other < caches.files.len() && caches.files[other] is Some ==> {
                    let rival = caches.files[other]->0;
                    ||| rival.pos - rival.behind + rival.buffer.len() >= rival.size
                    ||| rival.buffer.len() - rival.behind > ahead
                    ||| rival.buffer.len() - rival.behind == ahead && other >= fh
                }
        },
{
    if caches.is_neediest(fh) {
        assert forall|other: int|
            #![trigger caches.files[other]]
            0 <= other < caches.files.len() && caches.files[other] is Some implies {
            let rival = caches.files[other]->0;
            let ahead = caches.files[fh]->0.buffer.len() - caches.files[fh]->0.behind;
            ||| rival.pos - rival.behind + rival.buffer.len() >= rival.size
            ||| rival.buffer.len() - rival.behind > ahead
            ||| rival.buffer.len() - rival.behind == ahead && other >= fh
        } by {
            assert(caches.is_open(other));
            assert(caches.wanted_at(other) <= caches.wanted_at(fh));
            if other < fh {
                assert(caches.wanted_at(other) < caches.wanted_at(fh));
            }
        }
    }
    if 0 <= fh < caches.files.len() && caches.files[fh] is Some && {
        let file = caches.files[fh]->0;
        let ahead = file.buffer.len() - file.behind;
        &&& ahead < 536_870_912
        &&& file.pos - file.behind + file.buffer.len() < file.size
        &&& forall|other: int|
            #![trigger caches.files[other]]
            0 <= other < caches.files.len() && caches.files[other] is Some ==> {
                let rival = caches.files[other]->0;
                ||| rival.pos - rival.behind + rival.buffer.len() >= rival.size
                ||| rival.buffer.len() - rival.behind > ahead
                ||| rival.buffer.len() - rival.behind == ahead && other >= fh
            }
    } {
        assert(caches.is_open(fh));
        assert forall|other: int| #[trigger] caches.wanted_at(other) <= caches.wanted_at(fh) by {
            if caches.is_open(other) {
                assert(caches.files[other] is Some);
            }
        }
        assert forall|other: int| other < fh implies #[trigger] caches.wanted_at(other)
            < caches.wanted_at(fh) by {
            if caches.is_open(other) {
                assert(caches.files[other] is Some);
            }
        }
    }
}

/// A job reads on where the buffer of its file ends, 32 KiB or up to the end of
/// the file.
pub proof fn law_job_reads_on<H>(caches: DingusView<H>, job: ServiceJob<H>)
    requires
        caches.is_job(job),
    ensures
        ({
            let file = caches.files[job.fh as int]->0;
            let end = file.pos - file.behind + file.buffer.len();
            &&& 0 <= job.fh < caches.files.len()
            &&& caches.files[job.fh as int] is Some
            &&& job.ino == file.ino
            &&& file.underlying_file == Some((job.handle, job.pos))
            &&& job.offset == end
            &&& job.amount == min(32_768, file.size - end)
        }),
{
}

/// While a file is read ahead, only what it is read through is missing.
pub proof fn law_taking_takes_only_the_handle<H>(caches: DingusView<H>, fh: int)
    requires
        0 <= fh < caches.files.len(),
        caches.files[fh] is Some,
    ensures
        ({
            let after = caches.taken(fh);
            let file = caches.files[fh]->0;
            &&& after.files.len() == caches.files.len()
            &&& after.files[fh] is Some
            &&& after.files[fh]->0.underlying_file is None
            &&& after.files[fh]->0.path == file.path
            &&& after.files[fh]->0.ino == file.ino
            &&& after.files[fh]->0.pos == file.pos
            &&& after.files[fh]->0.behind == file.behind
            &&& after.files[fh]->0.size == file.size
            &&& after.files[fh]->0.buffer == file.buffer
            &&& forall|other: int|
                0 <= other < caches.files.len() && other != fh ==> #[trigger] after.files[other]
                    == caches.files[other]
            &&& after.paths == caches.paths && after.inodes == caches.inodes
            &&& after.lookups == caches.lookups && after.readdirs == caches.readdirs
        }),
{
}

/// The bytes that a job gave are all buffered, right behind what was, unless the
/// file was sought elsewhere meanwhile; and the file can be read from again, where
/// the job left off.
pub proof fn law_served_bytes_are_buffered<H>(
    caches: DingusView<H>,
    job: ServiceJob<H>,
    bytes: Seq<u8>,
)
    requires
        caches.inv(),
        caches.is_serving(job),
        bytes.len() <= job.amount,
    ensures
        ({
            let fh = job.fh as int;
            let before = caches.files[fh]->0;
            let after = caches.served(job, bytes).files[fh]->0;
            let end = before.pos - before.behind + before.buffer.len();
            let is_due = {
                &&& 0 <= fh < caches.files.len()
                &&& caches.files[fh] is Some
                &&& before.ino == job.ino
                &&& before.underlying_file is None
            };
            &&& !is_due ==> caches.served(job, bytes) == caches
            &&& is_due ==> {
                &&& caches.served(job, bytes).files.len() == caches.files.len()
                &&& caches.served(job, bytes).files[fh] is Some
                &&& after.underlying_file == Some((job.handle, (job.offset + bytes.len()) as u64))
                &&& after.size == before.size && after.ino == before.ino
                &&& job.offset != end ==> after.buffer == before.buffer && after.pos == before.pos
                    && after.behind == before.behind
                &&& job.offset == end ==> {
                    let all = before.buffer + bytes;
                    &&& after.pos - after.behind + after.buffer.len() == end + bytes.len()
                    &&& after.buffer.len() == min(all.len() as int, 805_306_368)
                    &&& after.buffer == all.skip(all.len() - after.buffer.len())
                }
            }
        }),
{
    let fh = job.fh as int;
    if caches.is_open(fh) && caches.files[fh]->0.ino == job.ino
        && caches.files[fh]->0.underlying_file is None {
        let before = caches.files[fh]->0;
        let file = RoraFileView {
            underlying_file: Some((job.handle, (job.offset + bytes.len()) as u64)),
            ..before
        };
        law_feed_takes_what_follows(file, job.offset as int, bytes);
    }
}

/// Serving a file brings it closer to its end: a job that gives all its bytes,
/// while nothing else happens, leaves less to be read than before, and none of
/// what was not read yet is lost. So reading ahead comes to an end, and only when
/// enough is buffered.
pub proof fn law_service_makes_progress<H>(
    caches: DingusView<H>,
    job: ServiceJob<H>,
    bytes: Seq<u8>,
)
    requires
        caches.inv(),
        caches.is_neediest(job.fh as int),
        caches.is_job(job),
        caches.taken(job.fh as int).is_serving(job),
        bytes.len() == job.amount,
    ensures
        ({
            let fh = job.fh as int;
            let before = caches.files[fh]->0;
            let after = caches.taken(fh).served(job, bytes).files[fh]->0;
            let end = before.pos - before.behind + before.buffer.len();
            &&& bytes.len() > 0
            &&& after.pos - after.behind + after.buffer.len() == end + bytes.len()
            &&& end + bytes.len() <= before.size
            &&& after.pos == before.pos
            &&& after.buffer.len() - after.behind == before.buffer.len() - before.behind
                + bytes.len()
        }),
{
    let fh = job.fh as int;
    assert(caches.wanted_at(fh) > 0);
    assert(caches.is_open(fh));
}

/// After a directory was listed, its listing has exactly what was found in it, in
/// the order in which it was found, for ten minutes. No other listing changes, nor
/// anything else.
pub proof fn law_listing_holds_all_that_was_found<H>(
    caches: DingusView<H>,
    scan: Scan,
    now: u64,
    other: u64,
)
    requires
        now + 600_000_000_000 <= u64::MAX,
    ensures
        ({
            let after = caches.listed(scan.ino, entries_view(scan.red@), now);
            &&& after.readdirs.contains_key(scan.ino)
            &&& after.readdirs[scan.ino].entries.len() == scan.red@.len()
            &&& forall|k: int|
                0 <= k < scan.red@.len() ==> {
                    &&& (#[trigger] after.readdirs[scan.ino].entries[k]).0 == scan.red@[k].0
                    &&& after.readdirs[scan.ino].entries[k].1 == scan.red@[k].1@
                }
            &&& after.readdirs[scan.ino].expires == now + 600_000_000_000
            &&& other != scan.ino ==> {
                &&& after.readdirs.contains_key(other) == caches.readdirs.contains_key(other)
                &&& caches.readdirs.contains_key(other) ==> after.readdirs[other]
                    == caches.readdirs[other]
            }
            &&& after.paths == caches.paths && after.inodes == caches.inodes
            &&& after.lookups == caches.lookups && after.files == caches.files
            &&& after.next_inode == caches.next_inode
        }),
{
}

/// Whatever is found in a directory is listed, unless it is `.` or `..`: hidden
/// files are, and so are names of any length.
pub proof fn law_only_dots_are_left_out(name: Seq<u8>)
    ensures
        name.len() == 0 ==> !is_left_out(name),
        name.len() == 1 ==> (is_left_out(name) <==> name[0] == 0x2e),
        name.len() == 2 ==> (is_left_out(name) <==> name[0] == 0x2e && name[1] == 0x2e),
        name.len() > 2 ==> !is_left_out(name),
{
    let dot: Seq<u8> = seq![0x2e];
    let dots: Seq<u8> = seq![0x2e, 0x2e];
    assert(dot.len() == 1 && dots.len() == 2);
    if name.len() == 1 && name[0] == 0x2e {
        assert(name =~= dot);
    }
    if name.len() == 2 && name[0] == 0x2e && name[1] == 0x2e {
        assert(name =~= dots);
    }
}

/// What was looked up as a directory can be listed, and nothing else can.
pub proof fn law_directories_can_be_listed<H>(caches: DingusView<H>, ino: u64)
    ensures
        caches.list_error(ino) is None <==> {
            &&& caches.paths.contains_key(ino)
            &&& caches.lookups.contains_key(canonical(caches.paths[ino]))
            &&& caches.lookups[canonical(caches.paths[ino])].attr.kind == FileKind::Directory
        },
        caches.list_error(ino) == Some(Errno::NoEntry) <==> !caches.paths.contains_key(ino),
        caches.list_error(ino) is Some ==> caches.list_error(ino)->0 == Errno::NoEntry
            || caches.list_error(ino)->0 == Errno::NotDirectory,
{
}

/// What was looked up as a regular file can be opened, whatever its permissions,
/// size and other attributes are, and nothing else can.
pub proof fn law_regular_files_can_be_opened<H>(caches: DingusView<H>, ino: u64)
    ensures
        ({
            let is_known = caches.lookups.contains_key(canonical(caches.paths[ino]));
            let kind = caches.lookups[canonical(caches.paths[ino])].attr.kind;
            &&& !caches.paths.contains_key(ino) ==> caches.open_error(ino) == Some(Errno::NoEntry)
            &&& caches.paths.contains_key(ino) && !is_known ==> caches.open_error(ino) == Some(
                Errno::Io,
            )
            &&& caches.paths.contains_key(ino) && is_known ==> {
                &&& kind == FileKind::RegularFile ==> caches.open_error(ino) is None
                &&& kind == FileKind::Directory ==> caches.open_error(ino) == Some(
                    Errno::IsDirectory,
                )
                &&& kind == FileKind::Symlink ==> caches.open_error(ino) == Some(Errno::Invalid)
            }
        }),
{
}

/// A file that the source has can be opened as soon as it was looked up, and the
/// plan is for the size that the source gave.
pub proof fn law_files_that_were_looked_up_can_be_opened<H>(
    caches: DingusView<H>,
    path: Seq<u8>,
    metadata: Metadata,
    uid: u32,
    gid: u32,
    now: u64,
)
    requires
        caches.inv(),
        caches.has_inode_for(path),
    ensures
        ({
            let after = caches.looked_up(path, metadata, uid, gid, now);
            let ino = caches.inode_of(path);
            &&& !metadata.is_dir && !metadata.is_symlink ==> after.open_error(ino) is None
            &&& metadata.is_dir && !metadata.is_symlink ==> after.list_error(ino) is None
            &&& metadata.is_dir || metadata.is_symlink ==> after.open_error(ino) is Some
            &&& !metadata.is_dir || metadata.is_symlink ==> after.list_error(ino) is Some
            &&& canonical(after.paths[ino]) == canonical(path)
            &&& after.lookups[canonical(path)].attr.size == metadata.size
        }),
{
    lemma_looked_up_inv(caches, path, metadata, uid, gid, now);
    let after = caches.looked_up(path, metadata, uid, gid, now);
    assert(after.inodes.contains_key(canonical(path)));
}

/// Looking a path up changes what is known about that path, and about nothing
/// else. A path that had an inode keeps it, with the spelling that it was first
/// looked up with; another one gets the next.
pub proof fn law_looking_up_is_remembered<H>(
    caches: DingusView<H>,
    path: Seq<u8>,
    metadata: Metadata,
    uid: u32,
    gid: u32,
    now: u64,
    other: Seq<u8>,
    ino: u64,
)
    requires
        caches.inv(),
        caches.inodes.contains_key(canonical(path)) || caches.next_inode < u64::MAX,
        now + 600_000_000_000 <= u64::MAX,
    ensures
        caches.has_inode_for(path),
        ({
            let key = canonical(path);
            let after = caches.looked_up(path, metadata, uid, gid, now);
            let own = after.lookups[key].attr.ino;
            &&& after.lookups.contains_key(key)
            &&& after.lookups[key].expires == now + 600_000_000_000
            &&& after.lookups[key].attr == metadata.attributes(own, uid, gid)
            &&& after.inodes.contains_key(key)
            &&& after.inodes[key].0 == own
            &&& after.paths.contains_key(own)
            &&& if caches.inodes.contains_key(key) {
                &&& own == caches.inodes[key].0
                &&& after.paths == caches.paths
                &&& after.inodes == caches.inodes
                &&& after.next_inode == caches.next_inode
            } else {
                &&& own == caches.next_inode
                &&& after.paths[own] == path
                &&& after.next_inode == caches.next_inode + 1
                &&& ino != own ==> after.paths.contains_key(ino) == caches.paths.contains_key(ino)
                    && after.paths[ino] == caches.paths[ino]
                &&& other != key ==> after.inodes.contains_key(other)
                    == caches.inodes.contains_key(other) && after.inodes[other]
                    == caches.inodes[other]
            }
            &&& other != key ==> after.lookups.contains_key(other)
                == caches.lookups.contains_key(other) && after.lookups[other]
                == caches.lookups[other]
            &&& after.readdirs == caches.readdirs
            &&& after.files == caches.files
        }),
{
    lemma_looked_up_inv(caches, path, metadata, uid, gid, now);
}

/// Inodes run out only when all of them are given out.
pub proof fn law_there_are_inodes_enough<H>(caches: DingusView<H>, path: Seq<u8>)
    ensures
        caches.has_inode_for(path) <==> caches.inodes.contains_key(canonical(path))
            || caches.next_inode < u64::MAX,
        caches.inodes.contains_key(canonical(path)) ==> caches.inode_of(path)
            == caches.inodes[canonical(path)].0,
        !caches.inodes.contains_key(canonical(path)) ==> caches.inode_of(path)
            == caches.next_inode,
{
}

/// What is known about an inode is what was remembered about its path; what is
/// known about a name in a directory, what was remembered about the path that
/// ends in that name.
pub proof fn law_memory_is_by_path<H>(
    caches: DingusView<H>,
    ino: u64,
    name: Seq<u8>,
    path: Seq<u8>,
)
    ensures
        caches.known_at(path) is Some <==> caches.lookups.contains_key(canonical(path)),
        caches.known_at(path) is Some ==> caches.known_at(path)->0 == caches.lookups[
            canonical(path)
        ],
        caches.known(ino) is Some <==> caches.paths.contains_key(ino)
            && caches.lookups.contains_key(canonical(caches.paths[ino])),
        caches.known(ino) is Some ==> caches.known(ino)->0 == caches.lookups[
            canonical(caches.paths[ino])
        ],
        caches.child_path(ino, name) == joined(caches.paths[ino], name),
{
}

/// At the start nothing is known but the root's inode.
pub proof fn law_nothing_is_known_at_first<H>(path: Seq<u8>, ino: u64)
    ensures
        ({
            let caches = fresh_caches::<H>();
            &&& !caches.lookups.contains_key(path)
            &&& !caches.readdirs.contains_key(ino)
            &&& caches.files.len() == 0
            &&& caches.paths.contains_key(ino) <==> ino == 1
            &&& caches.paths[1].len() == 1 && caches.paths[1][0] == 0x2e
            &&& caches.next_inode == 2
        }),
{
}

/// A handle is in use exactly if there is a file under it, and a new file gets the
/// lowest that is not.
pub proof fn law_handles_are_lowest_free<H>(caches: DingusView<H>, fh: int)
    ensures
        caches.is_open(fh) <==> 0 <= fh < caches.files.len() && caches.files[fh] is Some,
        caches.is_next_handle(fh) ==> {
            &&& 0 <= fh <= caches.files.len()
            &&& fh < caches.files.len() ==> caches.files[fh] is None
            &&& forall|lower: int| 0 <= lower < fh ==> #[trigger] caches.files[lower] is Some
        },
{
    if caches.is_next_handle(fh) {
        assert forall|lower: int| 0 <= lower < fh implies #[trigger] caches.files[lower] is Some by {
            assert(caches.is_open(lower));
        }
    }
}

/// What is put under a handle is under that handle, and everything else is where
/// it was.
pub proof fn law_handles_hold_what_is_put_there<H>(
    caches: DingusView<H>,
    fh: int,
    slot: Option<RoraFileView<H>>,
)
    requires
        0 <= fh <= caches.files.len(),
    ensures
        ({
            let after = caches.with_file(fh, slot);
            &&& after.files.len() == (if fh == caches.files.len() {
                caches.files.len() + 1
            } else {
                caches.files.len()
            })
            &&& after.files[fh] == slot
            &&& forall|other: int|
                0 <= other < caches.files.len() && other != fh ==> #[trigger] after.files[other]
                    == caches.files[other]
            &&& after.paths == caches.paths && after.inodes == caches.inodes
            &&& after.lookups == caches.lookups && after.readdirs == caches.readdirs
            &&& after.next_inode == caches.next_inode
        }),
{
}

/// Nothing is being read ahead exactly if every open file has what it is read
/// through.
pub proof fn law_idle_means_all_at_hand<H>(caches: DingusView<H>)
    ensures
        caches.is_idle() <==> forall|fh: int|
            #![trigger caches.files[fh]]
            0 <= fh < caches.files.len() && caches.files[fh] is Some
                ==> caches.files[fh]->0.underlying_file is Some,
{
    if caches.is_idle() {
        assert forall|fh: int|
            #![trigger caches.files[fh]]
            0 <= fh < caches.files.len()
                && caches.files[fh] is Some implies caches.files[fh]->0.underlying_file is Some by {
            assert(caches.at_hand(fh));
        }
    }
    if forall|fh: int|
        #![trigger caches.files[fh]]
        0 <= fh < caches.files.len() && caches.files[fh] is Some
            ==> caches.files[fh]->0.underlying_file is Some {
        assert forall|fh: int| #[trigger] caches.at_hand(fh) by {
            if caches.is_open(fh) {
                assert(caches.files[fh] is Some);
            }
        }
    }
}

/// A request is met by the work that it names: a lookup by getting the metadata of
/// the very path, a listing by going through the very directory, from its start.
pub proof fn law_requests_are_met<H>(
    caches: DingusView<H>,
    path: Vec<u8>,
    ino: u64,
    lookup: Work<H>,
    listing: Work<H>,
)
    requires
        caches.calls_for(Request::Lookup(path), lookup),
        caches.calls_for(Request::Readdir(ino), listing),
    ensures
        lookup matches Work::Stat(wanted) && wanted@ == path@,
        !caches.paths.contains_key(ino) ==> (listing matches Work::Answer(reply) && reply == Err::<
            (),
            Errno,
        >(Errno::NoEntry)),
        caches.paths.contains_key(ino) ==> {
            let key = canonical(caches.paths[ino]);
            if caches.lookups.contains_key(key) && caches.lookups[key].attr.kind
                == FileKind::Directory {
                listing matches Work::List(scan) && scan.ino == ino && scan.path@
                    == caches.paths[ino] && scan.red@.len() == 0
            } else {
                listing matches Work::Answer(reply) && reply == Err::<(), Errno>(
                    Errno::NotDirectory,
                )
            }
        },
{
}

/// Any request but one to notice something comes before reading ahead, and any
/// path that does not start at the root can be asked for.
pub proof fn law_requests_come_first(polled: Polled, request: Request)
    ensures
        leaves_time(polled) <==> polled is Empty || polled == Polled::Ready(Request::Bump),
        is_servable(request) <==> {
            ||| request is Bump
            ||| request is Readdir
            ||| request matches Request::Lookup(path) && (path@.len() == 0 || path@[0] != 0x2f)
        },
{
}

/// What is said of the requests that are sent says it of their number, their
/// order and what they ask for.
pub proof fn law_one_request_is_one_message(
    before: Seq<Message>,
    after: Seq<Message>,
    request: Request,
    path: Seq<u8>,
)
    ensures
        told_once(before, after) <==> {
            &&& after.len() == before.len() + 1
            &&& forall|i: int| 0 <= i < before.len() ==> after[i] == #[trigger] before[i]
            &&& after.last().1 is None
        },
        is_lookup_of(request, path) <==> (request matches Request::Lookup(asked) && asked@ == path),
{
    if after.len() == before.len() + 1 && forall|i: int|
        0 <= i < before.len() ==> after[i] == #[trigger] before[i] {
        assert(after.drop_last() =~= before);
    }
    if told_once(before, after) {
        assert forall|i: int| 0 <= i < before.len() implies after[i] == #[trigger] before[i] by {
            assert(after.drop_last()[i] == before[i]);
        }
    }
}

/// The target of a link is what was read.
pub proof fn law_targets_are_as_read(fs: FS, ino: u64)
    ensures
        fs.target(ino) is Some <==> fs.readlinks@.contains_key(ino),
        fs.target(ino) is Some ==> fs.target(ino)->0 == fs.readlinks@[ino]@,
{
}

/// What the operating system says is passed on as it is; where it says nothing,
/// something went wrong.
pub proof fn law_errors_are_passed_on(number: i32)
    ensures
        Errno::of_os(Some(number)) == Errno::Os(number),
        Errno::of_os(None) == Errno::Io,
{
}

/// Who asks and waits has sent exactly that one request, with a way to answer it
/// that leads to where the answer is waited for.
pub proof fn law_asking_sends_one_request(
    request: Request,
    before: Seq<Message>,
    after: Seq<Message>,
    rx: Receiver<Reply>,
)
    ensures
        request.was_asked(before, after, rx) <==> {
            &&& after.len() == before.len() + 1
            &&& forall|i: int| 0 <= i < before.len() ==> after[i] == #[trigger] before[i]
            &&& after.last().0 == request
            &&& after.last().1 is Some
            &&& is_channel(after.last().1->0, rx)
        },
{
    if request.was_asked(before, after, rx) {
        let tx = choose|tx: Sender<Reply>|
            #![trigger is_channel(tx, rx)]
            is_channel(tx, rx) && after == before.push((request, Some(tx)));
        assert(after.last() == (request, Some(tx)));
    }
    if after.len() == before.len() + 1 && after.last().0 == request && after.last().1 is Some
        && is_channel(after.last().1->0, rx) && forall|i: int|
        0 <= i < before.len() ==> after[i] == #[trigger] before[i] {
        let tx = after.last().1->0;
        assert(after =~= before.push((request, Some(tx))));
        assert(is_channel(tx, rx));
    }
}

/// Asking the worker something changes nothing on the kernel's side: links, the
/// source directory and where requests go stay what they are.
pub proof fn law_asking_changes_nothing_else(before: FS, after: FS, rx: Receiver<Message>)
    ensures
        after.sent() == sent_through(after.request_tx),
        after.wf() <==> never_full(after.request_tx),
        after.only_sent(before) ==> {
            &&& after.readlinks == before.readlinks
            &&& after.srcpath == before.srcpath
            &&& never_full(after.request_tx) == never_full(before.request_tx)
            &&& leads_to(after.request_tx, rx) == leads_to(before.request_tx, rx)
        },
        is_same_way(before.request_tx, after.request_tx) ==> {
            &&& never_full(after.request_tx) == never_full(before.request_tx)
            &&& leads_to(after.request_tx, rx) == leads_to(before.request_tx, rx)
        },
{
}

} // verus!
