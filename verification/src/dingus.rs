//! The caches: inodes, lookups, directory listings and open files.
//!
//! Times are nanoseconds since a moment that the caller picks once and for all.

use std::collections::HashMap;
use vstd::prelude::*;

use crate::attr::{FileAttr, Metadata};
use crate::file::{RoraFile, RoraFileView};
use crate::path::{canonical, copy_bytes, joined, DOT};
use crate::path_map::PathMap;

verus! {

broadcast use vstd::std_specs::hash::group_hash_axioms;

/// Seconds that we tell the kernel our data is good for. We cache for much
/// longer than this, but we want the kernel to come to us with questions...
pub const TIME_TO_LIVE_SECS: u64 = 10;

/// Time after which lookups will be rechecked: ten minutes. The lookups are NOT
/// discarded on recheck!
pub const LOOKUP_EXPIRE_TIME: u64 = 600_000_000_000;

/// The inode of the root of the mount.
pub const ROOT_INODE: u64 = 1;

/// The path of the root of the mount.
pub open spec fn root_path() -> Seq<u8> {
    seq![DOT]
}

/// The remembered contents of a directory.
pub struct Listing {
    /// When the contents are to be checked again.
    pub expires: u64,
    /// Inodes and names.
    pub entries: Vec<(u64, Vec<u8>)>,
}

/// The mathematical view of a listing.
#[verifier::ext_equal]
pub struct ListingView {
    pub expires: u64,
    pub entries: Seq<(u64, Seq<u8>)>,
}

/// Inodes and names as mathematical values.
pub open spec fn entries_view(entries: Seq<(u64, Vec<u8>)>) -> Seq<(u64, Seq<u8>)> {
    entries.map_values(|entry: (u64, Vec<u8>)| (entry.0, entry.1@))
}

impl View for Listing {
    type V = ListingView;

    open spec fn view(&self) -> ListingView {
        ListingView { expires: self.expires, entries: entries_view(self.entries@) }
    }
}

/// What is remembered about a path that was looked up.
#[derive(Clone, Copy)]
pub struct Lookup {
    /// When it is to be checked again.
    pub expires: u64,
    pub attr: FileAttr,
    pub generation: u64,
}

/// All the caches. `H` is what underlying files are read through.
pub struct Dingus<H> {
    /// Maps a path to an (inode, generation) pair.
    pub inodes_for_paths: PathMap<(u64, u64)>,
    pub paths_for_inodes: HashMap<u64, Vec<u8>>,
    pub readdirs: HashMap<u64, Listing>,
    pub lookups: PathMap<Lookup>,
    pub open_files: Vec<Option<RoraFile<H>>>,
    /// The inode that the next new path will get.
    pub next_inode: u64,
}

/// The mathematical view of the caches. Paths as keys are canonical.
#[verifier::ext_equal]
pub struct DingusView<H> {
    pub inodes: Map<Seq<u8>, (u64, u64)>,
    pub paths: Map<u64, Seq<u8>>,
    pub readdirs: Map<u64, ListingView>,
    pub lookups: Map<Seq<u8>, Lookup>,
    pub files: Seq<Option<RoraFileView<H>>>,
    pub next_inode: u64,
}

/// Open files as mathematical values.
pub open spec fn files_view<H>(files: Seq<Option<RoraFile<H>>>) -> Seq<Option<RoraFileView<H>>> {
    files.map_values(
        |slot: Option<RoraFile<H>>|
            match slot {
                Some(file) => Some(file@),
                None => None,
            },
    )
}

impl<H> View for Dingus<H> {
    type V = DingusView<H>;

    open spec fn view(&self) -> DingusView<H> {
        DingusView {
            inodes: self.inodes_for_paths@,
            paths: self.paths_for_inodes@.map_values(|path: Vec<u8>| path@),
            readdirs: self.readdirs@.map_values(|listing: Listing| listing@),
            lookups: self.lookups@,
            files: files_view(self.open_files@),
            next_inode: self.next_inode,
        }
    }
}

impl<H> DingusView<H> {
    /// Inodes and paths belong together one to one, inodes are given out in
    /// sequence, and the root has the first.
    pub open spec fn inodes_match(self) -> bool {
        &&& forall|path: Seq<u8>| #[trigger]
            self.inodes.contains_key(path) ==> {
                &&& self.paths.contains_key(self.inodes[path].0)
                &&& canonical(self.paths[self.inodes[path].0]) == path
                &&& self.inodes[path].1 == 1
            }
        &&& forall|ino: u64| #[trigger]
            self.paths.contains_key(ino) <==> ROOT_INODE <= ino < self.next_inode
        &&& forall|ino: u64| #[trigger]
            self.paths.contains_key(ino) ==> {
                &&& self.inodes.contains_key(canonical(self.paths[ino]))
                &&& self.inodes[canonical(self.paths[ino])].0 == ino
            }
        &&& self.paths.contains_key(ROOT_INODE)
        &&& self.paths[ROOT_INODE] == root_path()
    }

    /// What is remembered about a path is about the inode that the path has.
    pub open spec fn lookups_match(self) -> bool {
        forall|path: Seq<u8>| #[trigger]
            self.lookups.contains_key(path) ==> {
                &&& self.inodes.contains_key(path)
                &&& self.lookups[path].attr.ino == self.inodes[path].0
            }
    }

    /// Whether an inode is the one of `name` in the directory `dir`, and was
    /// looked up.
    pub open spec fn is_entry(self, dir: u64, ino: u64, name: Seq<u8>) -> bool {
        &&& self.paths.contains_key(ino)
        &&& self.lookups.contains_key(canonical(self.paths[ino]))
        &&& canonical(self.paths[ino]) == canonical(joined(self.paths[dir], name))
    }

    /// Whether all of these are entries of the directory `dir`.
    pub open spec fn are_entries(self, dir: u64, entries: Seq<(u64, Seq<u8>)>) -> bool {
        forall|k: int|
            0 <= k < entries.len() ==> self.is_entry(dir, (#[trigger] entries[k]).0, entries[k].1)
    }

    /// Listings are of known directories and hold entries that were looked up.
    pub open spec fn readdirs_match(self) -> bool {
        forall|dir: u64| #[trigger]
            self.readdirs.contains_key(dir) ==> {
                &&& self.paths.contains_key(dir)
                &&& self.are_entries(dir, self.readdirs[dir].entries)
            }
    }

    /// Whether a handle is one of an open file.
    pub open spec fn is_open(self, fh: int) -> bool {
        0 <= fh < self.files.len() && self.files[fh] is Some
    }

    /// The buffers of all open files are in order.
    pub open spec fn files_match(self) -> bool {
        forall|fh: int| #[trigger]
            self.is_open(fh) ==> self.files[fh]->0.wf() && self.files[fh]->0.within()
    }

    /// What every operation keeps.
    pub open spec fn inv(self) -> bool {
        &&& self.inodes_match()
        &&& self.lookups_match()
        &&& self.readdirs_match()
        &&& self.files_match()
    }

    /// The inode that a path has or would get.
    pub open spec fn inode_of(self, path: Seq<u8>) -> u64 {
        if self.inodes.contains_key(canonical(path)) {
            self.inodes[canonical(path)].0
        } else {
            self.next_inode
        }
    }

    /// The generation under which new attributes of a path are passed on. It is
    /// one higher than usual right after the attributes changed.
    pub open spec fn generation_of(self, path: Seq<u8>, attr: FileAttr) -> int {
        let key = canonical(path);
        let usual = if self.inodes.contains_key(key) {
            self.inodes[key].1
        } else {
            1
        };
        if self.lookups.contains_key(key) && self.lookups[key].attr != attr {
            usual + 1
        } else {
            usual as int
        }
    }

    /// The caches with an inode for a path.
    pub open spec fn with_inode(self, path: Seq<u8>) -> Self {
        if self.inodes.contains_key(canonical(path)) {
            self
        } else {
            DingusView {
                inodes: self.inodes.insert(canonical(path), (self.next_inode, 1)),
                paths: self.paths.insert(self.next_inode, path),
                next_inode: (self.next_inode + 1) as u64,
                ..self
            }
        }
    }

    /// The caches after `path` was looked up at the time `now`.
    pub open spec fn looked_up(
        self,
        path: Seq<u8>,
        metadata: Metadata,
        uid: u32,
        gid: u32,
        now: u64,
    ) -> Self {
        let attr = metadata.attributes(self.inode_of(path), uid, gid);
        let lookup = Lookup {
            expires: (now + LOOKUP_EXPIRE_TIME) as u64,
            attr,
            generation: self.generation_of(path, attr) as u64,
        };
        DingusView {
            lookups: self.lookups.insert(canonical(path), lookup),
            ..self.with_inode(path)
        }
    }

    /// Whether there is an inode left for a path.
    pub open spec fn has_inode_for(self, path: Seq<u8>) -> bool {
        self.inodes.contains_key(canonical(path)) || self.next_inode < u64::MAX
    }
}

/// Caches that know nothing but the root's inode.
pub open spec fn fresh_caches<H>() -> DingusView<H> {
    DingusView {
        inodes: Map::<Seq<u8>, (u64, u64)>::empty().insert(canonical(root_path()), (ROOT_INODE, 1)),
        paths: Map::<u64, Seq<u8>>::empty().insert(ROOT_INODE, root_path()),
        readdirs: Map::<u64, ListingView>::empty(),
        lookups: Map::<Seq<u8>, Lookup>::empty(),
        files: Seq::<Option<RoraFileView<H>>>::empty(),
        next_inode: 2,
    }
}

impl<H> Dingus<H> {
    /// What every operation keeps.
    pub open spec fn wf(self) -> bool {
        &&& self.inodes_for_paths.wf()
        &&& self.lookups.wf()
        &&& self@.inv()
    }

    /// Caches that know nothing but the root's inode.
    pub fn new() -> (dingus: Self)
        ensures
            dingus.wf(),
            dingus@ == fresh_caches::<H>(),
    {
        let mut root: Vec<u8> = Vec::new();
        root.push(DOT);
        assert(root@ =~= root_path());
        let mut inodes_for_paths: PathMap<(u64, u64)> = PathMap::new();
        inodes_for_paths.insert(root.as_slice(), (ROOT_INODE, 1));
        let mut paths_for_inodes: HashMap<u64, Vec<u8>> = HashMap::new();
        paths_for_inodes.insert(ROOT_INODE, root);
        let dingus = Dingus {
            inodes_for_paths,
            paths_for_inodes,
            readdirs: HashMap::new(),
            lookups: PathMap::new(),
            open_files: Vec::new(),
            next_inode: 2,
        };
        assert(dingus@ =~= fresh_caches::<H>());
        dingus
    }

    /// The path of an inode.
    pub fn path_of(&self, ino: u64) -> (path: Option<&Vec<u8>>)
        ensures
            match path {
                Some(bytes) => self@.paths.contains_key(ino) && self@.paths[ino] == bytes@,
                None => !self@.paths.contains_key(ino),
            },
    {
        self.paths_for_inodes.get(&ino)
    }

    /// Whether there is an inode left for a path.
    pub fn can_number(&self, path: &[u8]) -> (yes: bool)
        requires
            self.wf(),
        ensures
            yes == self@.has_inode_for(path@),
    {
        self.next_inode < u64::MAX || self.inodes_for_paths.get(path).is_some()
    }
}

/// Remembers what was found out about a path at the time `now`, and gives the
/// path an inode if it has none. Returns the inode.
pub fn add_lookup<H>(
    metadata: &Metadata,
    path: &[u8],
    dingus: &mut Dingus<H>,
    uid: u32,
    gid: u32,
    now: u64,
) -> (ino: u64)
    requires
        old(dingus).wf(),
        metadata.is_usable(),
        !metadata.is_special(),
        old(dingus)@.has_inode_for(path@),
        now + LOOKUP_EXPIRE_TIME <= u64::MAX,
    ensures
        final(dingus).wf(),
        final(dingus)@ == old(dingus)@.looked_up(path@, *metadata, uid, gid, now),
        ino == old(dingus)@.inode_of(path@),
        final(dingus).readdirs == old(dingus).readdirs,
        final(dingus).open_files == old(dingus).open_files,
        final(dingus)@.paths.contains_key(ino),
        canonical(final(dingus)@.paths[ino]) == canonical(path@),
        final(dingus)@.lookups.contains_key(canonical(path@)),
        final(dingus)@.lookups[canonical(path@)].attr.ino == ino,
        final(dingus)@.lookups[canonical(path@)].attr.size == metadata.size,
        final(dingus)@.lookups[canonical(path@)].expires == now + 600_000_000_000,
{
    let ghost before = dingus@;
    let (ino, old_generation): (u64, u64) = match dingus.inodes_for_paths.get(path) {
        Some(known) => *known,
        None => {
            let ino: u64 = dingus.next_inode;
            dingus.inodes_for_paths.insert(path, (ino, 1));
            dingus.paths_for_inodes.insert(ino, copy_bytes(path));
            dingus.next_inode = dingus.next_inode + 1;
            (ino, 1)
        },
    };
    assert(dingus@ =~= before.with_inode(path@));
    let new_attrs = metadata.to_attr(ino, uid, gid);
    let new_generation: u64 = match dingus.lookups.get(path) {
        Some(known) => if known.attr != new_attrs {
            old_generation + 1
        } else {
            old_generation
        },
        None => old_generation,
    };
    let lookup = Lookup {
        expires: now + LOOKUP_EXPIRE_TIME,
        attr: new_attrs,
        generation: new_generation,
    };
    dingus.lookups.insert(path, lookup);
    proof {
        assert(dingus@ =~= before.looked_up(path@, *metadata, uid, gid, now));
        lemma_looked_up_inv(before, path@, *metadata, uid, gid, now);
    }
    ino
}

/// Looking a path up keeps the caches in order.
pub(crate) proof fn lemma_looked_up_inv<H>(
    caches: DingusView<H>,
    path: Seq<u8>,
    metadata: Metadata,
    uid: u32,
    gid: u32,
    now: u64,
)
    requires
        caches.inv(),
        caches.has_inode_for(path),
    ensures
        caches.looked_up(path, metadata, uid, gid, now).inv(),
{
    let after = caches.looked_up(path, metadata, uid, gid, now);
    assert(after.inodes_match());
    assert(after.lookups_match());
    assert forall|dir: u64| #[trigger] after.readdirs.contains_key(dir) implies {
        &&& after.paths.contains_key(dir)
        &&& after.are_entries(dir, after.readdirs[dir].entries)
    } by {
        assert(caches.readdirs.contains_key(dir));
        let entries = caches.readdirs[dir].entries;
        assert forall|k: int| 0 <= k < entries.len() implies after.is_entry(
            dir,
            (#[trigger] entries[k]).0,
            entries[k].1,
        ) by {
            assert(caches.is_entry(dir, entries[k].0, entries[k].1));
        }
    }
    assert forall|fh: int| #[trigger] after.is_open(fh) implies after.files[fh]->0.wf()
        && after.files[fh]->0.within() by {
        assert(caches.is_open(fh));
    }
}

} // verus!
