//! What is told about a file, made up from what the source tells about it.

use vstd::prelude::*;

verus! {

/// Number of bytes we use when calculating "block sizes" in our reply records.
pub const BLOCK_SIZE: u64 = 512;

/// Nanoseconds in a second.
pub const NANOS_PER_SEC: u32 = 1_000_000_000;

/// A point in time, counted from the Unix epoch.
#[derive(Clone, Copy, Debug, PartialEq, Eq, Structural)]
pub struct Timestamp {
    pub secs: i64,
    pub nanos: u32,
}

/// The kinds of file that are passed on.
#[derive(Clone, Copy, Debug, PartialEq, Eq, Structural)]
pub enum FileKind {
    Symlink,
    Directory,
    RegularFile,
}

/// What the source tells about a file.
#[derive(Clone, Copy, Debug, PartialEq, Eq, Structural)]
pub struct Metadata {
    pub size: u64,
    pub atime: i64,
    pub atime_nsec: i64,
    pub mtime: i64,
    pub mtime_nsec: i64,
    pub ctime: i64,
    pub ctime_nsec: i64,
    /// When the file was created, where the source knows.
    pub created: Option<Timestamp>,
    pub is_symlink: bool,
    pub is_dir: bool,
    pub is_file: bool,
    pub mode: u32,
}

/// What is told about a file.
#[derive(Clone, Copy, Debug, PartialEq, Eq, Structural)]
pub struct FileAttr {
    pub ino: u64,
    pub size: u64,
    pub blocks: u64,
    pub atime: Timestamp,
    pub mtime: Timestamp,
    pub ctime: Timestamp,
    pub crtime: Timestamp,
    pub kind: FileKind,
    pub perm: u16,
    pub nlink: u32,
    pub uid: u32,
    pub gid: u32,
    pub rdev: u32,
    pub blksize: u32,
    pub flags: u32,
}

/// Whether a time that the source gives is one that can be told: it is not
/// before the epoch, and its seconds fit once excess nanoseconds are carried.
pub open spec fn is_tellable(secs: i64, nsec: i64) -> bool {
    0 <= secs && secs + (nsec as u32) / NANOS_PER_SEC <= i64::MAX
}

/// That time, with fewer than a second's worth of nanoseconds.
pub open spec fn timestamp_of(secs: i64, nsec: i64) -> Timestamp {
    Timestamp {
        secs: (secs + (nsec as u32) / NANOS_PER_SEC) as i64,
        nanos: (nsec as u32) % NANOS_PER_SEC,
    }
}

impl Metadata {
    /// Whether attributes can be made up from this: the times can be told and
    /// the size can be rounded up to whole blocks.
    pub open spec fn is_usable(self) -> bool {
        &&& is_tellable(self.atime, self.atime_nsec)
        &&& is_tellable(self.mtime, self.mtime_nsec)
        &&& is_tellable(self.ctime, self.ctime_nsec)
        &&& self.size <= u64::MAX - (BLOCK_SIZE - 1)
    }

    /// Whether this is about a special file: a socket, a device or the like. Such
    /// files are not passed on.
    pub open spec fn is_special(self) -> bool {
        !self.is_symlink && !self.is_dir && !self.is_file
    }

    /// The kind under which a file that is not special is passed on.
    pub open spec fn kind(self) -> FileKind {
        if self.is_symlink {
            FileKind::Symlink
        } else if self.is_dir {
            FileKind::Directory
        } else {
            FileKind::RegularFile
        }
    }

    /// The permissions under which the file is passed on: everybody may read it,
    /// and execute it if anybody may.
    pub open spec fn perm(self) -> u16 {
        if self.mode & 0o111 != 0 {
            0o555
        } else {
            0o444
        }
    }

    /// The attributes under which the file is passed on.
    pub open spec fn attributes(self, ino: u64, uid: u32, gid: u32) -> FileAttr {
        let mtime = timestamp_of(self.mtime, self.mtime_nsec);
        FileAttr {
            ino,
            size: self.size,
            blocks: ((self.size + (BLOCK_SIZE - 1)) / BLOCK_SIZE as int) as u64,
            atime: timestamp_of(self.atime, self.atime_nsec),
            mtime,
            ctime: timestamp_of(self.ctime, self.ctime_nsec),
            crtime: match self.created {
                Some(stamp) => stamp,
                None => mtime,
            },
            kind: self.kind(),
            perm: self.perm(),
            nlink: 1,
            uid,
            gid,
            rdev: 0,
            blksize: BLOCK_SIZE as u32,
            flags: 0,
        }
    }
}

/// Turns a time that the source gives into a point in time.
pub fn timestamp(secs: i64, nsec: i64) -> (stamp: Timestamp)
    requires
        is_tellable(secs, nsec),
    ensures
        stamp == timestamp_of(secs, nsec),
        stamp.nanos < 1_000_000_000,
        stamp.secs * 1_000_000_000 + stamp.nanos == secs * 1_000_000_000 + (nsec as u32),
{
    #[verifier::truncate]
    let nanos: u32 = nsec as u32;
    Timestamp { secs: secs + (nanos / NANOS_PER_SEC) as i64, nanos: nanos % NANOS_PER_SEC }
}

/// Whether a time that the source gives can be told.
pub fn can_tell(secs: i64, nsec: i64) -> (yes: bool)
    ensures
        yes == is_tellable(secs, nsec),
{
    #[verifier::truncate]
    let nanos: u32 = nsec as u32;
    0 <= secs && secs <= i64::MAX - (nanos / NANOS_PER_SEC) as i64
}

impl Metadata {
    /// Whether this is about a special file.
    pub fn is_censored(&self) -> (yes: bool)
        ensures
            yes == self.is_special(),
    {
        !self.is_symlink && !self.is_dir && !self.is_file
    }

    /// Whether attributes can be made up from this.
    pub fn can_use(&self) -> (yes: bool)
        ensures
            yes == self.is_usable(),
    {
        can_tell(self.atime, self.atime_nsec) && can_tell(self.mtime, self.mtime_nsec) && can_tell(
            self.ctime,
            self.ctime_nsec,
        ) && self.size <= u64::MAX - (BLOCK_SIZE - 1)
    }

    /// Makes up the attributes under which the file is passed on.
    pub fn to_attr(&self, ino: u64, uid: u32, gid: u32) -> (attr: FileAttr)
        requires
            self.is_usable(),
            !self.is_special(),
        ensures
            attr == self.attributes(ino, uid, gid),
            attr.ino == ino && attr.uid == uid && attr.gid == gid,
            attr.size == self.size,
            attr.atime.secs * 1_000_000_000 + attr.atime.nanos == self.atime * 1_000_000_000 + (
            self.atime_nsec as u32),
            attr.mtime.secs * 1_000_000_000 + attr.mtime.nanos == self.mtime * 1_000_000_000 + (
            self.mtime_nsec as u32),
            attr.ctime.secs * 1_000_000_000 + attr.ctime.nanos == self.ctime * 1_000_000_000 + (
            self.ctime_nsec as u32),
            attr.kind == FileKind::Symlink <==> self.is_symlink,
            attr.kind == FileKind::Directory <==> self.is_dir && !self.is_symlink,
            attr.kind == FileKind::RegularFile <==> !self.is_dir && !self.is_symlink,
    {
        let mtime = timestamp(self.mtime, self.mtime_nsec);
        FileAttr {
            ino,
            size: self.size,
            blocks: (self.size + (BLOCK_SIZE - 1)) / BLOCK_SIZE,
            atime: timestamp(self.atime, self.atime_nsec),
            mtime,
            ctime: timestamp(self.ctime, self.ctime_nsec),
            crtime: match self.created {
                Some(stamp) => stamp,
                None => mtime,
            },
            kind: if self.is_symlink {
                FileKind::Symlink
            } else if self.is_dir {
                FileKind::Directory
            } else {
                FileKind::RegularFile
            },
            nlink: 1,
            uid,
            gid,
            rdev: 0,
            blksize: BLOCK_SIZE as u32,
            perm: if self.mode & 0o111 != 0 {
                0o555
            } else {
                0o444
            },
            flags: 0,
        }
    }
}

/// The time that is told is the time that was given, with fewer than a second's
/// worth of nanoseconds. Any time since the epoch can be told.
pub proof fn law_time_is_told(secs: i64, nsec: i64)
    requires
        0 <= secs,
        0 <= nsec < 1_000_000_000,
    ensures
        is_tellable(secs, nsec),
        timestamp_of(secs, nsec).nanos < 1_000_000_000,
        timestamp_of(secs, nsec).secs * 1_000_000_000 + timestamp_of(secs, nsec).nanos == secs
            * 1_000_000_000 + nsec,
{
}

/// Where the source gives more nanoseconds than a second has, the time that is
/// told is still the one that was given; and what cannot be told is either before
/// the epoch or has too many seconds.
pub proof fn law_excess_nanoseconds_are_carried(secs: i64, nsec: i64)
    requires
        0 <= nsec <= u32::MAX,
    ensures
        is_tellable(secs, nsec) <==> 0 <= secs && secs * 1_000_000_000 + nsec < (i64::MAX + 1)
            * 1_000_000_000,
        is_tellable(secs, nsec) ==> timestamp_of(secs, nsec).nanos < 1_000_000_000
            && timestamp_of(secs, nsec).secs * 1_000_000_000 + timestamp_of(secs, nsec).nanos
            == secs * 1_000_000_000 + nsec,
{
}

/// Later times are told as later ones, and different times as different ones.
pub proof fn law_times_keep_their_order(secs: i64, nsec: i64, later_secs: i64, later_nsec: i64)
    requires
        0 <= secs,
        0 <= nsec < 1_000_000_000,
        0 <= later_secs,
        0 <= later_nsec < 1_000_000_000,
        secs < later_secs || secs == later_secs && nsec < later_nsec,
    ensures
        ({
            let earlier = timestamp_of(secs, nsec);
            let later = timestamp_of(later_secs, later_nsec);
            earlier.secs < later.secs || earlier.secs == later.secs && earlier.nanos < later.nanos
        }),
{
}

/// What is told about a file is what the source tells: its size, its times and
/// its kind. A file whose times are since the epoch and whose size can be rounded
/// up to whole blocks can be told about.
pub proof fn law_attributes_are_like_source(metadata: Metadata, ino: u64, uid: u32, gid: u32)
    requires
        0 <= metadata.atime && 0 <= metadata.atime_nsec < 1_000_000_000,
        0 <= metadata.mtime && 0 <= metadata.mtime_nsec < 1_000_000_000,
        0 <= metadata.ctime && 0 <= metadata.ctime_nsec < 1_000_000_000,
        metadata.size <= u64::MAX - 511,
    ensures
        metadata.is_usable(),
        ({
            let attr = metadata.attributes(ino, uid, gid);
            &&& attr.ino == ino
            &&& attr.uid == uid
            &&& attr.gid == gid
            &&& attr.size == metadata.size
            &&& attr.blocks * 512 - 512 < metadata.size <= attr.blocks * 512
            &&& attr.blksize == 512
            &&& attr.nlink == 1
            &&& attr.rdev == 0
            &&& attr.flags == 0
            &&& attr.atime.secs == metadata.atime && attr.atime.nanos == metadata.atime_nsec
            &&& attr.mtime.secs == metadata.mtime && attr.mtime.nanos == metadata.mtime_nsec
            &&& attr.ctime.secs == metadata.ctime && attr.ctime.nanos == metadata.ctime_nsec
            &&& metadata.created is Some ==> attr.crtime == metadata.created->0
            &&& metadata.created is None ==> attr.crtime == attr.mtime
            &&& metadata.is_symlink ==> attr.kind == FileKind::Symlink
            &&& metadata.is_dir && !metadata.is_symlink ==> attr.kind == FileKind::Directory
            &&& !metadata.is_dir && !metadata.is_symlink ==> attr.kind == FileKind::RegularFile
            &&& metadata.mode & 0o111 != 0 ==> attr.perm == 0o555
            &&& metadata.mode & 0o111 == 0 ==> attr.perm == 0o444
        }),
{
}

/// What cannot be told about has a time that is before the epoch or too late, or
/// a size that cannot be rounded up.
pub proof fn law_unusable_metadata(metadata: Metadata)
    requires
        0 <= metadata.atime_nsec <= u32::MAX,
        0 <= metadata.mtime_nsec <= u32::MAX,
        0 <= metadata.ctime_nsec <= u32::MAX,
    ensures
        metadata.is_usable() <==> {
            &&& 0 <= metadata.atime
            &&& 0 <= metadata.mtime
            &&& 0 <= metadata.ctime
            &&& metadata.atime + metadata.atime_nsec / 1_000_000_000 <= i64::MAX
            &&& metadata.mtime + metadata.mtime_nsec / 1_000_000_000 <= i64::MAX
            &&& metadata.ctime + metadata.ctime_nsec / 1_000_000_000 <= i64::MAX
            &&& metadata.size + 511 <= u64::MAX
        },
{
}

/// Regular files, directories and symbolic links are passed on, whatever else is
/// told about them; nothing else is.
pub proof fn law_only_special_files_are_censored(metadata: Metadata)
    ensures
        metadata.is_file ==> !metadata.is_special(),
        metadata.is_dir ==> !metadata.is_special(),
        metadata.is_symlink ==> !metadata.is_special(),
        !metadata.is_file && !metadata.is_dir && !metadata.is_symlink ==> metadata.is_special(),
{
}

} // verus!
