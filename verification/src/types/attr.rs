//! File attributes: what the filesystem reports for each entry, apart from
//! the timestamps.
use vstd::prelude::*;

verus! {

/// The kind of a filesystem entry.
#[derive(Debug, Clone, Copy, PartialEq, Eq, Structural)]
pub enum FileKind {
    Directory,
    RegularFile,
    Symlink,
}

/// The attributes of an entry, without timestamps.
#[derive(Debug, Clone, Copy, PartialEq, Eq, Structural)]
pub struct AttrFields {
    pub ino: u64,
    pub size: u64,
    pub blocks: u64,
    pub kind: FileKind,
    pub perm: u16,
    pub nlink: u32,
    pub uid: u32,
    pub gid: u32,
    pub rdev: u32,
    pub flags: u32,
    pub blksize: u32,
}

/// `size` divided by `block`, rounded up.
pub open spec fn blocks_for(size: u64, block: u64) -> int
    recommends
        block > 0,
{
    (size + block - 1) / (block as int)
}

/// Rounds a division up (`u64::div_ceil`).
pub fn div_ceil(size: u64, block: u64) -> (r: u64)
    requires
        block > 0,
    ensures
        r == blocks_for(size, block),
{
    let q = size / block;
    let rem = size % block;
    proof {
        assert(blocks_for(size, block) == q + if rem > 0 { 1int } else { 0int }) by (nonlinear_arith)
            requires
                q == size / block,
                rem == size % block,
                block > 0,
        ;
    }
    if rem > 0 {
        assert(q < u64::MAX) by (nonlinear_arith)
            requires
                q == size / block,
                rem == size % block,
                rem > 0,
                block > 0,
        ;
        q + 1
    } else {
        q
    }
}

fn base_attr(ino: u64, size: u64) -> (r: AttrFields)
    ensures
        r == (AttrFields {
            ino,
            size,
            blocks: blocks_for(size, 512) as u64,
            kind: FileKind::RegularFile,
            perm: 0o444,
            nlink: 1,
            uid: 1000,
            gid: 1000,
            rdev: 0,
            flags: 0,
            blksize: 512,
        }),
{
    AttrFields {
        ino,
        size,
        blocks: div_ceil(size, 512),
        kind: FileKind::RegularFile,
        perm: 0o444,
        nlink: 1,
        uid: 1000,
        gid: 1000,
        rdev: 0,
        flags: 0,
        blksize: 512,
    }
}

/// Default attributes of a read-only regular file.
pub fn default_file_attr(ino: u64, size: u64) -> (r: AttrFields)
    ensures
        r == (AttrFields {
            ino,
            size,
            blocks: blocks_for(size, 512) as u64,
            kind: FileKind::RegularFile,
            perm: 0o444,
            nlink: 1,
            uid: 1000,
            gid: 1000,
            rdev: 0,
            flags: 0,
            blksize: 512,
        }),
{
    base_attr(ino, size)
}

/// Default attributes of a directory.
pub fn default_dir_attr(ino: u64) -> (r: AttrFields)
    ensures
        r == (AttrFields {
            ino,
            size: 0,
            blocks: 0,
            kind: FileKind::Directory,
            perm: 0o755,
            nlink: 2,
            uid: 1000,
            gid: 1000,
            rdev: 0,
            flags: 0,
            blksize: 512,
        }),
{
    let mut attr = base_attr(ino, 0);
    attr.kind = FileKind::Directory;
    attr.perm = 0o755;
    attr.nlink = 2;
    attr.blocks = 0;
    attr
}

} // verus!
