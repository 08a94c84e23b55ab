//! The entries of the inode table: directories, files and symbolic links.
use vstd::prelude::*;

verus! {

/// One entry of the inode table.
#[derive(Debug, Clone)]
pub enum InodeEntry {
    Directory { ino: u64, name: String, parent: u64, children: Vec<u64>, canonical_path: String },
    File {
        ino: u64,
        name: String,
        parent: u64,
        torrent_id: u64,
        file_index: u64,
        size: u64,
        canonical_path: String,
    },
    Symlink { ino: u64, name: String, parent: u64, target: String, canonical_path: String },
}

/// Copies the numbers of a list of inodes.
pub fn copy_inode_list(v: &Vec<u64>) -> (r: Vec<u64>)
    ensures
        r@ == v@,
{
    let mut r: Vec<u64> = Vec::new();
    let mut i: usize = 0;
    while i < v.len()
        invariant
            i <= v.len(),
            r@ == v@.subrange(0, i as int),
        decreases v.len() - i,
    {
        r.push(v[i]);
        i = i + 1;
        assert(r@ =~= v@.subrange(0, i as int));
    }
    assert(v@.subrange(0, v.len() as int) =~= v@);
    r
}

/// Copies a string.
pub fn copy_string(s: &String) -> (r: String)
    ensures
        r@ == s@,
{
    String::from_str(s.as_str())
}

impl InodeEntry {
    /// The inode number.
    pub open spec fn spec_ino(&self) -> u64 {
        match self {
            InodeEntry::Directory { ino, .. } => *ino,
            InodeEntry::File { ino, .. } => *ino,
            InodeEntry::Symlink { ino, .. } => *ino,
        }
    }

    /// The name within the parent directory.
    pub open spec fn spec_name(&self) -> Seq<char> {
        match self {
            InodeEntry::Directory { name, .. } => name@,
            InodeEntry::File { name, .. } => name@,
            InodeEntry::Symlink { name, .. } => name@,
        }
    }

    /// The parent's inode number.
    pub open spec fn spec_parent(&self) -> u64 {
        match self {
            InodeEntry::Directory { parent, .. } => *parent,
            InodeEntry::File { parent, .. } => *parent,
            InodeEntry::Symlink { parent, .. } => *parent,
        }
    }

    /// The path stored with the entry.
    pub open spec fn spec_canonical_path(&self) -> Seq<char> {
        match self {
            InodeEntry::Directory { canonical_path, .. } => canonical_path@,
            InodeEntry::File { canonical_path, .. } => canonical_path@,
            InodeEntry::Symlink { canonical_path, .. } => canonical_path@,
        }
    }

    /// The torrent of a file entry.
    pub open spec fn spec_torrent_id(&self) -> Option<u64> {
        match self {
            InodeEntry::File { torrent_id, .. } => Some(*torrent_id),
            _ => None,
        }
    }

    /// The children list of a directory (empty for other entries).
    pub open spec fn spec_children(&self) -> Seq<u64> {
        match self {
            InodeEntry::Directory { children, .. } => children@,
            _ => Seq::empty(),
        }
    }

    /// The same entry with another inode number, every other field equal by
    /// value.
    pub open spec fn same_but_ino(&self, other: &InodeEntry, ino: u64) -> bool {
        match (self, other) {
            (
                InodeEntry::Directory { name: n1, parent: p1, children: c1, canonical_path: cp1, .. },
                InodeEntry::Directory { ino: i2, name: n2, parent: p2, children: c2, canonical_path: cp2 },
            ) => *i2 == ino && n1@ == n2@ && p1 == p2 && c1@ == c2@ && cp1@ == cp2@,
            (
                InodeEntry::File {
                    name: n1,
                    parent: p1,
                    torrent_id: t1,
                    file_index: f1,
                    size: s1,
                    canonical_path: cp1,
                    ..
                },
                InodeEntry::File {
                    ino: i2,
                    name: n2,
                    parent: p2,
                    torrent_id: t2,
                    file_index: f2,
                    size: s2,
                    canonical_path: cp2,
                },
            ) => *i2 == ino && n1@ == n2@ && p1 == p2 && t1 == t2 && f1 == f2 && s1 == s2 && cp1@
                == cp2@,
            (
                InodeEntry::Symlink { name: n1, parent: p1, target: t1, canonical_path: cp1, .. },
                InodeEntry::Symlink { ino: i2, name: n2, parent: p2, target: t2, canonical_path: cp2 },
            ) => *i2 == ino && n1@ == n2@ && p1 == p2 && t1@ == t2@ && cp1@ == cp2@,
            _ => false,
        }
    }

    pub fn ino(&self) -> (r: u64)
        ensures
            r == self.spec_ino(),
    {
        match self {
            InodeEntry::Directory { ino, .. } => *ino,
            InodeEntry::File { ino, .. } => *ino,
            InodeEntry::Symlink { ino, .. } => *ino,
        }
    }

    pub fn name(&self) -> (r: &str)
        ensures
            r@ == self.spec_name(),
    {
        match self {
            InodeEntry::Directory { name, .. } => name.as_str(),
            InodeEntry::File { name, .. } => name.as_str(),
            InodeEntry::Symlink { name, .. } => name.as_str(),
        }
    }

    pub fn parent(&self) -> (r: u64)
        ensures
            r == self.spec_parent(),
    {
        match self {
            InodeEntry::Directory { parent, .. } => *parent,
            InodeEntry::File { parent, .. } => *parent,
            InodeEntry::Symlink { parent, .. } => *parent,
        }
    }

    /// Returns the stored canonical path.
    pub fn canonical_path(&self) -> (r: &str)
        ensures
            r@ == self.spec_canonical_path(),
    {
        match self {
            InodeEntry::Directory { canonical_path, .. } => canonical_path.as_str(),
            InodeEntry::File { canonical_path, .. } => canonical_path.as_str(),
            InodeEntry::Symlink { canonical_path, .. } => canonical_path.as_str(),
        }
    }

    /// Returns the torrent_id if this is a file.
    pub fn torrent_id(&self) -> (r: Option<u64>)
        ensures
            r == self.spec_torrent_id(),
    {
        match self {
            InodeEntry::File { torrent_id, .. } => Some(*torrent_id),
            _ => None,
        }
    }

    pub fn is_directory(&self) -> (r: bool)
        ensures
            r == (self is Directory),
    {
        match self {
            InodeEntry::Directory { .. } => true,
            _ => false,
        }
    }

    pub fn is_file(&self) -> (r: bool)
        ensures
            r == (self is File),
    {
        match self {
            InodeEntry::File { .. } => true,
            _ => false,
        }
    }

    pub fn is_symlink(&self) -> (r: bool)
        ensures
            r == (self is Symlink),
    {
        match self {
            InodeEntry::Symlink { .. } => true,
            _ => false,
        }
    }

    /// Returns a new InodeEntry with the specified inode number.
    pub fn with_ino(&self, ino: u64) -> (r: Self)
        ensures
            self.same_but_ino(&r, ino),
    {
        match self {
            InodeEntry::Directory { name, parent, children, canonical_path, .. } => {
                InodeEntry::Directory {
                    ino,
                    name: copy_string(name),
                    parent: *parent,
                    children: copy_inode_list(children),
                    canonical_path: copy_string(canonical_path),
                }
            },
            InodeEntry::File { name, parent, torrent_id, file_index, size, canonical_path, .. } => {
                InodeEntry::File {
                    ino,
                    name: copy_string(name),
                    parent: *parent,
                    torrent_id: *torrent_id,
                    file_index: *file_index,
                    size: *size,
                    canonical_path: copy_string(canonical_path),
                }
            },
            InodeEntry::Symlink { name, parent, target, canonical_path, .. } => {
                InodeEntry::Symlink {
                    ino,
                    name: copy_string(name),
                    parent: *parent,
                    target: copy_string(target),
                    canonical_path: copy_string(canonical_path),
                }
            },
        }
    }

    /// A copy of the entry, every field equal by value.
    pub fn duplicate(&self) -> (r: Self)
        ensures
            self.same_but_ino(&r, self.spec_ino()),
    {
        self.with_ino(self.ino())
    }
}

} // verus!
