//! The filesystem's state and what each filesystem operation decides: the
//! reply to give, the state to move to, and the request to send to rqbit
//! where an operation needs one.
use crate::api::types::{FileInfo, TorrentInfo};
use crate::config::Config;
use crate::errno::{is_read_only_open, open_flags_read_only, Errno};
use crate::error::RqbitFuseError;
use crate::fs::async_bridge::ReadFailure;
use crate::fs::inode_manager::{
    built_path, child_added, child_count, child_path, same_except_children, child_unlisted, children_listing, lemma_listing_in_table, lemma_listing_same_keys,
    subtree_removed, InodeManager, InodeTableView,
};
use crate::text::{concat2, concat3, str_equal};
use crate::fs::names::{sanitize_filename, sanitized};
use crate::fs::tables::{id_set, id_set_contains, id_set_insert, id_set_items, id_set_new, id_set_remove};
use crate::metrics::{wrap_add, Metrics};
use crate::types::attr::{blocks_for, div_ceil, AttrFields, FileKind};
use crate::types::handle::{FileHandle, FileHandleManager, HandleTableView};
use crate::types::inode::{copy_string, InodeEntry};
use dashmap::DashSet;
use vstd::prelude::*;
use vstd::string::StrSliceExecFns;

verus! {

/// The largest read the filesystem answers at once (64 KiB).
pub const FUSE_MAX_READ: u32 = 65536;

/// The least time between two scans for new torrents, in milliseconds.
pub const DISCOVERY_COOLDOWN_MS: u64 = 5000;

/// The most entries the inode table of a filesystem holds.
pub const MAX_INODES: usize = 100000;

/// Statistics about concurrent operations.
#[derive(Debug, Clone, Copy, PartialEq, Eq, Structural)]
pub struct ConcurrencyStats {
    /// Maximum concurrent read operations allowed
    pub max_concurrent_reads: usize,
    /// Number of available permits for reads
    pub available_permits: usize,
}

/// A read to send to rqbit: `size` bytes at `offset` of a torrent's file.
#[derive(Debug, Clone, Copy, PartialEq, Eq, Structural)]
pub struct ReadRequest {
    pub ino: u64,
    pub torrent_id: u64,
    pub file_index: u64,
    pub offset: u64,
    pub size: u32,
}

/// What the filesystem reports about itself (`statfs`).
#[derive(Debug, Clone, Copy, PartialEq, Eq, Structural)]
pub struct StatfsReply {
    pub blocks: u64,
    pub bfree: u64,
    pub bavail: u64,
    pub files: u64,
    pub ffree: u64,
    pub bsize: u32,
    pub namelen: u32,
    pub frsize: u32,
}

/// The reply to a request for the list of extended attributes.
#[derive(Debug, Clone, PartialEq, Eq)]
pub enum XattrListReply {
    /// The size a buffer needs
    Size(u32),
    /// The names, each ended by NUL
    Data(Vec<u8>),
    /// An error
    Error(Errno),
}

/// The filesystem: the inode table, the open file handles, the torrents
/// seen in rqbit, and the counters.
pub struct TorrentFS {
    /// Configuration for the filesystem
    config: Config,
    /// Inode manager for filesystem entries
    inode_manager: InodeManager,
    /// File handle manager for tracking open files
    file_handles: FileHandleManager,
    /// Set of known torrent IDs for detecting removals
    known_torrents: DashSet<u64>,
    /// Metrics collection
    metrics: Metrics,
    /// Time of the last discovery (ms since the Unix epoch), 0 for never
    last_discovery: u64,
    /// Whether the filesystem has been initialized
    initialized: bool,
}

/// The state of a [`TorrentFS`].
pub struct FsView {
    pub config: Config,
    pub inodes: InodeTableView,
    pub handles: HandleTableView,
    pub known: Set<u64>,
    pub metrics: Metrics,
    pub last_discovery: u64,
    pub initialized: bool,
}

impl FsView {
    /// The same state with one more error counted.
    pub open spec fn with_error(self) -> FsView {
        FsView {
            metrics: Metrics { error_count: wrap_add(self.metrics.error_count, 1), ..self.metrics },
            ..self
        }
    }

    /// The same state with another handle table and counter; a counter
    /// that is 0 has wrapped around.
    pub open spec fn with_handles(self, handles: Map<u64, FileHandle>, next: u64) -> FsView {
        FsView {
            handles: HandleTableView { handles, next, wrapped: self.handles.wrapped || next == 0, ..self.handles },
            ..self
        }
    }

    /// The same state with another inode table.
    pub open spec fn with_inodes(self, inodes: InodeTableView) -> FsView {
        FsView { inodes, ..self }
    }

    /// The same state, initialized or not.
    pub open spec fn with_initialized(self, initialized: bool) -> FsView {
        FsView { initialized, ..self }
    }

    /// The entry under `ino`, if any.
    pub open spec fn entry(self, ino: u64) -> Option<InodeEntry> {
        self.inodes.entry_at(ino)
    }
}

/// The link count of a directory with `n` children: `2 + n`, as a 32-bit
/// count that wraps around.
pub open spec fn link_count(n: nat) -> u32 {
    ((n + 2) % 0x1_0000_0000) as u32
}

/// The attributes of an entry in the table `t`, for the owner `uid`/`gid`.
pub open spec fn entry_attr(t: Map<u64, InodeEntry>, e: InodeEntry, uid: u32, gid: u32) -> AttrFields {
    match e {
        InodeEntry::Directory { ino, .. } => AttrFields {
            ino,
            size: 0,
            blocks: 0,
            kind: FileKind::Directory,
            perm: 0o555,
            nlink: link_count(child_count(t, ino)),
            uid,
            gid,
            rdev: 0,
            flags: 0,
            blksize: 4096,
        },
        InodeEntry::File { ino, size, .. } => AttrFields {
            ino,
            size,
            blocks: blocks_for(size, 4096) as u64,
            kind: FileKind::RegularFile,
            perm: 0o444,
            nlink: 1,
            uid,
            gid,
            rdev: 0,
            flags: 0,
            blksize: 4096,
        },
        InodeEntry::Symlink { ino, target, .. } => AttrFields {
            ino,
            size: (vstd::utf8::encode_utf8(target@).len() as usize) as u64,
            blocks: 1,
            kind: FileKind::Symlink,
            perm: 0o777,
            nlink: 1,
            uid,
            gid,
            rdev: 0,
            flags: 0,
            blksize: 4096,
        },
    }
}

/// The kind of an entry.
pub open spec fn entry_kind(e: InodeEntry) -> FileKind {
    match e {
        InodeEntry::Directory { .. } => FileKind::Directory,
        InodeEntry::File { .. } => FileKind::RegularFile,
        InodeEntry::Symlink { .. } => FileKind::Symlink,
    }
}

/// What `open` answers for an entry and open flags: directories and links
/// cannot be opened, and only for reading.
pub open spec fn open_refusal(e: InodeEntry, flags: i32) -> Option<Errno> {
    if e is Directory {
        Some(Errno::EISDIR)
    } else if e is Symlink {
        Some(Errno::ELOOP)
    } else if !open_flags_read_only(flags) {
        Some(Errno::EACCES)
    } else {
        None
    }
}

/// The answer to `access` for an entry (if any) and a mask: existence for
/// mask 0, never write, execute only on directories.
pub open spec fn access_answer(e: Option<InodeEntry>, mask: i32) -> Result<(), Errno> {
    if mask == 0 {
        if e is Some { Ok(()) } else { Err(Errno::ENOENT) }
    } else if mask & 2 != 0 {
        Err(Errno::EACCES)
    } else {
        match e {
            Some(en) => if en is Directory || mask & 1 == 0 { Ok(()) } else { Err(Errno::EACCES) },
            None => Err(Errno::ENOENT),
        }
    }
}

/// One entry of a directory listing: inode, offset of the next entry,
/// kind and name.
#[derive(Debug)]
pub struct DirEntry {
    pub ino: u64,
    pub offset: i64,
    pub kind: FileKind,
    pub name: String,
}

/// The most children a listing reaches (2^62), far beyond any table.
pub const MAX_LISTED: u64 = 0x4000_0000_0000_0000;

/// A listing entry as plain values.
pub open spec fn dir_entry_view(d: DirEntry) -> (u64, i64, FileKind, Seq<char>) {
    (d.ino, d.offset, d.kind, d.name@)
}

/// The listing of directory `ino` (whose parent is `parent`) from
/// `offset` on, given its children: `.` at offset 0, `..` at offsets 0
/// and 1, then the children from position `offset - 2`; each entry
/// carries the offset of the entry after it.
pub open spec fn dir_listing(ino: u64, parent: u64, offset: i64, kids: Seq<(u64, InodeEntry)>) -> Seq<
    (u64, i64, FileKind, Seq<char>),
> {
    let dots: Seq<(u64, i64, FileKind, Seq<char>)> = if offset == 0 {
        seq![(ino, 1i64, FileKind::Directory, "."@), (parent, 2i64, FileKind::Directory, ".."@)]
    } else if offset == 1 {
        seq![(parent, 2i64, FileKind::Directory, ".."@)]
    } else {
        Seq::empty()
    };
    let start: int = if offset <= 2 { 0 } else { offset - 2 };
    let end: int = if kids.len() < MAX_LISTED { kids.len() as int } else { MAX_LISTED as int };
    let count: int = if start < end { end - start } else { 0 };
    dots + Seq::new(
        count as nat,
        |j: int| (kids[start + j].0, (start + j + 3) as i64, entry_kind(kids[start + j].1), kids[start + j].1.spec_name()),
    )
}

/// The path `lookup` looks for: the name under `/` for the root's
/// children, else under the parent's path built from its ancestors.
pub open spec fn lookup_path(t: Map<u64, InodeEntry>, parent: u64, name: Seq<char>) -> Seq<char> {
    if parent == 1 {
        "/"@ + name
    } else {
        built_path(t, t[parent]) + "/"@ + name
    }
}

/// The entry `lookup` finds, or its error: a missing parent (`ENOENT`), a
/// parent that is no directory (`ENOTDIR`), `.` and `..` resolved through
/// the parent, other names through the path index; a path or a special
/// name that leads to a missing entry gives `EIO`, an unknown path
/// `ENOENT`.
pub open spec fn lookup_outcome(v: InodeTableView, parent: u64, name: Seq<char>) -> Result<InodeEntry, Errno> {
    if !v.entries.dom().contains(parent) {
        Err(Errno::ENOENT)
    } else if !(v.entries[parent] is Directory) {
        Err(Errno::ENOTDIR)
    } else if name == "."@ || name == ".."@ {
        let target = if name == "."@ { parent } else { v.entries[parent].spec_parent() };
        match v.entry_at(target) {
            Some(e) => Ok(e),
            None => Err(Errno::EIO),
        }
    } else {
        let path = lookup_path(v.entries, parent, name);
        if v.paths.dom().contains(path) {
            match v.entry_at(v.paths[path]) {
                Some(e) => Ok(e),
                None => Err(Errno::EIO),
            }
        } else {
            Err(Errno::ENOENT)
        }
    }
}

/// Whether `lookup` counts its failure as an error: all failures but a
/// special name leading nowhere and an unknown path.
pub open spec fn lookup_counts_error(v: InodeTableView, parent: u64, name: Seq<char>) -> bool {
    !v.entries.dom().contains(parent) || !(v.entries[parent] is Directory) || (!(name == "."@
        || name == ".."@) && lookup_outcome(v, parent, name) is Err && v.paths.dom().contains(
        lookup_path(v.entries, parent, name),
    ))
}

/// What `read` decides: a negative offset is `EINVAL`, an unknown handle
/// `EBADF`, a missing entry `ENOENT`, an entry that is no file `EISDIR`;
/// nothing to read (size 0 or offset at or past the end) is an empty
/// reply; else the request for at most 64 KiB at the offset.
pub open spec fn read_outcome(v: FsView, fh: u64, offset: i64, size: u32) -> Result<Option<ReadRequest>, Errno> {
    let size = if size < FUSE_MAX_READ { size } else { FUSE_MAX_READ };
    if offset < 0 {
        Err(Errno::EINVAL)
    } else if !v.handles.handles.dom().contains(fh) {
        Err(Errno::EBADF)
    } else {
        let ino = v.handles.handles[fh].inode;
        match v.entry(ino) {
            None => Err(Errno::ENOENT),
            Some(InodeEntry::File { torrent_id, file_index, size: file_size, .. }) => if size == 0
                || offset as u64 >= file_size {
                Ok(None)
            } else {
                Ok(Some(ReadRequest { ino, torrent_id, file_index, offset: offset as u64, size }))
            },
            Some(_) => Err(Errno::EISDIR),
        }
    }
}

/// Whether `k` is among the children that `get_children` lists for `p`.
pub open spec fn listed_child(t: Map<u64, InodeEntry>, p: u64, k: u64) -> bool {
    exists|r: Seq<(u64, InodeEntry)>| #[trigger] children_listing(t, p, r) && exists|i: int| 0 <= i < r.len() && r[i].0 == k
}

/// Whether a directory has a listed child that is a file with an open
/// handle.
pub open spec fn has_open_files(v: FsView, ino: u64) -> bool {
    exists|k: u64| #![trigger listed_child(v.inodes.entries, ino, k)]
        listed_child(v.inodes.entries, ino, k) && v.inodes.entries.dom().contains(k)
            && v.inodes.entries[k] is File && exists|h: u64| #[trigger] v.handles.handles.dom().contains(h)
            && v.handles.handles[h].inode == k
}

/// Why a torrent could not be removed.
#[derive(Debug, Clone)]
pub enum TorrentRemovalError {
    /// The torrent is not in the filesystem
    NotInFilesystem(u64),
    /// rqbit did not forget the torrent
    Forget(u64, RqbitFuseError),
}

/// The table after a torrent's inode leaves the root's children list and
/// then the table, with everything below it.
pub open spec fn torrent_dropped(pre: InodeTableView, post: InodeTableView, ino: u64) -> bool {
    exists|mid: InodeTableView| #[trigger] child_unlisted(pre, mid, 1, ino) && if ino != 1
        && mid.entries.dom().contains(ino) {
        subtree_removed(mid, post, ino)
    } else {
        post == mid
    }
}

/// The key of the directory reached after `k` components of a file's
/// path: the components joined with `/`, an empty key taking the next
/// component as it is.
pub open spec fn dir_key(comps: Seq<Seq<char>>, k: nat) -> Seq<char>
    decreases k,
{
    if k == 0 || k > comps.len() {
        Seq::empty()
    } else {
        let prev = dir_key(comps, (k - 1) as nat);
        if prev.len() == 0 {
            comps[k - 1]
        } else {
            prev + "/"@ + comps[k - 1]
        }
    }
}

/// The stored path of a directory created for `key` below a torrent
/// directory whose path is `dir_path`.
pub open spec fn dir_canonical(dir_path: Seq<char>, key: Seq<char>, discovery: bool) -> Seq<char> {
    if !discovery && dir_path == "/"@ {
        "/"@ + key
    } else {
        dir_path + "/"@ + key
    }
}

/// Whether `n` more allocations succeed in the table `v`.
pub open spec fn room(v: InodeTableView, n: nat) -> bool {
    (v.max == 0 || v.entries.dom().len() + n <= v.max) && v.next + n < u64::MAX
}

/// The numbers from `a` up to, not including, `b`.
pub open spec fn numbers_between(a: u64, b: u64) -> Set<u64> {
    Set::new(|k: u64| a <= k < b)
}

/// The table `post` keeps every entry of `pre` but for children added to
/// directories, keeps the limit, and numbers on: the entries added are
/// exactly those numbered from `pre`'s counter up to `post`'s. Every path
/// of the path index stays there, leading to the same entry or to a new
/// one stored under that path.
pub open spec fn table_extends(pre: InodeTableView, post: InodeTableView) -> bool {
    &&& pre.entries.dom().subset_of(post.entries.dom())
    &&& forall|k: u64| #[trigger] pre.entries.dom().contains(k) ==> same_except_children(pre.entries[k], post.entries[k])
    &&& forall|k: u64, c: u64| #[trigger] pre.entries.dom().contains(k) && #[trigger] pre.entries[k].spec_children().contains(c) ==> post.entries[k].spec_children().contains(c)
    &&& post.max == pre.max
    &&& pre.next <= post.next
    &&& post.entries.dom() == pre.entries.dom().union(numbers_between(pre.next, post.next))
    &&& forall|p: Seq<char>| #[trigger] pre.paths.dom().contains(p) ==> post.paths.dom().contains(p) && (post.paths[p]
        == pre.paths[p] || (post.entries.dom().contains(post.paths[p]) && post.entries[post.paths[p]].spec_canonical_path() == p))
}

/// The entries numbered from `a` up to, not including, `b` whose parent is
/// `k` and that the list `old` does not hold, in number order.
pub open spec fn new_children(t: Map<u64, InodeEntry>, k: u64, old: Seq<u64>, a: u64, b: u64) -> Seq<u64>
    decreases b - a,
{
    if b <= a {
        Seq::empty()
    } else {
        let d = (b - 1) as u64;
        let rest = new_children(t, k, old, a, d);
        if t.dom().contains(d) && t[d].spec_parent() == k && !old.contains(d) {
            rest.push(d)
        } else {
            rest
        }
    }
}

/// The children list that the directory `k` of `post` is owed after `pre`
/// grew into it: its old list followed by the entries made since under it
/// (those made after it, for a new one), in the order they were made.
pub open spec fn grown_children(pre: InodeTableView, post: InodeTableView, k: u64) -> Seq<u64> {
    if pre.entries.dom().contains(k) {
        pre.entries[k].spec_children() + new_children(post.entries, k, pre.entries[k].spec_children(), pre.next, post.next)
    } else {
        new_children(post.entries, k, Seq::empty(), (k + 1) as u64, post.next)
    }
}

/// Every directory's children list is what [`grown_children`] gives: the
/// old list and then each entry made under it, once, in creation order,
/// and nothing else.
pub open spec fn children_grown(pre: InodeTableView, post: InodeTableView) -> bool {
    forall|k: u64| #[trigger] post.entries.dom().contains(k) && post.entries[k] is Directory
        ==> post.entries[k].spec_children() == grown_children(pre, post, k)
}

/// What [`new_children`] lists lies in its range, under `k`, and outside
/// `old`.
pub proof fn lemma_new_children_members(t: Map<u64, InodeEntry>, k: u64, old: Seq<u64>, a: u64, b: u64)
    ensures
        forall|i: int| 0 <= i < new_children(t, k, old, a, b).len() ==> a <= #[trigger] new_children(t, k, old, a, b)[i]
            < b && t.dom().contains(new_children(t, k, old, a, b)[i]) && t[new_children(t, k, old, a, b)[i]].spec_parent() == k
            && !old.contains(new_children(t, k, old, a, b)[i]),
    decreases b - a,
{
    if b > a {
        let d = (b - 1) as u64;
        lemma_new_children_members(t, k, old, a, d);
        let rest = new_children(t, k, old, a, d);
        let all = new_children(t, k, old, a, b);
        assert forall|i: int| 0 <= i < all.len() implies a <= #[trigger] all[i] < b && t.dom().contains(all[i])
            && t[all[i]].spec_parent() == k && !old.contains(all[i]) by {
            if i < rest.len() {
                assert(all[i] == rest[i]);
            }
        }
    }
}

/// [`new_children`] over a range is its value over the two parts.
pub proof fn lemma_new_children_split(t: Map<u64, InodeEntry>, k: u64, old: Seq<u64>, a: u64, m: u64, b: u64)
    requires
        a <= m <= b,
    ensures
        new_children(t, k, old, a, b) == new_children(t, k, old, a, m) + new_children(t, k, old, m, b),
    decreases b - m,
{
    if b == m {
        assert(new_children(t, k, old, a, m) + new_children(t, k, old, m, b) =~= new_children(t, k, old, a, m));
    } else {
        let d = (b - 1) as u64;
        lemma_new_children_split(t, k, old, a, m, d);
        let x = new_children(t, k, old, a, m);
        let y = new_children(t, k, old, m, d);
        assert((x + y).push(d) =~= x + y.push(d));
    }
}

/// [`new_children`] reads only the entries of its range and their parents.
pub proof fn lemma_new_children_same_entries(t1: Map<u64, InodeEntry>, t2: Map<u64, InodeEntry>, k: u64, old: Seq<u64>, a: u64, b: u64)
    requires
        forall|d: u64| a <= d < b ==> (#[trigger] t1.dom().contains(d) <==> t2.dom().contains(d)),
        forall|d: u64| a <= d < b && #[trigger] t1.dom().contains(d) ==> t1[d].spec_parent() == t2[d].spec_parent(),
    ensures
        new_children(t1, k, old, a, b) == new_children(t2, k, old, a, b),
    decreases b - a,
{
    if b > a {
        let d = (b - 1) as u64;
        lemma_new_children_same_entries(t1, t2, k, old, a, d);
        assert(t1.dom().contains(d) <==> t2.dom().contains(d));
        if t1.dom().contains(d) {
            assert(t1[d].spec_parent() == t2[d].spec_parent());
        }
    }
}

/// [`new_children`] reads only what `old` says of its range.
pub proof fn lemma_new_children_same_old(t: Map<u64, InodeEntry>, k: u64, o1: Seq<u64>, o2: Seq<u64>, a: u64, b: u64)
    requires
        forall|d: u64| a <= d < b ==> (o1.contains(d) <==> o2.contains(d)),
    ensures
        new_children(t, k, o1, a, b) == new_children(t, k, o2, a, b),
    decreases b - a,
{
    if b > a {
        lemma_new_children_same_old(t, k, o1, o2, a, (b - 1) as u64);
    }
}

/// A table that did not change has grown every list by nothing.
pub proof fn lemma_grown_unchanged(a: InodeTableView, b: InodeTableView)
    requires
        a.entries == b.entries,
        a.next == b.next,
    ensures
        children_grown(a, b),
{
    assert forall|k: u64| #[trigger] b.entries.dom().contains(k) && b.entries[k] is Directory
        implies b.entries[k].spec_children() == grown_children(a, b, k) by {
        assert(a.entries[k].spec_children() + new_children(b.entries, k, a.entries[k].spec_children(), a.next, b.next)
            =~= a.entries[k].spec_children());
    }
}

/// An entry made and then listed under its parent grows exactly the
/// parent's list.
pub proof fn lemma_made_and_linked(
    pre: InodeTableView,
    mid: InodeTableView,
    post: InodeTableView,
    path: Seq<char>,
    torrent: Option<u64>,
    r: u64,
    parent: u64,
)
    requires
        pre.wf(),
        pre.allocation_succeeds(),
        pre.allocated(mid, path, torrent, r),
        mid.entries[r].spec_parent() == parent,
        mid.entries[r].spec_children().len() == 0,
        parent != r,
        child_added(mid, post, parent, r),
        post.next == mid.next,
    ensures
        children_grown(pre, post),
{
    assert(mid.entries.dom().contains(r));
    assert(post.entries[r] == mid.entries[r]);
    assert forall|k: u64| #[trigger] post.entries.dom().contains(k) && post.entries[k] is Directory
        implies post.entries[k].spec_children() == grown_children(pre, post, k) by {
        if k == r {
            assert(!pre.entries.dom().contains(r));
            assert(post.entries[k].spec_children() =~= Seq::<u64>::empty());
        } else {
            assert(pre.entries.dom().contains(k));
            assert(mid.entries[k] == pre.entries[k]);
            let old = pre.entries[k].spec_children();
            assert(new_children(post.entries, k, old, pre.next, pre.next) =~= Seq::<u64>::empty());
            assert(post.next == pre.next + 1);
            assert(r == pre.next);
            if k == parent && !old.contains(r) {
                assert(new_children(post.entries, k, old, pre.next, post.next) =~= seq![r]);
            } else {
                assert(new_children(post.entries, k, old, pre.next, post.next) =~= Seq::<u64>::empty());
            }
            if k == parent && !old.contains(r) {
                assert(post.entries[k].spec_children() =~= old + seq![r]);
            } else {
                assert(post.entries[k].spec_children() =~= old + Seq::<u64>::empty());
            }
        }
    }
}

/// Lists grown in two steps are grown in one.
pub proof fn lemma_grown_trans(a: InodeTableView, b: InodeTableView, c: InodeTableView)
    requires
        table_extends(a, b),
        table_extends(b, c),
        children_grown(a, b),
        children_grown(b, c),
    ensures
        children_grown(a, c),
{
    assert forall|k: u64| #[trigger] c.entries.dom().contains(k) && c.entries[k] is Directory
        implies c.entries[k].spec_children() == grown_children(a, c, k) by {
        if b.entries.dom().contains(k) {
            assert(same_except_children(b.entries[k], c.entries[k]));
            assert(b.entries[k] is Directory);
            let bch = b.entries[k].spec_children();
            assert(c.entries[k].spec_children() == bch + new_children(c.entries, k, bch, b.next, c.next));
            assert forall|d: u64| b.next <= d < c.next && #[trigger] c.entries.dom().contains(d) implies c.entries[d].spec_parent()
                == c.entries[d].spec_parent() by {}
            let (old, lo) = if a.entries.dom().contains(k) {
                (a.entries[k].spec_children(), a.next)
            } else {
                (Seq::<u64>::empty(), (k + 1) as u64)
            };
            if !a.entries.dom().contains(k) {
                assert(b.entries.dom().contains(k));
                assert(a.entries.dom().union(numbers_between(a.next, b.next)).contains(k));
            } else {
                assert(same_except_children(a.entries[k], b.entries[k]));
            }
            assert(lo <= b.next);
            let nb = new_children(b.entries, k, old, lo, b.next);
            assert(bch == old + nb);
            lemma_new_children_members(b.entries, k, old, lo, b.next);
            assert forall|d: u64| lo <= d < b.next ==> (#[trigger] b.entries.dom().contains(d) <==> c.entries.dom().contains(d)) by {
                if lo <= d < b.next {
                    assert(a.entries.dom().union(numbers_between(a.next, b.next)).contains(d) || a.entries.dom().contains(d)
                        || !b.entries.dom().contains(d));
                }
            }
            assert forall|d: u64| lo <= d < b.next && #[trigger] b.entries.dom().contains(d) implies b.entries[d].spec_parent()
                == c.entries[d].spec_parent() by {
                assert(same_except_children(b.entries[d], c.entries[d]));
            }
            lemma_new_children_same_entries(b.entries, c.entries, k, old, lo, b.next);
            assert forall|d: u64| b.next <= d < c.next implies (bch.contains(d) <==> old.contains(d)) by {
                if bch.contains(d) && !old.contains(d) {
                    let i = choose|i: int| 0 <= i < bch.len() && bch[i] == d;
                    assert(nb[i - old.len()] == d);
                }
                if old.contains(d) {
                    let i = choose|i: int| 0 <= i < old.len() && old[i] == d;
                    assert(bch[i] == d);
                }
            }
            lemma_new_children_same_old(c.entries, k, bch, old, b.next, c.next);
            lemma_new_children_split(c.entries, k, old, lo, b.next, c.next);
            assert(c.entries[k].spec_children() =~= old + new_children(c.entries, k, old, lo, c.next));
        } else {
            assert(!a.entries.dom().contains(k));
        }
    }
}

/// Every entry made since `pre` hangs from an entry of `allowed` or from
/// another entry made since.
pub open spec fn made_under(pre: InodeTableView, post: InodeTableView, allowed: Set<u64>) -> bool {
    forall|d: u64| #[trigger] numbers_between(pre.next, post.next).contains(d) ==> allowed.contains(
        post.entries[d].spec_parent(),
    ) || numbers_between(pre.next, post.next).contains(post.entries[d].spec_parent())
}

/// The directories a file's entries may be made under: the torrent's
/// directory and those already created for its paths.
pub open spec fn dir_targets(torrent_dir: u64, dirs: Map<Seq<char>, u64>) -> Set<u64> {
    Set::new(|p: u64| p == torrent_dir || exists|key: Seq<char>| #[trigger] dirs.dom().contains(key) && dirs[key] == p)
}

/// What hangs from allowed entries hangs from any larger set of them.
pub proof fn lemma_made_under_weaken(a: InodeTableView, b: InodeTableView, s: Set<u64>, t: Set<u64>)
    requires
        made_under(a, b, s),
        forall|p: u64| #[trigger] s.contains(p) ==> t.contains(p),
    ensures
        made_under(a, b, t),
{
    assert forall|d: u64| #[trigger] numbers_between(a.next, b.next).contains(d) implies t.contains(b.entries[d].spec_parent())
        || numbers_between(a.next, b.next).contains(b.entries[d].spec_parent()) by {
        if s.contains(b.entries[d].spec_parent()) {
            assert(t.contains(b.entries[d].spec_parent()));
        }
    }
}

/// Nothing is made when the counter stays.
pub proof fn lemma_made_under_unchanged(a: InodeTableView, b: InodeTableView, s: Set<u64>)
    requires
        a.next == b.next,
    ensures
        made_under(a, b, s),
{
}

/// Entries made in two steps hang from what the first step allowed, when
/// the second step's allowed entries are allowed by the first or made in
/// it.
pub proof fn lemma_made_under_trans(a: InodeTableView, b: InodeTableView, c: InodeTableView, s: Set<u64>, t: Set<u64>)
    requires
        table_extends(a, b),
        table_extends(b, c),
        made_under(a, b, s),
        made_under(b, c, t),
        forall|p: u64| #[trigger] t.contains(p) ==> s.contains(p) || numbers_between(a.next, b.next).contains(p),
    ensures
        made_under(a, c, s),
{
    assert forall|d: u64| #[trigger] numbers_between(a.next, c.next).contains(d) implies s.contains(c.entries[d].spec_parent())
        || numbers_between(a.next, c.next).contains(c.entries[d].spec_parent()) by {
        if d < b.next {
            assert(numbers_between(a.next, b.next).contains(d));
            assert(b.entries.dom().contains(d)) by {
                assert(a.entries.dom().union(numbers_between(a.next, b.next)).contains(d));
            }
            assert(same_except_children(b.entries[d], c.entries[d]));
        } else {
            assert(numbers_between(b.next, c.next).contains(d));
        }
    }
}

/// A list that gains nothing made under it: when no entry made since
/// `pre` hangs from the directory `k`, its list is the old one.
pub proof fn lemma_nothing_new_under(t: Map<u64, InodeEntry>, k: u64, old: Seq<u64>, a: u64, b: u64)
    requires
        forall|d: u64| a <= d < b && #[trigger] t.dom().contains(d) ==> t[d].spec_parent() != k,
    ensures
        new_children(t, k, old, a, b).len() == 0,
{
    lemma_new_children_members(t, k, old, a, b);
    if new_children(t, k, old, a, b).len() > 0 {
        let d = new_children(t, k, old, a, b)[0];
        assert(t.dom().contains(d));
    }
}

/// The stored path of the entry `ino` is in the path index and leads to an
/// entry stored under that path: `ino` itself, or an entry made later
/// under the same path.
pub open spec fn path_found(v: InodeTableView, ino: u64) -> bool {
    let p = v.entries[ino].spec_canonical_path();
    &&& v.paths.dom().contains(p)
    &&& v.entries.dom().contains(v.paths[p])
    &&& v.entries[v.paths[p]].spec_canonical_path() == p
}

/// The stored path of the entry `ino` leads to it in the path index.
pub open spec fn path_leads_to(v: InodeTableView, ino: u64) -> bool {
    let p = v.entries[ino].spec_canonical_path();
    v.paths.dom().contains(p) && v.paths[p] == ino
}

/// `ino` is a file entry of a torrent with the given name, index and size.
pub open spec fn holds_file(v: InodeTableView, ino: u64, name: Seq<char>, torrent_id: u64, index: u64, size: u64) -> bool {
    &&& v.entries.dom().contains(ino)
    &&& v.entries[ino] matches InodeEntry::File { name: n, torrent_id: t, file_index: f, size: s, .. }
    &&& n@ == name && t == torrent_id && f == index && s == size
    &&& path_found(v, ino)
}

/// `parent` is a directory of the table whose children list holds `ino`.
pub open spec fn listed_under(v: InodeTableView, parent: u64, ino: u64) -> bool {
    &&& v.entries.dom().contains(parent)
    &&& v.entries[parent] is Directory
    &&& v.entries[parent].spec_children().contains(ino)
}

/// `d` is a directory of the table.
pub open spec fn is_dir_in(v: InodeTableView, d: u64) -> bool {
    v.entries.dom().contains(d) && v.entries[d] is Directory
}

/// `d` is a directory entry with the given name, parent and stored path,
/// listed under its parent.
pub open spec fn holds_dir(v: InodeTableView, d: u64, name: Seq<char>, parent: u64, canonical: Seq<char>) -> bool {
    &&& v.entries.dom().contains(d)
    &&& v.entries[d] matches InodeEntry::Directory { name: n, parent: p, canonical_path: c, .. }
    &&& n@ == name && p == parent && c@ == canonical
    &&& listed_under(v, parent, d)
    &&& path_found(v, d)
}

/// `ino` is a torrent's file entry under `parent`, listed there.
pub open spec fn holds_file_under(v: InodeTableView, ino: u64, name: Seq<char>, parent: u64, torrent_id: u64, index: u64, size: u64) -> bool {
    &&& holds_file(v, ino, name, torrent_id, index, size)
    &&& v.entries[ino].spec_parent() == parent
    &&& listed_under(v, parent, ino)
}

pub proof fn lemma_extends_refl(a: InodeTableView)
    ensures
        table_extends(a, a),
{
    assert(a.entries.dom() =~= a.entries.dom().union(numbers_between(a.next, a.next)));
}

pub proof fn lemma_extends_trans(a: InodeTableView, b: InodeTableView, c: InodeTableView)
    requires
        table_extends(a, b),
        table_extends(b, c),
    ensures
        table_extends(a, c),
{
    assert forall|k: u64| #[trigger] a.entries.dom().contains(k) implies same_except_children(a.entries[k], c.entries[k]) by {
        assert(same_except_children(a.entries[k], b.entries[k]));
        assert(same_except_children(b.entries[k], c.entries[k]));
    }
    assert forall|k: u64, x: u64| #[trigger] a.entries.dom().contains(k) && #[trigger] a.entries[k].spec_children().contains(x) implies c.entries[k].spec_children().contains(x) by {
        assert(b.entries[k].spec_children().contains(x));
    }
    assert(c.entries.dom() =~= a.entries.dom().union(numbers_between(a.next, c.next)));
    assert forall|p: Seq<char>| #[trigger] a.paths.dom().contains(p) implies c.paths.dom().contains(p) && (c.paths[p]
        == a.paths[p] || (c.entries.dom().contains(c.paths[p]) && c.entries[c.paths[p]].spec_canonical_path() == p)) by {
        assert(b.paths.dom().contains(p));
        if c.paths[p] == b.paths[p] && b.paths[p] != a.paths[p] {
            assert(same_except_children(b.entries[b.paths[p]], c.entries[b.paths[p]]));
        }
    }
}

/// An allocation extends the table.
pub proof fn lemma_allocation_extends(pre: InodeTableView, post: InodeTableView, path: Seq<char>, torrent: Option<u64>, r: u64)
    requires
        pre.allocation(post, path, torrent, r),
        pre.allocation_succeeds() ==> post.entries[r].spec_canonical_path() == path,
    ensures
        table_extends(pre, post),
{
    assert(post.entries.dom() =~= pre.entries.dom().union(numbers_between(pre.next, post.next)));
    if pre.allocation_succeeds() {
        assert forall|k: u64| #[trigger] pre.entries.dom().contains(k) implies same_except_children(pre.entries[k], post.entries[k]) by {
            assert(post.entries[k] == pre.entries[k]);
        }
        assert forall|k: u64, c: u64| #[trigger] pre.entries.dom().contains(k) && #[trigger] pre.entries[k].spec_children().contains(c)
            implies post.entries[k].spec_children().contains(c) by {
            assert(post.entries[k] == pre.entries[k]);
        }
    }
}

/// What the path index says of an entry stays when the table is extended.
pub proof fn lemma_path_found_kept(a: InodeTableView, b: InodeTableView, ino: u64)
    requires
        table_extends(a, b),
        a.entries.dom().contains(ino),
        path_found(a, ino),
    ensures
        path_found(b, ino),
{
    let p = a.entries[ino].spec_canonical_path();
    assert(same_except_children(a.entries[ino], b.entries[ino]));
    if b.paths[p] == a.paths[p] {
        assert(same_except_children(a.entries[a.paths[p]], b.entries[a.paths[p]]));
    }
}

/// What a table holds of an entry's kind, name, parent and list
/// membership stays when the table is extended.
pub proof fn lemma_extends_keeps(a: InodeTableView, b: InodeTableView)
    requires
        table_extends(a, b),
    ensures
        forall|d: u64, name: Seq<char>, parent: u64, canonical: Seq<char>| #[trigger] holds_dir(a, d, name, parent, canonical) ==> holds_dir(b, d, name, parent, canonical),
        forall|f: u64, name: Seq<char>, parent: u64, t: u64, i: u64, s: u64| #[trigger] holds_file_under(a, f, name, parent, t, i, s) ==> holds_file_under(b, f, name, parent, t, i, s),
        forall|d: u64| #[trigger] is_dir_in(a, d) ==> is_dir_in(b, d),
{
    assert forall|d: u64, name: Seq<char>, parent: u64, canonical: Seq<char>| #[trigger] holds_dir(a, d, name, parent, canonical) implies holds_dir(b, d, name, parent, canonical) by {
        lemma_path_found_kept(a, b, d);
        assert(same_except_children(a.entries[d], b.entries[d]));
        assert(same_except_children(a.entries[parent], b.entries[parent]));
        assert(a.entries[parent].spec_children().contains(d));
    }
    assert forall|f: u64, name: Seq<char>, parent: u64, t: u64, i: u64, s: u64| #[trigger] holds_file_under(a, f, name, parent, t, i, s) implies holds_file_under(b, f, name, parent, t, i, s) by {
        lemma_path_found_kept(a, b, f);
        assert(same_except_children(a.entries[f], b.entries[f]));
        assert(same_except_children(a.entries[parent], b.entries[parent]));
        assert(a.entries[parent].spec_children().contains(f));
    }
    assert forall|d: u64| #[trigger] is_dir_in(a, d) implies is_dir_in(b, d) by {
        assert(same_except_children(a.entries[d], b.entries[d]));
    }
}

/// The components of a file's path, as characters.
pub open spec fn comp_views(file: FileInfo) -> Seq<Seq<char>> {
    file.components@.map_values(|c: String| c@)
}

/// Every directory that `dirs` maps to is a directory of the table.
pub open spec fn dirs_valid(v: InodeTableView, dirs: Map<Seq<char>, u64>) -> bool {
    forall|k: Seq<char>| #[trigger] dirs.dom().contains(k) ==> is_dir_in(v, dirs[k])
}

/// The directory that the first `k` components of a path lead to: the
/// torrent's directory for none, else the one created for their key.
pub open spec fn prefix_dir(dirs: Map<Seq<char>, u64>, comps: Seq<Seq<char>>, k: nat, torrent_dir: u64) -> u64 {
    if k == 0 {
        torrent_dir
    } else {
        dirs[dir_key(comps, k)]
    }
}

/// What creating the entry of one file of a torrent leaves, `dirs0` and
/// `dirs` being the created directories before and after. A file without
/// components gets an entry under the torrent's directory named after the
/// file, except during discovery, which skips it. Otherwise every prefix
/// of its components has a directory, created when its key was new, named
/// after the component (sanitized) and listed under the directory of the
/// shorter prefix; the file gets an entry named after its last component
/// under the directory of all the others. The numbers used are those of
/// the new directories and of the file, which gets the last one, and the
/// file's stored path leads to it in the path index. What is stated of new
/// entries holds when the table has room for them and the directories
/// given are valid.
pub open spec fn file_entry_made(
    pre: InodeTableView,
    post: InodeTableView,
    dirs0: Map<Seq<char>, u64>,
    dirs: Map<Seq<char>, u64>,
    file: FileInfo,
    index: u64,
    torrent_id: u64,
    torrent_dir: u64,
    dir_path: Seq<char>,
    discovery: bool,
    r: u64,
) -> bool {
    let comps = comp_views(file);
    let n = comps.len();
    let valid = is_dir_in(pre, torrent_dir) && dirs_valid(pre, dirs0);
    if n == 0 {
        if discovery {
            r == 0 && post == pre
        } else {
            room(pre, 1) && valid ==> holds_file_under(post, r, sanitized(file.name@), torrent_dir, torrent_id, index, file.length)
                && path_leads_to(post, r) && r == pre.next && post.next == pre.next + 1
        }
    } else {
        &&& forall|k: nat| 1 <= k < n ==> dirs.dom().contains(#[trigger] dir_key(comps, k))
        &&& forall|d: u64| #[trigger] numbers_between(pre.next, post.next).contains(d) ==> d == r || exists|k: nat| 1 <= k < n && !dirs0.dom().contains(
            #[trigger] dir_key(comps, k),
        ) && dirs[dir_key(comps, k)] == d
        &&& room(pre, n) && valid ==> {
            &&& path_leads_to(post, r)
            &&& pre.next <= r && r + 1 == post.next
            &&& forall|k: nat| 1 <= k < n && !dirs0.dom().contains(#[trigger] dir_key(comps, k)) ==> pre.next
                <= dirs[dir_key(comps, k)] < r
            &&& holds_file_under(
                post,
                r,
                sanitized(comps[n - 1]),
                prefix_dir(dirs, comps, (n - 1) as nat, torrent_dir),
                torrent_id,
                index,
                file.length,
            )
            &&& forall|k: nat| 1 <= k < n && !dirs0.dom().contains(#[trigger] dir_key(comps, k)) ==> holds_dir(
                post,
                dirs[dir_key(comps, k)],
                sanitized(comps[k - 1]),
                prefix_dir(dirs, comps, (k - 1) as nat, torrent_dir),
                dir_canonical(dir_path, dir_key(comps, k), discovery),
            )
            &&& dirs_valid(post, dirs)
        }
    }
}

/// The most entries that creating a file's entry allocates: one per
/// component, and one for a file without components.
pub open spec fn file_cost(file: FileInfo) -> nat {
    if file.components@.len() == 0 {
        1
    } else {
        file.components@.len()
    }
}

/// The most entries that creating the entries of `files` allocates.
pub open spec fn files_cost(files: Seq<FileInfo>) -> nat
    decreases files.len(),
{
    if files.len() == 0 {
        0
    } else {
        file_cost(files[0]) + files_cost(files.drop_first())
    }
}

/// The name a file's entry gets: its last component, or its own name
/// when it has none, sanitized.
pub open spec fn file_name_of(file: FileInfo) -> Seq<char> {
    let c = comp_views(file);
    if c.len() == 0 {
        sanitized(file.name@)
    } else {
        sanitized(c[c.len() - 1])
    }
}

/// The table holds an entry for file `index` of a torrent, named after
/// the file and listed in its directory.
pub open spec fn file_placed(v: InodeTableView, file: FileInfo, torrent_id: u64, index: u64) -> bool {
    exists|ino: u64, parent: u64| #[trigger] holds_file_under(v, ino, file_name_of(file), parent, torrent_id, index, file.length)
}

/// The name of the single file of a torrent: its last component, or the
/// torrent's name when it has none, sanitized.
pub open spec fn single_file_name(info: TorrentInfo) -> Seq<char> {
    let c = comp_views(info.files@[0]);
    if c.len() == 0 {
        sanitized(info.name@)
    } else {
        sanitized(c[c.len() - 1])
    }
}

/// The torrent's directory under the root, named after the torrent and
/// mapped to by the torrent index, when the table had room for it.
pub open spec fn torrent_dir_made(pre: InodeTableView, post: InodeTableView, info: TorrentInfo) -> bool {
    room(pre, 1) ==> {
        &&& post.torrents == pre.torrents.insert(info.id, post.torrents[info.id])
        &&& holds_dir(post, post.torrents[info.id], sanitized(info.name@), 1, "/"@ + sanitized(info.name@))
    }
}

/// Every file of a torrent has its entry (during discovery, every file
/// with components).
pub open spec fn files_placed(v: InodeTableView, info: TorrentInfo, discovery: bool) -> bool {
    forall|i: int| 0 <= i < info.files@.len() && (!discovery || info.files@[i].components@.len() > 0)
        ==> #[trigger] file_placed(v, info.files@[i], info.id, i as u64)
}

/// The structure of a torrent is in the table and the torrent maps to its
/// top entry. Outside discovery a single-file torrent's file stands
/// directly under the root; otherwise a directory under the root named
/// after the torrent holds its single file, or the entries of its files.
pub open spec fn structure_present(v: InodeTableView, info: TorrentInfo, discovery: bool) -> bool {
    &&& v.torrents.dom().contains(info.id)
    &&& if info.files@.len() == 1 && !discovery {
        holds_file_under(v, v.torrents[info.id], single_file_name(info), 1, info.id, 0, info.files@[0].length)
    } else {
        &&& holds_dir(v, v.torrents[info.id], sanitized(info.name@), 1, "/"@ + sanitized(info.name@))
        &&& if info.files@.len() == 1 {
            exists|f: u64| #[trigger] holds_file_under(
                v,
                f,
                single_file_name(info),
                v.torrents[info.id],
                info.id,
                0,
                info.files@[0].length,
            )
        } else {
            files_placed(v, info, discovery)
        }
    }
}

/// A torrent's structure stays when the table is extended and the torrent
/// keeps its mapping.
pub proof fn lemma_structure_kept(a: InodeTableView, b: InodeTableView, info: TorrentInfo, discovery: bool)
    requires
        table_extends(a, b),
        structure_present(a, info, discovery),
        b.torrents.dom().contains(info.id),
        b.torrents[info.id] == a.torrents[info.id],
    ensures
        structure_present(b, info, discovery),
{
    lemma_extends_keeps(a, b);
    if !(info.files@.len() == 1 && !discovery) {
        if info.files@.len() == 1 {
            let f = choose|f: u64| #[trigger] holds_file_under(
                a,
                f,
                single_file_name(info),
                a.torrents[info.id],
                info.id,
                0,
                info.files@[0].length,
            );
            assert(holds_file_under(b, f, single_file_name(info), b.torrents[info.id], info.id, 0, info.files@[0].length));
        } else {
            assert forall|i: int| 0 <= i < info.files@.len() && (!discovery || info.files@[i].components@.len() > 0)
                implies #[trigger] file_placed(b, info.files@[i], info.id, i as u64) by {
                assert(file_placed(a, info.files@[i], info.id, i as u64));
                let (ino, parent) = choose|ino: u64, parent: u64| #[trigger] holds_file_under(
                    a,
                    ino,
                    file_name_of(info.files@[i]),
                    parent,
                    info.id,
                    i as u64,
                    info.files@[i].length,
                );
                assert(holds_file_under(b, ino, file_name_of(info.files@[i]), parent, info.id, i as u64, info.files@[i].length));
            }
        }
    }
}

/// Whether `list[i]` is the first listed torrent with its id and the table
/// `pre` did not hold that torrent.
pub open spec fn newly_listed(pre: InodeTableView, list: Seq<TorrentInfo>, i: int) -> bool {
    &&& !pre.torrents.dom().contains(list[i].id)
    &&& forall|m: int| 0 <= m < i ==> list[m].id != list[i].id
}

/// How many of the first `n` listed torrents are [`newly_listed`].
pub open spec fn newly_listed_count(pre: InodeTableView, list: Seq<TorrentInfo>, n: int) -> nat
    decreases n,
{
    if n <= 0 {
        0
    } else {
        newly_listed_count(pre, list, n - 1) + if newly_listed(pre, list, n - 1) {
            1nat
        } else {
            0nat
        }
    }
}

/// What creating the structures of the listed torrents leaves (`discovery`
/// selecting how they are built): the table is extended, torrents already
/// mapped keep their mapping, only listed torrents are added, each torrent
/// that was not there gets its structure when the table had room for all
/// the entries, with every children list grown by exactly the entries
/// made under it and every new entry hanging from the root or from another
/// new entry, and when every listed torrent was there nothing changes.
pub open spec fn structures_made(pre: FsView, post: FsView, list: Seq<TorrentInfo>, discovery: bool) -> bool {
    &&& post == pre.with_inodes(post.inodes)
    &&& table_extends(pre.inodes, post.inodes)
    &&& forall|id: u64| #[trigger] pre.inodes.torrents.dom().contains(id) ==> post.inodes.torrents.dom().contains(id)
        && post.inodes.torrents[id] == pre.inodes.torrents[id]
    &&& forall|id: u64| #[trigger] post.inodes.torrents.dom().contains(id) ==> pre.inodes.torrents.dom().contains(id)
        || list.map_values(|t: TorrentInfo| t.id).contains(id)
    &&& room(pre.inodes, torrents_cost(list)) ==> forall|i: int| 0 <= i < list.len() ==> post.inodes.torrents.dom().contains(#[trigger] list[i].id)
    &&& room(pre.inodes, torrents_cost(list)) ==> forall|i: int| 0 <= i < list.len() && newly_listed(pre.inodes, list, i)
        ==> #[trigger] structure_present(post.inodes, list[i], discovery)
    &&& room(pre.inodes, torrents_cost(list)) ==> children_grown(pre.inodes, post.inodes)
    &&& room(pre.inodes, torrents_cost(list)) ==> made_under(pre.inodes, post.inodes, set![1u64])
    &&& (forall|i: int| 0 <= i < list.len() ==> pre.inodes.torrents.dom().contains(#[trigger] list[i].id)) ==> post == pre
}

/// `states` runs from one state to the next by removing the torrents
/// `ids` in turn, each as [`torrent_removed_from_fs`] says.
pub open spec fn removal_chain(states: Seq<FsView>, ids: Seq<u64>) -> bool {
    &&& states.len() == ids.len() + 1
    &&& forall|i: int| 0 <= i < ids.len() ==> #[trigger] torrent_removed_from_fs(states[i], states[i + 1], ids[i])
}

/// The state after removing the torrents `ids` one after the other, each
/// as [`torrent_removed_from_fs`] says, and nothing else.
pub open spec fn torrents_removed_in_turn(pre: FsView, post: FsView, ids: Seq<u64>) -> bool {
    exists|states: Seq<FsView>| #[trigger] removal_chain(states, ids) && states[0] == pre && states.last() == post
}

/// What recording a discovery at `now_ms` that found `current` leaves:
/// they are the known torrents, and the torrents known before but no
/// longer listed are removed one after the other (in some order), each
/// with its handles and its inode (the root excepted) and everything below
/// it, and nothing else changes; so each of their inodes is gone, and other
/// mapped torrents keep their mapping unless their inode went with a
/// removed one.
pub open spec fn discovery_recorded(pre: FsView, post: FsView, current: Seq<u64>, now_ms: u64) -> bool {
    &&& post.known == current.to_set()
    &&& post.last_discovery == now_ms
    &&& post.config == pre.config
    &&& post.metrics == pre.metrics
    &&& post.initialized == pre.initialized
    &&& post.handles.handles.dom().subset_of(pre.handles.handles.dom())
    &&& post.inodes.entries.dom().subset_of(pre.inodes.entries.dom())
    &&& forall|id: u64| #[trigger] pre.known.contains(id) && !current.contains(id)
        && pre.inodes.torrents.dom().contains(id) && pre.inodes.torrents[id] != 1
        ==> !post.inodes.entries.dom().contains(pre.inodes.torrents[id])
    &&& forall|id: u64| #[trigger] pre.inodes.torrents.dom().contains(id) && (current.contains(id) || !pre.known.contains(id))
        ==> (post.inodes.torrents.dom().contains(id) && post.inodes.torrents[id] == pre.inodes.torrents[id])
            || !post.inodes.entries.dom().contains(pre.inodes.torrents[id])
    &&& exists|order: Seq<u64>| #[trigger] torrents_removed_in_turn(
        FsView { known: pre.known.union(current.to_set()), last_discovery: now_ms, ..pre },
        post,
        order,
    ) && order.no_duplicates() && order.to_set() == pre.known.difference(current.to_set())
}

/// Whether a discovery is due at `now_ms` after one at `last_ms` (0 for
/// never): when forced, when none was made, or once the cooldown has
/// passed.
pub open spec fn discovery_due_at(force: bool, last_ms: u64, now_ms: u64) -> bool {
    force || last_ms == 0 || (now_ms >= last_ms && now_ms - last_ms >= DISCOVERY_COOLDOWN_MS)
}

/// The most entries that creating the structures of `torrents` allocates.
pub open spec fn torrents_cost(torrents: Seq<TorrentInfo>) -> nat
    decreases torrents.len(),
{
    if torrents.len() == 0 {
        0
    } else {
        1 + files_cost(torrents[0].files@) + torrents_cost(torrents.drop_first())
    }
}

/// What removing a torrent that left rqbit does: when it maps to an
/// inode, the torrent's handles are closed and the inode leaves the table
/// with everything below it (the root excepted); the torrent is no longer
/// known either way.
pub open spec fn torrent_removed_from_fs(pre: FsView, post: FsView, torrent_id: u64) -> bool {
    &&& post.known == pre.known.remove(torrent_id)
    &&& post.config == pre.config
    &&& post.metrics == pre.metrics
    &&& post.last_discovery == pre.last_discovery
    &&& post.initialized == pre.initialized
    &&& if pre.inodes.torrents.dom().contains(torrent_id) {
        let ino = pre.inodes.torrents[torrent_id];
        &&& post.handles.next == pre.handles.next
        &&& post.handles.max == pre.handles.max
        &&& post.handles.wrapped == pre.handles.wrapped
        &&& post.handles.handles == pre.handles.handles.restrict(
            pre.handles.handles.dom().filter(|k: u64| pre.handles.handles[k].torrent_id != torrent_id),
        )
        &&& if ino != 1 && pre.inodes.entries.dom().contains(ino) {
            subtree_removed(pre.inodes, post.inodes, ino)
        } else {
            post.inodes == pre.inodes
        }
    } else {
        post.handles == pre.handles && post.inodes == pre.inodes
    }
}

/// A key that is not empty grows with every later component.
pub proof fn lemma_dir_key_grows(comps: Seq<Seq<char>>, a: nat, b: nat)
    requires
        1 <= a < b <= comps.len(),
        dir_key(comps, a).len() > 0,
    ensures
        dir_key(comps, b).len() > dir_key(comps, a).len(),
    decreases b,
{
    reveal_strlit("/");
    if b - 1 > a {
        lemma_dir_key_grows(comps, a, (b - 1) as nat);
    }
    let prev = dir_key(comps, (b - 1) as nat);
    assert(prev.len() > 0);
    assert(dir_key(comps, b) == prev + "/"@ + comps[b - 1]);
}

/// The directories created for a torrent, by the key of the components
/// that led to them.
struct DirIndex {
    entries: Vec<(String, u64)>,
}

impl DirIndex {
    spec fn has(&self, k: Seq<char>) -> bool {
        exists|i: int| 0 <= i < self.entries@.len() && #[trigger] self.entries@[i].0@ == k
    }

    spec fn index_of(&self, k: Seq<char>) -> int {
        choose|i: int| 0 <= i < self.entries@.len() && #[trigger] self.entries@[i].0@ == k
    }

    spec fn map(&self) -> Map<Seq<char>, u64> {
        Map::new(|k: Seq<char>| self.has(k), |k: Seq<char>| self.entries@[self.index_of(k)].1)
    }

    spec fn unique(&self) -> bool {
        forall|i: int, j: int|
            0 <= i < self.entries@.len() && 0 <= j < self.entries@.len() && i != j ==> #[trigger] self.entries@[i].0@
                != #[trigger] self.entries@[j].0@
    }

    fn new(root: u64) -> (d: Self)
        ensures
            d.unique(),
            d.map() == Map::<Seq<char>, u64>::empty().insert(Seq::empty(), root),
    {
        let mut entries: Vec<(String, u64)> = Vec::new();
        entries.push((String::from_str(""), root));
        proof {
            reveal_strlit("");
        }
        let d = DirIndex { entries };
        assert(d.entries@[0].0@ =~= Seq::<char>::empty());
        assert(d.has(Seq::empty()));
        assert(d.map() =~= Map::<Seq<char>, u64>::empty().insert(Seq::empty(), root));
        d
    }

    fn get(&self, key: &str) -> (r: Option<u64>)
        requires
            self.unique(),
        ensures
            r == (if self.map().dom().contains(key@) { Some(self.map()[key@]) } else { None::<u64> }),
    {
        let mut i: usize = 0;
        while i < self.entries.len()
            invariant
                i <= self.entries@.len(),
                self.unique(),
                forall|j: int| 0 <= j < i ==> self.entries@[j].0@ != key@,
            decreases self.entries.len() - i,
        {
            if str_equal(self.entries[i].0.as_str(), key) {
                assert(self.has(key@) && self.entries@[i as int].0@ == key@);
                let ghost c = self.index_of(key@);
                assert(0 <= c < self.entries@.len() && self.entries@[c].0@ == key@);
                assert(self.entries@[c].0@ == self.entries@[i as int].0@);
                assert(c == i);
                return Some(self.entries[i].1);
            }
            i = i + 1;
        }
        None
    }

    #[verifier::spinoff_prover]
    fn insert(&mut self, key: String, value: u64)
        requires
            old(self).unique(),
            !old(self).map().dom().contains(key@),
        ensures
            final(self).unique(),
            final(self).map() == old(self).map().insert(key@, value),
    {
        let ghost k = key@;
        let ghost pre = *self;
        self.entries.push((key, value));
        let ghost n = pre.entries@.len();
        assert(self.entries@[n as int].0@ == k);
        assert forall|q: Seq<char>| #[trigger] self.map().dom().contains(q) <==> pre.map().dom().insert(k).contains(q) by {
            if pre.has(q) {
                let i = pre.index_of(q);
                assert(self.entries@[i].0@ == q);
            }
            if self.has(q) && q != k {
                let i = self.index_of(q);
                assert(pre.entries@[i].0@ == q);
            }
        }
        assert forall|q: Seq<char>| #[trigger] self.map().dom().contains(q) implies self.map()[q] == pre.map().insert(k, value)[q] by {
            let i = self.index_of(q);
            if q == k {
                assert(i == n);
            } else {
                let j = pre.index_of(q);
                assert(self.entries@[j].0@ == q);
                assert(i == j);
            }
        }
        assert(self.map() =~= pre.map().insert(k, value));
    }
}

impl View for TorrentFS {
    type V = FsView;

    closed spec fn view(&self) -> FsView {
        FsView {
            config: self.config,
            inodes: self.inode_manager@,
            handles: self.file_handles@,
            known: id_set(self.known_torrents),
            metrics: self.metrics,
            last_discovery: self.last_discovery,
            initialized: self.initialized,
        }
    }
}

impl TorrentFS {
    /// The invariant of the inode table and of the handle table.
    pub closed spec fn inv(&self) -> bool {
        self.inode_manager.inv() && self.file_handles.inv() && self.file_handles@.wf()
    }

    /// Creates a filesystem with only the root directory, no open handle
    /// and no known torrent. Nothing is mounted and no torrent is looked
    /// for until the filesystem is initialized.
    pub fn new(config: Config, metrics: Metrics) -> (fs: Self)
        ensures
            fs.inv(),
            fs@.config == config,
            fs@.inodes.entries.dom() == set![1u64],
            fs@.inodes.paths == Map::<Seq<char>, u64>::empty().insert("/"@, 1),
            fs@.inodes.torrents == Map::<u64, u64>::empty(),
            fs@.inodes.next == 2,
            fs@.inodes.max == MAX_INODES,
            fs@.handles.next == 1,
            fs@.handles.handles == Map::<u64, FileHandle>::empty(),
            fs@.handles.max == 0,
            fs@.known == Set::<u64>::empty(),
            fs@.metrics == metrics,
            fs@.last_discovery == 0,
            !fs@.initialized,
    {
        TorrentFS {
            config,
            inode_manager: InodeManager::with_max_inodes(MAX_INODES),
            file_handles: FileHandleManager::new(),
            known_torrents: id_set_new(),
            metrics,
            last_discovery: 0,
            initialized: false,
        }
    }

    /// Get a reference to the config.
    pub fn config(&self) -> (r: &Config)
        ensures
            *r == self@.config,
    {
        &self.config
    }

    /// Get the mount point path.
    pub fn mount_point(&self) -> (r: &str)
        ensures
            r@ == self@.config.mount_point@,
    {
        self.config.mount_point.as_str()
    }

    /// Returns a reference to the inode manager.
    pub fn inode_manager(&self) -> (r: &InodeManager)
        ensures
            r@ == self@.inodes,
            self.inv() ==> r.inv(),
    {
        &self.inode_manager
    }

    /// Gives the inode manager to change; whatever is done to it is what
    /// the filesystem holds afterwards, and the rest stays.
    pub fn inode_manager_mut(&mut self) -> (r: &mut InodeManager)
        requires
            old(self).inv(),
        ensures
            r@ == old(self)@.inodes,
            r.inv(),
            final(self)@ == old(self)@.with_inodes(final(r)@),
            final(r).inv() ==> final(self).inv(),
    {
        &mut self.inode_manager
    }

    /// Returns a reference to the file handle manager.
    pub fn file_handles(&self) -> (r: &FileHandleManager)
        ensures
            r@ == self@.handles,
            self.inv() ==> r.inv(),
    {
        &self.file_handles
    }

    /// Returns the counters.
    pub fn metrics(&self) -> (r: &Metrics)
        ensures
            *r == self@.metrics,
    {
        &self.metrics
    }

    /// A copy of the set of known torrents: each id once.
    pub fn known_torrents(&self) -> (r: Vec<u64>)
        ensures
            r@.no_duplicates(),
            r@.to_set() == self@.known,
    {
        id_set_items(&self.known_torrents)
    }

    /// Returns true if the filesystem has been initialized.
    pub fn is_initialized(&self) -> (r: bool)
        ensures
            r == self@.initialized,
    {
        self.initialized
    }

    /// Time of the last discovery in milliseconds (0 for never).
    pub fn last_discovery(&self) -> (r: u64)
        ensures
            r == self@.last_discovery,
    {
        self.last_discovery
    }

    /// Current concurrency statistics, given the read permits that are free.
    pub fn concurrency_stats(&self, available_permits: usize) -> (r: ConcurrencyStats)
        ensures
            r == (ConcurrencyStats {
                max_concurrent_reads: self@.config.max_concurrent_reads,
                available_permits,
            }),
    {
        ConcurrencyStats { max_concurrent_reads: self.config.max_concurrent_reads, available_permits }
    }

    fn count_error(&mut self)
        ensures
            final(self)@ == old(self)@.with_error(),
            final(self).inv() == old(self).inv(),
    {
        self.metrics.record_error();
    }

    /// Build file attributes for a given inode entry, for the owner
    /// `uid`/`gid`: directories are `r-xr-xr-x` with two links more than
    /// they have children, files `r--r--r--` with one block per started
    /// 4 KiB, symbolic links `rwxrwxrwx` as long as their target's bytes.
    pub fn build_file_attr(&self, entry: &InodeEntry, uid: u32, gid: u32) -> (r: AttrFields)
        requires
            self.inv(),
        ensures
            r == entry_attr(self@.inodes.entries, *entry, uid, gid),
    {
        match entry {
            InodeEntry::Directory { ino, .. } => {
                let kids = self.inode_manager.get_children(*ino);
                let n = kids.len() as u64;
                let low = n % 0x1_0000_0000;
                let nlink = ((low + 2) % 0x1_0000_0000) as u32;
                proof {
                    vstd::arithmetic::div_mod::lemma_add_mod_noop(n as int, 2, 0x1_0000_0000);
                    vstd::arithmetic::div_mod::lemma_small_mod(2, 0x1_0000_0000);
                    vstd::arithmetic::div_mod::lemma_mod_twice(n as int, 0x1_0000_0000);
                }
                AttrFields {
                    ino: *ino,
                    size: 0,
                    blocks: 0,
                    kind: FileKind::Directory,
                    perm: 0o555,
                    nlink,
                    uid,
                    gid,
                    rdev: 0,
                    flags: 0,
                    blksize: 4096,
                }
            },
            InodeEntry::File { ino, size, .. } => AttrFields {
                ino: *ino,
                size: *size,
                blocks: div_ceil(*size, 4096),
                kind: FileKind::RegularFile,
                perm: 0o444,
                nlink: 1,
                uid,
                gid,
                rdev: 0,
                flags: 0,
                blksize: 4096,
            },
            InodeEntry::Symlink { ino, target, .. } => AttrFields {
                ino: *ino,
                size: target.as_str().len() as u64,
                blocks: 1,
                kind: FileKind::Symlink,
                perm: 0o777,
                nlink: 1,
                uid,
                gid,
                rdev: 0,
                flags: 0,
                blksize: 4096,
            },
        }
    }

    /// Get file attributes: those of the entry, or `ENOENT` (counted as an
    /// error) when there is none.
    pub fn getattr(&mut self, ino: u64, uid: u32, gid: u32) -> (r: Result<AttrFields, Errno>)
        requires
            old(self).inv(),
        ensures
            final(self).inv(),
            r == (match old(self)@.entry(ino) {
                Some(e) => Ok(entry_attr(old(self)@.inodes.entries, e, uid, gid)),
                None => Err(Errno::ENOENT),
            }),
            r is Ok ==> final(self)@ == old(self)@,
            r is Err ==> final(self)@ == old(self)@.with_error(),
    {
        match self.inode_manager.get(ino) {
            Some(entry) => Ok(self.build_file_attr(&entry, uid, gid)),
            None => {
                self.count_error();
                Err(Errno::ENOENT)
            },
        }
    }

    /// Open a file for reading: a new handle for a regular file opened
    /// read-only. Directories (`EISDIR`), links (`ELOOP`), writes
    /// (`EACCES`), a missing entry (`ENOENT`) and a full handle table
    /// (`EMFILE`) are refused and counted as errors.
    pub fn open(&mut self, ino: u64, flags: i32) -> (r: Result<u64, Errno>)
        requires
            old(self).inv(),
        ensures
            final(self).inv(),
            match old(self)@.entry(ino) {
                None => r == Err::<u64, Errno>(Errno::ENOENT) && final(self)@ == old(self)@.with_error(),
                Some(e) => match open_refusal(e, flags) {
                    Some(err) => r == Err::<u64, Errno>(err) && final(self)@ == old(self)@.with_error(),
                    None => if old(self)@.handles.under_limit() {
                        &&& r == Ok::<u64, Errno>(old(self)@.handles.next_number())
                        &&& final(self)@ == old(self)@.with_handles(
                            old(self)@.handles.handles.insert(
                                old(self)@.handles.next_number(),
                                (FileHandle {
                                    fh: old(self)@.handles.next_number(),
                                    inode: ino,
                                    torrent_id: e.spec_torrent_id().unwrap_or(0),
                                    flags,
                                }),
                            ),
                            old(self)@.handles.counter_after(),
                        )
                    } else {
                        r == Err::<u64, Errno>(Errno::EMFILE) && final(self)@ == old(self)@.with_error()
                    },
                },
            },
    {
        let entry = match self.inode_manager.get(ino) {
            Some(e) => e,
            None => {
                self.count_error();
                return Err(Errno::ENOENT);
            },
        };
        if entry.is_directory() {
            self.count_error();
            return Err(Errno::EISDIR);
        }
        if entry.is_symlink() {
            self.count_error();
            return Err(Errno::ELOOP);
        }
        if !is_read_only_open(flags) {
            self.count_error();
            return Err(Errno::EACCES);
        }
        let torrent_id = match entry.torrent_id() {
            Some(id) => id,
            None => 0,
        };
        let fh = self.file_handles.allocate(ino, torrent_id, flags);
        if fh == 0 {
            self.count_error();
            return Err(Errno::EMFILE);
        }
        Ok(fh)
    }

    /// Release an open file: its handle is forgotten. The reply is always
    /// success; the handle removed, if there was one, is returned.
    pub fn release(&mut self, fh: u64) -> (r: Option<FileHandle>)
        requires
            old(self).inv(),
        ensures
            final(self).inv(),
            r == (if old(self)@.handles.handles.dom().contains(fh) {
                Some(old(self)@.handles.handles[fh])
            } else {
                None::<FileHandle>
            }),
            final(self)@ == old(self)@.with_handles(
                old(self)@.handles.handles.remove(fh),
                old(self)@.handles.next,
            ),
    {
        self.file_handles.remove(fh)
    }

    /// Read the target of a symbolic link: its bytes, `EINVAL` for another
    /// kind of entry, or `ENOENT` (counted as an error).
    pub fn readlink(&mut self, ino: u64) -> (r: Result<Vec<u8>, Errno>)
        requires
            old(self).inv(),
        ensures
            final(self).inv(),
            match old(self)@.entry(ino) {
                None => r == Err::<Vec<u8>, Errno>(Errno::ENOENT) && final(self)@ == old(self)@.with_error(),
                Some(InodeEntry::Symlink { target, .. }) => (r matches Ok(b) && b@
                    == vstd::utf8::encode_utf8(target@)) && final(self)@ == old(self)@,
                Some(_) => r == Err::<Vec<u8>, Errno>(Errno::EINVAL) && final(self)@ == old(self)@,
            },
    {
        match self.inode_manager.get(ino) {
            Some(InodeEntry::Symlink { target, .. }) => Ok(target.as_str().as_bytes_vec()),
            Some(_) => Err(Errno::EINVAL),
            None => {
                self.count_error();
                Err(Errno::ENOENT)
            },
        }
    }

    /// Check file access permissions: for mask 0 whether the entry exists;
    /// write access is always denied; execute only on directories.
    pub fn access(&self, ino: u64, mask: i32) -> (r: Result<(), Errno>)
        ensures
            r == access_answer(self@.entry(ino), mask),
    {
        if mask == 0 {
            if self.inode_manager.contains(ino) {
                return Ok(());
            } else {
                return Err(Errno::ENOENT);
            }
        }
        if mask & 2 != 0 {
            return Err(Errno::EACCES);
        }
        match self.inode_manager.get(ino) {
            Some(entry) => {
                if entry.is_directory() {
                    Ok(())
                } else if mask & 1 != 0 {
                    Err(Errno::EACCES)
                } else {
                    Ok(())
                }
            },
            None => Err(Errno::ENOENT),
        }
    }

    /// Get filesystem statistics: no blocks, and as many files and free
    /// files as the table has entries.
    pub fn statfs(&self) -> (r: StatfsReply)
        ensures
            r == (StatfsReply {
                blocks: 0,
                bfree: 0,
                bavail: 0,
                files: self@.inodes.entries.dom().len() as u64,
                ffree: self@.inodes.entries.dom().len() as u64,
                bsize: 4096,
                namelen: 255,
                frsize: 4096,
            }),
    {
        let n = self.inode_manager.len() as u64;
        StatfsReply { blocks: 0, bfree: 0, bavail: 0, files: n, ffree: n, bsize: 4096, namelen: 255, frsize: 4096 }
    }

    /// Get an extended attribute: only `user.torrent.status` is known, and
    /// no status is kept, so the answer is `ENOENT` for a missing entry
    /// asked for that attribute and "no such attribute" otherwise.
    pub fn getxattr(&self, ino: u64, name: &str) -> (r: Errno)
        ensures
            r == (if name@ == "user.torrent.status"@ && !self@.inodes.entries.dom().contains(ino) {
                Errno::ENOENT
            } else {
                Errno::ENODATA
            }),
    {
        if !crate::text::str_equal(name, "user.torrent.status") {
            return Errno::ENODATA;
        }
        if !self.inode_manager.contains(ino) {
            return Errno::ENOENT;
        }
        Errno::ENODATA
    }

    /// List extended attributes: the one name `user.torrent.status`, its
    /// size when `size` is 0, `ERANGE` when `size` is too small, `ENOENT`
    /// when the entry is missing.
    pub fn listxattr(&self, ino: u64, size: u32) -> (r: XattrListReply)
        ensures
            !self@.inodes.entries.dom().contains(ino) ==> r == XattrListReply::Error(Errno::ENOENT),
            self@.inodes.entries.dom().contains(ino) ==> {
                if size == 0 {
                    r == XattrListReply::Size(20)
                } else if 20 <= size {
                    r matches XattrListReply::Data(d) && d@ == "user.torrent.status\0"@.map_values(|c: char| c as u8)
                } else {
                    r == XattrListReply::Error(Errno::ERANGE)
                }
            },
    {
        if !self.inode_manager.contains(ino) {
            return XattrListReply::Error(Errno::ENOENT);
        }
        let attr_list = "user.torrent.status\0";
        proof {
            reveal_strlit("user.torrent.status\0");
        }
        let data = attr_list.as_bytes_vec();
        proof {
            vstd::string::is_ascii_spec_bytes(attr_list);
            assert(data@ =~= "user.torrent.status\0"@.map_values(|c: char| c as u8));
        }
        if size == 0 {
            XattrListReply::Size(data.len() as u32)
        } else if data.len() <= size as usize {
            XattrListReply::Data(data)
        } else {
            XattrListReply::Error(Errno::ERANGE)
        }
    }

    /// Initialize the filesystem once the mount point has been checked:
    /// the root must be a directory (else `EIO`), then the filesystem is
    /// marked initialized.
    pub fn init(&mut self) -> (r: Result<(), Errno>)
        requires
            old(self).inv(),
        ensures
            final(self).inv(),
            r is Ok <==> (old(self)@.entry(1) matches Some(e) && e is Directory),
            r is Err ==> r == Err::<(), Errno>(Errno::EIO) && final(self)@ == old(self)@,
            r is Ok ==> final(self)@ == old(self)@.with_initialized(true),
    {
        match self.inode_manager.get(1) {
            Some(entry) => {
                if !entry.is_directory() {
                    return Err(Errno::EIO);
                }
            },
            None => {
                return Err(Errno::EIO);
            },
        }
        self.initialized = true;
        Ok(())
    }

    /// Adds `child` to the children of `parent`.
    fn link_child(&mut self, parent: u64, child: u64)
        requires
            old(self).inv(),
        ensures
            final(self).inv(),
            table_extends(old(self)@.inodes, final(self)@.inodes),
            final(self)@.inodes.entries.dom() == old(self)@.inodes.entries.dom(),
            final(self)@.inodes.next == old(self)@.inodes.next,
            final(self)@.inodes.torrents == old(self)@.inodes.torrents,
            final(self)@.inodes.paths == old(self)@.inodes.paths,
            final(self)@ == old(self)@.with_inodes(final(self)@.inodes),
            child_added(old(self)@.inodes, final(self)@.inodes, parent, child),
            old(self)@.inodes.entries.dom().contains(parent) && old(self)@.inodes.entries[parent] is Directory ==> final(self)@.inodes.entries[parent].spec_children().contains(child),
    {
        let ghost pre = self@.inodes;
        self.inode_manager.add_child(parent, child);
        proof {
            let post = self@.inodes;
            assert(post.entries.dom() =~= pre.entries.dom().union(numbers_between(pre.next, post.next)));
            if pre.entries.dom().contains(parent) && pre.entries[parent] is Directory && !pre.entries[parent].spec_children().contains(child) {
                assert(post.entries[parent].spec_children() == pre.entries[parent].spec_children().push(child));
                assert(post.entries[parent].spec_children()[pre.entries[parent].spec_children().len() as int] == child);
                assert forall|c: u64| #[trigger] pre.entries[parent].spec_children().contains(c) implies post.entries[parent].spec_children().contains(c) by {
                    let i = choose|i: int| 0 <= i < pre.entries[parent].spec_children().len() && pre.entries[parent].spec_children()[i] == c;
                    assert(post.entries[parent].spec_children()[i] == c);
                }
            }
        }
    }

    /// Allocates a directory below `parent` (with the given stored path) and
    /// lists it there.
    fn make_dir(&mut self, name: String, parent: u64, canonical_path: String) -> (r: u64)
        requires
            old(self).inv(),
        ensures
            final(self).inv(),
            table_extends(old(self)@.inodes, final(self)@.inodes),
            final(self)@.inodes.torrents == old(self)@.inodes.torrents,
            final(self)@ == old(self)@.with_inodes(final(self)@.inodes),
            old(self)@.inodes.allocation_succeeds() ==> r == old(self)@.inodes.next && final(self)@.inodes.entries.dom() == old(self)@.inodes.entries.dom().insert(r)
                && final(self)@.inodes.next == old(self)@.inodes.next + 1 && is_dir_in(final(self)@.inodes, r)
                && path_leads_to(final(self)@.inodes, r)
                && (is_dir_in(old(self)@.inodes, parent) ==> holds_dir(final(self)@.inodes, r, name@, parent, canonical_path@)),
            old(self)@.inodes.allocation_succeeds() && parent != old(self)@.inodes.next ==> children_grown(old(self)@.inodes, final(self)@.inodes),
            made_under(old(self)@.inodes, final(self)@.inodes, set![parent]),
            !old(self)@.inodes.allocation_succeeds() ==> r == 0 && final(self)@.inodes.entries.dom() == old(self)@.inodes.entries.dom() && final(self)@.inodes.next == old(self)@.inodes.next,
    {
        let ghost n = name@;
        let ghost cp = canonical_path@;
        let entry = InodeEntry::Directory { ino: 0, name, parent, children: Vec::new(), canonical_path };
        let ghost pre = self@.inodes;
        let d = self.inode_manager.allocate(entry);
        let ghost mid = self@.inodes;
        proof {
            if d != 0 {
                assert(mid.entries.dom().contains(d));
            }
            lemma_allocation_extends(pre, mid, cp, None, d);
            assert forall|k: u64, c: u64| #[trigger] pre.entries.dom().contains(k) && #[trigger] pre.entries[k].spec_children().contains(c) implies mid.entries[k].spec_children().contains(c) by {
                if pre.allocation_succeeds() {
                    assert(mid.entries[k] == pre.entries[k]);
                }
            }
            assert(table_extends(pre, mid));
        }
        self.link_child(parent, d);
        proof {
            lemma_extends_trans(pre, mid, self@.inodes);
            if pre.allocation_succeeds() {
                assert(same_except_children(mid.entries[d], self@.inodes.entries[d]));
                assert(path_leads_to(self@.inodes, d));
                if parent != pre.next {
                    lemma_made_and_linked(pre, mid, self@.inodes, cp, None, d, parent);
                }
                assert forall|x: u64| #[trigger] numbers_between(pre.next, self@.inodes.next).contains(x) implies set![parent].contains(
                    self@.inodes.entries[x].spec_parent(),
                ) by {
                    assert(x == d);
                }
                if is_dir_in(pre, parent) {
                    assert(mid.entries[parent] == pre.entries[parent]);
                }
            }
        }
        d
    }

    /// Allocates a torrent's file below `parent` and lists it there.
    fn make_file(&mut self, name: String, parent: u64, torrent_id: u64, file_index: u64, size: u64) -> (r: u64)
        requires
            old(self).inv(),
        ensures
            final(self).inv(),
            table_extends(old(self)@.inodes, final(self)@.inodes),
            final(self)@.inodes.torrents == old(self)@.inodes.torrents,
            final(self)@ == old(self)@.with_inodes(final(self)@.inodes),
            old(self)@.inodes.allocation_succeeds() ==> r == old(self)@.inodes.next && final(self)@.inodes.entries.dom() == old(self)@.inodes.entries.dom().insert(r)
                && final(self)@.inodes.next == old(self)@.inodes.next + 1 && holds_file(final(self)@.inodes, r, name@, torrent_id, file_index, size)
                && path_leads_to(final(self)@.inodes, r)
                && final(self)@.inodes.entries[r].spec_parent() == parent
                && (is_dir_in(old(self)@.inodes, parent) ==> holds_file_under(final(self)@.inodes, r, name@, parent, torrent_id, file_index, size)),
            old(self)@.inodes.allocation_succeeds() && parent != old(self)@.inodes.next ==> children_grown(old(self)@.inodes, final(self)@.inodes),
            made_under(old(self)@.inodes, final(self)@.inodes, set![parent]),
            !old(self)@.inodes.allocation_succeeds() ==> r == 0 && final(self)@.inodes.entries.dom() == old(self)@.inodes.entries.dom() && final(self)@.inodes.next == old(self)@.inodes.next,
    {
        let ghost n = name@;
        let ghost pre = self@.inodes;
        let f = self.inode_manager.allocate_file(name, parent, torrent_id, file_index, size);
        let ghost mid = self@.inodes;
        proof {
            lemma_allocation_extends(pre, mid, child_path(pre.entries, parent, n), None, f);
            assert forall|k: u64, c: u64| #[trigger] pre.entries.dom().contains(k) && #[trigger] pre.entries[k].spec_children().contains(c) implies mid.entries[k].spec_children().contains(c) by {
                if pre.allocation_succeeds() {
                    assert(mid.entries[k] == pre.entries[k]);
                }
            }
            assert(table_extends(pre, mid));
        }
        self.link_child(parent, f);
        proof {
            lemma_extends_trans(pre, mid, self@.inodes);
            if pre.allocation_succeeds() {
                assert(mid.entries.dom().contains(f));
                assert(same_except_children(mid.entries[f], self@.inodes.entries[f]));
                assert(path_leads_to(self@.inodes, f));
                if parent != pre.next {
                    lemma_made_and_linked(pre, mid, self@.inodes, child_path(pre.entries, parent, n), None, f, parent);
                }
                assert forall|x: u64| #[trigger] numbers_between(pre.next, self@.inodes.next).contains(x) implies set![parent].contains(
                    self@.inodes.entries[x].spec_parent(),
                ) by {
                    assert(x == f);
                }
                if is_dir_in(pre, parent) {
                    assert(mid.entries[parent] == pre.entries[parent]);
                }
            }
        }
        f
    }

    /// Creates a file entry (and any necessary parent directories) for one
    /// file of a torrent: see [`file_entry_made`]. `dir_path` is the path
    /// of the torrent's directory; `discovery` selects how background
    /// discovery builds entries.
    fn create_file_entry(
        &mut self,
        file: &FileInfo,
        file_idx: u64,
        torrent_id: u64,
        torrent_dir: u64,
        dirs: &mut DirIndex,
        dir_path: &str,
        discovery: bool,
    ) -> (r: u64)
        requires
            old(self).inv(),
            old(dirs).unique(),
            old(dirs).map().dom().contains(Seq::empty()),
        ensures
            final(self).inv(),
            final(dirs).unique(),
            table_extends(old(self)@.inodes, final(self)@.inodes),
            final(self)@.inodes.torrents == old(self)@.inodes.torrents,
            final(self)@ == old(self)@.with_inodes(final(self)@.inodes),
            forall|k: Seq<char>| #[trigger] old(dirs).map().dom().contains(k) ==> final(dirs).map().dom().contains(k)
                && final(dirs).map()[k] == old(dirs).map()[k],
            file_entry_made(
                old(self)@.inodes,
                final(self)@.inodes,
                old(dirs).map(),
                final(dirs).map(),
                *file,
                file_idx,
                torrent_id,
                torrent_dir,
                dir_path@,
                discovery,
                r,
            ),
            comp_views(*file).len() == 0 ==> final(dirs).map() == old(dirs).map(),
            room(old(self)@.inodes, file_cost(*file)) && is_dir_in(old(self)@.inodes, torrent_dir) && dirs_valid(
                old(self)@.inodes,
                old(dirs).map(),
            ) ==> children_grown(old(self)@.inodes, final(self)@.inodes),
            room(old(self)@.inodes, file_cost(*file)) && is_dir_in(old(self)@.inodes, torrent_dir) && dirs_valid(
                old(self)@.inodes,
                old(dirs).map(),
            ) ==> made_under(old(self)@.inodes, final(self)@.inodes, dir_targets(torrent_dir, old(dirs).map()))
                && forall|key: Seq<char>| #[trigger] final(dirs).map().dom().contains(key) && !old(dirs).map().dom().contains(key)
                    ==> numbers_between(old(self)@.inodes.next, final(self)@.inodes.next).contains(final(dirs).map()[key]),
            final(self)@.inodes.next <= old(self)@.inodes.next + file_cost(*file),
            final(self)@.inodes.entries.dom().len() <= old(self)@.inodes.entries.dom().len() + file_cost(*file),
    {
        let ghost start = self@;
        let ghost dirs0 = dirs.map();
        let ghost comps = comp_views(*file);
        let n = file.components.len();
        proof {
            lemma_extends_refl(start.inodes);
            lemma_grown_unchanged(start.inodes, start.inodes);
            lemma_made_under_unchanged(start.inodes, start.inodes, dir_targets(torrent_dir, dirs0));
        }
        if n == 0 {
            if discovery {
                return 0;
            }
            let name = sanitize_filename(file.name.as_str());
            let f = self.make_file(name, torrent_dir, torrent_id, file_idx, file.length);
            proof {
                lemma_made_under_weaken(start.inodes, self@.inodes, set![torrent_dir], dir_targets(torrent_dir, dirs0));
            }
            return f;
        }
        let ghost ok = room(start.inodes, n as nat) && is_dir_in(start.inodes, torrent_dir) && dirs_valid(start.inodes, dirs0);
        let mut current_dir = torrent_dir;
        let mut current_path = String::new();
        let mut k: usize = 0;
        while k + 1 < n
            invariant
                self.inv(),
                dirs.unique(),
                n == comps.len(),
                comps == comp_views(*file),
                0 <= k < n,
                table_extends(start.inodes, self@.inodes),
                self@ == start.with_inodes(self@.inodes),
                self@.inodes.torrents == start.inodes.torrents,
                dirs0.dom().contains(Seq::empty()),
                forall|key: Seq<char>| #[trigger] dirs0.dom().contains(key) ==> dirs.map().dom().contains(key)
                    && dirs.map()[key] == dirs0[key],
                forall|key: Seq<char>| #[trigger] dirs.map().dom().contains(key) && !dirs0.dom().contains(key)
                    ==> exists|j: nat| 1 <= j <= k && dir_key(comps, j) == key,
                current_path@ == dir_key(comps, k as nat),
                current_dir == prefix_dir(dirs.map(), comps, k as nat, torrent_dir),
                forall|j: nat| 1 <= j <= k ==> dirs.map().dom().contains(#[trigger] dir_key(comps, j)),
                ok == (room(start.inodes, n as nat) && is_dir_in(start.inodes, torrent_dir) && dirs_valid(start.inodes, dirs0)),
                ok ==> room(self@.inodes, (n - k) as nat) && is_dir_in(self@.inodes, torrent_dir) && dirs_valid(self@.inodes, dirs.map()),
                self@.inodes.next <= start.inodes.next + k,
                self@.inodes.entries.dom().len() <= start.inodes.entries.dom().len() + k,
                self@.inodes.entries.dom().finite(),
                ok ==> forall|j: nat| 1 <= j <= k && !dirs0.dom().contains(#[trigger] dir_key(comps, j)) ==> holds_dir(
                    self@.inodes,
                    dirs.map()[dir_key(comps, j)],
                    sanitized(comps[j - 1]),
                    prefix_dir(dirs.map(), comps, (j - 1) as nat, torrent_dir),
                    dir_canonical(dir_path@, dir_key(comps, j), discovery),
                ),
                ok ==> children_grown(start.inodes, self@.inodes),
                ok ==> made_under(start.inodes, self@.inodes, dir_targets(torrent_dir, dirs0)),
                ok ==> forall|key: Seq<char>| #[trigger] dirs.map().dom().contains(key) && !dirs0.dom().contains(key)
                    ==> numbers_between(start.inodes.next, self@.inodes.next).contains(dirs.map()[key]),
                forall|d: u64| #[trigger] numbers_between(start.inodes.next, self@.inodes.next).contains(d) ==> exists|j: nat| 1 <= j <= k && !dirs0.dom().contains(
                    #[trigger] dir_key(comps, j),
                ) && dirs.map()[dir_key(comps, j)] == d,
                ok ==> forall|j: nat| 1 <= j <= k && !dirs0.dom().contains(#[trigger] dir_key(comps, j)) ==> start.inodes.next
                    <= dirs.map()[dir_key(comps, j)] < self@.inodes.next,
            decreases n - k,
        {
            let ghost cur = self@.inodes;
            let ghost dirs_before = dirs.map();
            let comp = file.components[k].as_str();
            assert(comp@ == comps[k as int]);
            if !current_path.as_str().is_empty() {
                crate::text::push_char(&mut current_path, '/');
            }
            current_path.append(comp);
            proof {
                reveal_strlit("/");
                assert(current_path@ =~= dir_key(comps, (k + 1) as nat));
            }
            match dirs.get(current_path.as_str()) {
                Some(ino) => {
                    current_dir = ino;
                    proof {
                        let key = dir_key(comps, (k + 1) as nat);
                        if !dirs0.dom().contains(key) {
                            let j = choose|j: nat| 1 <= j <= k && dir_key(comps, j) == key;
                            if dir_key(comps, j).len() > 0 {
                                lemma_dir_key_grows(comps, j, (k + 1) as nat);
                            }
                            assert(key.len() == 0);
                            assert(key =~= Seq::<char>::empty());
                        }
                        assert forall|d: u64| #[trigger] numbers_between(start.inodes.next, self@.inodes.next).contains(d) implies exists|j: nat| 1 <= j <= k + 1
                            && !dirs0.dom().contains(#[trigger] dir_key(comps, j)) && dirs.map()[dir_key(comps, j)] == d by {
                            assert(numbers_between(start.inodes.next, cur.next).contains(d));
                            let j = choose|j: nat| 1 <= j <= k && !dirs0.dom().contains(#[trigger] dir_key(comps, j)) && dirs.map()[dir_key(comps, j)] == d;
                        }
                    }
                },
                None => {
                    let dir_name = sanitize_filename(comp);
                    let canonical = if !discovery && str_equal(dir_path, "/") {
                        concat2("/", current_path.as_str())
                    } else {
                        concat3(dir_path, "/", current_path.as_str())
                    };
                    let new_dir = self.make_dir(dir_name, current_dir, canonical);
                    dirs.insert(copy_string(&current_path), new_dir);
                    proof {
                        let post = self@.inodes;
                        if ok {
                            if k >= 1 {
                                assert(dirs_before.dom().contains(dir_key(comps, k as nat)));
                                if dirs0.dom().contains(dir_key(comps, k as nat)) {
                                    assert(dir_targets(torrent_dir, dirs0).contains(current_dir));
                                }
                            }
                            assert(is_dir_in(cur, current_dir));
                            lemma_grown_trans(start.inodes, cur, post);
                            lemma_made_under_trans(start.inodes, cur, post, dir_targets(torrent_dir, dirs0), set![current_dir]);
                            assert forall|q: Seq<char>| #[trigger] dirs.map().dom().contains(q) && !dirs0.dom().contains(q)
                                implies numbers_between(start.inodes.next, post.next).contains(dirs.map()[q]) by {
                                if q != dir_key(comps, (k + 1) as nat) {
                                    assert(dirs_before.dom().contains(q));
                                    assert(numbers_between(start.inodes.next, cur.next).contains(dirs_before[q]));
                                }
                            }
                        }
                        lemma_extends_trans(start.inodes, cur, post);
                        lemma_extends_keeps(cur, post);
                        let key = dir_key(comps, (k + 1) as nat);
                        assert(!dirs_before.dom().contains(key));
                        assert(!dirs0.dom().contains(key));
                        assert forall|d: u64| #[trigger] numbers_between(start.inodes.next, post.next).contains(d) implies exists|j: nat| 1 <= j <= k + 1
                            && !dirs0.dom().contains(#[trigger] dir_key(comps, j)) && dirs.map()[dir_key(comps, j)] == d by {
                            if d < cur.next {
                                assert(numbers_between(start.inodes.next, cur.next).contains(d));
                                let j = choose|j: nat| 1 <= j <= k && !dirs0.dom().contains(#[trigger] dir_key(comps, j)) && dirs_before[dir_key(comps, j)] == d;
                                assert(dirs_before.dom().contains(dir_key(comps, j)));
                                assert(dirs.map()[dir_key(comps, j)] == d);
                            } else {
                                assert(dirs.map()[dir_key(comps, (k + 1) as nat)] == d);
                            }
                        }
                        if ok {
                            assert forall|j: nat| 1 <= j <= k + 1 && !dirs0.dom().contains(#[trigger] dir_key(comps, j)) implies start.inodes.next
                                <= dirs.map()[dir_key(comps, j)] < post.next by {
                                if j <= k {
                                    assert(dirs_before.dom().contains(dir_key(comps, j)));
                                }
                            }
                        }
                        assert forall|q: Seq<char>| #[trigger] dirs.map().dom().contains(q) && !dirs0.dom().contains(q)
                            implies exists|j: nat| 1 <= j <= k + 1 && dir_key(comps, j) == q by {
                            if q == key {
                                assert(dir_key(comps, (k + 1) as nat) == q);
                            } else {
                                assert(dirs_before.dom().contains(q));
                            }
                        }
                        if ok {
                            assert forall|q: Seq<char>| #[trigger] dirs.map().dom().contains(q) implies is_dir_in(post, dirs.map()[q]) by {
                                if q != key {
                                    assert(is_dir_in(cur, dirs_before[q]));
                                }
                            }
                            assert forall|j: nat| 1 <= j <= k + 1 && !dirs0.dom().contains(#[trigger] dir_key(comps, j)) implies holds_dir(
                                post,
                                dirs.map()[dir_key(comps, j)],
                                sanitized(comps[j - 1]),
                                prefix_dir(dirs.map(), comps, (j - 1) as nat, torrent_dir),
                                dir_canonical(dir_path@, dir_key(comps, j), discovery),
                            ) by {
                                if j <= k {
                                    assert(dirs_before.dom().contains(dir_key(comps, j)));
                                    if j >= 2 {
                                        assert(dirs_before.dom().contains(dir_key(comps, (j - 1) as nat)));
                                    }
                                    assert(holds_dir(
                                        cur,
                                        dirs_before[dir_key(comps, j)],
                                        sanitized(comps[j - 1]),
                                        prefix_dir(dirs_before, comps, (j - 1) as nat, torrent_dir),
                                        dir_canonical(dir_path@, dir_key(comps, j), discovery),
                                    ));
                                } else {
                                    if k >= 1 {
                                        assert(dirs_before.dom().contains(dir_key(comps, k as nat)));
                                    }
                                }
                            }
                        }
                    }
                    current_dir = new_dir;
                },
            }
            k = k + 1;
            proof {
                assert forall|j: nat| 1 <= j <= k implies dirs.map().dom().contains(#[trigger] dir_key(comps, j)) by {
                    if j < k {
                        assert(dirs_before.dom().contains(dir_key(comps, j)));
                    }
                }
            }
        }
        let ghost before_file = self@.inodes;
        let name = sanitize_filename(file.components[n - 1].as_str());
        let f = self.make_file(name, current_dir, torrent_id, file_idx, file.length);
        proof {
            if ok {
                if n >= 2 {
                    assert(dirs.map().dom().contains(dir_key(comps, (n - 1) as nat)));
                    if dirs0.dom().contains(dir_key(comps, (n - 1) as nat)) {
                        assert(dir_targets(torrent_dir, dirs0).contains(current_dir));
                    }
                }
                assert(is_dir_in(before_file, current_dir));
                lemma_grown_trans(start.inodes, before_file, self@.inodes);
                lemma_made_under_trans(start.inodes, before_file, self@.inodes, dir_targets(torrent_dir, dirs0), set![current_dir]);
            }
            lemma_extends_trans(start.inodes, before_file, self@.inodes);
            lemma_extends_keeps(before_file, self@.inodes);
            assert(k == n - 1);
            assert forall|d: u64| #[trigger] numbers_between(start.inodes.next, self@.inodes.next).contains(d) implies d == f || exists|j: nat| 1 <= j < n
                && !dirs0.dom().contains(#[trigger] dir_key(comps, j)) && dirs.map()[dir_key(comps, j)] == d by {
                if d < before_file.next {
                    assert(numbers_between(start.inodes.next, before_file.next).contains(d));
                    let j = choose|j: nat| 1 <= j <= k && !dirs0.dom().contains(#[trigger] dir_key(comps, j)) && dirs.map()[dir_key(comps, j)] == d;
                }
            }
        }
        f
    }

    /// Creates the entries of every file of a torrent below its directory.
    fn create_files(&mut self, info: &TorrentInfo, torrent_dir: u64, dir_path: &str, discovery: bool)
        requires
            old(self).inv(),
        ensures
            final(self).inv(),
            table_extends(old(self)@.inodes, final(self)@.inodes),
            final(self)@.inodes.torrents == old(self)@.inodes.torrents,
            final(self)@ == old(self)@.with_inodes(final(self)@.inodes),
            room(old(self)@.inodes, files_cost(info.files@)) && is_dir_in(old(self)@.inodes, torrent_dir)
                ==> files_placed(final(self)@.inodes, *info, discovery),
            room(old(self)@.inodes, files_cost(info.files@)) && is_dir_in(old(self)@.inodes, torrent_dir)
                ==> children_grown(old(self)@.inodes, final(self)@.inodes),
            room(old(self)@.inodes, files_cost(info.files@)) && is_dir_in(old(self)@.inodes, torrent_dir)
                ==> made_under(old(self)@.inodes, final(self)@.inodes, set![torrent_dir]),
            final(self)@.inodes.next <= old(self)@.inodes.next + files_cost(info.files@),
            final(self)@.inodes.entries.dom().len() <= old(self)@.inodes.entries.dom().len() + files_cost(info.files@),
    {
        let ghost start = self@;
        let ghost files = info.files@;
        let ghost ok = room(start.inodes, files_cost(files)) && is_dir_in(start.inodes, torrent_dir);
        let mut dirs = DirIndex::new(torrent_dir);
        proof {
            lemma_extends_refl(start.inodes);
            lemma_grown_unchanged(start.inodes, start.inodes);
            lemma_made_under_unchanged(start.inodes, start.inodes, set![torrent_dir]);
            assert(files.subrange(0, files.len() as int) =~= files);
        }
        let mut i: usize = 0;
        while i < info.files.len()
            invariant
                self.inv(),
                dirs.unique(),
                dirs.map().dom().contains(Seq::empty()),
                files == info.files@,
                i <= files.len(),
                table_extends(start.inodes, self@.inodes),
                self@ == start.with_inodes(self@.inodes),
                self@.inodes.torrents == start.inodes.torrents,
                ok == (room(start.inodes, files_cost(files)) && is_dir_in(start.inodes, torrent_dir)),
                ok ==> room(self@.inodes, files_cost(files.subrange(i as int, files.len() as int))) && is_dir_in(self@.inodes, torrent_dir)
                    && dirs_valid(self@.inodes, dirs.map()),
                ok ==> forall|j: int| 0 <= j < i && (!discovery || files[j].components@.len() > 0) ==> #[trigger] file_placed(self@.inodes, files[j], info.id, j as u64),
                ok ==> children_grown(start.inodes, self@.inodes),
                ok ==> made_under(start.inodes, self@.inodes, set![torrent_dir]),
                ok ==> forall|key: Seq<char>| #[trigger] dirs.map().dom().contains(key) ==> dirs.map()[key] == torrent_dir
                    || numbers_between(start.inodes.next, self@.inodes.next).contains(dirs.map()[key]),
                self@.inodes.next + files_cost(files.subrange(i as int, files.len() as int)) <= start.inodes.next + files_cost(files),
                self@.inodes.entries.dom().len() + files_cost(files.subrange(i as int, files.len() as int)) <= start.inodes.entries.dom().len() + files_cost(files),
            decreases files.len() - i,
        {
            let ghost cur = self@.inodes;
            let ghost dirs_before = dirs.map();
            let f = self.create_file_entry(&info.files[i], i as u64, info.id, torrent_dir, &mut dirs, dir_path, discovery);
            proof {
                let post = self@.inodes;
                let file = files[i as int];
                let rest = files.subrange(i + 1, files.len() as int);
                assert(files.subrange(i as int, files.len() as int).drop_first() =~= rest);
                assert(files_cost(files.subrange(i as int, files.len() as int)) == file_cost(file) + files_cost(rest));
                lemma_extends_trans(start.inodes, cur, post);
                lemma_extends_keeps(cur, post);
                if ok {
                    lemma_grown_trans(start.inodes, cur, post);
                    assert forall|p: u64| #[trigger] dir_targets(torrent_dir, dirs_before).contains(p) implies set![torrent_dir].contains(p)
                        || numbers_between(start.inodes.next, cur.next).contains(p) by {
                        if p != torrent_dir {
                            let q = choose|q: Seq<char>| #[trigger] dirs_before.dom().contains(q) && dirs_before[q] == p;
                        }
                    }
                    lemma_made_under_trans(start.inodes, cur, post, set![torrent_dir], dir_targets(torrent_dir, dirs_before));
                    assert forall|key: Seq<char>| #[trigger] dirs.map().dom().contains(key) implies dirs.map()[key] == torrent_dir
                        || numbers_between(start.inodes.next, post.next).contains(dirs.map()[key]) by {
                        if dirs_before.dom().contains(key) {
                            assert(dirs.map()[key] == dirs_before[key]);
                        } else {
                            assert(numbers_between(cur.next, post.next).contains(dirs.map()[key]));
                        }
                    }
                    assert(room(post, files_cost(rest)));
                    assert forall|k: Seq<char>| #[trigger] dirs.map().dom().contains(k) implies is_dir_in(post, dirs.map()[k]) by {
                        if comp_views(file).len() == 0 {
                            assert(is_dir_in(cur, dirs_before[k]));
                        }
                    }
                    assert forall|j: int| 0 <= j < i + 1 && (!discovery || files[j].components@.len() > 0) implies #[trigger] file_placed(post, files[j], info.id, j as u64) by {
                        if j < i {
                            assert(file_placed(cur, files[j], info.id, j as u64));
                            let (ino, parent) = choose|ino: u64, parent: u64| #[trigger] holds_file_under(cur, ino, file_name_of(files[j]), parent, info.id, j as u64, files[j].length);
                            assert(holds_file_under(post, ino, file_name_of(files[j]), parent, info.id, j as u64, files[j].length));
                        } else {
                            let comps = comp_views(file);
                            if comps.len() == 0 {
                                assert(holds_file_under(post, f, file_name_of(file), torrent_dir, info.id, j as u64, file.length));
                            } else {
                                let parent = prefix_dir(dirs.map(), comps, (comps.len() - 1) as nat, torrent_dir);
                                assert(holds_file_under(post, f, file_name_of(file), parent, info.id, j as u64, file.length));
                            }
                        }
                    }
                }
            }
            i = i + 1;
        }
    }

    /// Creates the filesystem structure for a torrent: a single-file
    /// torrent's file goes directly under the root and the torrent maps to
    /// it; a torrent with another number of files gets a directory under
    /// the root named after it, mapped to by the torrent, holding the
    /// files' entries and the directories of their paths.
    pub fn create_torrent_structure(&mut self, torrent_info: &TorrentInfo) -> (r: Result<(), RqbitFuseError>)
        requires
            old(self).inv(),
        ensures
            final(self).inv(),
            r is Ok,
            final(self)@ == old(self)@.with_inodes(final(self)@.inodes),
            table_extends(old(self)@.inodes, final(self)@.inodes),
            torrent_info.files@.len() == 1 ==> {
                &&& final(self)@.inodes.torrents == old(self)@.inodes.torrents.insert(
                    torrent_info.id,
                    final(self)@.inodes.torrents[torrent_info.id],
                )
                &&& room(old(self)@.inodes, 1) ==> holds_file_under(
                    final(self)@.inodes,
                    final(self)@.inodes.torrents[torrent_info.id],
                    single_file_name(*torrent_info),
                    1,
                    torrent_info.id,
                    0,
                    torrent_info.files@[0].length,
                )
                &&& room(old(self)@.inodes, 1) ==> final(self)@.inodes.entries.dom() == old(self)@.inodes.entries.dom().insert(
                    final(self)@.inodes.torrents[torrent_info.id],
                ) && path_leads_to(final(self)@.inodes, final(self)@.inodes.torrents[torrent_info.id])
            },
            torrent_info.files@.len() != 1 ==> {
                &&& torrent_dir_made(old(self)@.inodes, final(self)@.inodes, *torrent_info)
                &&& room(old(self)@.inodes, 1 + files_cost(torrent_info.files@)) ==> files_placed(
                    final(self)@.inodes,
                    *torrent_info,
                    false,
                )
            },
            room(old(self)@.inodes, 1 + files_cost(torrent_info.files@)) ==> children_grown(old(self)@.inodes, final(self)@.inodes),
            room(old(self)@.inodes, 1 + files_cost(torrent_info.files@)) ==> made_under(old(self)@.inodes, final(self)@.inodes, set![1u64]),
            room(old(self)@.inodes, 1 + files_cost(torrent_info.files@)) ==> structure_present(
                final(self)@.inodes,
                *torrent_info,
                false,
            ),
            final(self)@.inodes.torrents == old(self)@.inodes.torrents || final(self)@.inodes.torrents == old(
                self,
            )@.inodes.torrents.insert(torrent_info.id, final(self)@.inodes.torrents[torrent_info.id]),
            final(self)@.inodes.next <= old(self)@.inodes.next + 1 + files_cost(torrent_info.files@),
            final(self)@.inodes.entries.dom().len() <= old(self)@.inodes.entries.dom().len() + 1 + files_cost(torrent_info.files@),
    {
        let torrent_name = sanitize_filename(torrent_info.name.as_str());
        let torrent_id = torrent_info.id;
        let ghost pre = self@.inodes;
        if torrent_info.files.len() == 1 {
            let file_info = &torrent_info.files[0];
            let n = file_info.components.len();
            let file_name = if n == 0 {
                torrent_name
            } else {
                sanitize_filename(file_info.components[n - 1].as_str())
            };
            proof {
                if n > 0 {
                    assert(comp_views(*file_info)[n - 1] == file_info.components@[n - 1]@);
                }
            }
            let f = self.make_file(file_name, 1, torrent_id, 0, file_info.length);
            let ghost mid = self@.inodes;
            self.inode_manager.map_torrent(torrent_id, f);
            proof {
                if pre.allocation_succeeds() {
                    assert(!pre.entries.dom().contains(f));
                }
                assert(self@.inodes.entries.dom() =~= mid.entries.dom().union(numbers_between(mid.next, self@.inodes.next)));
                assert(table_extends(mid, self@.inodes));
                lemma_extends_trans(pre, mid, self@.inodes);
                if pre.allocation_succeeds() {
                    lemma_grown_unchanged(mid, self@.inodes);
                    lemma_grown_trans(pre, mid, self@.inodes);
                }
                lemma_made_under_unchanged(mid, self@.inodes, set![1u64]);
                lemma_made_under_trans(pre, mid, self@.inodes, set![1u64], set![1u64]);
            }
        } else {
            let ghost tn = torrent_name@;
            let torrent_dir = self.inode_manager.allocate_torrent_directory(torrent_id, torrent_name, 1);
            let ghost a = self@.inodes;
            proof {
                lemma_allocation_extends(pre, a, child_path(pre.entries, 1, tn), Some(torrent_id), torrent_dir);
                if pre.allocation_succeeds() {
                    assert(!pre.entries.dom().contains(torrent_dir));
                    assert(a.entries.dom().len() == pre.entries.dom().len() + 1);
                }
                assert forall|k: u64, c: u64| #[trigger] pre.entries.dom().contains(k) && #[trigger] pre.entries[k].spec_children().contains(c) implies a.entries[k].spec_children().contains(c) by {
                    if pre.allocation_succeeds() {
                        assert(a.entries[k] == pre.entries[k]);
                    }
                }
                assert(table_extends(pre, a));
            }
            self.link_child(1, torrent_dir);
            let ghost b = self@.inodes;
            proof {
                lemma_extends_trans(pre, a, b);
                if room(pre, 1) {
                    lemma_made_and_linked(pre, a, b, child_path(pre.entries, 1, tn), Some(torrent_id), torrent_dir, 1);
                    assert forall|x: u64| #[trigger] numbers_between(pre.next, b.next).contains(x) implies set![1u64].contains(
                        b.entries[x].spec_parent(),
                    ) by {
                        assert(x == torrent_dir);
                        assert(same_except_children(a.entries[x], b.entries[x]));
                    }
                    assert(a.entries.dom().contains(torrent_dir));
                    assert(same_except_children(a.entries[torrent_dir], b.entries[torrent_dir]));
                    assert(is_dir_in(pre, 1));
                    assert(a.entries[1] == pre.entries[1]);
                    assert(pre.entries[1].spec_canonical_path() == "/"@);
                }
            }
            let dir_path = match self.inode_manager.get_path_for_inode(torrent_dir) {
                Some(p) => p,
                None => String::from_str("/"),
            };
            self.create_files(torrent_info, torrent_dir, dir_path.as_str(), false);
            proof {
                lemma_extends_trans(pre, b, self@.inodes);
                lemma_extends_keeps(b, self@.inodes);
                if room(pre, 1) {
                    assert(holds_dir(b, torrent_dir, sanitized(torrent_info.name@), 1, "/"@ + sanitized(torrent_info.name@)));
                }
                if room(pre, 1 + files_cost(torrent_info.files@)) {
                    assert(room(b, files_cost(torrent_info.files@)));
                    assert(is_dir_in(b, torrent_dir));
                    lemma_grown_trans(pre, b, self@.inodes);
                    assert(numbers_between(pre.next, b.next).contains(torrent_dir));
                    lemma_made_under_trans(pre, b, self@.inodes, set![1u64], set![torrent_dir]);
                }
            }
        }
        Ok(())
    }

    /// Creates the filesystem structure for a torrent found by discovery:
    /// every torrent gets a directory under the root named after it and
    /// mapped to by the torrent; a single file goes into it, named after
    /// its last component or the torrent; other files get their entries
    /// and the directories of their paths, files without components being
    /// skipped.
    pub fn create_torrent_structure_static(&mut self, torrent_info: &TorrentInfo) -> (r: Result<(), RqbitFuseError>)
        requires
            old(self).inv(),
        ensures
            final(self).inv(),
            r is Ok,
            final(self)@ == old(self)@.with_inodes(final(self)@.inodes),
            table_extends(old(self)@.inodes, final(self)@.inodes),
            torrent_dir_made(old(self)@.inodes, final(self)@.inodes, *torrent_info),
            torrent_info.files@.len() == 1 && room(old(self)@.inodes, 2) ==> exists|f: u64| #[trigger] holds_file_under(
                final(self)@.inodes,
                f,
                single_file_name(*torrent_info),
                final(self)@.inodes.torrents[torrent_info.id],
                torrent_info.id,
                0,
                torrent_info.files@[0].length,
            ),
            torrent_info.files@.len() != 1 && room(old(self)@.inodes, 1 + files_cost(torrent_info.files@)) ==> files_placed(
                final(self)@.inodes,
                *torrent_info,
                true,
            ),
            final(self)@.inodes.torrents == old(self)@.inodes.torrents || final(self)@.inodes.torrents == old(
                self,
            )@.inodes.torrents.insert(torrent_info.id, final(self)@.inodes.torrents[torrent_info.id]),
            room(old(self)@.inodes, 1 + files_cost(torrent_info.files@)) ==> children_grown(old(self)@.inodes, final(self)@.inodes),
            room(old(self)@.inodes, 1 + files_cost(torrent_info.files@)) ==> made_under(old(self)@.inodes, final(self)@.inodes, set![1u64]),
            room(old(self)@.inodes, 1 + files_cost(torrent_info.files@)) ==> structure_present(
                final(self)@.inodes,
                *torrent_info,
                true,
            ),
            final(self)@.inodes.next <= old(self)@.inodes.next + 1 + files_cost(torrent_info.files@),
            final(self)@.inodes.entries.dom().len() <= old(self)@.inodes.entries.dom().len() + 1 + files_cost(torrent_info.files@),
    {
        let torrent_name = sanitize_filename(torrent_info.name.as_str());
        let torrent_id = torrent_info.id;
        let ghost pre = self@.inodes;
        let torrent_dir = self.inode_manager.allocate_torrent_directory(torrent_id, copy_string(&torrent_name), 1);
        let ghost a = self@.inodes;
        proof {
            lemma_allocation_extends(pre, a, child_path(pre.entries, 1, torrent_name@), Some(torrent_id), torrent_dir);
            if pre.allocation_succeeds() {
                assert(!pre.entries.dom().contains(torrent_dir));
                assert(a.entries.dom().len() == pre.entries.dom().len() + 1);
            }
            assert forall|k: u64, c: u64| #[trigger] pre.entries.dom().contains(k) && #[trigger] pre.entries[k].spec_children().contains(c) implies a.entries[k].spec_children().contains(c) by {
                if pre.allocation_succeeds() {
                    assert(a.entries[k] == pre.entries[k]);
                }
            }
            assert(table_extends(pre, a));
        }
        self.link_child(1, torrent_dir);
        let ghost b = self@.inodes;
        proof {
            lemma_extends_trans(pre, a, b);
            if room(pre, 1) {
                lemma_made_and_linked(pre, a, b, child_path(pre.entries, 1, torrent_name@), Some(torrent_id), torrent_dir, 1);
                assert forall|x: u64| #[trigger] numbers_between(pre.next, b.next).contains(x) implies set![1u64].contains(
                    b.entries[x].spec_parent(),
                ) by {
                    assert(x == torrent_dir);
                    assert(same_except_children(a.entries[x], b.entries[x]));
                }
                assert(a.entries.dom().contains(torrent_dir));
                assert(same_except_children(a.entries[torrent_dir], b.entries[torrent_dir]));
                assert(is_dir_in(pre, 1));
                assert(a.entries[1] == pre.entries[1]);
                assert(pre.entries[1].spec_canonical_path() == "/"@);
                assert(holds_dir(b, torrent_dir, sanitized(torrent_info.name@), 1, "/"@ + sanitized(torrent_info.name@)));
            }
        }
        if torrent_info.files.len() == 1 {
            let file_info = &torrent_info.files[0];
            let n = file_info.components.len();
            let file_name = if n == 0 {
                torrent_name
            } else {
                sanitize_filename(file_info.components[n - 1].as_str())
            };
            proof {
                if n > 0 {
                    assert(comp_views(*file_info)[n - 1] == file_info.components@[n - 1]@);
                }
            }
            let f = self.make_file(file_name, torrent_dir, torrent_id, 0, file_info.length);
            proof {
                assert(files_cost(torrent_info.files@) >= 1) by {
                    assert(torrent_info.files@.drop_first().len() == 0);
                }
                if b.allocation_succeeds() {
                    assert(!b.entries.dom().contains(f));
                }
                lemma_extends_trans(pre, b, self@.inodes);
                lemma_extends_keeps(b, self@.inodes);
                if room(pre, 2) {
                    assert(is_dir_in(b, torrent_dir));
                    assert(a.torrents == pre.torrents.insert(torrent_id, torrent_dir));
                    assert(self@.inodes.torrents[torrent_id] == torrent_dir);
                    assert(!pre.entries.dom().contains(torrent_dir));
                    assert(b.entries.dom().len() == pre.entries.dom().len() + 1);
                    assert(b.allocation_succeeds());
                    assert(holds_file_under(self@.inodes, f, single_file_name(*torrent_info), torrent_dir, torrent_id, 0, file_info.length));
                    lemma_grown_trans(pre, b, self@.inodes);
                    assert(numbers_between(pre.next, b.next).contains(torrent_dir));
                    lemma_made_under_trans(pre, b, self@.inodes, set![1u64], set![torrent_dir]);
                }
            }
        } else {
            let dir_path = match self.inode_manager.get(torrent_dir) {
                Some(e) => String::from_str(e.canonical_path()),
                None => String::from_str("/"),
            };
            self.create_files(torrent_info, torrent_dir, dir_path.as_str(), true);
            proof {
                lemma_extends_trans(pre, b, self@.inodes);
                lemma_extends_keeps(b, self@.inodes);
                if room(pre, 1 + files_cost(torrent_info.files@)) {
                    assert(room(b, files_cost(torrent_info.files@)));
                    assert(is_dir_in(b, torrent_dir));
                    lemma_grown_trans(pre, b, self@.inodes);
                    assert(numbers_between(pre.next, b.next).contains(torrent_dir));
                    lemma_made_under_trans(pre, b, self@.inodes, set![1u64], set![torrent_dir]);
                }
            }
        }
        Ok(())
    }

    /// Whether a discovery is due at `now_ms`: see [`discovery_due_at`].
    pub fn discovery_due(&self, force: bool, now_ms: u64) -> (r: bool)
        ensures
            r == discovery_due_at(force, self@.last_discovery, now_ms),
    {
        force || self.last_discovery == 0 || now_ms.saturating_sub(self.last_discovery) >= DISCOVERY_COOLDOWN_MS
    }

    /// Creates the structure of every listed torrent that is not in the
    /// filesystem yet (as discovery does), and gives the listed ids. Every
    /// listed torrent is then in the torrent index when the table had room
    /// for all the entries.
    pub fn discover_torrents(&mut self, torrents: &Vec<TorrentInfo>) -> (r: Vec<u64>)
        requires
            old(self).inv(),
        ensures
            final(self).inv(),
            r@ == torrents@.map_values(|t: TorrentInfo| t.id),
            final(self)@ == old(self)@.with_inodes(final(self)@.inodes),
            table_extends(old(self)@.inodes, final(self)@.inodes),
            forall|id: u64| #[trigger] old(self)@.inodes.torrents.dom().contains(id) ==> final(self)@.inodes.torrents.dom().contains(id)
                && final(self)@.inodes.torrents[id] == old(self)@.inodes.torrents[id],
            forall|id: u64| #[trigger] final(self)@.inodes.torrents.dom().contains(id) ==> old(self)@.inodes.torrents.dom().contains(id) || r@.contains(id),
            room(old(self)@.inodes, torrents_cost(torrents@)) ==> forall|i: int| 0 <= i < torrents@.len() ==> final(self)@.inodes.torrents.dom().contains(#[trigger] torrents@[i].id),
            structures_made(old(self)@, final(self)@, torrents@, true),
    {
        let ghost start = self@;
        let ghost list = torrents@;
        let ghost ok = room(start.inodes, torrents_cost(list));
        let ghost all_there = forall|j: int| 0 <= j < list.len() ==> start.inodes.torrents.dom().contains(#[trigger] list[j].id);
        let mut ids: Vec<u64> = Vec::new();
        let mut i: usize = 0;
        proof {
            lemma_extends_refl(start.inodes);
            lemma_grown_unchanged(start.inodes, start.inodes);
            lemma_made_under_unchanged(start.inodes, start.inodes, set![1u64]);
            assert(list.subrange(0, list.len() as int) =~= list);
        }
        while i < torrents.len()
            invariant
                self.inv(),
                list == torrents@,
                i <= list.len(),
                ids@ == list.subrange(0, i as int).map_values(|t: TorrentInfo| t.id),
                self@ == start.with_inodes(self@.inodes),
                table_extends(start.inodes, self@.inodes),
                forall|id: u64| #[trigger] start.inodes.torrents.dom().contains(id) ==> self@.inodes.torrents.dom().contains(id)
                    && self@.inodes.torrents[id] == start.inodes.torrents[id],
                forall|id: u64| #[trigger] self@.inodes.torrents.dom().contains(id) ==> start.inodes.torrents.dom().contains(id) || ids@.contains(id),
                ok == room(start.inodes, torrents_cost(list)),
                ok ==> room(self@.inodes, torrents_cost(list.subrange(i as int, list.len() as int))),
                ok ==> forall|j: int| 0 <= j < i ==> self@.inodes.torrents.dom().contains(#[trigger] list[j].id),
                ok ==> forall|j: int| 0 <= j < i && newly_listed(start.inodes, list, j) ==> #[trigger] structure_present(self@.inodes, list[j], true),
                ok ==> children_grown(start.inodes, self@.inodes),
                ok ==> made_under(start.inodes, self@.inodes, set![1u64]),
                all_there == (forall|j: int| 0 <= j < list.len() ==> start.inodes.torrents.dom().contains(#[trigger] list[j].id)),
                all_there ==> self@ == start,
            decreases list.len() - i,
        {
            let ghost cur = self@.inodes;
            let ghost old_ids = ids@;
            let info = &torrents[i];
            let ghost rest = list.subrange(i + 1, list.len() as int);
            proof {
                assert(list.subrange(i as int, list.len() as int).drop_first() =~= rest);
                assert(torrents_cost(list.subrange(i as int, list.len() as int)) == 1 + files_cost(info.files@) + torrents_cost(rest));
            }
            if self.inode_manager.lookup_torrent(info.id).is_none() {
                let _ = self.create_torrent_structure_static(info);
                proof {
                    lemma_extends_trans(start.inodes, cur, self@.inodes);
                    if ok {
                        lemma_grown_trans(start.inodes, cur, self@.inodes);
                        lemma_made_under_trans(start.inodes, cur, self@.inodes, set![1u64], set![1u64]);
                        assert forall|j: int| 0 <= j < i + 1 && newly_listed(start.inodes, list, j)
                            implies #[trigger] structure_present(self@.inodes, list[j], true) by {
                            if j < i {
                                assert(structure_present(cur, list[j], true));
                                lemma_structure_kept(cur, self@.inodes, list[j], true);
                            }
                        }
                    }
                }
            } else {
                proof {
                    if ok {
                        assert forall|j: int| 0 <= j < i + 1 && newly_listed(start.inodes, list, j)
                            implies #[trigger] structure_present(self@.inodes, list[j], true) by {
                            if j == i {
                                assert(cur.torrents.dom().contains(list[j].id));
                                assert(old_ids.contains(list[j].id));
                                let k = choose|k: int| 0 <= k < old_ids.len() && old_ids[k] == list[j].id;
                                assert(list[k].id == list[j].id);
                            }
                        }
                    }
                }
            }
            ids.push(info.id);
            proof {
                assert(ids@ =~= list.subrange(0, i + 1).map_values(|t: TorrentInfo| t.id));
                assert forall|id: u64| #[trigger] self@.inodes.torrents.dom().contains(id) implies start.inodes.torrents.dom().contains(id) || ids@.contains(id) by {
                    if id == info.id {
                        assert(ids@[i as int] == id);
                    } else if cur.torrents.dom().contains(id) && !start.inodes.torrents.dom().contains(id) {
                        let k = choose|k: int| 0 <= k < old_ids.len() && old_ids[k] == id;
                        assert(ids@[k] == id);
                    }
                }
            }
            i = i + 1;
        }
        proof {
            assert(list.subrange(0, list.len() as int) =~= list);
        }
        ids
    }

    /// The known torrents that are not among `current`, each once.
    pub fn detect_removed_torrents(&self, current: &Vec<u64>) -> (r: Vec<u64>)
        ensures
            r@.no_duplicates(),
            r@.to_set() == self@.known.difference(current@.to_set()),
    {
        let known = id_set_items(&self.known_torrents);
        let mut r: Vec<u64> = Vec::new();
        let mut i: usize = 0;
        while i < known.len()
            invariant
                i <= known@.len(),
                known@.no_duplicates(),
                known@.to_set() == self@.known,
                r@.no_duplicates(),
                forall|y: u64| #[trigger] r@.contains(y) <==> ((exists|j: int| 0 <= j < i && #[trigger] known@[j] == y) && !current@.contains(y)),
            decreases known.len() - i,
        {
            let k = known[i];
            let ghost before = r@;
            if !crate::fs::inode_manager::list_contains(current, k) {
                r.push(k);
                proof {
                    assert(!before.contains(k)) by {
                        if before.contains(k) {
                            let j = choose|j: int| 0 <= j < i && #[trigger] known@[j] == k;
                            assert(known@[j] == known@[i as int]);
                        }
                    }
                    assert forall|a: int, b: int| 0 <= a < b < r@.len() implies r@[a] != r@[b] by {
                        if b == r@.len() - 1 {
                            assert(before.contains(before[a]));
                        }
                    }
                }
            }
            proof {
                assert forall|y: u64| #[trigger] r@.contains(y) <==> ((exists|j: int| 0 <= j < i + 1 && #[trigger] known@[j] == y) && !current@.contains(y)) by {
                    crate::fs::inode_manager::lemma_contains_push(before, k, y);
                    if exists|j: int| 0 <= j < i + 1 && #[trigger] known@[j] == y {
                        let j = choose|j: int| 0 <= j < i + 1 && #[trigger] known@[j] == y;
                        if j < i {
                            assert(exists|j2: int| 0 <= j2 < i && #[trigger] known@[j2] == y);
                        }
                    }
                    if exists|j: int| 0 <= j < i && #[trigger] known@[j] == y {
                        let j = choose|j: int| 0 <= j < i && #[trigger] known@[j] == y;
                        assert(0 <= j < i + 1 && known@[j] == y);
                    }
                    if y == k {
                        assert(known@[i as int] == y);
                    }
                }
            }
            i = i + 1;
        }
        proof {
            assert forall|y: u64| #[trigger] r@.to_set().contains(y) <==> self@.known.difference(current@.to_set()).contains(y) by {
                assert(r@.to_set().contains(y) == r@.contains(y));
                assert(known@.to_set().contains(y) == known@.contains(y));
                if known@.contains(y) {
                    let j = choose|j: int| 0 <= j < known@.len() && known@[j] == y;
                    assert(known@[j] == y);
                }
            }
            assert(r@.to_set() =~= self@.known.difference(current@.to_set()));
        }
        r
    }

    /// Removes a torrent that rqbit no longer has: see
    /// [`torrent_removed_from_fs`].
    pub fn remove_torrent_from_fs(&mut self, torrent_id: u64)
        requires
            old(self).inv(),
        ensures
            final(self).inv(),
            torrent_removed_from_fs(old(self)@, final(self)@, torrent_id),
    {
        match self.inode_manager.lookup_torrent(torrent_id) {
            Some(inode) => {
                let _ = self.file_handles.remove_by_torrent(torrent_id);
                let _ = self.inode_manager.remove_inode(inode);
                id_set_remove(&mut self.known_torrents, torrent_id);
            },
            None => {
                id_set_remove(&mut self.known_torrents, torrent_id);
            },
        }
    }

    /// Records a discovery made at `now_ms` that found the torrents
    /// `current`: they become the known torrents, and every torrent known
    /// before but no longer listed is removed from the filesystem with its
    /// handles, one after the other, and nothing else changes (see
    /// [`discovery_recorded`]).
    pub fn finish_discovery(&mut self, current: &Vec<u64>, now_ms: u64)
        requires
            old(self).inv(),
        ensures
            final(self).inv(),
            final(self)@.known == current@.to_set(),
            final(self)@.last_discovery == now_ms,
            final(self)@.config == old(self)@.config,
            final(self)@.metrics == old(self)@.metrics,
            final(self)@.initialized == old(self)@.initialized,
            final(self)@.handles.handles.dom().subset_of(old(self)@.handles.handles.dom()),
            final(self)@.inodes.entries.dom().subset_of(old(self)@.inodes.entries.dom()),
            forall|id: u64| #[trigger] old(self)@.known.contains(id) && !current@.contains(id)
                && old(self)@.inodes.torrents.dom().contains(id) && old(self)@.inodes.torrents[id] != 1
                ==> !final(self)@.inodes.entries.dom().contains(old(self)@.inodes.torrents[id]),
            forall|id: u64| #[trigger] old(self)@.inodes.torrents.dom().contains(id) && (current@.contains(id) || !old(self)@.known.contains(id))
                ==> (final(self)@.inodes.torrents.dom().contains(id) && final(self)@.inodes.torrents[id] == old(self)@.inodes.torrents[id])
                    || !final(self)@.inodes.entries.dom().contains(old(self)@.inodes.torrents[id]),
            discovery_recorded(old(self)@, final(self)@, current@, now_ms),
    {
        let ghost start = self@;
        self.last_discovery = now_ms;
        let mut i: usize = 0;
        while i < current.len()
            invariant
                self.inv(),
                i <= current@.len(),
                self@ == (FsView { known: self@.known, last_discovery: now_ms, ..start }),
                self@.known == start.known.union(current@.subrange(0, i as int).to_set()),
            decreases current.len() - i,
        {
            id_set_insert(&mut self.known_torrents, current[i]);
            proof {
                assert(current@.subrange(0, i + 1) =~= current@.subrange(0, i as int).push(current@[i as int]));
                current@.subrange(0, i as int).lemma_push_to_set_commute(current@[i as int]);
            }
            i = i + 1;
        }
        proof {
            assert(current@.subrange(0, current@.len() as int) =~= current@);
        }
        let ghost mid = self@;
        let removed = self.detect_removed_torrents(current);
        let ghost mut chain: Seq<FsView> = seq![mid];
        let mut j: usize = 0;
        while j < removed.len()
            invariant
                self.inv(),
                j <= removed@.len(),
                removed@.no_duplicates(),
                removed@.to_set() == mid.known.difference(current@.to_set()),
                mid.known == start.known.union(current@.to_set()),
                self@.known == mid.known.difference(removed@.subrange(0, j as int).to_set()),
                self@.last_discovery == now_ms,
                self@.config == start.config,
                self@.metrics == start.metrics,
                self@.initialized == start.initialized,
                mid.inodes == start.inodes,
                mid.handles == start.handles,
                self@.handles.handles.dom().subset_of(start.handles.handles.dom()),
                self@.inodes.entries.dom().subset_of(start.inodes.entries.dom()),
                self@.inodes.entries.dom().contains(1),
                forall|id: u64| #[trigger] start.inodes.torrents.dom().contains(id) ==> (self@.inodes.torrents.dom().contains(id)
                    && self@.inodes.torrents[id] == start.inodes.torrents[id]) || !self@.inodes.entries.dom().contains(start.inodes.torrents[id]),
                forall|k: int| 0 <= k < j && start.inodes.torrents.dom().contains(#[trigger] removed@[k]) && start.inodes.torrents[removed@[k]] != 1
                    ==> !self@.inodes.entries.dom().contains(start.inodes.torrents[removed@[k]]),
                mid == (FsView { known: start.known.union(current@.to_set()), last_discovery: now_ms, ..start }),
                removal_chain(chain, removed@.subrange(0, j as int)),
                chain[0] == mid,
                chain.last() == self@,
            decreases removed.len() - j,
        {
            let id = removed[j];
            let ghost before = self@;
            self.remove_torrent_from_fs(id);
            let ghost old_chain = chain;
            proof {
                chain = chain.push(self@);
            }
            proof {
                let post = self@;
                let next_chain = chain;
                assert forall|i: int| 0 <= i < j + 1 implies #[trigger] torrent_removed_from_fs(
                    next_chain[i],
                    next_chain[i + 1],
                    removed@.subrange(0, j + 1)[i],
                ) by {
                    if i < j {
                        assert(torrent_removed_from_fs(old_chain[i], old_chain[i + 1], removed@.subrange(0, j as int)[i]));
                    }
                }
                assert(removal_chain(next_chain, removed@.subrange(0, j + 1)));
                assert(removed@.subrange(0, j + 1) =~= removed@.subrange(0, j as int).push(id));
                removed@.subrange(0, j as int).lemma_push_to_set_commute(id);
                assert(post.known =~= mid.known.difference(removed@.subrange(0, j + 1).to_set()));
                if before.inodes.torrents.dom().contains(id) {
                    let ino = before.inodes.torrents[id];
                    if ino != 1 && before.inodes.entries.dom().contains(ino) {
                        assert(subtree_removed(before.inodes, post.inodes, ino));
                        assert(!post.inodes.entries.dom().contains(ino));
                        assert forall|t: u64| #[trigger] start.inodes.torrents.dom().contains(t) implies (post.inodes.torrents.dom().contains(t)
                            && post.inodes.torrents[t] == start.inodes.torrents[t]) || !post.inodes.entries.dom().contains(start.inodes.torrents[t]) by {
                            if before.inodes.torrents.dom().contains(t) && before.inodes.torrents[t] == start.inodes.torrents[t] {
                                if !post.inodes.torrents.dom().contains(t) {
                                    let removed_set = before.inodes.entries.dom().difference(post.inodes.entries.dom());
                                    assert(removed_set.contains(before.inodes.torrents[t]));
                                }
                            }
                        }
                    }
                    assert(post.handles.handles.dom().subset_of(before.handles.handles.dom()));
                }
                assert forall|k: int| 0 <= k < j + 1 && start.inodes.torrents.dom().contains(#[trigger] removed@[k]) && start.inodes.torrents[removed@[k]] != 1
                    implies !post.inodes.entries.dom().contains(start.inodes.torrents[removed@[k]]) by {
                    if k == j {
                        if !(before.inodes.torrents.dom().contains(id) && before.inodes.torrents[id] == start.inodes.torrents[id]) {
                            assert(!before.inodes.entries.dom().contains(start.inodes.torrents[id]));
                        }
                    }
                }
            }
            j = j + 1;
        }
        proof {
            assert(removed@.subrange(0, removed@.len() as int) =~= removed@);
            assert(self@.known =~= current@.to_set());
            assert(start.known.union(current@.to_set()).difference(current@.to_set()) =~= start.known.difference(current@.to_set()));
            assert(removal_chain(chain, removed@));
            assert(torrents_removed_in_turn(mid, self@, removed@));
            assert forall|id: u64| #[trigger] start.known.contains(id) && !current@.contains(id)
                && start.inodes.torrents.dom().contains(id) && start.inodes.torrents[id] != 1
                implies !self@.inodes.entries.dom().contains(start.inodes.torrents[id]) by {
                assert(removed@.to_set().contains(id));
                let k = choose|k: int| 0 <= k < removed@.len() && removed@[k] == id;
                assert(start.inodes.torrents.dom().contains(removed@[k]));
            }
        }
    }

    /// Refreshes the torrent list with what listing the torrents in rqbit
    /// gave at `now_ms`: on success, new torrents get their structure (see
    /// [`TorrentFS::discover_torrents`]) and the discovery is recorded (see
    /// [`TorrentFS::finish_discovery`]); a failed listing changes nothing.
    /// Returns whether a refresh was performed.
    pub fn refresh_torrents(&mut self, listed: Result<Vec<TorrentInfo>, RqbitFuseError>, now_ms: u64) -> (r: bool)
        requires
            old(self).inv(),
        ensures
            final(self).inv(),
            r == listed is Ok,
            !r ==> final(self)@ == old(self)@,
            r ==> final(self)@.known == listed->Ok_0@.map_values(|t: TorrentInfo| t.id).to_set()
                && final(self)@.last_discovery == now_ms,
            r ==> exists|mid: FsView| #[trigger] structures_made(old(self)@, mid, listed->Ok_0@, true)
                && discovery_recorded(mid, final(self)@, listed->Ok_0@.map_values(|t: TorrentInfo| t.id), now_ms),
    {
        match listed {
            Ok(torrents) => {
                let ids = self.discover_torrents(&torrents);
                let ghost mid = self@;
                self.finish_discovery(&ids, now_ms);
                proof {
                    assert(structures_made(old(self)@, mid, torrents@, true));
                }
                true
            },
            Err(_) => false,
        }
    }

    /// Plans a read: see [`read_outcome`]. Failures are counted as errors.
    pub fn read_plan(&mut self, fh: u64, offset: i64, size: u32) -> (r: Result<Option<ReadRequest>, Errno>)
        requires
            old(self).inv(),
        ensures
            final(self).inv(),
            r == read_outcome(old(self)@, fh, offset, size),
            r is Ok ==> final(self)@ == old(self)@,
            r is Err ==> final(self)@ == old(self)@.with_error(),
    {
        // Clamp read size to FUSE maximum to prevent "Too much data" panic
        let size = if size < FUSE_MAX_READ { size } else { FUSE_MAX_READ };
        if offset < 0 {
            self.count_error();
            return Err(Errno::EINVAL);
        }
        let offset = offset as u64;
        let ino = match self.file_handles.get_inode(fh) {
            Some(inode) => inode,
            None => {
                self.count_error();
                return Err(Errno::EBADF);
            },
        };
        match self.inode_manager.get(ino) {
            Some(InodeEntry::File { torrent_id, file_index, size: file_size, .. }) => {
                if size == 0 || offset >= file_size {
                    return Ok(None);
                }
                Ok(Some(ReadRequest { ino, torrent_id, file_index, offset, size }))
            },
            Some(_) => {
                self.count_error();
                Err(Errno::EISDIR)
            },
            None => {
                self.count_error();
                Err(Errno::ENOENT)
            },
        }
    }

    /// Completes a read with what rqbit answered: the data, cut to the
    /// requested size, with every byte received counted as read; or the
    /// error's number, counted as an error.
    pub fn finish_read(&mut self, request: &ReadRequest, fetched: Result<Vec<u8>, ReadFailure>) -> (r: Result<Vec<u8>, i32>)
        requires
            old(self).inv(),
        ensures
            final(self).inv(),
            match fetched {
                Ok(data) => {
                    &&& r matches Ok(out) && out@ == data@.subrange(
                        0,
                        if data@.len() > request.size { request.size as int } else { data@.len() as int },
                    )
                    &&& final(self)@ == (FsView {
                        metrics: Metrics {
                            bytes_read: wrap_add(old(self)@.metrics.bytes_read, data@.len() as u64),
                            ..old(self)@.metrics
                        },
                        ..old(self)@
                    })
                },
                Err(f) => r == Err::<Vec<u8>, i32>(f.error_code) && final(self)@ == old(self)@.with_error(),
            },
    {
        match fetched {
            Ok(data) => {
                self.metrics.record_read(data.len() as u64);
                if data.len() > request.size as usize {
                    let mut out: Vec<u8> = Vec::new();
                    let mut i: usize = 0;
                    while i < request.size as usize
                        invariant
                            i <= request.size,
                            request.size < data@.len(),
                            out@ == data@.subrange(0, i as int),
                        decreases request.size - i,
                    {
                        out.push(data[i]);
                        i = i + 1;
                        assert(out@ =~= data@.subrange(0, i as int));
                    }
                    Ok(out)
                } else {
                    assert(data@.subrange(0, data@.len() as int) =~= data@);
                    Ok(data)
                }
            },
            Err(f) => {
                self.count_error();
                Err(f.error_code)
            },
        }
    }

    /// Look up a directory entry by name: the attributes of the entry that
    /// [`lookup_outcome`] finds, or its error.
    pub fn lookup(&mut self, parent: u64, name: &str, uid: u32, gid: u32) -> (r: Result<AttrFields, Errno>)
        requires
            old(self).inv(),
        ensures
            final(self).inv(),
            r == (match lookup_outcome(old(self)@.inodes, parent, name@) {
                Ok(e) => Ok(entry_attr(old(self)@.inodes.entries, e, uid, gid)),
                Err(err) => Err(err),
            }),
            r is Err && lookup_counts_error(old(self)@.inodes, parent, name@) ==> final(self)@ == old(self)@.with_error(),
            !(r is Err && lookup_counts_error(old(self)@.inodes, parent, name@)) ==> final(self)@ == old(self)@,
    {
        let parent_entry = match self.inode_manager.get(parent) {
            Some(entry) => entry,
            None => {
                self.count_error();
                return Err(Errno::ENOENT);
            },
        };
        if !parent_entry.is_directory() {
            self.count_error();
            return Err(Errno::ENOTDIR);
        }
        let is_dot = str_equal(name, ".");
        let is_dotdot = str_equal(name, "..");
        if is_dot || is_dotdot {
            let target = if is_dot { parent } else { parent_entry.parent() };
            return match self.inode_manager.get(target) {
                Some(entry) => Ok(self.build_file_attr(&entry, uid, gid)),
                None => Err(Errno::EIO),
            };
        }
        let path = if parent == 1 {
            concat2("/", name)
        } else {
            match self.inode_manager.get_path_for_inode(parent) {
                Some(parent_path) => concat3(parent_path.as_str(), "/", name),
                None => {
                    return Err(Errno::EIO);
                },
            }
        };
        match self.inode_manager.lookup_by_path(path.as_str()) {
            Some(ino) => match self.inode_manager.get(ino) {
                Some(entry) => Ok(self.build_file_attr(&entry, uid, gid)),
                None => {
                    self.count_error();
                    Err(Errno::EIO)
                },
            },
            None => Err(Errno::ENOENT),
        }
    }

    /// Read a directory from `offset` on: `.`, `..` and the children, each
    /// with the offset of the entry after it (see [`dir_listing`]). A
    /// missing entry (`ENOENT`) or one that is no directory (`ENOTDIR`) is
    /// counted as an error.
    pub fn readdir(&mut self, ino: u64, offset: i64) -> (r: Result<Vec<DirEntry>, Errno>)
        requires
            old(self).inv(),
        ensures
            final(self).inv(),
            match old(self)@.entry(ino) {
                None => r == Err::<Vec<DirEntry>, Errno>(Errno::ENOENT) && final(self)@ == old(self)@.with_error(),
                Some(e) => if e is Directory {
                    &&& final(self)@ == old(self)@
                    &&& r is Ok
                    &&& exists|kids: Seq<(u64, InodeEntry)>| #[trigger]
                        children_listing(old(self)@.inodes.entries, ino, kids) && r->Ok_0@.map_values(
                            |d: DirEntry| dir_entry_view(d),
                        ) == dir_listing(ino, e.spec_parent(), offset, kids)
                } else {
                    r == Err::<Vec<DirEntry>, Errno>(Errno::ENOTDIR) && final(self)@ == old(self)@.with_error()
                },
            },
    {
        let entry = match self.inode_manager.get(ino) {
            Some(e) => e,
            None => {
                self.count_error();
                return Err(Errno::ENOENT);
            },
        };
        if !entry.is_directory() {
            self.count_error();
            return Err(Errno::ENOTDIR);
        }
        let mut out: Vec<DirEntry> = Vec::new();
        if offset == 0 {
            out.push(DirEntry { ino, offset: 1, kind: FileKind::Directory, name: String::from_str(".") });
        }
        if offset == 0 || offset == 1 {
            out.push(DirEntry { ino: entry.parent(), offset: 2, kind: FileKind::Directory, name: String::from_str("..") });
        }
        proof {
            reveal_strlit(".");
            reveal_strlit("..");
        }
        let ghost dots = out@.map_values(|d: DirEntry| dir_entry_view(d));
        assert(dots =~= dir_listing(ino, entry.spec_parent(), offset, Seq::empty()));
        let children = self.inode_manager.get_children(ino);
        let n = children.len();
        let start: usize = if offset <= 2 {
            0
        } else if (offset as u64) - 2 < n as u64 {
            ((offset as u64) - 2) as usize
        } else {
            n
        };
        let mut idx: usize = start;
        while idx < n && (idx as u64) < MAX_LISTED
            invariant
                start <= idx <= n,
                n == children@.len(),
                idx == start || idx as u64 <= MAX_LISTED,
                out@.map_values(|d: DirEntry| dir_entry_view(d)) == dots + Seq::new(
                    (idx - start) as nat,
                    |j: int| (children@[start + j].0, (start + j + 3) as i64, entry_kind(children@[start + j].1), children@[start + j].1.spec_name()),
                ),
            decreases n - idx,
        {
            let ghost before = out@.map_values(|d: DirEntry| dir_entry_view(d));
            let (child_ino, child_entry) = &children[idx];
            let kind = if child_entry.is_directory() {
                FileKind::Directory
            } else if child_entry.is_symlink() {
                FileKind::Symlink
            } else {
                FileKind::RegularFile
            };
            let d = DirEntry { ino: *child_ino, offset: (idx as u64 + 3) as i64, kind, name: String::from_str(child_entry.name()) };
            assert(dir_entry_view(d) == (children@[idx as int].0, (start + (idx - start) + 3) as i64, entry_kind(children@[idx as int].1), children@[idx as int].1.spec_name()));
            out.push(d);
            assert(out@.map_values(|d: DirEntry| dir_entry_view(d)) =~= before.push(dir_entry_view(d)));
            idx = idx + 1;
            assert(out@.map_values(|d: DirEntry| dir_entry_view(d)) =~= dots + Seq::new(
                (idx - start) as nat,
                |j: int| (children@[start + j].0, (start + j + 3) as i64, entry_kind(children@[start + j].1), children@[start + j].1.spec_name()),
            ));
        }
        proof {
            let sp_start: int = if offset <= 2 { 0 } else { offset - 2 };
            let sp_end: int = if n < MAX_LISTED { n as int } else { MAX_LISTED as int };
            let count: int = if sp_start < sp_end { sp_end - sp_start } else { 0 };
            assert(count == idx - start);
            assert(sp_start < sp_end ==> sp_start == start);
        }
        assert(out@.map_values(|d: DirEntry| dir_entry_view(d)) =~= dir_listing(ino, entry.spec_parent(), offset, children@));
        Ok(out)
    }

    /// Whether a listed child of `ino` is a file with an open handle.
    fn has_open_file_children(&self, ino: u64) -> (r: bool)
        requires
            self.inv(),
        ensures
            r == has_open_files(self@, ino),
    {
        let children = self.inode_manager.get_children(ino);
        proof {
            lemma_listing_in_table(self@.inodes.entries, ino, children@);
        }
        let mut i: usize = 0;
        while i < children.len()
            invariant
                i <= children.len(),
                self.inv(),
                children_listing(self@.inodes.entries, ino, children@),
                forall|j: int| 0 <= j < children@.len() ==> self@.inodes.entries.dom().contains(#[trigger] children@[j].0)
                    && self@.inodes.entries[children@[j].0] == children@[j].1,
                forall|j: int| 0 <= j < i ==> !(#[trigger] children@[j].1 is File && exists|h: u64| #[trigger] self@.handles.handles.dom().contains(h) && self@.handles.handles[h].inode == children@[j].0),
            decreases children.len() - i,
        {
            let (child_ino, child_entry) = &children[i];
            if child_entry.is_file() {
                let handles = self.file_handles.get_handles_for_inode(*child_ino);
                if handles.len() > 0 {
                    proof {
                        let h = handles@[0];
                        assert(handles@.to_set().contains(h));
                        assert(children@[i as int].0 == *child_ino);
                        assert(listed_child(self@.inodes.entries, ino, *child_ino));
                        assert(self@.handles.handles.dom().contains(h) && self@.handles.handles[h].inode == *child_ino);
                        assert(self@.inodes.entries[*child_ino] is File);
                        assert(has_open_files(self@, ino));
                    }
                    return true;
                }
                proof {
                    assert forall|h: u64| #[trigger] self@.handles.handles.dom().contains(h) implies self@.handles.handles[h].inode != *child_ino by {
                        if self@.handles.handles[h].inode == *child_ino {
                            assert(handles@.to_set().contains(h));
                            assert(handles@.contains(h));
                        }
                    }
                }
            }
            i = i + 1;
        }
        proof {
            assert forall|k: u64| #[trigger] listed_child(self@.inodes.entries, ino, k) implies !(self@.inodes.entries.dom().contains(k)
                && self@.inodes.entries[k] is File && exists|h: u64| #[trigger] self@.handles.handles.dom().contains(h)
                && self@.handles.handles[h].inode == k) by {
                let r = choose|r: Seq<(u64, InodeEntry)>| #[trigger] children_listing(self@.inodes.entries, ino, r) && exists|i: int| 0 <= i < r.len() && r[i].0 == k;
                let j = choose|j: int| 0 <= j < r.len() && r[j].0 == k;
                lemma_listing_same_keys(self@.inodes.entries, ino, r, children@, j);
            }
        }
        false
    }

    /// Plans the removal of a torrent by unlinking its directory from the
    /// root: only under the root (`EROFS`), an existing name (`ENOENT`), a
    /// directory (`ENOTDIR`) that a torrent maps to (`EIO`), and without a
    /// file in it that is open (`EBUSY`). Gives the torrent and its inode.
    pub fn unlink(&self, parent: u64, name: &str) -> (r: Result<(u64, u64), Errno>)
        requires
            self.inv(),
        ensures
            parent != 1 ==> r == Err::<(u64, u64), Errno>(Errno::EROFS),
            parent == 1 && !self@.inodes.paths.dom().contains("/"@ + name@) ==> r == Err::<(u64, u64), Errno>(Errno::ENOENT),
            parent == 1 && self@.inodes.paths.dom().contains("/"@ + name@) ==> {
                let ino = self@.inodes.paths["/"@ + name@];
                match self@.entry(ino) {
                    None => r == Err::<(u64, u64), Errno>(Errno::ENOENT),
                    Some(e) => if !(e is Directory) {
                        r == Err::<(u64, u64), Errno>(Errno::ENOTDIR)
                    } else if forall|id: u64| #[trigger] self@.inodes.torrents.dom().contains(id) ==> self@.inodes.torrents[id] != ino {
                        r == Err::<(u64, u64), Errno>(Errno::EIO)
                    } else if has_open_files(self@, ino) {
                        r == Err::<(u64, u64), Errno>(Errno::EBUSY)
                    } else {
                        r matches Ok((id, i)) && i == ino && self@.inodes.torrents.dom().contains(id) && self@.inodes.torrents[id] == ino
                    },
                }
            },
    {
        if parent != 1 {
            return Err(Errno::EROFS);
        }
        let path = concat2("/", name);
        let ino = match self.inode_manager.lookup_by_path(path.as_str()) {
            Some(ino) => ino,
            None => return Err(Errno::ENOENT),
        };
        let entry = match self.inode_manager.get(ino) {
            Some(e) => e,
            None => return Err(Errno::ENOENT),
        };
        if !entry.is_directory() {
            return Err(Errno::ENOTDIR);
        }
        let torrent_id = match self.inode_manager.torrent_for_inode(ino) {
            Some(id) => id,
            None => return Err(Errno::EIO),
        };
        if self.has_open_file_children(ino) {
            return Err(Errno::EBUSY);
        }
        Ok((torrent_id, ino))
    }

    /// Remove a torrent from the filesystem once rqbit was asked to forget
    /// it, `forgotten` being its answer: on success the torrent's inode
    /// leaves the root's children and the table, with everything below it.
    pub fn remove_torrent(&mut self, torrent_id: u64, torrent_inode: u64, forgotten: Result<(), RqbitFuseError>) -> (r: Result<(), TorrentRemovalError>)
        requires
            old(self).inv(),
        ensures
            final(self).inv(),
            forgotten is Err ==> final(self)@ == old(self)@ && (r matches Err(TorrentRemovalError::Forget(id, e)) && id == torrent_id && forgotten == Err::<(), RqbitFuseError>(e)),
            forgotten is Ok ==> r is Ok && torrent_dropped(old(self)@.inodes, final(self)@.inodes, torrent_inode)
                && final(self)@ == old(self)@.with_inodes(final(self)@.inodes),
    {
        match forgotten {
            Err(e) => Err(TorrentRemovalError::Forget(torrent_id, e)),
            Ok(()) => {
                let ghost pre = self@;
                self.inode_manager.remove_child(1, torrent_inode);
                let ghost mid = self@.inodes;
                self.inode_manager.remove_inode(torrent_inode);
                assert(child_unlisted(pre.inodes, mid, 1, torrent_inode));
                Ok(())
            },
        }
    }

    /// Removes a torrent by its ID: a torrent that is not in the filesystem
    /// is an error; else see [`TorrentFS::remove_torrent`], `forgotten`
    /// being rqbit's answer to forgetting it.
    pub fn remove_torrent_by_id(&mut self, torrent_id: u64, forgotten: Result<(), RqbitFuseError>) -> (r: Result<(), TorrentRemovalError>)
        requires
            old(self).inv(),
        ensures
            final(self).inv(),
            !old(self)@.inodes.torrents.dom().contains(torrent_id) ==> final(self)@ == old(self)@ && (r matches Err(TorrentRemovalError::NotInFilesystem(id)) && id == torrent_id),
            old(self)@.inodes.torrents.dom().contains(torrent_id) && forgotten is Err ==> final(self)@ == old(self)@ && (r is Err),
            old(self)@.inodes.torrents.dom().contains(torrent_id) && forgotten is Ok ==> r is Ok && torrent_dropped(
                old(self)@.inodes,
                final(self)@.inodes,
                old(self)@.inodes.torrents[torrent_id],
            ) && final(self)@ == old(self)@.with_inodes(final(self)@.inodes),
    {
        let torrent_inode = match self.inode_manager.lookup_torrent(torrent_id) {
            Some(ino) => ino,
            None => return Err(TorrentRemovalError::NotInFilesystem(torrent_id)),
        };
        self.remove_torrent(torrent_id, torrent_inode, forgotten)
    }

    /// Checks if a torrent is already in the filesystem.
    pub fn has_torrent(&self, torrent_id: u64) -> (r: bool)
        ensures
            r == self@.inodes.torrents.dom().contains(torrent_id),
    {
        self.inode_manager.lookup_torrent(torrent_id).is_some()
    }

    /// Gets the torrent IDs currently in the filesystem, each once.
    pub fn list_torrents(&self) -> (r: Vec<u64>)
        ensures
            r@.no_duplicates(),
            r@.to_set() == self@.inodes.torrents.dom(),
    {
        self.inode_manager.get_all_torrent_ids()
    }

    /// Clean up the filesystem on unmount: it is no longer initialized.
    pub fn destroy(&mut self)
        ensures
            final(self)@ == old(self)@.with_initialized(false),
            final(self).inv() == old(self).inv(),
    {
        self.initialized = false;
    }
}

/// Populates the filesystem with the torrents that rqbit already has
/// (before mounting): each listed torrent that is not in the filesystem
/// yet gets its structure. Returns how many structures were created.
/// Every listed torrent is then in the torrent index when the table had
/// room for all the entries.
pub fn discover_existing_torrents(fs: &mut TorrentFS, torrents: &Vec<TorrentInfo>) -> (created: usize)
    requires
        old(fs).inv(),
    ensures
        final(fs).inv(),
        created <= torrents@.len(),
        final(fs)@ == old(fs)@.with_inodes(final(fs)@.inodes),
        table_extends(old(fs)@.inodes, final(fs)@.inodes),
        forall|id: u64| #[trigger] old(fs)@.inodes.torrents.dom().contains(id) ==> final(fs)@.inodes.torrents.dom().contains(id)
            && final(fs)@.inodes.torrents[id] == old(fs)@.inodes.torrents[id],
        forall|id: u64| #[trigger] final(fs)@.inodes.torrents.dom().contains(id) ==> old(fs)@.inodes.torrents.dom().contains(id)
            || torrents@.map_values(|t: TorrentInfo| t.id).contains(id),
        room(old(fs)@.inodes, torrents_cost(torrents@)) ==> forall|i: int| 0 <= i < torrents@.len() ==> final(fs)@.inodes.torrents.dom().contains(#[trigger] torrents@[i].id),
        structures_made(old(fs)@, final(fs)@, torrents@, false),
        (forall|i: int| 0 <= i < torrents@.len() ==> old(fs)@.inodes.torrents.dom().contains(#[trigger] torrents@[i].id)) ==> created == 0,
        room(old(fs)@.inodes, torrents_cost(torrents@)) ==> created == newly_listed_count(old(fs)@.inodes, torrents@, torrents@.len() as int),
{
    let ghost start = fs@;
    let ghost list = torrents@;
    let ghost ids = list.map_values(|t: TorrentInfo| t.id);
    let ghost ok = room(start.inodes, torrents_cost(list));
    let ghost all_there = forall|j: int| 0 <= j < list.len() ==> start.inodes.torrents.dom().contains(#[trigger] list[j].id);
    let mut created: usize = 0;
    let mut i: usize = 0;
    proof {
        lemma_extends_refl(start.inodes);
        lemma_grown_unchanged(start.inodes, start.inodes);
        lemma_made_under_unchanged(start.inodes, start.inodes, set![1u64]);
        assert(list.subrange(0, list.len() as int) =~= list);
    }
    while i < torrents.len()
        invariant
            fs.inv(),
            list == torrents@,
            ids == list.map_values(|t: TorrentInfo| t.id),
            i <= list.len(),
            created <= i,
            fs@ == start.with_inodes(fs@.inodes),
            table_extends(start.inodes, fs@.inodes),
            forall|id: u64| #[trigger] start.inodes.torrents.dom().contains(id) ==> fs@.inodes.torrents.dom().contains(id)
                && fs@.inodes.torrents[id] == start.inodes.torrents[id],
            forall|id: u64| #[trigger] fs@.inodes.torrents.dom().contains(id) ==> start.inodes.torrents.dom().contains(id) || ids.contains(id),
            ok == room(start.inodes, torrents_cost(list)),
            ok ==> room(fs@.inodes, torrents_cost(list.subrange(i as int, list.len() as int))),
            ok ==> forall|j: int| 0 <= j < i ==> fs@.inodes.torrents.dom().contains(#[trigger] list[j].id),
            ok ==> forall|j: int| 0 <= j < i && newly_listed(start.inodes, list, j) ==> #[trigger] structure_present(fs@.inodes, list[j], false),
            ok ==> children_grown(start.inodes, fs@.inodes),
            ok ==> made_under(start.inodes, fs@.inodes, set![1u64]),
            ok ==> created == newly_listed_count(start.inodes, list, i as int),
            all_there == (forall|j: int| 0 <= j < list.len() ==> start.inodes.torrents.dom().contains(#[trigger] list[j].id)),
            all_there ==> fs@ == start && created == 0,
            forall|id: u64| #[trigger] fs@.inodes.torrents.dom().contains(id) ==> start.inodes.torrents.dom().contains(id)
                || exists|m: int| 0 <= m < i && list[m].id == id,
        decreases list.len() - i,
    {
        let ghost cur = fs@.inodes;
        let info = &torrents[i];
        let ghost rest = list.subrange(i + 1, list.len() as int);
        proof {
            assert(list.subrange(i as int, list.len() as int).drop_first() =~= rest);
            assert(torrents_cost(list.subrange(i as int, list.len() as int)) == 1 + files_cost(info.files@) + torrents_cost(rest));
            assert(ids[i as int] == info.id);
        }
        if !fs.has_torrent(info.id) {
            let _ = fs.create_torrent_structure(info);
            created = created + 1;
            proof {
                lemma_extends_trans(start.inodes, cur, fs@.inodes);
                if ok {
                    lemma_grown_trans(start.inodes, cur, fs@.inodes);
                    lemma_made_under_trans(start.inodes, cur, fs@.inodes, set![1u64], set![1u64]);
                    if info.files@.len() == 1 {
                        assert(fs@.inodes.torrents == cur.torrents.insert(info.id, fs@.inodes.torrents[info.id]));
                    } else {
                        assert(room(cur, 1));
                    }
                }
                assert forall|id: u64| #[trigger] fs@.inodes.torrents.dom().contains(id) implies start.inodes.torrents.dom().contains(id)
                    || exists|m: int| 0 <= m < i + 1 && list[m].id == id by {
                    if id == info.id {
                        assert(list[i as int].id == id);
                    } else {
                        assert(cur.torrents.dom().contains(id));
                    }
                }
                if ok {
                    assert forall|j: int| 0 <= j < i + 1 && newly_listed(start.inodes, list, j)
                        implies #[trigger] structure_present(fs@.inodes, list[j], false) by {
                        if j < i {
                            assert(structure_present(cur, list[j], false));
                            lemma_structure_kept(cur, fs@.inodes, list[j], false);
                        }
                    }
                }
            }
        } else {
            proof {
                if ok {
                    assert forall|j: int| 0 <= j < i + 1 && newly_listed(start.inodes, list, j)
                        implies #[trigger] structure_present(fs@.inodes, list[j], false) by {
                        if j == i {
                            assert(cur.torrents.dom().contains(list[j].id));
                        }
                    }
                }
            }
        }
        i = i + 1;
    }
    created
}

} // verus!
