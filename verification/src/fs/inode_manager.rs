//! The inode table: allocation of inode numbers, lookup by number, by path
//! and by torrent, children lists, and removal of whole subtrees.
use crate::error::{join_strings, join_with};
use crate::fs::tables::{
    inode_table, inode_table_contains, inode_table_get, inode_table_insert, inode_table_len,
    inode_table_new, inode_table_pairs, inode_table_remove, path_index, path_index_clear, path_index_pairs,
    path_index_get, path_index_insert, path_index_new, path_index_remove, torrent_index,
    torrent_index_clear, torrent_index_get, torrent_index_insert, torrent_index_new,
    torrent_index_pairs, torrent_index_remove,
};
use crate::text::concat3;
use crate::types::inode::{copy_inode_list, copy_string, InodeEntry};
use dashmap::DashMap;
use vstd::prelude::*;

verus! {

/// The inode number of the root directory.
pub const ROOT_INODE: u64 = 1;

/// Manages inode allocation and the mapping between inodes and filesystem
/// entries.
pub struct InodeManager {
    /// Next available inode number (starts at 2, root is 1)
    next_inode: u64,
    /// Maps inode numbers to their entries
    entries: DashMap<u64, InodeEntry>,
    /// Maps paths to inode numbers for reverse lookup
    path_to_inode: DashMap<String, u64>,
    /// Maps torrent IDs to their directory inode
    torrent_to_inode: DashMap<u64, u64>,
    /// Maximum number of inodes allowed (0 = unlimited)
    max_inodes: usize,
}

/// A copy of one entry of the inode table, with its inode number.
#[derive(Debug)]
pub struct InodeEntryRef {
    pub inode: u64,
    pub entry: InodeEntry,
}

/// The contents of an [`InodeManager`].
pub struct InodeTableView {
    pub entries: Map<u64, InodeEntry>,
    pub paths: Map<Seq<char>, u64>,
    pub torrents: Map<u64, u64>,
    pub next: u64,
    pub max: usize,
}

/// The root directory's entry.
pub open spec fn is_root_entry(e: InodeEntry) -> bool {
    &&& e is Directory
    &&& e.spec_ino() == 1
    &&& e.spec_parent() == 1
    &&& e.spec_name() == Seq::<char>::empty()
    &&& e.spec_canonical_path() == "/"@
}

/// Two entries that differ at most in their children lists.
pub open spec fn same_except_children(a: InodeEntry, b: InodeEntry) -> bool {
    match (a, b) {
        (
            InodeEntry::Directory { ino: i1, name: n1, parent: p1, canonical_path: c1, .. },
            InodeEntry::Directory { ino: i2, name: n2, parent: p2, canonical_path: c2, .. },
        ) => i1 == i2 && n1@ == n2@ && p1 == p2 && c1@ == c2@,
        _ => a == b,
    }
}

/// The path for a new entry named `name` under `parent`: below the parent's
/// stored path, or below the root when the parent is unknown.
pub open spec fn child_path(t: Map<u64, InodeEntry>, parent: u64, name: Seq<char>) -> Seq<char> {
    if t.dom().contains(parent) {
        let pp = t[parent].spec_canonical_path();
        if pp == "/"@ {
            "/"@ + name
        } else {
            pp + "/"@ + name
        }
    } else {
        "/"@ + name
    }
}

/// The names met walking up the parent links from `cur` until the root, a
/// missing entry, or `fuel` steps.
pub open spec fn ancestor_names(t: Map<u64, InodeEntry>, cur: u64, fuel: nat) -> Seq<Seq<char>>
    decreases fuel,
{
    if fuel == 0 || cur == 1 || !t.dom().contains(cur) {
        Seq::empty()
    } else {
        seq![t[cur].spec_name()] + ancestor_names(t, t[cur].spec_parent(), (fuel - 1) as nat)
    }
}

/// A path written from its components, top first: `/` when there is none or
/// the first is empty, else the components joined with `/` after a `/`.
pub open spec fn render_path(top_first: Seq<Seq<char>>) -> Seq<char> {
    if top_first.len() == 0 || top_first[0].len() == 0 {
        "/"@
    } else {
        "/"@ + join_with(top_first, "/"@)
    }
}

/// The path of an entry built from the names of its ancestors; the walk
/// takes at most as many steps as the table has entries.
pub open spec fn built_path(t: Map<u64, InodeEntry>, e: InodeEntry) -> Seq<char> {
    render_path(
        (seq![e.spec_name()] + ancestor_names(t, e.spec_parent(), t.dom().len())).reverse(),
    )
}

/// `s` without any occurrence of `c`.
pub open spec fn seq_without(s: Seq<u64>, c: u64) -> Seq<u64>
    decreases s.len(),
{
    if s.len() == 0 {
        s
    } else if s.last() == c {
        seq_without(s.drop_last(), c)
    } else {
        seq_without(s.drop_last(), c).push(s.last())
    }
}

/// The children of a list that are in the table, each with its entry, in
/// list order.
pub open spec fn present_children(t: Map<u64, InodeEntry>, kids: Seq<u64>) -> Seq<(u64, InodeEntry)>
    decreases kids.len(),
{
    if kids.len() == 0 {
        Seq::empty()
    } else {
        let rest = present_children(t, kids.drop_last());
        if t.dom().contains(kids.last()) {
            rest.push((kids.last(), t[kids.last()]))
        } else {
            rest
        }
    }
}

impl InodeTableView {
    /// The table's invariant: the root is there, every entry is stored under
    /// its own number, and numbers other than the root's are below `next`.
    pub open spec fn wf(self) -> bool {
        &&& self.entries.dom().finite()
        &&& self.entries.dom().contains(1)
        &&& is_root_entry(self.entries[1])
        &&& self.next >= 2
        &&& forall|k: u64| #[trigger]
            self.entries.dom().contains(k) ==> self.entries[k].spec_ino() == k && (k == 1 || (2
                <= k && k < self.next))
    }

    /// Whether the limit on the number of entries allows one more.
    pub open spec fn under_limit(self) -> bool {
        self.max == 0 || self.entries.dom().len() < self.max
    }

    /// Whether an allocation succeeds: the limit allows it and the counter
    /// has a number left.
    pub open spec fn allocation_succeeds(self) -> bool {
        self.under_limit() && self.next < u64::MAX
    }

    /// The table after allocating the next number for an entry whose
    /// stored path is `path`: the entry is added, its path is indexed and,
    /// for a torrent, the torrent is mapped to it; older entries are kept.
    pub open spec fn allocated(self, post: Self, path: Seq<char>, torrent: Option<u64>, r: u64) -> bool {
        &&& r == self.next
        &&& post.next == self.next + 1
        &&& post.max == self.max
        &&& post.entries.dom() == self.entries.dom().insert(r)
        &&& forall|k: u64| #[trigger]
            self.entries.dom().contains(k) ==> post.entries[k] == self.entries[k]
        &&& post.paths == self.paths.insert(path, r)
        &&& post.torrents == (match torrent {
            Some(id) => self.torrents.insert(id, r),
            None => self.torrents,
        })
    }

    /// The outcome of an allocation: a new entry when it succeeds, else 0
    /// and no change.
    pub open spec fn allocation(self, post: Self, path: Seq<char>, torrent: Option<u64>, r: u64) -> bool {
        if self.allocation_succeeds() {
            self.allocated(post, path, torrent, r)
        } else {
            r == 0 && post == self
        }
    }

    /// The entry under `ino`, if any.
    pub open spec fn entry_at(self, ino: u64) -> Option<InodeEntry> {
        if self.entries.dom().contains(ino) {
            Some(self.entries[ino])
        } else {
            None
        }
    }
}

/// What removing the entry `x` and everything below it leaves: the entries
/// removed are `x` and entries whose parent was removed too; no remaining
/// entry has a removed parent; remaining entries change only in their
/// children lists, and only by losing removed numbers; `x` leaves its
/// parent's children list, the root's included; the path index only loses
/// keys, and no path left leads to a removed entry; the torrent index loses
/// exactly the torrents mapped to removed entries.
pub open spec fn subtree_removed(pre: InodeTableView, post: InodeTableView, x: u64) -> bool {
    let removed = pre.entries.dom().difference(post.entries.dom());
    &&& post.entries.dom().subset_of(pre.entries.dom())
    &&& pre.entries.dom().contains(x) ==> removed.contains(x)
    &&& forall|y: u64| #[trigger]
        removed.contains(y) && y != x ==> removed.contains(pre.entries[y].spec_parent())
    &&& forall|k: u64| #[trigger]
        post.entries.dom().contains(k) ==> !removed.contains(post.entries[k].spec_parent())
            && same_except_children(pre.entries[k], post.entries[k])
    &&& forall|k: u64, c: u64| #[trigger]
        post.entries.dom().contains(k) && #[trigger] pre.entries[k].spec_children().contains(c)
            && !post.entries[k].spec_children().contains(c) ==> removed.contains(c)
    &&& forall|k: u64, c: u64| #[trigger]
        post.entries.dom().contains(k) && #[trigger] post.entries[k].spec_children().contains(c)
            ==> pre.entries[k].spec_children().contains(c)
    &&& post.paths.dom().subset_of(pre.paths.dom())
    &&& forall|p: Seq<char>| #[trigger] post.paths.dom().contains(p) ==> post.paths[p] == pre.paths[p]
    &&& forall|p: Seq<char>| #[trigger] post.paths.dom().contains(p) ==> !removed.contains(post.paths[p])
    &&& pre.entries.dom().contains(x) && post.entries.dom().contains(pre.entries[x].spec_parent())
        ==> !post.entries[pre.entries[x].spec_parent()].spec_children().contains(x)
    &&& forall|id: u64| #[trigger]
        post.torrents.dom().contains(id) <==> (pre.torrents.dom().contains(id) && !removed.contains(
            pre.torrents[id],
        ))
    &&& forall|id: u64| #[trigger] post.torrents.dom().contains(id) ==> post.torrents[id] == pre.torrents[id]
    &&& pre.entries.dom().contains(1) ==> post.entries.dom().contains(1)
    &&& post.next == pre.next
    &&& post.max == pre.max
}

/// What adding `child` to the children list of `parent` leaves: a
/// directory that did not list it lists it last, and every other entry is
/// unchanged.
pub open spec fn child_added(pre: InodeTableView, post: InodeTableView, parent: u64, child: u64) -> bool {
    &&& post.entries.dom() == pre.entries.dom()
    &&& forall|k: u64| #[trigger] pre.entries.dom().contains(k) && k != parent ==> post.entries[k] == pre.entries[k]
    &&& pre.entries.dom().contains(parent) ==> if pre.entries[parent] is Directory && !pre.entries[parent].spec_children().contains(child) {
        same_except_children(pre.entries[parent], post.entries[parent])
            && post.entries[parent].spec_children() == pre.entries[parent].spec_children().push(child)
    } else {
        post.entries[parent] == pre.entries[parent]
    }
}

impl View for InodeManager {
    type V = InodeTableView;

    closed spec fn view(&self) -> InodeTableView {
        InodeTableView {
            entries: inode_table(self.entries),
            paths: path_index(self.path_to_inode),
            torrents: torrent_index(self.torrent_to_inode),
            next: self.next_inode,
            max: self.max_inodes,
        }
    }
}

} // verus!

verus! {

/// Keeps the entries of a list other than `c`.
pub fn list_without(v: &Vec<u64>, c: u64) -> (r: Vec<u64>)
    ensures
        r@ == seq_without(v@, c),
{
    let mut r: Vec<u64> = Vec::new();
    let mut i: usize = 0;
    while i < v.len()
        invariant
            i <= v.len(),
            r@ == seq_without(v@.subrange(0, i as int), c),
        decreases v.len() - i,
    {
        assert(v@.subrange(0, i + 1).drop_last() =~= v@.subrange(0, i as int));
        if v[i] != c {
            r.push(v[i]);
        }
        i = i + 1;
    }
    assert(v@.subrange(0, v.len() as int) =~= v@);
    r
}

/// Whether a list holds a number.
pub fn list_contains(v: &Vec<u64>, c: u64) -> (r: bool)
    ensures
        r == v@.contains(c),
{
    let mut i: usize = 0;
    while i < v.len()
        invariant
            i <= v.len(),
            forall|j: int| 0 <= j < i ==> v@[j] != c,
        decreases v.len() - i,
    {
        if v[i] == c {
            return true;
        }
        i = i + 1;
    }
    false
}

impl InodeManager {
    /// The manager's invariant, over its contents.
    pub open spec fn inv(&self) -> bool {
        self@.wf()
    }

    /// Creates a new InodeManager with root inode (inode 1) pre-allocated
    /// and no limit on the number of inodes.
    pub fn new() -> (m: Self)
        ensures
            m.inv(),
            m@.max == 0,
            m@.next == 2,
            m@.entries.dom() == set![1u64],
            m@.paths == Map::<Seq<char>, u64>::empty().insert("/"@, 1),
            m@.torrents == Map::<u64, u64>::empty(),
    {
        Self::with_max_inodes(0)
    }

    /// Creates a new InodeManager with a maximum inode limit (0 = unlimited).
    pub fn with_max_inodes(max_inodes: usize) -> (m: Self)
        ensures
            m.inv(),
            m@.max == max_inodes,
            m@.next == 2,
            m@.entries.dom() == set![1u64],
            m@.paths == Map::<Seq<char>, u64>::empty().insert("/"@, 1),
            m@.torrents == Map::<u64, u64>::empty(),
    {
        let mut entries = inode_table_new();
        let mut path_to_inode = path_index_new();
        let torrent_to_inode = torrent_index_new();
        let root = InodeEntry::Directory {
            ino: 1,
            name: String::new(),
            parent: 1,
            children: Vec::new(),
            canonical_path: String::from_str("/"),
        };
        inode_table_insert(&mut entries, 1, root);
        path_index_insert(&mut path_to_inode, String::from_str("/"), 1);
        let m = Self { next_inode: 2, entries, path_to_inode, torrent_to_inode, max_inodes };
        assert(m@.entries.dom() =~= set![1u64]);
        m
    }

    /// Check if a new inode can be allocated (always, when the limit is 0).
    pub fn can_allocate(&self) -> (r: bool)
        requires
            self.inv(),
        ensures
            r == self@.under_limit(),
    {
        if self.max_inodes > 0 {
            inode_table_len(&self.entries) < self.max_inodes
        } else {
            true
        }
    }

    /// Get the current inode count limit (0 = unlimited).
    pub fn max_inodes(&self) -> (r: usize)
        ensures
            r == self@.max,
    {
        self.max_inodes
    }

    /// The stored path for a new entry named `name` under `parent`.
    fn child_canonical_path(&self, parent: u64, name: &str) -> (r: String)
        ensures
            r@ == child_path(self@.entries, parent, name@),
    {
        match inode_table_get(&self.entries, parent) {
            Some(pe) => {
                let pp = pe.canonical_path();
                if crate::text::str_equal(pp, "/") {
                    crate::text::concat2("/", name)
                } else {
                    concat3(pp, "/", name)
                }
            },
            None => crate::text::concat2("/", name),
        }
    }

    /// Allocates an inode for the given entry and registers it with its
    /// path and, for a torrent directory, its torrent. Returns 0 when the
    /// limit is reached or the counter has no number left.
    fn allocate_entry(&mut self, entry: InodeEntry, torrent_id: Option<u64>) -> (r: u64)
        requires
            old(self).inv(),
        ensures
            final(self).inv(),
            old(self)@.allocation(final(self)@, entry.spec_canonical_path(), torrent_id, r),
            r != 0 ==> entry.same_but_ino(&final(self)@.entries[r], r),
    {
        if (self.max_inodes > 0 && inode_table_len(&self.entries) >= self.max_inodes)
            || self.next_inode == u64::MAX {
            return 0;
        }
        let inode = self.next_inode;
        self.next_inode = inode + 1;
        let numbered = entry.with_ino(inode);
        let path = String::from_str(numbered.canonical_path());
        inode_table_insert(&mut self.entries, inode, numbered);
        path_index_insert(&mut self.path_to_inode, path, inode);
        match torrent_id {
            Some(id) => torrent_index_insert(&mut self.torrent_to_inode, id, inode),
            None => {},
        }
        inode
    }

    /// Allocates a new inode for the given entry.
    pub fn allocate(&mut self, entry: InodeEntry) -> (r: u64)
        requires
            old(self).inv(),
        ensures
            final(self).inv(),
            old(self)@.allocation(final(self)@, entry.spec_canonical_path(), None, r),
            r != 0 ==> entry.same_but_ino(&final(self)@.entries[r], r),
    {
        self.allocate_entry(entry, None)
    }

    /// Allocates a directory inode for a torrent, below `parent`.
    pub fn allocate_torrent_directory(&mut self, torrent_id: u64, name: String, parent: u64) -> (r: u64)
        requires
            old(self).inv(),
        ensures
            final(self).inv(),
            old(self)@.allocation(
                final(self)@,
                child_path(old(self)@.entries, parent, name@),
                Some(torrent_id),
                r,
            ),
            r != 0 ==> (final(self)@.entries[r] matches InodeEntry::Directory {
                ino,
                name: n,
                parent: p,
                children,
                canonical_path,
            } && ino == r && n@ == name@ && p == parent && children@.len() == 0
                && canonical_path@ == child_path(old(self)@.entries, parent, name@)),
    {
        let canonical_path = self.child_canonical_path(parent, name.as_str());
        let entry = InodeEntry::Directory {
            ino: 0,
            name,
            parent,
            children: Vec::new(),
            canonical_path,
        };
        self.allocate_entry(entry, Some(torrent_id))
    }

    /// Allocates a file inode within a torrent.
    pub fn allocate_file(
        &mut self,
        name: String,
        parent: u64,
        torrent_id: u64,
        file_index: u64,
        size: u64,
    ) -> (r: u64)
        requires
            old(self).inv(),
        ensures
            final(self).inv(),
            old(self)@.allocation(
                final(self)@,
                child_path(old(self)@.entries, parent, name@),
                None,
                r,
            ),
            r != 0 ==> (final(self)@.entries[r] matches InodeEntry::File {
                ino,
                name: n,
                parent: p,
                torrent_id: t,
                file_index: f,
                size: s,
                canonical_path,
            } && ino == r && n@ == name@ && p == parent && t == torrent_id && f == file_index && s
                == size && canonical_path@ == child_path(old(self)@.entries, parent, name@)),
    {
        let canonical_path = self.child_canonical_path(parent, name.as_str());
        let entry = InodeEntry::File {
            ino: 0,
            name,
            parent,
            torrent_id,
            file_index,
            size,
            canonical_path,
        };
        self.allocate_entry(entry, None)
    }

    /// Allocates a symbolic link inode.
    pub fn allocate_symlink(&mut self, name: String, parent: u64, target: String) -> (r: u64)
        requires
            old(self).inv(),
        ensures
            final(self).inv(),
            old(self)@.allocation(
                final(self)@,
                child_path(old(self)@.entries, parent, name@),
                None,
                r,
            ),
            r != 0 ==> (final(self)@.entries[r] matches InodeEntry::Symlink {
                ino,
                name: n,
                parent: p,
                target: t,
                canonical_path,
            } && ino == r && n@ == name@ && p == parent && t@ == target@ && canonical_path@
                == child_path(old(self)@.entries, parent, name@)),
    {
        let canonical_path = self.child_canonical_path(parent, name.as_str());
        let entry = InodeEntry::Symlink { ino: 0, name, parent, target, canonical_path };
        self.allocate_entry(entry, None)
    }

    /// Looks up an inode by its number.
    pub fn get(&self, inode: u64) -> (r: Option<InodeEntry>)
        ensures
            r == self@.entry_at(inode),
    {
        inode_table_get(&self.entries, inode)
    }

    /// Looks up an inode by its path.
    pub fn lookup_by_path(&self, path: &str) -> (r: Option<u64>)
        ensures
            r == (if self@.paths.dom().contains(path@) {
                Some(self@.paths[path@])
            } else {
                None::<u64>
            }),
    {
        path_index_get(&self.path_to_inode, path)
    }

    /// Looks up a torrent directory by torrent ID.
    pub fn lookup_torrent(&self, torrent_id: u64) -> (r: Option<u64>)
        ensures
            r == (if self@.torrents.dom().contains(torrent_id) {
                Some(self@.torrents[torrent_id])
            } else {
                None::<u64>
            }),
    {
        torrent_index_get(&self.torrent_to_inode, torrent_id)
    }

    /// Check if an inode exists in the manager.
    pub fn contains(&self, inode: u64) -> (r: bool)
        ensures
            r == self@.entries.dom().contains(inode),
    {
        inode_table_contains(&self.entries, inode)
    }

    /// Get the total number of entries (including root).
    pub fn len(&self) -> (r: usize)
        ensures
            r == self@.entries.dom().len(),
    {
        inode_table_len(&self.entries)
    }

    /// Check if the manager only contains the root inode.
    pub fn is_empty(&self) -> (r: bool)
        ensures
            r == (self@.entries.dom().len() <= 1),
    {
        inode_table_len(&self.entries) <= 1
    }

    /// Gets the next inode number without allocating it.
    pub fn next_inode(&self) -> (r: u64)
        ensures
            r == self@.next,
    {
        self.next_inode
    }

    /// Gets the total number of allocated inodes (excluding root).
    pub fn inode_count(&self) -> (r: usize)
        requires
            self.inv(),
        ensures
            r == self@.entries.dom().len() - 1,
    {
        proof {
            vstd::set_lib::lemma_len_subset(set![1u64], self@.entries.dom());
        }
        inode_table_len(&self.entries) - 1
    }

    /// Gets a copy of the torrent-to-inode mapping: each torrent once, with
    /// its inode.
    pub fn torrent_to_inode(&self) -> (r: Vec<(u64, u64)>)
        ensures
            r@.len() == self@.torrents.dom().len(),
            forall|i: int| 0 <= i < r@.len() ==> self@.torrents.dom().contains(#[trigger] r@[i].0)
                && self@.torrents[r@[i].0] == r@[i].1,
            forall|i: int, j: int| 0 <= i < r@.len() && 0 <= j < r@.len() && i != j ==> #[trigger] r@[i].0
                != #[trigger] r@[j].0,
            forall|k: u64| self@.torrents.dom().contains(k) ==> exists|i: int| 0 <= i < r@.len() && #[trigger] r@[i].0 == k,
    {
        torrent_index_pairs(&self.torrent_to_inode)
    }

    /// Gets all torrent IDs currently tracked, each once.
    pub fn get_all_torrent_ids(&self) -> (r: Vec<u64>)
        ensures
            r@.no_duplicates(),
            r@.to_set() == self@.torrents.dom(),
    {
        let pairs = torrent_index_pairs(&self.torrent_to_inode);
        let mut r: Vec<u64> = Vec::new();
        let mut i: usize = 0;
        while i < pairs.len()
            invariant
                i <= pairs.len(),
                r@.len() == i,
                forall|j: int| 0 <= j < i ==> r@[j] == pairs@[j].0,
                forall|a: int, b: int|
                    0 <= a < pairs@.len() && 0 <= b < pairs@.len() && a != b ==> #[trigger] pairs@[a].0
                        != #[trigger] pairs@[b].0,
            decreases pairs.len() - i,
        {
            r.push(pairs[i].0);
            i = i + 1;
        }
        assert forall|k: u64| #[trigger] r@.to_set().contains(k) <==> self@.torrents.dom().contains(k) by {
            if self@.torrents.dom().contains(k) {
                let j = choose|j: int| 0 <= j < pairs@.len() && #[trigger] pairs@[j].0 == k;
                assert(r@[j] == k);
            }
            if r@.to_set().contains(k) {
                let j = choose|j: int| 0 <= j < r@.len() && r@[j] == k;
                assert(pairs@[j].0 == k);
            }
        }
        assert(r@.to_set() =~= self@.torrents.dom());
        r
    }

    /// Maps a torrent to an inode in the torrent index.
    pub(crate) fn map_torrent(&mut self, torrent_id: u64, inode: u64)
        requires
            old(self).inv(),
        ensures
            final(self).inv(),
            final(self)@.entries == old(self)@.entries,
            final(self)@.paths == old(self)@.paths,
            final(self)@.torrents == old(self)@.torrents.insert(torrent_id, inode),
            final(self)@.next == old(self)@.next,
            final(self)@.max == old(self)@.max,
    {
        torrent_index_insert(&mut self.torrent_to_inode, torrent_id, inode);
    }

    /// The torrent whose directory is the inode `ino`, if any.
    pub fn torrent_for_inode(&self, ino: u64) -> (r: Option<u64>)
        ensures
            r matches Some(id) ==> self@.torrents.dom().contains(id) && self@.torrents[id] == ino,
            r is None ==> forall|id: u64| #[trigger]
                self@.torrents.dom().contains(id) ==> self@.torrents[id] != ino,
    {
        let pairs = torrent_index_pairs(&self.torrent_to_inode);
        let mut i: usize = 0;
        while i < pairs.len()
            invariant
                i <= pairs.len(),
                forall|j: int| 0 <= j < i ==> pairs@[j].1 != ino,
                forall|j: int|
                    0 <= j < pairs@.len() ==> self@.torrents.dom().contains(#[trigger] pairs@[j].0)
                        && self@.torrents[pairs@[j].0] == pairs@[j].1,
            decreases pairs.len() - i,
        {
            if pairs[i].1 == ino {
                return Some(pairs[i].0);
            }
            i = i + 1;
        }
        assert forall|id: u64| #[trigger] self@.torrents.dom().contains(id) implies self@.torrents[id] != ino by {
            let j = choose|j: int| 0 <= j < pairs@.len() && #[trigger] pairs@[j].0 == id;
        }
        None
    }

    /// A copy of every entry with its number, each once, in the table's
    /// own order.
    pub fn iter_entries(&self) -> (r: Vec<InodeEntryRef>)
        ensures
            r@.len() == self@.entries.dom().len(),
            forall|i: int| 0 <= i < r@.len() ==> self@.entries.dom().contains(#[trigger] r@[i].inode)
                && self@.entries[r@[i].inode] == r@[i].entry,
            forall|i: int, j: int|
                0 <= i < r@.len() && 0 <= j < r@.len() && i != j ==> #[trigger] r@[i].inode
                    != #[trigger] r@[j].inode,
            forall|k: u64| self@.entries.dom().contains(k) ==> exists|i: int| 0 <= i < r@.len() && #[trigger] r@[i].inode == k,
    {
        let mut pairs = inode_table_pairs(&self.entries);
        let ghost all = pairs@;
        let mut r: Vec<InodeEntryRef> = Vec::new();
        while pairs.len() > 0
            invariant
                pairs@.len() + r@.len() == all.len(),
                pairs@ == all.subrange(0, pairs@.len() as int),
                forall|j: int| 0 <= j < r@.len() ==> #[trigger] r@[j].inode == all[all.len() - 1 - j].0
                    && r@[j].entry == all[all.len() - 1 - j].1,
            decreases pairs.len(),
        {
            let (k, e) = pairs.pop().unwrap();
            r.push(InodeEntryRef { inode: k, entry: e });
        }
        assert forall|k: u64| self@.entries.dom().contains(k) implies exists|i: int| 0 <= i < r@.len() && #[trigger] r@[i].inode == k by {
            let j = choose|j: int| 0 <= j < all.len() && #[trigger] all[j].0 == k;
            assert(r@[all.len() - 1 - j].inode == k);
        }
        r
    }
}

} // verus!

verus! {

/// The characters of each string of a list.
pub open spec fn string_views(v: Seq<String>) -> Seq<Seq<char>> {
    v.map_values(|s: String| s@)
}

/// Whether `get_children` reads a directory's children list: the entry is a
/// directory with a non-empty list.
pub open spec fn uses_children_list(t: Map<u64, InodeEntry>, p: u64) -> bool {
    t.dom().contains(p) && t[p] is Directory && t[p].spec_children().len() > 0
}

/// What `get_children` lists for `p`: the entries of its children list
/// that exist, in list order, when `p` is a directory with a non-empty
/// list; else every entry whose parent is `p`, each once, in some order.
pub open spec fn children_listing(t: Map<u64, InodeEntry>, p: u64, r: Seq<(u64, InodeEntry)>) -> bool {
    &&& r.len() == child_count(t, p)
    &&& uses_children_list(t, p) ==> r == present_children(t, t[p].spec_children())
    &&& !uses_children_list(t, p) ==> {
        &&& forall|i: int| 0 <= i < r.len() ==> t.dom().contains(#[trigger] r[i].0) && t[r[i].0] == r[i].1
            && r[i].1.spec_parent() == p
        &&& forall|i: int, j: int| 0 <= i < r.len() && 0 <= j < r.len() && i != j ==> #[trigger] r[i].0 != #[trigger] r[j].0
        &&& forall|k: u64| #[trigger] t.dom().contains(k) && t[k].spec_parent() == p ==> exists|i: int| 0 <= i < r.len() && r[i].0 == k
    }
}

/// The table after `child` leaves the children list of `parent`: nothing
/// else changes, and a directory `parent` keeps its other fields.
pub open spec fn child_unlisted(pre: InodeTableView, post: InodeTableView, parent: u64, child: u64) -> bool {
    &&& post.entries.dom() == pre.entries.dom()
    &&& post.paths == pre.paths
    &&& post.torrents == pre.torrents
    &&& post.next == pre.next
    &&& post.max == pre.max
    &&& forall|k: u64| #[trigger] pre.entries.dom().contains(k) && k != parent ==> post.entries[k] == pre.entries[k]
    &&& pre.entries.dom().contains(parent) ==> if pre.entries[parent] is Directory {
        same_except_children(pre.entries[parent], post.entries[parent])
            && post.entries[parent].spec_children() == seq_without(pre.entries[parent].spec_children(), child)
    } else {
        post.entries[parent] == pre.entries[parent]
    }
}

/// Every pair of a list of present children is an entry of the table.
pub proof fn lemma_present_children_in_table(t: Map<u64, InodeEntry>, kids: Seq<u64>)
    ensures
        forall|i: int| 0 <= i < present_children(t, kids).len() ==> t.dom().contains(
            #[trigger] present_children(t, kids)[i].0,
        ) && t[present_children(t, kids)[i].0] == present_children(t, kids)[i].1,
    decreases kids.len(),
{
    if kids.len() > 0 {
        let rest = present_children(t, kids.drop_last());
        lemma_present_children_in_table(t, kids.drop_last());
        assert forall|i: int| 0 <= i < present_children(t, kids).len() implies t.dom().contains(
            #[trigger] present_children(t, kids)[i].0,
        ) && t[present_children(t, kids)[i].0] == present_children(t, kids)[i].1 by {
            if i < rest.len() {
                assert(present_children(t, kids)[i] == rest[i]);
            }
        }
    }
}

/// Every pair that `get_children` lists is an entry of the table.
pub proof fn lemma_listing_in_table(t: Map<u64, InodeEntry>, p: u64, r: Seq<(u64, InodeEntry)>)
    requires
        children_listing(t, p, r),
    ensures
        forall|i: int| 0 <= i < r.len() ==> t.dom().contains(#[trigger] r[i].0) && t[r[i].0] == r[i].1,
{
    if uses_children_list(t, p) {
        lemma_present_children_in_table(t, t[p].spec_children());
    }
}

/// Two listings of the children of one directory hold the same numbers.
pub proof fn lemma_listing_same_keys(
    t: Map<u64, InodeEntry>,
    p: u64,
    r: Seq<(u64, InodeEntry)>,
    s: Seq<(u64, InodeEntry)>,
    j: int,
)
    requires
        children_listing(t, p, r),
        children_listing(t, p, s),
        0 <= j < r.len(),
    ensures
        exists|i: int| 0 <= i < s.len() && s[i].0 == r[j].0,
{
    if uses_children_list(t, p) {
        assert(s[j].0 == r[j].0);
    } else {
        assert(t.dom().contains(r[j].0) && t[r[j].0].spec_parent() == p);
    }
}

/// The entries whose parent is `p`.
pub open spec fn children_of(t: Map<u64, InodeEntry>, p: u64) -> Set<u64> {
    t.dom().filter(|k: u64| t[k].spec_parent() == p)
}

/// How many children `get_children` lists for `p`.
pub open spec fn child_count(t: Map<u64, InodeEntry>, p: u64) -> nat {
    if uses_children_list(t, p) {
        present_children(t, t[p].spec_children()).len()
    } else {
        children_of(t, p).len()
    }
}

proof fn lemma_same_except_children_trans(a: InodeEntry, b: InodeEntry, c: InodeEntry)
    requires
        same_except_children(a, b),
        same_except_children(b, c),
    ensures
        same_except_children(a, c),
{
}

pub proof fn lemma_contains_push(w: Seq<u64>, a: u64, y: u64)
    ensures
        w.push(a).contains(y) <==> (w.contains(y) || a == y),
{
    if w.push(a).contains(y) && a != y {
        let i = choose|i: int| 0 <= i < w.push(a).len() && w.push(a)[i] == y;
        assert(w[i] == y);
    }
    if w.contains(y) {
        let i = choose|i: int| 0 <= i < w.len() && w[i] == y;
        assert(w.push(a)[i] == y);
    }
    if a == y {
        assert(w.push(a)[w.len() as int] == y);
    }
}

pub proof fn lemma_seq_without(s: Seq<u64>, c: u64, y: u64)
    ensures
        seq_without(s, c).contains(y) <==> (s.contains(y) && y != c),
    decreases s.len(),
{
    if s.len() > 0 {
        lemma_seq_without(s.drop_last(), c, y);
        assert(s =~= s.drop_last().push(s.last()));
        lemma_contains_push(s.drop_last(), s.last(), y);
        if s.last() != c {
            lemma_contains_push(seq_without(s.drop_last(), c), s.last(), y);
        }
    }
}

/// Dropping a number keeps a list free of duplicates.
pub proof fn lemma_seq_without_no_dup(s: Seq<u64>, c: u64)
    requires
        s.no_duplicates(),
    ensures
        seq_without(s, c).no_duplicates(),
    decreases s.len(),
{
    if s.len() > 0 {
        let rest = s.drop_last();
        assert(rest.no_duplicates()) by {
            assert forall|i: int, j: int| 0 <= i < j < rest.len() implies rest[i] != rest[j] by {
                assert(rest[i] == s[i] && rest[j] == s[j]);
            }
        }
        lemma_seq_without_no_dup(rest, c);
        if s.last() != c {
            let w = seq_without(rest, c);
            assert(!rest.contains(s.last())) by {
                if rest.contains(s.last()) {
                    let i = choose|i: int| 0 <= i < rest.len() && rest[i] == s.last();
                    assert(s[i] == s[s.len() - 1]);
                }
            }
            lemma_seq_without(rest, c, s.last());
            assert forall|i: int, j: int| 0 <= i < j < w.push(s.last()).len() implies w.push(s.last())[i] != w.push(s.last())[j] by {
                if j == w.len() {
                    assert(w.contains(w[i]));
                }
            }
        }
    }
}

impl InodeManager {
    /// The names from an entry up to the root (the entry's own name first),
    /// as `ancestor_names` walks them.
    fn name_chain(&self, entry: &InodeEntry) -> (r: Vec<String>)
        requires
            self.inv(),
        ensures
            string_views(r@) == seq![entry.spec_name()] + ancestor_names(
                self@.entries,
                entry.spec_parent(),
                self@.entries.dom().len(),
            ),
    {
        let fuel_total = inode_table_len(&self.entries);
        let mut comps: Vec<String> = Vec::new();
        comps.push(String::from_str(entry.name()));
        let mut current = entry.parent();
        let mut steps: usize = 0;
        let mut done = false;
        let ghost t = self@.entries;
        let ghost goal = seq![entry.spec_name()] + ancestor_names(t, entry.spec_parent(), fuel_total as nat);
        assert(string_views(comps@) =~= seq![entry.spec_name()]);
        while !done && current != 1 && steps < fuel_total
            invariant
                steps <= fuel_total,
                t == self@.entries,
                fuel_total == t.dom().len(),
                goal == seq![entry.spec_name()] + ancestor_names(t, entry.spec_parent(), fuel_total as nat),
                done ==> !t.dom().contains(current),
                string_views(comps@) + ancestor_names(t, current, (fuel_total - steps) as nat) == goal,
            decreases fuel_total - steps + (if done { 0int } else { 1int }),
        {
            match inode_table_get(&self.entries, current) {
                Some(pe) => {
                    let ghost before = string_views(comps@);
                    comps.push(String::from_str(pe.name()));
                    assert(string_views(comps@) =~= before.push(pe.spec_name()));
                    assert(ancestor_names(t, current, (fuel_total - steps) as nat) == seq![
                        pe.spec_name(),
                    ] + ancestor_names(t, pe.spec_parent(), (fuel_total - steps - 1) as nat));
                    assert(before.push(pe.spec_name()) + ancestor_names(
                        t,
                        pe.spec_parent(),
                        (fuel_total - steps - 1) as nat,
                    ) =~= before + (seq![pe.spec_name()] + ancestor_names(
                        t,
                        pe.spec_parent(),
                        (fuel_total - steps - 1) as nat,
                    )));
                    current = pe.parent();
                    steps = steps + 1;
                },
                None => {
                    done = true;
                },
            }
        }
        assert(ancestor_names(t, current, (fuel_total - steps) as nat) =~= Seq::<Seq<char>>::empty());
        assert(string_views(comps@) =~= goal);
        comps
    }

    /// Writes a path from its names listed bottom-up.
    fn render_chain(chain: Vec<String>) -> (r: String)
        ensures
            r@ == render_path(string_views(chain@).reverse()),
    {
        let mut chain = chain;
        let ghost all = chain@;
        let mut top_first: Vec<String> = Vec::new();
        while chain.len() > 0
            invariant
                chain@ == all.subrange(0, chain@.len() as int),
                top_first@.len() + chain@.len() == all.len(),
                forall|j: int| 0 <= j < top_first@.len() ==> #[trigger] top_first@[j] == all[all.len() - 1 - j],
            decreases chain.len(),
        {
            let s = chain.pop().unwrap();
            top_first.push(s);
        }
        assert(string_views(top_first@) =~= string_views(all).reverse());
        if top_first.len() == 0 || top_first[0].as_str().unicode_len() == 0 {
            String::from_str("/")
        } else {
            let joined = join_strings(&top_first, "/");
            crate::text::concat2("/", joined.as_str())
        }
    }

    /// Builds the full path for an entry from the names of its ancestors.
    fn build_path(&self, entry: &InodeEntry) -> (r: String)
        requires
            self.inv(),
        ensures
            r@ == built_path(self@.entries, *entry),
    {
        let chain = self.name_chain(entry);
        Self::render_chain(chain)
    }

    /// Gets the full path for an inode, built from its ancestors' names.
    pub fn get_path_for_inode(&self, inode: u64) -> (r: Option<String>)
        requires
            self.inv(),
        ensures
            r is Some <==> self@.entries.dom().contains(inode),
            r matches Some(p) ==> p@ == built_path(self@.entries, self@.entries[inode]),
    {
        match inode_table_get(&self.entries, inode) {
            Some(e) => Some(self.build_path(&e)),
            None => None,
        }
    }

    /// Gets all children of a directory inode: the entries of its children
    /// list that exist, in list order; or, when the entry is not a directory
    /// with a non-empty list, every entry whose parent it is.
    pub fn get_children(&self, parent_inode: u64) -> (r: Vec<(u64, InodeEntry)>)
        requires
            self.inv(),
        ensures
            children_listing(self@.entries, parent_inode, r@),
    {
        let ghost t = self@.entries;
        match inode_table_get(&self.entries, parent_inode) {
            Some(InodeEntry::Directory { children, .. }) => {
                if children.len() > 0 {
                    let mut r: Vec<(u64, InodeEntry)> = Vec::new();
                    let mut i: usize = 0;
                    while i < children.len()
                        invariant
                            i <= children.len(),
                            t == self@.entries,
                            r@ == present_children(t, children@.subrange(0, i as int)),
                        decreases children.len() - i,
                    {
                        let c = children[i];
                        assert(children@.subrange(0, i + 1).drop_last() =~= children@.subrange(0, i as int));
                        match inode_table_get(&self.entries, c) {
                            Some(e) => r.push((c, e)),
                            None => {},
                        }
                        i = i + 1;
                    }
                    assert(children@.subrange(0, children.len() as int) =~= children@);
                    return r;
                }
            },
            _ => {},
        }
        let mut pairs = inode_table_pairs(&self.entries);
        let ghost all = pairs@;
        let mut r: Vec<(u64, InodeEntry)> = Vec::new();
        let ghost mut picked: Seq<int> = Seq::empty();
        while pairs.len() > 0
            invariant
                t == self@.entries,
                pairs@.len() <= all.len(),
                pairs@ == all.subrange(0, pairs@.len() as int),
                all.len() == t.dom().len(),
                forall|i: int| 0 <= i < all.len() ==> t.dom().contains(#[trigger] all[i].0) && t[all[i].0] == all[i].1,
                forall|i: int, j: int| 0 <= i < all.len() && 0 <= j < all.len() && i != j ==> #[trigger] all[i].0 != #[trigger] all[j].0,
                forall|k: u64| t.dom().contains(k) ==> exists|i: int| 0 <= i < all.len() && #[trigger] all[i].0 == k,
                r@.len() == picked.len(),
                forall|j: int| 0 <= j < picked.len() ==> pairs@.len() <= #[trigger] picked[j] < all.len() && r@[j] == all[picked[j]],
                forall|a: int, b: int| 0 <= a < b < picked.len() ==> #[trigger] picked[a] > #[trigger] picked[b],
                forall|i: int| pairs@.len() <= i < all.len() && #[trigger] all[i].1.spec_parent() == parent_inode ==> exists|j: int| 0 <= j < picked.len() && picked[j] == i,
                forall|j: int| 0 <= j < r@.len() ==> #[trigger] r@[j].1.spec_parent() == parent_inode,
            decreases pairs.len(),
        {
            let ghost old_picked = picked;
            let ghost old_len = pairs@.len();
            let (k, e) = pairs.pop().unwrap();
            let idx = pairs.len();
            assert(all[idx as int] == (k, e));
            if e.parent() == parent_inode {
                r.push((k, e));
                proof {
                    picked = picked.push(idx as int);
                }
            }
            proof {
                assert forall|i: int| pairs@.len() <= i < all.len() && #[trigger] all[i].1.spec_parent()
                    == parent_inode implies exists|j: int| 0 <= j < picked.len() && picked[j] == i by {
                    if i == idx {
                        assert(picked[picked.len() - 1] == i);
                    } else {
                        let j = choose|j: int| 0 <= j < old_picked.len() && old_picked[j] == i;
                        assert(picked[j] == i);
                    }
                }
            }
        }
        assert forall|i: int| 0 <= i < r@.len() implies t.dom().contains(#[trigger] r@[i].0)
            && t[r@[i].0] == r@[i].1 && r@[i].1.spec_parent() == parent_inode by {
            assert(r@[i] == all[picked[i]]);
        }
        assert forall|i: int, j: int|
            0 <= i < r@.len() && 0 <= j < r@.len() && i != j implies #[trigger] r@[i].0 != #[trigger] r@[j].0 by {
            if i < j {
                assert(picked[i] > picked[j]);
            } else {
                assert(picked[j] > picked[i]);
            }
            assert(r@[i] == all[picked[i]]);
            assert(r@[j] == all[picked[j]]);
        }
        assert forall|k: u64| #[trigger]
            t.dom().contains(k) && t[k].spec_parent() == parent_inode implies exists|i: int| 0 <= i < r@.len() && r@[i].0 == k by {
            let i = choose|i: int| 0 <= i < all.len() && #[trigger] all[i].0 == k;
            assert(all[i].1.spec_parent() == parent_inode);
            let j = choose|j: int| 0 <= j < picked.len() && picked[j] == i;
            assert(r@[j].0 == k);
        }
        proof {
            let ks = r@.map_values(|p: (u64, InodeEntry)| p.0);
            assert(ks.no_duplicates()) by {
                assert forall|i: int, j: int| 0 <= i < ks.len() && 0 <= j < ks.len() && i != j implies ks[i] != ks[j] by {
                    assert(ks[i] == r@[i].0);
                    assert(ks[j] == r@[j].0);
                }
            }
            assert forall|k: u64| #[trigger] ks.to_set().contains(k) <==> children_of(t, parent_inode).contains(k) by {
                if children_of(t, parent_inode).contains(k) {
                    let i = choose|i: int| 0 <= i < r@.len() && r@[i].0 == k;
                    assert(ks[i] == k);
                }
                if ks.to_set().contains(k) {
                    let i = choose|i: int| 0 <= i < ks.len() && ks[i] == k;
                    assert(r@[i].0 == k);
                }
            }
            assert(ks.to_set() =~= children_of(t, parent_inode));
            ks.unique_seq_to_set();
        }
        r
    }

    /// Adds a child to a directory's children list, once.
    pub fn add_child(&mut self, parent: u64, child: u64)
        requires
            old(self).inv(),
        ensures
            final(self).inv(),
            final(self)@.entries.dom() == old(self)@.entries.dom(),
            final(self)@.paths == old(self)@.paths,
            final(self)@.torrents == old(self)@.torrents,
            final(self)@.next == old(self)@.next,
            final(self)@.max == old(self)@.max,
            child_added(old(self)@, final(self)@, parent, child),
    {
        match inode_table_get(&self.entries, parent) {
            Some(InodeEntry::Directory { ino, name, parent: pp, children, canonical_path }) => {
                if !list_contains(&children, child) {
                    let mut ch = children;
                    ch.push(child);
                    let updated = InodeEntry::Directory {
                        ino,
                        name,
                        parent: pp,
                        children: ch,
                        canonical_path,
                    };
                    inode_table_insert(&mut self.entries, parent, updated);
                    assert(self@.entries.dom() =~= old(self)@.entries.dom());
                }
            },
            _ => {},
        }
    }

    /// Removes a child from a directory's children list.
    pub fn remove_child(&mut self, parent: u64, child: u64)
        requires
            old(self).inv(),
        ensures
            final(self).inv(),
            child_unlisted(old(self)@, final(self)@, parent, child),
    {
        match inode_table_get(&self.entries, parent) {
            Some(InodeEntry::Directory { ino, name, parent: pp, children, canonical_path }) => {
                let ch = list_without(&children, child);
                let updated = InodeEntry::Directory {
                    ino,
                    name,
                    parent: pp,
                    children: ch,
                    canonical_path,
                };
                inode_table_insert(&mut self.entries, parent, updated);
                assert(self@.entries.dom() =~= old(self)@.entries.dom());
            },
            _ => {},
        }
    }
}

} // verus!

verus! {

impl InodeManager {
    /// Removes every torrent that maps to the inode `v`.
    fn remove_torrents_pointing_to(&mut self, v: u64)
        requires
            old(self).inv(),
        ensures
            final(self).inv(),
            final(self)@.entries == old(self)@.entries,
            final(self)@.paths == old(self)@.paths,
            final(self)@.next == old(self)@.next,
            final(self)@.max == old(self)@.max,
            forall|id: u64| #[trigger]
                final(self)@.torrents.dom().contains(id) <==> (old(self)@.torrents.dom().contains(id)
                    && old(self)@.torrents[id] != v),
            forall|id: u64| #[trigger]
                final(self)@.torrents.dom().contains(id) ==> final(self)@.torrents[id] == old(
                    self,
                )@.torrents[id],
    {
        let pairs = torrent_index_pairs(&self.torrent_to_inode);
        let ghost e = self@.torrents;
        let mut i: usize = 0;
        while i < pairs.len()
            invariant
                i <= pairs.len(),
                self.inv(),
                self@.entries == old(self)@.entries,
                self@.paths == old(self)@.paths,
                self@.next == old(self)@.next,
                self@.max == old(self)@.max,
                e == old(self)@.torrents,
                forall|j: int| 0 <= j < pairs@.len() ==> e.dom().contains(#[trigger] pairs@[j].0) && e[pairs@[j].0] == pairs@[j].1,
                forall|k: u64| e.dom().contains(k) ==> exists|j: int| 0 <= j < pairs@.len() && #[trigger] pairs@[j].0 == k,
                forall|j: int| 0 <= j < i && #[trigger] pairs@[j].1 == v ==> !self@.torrents.dom().contains(pairs@[j].0),
                forall|id: u64| #[trigger] self@.torrents.dom().contains(id) ==> e.dom().contains(id) && self@.torrents[id] == e[id],
                forall|id: u64| #[trigger] e.dom().contains(id) && e[id] != v ==> self@.torrents.dom().contains(id),
            decreases pairs.len() - i,
        {
            if pairs[i].1 == v {
                let ghost prev = self@.torrents;
                torrent_index_remove(&mut self.torrent_to_inode, pairs[i].0);
                assert forall|id: u64| #[trigger] self@.torrents.dom().contains(id) implies prev.dom().contains(id)
                    && self@.torrents[id] == prev[id] by {
                    assert(self@.torrents == prev.remove(pairs@[i as int].0));
                }
            }
            i = i + 1;
        }
        assert forall|id: u64| #[trigger] self@.torrents.dom().contains(id) <==> (e.dom().contains(id) && e[id] != v) by {
            if e.dom().contains(id) && e[id] == v {
                let j = choose|j: int| 0 <= j < pairs@.len() && #[trigger] pairs@[j].0 == id;
                assert(pairs@[j].1 == v);
            }
        }
    }

    /// Removes every path of the path index that leads to the inode `v`.
    fn remove_paths_leading_to(&mut self, v: u64)
        requires
            old(self).inv(),
        ensures
            final(self).inv(),
            final(self)@.entries == old(self)@.entries,
            final(self)@.torrents == old(self)@.torrents,
            final(self)@.next == old(self)@.next,
            final(self)@.max == old(self)@.max,
            forall|p: Seq<char>| #[trigger]
                final(self)@.paths.dom().contains(p) <==> (old(self)@.paths.dom().contains(p)
                    && old(self)@.paths[p] != v),
            forall|p: Seq<char>| #[trigger] final(self)@.paths.dom().contains(p) ==> final(self)@.paths[p] == old(
                self,
            )@.paths[p],
    {
        let pairs = path_index_pairs(&self.path_to_inode);
        let ghost e = self@.paths;
        let mut i: usize = 0;
        while i < pairs.len()
            invariant
                i <= pairs.len(),
                self.inv(),
                self@.entries == old(self)@.entries,
                self@.torrents == old(self)@.torrents,
                self@.next == old(self)@.next,
                self@.max == old(self)@.max,
                e == old(self)@.paths,
                forall|j: int| 0 <= j < pairs@.len() ==> e.dom().contains(#[trigger] pairs@[j].0@) && e[pairs@[j].0@] == pairs@[j].1,
                forall|p: Seq<char>| e.dom().contains(p) ==> exists|j: int| 0 <= j < pairs@.len() && #[trigger] pairs@[j].0@ == p,
                forall|j: int| 0 <= j < i && #[trigger] pairs@[j].1 == v ==> !self@.paths.dom().contains(pairs@[j].0@),
                forall|p: Seq<char>| #[trigger] self@.paths.dom().contains(p) ==> e.dom().contains(p) && self@.paths[p] == e[p],
                forall|p: Seq<char>| #[trigger] e.dom().contains(p) && e[p] != v ==> self@.paths.dom().contains(p),
            decreases pairs.len() - i,
        {
            if pairs[i].1 == v {
                let ghost prev = self@.paths;
                path_index_remove(&mut self.path_to_inode, pairs[i].0.as_str());
                assert forall|p: Seq<char>| #[trigger] self@.paths.dom().contains(p) implies prev.dom().contains(p)
                    && self@.paths[p] == prev[p] by {
                    assert(self@.paths == prev.remove(pairs@[i as int].0@));
                }
            }
            i = i + 1;
        }
        assert forall|p: Seq<char>| #[trigger] self@.paths.dom().contains(p) <==> (e.dom().contains(p) && e[p] != v) by {
            if e.dom().contains(p) && e[p] == v {
                let j = choose|j: int| 0 <= j < pairs@.len() && #[trigger] pairs@[j].0@ == p;
                assert(pairs@[j].1 == v);
            }
        }
    }

    /// Removes an inode and all entries below it (for torrent removal).
    ///
    /// The entry leaves the table together with every entry whose parent is
    /// removed, no entry is left with a removed parent, the parent's
    /// children list loses the entry (the root's too), every path that leads
    /// to a removed entry leaves the path index, and every torrent mapped to
    /// a removed entry loses its mapping, so no dangling reference is left.
    /// The root cannot be removed.
    pub fn remove_inode(&mut self, inode: u64) -> (r: bool)
        requires
            old(self).inv(),
        ensures
            final(self).inv(),
            r == (inode != 1 && old(self)@.entries.dom().contains(inode)),
            r ==> subtree_removed(old(self)@, final(self)@, inode),
            !r ==> final(self)@ == old(self)@,
    {
        if inode == 1 {
            return false;
        }
        let entry = match inode_table_get(&self.entries, inode) {
            Some(e) => e,
            None => return false,
        };
        let chain = self.name_chain(&entry);
        self.remove_subtree(inode, entry, chain);
        true
    }

    /// Removes `x`, then each child of it with its own subtree, then the
    /// traces of `x` in its parent's children list and in the indices.
    /// `chain` holds the names from `x` up to the root.
    fn remove_subtree(&mut self, x: u64, entry: InodeEntry, chain: Vec<String>)
        requires
            old(self).inv(),
            x != 1,
            old(self)@.entries.dom().contains(x),
            old(self)@.entries[x] == entry,
        ensures
            final(self).inv(),
            subtree_removed(old(self)@, final(self)@, x),
        decreases inode_table(old(self).entries).dom().len(),
    {
        let ghost pre = self@;
        inode_table_remove(&mut self.entries, x);
        let ghost mid = self@;
        assert(mid.entries.dom() =~= pre.entries.dom().remove(x));
        let pairs = inode_table_pairs(&self.entries);
        let mut i: usize = 0;
        while i < pairs.len()
            invariant
                i <= pairs.len(),
                self.inv(),
                pre.wf(),
                pre == old(self)@,
                x != 1,
                pre.entries.dom().contains(x),
                pre.entries[x] == entry,
                mid.entries.dom() == pre.entries.dom().remove(x),
                forall|k: u64| #[trigger] mid.entries.dom().contains(k) ==> mid.entries[k] == pre.entries[k],
                forall|j: int| 0 <= j < pairs@.len() ==> mid.entries.dom().contains(#[trigger] pairs@[j].0) && mid.entries[pairs@[j].0] == pairs@[j].1,
                forall|k: u64| mid.entries.dom().contains(k) ==> exists|j: int| 0 <= j < pairs@.len() && #[trigger] pairs@[j].0 == k,
                self@.entries.dom().subset_of(mid.entries.dom()),
                forall|j: int| 0 <= j < i && #[trigger] pairs@[j].1.spec_parent() == x ==> !self@.entries.dom().contains(pairs@[j].0),
                forall|y: u64| #[trigger] pre.entries.dom().difference(self@.entries.dom()).contains(y) && y != x
                    ==> pre.entries.dom().difference(self@.entries.dom()).contains(pre.entries[y].spec_parent()),
                forall|k: u64| #[trigger] self@.entries.dom().contains(k) ==> !mid.entries.dom().difference(self@.entries.dom()).contains(self@.entries[k].spec_parent())
                    && same_except_children(pre.entries[k], self@.entries[k]),
                forall|k: u64, c: u64| #[trigger] self@.entries.dom().contains(k) && #[trigger] pre.entries[k].spec_children().contains(c)
                    && !self@.entries[k].spec_children().contains(c) ==> pre.entries.dom().difference(self@.entries.dom()).contains(c),
                forall|k: u64, c: u64| #[trigger] self@.entries.dom().contains(k) && #[trigger] self@.entries[k].spec_children().contains(c)
                    ==> pre.entries[k].spec_children().contains(c),
                self@.paths.dom().subset_of(pre.paths.dom()),
                forall|p: Seq<char>| #[trigger] self@.paths.dom().contains(p) ==> self@.paths[p] == pre.paths[p],
                forall|p: Seq<char>| #[trigger] self@.paths.dom().contains(p) ==> !mid.entries.dom().difference(self@.entries.dom()).contains(self@.paths[p]),
                forall|id: u64| #[trigger] self@.torrents.dom().contains(id) <==> (pre.torrents.dom().contains(id)
                    && !mid.entries.dom().difference(self@.entries.dom()).contains(pre.torrents[id])),
                forall|id: u64| #[trigger] self@.torrents.dom().contains(id) ==> self@.torrents[id] == pre.torrents[id],
                self@.next == pre.next,
                self@.max == pre.max,
                self@.entries.dom().contains(1),
            decreases pairs.len() - i,
        {
            let c = pairs[i].0;
            if pairs[i].1.parent() == x && c != 1 {
                match inode_table_get(&self.entries, c) {
                    Some(ce) => {
                        let mut cchain: Vec<String> = Vec::new();
                        cchain.push(String::from_str(ce.name()));
                        let mut j: usize = 0;
                        while j < chain.len()
                            invariant
                                j <= chain.len(),
                            decreases chain.len() - j,
                        {
                            cchain.push(String::from_str(chain[j].as_str()));
                            j = j + 1;
                        }
                        let ghost before = self@;
                        proof {
                            vstd::set_lib::lemma_len_subset(before.entries.dom(), mid.entries.dom());
                            assert(mid.entries.dom().len() == pre.entries.dom().len() - 1);
                            assert(inode_table(self.entries).dom().len() < pre.entries.dom().len());
                        }
                        self.remove_subtree(c, ce, cchain);
                        proof {
                            let after = self@;
                            assert forall|k: u64| #[trigger] after.entries.dom().contains(k) implies same_except_children(pre.entries[k], after.entries[k]) by {
                                lemma_same_except_children_trans(pre.entries[k], before.entries[k], after.entries[k]);
                            }
                            assert(pre.entries[c].spec_parent() == x);
                            assert forall|y: u64| #[trigger] pre.entries.dom().difference(after.entries.dom()).contains(y) && y != x
                                implies pre.entries.dom().difference(after.entries.dom()).contains(pre.entries[y].spec_parent()) by {
                                if before.entries.dom().contains(y) && y != c {
                                    assert(before.entries.dom().difference(after.entries.dom()).contains(y));
                                    assert(pre.entries[y].spec_parent() == before.entries[y].spec_parent());
                                } else if !before.entries.dom().contains(y) {
                                    assert(pre.entries.dom().difference(before.entries.dom()).contains(y));
                                }
                            }
                        }
                    },
                    None => {},
                }
            }
            i = i + 1;
        }
        let ghost looped = self@;
        assert forall|k: u64| #[trigger] looped.entries.dom().contains(k) implies looped.entries[k].spec_parent() != x by {
            if looped.entries[k].spec_parent() == x {
                let j = choose|j: int| 0 <= j < pairs@.len() && #[trigger] pairs@[j].0 == k;
                assert(pairs@[j].1.spec_parent() == x);
            }
        }
        let p = entry.parent();
        self.remove_child(p, x);
        proof {
            let after = self@;
            assert forall|k: u64| #[trigger] after.entries.dom().contains(k) implies same_except_children(pre.entries[k], after.entries[k]) by {
                if k == p {
                    lemma_same_except_children_trans(pre.entries[k], looped.entries[k], after.entries[k]);
                }
            }
            if looped.entries.dom().contains(p) && looped.entries[p] is Directory {
                assert forall|c: u64| #[trigger] after.entries[p].spec_children().contains(c) <==> (looped.entries[p].spec_children().contains(c) && c != x) by {
                    lemma_seq_without(looped.entries[p].spec_children(), x, c);
                }
            }
        }
        let ghost unlinked = self@;
        let path = Self::render_chain(chain);
        path_index_remove(&mut self.path_to_inode, path.as_str());
        self.remove_paths_leading_to(x);
        self.remove_torrents_pointing_to(x);
        proof {
            let post = self@;
            let removed = pre.entries.dom().difference(post.entries.dom());
            assert(post.entries.dom() =~= looped.entries.dom());
            assert forall|y: u64| #[trigger] removed.contains(y) <==> (y == x || mid.entries.dom().difference(looped.entries.dom()).contains(y)) by {}
            assert forall|k: u64| #[trigger] post.entries.dom().contains(k) implies !removed.contains(post.entries[k].spec_parent())
                && same_except_children(pre.entries[k], post.entries[k]) by {
                if k == p {
                    assert(post.entries[k].spec_parent() == looped.entries[k].spec_parent());
                }
            }
            assert forall|k: u64, c: u64| #[trigger] post.entries.dom().contains(k) && #[trigger] pre.entries[k].spec_children().contains(c)
                && !post.entries[k].spec_children().contains(c) implies removed.contains(c) by {
                if k == p && looped.entries[p] is Directory && looped.entries[p].spec_children().contains(c) {
                    assert(c == x);
                }
            }
            assert forall|k: u64, c: u64| #[trigger] post.entries.dom().contains(k) && #[trigger] post.entries[k].spec_children().contains(c)
                implies pre.entries[k].spec_children().contains(c) by {
                if k == p && looped.entries[p] is Directory {
                    assert(looped.entries[p].spec_children().contains(c));
                }
            }
            assert(unlinked.torrents == looped.torrents);
            assert forall|id: u64| #[trigger] post.torrents.dom().contains(id) <==> (pre.torrents.dom().contains(id)
                && !removed.contains(pre.torrents[id])) by {
                let in_looped = looped.torrents.dom().contains(id);
                assert(post.torrents.dom().contains(id) <==> (in_looped && looped.torrents[id] != x));
                if in_looped {
                    assert(looped.torrents[id] == pre.torrents[id]);
                }
            }
            if post.entries.dom().contains(p) {
                if looped.entries[p] is Directory {
                    assert(!post.entries[p].spec_children().contains(x));
                }
            }
            assert forall|id: u64| #[trigger] post.torrents.dom().contains(id) implies post.torrents[id] == pre.torrents[id] by {
                assert(looped.torrents.dom().contains(id));
            }
            assert(post.paths.dom().subset_of(pre.paths.dom()));
        }
    }

    /// Clears all torrent entries but keeps the root inode, whose children
    /// list loses the entries that were under it; the indices are reset and
    /// numbering starts again at 2.
    pub fn clear_torrents(&mut self)
        requires
            old(self).inv(),
        ensures
            final(self).inv(),
            final(self)@.entries.dom() == set![1u64],
            same_except_children(old(self)@.entries[1], final(self)@.entries[1]),
            forall|c: u64| #[trigger] final(self)@.entries[1].spec_children().contains(c)
                ==> old(self)@.entries[1].spec_children().contains(c) && !(old(self)@.entries.dom().contains(c)
                && c != 1 && old(self)@.entries[c].spec_parent() == 1),
            final(self)@.paths == Map::<Seq<char>, u64>::empty().insert("/"@, 1),
            final(self)@.torrents == Map::<u64, u64>::empty(),
            final(self)@.next == 2,
            final(self)@.max == old(self)@.max,
    {
        let pairs = inode_table_pairs(&self.entries);
        let ghost start = self@;
        let mut i: usize = 0;
        while i < pairs.len()
            invariant
                i <= pairs.len(),
                self.inv(),
                self@.max == start.max,
                forall|j: int| 0 <= j < pairs@.len() ==> start.entries.dom().contains(#[trigger] pairs@[j].0),
                forall|k: u64| start.entries.dom().contains(k) ==> exists|j: int| 0 <= j < pairs@.len() && #[trigger] pairs@[j].0 == k,
                self@.entries.dom().subset_of(start.entries.dom()),
                forall|j: int| 0 <= j < i && #[trigger] pairs@[j].0 != 1 ==> !self@.entries.dom().contains(pairs@[j].0),
                forall|k: u64| #[trigger] self@.entries.dom().contains(k) ==> same_except_children(start.entries[k], self@.entries[k]),
                forall|c: u64| #[trigger] self@.entries[1].spec_children().contains(c) ==> start.entries[1].spec_children().contains(c)
                    && !(start.entries.dom().contains(c) && c != 1 && start.entries[c].spec_parent() == 1
                    && !self@.entries.dom().contains(c)),
            decreases pairs.len() - i,
        {
            let k = pairs[i].0;
            if k != 1 {
                let ghost before = self@;
                self.remove_inode(k);
                proof {
                    let after = self@;
                    if before.entries.dom().contains(k) {
                        let removed = before.entries.dom().difference(after.entries.dom());
                        assert(!removed.contains(1));
                        assert forall|j: u64| #[trigger] after.entries.dom().contains(j) implies same_except_children(start.entries[j], after.entries[j]) by {
                            lemma_same_except_children_trans(start.entries[j], before.entries[j], after.entries[j]);
                        }
                        assert forall|c: u64| #[trigger] after.entries[1].spec_children().contains(c) implies start.entries[1].spec_children().contains(c)
                            && !(start.entries.dom().contains(c) && c != 1 && start.entries[c].spec_parent() == 1
                            && !after.entries.dom().contains(c)) by {
                            assert(before.entries[1].spec_children().contains(c));
                            if start.entries.dom().contains(c) && c != 1 && start.entries[c].spec_parent() == 1
                                && !after.entries.dom().contains(c) && before.entries.dom().contains(c) {
                                assert(removed.contains(c));
                                assert(before.entries[c].spec_parent() == 1);
                                if c != k {
                                    assert(removed.contains(before.entries[c].spec_parent()));
                                }
                            }
                        }
                    }
                }
            }
            i = i + 1;
        }
        assert forall|k: u64| #[trigger] self@.entries.dom().contains(k) implies k == 1 by {
            let j = choose|j: int| 0 <= j < pairs@.len() && #[trigger] pairs@[j].0 == k;
        }
        assert(self@.entries.dom() =~= set![1u64]);
        path_index_clear(&mut self.path_to_inode);
        path_index_insert(&mut self.path_to_inode, String::from_str("/"), 1);
        torrent_index_clear(&mut self.torrent_to_inode);
        self.next_inode = 2;
    }
}

} // verus!
