//! Open file handles: allocation of unique handle numbers and the state
//! kept for each open file.
use std::collections::HashMap;
use vstd::prelude::*;

verus! {

broadcast use vstd::std_specs::hash::group_hash_axioms;

/// Information stored for each open file handle.
#[derive(Debug, Clone, Copy, PartialEq, Eq, Structural)]
pub struct FileHandle {
    /// The file handle ID (unique per open)
    pub fh: u64,
    /// The inode number this handle refers to
    pub inode: u64,
    /// The torrent ID this file belongs to
    pub torrent_id: u64,
    /// Open flags used when opening the file
    pub flags: i32,
}

impl FileHandle {
    /// Create a new file handle.
    pub fn new(fh: u64, inode: u64, torrent_id: u64, flags: i32) -> (r: Self)
        ensures
            r == (FileHandle { fh, inode, torrent_id, flags }),
    {
        Self { fh, inode, torrent_id, flags }
    }
}

/// Manager for file handles: allocates unique handles and tracks open files.
pub struct FileHandleManager {
    /// Counter for generating unique handle IDs
    next_handle: u64,
    /// Map of handle IDs to handle information
    handles: HashMap<u64, FileHandle>,
    /// Whether the counter has gone past its largest value
    wrapped: Ghost<bool>,
    /// The open handle numbers, each once, in allocation order
    open: Vec<u64>,
    /// Maximum number of file handles allowed (0 = unlimited)
    max_handles: usize,
}

/// The contents of a [`FileHandleManager`].
pub struct HandleTableView {
    pub next: u64,
    pub handles: Map<u64, FileHandle>,
    pub max: usize,
    pub wrapped: bool,
}

impl HandleTableView {
    /// Every handle is stored under its own number, which is never 0; until
    /// the counter wraps around it is not 0 and every number in use is below
    /// it, so the next number handed out is not in use.
    pub open spec fn wf(self) -> bool {
        &&& self.handles.dom().finite()
        &&& forall|k: u64| #[trigger]
            self.handles.dom().contains(k) ==> k != 0 && self.handles[k].fh == k && (!self.wrapped ==> k < self.next)
        &&& !self.wrapped ==> self.next != 0
    }

    /// The number the next successful allocation hands out: the counter,
    /// skipping 0 after a wrap-around.
    pub open spec fn next_number(self) -> u64 {
        if self.next == 0 {
            1
        } else {
            self.next
        }
    }

    /// The counter after the next successful allocation.
    pub open spec fn counter_after(self) -> u64 {
        if self.next == 0 {
            2
        } else if self.next == u64::MAX {
            0
        } else {
            (self.next + 1) as u64
        }
    }

    /// Whether the limit allows one more handle (always when it is 0).
    pub open spec fn under_limit(self) -> bool {
        self.max == 0 || self.handles.dom().len() < self.max
    }

    /// The handles of a torrent.
    pub open spec fn torrent_handles(self, torrent_id: u64) -> Set<u64> {
        self.handles.dom().filter(|k: u64| self.handles[k].torrent_id == torrent_id)
    }
}

impl View for FileHandleManager {
    type V = HandleTableView;

    closed spec fn view(&self) -> HandleTableView {
        HandleTableView { next: self.next_handle, handles: self.handles@, max: self.max_handles, wrapped: self.wrapped@ }
    }
}

impl FileHandleManager {
    /// The list of open numbers matches the map.
    closed spec fn order_matches(&self) -> bool {
        &&& self.open@.no_duplicates()
        &&& self.open@.to_set() == self.handles@.dom()
    }
}

impl FileHandleManager {
    /// The manager's invariant, over its contents.
    pub closed spec fn inv(&self) -> bool {
        self@.wf() && self.order_matches()
    }

    /// Create a new file handle manager with unlimited handles.
    pub fn new() -> (m: Self)
        ensures
            m.inv(),
            m@.wf(),
            !m@.wrapped,
            m@.next == 1,
            m@.handles == Map::<u64, FileHandle>::empty(),
            m@.max == 0,
    {
        Self::with_max_handles(0)
    }

    /// Create a new file handle manager with a maximum handle limit
    /// (0 = unlimited).
    pub fn with_max_handles(max_handles: usize) -> (m: Self)
        ensures
            m.inv(),
            m@.wf(),
            !m@.wrapped,
            m@.next == 1,
            m@.handles == Map::<u64, FileHandle>::empty(),
            m@.max == max_handles,
    {
        // Start at 1: 0 is reserved as "invalid"
        let m = Self { next_handle: 1, handles: HashMap::new(), wrapped: Ghost(false), open: Vec::new(), max_handles };
        assert(m.open@.to_set() =~= m.handles@.dom());
        m
    }

    /// Allocate a new file handle for an open file. Returns a handle number
    /// that is never 0, or 0 if the handle limit is reached. Until the
    /// counter wraps around, the number is not already in use.
    pub fn allocate(&mut self, inode: u64, torrent_id: u64, flags: i32) -> (r: u64)
        requires
            old(self).inv(),
        ensures
            final(self).inv(),
            final(self)@.wf(),
            final(self)@.max == old(self)@.max,
            final(self)@.wrapped == (old(self)@.wrapped || final(self)@.next == 0),
            old(self)@.under_limit() && !old(self)@.wrapped ==> !old(self)@.handles.dom().contains(r)
                && final(self)@.handles.dom().len() == old(self)@.handles.dom().len() + 1,
            old(self)@.under_limit() ==> {
                &&& r == old(self)@.next_number()
                &&& r != 0
                &&& final(self)@.next == old(self)@.counter_after()
                &&& final(self)@.handles == old(self)@.handles.insert(
                    r,
                    FileHandle { fh: r, inode, torrent_id, flags },
                )
            },
            !old(self)@.under_limit() ==> r == 0 && final(self)@ == old(self)@,
    {
        if self.max_handles > 0 {
            if self.handles.len() >= self.max_handles {
                return 0;
            }
        }
        let first = self.next_handle;
        self.next_handle = self.next_handle.wrapping_add(1);
        // Skip 0 after the counter wraps around
        let fh = if first == 0 {
            let second = self.next_handle;
            self.next_handle = self.next_handle.wrapping_add(1);
            second
        } else {
            first
        };
        let ghost now_wrapped = self.wrapped@ || self.next_handle == 0;
        self.wrapped = Ghost(now_wrapped);
        let handle = FileHandle::new(fh, inode, torrent_id, flags);
        let fresh = !self.handles.contains_key(&fh);
        self.handles.insert(fh, handle);
        if fresh {
            let ghost before = self.open@;
            self.open.push(fh);
            proof {
                assert forall|y: u64| #[trigger] self.open@.to_set().contains(y) <==> before.to_set().insert(fh).contains(y) by {
                    crate::fs::inode_manager::lemma_contains_push(before, fh, y);
                }
                assert(self.open@.to_set() =~= before.to_set().insert(fh));
                assert forall|i: int, j: int| 0 <= i < j < self.open@.len() implies self.open@[i] != self.open@[j] by {
                    if j == self.open@.len() - 1 {
                        assert(before.to_set().contains(before[i]));
                    }
                }
            }
        } else {
            assert(self.handles@.dom() =~= old(self).handles@.dom());
        }
        fh
    }

    /// Get file handle information by handle ID.
    pub fn get(&self, fh: u64) -> (r: Option<FileHandle>)
        ensures
            r == (if self@.handles.dom().contains(fh) {
                Some(self@.handles[fh])
            } else {
                None::<FileHandle>
            }),
    {
        match self.handles.get(&fh) {
            Some(h) => Some(*h),
            None => None,
        }
    }

    /// Remove a file handle (called on release). Returns the removed handle
    /// information if it existed.
    pub fn remove(&mut self, fh: u64) -> (r: Option<FileHandle>)
        requires
            old(self).inv(),
        ensures
            final(self).inv(),
            final(self)@.wf(),
            final(self)@.handles == old(self)@.handles.remove(fh),
            final(self)@.next == old(self)@.next,
            final(self)@.max == old(self)@.max,
            final(self)@.wrapped == old(self)@.wrapped,
            r == (if old(self)@.handles.dom().contains(fh) {
                Some(old(self)@.handles[fh])
            } else {
                None::<FileHandle>
            }),
    {
        let r = self.handles.remove(&fh);
        let ghost before = self.open@;
        self.open = crate::fs::inode_manager::list_without(&self.open, fh);
        proof {
            assert forall|y: u64| #[trigger] self.open@.to_set().contains(y) <==> self.handles@.dom().contains(y) by {
                crate::fs::inode_manager::lemma_seq_without(before, fh, y);
            }
            assert(self.open@.to_set() =~= self.handles@.dom());
            crate::fs::inode_manager::lemma_seq_without_no_dup(before, fh);
        }
        r
    }

    /// Get the inode associated with a handle.
    pub fn get_inode(&self, fh: u64) -> (r: Option<u64>)
        ensures
            r == (if self@.handles.dom().contains(fh) {
                Some(self@.handles[fh].inode)
            } else {
                None::<u64>
            }),
    {
        match self.handles.get(&fh) {
            Some(h) => Some(h.inode),
            None => None,
        }
    }

    /// Get the number of open handles.
    pub fn len(&self) -> (r: usize)
        ensures
            r == self@.handles.dom().len(),
    {
        self.handles.len()
    }

    /// Check if there are no open handles.
    pub fn is_empty(&self) -> (r: bool)
        ensures
            r == (self@.handles.dom().len() == 0),
    {
        self.len() == 0
    }

    /// Every handle number once, in allocation order.
    fn handle_numbers(&self) -> (r: Vec<u64>)
        requires
            self.inv(),
        ensures
            r@.no_duplicates(),
            r@.to_set() == self@.handles.dom(),
    {
        crate::types::inode::copy_inode_list(&self.open)
    }

    /// Get all handles for a specific inode, each once.
    pub fn get_handles_for_inode(&self, inode: u64) -> (r: Vec<u64>)
        requires
            self.inv(),
        ensures
            r@.no_duplicates(),
            r@.to_set() == self@.handles.dom().filter(|k: u64| self@.handles[k].inode == inode),
    {
        let keys = self.handle_numbers();
        let ghost m = self@.handles;
        let mut r: Vec<u64> = Vec::new();
        let mut i: usize = 0;
        while i < keys.len()
            invariant
                i <= keys.len(),
                m == self@.handles,
                keys@.no_duplicates(),
                keys@.to_set() == m.dom(),
                r@.no_duplicates(),
                forall|y: u64| #[trigger] r@.contains(y) <==> (keys@.subrange(0, i as int).contains(y) && m[y].inode == inode),
            decreases keys.len() - i,
        {
            let k = keys[i];
            proof {
                assert(keys@.to_set().contains(k));
                assert forall|y: u64| #[trigger] keys@.subrange(0, i + 1).contains(y) <==> (keys@.subrange(0, i as int).contains(y) || y == k) by {
                    assert(keys@.subrange(0, i + 1) =~= keys@.subrange(0, i as int).push(k));
                    crate::fs::inode_manager::lemma_contains_push(keys@.subrange(0, i as int), k, y);
                }
                assert(!keys@.subrange(0, i as int).contains(k)) by {
                    if keys@.subrange(0, i as int).contains(k) {
                        let j = choose|j: int| 0 <= j < i && keys@.subrange(0, i as int)[j] == k;
                        assert(keys@[j] == keys@[i as int]);
                    }
                }
            }
            match self.handles.get(&k) {
                Some(h) => {
                    if h.inode == inode {
                        let ghost before = r@;
                        r.push(k);
                        proof {
                            assert forall|y: u64| #[trigger] r@.contains(y) <==> (before.contains(y) || y == k) by {
                                crate::fs::inode_manager::lemma_contains_push(before, k, y);
                            }
                            assert forall|a: int, b: int| 0 <= a < b < r@.len() implies r@[a] != r@[b] by {
                                if b == r@.len() - 1 {
                                    assert(before.contains(before[a]));
                                }
                            }
                        }
                    }
                },
                None => {},
            }
            i = i + 1;
        }
        proof {
            assert(keys@.subrange(0, keys@.len() as int) =~= keys@);
            assert forall|y: u64| #[trigger] r@.to_set().contains(y) <==> m.dom().filter(|k: u64| m[k].inode == inode).contains(y) by {
                assert(keys@.to_set().contains(y) <==> keys@.contains(y));
            }
            assert(r@.to_set() =~= m.dom().filter(|k: u64| m[k].inode == inode));
        }
        r
    }

    /// Remove all file handles for a specific torrent. Returns the number of
    /// handles removed.
    pub fn remove_by_torrent(&mut self, torrent_id: u64) -> (r: usize)
        requires
            old(self).inv(),
        ensures
            final(self).inv(),
            final(self)@.wf(),
            final(self)@.next == old(self)@.next,
            final(self)@.max == old(self)@.max,
            final(self)@.wrapped == old(self)@.wrapped,
            final(self)@.handles == old(self)@.handles.restrict(
                old(self)@.handles.dom().filter(|k: u64| old(self)@.handles[k].torrent_id != torrent_id),
            ),
            r == old(self)@.torrent_handles(torrent_id).len(),
            final(self)@.handles.dom().len() == old(self)@.handles.dom().len() - r,
    {
        let keys = self.handle_numbers();
        let ghost m = self@.handles;
        let mut doomed: Vec<u64> = Vec::new();
        let mut i: usize = 0;
        while i < keys.len()
            invariant
                i <= keys.len(),
                m == self@.handles,
                keys@.no_duplicates(),
                keys@.to_set() == m.dom(),
                doomed@.no_duplicates(),
                forall|y: u64| #[trigger] doomed@.contains(y) <==> (keys@.subrange(0, i as int).contains(y) && m[y].torrent_id == torrent_id),
            decreases keys.len() - i,
        {
            let k = keys[i];
            proof {
                assert(keys@.to_set().contains(k));
                assert forall|y: u64| #[trigger] keys@.subrange(0, i + 1).contains(y) <==> (keys@.subrange(0, i as int).contains(y) || y == k) by {
                    assert(keys@.subrange(0, i + 1) =~= keys@.subrange(0, i as int).push(k));
                    crate::fs::inode_manager::lemma_contains_push(keys@.subrange(0, i as int), k, y);
                }
                assert(!keys@.subrange(0, i as int).contains(k)) by {
                    if keys@.subrange(0, i as int).contains(k) {
                        let j = choose|j: int| 0 <= j < i && keys@.subrange(0, i as int)[j] == k;
                        assert(keys@[j] == keys@[i as int]);
                    }
                }
            }
            match self.handles.get(&k) {
                Some(h) => {
                    if h.torrent_id == torrent_id {
                        let ghost before = doomed@;
                        doomed.push(k);
                        proof {
                            assert forall|y: u64| #[trigger] doomed@.contains(y) <==> (before.contains(y) || y == k) by {
                                crate::fs::inode_manager::lemma_contains_push(before, k, y);
                            }
                            assert forall|a: int, b: int| 0 <= a < b < doomed@.len() implies doomed@[a] != doomed@[b] by {
                                if b == doomed@.len() - 1 {
                                    assert(before.contains(before[a]));
                                }
                            }
                        }
                    }
                },
                None => {},
            }
            i = i + 1;
        }
        let ghost target = m.dom().filter(|k: u64| m[k].torrent_id == torrent_id);
        proof {
            assert(keys@.subrange(0, keys@.len() as int) =~= keys@);
            assert forall|y: u64| #[trigger] doomed@.to_set().contains(y) <==> target.contains(y) by {
                assert(keys@.to_set().contains(y) <==> keys@.contains(y));
            }
            assert(doomed@.to_set() =~= target);
            doomed@.unique_seq_to_set();
        }
        let count = doomed.len();
        let mut j: usize = 0;
        while j < doomed.len()
            invariant
                j <= doomed.len(),
                self.inv(),
                self@.next == old(self)@.next,
                self@.max == old(self)@.max,
                self@.wrapped == old(self)@.wrapped,
                m == old(self)@.handles,
                doomed@.no_duplicates(),
                forall|y: u64| #[trigger] doomed@.contains(y) <==> target.contains(y),
                target == m.dom().filter(|k: u64| m[k].torrent_id == torrent_id),
                forall|y: u64| #[trigger] self@.handles.dom().contains(y) <==> (m.dom().contains(y)
                    && !doomed@.subrange(0, j as int).contains(y)),
                forall|y: u64| #[trigger] self@.handles.dom().contains(y) ==> self@.handles[y] == m[y],
            decreases doomed.len() - j,
        {
            let k = doomed[j];
            proof {
                assert forall|y: u64| #[trigger] doomed@.subrange(0, j + 1).contains(y) <==> (doomed@.subrange(0, j as int).contains(y) || y == k) by {
                    assert(doomed@.subrange(0, j + 1) =~= doomed@.subrange(0, j as int).push(k));
                    crate::fs::inode_manager::lemma_contains_push(doomed@.subrange(0, j as int), k, y);
                }
            }
            self.remove(k);
            j = j + 1;
        }
        proof {
            assert(doomed@.subrange(0, doomed@.len() as int) =~= doomed@);
            assert(self@.handles =~= m.restrict(m.dom().filter(|k: u64| m[k].torrent_id != torrent_id)));
            let kept = m.dom().filter(|k: u64| m[k].torrent_id != torrent_id);
            assert(self@.handles.dom() =~= kept);
            assert(m.dom() =~= kept + target);
            vstd::set_lib::lemma_set_disjoint_lens(kept, target);
        }
        count
    }
}

} // verus!
