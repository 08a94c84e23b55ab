//! Properties that span several operations of the library.
use crate::api::client::{is_server_error, range_slice, retry_decision_spec, AttemptOutcome, RetryDecision};
use crate::error::RqbitFuseError;
use crate::errno::Errno;
use crate::errno::open_flags_read_only;
use crate::api::types::TorrentInfo;
use crate::fs::filesystem::{lookup_outcome, lemma_nothing_new_under, numbers_between, room, structures_made, torrents_cost, access_answer, dir_listing, entry_attr, open_refusal, read_outcome, FsView, ReadRequest, FUSE_MAX_READ};
use crate::fs::inode_manager::{same_except_children, subtree_removed, InodeTableView};
use crate::types::handle::{FileHandle, HandleTableView};
use crate::sharded_counter::ShardedCounter;
use crate::types::inode::InodeEntry;
use crate::types::attr::FileKind;
use crate::text::{spec_is_control, spec_is_whitespace};
use crate::fs::names::{dotdot_at, is_dot, is_ws, lemma_replace_dotdot_keeps, name_core, safe_char, sanitized, trim_end_by, trim_start_by};
use vstd::prelude::*;

verus! {

/// An allocated entry is found again: under its number, under its path,
/// and for a torrent's directory under its torrent; its number is the
/// counter's, which no entry held before; every earlier entry stays.
pub proof fn law_allocated_entry_is_found(
    pre: InodeTableView,
    post: InodeTableView,
    path: Seq<char>,
    torrent: Option<u64>,
    r: u64,
)
    requires
        pre.wf(),
        pre.allocation_succeeds(),
        pre.allocation(post, path, torrent, r),
    ensures
        post.entry_at(r) is Some,
        post.paths.dom().contains(path) && post.paths[path] == r,
        torrent matches Some(id) ==> post.torrents.dom().contains(id) && post.torrents[id] == r,
        r == pre.next,
        !pre.entries.dom().contains(r),
        forall|k: u64| #[trigger] pre.entries.dom().contains(k) ==> post.entry_at(k) == pre.entry_at(k),
{
    assert(post.entries.dom().contains(r));
}

/// Two allocations in a row hand out two numbers, the second larger.
pub proof fn law_allocations_are_increasing(
    v0: InodeTableView,
    v1: InodeTableView,
    v2: InodeTableView,
    p1: Seq<char>,
    t1: Option<u64>,
    r1: u64,
    p2: Seq<char>,
    t2: Option<u64>,
    r2: u64,
)
    requires
        v0.allocation_succeeds(),
        v0.allocation(v1, p1, t1, r1),
        v1.allocation_succeeds(),
        v1.allocation(v2, p2, t2, r2),
    ensures
        r1 < r2,
        r2 == r1 + 1,
{
}

/// A full table refuses allocations: the answer is 0 and nothing changes.
pub proof fn law_full_table_refuses(pre: InodeTableView, post: InodeTableView, path: Seq<char>, torrent: Option<u64>, r: u64)
    requires
        pre.max > 0,
        pre.entries.dom().len() >= pre.max,
        pre.allocation(post, path, torrent, r),
    ensures
        r == 0,
        post == pre,
{
}

/// Once the torrents are cleared, numbering starts again at 2.
pub proof fn law_numbering_restarts_after_clear(
    cleared: InodeTableView,
    post: InodeTableView,
    path: Seq<char>,
    torrent: Option<u64>,
    r: u64,
)
    requires
        cleared.entries.dom() == set![1u64],
        cleared.next == 2,
        cleared.allocation_succeeds(),
        cleared.allocation(post, path, torrent, r),
    ensures
        r == 2,
{
}

/// Removing an entry removes everything below it and leaves no dangling
/// reference: the entry is gone, no remaining entry has a removed parent,
/// the entry's parent no longer lists it, no torrent stays mapped to a
/// removed entry, no path leads to one, and the root stays, changed at most
/// in its children list.
pub proof fn law_removal_leaves_no_orphans(pre: InodeTableView, post: InodeTableView, x: u64)
    requires
        pre.wf(),
        x != 1,
        pre.entries.dom().contains(x),
        subtree_removed(pre, post, x),
    ensures
        !post.entries.dom().contains(x),
        forall|k: u64| #[trigger] post.entries.dom().contains(k) ==> post.entries[k].spec_parent() != x
            && (pre.entries.dom().contains(post.entries[k].spec_parent()) ==> post.entries.dom().contains(post.entries[k].spec_parent())),
        post.entries.dom().contains(pre.entries[x].spec_parent())
            ==> !post.entries[pre.entries[x].spec_parent()].spec_children().contains(x),
        forall|id: u64| #[trigger] post.torrents.dom().contains(id) && pre.entries.dom().contains(post.torrents[id])
            ==> post.entries.dom().contains(post.torrents[id]),
        forall|p: Seq<char>| #[trigger] post.paths.dom().contains(p) && pre.entries.dom().contains(post.paths[p])
            ==> post.entries.dom().contains(post.paths[p]),
        post.entries.dom().contains(1),
        same_except_children(pre.entries[1], post.entries[1]),
{
    let removed = pre.entries.dom().difference(post.entries.dom());
    assert(removed.contains(x));
    assert forall|k: u64| #[trigger] post.entries.dom().contains(k) implies post.entries[k].spec_parent() != x
        && (pre.entries.dom().contains(post.entries[k].spec_parent()) ==> post.entries.dom().contains(post.entries[k].spec_parent())) by {
        assert(!removed.contains(post.entries[k].spec_parent()));
    }
    assert forall|id: u64| #[trigger] post.torrents.dom().contains(id) && pre.entries.dom().contains(post.torrents[id])
        implies post.entries.dom().contains(post.torrents[id]) by {
        assert(!removed.contains(pre.torrents[id]));
    }
    assert forall|p: Seq<char>| #[trigger] post.paths.dom().contains(p) && pre.entries.dom().contains(post.paths[p])
        implies post.entries.dom().contains(post.paths[p]) by {
        assert(!removed.contains(post.paths[p]));
    }
}

/// A handle that was allocated is found with what it was opened with,
/// and its number is never 0.
pub proof fn law_allocated_handle_is_found(
    pre: HandleTableView,
    post: HandleTableView,
    r: u64,
    inode: u64,
    torrent_id: u64,
    flags: i32,
)
    requires
        r == pre.next_number(),
        post.handles == pre.handles.insert(r, FileHandle { fh: r, inode, torrent_id, flags }),
    ensures
        r != 0,
        post.handles.dom().contains(r),
        post.handles[r].inode == inode && post.handles[r].torrent_id == torrent_id && post.handles[r].flags == flags,
{
}

/// Releasing a handle right after opening it leaves the table as it was,
/// and the handle is no longer found (while the counter has not wrapped
/// around, the number handed out was not in use).
pub proof fn law_release_undoes_open(
    pre: HandleTableView,
    mid: HandleTableView,
    post: HandleTableView,
    r: u64,
    inode: u64,
    torrent_id: u64,
    flags: i32,
)
    requires
        pre.wf(),
        !pre.wrapped,
        r == pre.next_number(),
        mid.handles == pre.handles.insert(r, FileHandle { fh: r, inode, torrent_id, flags }),
        post.handles == mid.handles.remove(r),
    ensures
        post.handles == pre.handles,
        !post.handles.dom().contains(r),
{
    assert(post.handles =~= pre.handles);
}

/// The filesystem is read-only: files show `r--r--r--` and directories
/// `r-xr-xr-x`, write access is always refused, and a file opened for
/// anything but reading is refused with `EACCES`.
pub proof fn law_filesystem_is_read_only(
    t: Map<u64, InodeEntry>,
    e: InodeEntry,
    uid: u32,
    gid: u32,
    mask: i32,
    flags: i32,
)
    ensures
        e is File ==> entry_attr(t, e, uid, gid).perm == 0o444,
        e is Directory ==> entry_attr(t, e, uid, gid).perm == 0o555,
        mask != 0 && mask & 2 != 0 ==> access_answer(Some(e), mask) == Err::<(), Errno>(Errno::EACCES),
        e is File && !open_flags_read_only(flags) ==> open_refusal(e, flags) == Some(Errno::EACCES),
{
}

/// Closing the handles of a torrent leaves none of it and every other.
pub proof fn law_torrent_handles_closed(pre: HandleTableView, post: HandleTableView, torrent_id: u64)
    requires
        post.handles == pre.handles.restrict(pre.handles.dom().filter(|k: u64| pre.handles[k].torrent_id != torrent_id)),
    ensures
        forall|k: u64| #[trigger] post.handles.dom().contains(k) ==> post.handles[k].torrent_id != torrent_id,
        forall|k: u64| #[trigger] pre.handles.dom().contains(k) && pre.handles[k].torrent_id != torrent_id ==> post.handles.dom().contains(k)
            && post.handles[k] == pre.handles[k],
{
}

/// Errors that say the server is unavailable are worth retrying.
pub proof fn law_unavailable_is_transient(e: RqbitFuseError)
    requires
        e is TimedOut || e is NetworkError,
    ensures
        e.spec_is_transient(),
        e.spec_errno_name() == Errno::ETIMEDOUT || e.spec_errno_name() == Errno::ENETUNREACH,
{
}

/// The last attempt of a request is never retried, and a successful
/// response never is.
pub proof fn law_retries_end(attempt: u32, max_retries: u32, retry_delay_ms: u64, outcome: AttemptOutcome)
    ensures
        attempt >= max_retries ==> retry_decision_spec(attempt, max_retries, retry_delay_ms, outcome) is Finish,
        (outcome matches AttemptOutcome::Response { status, .. } && 200 <= status <= 299) ==> retry_decision_spec(
            attempt,
            max_retries,
            retry_delay_ms,
            outcome,
        ) == RetryDecision::Finish(Ok(())),
{
}

/// A read never asks rqbit for more than 64 KiB nor more than was asked
/// for, and only inside the file.
pub proof fn law_reads_are_bounded(v: FsView, fh: u64, offset: i64, size: u32)
    ensures
        read_outcome(v, fh, offset, size) matches Ok(Some(req)) ==> {
            &&& req.size <= FUSE_MAX_READ
            &&& req.size <= size
            &&& req.size > 0
            &&& v.inodes.entries.dom().contains(req.ino)
            &&& v.inodes.entries[req.ino] matches InodeEntry::File { size: file_size, .. } && req.offset < file_size
        },
{
}

/// A file opened for reading is read from its own torrent and file: a
/// read inside the file, through the handle the open gave, asks rqbit for
/// that file at that offset, at most 64 KiB.
pub proof fn law_read_targets_opened_file(
    v: FsView,
    opened: FsView,
    ino: u64,
    flags: i32,
    offset: i64,
    size: u32,
)
    requires
        v.entry(ino) matches Some(e) && e is File && open_refusal(e, flags) is None,
        v.handles.under_limit(),
        opened == v.with_handles(
            v.handles.handles.insert(
                v.handles.next_number(),
                (FileHandle {
                    fh: v.handles.next_number(),
                    inode: ino,
                    torrent_id: v.entry(ino)->0.spec_torrent_id().unwrap_or(0),
                    flags,
                }),
            ),
            v.handles.counter_after(),
        ),
        0 <= offset,
        size > 0,
        v.entry(ino) matches Some(InodeEntry::File { size: file_size, .. }) && (offset as u64) < file_size,
    ensures
        v.entry(ino) matches Some(InodeEntry::File { torrent_id, file_index, .. }) && read_outcome(
            opened,
            v.handles.next_number(),
            offset,
            size,
        ) == Ok::<Option<ReadRequest>, Errno>(
            Some(
                ReadRequest {
                    ino,
                    torrent_id,
                    file_index,
                    offset: offset as u64,
                    size: if size < FUSE_MAX_READ { size } else { FUSE_MAX_READ },
                },
            ),
        ),
{
}

/// The bytes a ranged read keeps are the range's: at most its length, and
/// exactly those of the body from its start on.
pub proof fn law_range_is_cut(all: Seq<u8>, skip: nat, limit: nat)
    ensures
        range_slice(all, skip, Some(limit)).len() <= limit,
        skip + limit <= all.len() ==> range_slice(all, skip, Some(limit)) == all.subrange(skip as int, (skip + limit) as int),
{
}

/// A directory listing resumed at an offset lists its entries with
/// offsets that follow one another, all after the one asked for.
pub proof fn law_listing_offsets_follow(ino: u64, parent: u64, offset: i64, kids: Seq<(u64, InodeEntry)>)
    ensures
        forall|i: int| 0 <= i < dir_listing(ino, parent, offset, kids).len() ==> #[trigger] dir_listing(ino, parent, offset, kids)[i].1 > offset,
        forall|i: int| 0 <= i < dir_listing(ino, parent, offset, kids).len() - 1 ==> #[trigger] dir_listing(ino, parent, offset, kids)[i + 1].1
            == dir_listing(ino, parent, offset, kids)[i].1 + 1,
{
    reveal_strlit(".");
    reveal_strlit("..");
}

/// Counting from a new counter: when each counter of `states` is the one
/// before it after an increment, the last one has counted them all, as
/// long as their number fits in 64 bits.
pub proof fn law_counter_counts(states: Seq<ShardedCounter>)
    requires
        states.len() >= 1,
        states.len() - 1 <= u64::MAX,
        states[0].total() == 0,
        forall|i: int| 0 <= i < states.len() - 1 && (#[trigger] states[i]).total() < u64::MAX
            ==> states[i + 1].total() == states[i].total() + 1,
    ensures
        states.last().total() == states.len() - 1,
    decreases states.len(),
{
    if states.len() > 1 {
        let shorter = states.drop_last();
        assert forall|i: int| 0 <= i < shorter.len() - 1 && (#[trigger] shorter[i]).total() < u64::MAX
            implies shorter[i + 1].total() == shorter[i].total() + 1 by {
            assert(shorter[i] == states[i]);
            assert(shorter[i + 1] == states[i + 1]);
        }
        law_counter_counts(shorter);
        assert(states[states.len() - 2] == shorter.last());
    }
}

/// Building the structures of listed torrents leaves every directory that
/// was there, the root excepted, with the children it had: nothing is made
/// under a torrent that was already in the filesystem.
pub proof fn law_present_torrents_untouched(pre: FsView, post: FsView, list: Seq<TorrentInfo>, discovery: bool, k: u64)
    requires
        pre.inodes.wf(),
        structures_made(pre, post, list, discovery),
        room(pre.inodes, torrents_cost(list)),
        pre.inodes.entries.dom().contains(k),
        k != 1,
        pre.inodes.entries[k] is Directory,
    ensures
        post.inodes.entries.dom().contains(k),
        same_except_children(pre.inodes.entries[k], post.inodes.entries[k]),
        post.inodes.entries[k].spec_children() == pre.inodes.entries[k].spec_children(),
{
    let a = pre.inodes;
    let b = post.inodes;
    assert(same_except_children(a.entries[k], b.entries[k]));
    assert forall|d: u64| a.next <= d < b.next && #[trigger] b.entries.dom().contains(d) implies b.entries[d].spec_parent() != k by {
        assert(numbers_between(a.next, b.next).contains(d));
    }
    lemma_nothing_new_under(b.entries, k, a.entries[k].spec_children(), a.next, b.next);
    assert(b.entries[k].spec_children() =~= a.entries[k].spec_children());
}

/// Looking up `..` in a directory gives the entry numbered by the
/// directory's parent field, with that number as its attributes' inode;
/// `.` gives the directory itself. This holds whoever asks.
pub proof fn law_lookup_dots(v: InodeTableView, d: u64, uid: u32, gid: u32)
    requires
        v.wf(),
        v.entries.dom().contains(d),
        v.entries[d] is Directory,
    ensures
        v.entries.dom().contains(v.entries[d].spec_parent()) ==> lookup_outcome(v, d, ".."@)
            == Ok::<InodeEntry, Errno>(v.entries[v.entries[d].spec_parent()]),
        v.entries.dom().contains(v.entries[d].spec_parent()) ==> (lookup_outcome(v, d, ".."@) matches Ok(e)
            && entry_attr(v.entries, e, uid, gid).ino == v.entries[d].spec_parent()),
        !v.entries.dom().contains(v.entries[d].spec_parent()) ==> lookup_outcome(v, d, ".."@) == Err::<InodeEntry, Errno>(
            Errno::EIO,
        ),
        lookup_outcome(v, d, "."@) == Ok::<InodeEntry, Errno>(v.entries[d]),
        entry_attr(v.entries, v.entries[d], uid, gid).ino == d,
{
    reveal_strlit(".");
    reveal_strlit("..");
    assert(".."@ != "."@) by {
        assert(".."@.len() != "."@.len());
    }
    let p = v.entries[d].spec_parent();
    if v.entries.dom().contains(p) {
        assert(v.entries[p].spec_ino() == p);
    }
}

/// Every entry's attributes carry the owner given to `getattr` or
/// `lookup`, directories, files and links alike, and the entry's own
/// number.
pub proof fn law_attributes_belong_to_caller(v: InodeTableView, k: u64, uid: u32, gid: u32)
    requires
        v.wf(),
        v.entries.dom().contains(k),
    ensures
        entry_attr(v.entries, v.entries[k], uid, gid).uid == uid,
        entry_attr(v.entries, v.entries[k], uid, gid).gid == gid,
        entry_attr(v.entries, v.entries[k], uid, gid).ino == k,
        v.entries[k] matches InodeEntry::File { size, .. } ==> entry_attr(v.entries, v.entries[k], uid, gid).size == size,
{
    assert(v.entries[k].spec_ino() == k);
}

/// A listing from offset 0 starts with `.` for the directory itself and
/// `..` for the parent it is given, and one from offset 1 with that `..`;
/// `readdir` gives the directory's parent field as that parent.
pub proof fn law_listing_dots(ino: u64, parent: u64, kids: Seq<(u64, InodeEntry)>)
    ensures
        dir_listing(ino, parent, 0, kids).len() >= 2,
        dir_listing(ino, parent, 0, kids)[0] == (ino, 1i64, FileKind::Directory, "."@),
        dir_listing(ino, parent, 0, kids)[1] == (parent, 2i64, FileKind::Directory, ".."@),
        dir_listing(ino, parent, 1, kids).len() >= 1,
        dir_listing(ino, parent, 1, kids)[0] == (parent, 2i64, FileKind::Directory, ".."@),
{
}

/// A name that is already fit for the filesystem is kept as it is: one
/// that is not empty, holds no `..`, no path separator, NUL, control
/// character or `: * ? " < > |`, and neither starts nor ends with white
/// space or a dot.
pub proof fn law_clean_names_are_kept(name: Seq<char>)
    requires
        name.len() > 0,
        forall|i: int| 0 <= i < name.len() - 1 ==> !(#[trigger] name[i] == '.' && name[i + 1] == '.'),
        forall|i: int| 0 <= i < name.len() ==> {
            let c = #[trigger] name[i];
            c != '\0' && c != '/' && c != '\\' && !spec_is_control(c) && c != ':' && c != '*' && c != '?' && c != '"' && c
                != '<' && c != '>' && c != '|'
        },
        !spec_is_whitespace(name[0]) && name[0] != '.',
        !spec_is_whitespace(name.last()) && name.last() != '.',
    ensures
        sanitized(name) == name,
{
    assert forall|i: int| !#[trigger] dotdot_at(name, i) by {
        if dotdot_at(name, i) {
            assert(name[i] == '.' && name[i + 1] == '.');
        }
    }
    lemma_replace_dotdot_keeps(name);
    let t = trim_end_by(trim_start_by(name, |c: char| is_ws(c)), |c: char| is_ws(c));
    assert(trim_start_by(name, |c: char| is_ws(c)) == name);
    assert(t == name);
    assert(trim_start_by(t, |c: char| is_dot(c)) == name);
    assert(trim_end_by(name, |c: char| is_dot(c)) == name);
    assert(name_core(name) == name);
    assert(name.map_values(|c: char| safe_char(c)) =~= name);
}

/// Sanitizing changes only forbidden characters: each character of the
/// trimmed core is kept, but for a path separator, NUL, a control character
/// or one of `: * ? " < > |`, which becomes `_`.
pub proof fn law_sanitizing_keeps_other_characters(name: Seq<char>)
    requires
        name_core(name).len() > 0,
    ensures
        sanitized(name).len() == name_core(name).len(),
        forall|i: int| 0 <= i < name_core(name).len() ==> {
            let c = #[trigger] name_core(name)[i];
            sanitized(name)[i] == if c == '\0' || c == '/' || c == '\\' || spec_is_control(c) || c == ':' || c == '*' || c
                == '?' || c == '"' || c == '<' || c == '>' || c == '|' {
                '_'
            } else {
                c
            }
        },
{
}

} // verus!
