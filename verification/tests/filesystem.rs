use rqbit_fuse::api::types::{FileInfo, TorrentInfo};
use rqbit_fuse::config::Config;
use rqbit_fuse::errno::Errno;
use rqbit_fuse::error::RqbitFuseError;
use rqbit_fuse::fs::async_bridge::{read_file_result, FuseResponse, ReadFailure};
use rqbit_fuse::fs::filesystem::{
    discover_existing_torrents, ReadRequest, TorrentFS, TorrentRemovalError, XattrListReply,
};
use rqbit_fuse::metrics::Metrics;
use rqbit_fuse::types::attr::FileKind;
use rqbit_fuse::types::inode::InodeEntry;

fn new_fs() -> TorrentFS {
    TorrentFS::new(Config::default(), Metrics::new())
}

fn file(name: &str, length: u64, components: &[&str]) -> FileInfo {
    FileInfo {
        name: name.to_string(),
        length,
        components: components.iter().map(|c| c.to_string()).collect(),
    }
}

fn torrent(id: u64, name: &str, files: Vec<FileInfo>) -> TorrentInfo {
    TorrentInfo {
        id,
        info_hash: format!("hash{}", id),
        name: name.to_string(),
        output_folder: "/tmp".to_string(),
        file_count: Some(files.len()),
        files,
        piece_length: Some(262144),
    }
}

#[test]
fn test_torrent_fs_creation() {
    let fs = new_fs();
    assert!(!fs.is_initialized());
    assert_eq!(fs.inode_manager().get(1).unwrap().ino(), 1);
}

#[test]
fn test_remove_torrent_cleans_up_inodes() {
    let mut fs = new_fs();

    let torrent_id = 123u64;
    let torrent_inode =
        fs.inode_manager_mut().allocate_torrent_directory(torrent_id, "test_torrent".to_string(), 1);
    fs.inode_manager_mut().add_child(1, torrent_inode);

    let file_inode =
        fs.inode_manager_mut().allocate_file("test.txt".to_string(), torrent_inode, torrent_id, 0, 1024);
    fs.inode_manager_mut().add_child(torrent_inode, file_inode);

    assert!(fs.inode_manager().get(torrent_inode).is_some());
    assert!(fs.inode_manager().get(file_inode).is_some());
    assert!(fs.inode_manager().lookup_torrent(torrent_id).is_some());

    fs.inode_manager_mut().remove_child(1, torrent_inode);
    fs.inode_manager_mut().remove_inode(torrent_inode);

    assert!(fs.inode_manager().get(torrent_inode).is_none());
    assert!(fs.inode_manager().get(file_inode).is_none());
    assert!(fs.inode_manager().lookup_torrent(torrent_id).is_none());

    let root_children = fs.inode_manager().get_children(1);
    assert!(!root_children.iter().any(|(ino, _)| *ino == torrent_inode));
}

#[test]
fn test_symlink_creation() {
    let mut fs = new_fs();

    let symlink_inode =
        fs.inode_manager_mut().allocate_symlink("link".to_string(), 1, "/target/path".to_string());

    let entry = fs.inode_manager().get(symlink_inode).unwrap();
    assert!(entry.is_symlink());
    assert_eq!(entry.name(), "link");

    let attr = fs.build_file_attr(&entry, 0, 0);
    assert_eq!(attr.kind, FileKind::Symlink);
    assert_eq!(attr.size, "/target/path".len() as u64);
}

#[test]
fn test_zero_byte_file() {
    let mut fs = new_fs();

    let file_inode = fs.inode_manager_mut().allocate_file("empty.txt".to_string(), 1, 1, 0, 0);

    let entry = fs.inode_manager().get(file_inode).unwrap();
    assert!(entry.is_file());

    let attr = fs.build_file_attr(&entry, 0, 0);
    assert_eq!(attr.size, 0);
    assert_eq!(attr.blocks, 0);
}

#[test]
fn test_large_file() {
    let mut fs = new_fs();

    let large_size = 5u64 * 1024 * 1024 * 1024;
    let file_inode = fs.inode_manager_mut().allocate_file("large.iso".to_string(), 1, 1, 0, large_size);

    let entry = fs.inode_manager().get(file_inode).unwrap();
    let attr = fs.build_file_attr(&entry, 0, 0);
    assert_eq!(attr.size, large_size);
    assert!(attr.blocks > 0);
}

#[test]
fn test_unicode_filename() {
    let mut fs = new_fs();

    let unicode_names = vec!["文件.txt", "ファイル.txt", "файл.txt", "αρχείο.txt", "📄document.txt", "naïve.txt"];

    for name in unicode_names {
        let inode = fs.inode_manager_mut().allocate_file(name.to_string(), 1, 1, 0, 100);
        let entry = fs.inode_manager().get(inode).unwrap();
        assert_eq!(entry.name(), name);
    }
}

#[test]
fn test_single_file_torrent_structure() {
    let mut fs = new_fs();

    let torrent_info = torrent(1, "Single File", vec![file("file.txt", 1024, &["file.txt"])]);
    fs.create_torrent_structure(&torrent_info).unwrap();

    let root_children = fs.inode_manager().get_children(1);
    assert_eq!(root_children.len(), 1);

    let (inode, entry) = &root_children[0];
    assert!(entry.is_file());
    assert_eq!(entry.name(), "file.txt");

    let torrent_inode = fs.inode_manager().lookup_torrent(1).unwrap();
    assert_eq!(torrent_inode, *inode);
}

#[test]
fn test_multi_file_torrent_structure() {
    let mut fs = new_fs();

    let torrent_info = torrent(
        2,
        "Multi File",
        vec![file("file1.txt", 1024, &["file1.txt"]), file("file2.txt", 2048, &["subdir", "file2.txt"])],
    );
    fs.create_torrent_structure(&torrent_info).unwrap();

    let root_children = fs.inode_manager().get_children(1);
    assert_eq!(root_children.len(), 1);

    let (_dir_inode, entry) = &root_children[0];
    assert!(entry.is_directory());
    assert_eq!(entry.name(), "Multi File");
}

fn multi_file_fs() -> (TorrentFS, u64) {
    let mut fs = new_fs();
    let info = torrent(
        2,
        "Multi File",
        vec![file("file1.txt", 1000, &["file1.txt"]), file("file2.txt", 2048, &["subdir", "file2.txt"])],
    );
    fs.create_torrent_structure(&info).unwrap();
    let dir = fs.inode_manager().lookup_torrent(2).unwrap();
    (fs, dir)
}

#[test]
fn lookup_finds_entries_by_path() {
    let (mut fs, dir) = multi_file_fs();
    let d = fs.lookup(1, "Multi File", 1000, 1000).unwrap();
    assert_eq!(d.ino, dir);
    assert_eq!(d.kind, FileKind::Directory);
    assert_eq!(d.perm, 0o555);
    assert_eq!(d.uid, 1000);

    let f = fs.lookup(dir, "file1.txt", 0, 0).unwrap();
    assert_eq!(f.kind, FileKind::RegularFile);
    assert_eq!(f.size, 1000);
    assert_eq!(f.blocks, 1);
    assert_eq!(f.perm, 0o444);

    let sub = fs.lookup(dir, "subdir", 0, 0).unwrap();
    assert_eq!(sub.kind, FileKind::Directory);
    let f2 = fs.lookup(sub.ino, "file2.txt", 0, 0).unwrap();
    assert_eq!(f2.size, 2048);

    assert_eq!(fs.lookup(dir, ".", 0, 0).unwrap().ino, dir);
    assert_eq!(fs.lookup(dir, "..", 0, 0).unwrap().ino, 1);
    assert_eq!(fs.lookup(dir, "missing", 0, 0), Err(Errno::ENOENT));
    assert_eq!(fs.lookup(f.ino, "x", 0, 0), Err(Errno::ENOTDIR));
    assert_eq!(fs.lookup(999, "x", 0, 0), Err(Errno::ENOENT));
}

#[test]
fn getattr_and_directory_links() {
    let (mut fs, dir) = multi_file_fs();
    let a = fs.getattr(dir, 0, 0).unwrap();
    // Two children (file1.txt and subdir) plus two.
    assert_eq!(a.nlink, 4);
    assert_eq!(a.blksize, 4096);
    let before = fs.metrics().error_count;
    assert_eq!(fs.getattr(12345, 0, 0), Err(Errno::ENOENT));
    assert_eq!(fs.metrics().error_count, before + 1);
}

#[test]
fn readdir_lists_dots_then_children() {
    let (mut fs, dir) = multi_file_fs();
    let all = fs.readdir(dir, 0).unwrap();
    assert_eq!(all.len(), 4);
    assert_eq!(all[0].name, ".");
    assert_eq!(all[0].ino, dir);
    assert_eq!(all[0].offset, 1);
    assert_eq!(all[1].name, "..");
    assert_eq!(all[1].ino, 1);
    assert_eq!(all[1].offset, 2);
    let mut names: Vec<String> = all[2..].iter().map(|e| e.name.clone()).collect();
    names.sort();
    assert_eq!(names, vec!["file1.txt".to_string(), "subdir".to_string()]);
    assert_eq!(all[2].offset, 3);
    assert_eq!(all[3].offset, 4);

    // Resuming after the first child lists only the second.
    let rest = fs.readdir(dir, 3).unwrap();
    assert_eq!(rest.len(), 1);
    assert_eq!(rest[0].name, all[3].name);
    assert_eq!(rest[0].offset, 4);

    let after_dot = fs.readdir(dir, 1).unwrap();
    assert_eq!(after_dot[0].name, "..");
    assert!(fs.readdir(dir, 10).unwrap().is_empty());

    let f = fs.lookup(dir, "file1.txt", 0, 0).unwrap().ino;
    assert!(matches!(fs.readdir(f, 0), Err(Errno::ENOTDIR)));
    assert!(matches!(fs.readdir(777, 0), Err(Errno::ENOENT)));
}

#[test]
fn open_read_release() {
    let (mut fs, dir) = multi_file_fs();
    let f = fs.lookup(dir, "file1.txt", 0, 0).unwrap().ino;

    assert_eq!(fs.open(dir, libc::O_RDONLY), Err(Errno::EISDIR));
    assert_eq!(fs.open(f, libc::O_WRONLY), Err(Errno::EACCES));
    assert_eq!(fs.open(f, libc::O_RDWR), Err(Errno::EACCES));
    assert_eq!(fs.open(4242, libc::O_RDONLY), Err(Errno::ENOENT));

    let fh = fs.open(f, libc::O_RDONLY).unwrap();
    assert_eq!(fh, 1);
    let h = fs.file_handles().get(fh).unwrap();
    assert_eq!(h.inode, f);
    assert_eq!(h.torrent_id, 2);

    let plan = fs.read_plan(fh, 100, 200).unwrap().unwrap();
    assert_eq!(plan, ReadRequest { ino: f, torrent_id: 2, file_index: 0, offset: 100, size: 200 });
    // At most 64 KiB is asked for at once.
    assert_eq!(fs.read_plan(fh, 0, 1 << 20).unwrap().unwrap().size, 65536);
    // Nothing to read at or past the end, or for an empty request.
    assert_eq!(fs.read_plan(fh, 1000, 10), Ok(None));
    assert_eq!(fs.read_plan(fh, 5000, 10), Ok(None));
    assert_eq!(fs.read_plan(fh, 0, 0), Ok(None));
    assert_eq!(fs.read_plan(fh, -1, 10), Err(Errno::EINVAL));
    assert_eq!(fs.read_plan(99, 0, 10), Err(Errno::EBADF));

    let req = ReadRequest { ino: f, torrent_id: 2, file_index: 0, offset: 0, size: 4 };
    let before = fs.metrics().bytes_read;
    let data = fs.finish_read(&req, Ok(vec![1, 2, 3, 4, 5, 6])).unwrap();
    assert_eq!(data, vec![1, 2, 3, 4]);
    assert_eq!(fs.metrics().bytes_read, before + 6);
    assert_eq!(fs.finish_read(&req, Ok(vec![9])).unwrap(), vec![9]);
    let errors = fs.metrics().error_count;
    assert_eq!(
        fs.finish_read(&req, Err(ReadFailure::from_error(RqbitFuseError::TimedOut("slow".to_string())))),
        Err(libc::ETIMEDOUT)
    );
    // Pieces not downloaded yet: the worker's EAGAIN reaches the reply.
    let not_yet = read_file_result(FuseResponse::Error { error_code: libc::EAGAIN, message: "later".to_string() });
    assert_eq!(fs.finish_read(&req, not_yet), Err(libc::EAGAIN));
    assert_eq!(fs.metrics().error_count, errors + 2);

    let released = fs.release(fh).unwrap();
    assert_eq!(released.inode, f);
    assert!(fs.release(fh).is_none());
    assert_eq!(fs.read_plan(fh, 0, 10), Err(Errno::EBADF));
}

#[test]
fn unlink_plans_torrent_removal() {
    let (mut fs, dir) = multi_file_fs();
    let single = torrent(9, "Solo", vec![file("solo.bin", 10, &["solo.bin"])]);
    fs.create_torrent_structure(&single).unwrap();

    assert_eq!(fs.unlink(dir, "file1.txt"), Err(Errno::EROFS));
    assert_eq!(fs.unlink(1, "nothing"), Err(Errno::ENOENT));
    assert_eq!(fs.unlink(1, "solo.bin"), Err(Errno::ENOTDIR));

    let f = fs.lookup(dir, "file1.txt", 0, 0).unwrap().ino;
    let fh = fs.open(f, libc::O_RDONLY).unwrap();
    assert_eq!(fs.unlink(1, "Multi File"), Err(Errno::EBUSY));
    fs.release(fh);

    assert_eq!(fs.unlink(1, "Multi File"), Ok((2, dir)));

    // rqbit refusing to forget leaves everything in place.
    match fs.remove_torrent(2, dir, Err(RqbitFuseError::NotFound("2".to_string()))) {
        Err(TorrentRemovalError::Forget(id, _)) => assert_eq!(id, 2),
        other => panic!("unexpected {:?}", other),
    }
    assert!(fs.has_torrent(2));

    assert!(fs.remove_torrent(2, dir, Ok(())).is_ok());
    assert!(!fs.has_torrent(2));
    assert!(fs.inode_manager().get(dir).is_none());
    assert!(fs.inode_manager().get(f).is_none());
    assert_eq!(fs.list_torrents(), vec![9]);
}

#[test]
fn remove_torrent_by_id() {
    let (mut fs, dir) = multi_file_fs();
    match fs.remove_torrent_by_id(77, Ok(())) {
        Err(TorrentRemovalError::NotInFilesystem(id)) => assert_eq!(id, 77),
        other => panic!("unexpected {:?}", other),
    }
    assert!(fs.remove_torrent_by_id(2, Ok(())).is_ok());
    assert!(fs.inode_manager().get(dir).is_none());
    assert!(fs.list_torrents().is_empty());
}

#[test]
fn links_access_xattrs_and_statfs() {
    let mut fs = new_fs();
    let link = fs.inode_manager_mut().allocate_symlink("l".to_string(), 1, "tgt".to_string());
    let f = fs.inode_manager_mut().allocate_file("f".to_string(), 1, 1, 0, 3);

    assert_eq!(fs.readlink(link), Ok(b"tgt".to_vec()));
    assert_eq!(fs.readlink(f), Err(Errno::EINVAL));
    assert_eq!(fs.readlink(999), Err(Errno::ENOENT));
    assert_eq!(fs.open(link, libc::O_RDONLY), Err(Errno::ELOOP));

    assert_eq!(fs.access(1, 0), Ok(()));
    assert_eq!(fs.access(999, 0), Err(Errno::ENOENT));
    assert_eq!(fs.access(f, libc::W_OK), Err(Errno::EACCES));
    assert_eq!(fs.access(f, libc::X_OK), Err(Errno::EACCES));
    assert_eq!(fs.access(1, libc::X_OK), Ok(()));
    assert_eq!(fs.access(f, libc::R_OK), Ok(()));

    assert_eq!(fs.getxattr(f, "user.torrent.status"), Errno::ENODATA);
    assert_eq!(fs.getxattr(999, "user.torrent.status"), Errno::ENOENT);
    assert_eq!(fs.getxattr(999, "user.other"), Errno::ENODATA);
    assert_eq!(fs.listxattr(f, 0), XattrListReply::Size(20));
    assert_eq!(fs.listxattr(f, 64), XattrListReply::Data(b"user.torrent.status\0".to_vec()));
    assert_eq!(fs.listxattr(f, 5), XattrListReply::Error(Errno::ERANGE));
    assert_eq!(fs.listxattr(999, 0), XattrListReply::Error(Errno::ENOENT));

    let s = fs.statfs();
    assert_eq!(s.files, 3);
    assert_eq!(s.ffree, 3);
    assert_eq!(s.blocks, 0);
    assert_eq!(s.bsize, 4096);
    assert_eq!(s.namelen, 255);
}

#[test]
fn init_and_destroy() {
    let mut fs = new_fs();
    assert_eq!(fs.init(), Ok(()));
    assert!(fs.is_initialized());
    fs.destroy();
    assert!(!fs.is_initialized());
    assert_eq!(fs.mount_point(), "/mnt/torrents");
    assert_eq!(fs.config().api_url, "http://127.0.0.1:3030");
    let stats = fs.concurrency_stats(3);
    assert_eq!(stats.max_concurrent_reads, fs.config().max_concurrent_reads);
    assert_eq!(stats.available_permits, 3);
}

#[test]
fn discovery_adds_and_removes_torrents() {
    let mut fs = new_fs();
    assert!(fs.discovery_due(false, 1_000));

    let listed = vec![
        torrent(1, "One", vec![file("a.txt", 5, &["a.txt"])]),
        torrent(2, "Two", vec![file("b.txt", 5, &["b.txt"]), file("c.txt", 5, &["d", "c.txt"])]),
    ];
    let ids = fs.discover_torrents(&listed);
    assert_eq!(ids, vec![1, 2]);
    assert!(fs.has_torrent(1));
    assert!(fs.has_torrent(2));
    // Discovery puts even a single file in a directory of its own.
    let one = fs.inode_manager().lookup_torrent(1).unwrap();
    assert!(fs.inode_manager().get(one).unwrap().is_directory());
    assert_eq!(fs.lookup(one, "a.txt", 0, 0).unwrap().size, 5);

    fs.finish_discovery(&ids, 10_000);
    assert_eq!(fs.last_discovery(), 10_000);
    assert!(!fs.discovery_due(false, 12_000));
    assert!(fs.discovery_due(true, 12_000));
    assert!(fs.discovery_due(false, 15_000));

    // Torrent 2 disappears from rqbit.
    assert_eq!(fs.detect_removed_torrents(&vec![1]), vec![2]);
    fs.finish_discovery(&vec![1], 20_000);
    assert!(!fs.has_torrent(2));
    assert!(fs.has_torrent(1));

    // A failed listing changes nothing.
    assert!(!fs.refresh_torrents(Err(RqbitFuseError::NetworkError("down".to_string())), 30_000));
    assert!(fs.has_torrent(1));
    assert_eq!(fs.last_discovery(), 20_000);

    // A successful one adds the new and drops the missing.
    assert!(fs.refresh_torrents(Ok(vec![torrent(3, "Three", vec![file("x", 1, &["x"])])]), 40_000));
    assert!(fs.has_torrent(3));
    assert!(!fs.has_torrent(1));
    assert_eq!(fs.last_discovery(), 40_000);
}

#[test]
fn existing_torrents_are_discovered_once() {
    let mut fs = new_fs();
    let listed = vec![torrent(5, "Five", vec![file("f", 1, &["f"])]), torrent(6, "Six", vec![file("g", 1, &["g"])])];
    assert_eq!(discover_existing_torrents(&mut fs, &listed), 2);
    assert_eq!(discover_existing_torrents(&mut fs, &listed), 0);
    let mut ids = fs.list_torrents();
    ids.sort();
    assert_eq!(ids, vec![5, 6]);
}

#[test]
fn created_entries_are_indexed_by_path() {
    let mut fs = new_fs();
    let info = torrent(1, "T", vec![file("a.txt", 3, &["a.txt"]), file("b.txt", 5, &["sub", "b.txt"])]);
    fs.create_torrent_structure(&info).unwrap();
    // The torrent's directory, then the first file, the directory of the
    // second, and the second file, numbered in that order.
    assert_eq!(fs.inode_manager().lookup_torrent(1), Some(2));
    assert_eq!(fs.inode_manager().lookup_by_path("/T"), Some(2));
    assert_eq!(fs.inode_manager().lookup_by_path("/T/a.txt"), Some(3));
    assert_eq!(fs.inode_manager().lookup_by_path("/T/sub"), Some(4));
    assert_eq!(fs.inode_manager().lookup_by_path("/T/sub/b.txt"), Some(5));
    assert_eq!(fs.inode_manager().next_inode(), 6);
    assert_eq!(fs.inode_manager().inode_count(), 4);
    let sub_children = fs.inode_manager().get_children(4);
    assert_eq!(sub_children.len(), 1);
    assert_eq!(sub_children[0].0, 5);
}

#[test]
fn single_file_torrent_adds_one_entry() {
    let mut fs = new_fs();
    let info = torrent(7, "Solo", vec![file("solo.bin", 9, &["solo.bin"])]);
    fs.create_torrent_structure(&info).unwrap();
    assert_eq!(fs.inode_manager().inode_count(), 1);
    let f = fs.inode_manager().lookup_torrent(7).unwrap();
    assert_eq!(fs.inode_manager().lookup_by_path("/solo.bin"), Some(f));
    // Removing the file drops the torrent's mapping and the root's listing.
    assert!(fs.remove_torrent_by_id(7, Ok(())).is_ok());
    assert!(fs.inode_manager().lookup_torrent(7).is_none());
    assert!(!fs.inode_manager().get_children(1).iter().any(|(ino, _)| *ino == f));
    match fs.inode_manager().get(1) {
        Some(InodeEntry::Directory { children, .. }) => assert!(children.is_empty()),
        _ => panic!("root is a directory"),
    }
}

#[test]
fn refresh_builds_new_torrents_and_keeps_known_ones() {
    let mut fs = new_fs();
    let first = vec![torrent(1, "One", vec![file("a.txt", 5, &["a.txt"])])];
    assert!(fs.refresh_torrents(Ok(first.clone()), 1_000));
    let one = fs.inode_manager().lookup_torrent(1).unwrap();
    let count = fs.inode_manager().inode_count();
    assert_eq!(fs.inode_manager().lookup_by_path("/One/a.txt").is_some(), true);
    // Listing the same torrent again creates nothing new.
    assert!(fs.refresh_torrents(Ok(first), 2_000));
    assert_eq!(fs.inode_manager().lookup_torrent(1), Some(one));
    assert_eq!(fs.inode_manager().inode_count(), count);
    assert_eq!(fs.known_torrents(), vec![1]);
}

#[test]
fn discovery_leaves_listed_torrents_alone() {
    let mut fs = new_fs();
    let listed = vec![
        torrent(1, "One", vec![file("a.txt", 5, &["a.txt"]), file("b.txt", 6, &["d", "b.txt"])]),
        torrent(2, "Two", vec![file("c.txt", 7, &["c.txt"]), file("e.txt", 8, &["e.txt"])]),
    ];
    assert!(fs.refresh_torrents(Ok(listed.clone()), 1_000));
    let one = fs.inode_manager().lookup_torrent(1).unwrap();
    let one_children = fs.inode_manager().get_children(one);
    let a = fs.lookup(one, "a.txt", 0, 0).unwrap().ino;
    let two = fs.inode_manager().lookup_torrent(2).unwrap();
    let c = fs.lookup(two, "c.txt", 0, 0).unwrap().ino;
    let fh_one = fs.open(a, libc::O_RDONLY).unwrap();
    let fh_two = fs.open(c, libc::O_RDONLY).unwrap();

    // Torrent 2 leaves rqbit: it goes with its handle; torrent 1 stays whole.
    assert!(fs.refresh_torrents(Ok(vec![listed[0].clone()]), 2_000));
    assert_eq!(fs.inode_manager().lookup_torrent(1), Some(one));
    assert_eq!(fs.inode_manager().get_children(one).len(), one_children.len());
    assert!(fs.file_handles().get(fh_one).is_some());
    assert!(fs.file_handles().get(fh_two).is_none());
    assert!(fs.inode_manager().get(two).is_none());
    assert!(fs.inode_manager().get(c).is_none());
}

#[test]
fn a_new_torrent_adds_only_its_own_entries() {
    let mut fs = new_fs();
    let first = torrent(1, "First", vec![file("a", 1, &["a"]), file("b", 2, &["b"])]);
    fs.create_torrent_structure(&first).unwrap();
    let dir = fs.inode_manager().lookup_torrent(1).unwrap();
    let before: Vec<u64> = fs.inode_manager().get_children(dir).iter().map(|(i, _)| *i).collect();
    let second = torrent(2, "Second", vec![file("c", 3, &["x", "c"]), file("d", 4, &["d"])]);
    fs.create_torrent_structure(&second).unwrap();
    let after: Vec<u64> = fs.inode_manager().get_children(dir).iter().map(|(i, _)| *i).collect();
    assert_eq!(before, after);
    let root: Vec<u64> = fs.inode_manager().get_children(1).iter().map(|(i, _)| *i).collect();
    assert_eq!(root, vec![dir, fs.inode_manager().lookup_torrent(2).unwrap()]);
}
