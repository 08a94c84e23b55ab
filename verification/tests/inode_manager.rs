use rqbit_fuse::fs::inode_manager::InodeManager;
use rqbit_fuse::types::inode::InodeEntry;

fn create_test_manager() -> InodeManager {
    InodeManager::new()
}

#[test]
fn test_inode_manager_creation() {
    let manager = create_test_manager();

    let root = manager.get(1).expect("Root inode should exist");
    assert!(root.is_directory());
    assert_eq!(root.ino(), 1);
    assert_eq!(root.parent(), 1);

    assert_eq!(manager.next_inode(), 2);
}

#[test]
fn test_allocate_directory() {
    let mut manager = create_test_manager();

    let entry = InodeEntry::Directory {
        ino: 0,
        name: "test_dir".to_string(),
        parent: 1,
        children: Vec::new(),
        canonical_path: "/test_dir".to_string(),
    };

    let inode = manager.allocate(entry);
    assert_eq!(inode, 2);

    let retrieved = manager.get(inode).expect("Should retrieve allocated inode");
    assert_eq!(retrieved.name(), "test_dir");
    assert_eq!(retrieved.parent(), 1);
    assert!(retrieved.is_directory());
}

#[test]
fn test_allocate_file() {
    let mut manager = create_test_manager();

    let inode = manager.allocate_file("test.txt".to_string(), 1, 123, 0, 1024);

    assert_eq!(inode, 2);

    let entry = manager.get(inode).expect("Should retrieve file");
    assert_eq!(entry.name(), "test.txt");
    assert!(entry.is_file());
}

#[test]
fn test_allocate_torrent_directory() {
    let mut manager = create_test_manager();

    let inode = manager.allocate_torrent_directory(42, "My Torrent".to_string(), 1);

    assert_eq!(inode, 2);

    let found = manager.lookup_torrent(42);
    assert_eq!(found, Some(2));

    let entry = manager.get(inode).expect("Should retrieve torrent dir");
    assert_eq!(entry.name(), "My Torrent");
}

#[test]
fn test_lookup_by_path() {
    let mut manager = create_test_manager();

    let inode = manager.allocate_torrent_directory(1, "test_torrent".to_string(), 1);

    manager.allocate_file("file.txt".to_string(), inode, 1, 0, 100);

    assert_eq!(manager.lookup_by_path("/"), Some(1));
    assert_eq!(manager.lookup_by_path("/test_torrent"), Some(inode));
    assert_eq!(manager.lookup_by_path("/test_torrent/file.txt"), Some(3));
}

#[test]
fn test_get_children() {
    let mut manager = create_test_manager();

    let torrent_inode = manager.allocate_torrent_directory(1, "torrent".to_string(), 1);
    manager.add_child(1, torrent_inode);

    let file1 = manager.allocate_file("file1.txt".to_string(), torrent_inode, 1, 0, 100);
    let file2 = manager.allocate_file("file2.txt".to_string(), torrent_inode, 1, 1, 200);
    manager.add_child(torrent_inode, file1);
    manager.add_child(torrent_inode, file2);

    let root_children = manager.get_children(1);
    assert_eq!(root_children.len(), 1);
    assert_eq!(root_children[0].0, torrent_inode);

    let torrent_children = manager.get_children(torrent_inode);
    assert_eq!(torrent_children.len(), 2);
}

#[test]
fn test_remove_inode() {
    let mut manager = create_test_manager();

    let torrent_inode = manager.allocate_torrent_directory(1, "torrent".to_string(), 1);
    let file = manager.allocate_file("file.txt".to_string(), torrent_inode, 1, 0, 100);

    assert!(manager.get(torrent_inode).is_some());
    assert!(manager.get(file).is_some());

    assert!(manager.remove_inode(torrent_inode));

    assert!(manager.get(torrent_inode).is_none());
    assert!(manager.get(file).is_none());
    assert!(manager.lookup_torrent(1).is_none());
}

#[test]
fn test_cannot_remove_root() {
    let mut manager = create_test_manager();
    assert!(!manager.remove_inode(1));
    assert!(manager.get(1).is_some());
}

#[test]
fn test_clear_torrents() {
    let mut manager = create_test_manager();

    manager.allocate_torrent_directory(1, "torrent1".to_string(), 1);
    manager.allocate_torrent_directory(2, "torrent2".to_string(), 1);

    assert_eq!(manager.inode_count(), 2);

    manager.clear_torrents();

    assert!(manager.get(1).is_some());
    assert_eq!(manager.inode_count(), 0);
    assert!(manager.lookup_torrent(1).is_none());
    assert!(manager.lookup_torrent(2).is_none());
    assert_eq!(manager.next_inode(), 2);
}

#[test]
fn test_allocate_symlink() {
    let mut manager = create_test_manager();

    let inode = manager.allocate_symlink("link".to_string(), 1, "/target/path".to_string());

    assert_eq!(inode, 2);

    let entry = manager.get(inode).expect("Should retrieve symlink");
    assert!(entry.is_symlink());
    assert_eq!(entry.name(), "link");

    if let InodeEntry::Symlink { target, .. } = entry {
        assert_eq!(target, "/target/path");
    } else {
        panic!("Expected symlink entry");
    }
}

#[test]
fn test_mixed_entry_types() {
    let mut manager = create_test_manager();

    let dir = manager.allocate_torrent_directory(1, "dir".to_string(), 1);
    manager.add_child(1, dir);
    assert!(manager.get(dir).unwrap().is_directory());

    let file = manager.allocate_file("file.txt".to_string(), dir, 1, 0, 100);
    manager.add_child(dir, file);
    assert!(manager.get(file).unwrap().is_file());

    let symlink = manager.allocate_symlink("link".to_string(), dir, "target".to_string());
    manager.add_child(dir, symlink);
    assert!(manager.get(symlink).unwrap().is_symlink());

    assert_eq!(manager.inode_count(), 3);

    let children = manager.get_children(dir);
    assert_eq!(children.len(), 2);
}

#[test]
fn test_allocation_after_clear_torrents() {
    let mut manager = create_test_manager();

    let torrent1 = manager.allocate_torrent_directory(1, "torrent1".to_string(), 1);
    let file1 = manager.allocate_file("file1.txt".to_string(), torrent1, 1, 0, 100);
    let file2 = manager.allocate_file("file2.txt".to_string(), torrent1, 1, 1, 200);
    let torrent2 = manager.allocate_torrent_directory(2, "torrent2".to_string(), 1);
    let file3 = manager.allocate_file("file3.txt".to_string(), torrent2, 2, 0, 300);
    let symlink1 = manager.allocate_symlink("link1".to_string(), torrent2, "/target".to_string());

    assert_eq!(manager.inode_count(), 6);
    assert_eq!(manager.next_inode(), 8);

    let initial_inodes = vec![torrent1, file1, file2, torrent2, file3, symlink1];

    manager.clear_torrents();

    assert_eq!(manager.inode_count(), 0);
    assert_eq!(manager.next_inode(), 2);
    assert!(manager.get(1).is_some());

    for inode in &initial_inodes {
        assert!(manager.get(*inode).is_none());
    }

    assert!(manager.lookup_torrent(1).is_none());
    assert!(manager.lookup_torrent(2).is_none());

    let new_torrent1 = manager.allocate_torrent_directory(10, "new_torrent1".to_string(), 1);
    let new_file1 = manager.allocate_file("new_file1.txt".to_string(), new_torrent1, 10, 0, 1000);
    let new_torrent2 = manager.allocate_torrent_directory(11, "new_torrent2".to_string(), 1);
    let new_file2 = manager.allocate_file("new_file2.txt".to_string(), new_torrent2, 11, 0, 2000);

    assert_eq!(new_torrent1, 2);
    assert_eq!(new_file1, 3);
    assert_eq!(new_torrent2, 4);
    assert_eq!(new_file2, 5);
    assert_eq!(manager.next_inode(), 6);

    let all_inodes: Vec<u64> = manager.iter_entries().iter().map(|e| e.entry.ino()).collect();
    let mut unique_inodes = all_inodes.clone();
    unique_inodes.sort();
    unique_inodes.dedup();
    assert_eq!(unique_inodes.len(), all_inodes.len());

    assert_eq!(manager.lookup_torrent(10), Some(2));
    assert_eq!(manager.lookup_torrent(11), Some(4));
    assert_eq!(manager.lookup_by_path("/"), Some(1));
    assert_eq!(manager.lookup_by_path("/new_torrent1"), Some(2));
    assert_eq!(manager.lookup_by_path("/new_torrent2"), Some(4));

    manager.clear_torrents();

    let cycle2_torrent = manager.allocate_torrent_directory(20, "cycle2".to_string(), 1);
    assert_eq!(cycle2_torrent, 2);
    assert_eq!(manager.next_inode(), 3);
    assert!(manager.get(cycle2_torrent).is_some());
    assert!(manager.lookup_torrent(20).is_some());
}

#[test]
fn full_table_refuses_allocation() {
    let mut manager = InodeManager::with_max_inodes(2);
    assert_eq!(manager.max_inodes(), 2);
    assert!(manager.can_allocate());
    let a = manager.allocate_file("a".to_string(), 1, 1, 0, 1);
    assert_eq!(a, 2);
    assert!(!manager.can_allocate());
    assert_eq!(manager.allocate_file("b".to_string(), 1, 1, 1, 1), 0);
    assert_eq!(manager.len(), 2);
    assert_eq!(manager.next_inode(), 3);
}

#[test]
fn paths_and_torrent_lookup() {
    let mut manager = create_test_manager();
    let dir = manager.allocate_torrent_directory(7, "T".to_string(), 1);
    manager.add_child(1, dir);
    let sub = manager.allocate(InodeEntry::Directory {
        ino: 0,
        name: "sub".to_string(),
        parent: dir,
        children: Vec::new(),
        canonical_path: "/T/sub".to_string(),
    });
    manager.add_child(dir, sub);
    let f = manager.allocate_file("f.bin".to_string(), sub, 7, 3, 10);
    manager.add_child(sub, f);

    assert_eq!(manager.get(f).unwrap().canonical_path(), "/T/sub/f.bin");
    assert_eq!(manager.get_path_for_inode(f), Some("/T/sub/f.bin".to_string()));
    assert_eq!(manager.get_path_for_inode(1), Some("/".to_string()));
    assert_eq!(manager.get_path_for_inode(999), None);
    assert_eq!(manager.torrent_for_inode(dir), Some(7));
    assert_eq!(manager.torrent_for_inode(sub), None);
    assert_eq!(manager.torrent_for_inode(1), None);
    assert_eq!(manager.get_all_torrent_ids(), vec![7]);
    assert!(manager.contains(f));
    assert!(!manager.is_empty());

    // Removing a child link keeps the entry itself; with an empty list the
    // children are found by their parent link.
    manager.remove_child(sub, f);
    assert!(manager.get(f).is_some());
    let kids = manager.get_children(sub);
    assert_eq!(kids.len(), 1);
    assert_eq!(kids[0].0, f);

    // Removing the torrent directory removes everything below it.
    assert!(manager.remove_inode(dir));
    assert!(manager.get(sub).is_none());
    assert!(manager.get(f).is_none());
    assert_eq!(manager.lookup_by_path("/T/sub"), None);
    assert!(!manager.get_children(1).iter().any(|(ino, _)| *ino == dir));
    assert!(root_children(&manager).is_empty());
}

fn inode_limit_exhaustion(max_inodes: usize, expected_allocations: usize) {
    let mut manager = InodeManager::with_max_inodes(max_inodes);
    assert_eq!(manager.len(), 1);
    assert!(manager.can_allocate());

    let mut allocated = Vec::new();
    for i in 0..expected_allocations {
        let inode = manager.allocate_torrent_directory(i as u64 + 1, format!("t{}", i), 1);
        assert!(inode >= 2);
        allocated.push(inode);
    }

    assert_eq!(manager.len(), max_inodes);
    assert!(!manager.can_allocate());

    assert_eq!(manager.allocate_torrent_directory(999, "overflow".to_string(), 1), 0);
    assert_eq!(manager.allocate_file("f".to_string(), 1, 1, 0, 100), 0);
    assert_eq!(manager.allocate_symlink("l".to_string(), 1, "/t".to_string()), 0);

    let first_inode = allocated[0];
    assert!(manager.remove_inode(first_inode));
    assert!(manager.can_allocate());

    let new_inode = manager.allocate_torrent_directory(999, "replacement".to_string(), 1);
    assert_ne!(new_inode, 0);
}

#[test]
fn inode_limit_exhaustion_at_100() {
    inode_limit_exhaustion(100, 99);
}

#[test]
fn inode_limit_exhaustion_at_10() {
    inode_limit_exhaustion(10, 9);
}

fn root_children(manager: &InodeManager) -> Vec<u64> {
    match manager.get(1) {
        Some(InodeEntry::Directory { children, .. }) => children,
        _ => panic!("root is a directory"),
    }
}

#[test]
fn removal_leaves_no_dangling_references() {
    let mut manager = create_test_manager();
    let first = manager.allocate_torrent_directory(1, "first".to_string(), 1);
    manager.add_child(1, first);
    let second = manager.allocate_torrent_directory(2, "second".to_string(), 1);
    manager.add_child(1, second);
    let file = manager.allocate_file("file.txt".to_string(), first, 1, 0, 100);
    manager.add_child(first, file);
    assert_eq!(root_children(&manager), vec![first, second]);

    assert!(manager.remove_inode(first));
    // The root's list no longer holds the removed directory.
    assert_eq!(root_children(&manager), vec![second]);
    assert!(manager.lookup_torrent(1).is_none());
    assert_eq!(manager.torrent_to_inode(), vec![(2, second)]);
    assert!(manager.lookup_by_path("/first").is_none());
    assert!(manager.lookup_by_path("/first/file.txt").is_none());

    manager.clear_torrents();
    assert!(root_children(&manager).is_empty());
    assert!(manager.torrent_to_inode().is_empty());
}

#[test]
fn removal_drops_every_path_of_removed_entries() {
    let mut manager = create_test_manager();
    let dir = manager.allocate_torrent_directory(3, "T".to_string(), 1);
    manager.add_child(1, dir);
    // A directory stored under a path other than the one built from names.
    let sub = manager.allocate(InodeEntry::Directory {
        ino: 0,
        name: "a_b".to_string(),
        parent: dir,
        children: vec![],
        canonical_path: "/T/a:b".to_string(),
    });
    manager.add_child(dir, sub);
    assert_eq!(manager.lookup_by_path("/T/a:b"), Some(sub));
    assert!(manager.remove_inode(dir));
    assert_eq!(manager.lookup_by_path("/T/a:b"), None);
    assert_eq!(manager.lookup_by_path("/T"), None);
}
