use rqbit_fuse::types::handle::FileHandleManager;

fn create_manager() -> FileHandleManager {
    FileHandleManager::new()
}

#[test]
fn test_handle_allocation_and_lookup() {
    let mut manager = create_manager();

    let fh1 = manager.allocate(100, 1, libc::O_RDONLY);
    let fh2 = manager.allocate(100, 1, libc::O_RDONLY);
    let fh3 = manager.allocate(200, 1, libc::O_RDONLY);

    assert_eq!(fh1, 1);
    assert_eq!(fh2, 2);
    assert_eq!(fh3, 3);
    assert_ne!(fh1, fh2);
    assert_ne!(fh1, fh3);

    let handle = manager.get(fh1).unwrap();
    assert_eq!(handle.fh, fh1);
    assert_eq!(handle.inode, 100);
    assert_eq!(handle.torrent_id, 1);

    assert!(manager.get(9999).is_none());
}

#[test]
fn test_handle_removal() {
    let mut manager = create_manager();
    let fh = manager.allocate(100, 1, libc::O_RDONLY);

    assert!(manager.remove(fh).is_some());
    assert!(manager.remove(fh).is_none());
    assert!(manager.get(fh).is_none());
    assert_eq!(manager.len(), 0);
}

#[test]
fn test_get_handles_for_inode() {
    let mut manager = create_manager();

    let fh1 = manager.allocate(100, 1, libc::O_RDONLY);
    let fh2 = manager.allocate(100, 1, libc::O_RDONLY);
    let fh3 = manager.allocate(200, 1, libc::O_RDONLY);

    let handles_for_100 = manager.get_handles_for_inode(100);
    assert_eq!(handles_for_100.len(), 2);
    assert!(handles_for_100.contains(&fh1));
    assert!(handles_for_100.contains(&fh2));

    let handles_for_200 = manager.get_handles_for_inode(200);
    assert_eq!(handles_for_200.len(), 1);
    assert!(handles_for_200.contains(&fh3));
}

#[test]
fn test_handle_exhaustion() {
    let mut manager = FileHandleManager::with_max_handles(5);

    let mut handles = Vec::new();
    for i in 0..5 {
        let fh = manager.allocate(100 + i as u64, 1, libc::O_RDONLY);
        assert!(fh > 0);
        handles.push(fh);
    }

    assert_eq!(manager.len(), 5);
    assert_eq!(manager.allocate(200, 1, libc::O_RDONLY), 0);

    manager.remove(handles[0]);
    assert_eq!(manager.len(), 4);

    let new_fh = manager.allocate(300, 1, libc::O_RDONLY);
    assert!(new_fh > 0);
    assert_eq!(manager.len(), 5);
}

#[test]
fn test_unlimited_handles() {
    let mut manager = FileHandleManager::with_max_handles(0);

    for i in 0..100 {
        let fh = manager.allocate(100 + i as u64, 1, libc::O_RDONLY);
        assert!(fh > 0);
    }

    assert_eq!(manager.len(), 100);
}

#[test]
fn handles_of_a_torrent_are_closed_together() {
    let mut manager = create_manager();
    let a = manager.allocate(10, 1, libc::O_RDONLY);
    let b = manager.allocate(11, 2, libc::O_RDONLY);
    let c = manager.allocate(12, 1, libc::O_RDONLY);
    assert_eq!(manager.remove_by_torrent(1), 2);
    assert!(manager.get(a).is_none());
    assert!(manager.get(c).is_none());
    assert_eq!(manager.get(b).unwrap().torrent_id, 2);
    assert_eq!(manager.get_inode(b), Some(11));
    assert_eq!(manager.get_inode(a), None);
    assert_eq!(manager.len(), 1);
    assert!(!manager.is_empty());
    assert_eq!(manager.remove_by_torrent(1), 0);
}

#[test]
fn a_released_handle_is_not_found_and_numbers_go_on() {
    let mut manager = create_manager();
    let a = manager.allocate(10, 1, libc::O_RDONLY);
    let removed = manager.remove(a).unwrap();
    assert_eq!(removed.inode, 10);
    assert_eq!(removed.flags, libc::O_RDONLY);
    assert!(manager.get(a).is_none());
    assert!(manager.is_empty());
    // Numbers are not reused.
    assert_eq!(manager.allocate(10, 1, libc::O_RDONLY), a + 1);
}
