use rqbit_fuse::config::config::Config as ShortConfig;
use rqbit_fuse::errno::Errno;
use rqbit_fuse::text::{concat2, concat3, is_control, is_whitespace, parse_u64, parse_usize, str_equal, u64_to_decimal};
use rqbit_fuse::types::attr::{default_dir_attr, default_file_attr, div_ceil, FileKind};

#[test]
fn default_attributes() {
    let f = default_file_attr(7, 1000);
    assert_eq!(f.ino, 7);
    assert_eq!(f.size, 1000);
    assert_eq!(f.blocks, 2);
    assert_eq!(f.kind, FileKind::RegularFile);
    assert_eq!(f.perm, 0o444);
    assert_eq!(f.nlink, 1);
    assert_eq!(f.blksize, 512);

    let d = default_dir_attr(1);
    assert_eq!(d.kind, FileKind::Directory);
    assert_eq!(d.perm, 0o755);
    assert_eq!(d.nlink, 2);
    assert_eq!(d.blocks, 0);
    assert_eq!(d.uid, 1000);
}

#[test]
fn rounding_up() {
    assert_eq!(div_ceil(0, 4096), 0);
    assert_eq!(div_ceil(1, 4096), 1);
    assert_eq!(div_ceil(4096, 4096), 1);
    assert_eq!(div_ceil(4097, 4096), 2);
    assert_eq!(div_ceil(u64::MAX, 2), 1 << 63);
}

#[test]
fn numbers_and_text() {
    assert_eq!(parse_u64("0"), Some(0));
    assert_eq!(parse_u64("+42"), Some(42));
    assert_eq!(parse_u64("18446744073709551615"), Some(u64::MAX));
    assert_eq!(parse_u64("18446744073709551616"), None);
    assert_eq!(parse_u64(""), None);
    assert_eq!(parse_u64("+"), None);
    assert_eq!(parse_u64("-1"), None);
    assert_eq!(parse_u64("1a"), None);
    assert_eq!(parse_usize("12"), Some(12));
    assert_eq!(u64_to_decimal(0), "0");
    assert_eq!(u64_to_decimal(1234567890), "1234567890");
    assert!(str_equal("abc", "abc"));
    assert!(!str_equal("abc", "abd"));
    assert_eq!(concat2("a", "b"), "ab");
    assert_eq!(concat3("a", "b", "c"), "abc");
    assert!(is_control('\n'));
    assert!(is_control('\u{7f}'));
    assert!(!is_control('a'));
    assert!(is_whitespace(' '));
    assert!(is_whitespace('\t'));
    assert!(!is_whitespace('x'));
}

#[test]
fn error_numbers() {
    assert_eq!(Errno::ENOENT.to_errno(), libc::ENOENT);
    assert_eq!(Errno::EROFS.to_errno(), libc::EROFS);
    assert_eq!(Errno::ENODATA.to_errno(), libc::ENODATA);
    assert_eq!(Errno::EBUSY.to_errno(), libc::EBUSY);
}

#[test]
fn short_config_defaults() {
    let c = ShortConfig::default();
    assert_eq!(c.rqbit_url, "http://localhost:3030");
    assert_eq!(c.mount_point, "/mnt/torrents");
    assert_eq!(c.cache_size_mb, 100);
}
