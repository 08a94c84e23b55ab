use rqbit_fuse::mount::{
    command_failed_message, lines_of, log_level_for, mount_info_from_df, mount_output_lists, str_contains,
    unmount_args, unmount_falls_back, words_of, LogLevel,
};

#[test]
fn log_levels() {
    assert_eq!(log_level_for(0, false), LogLevel::Info);
    assert_eq!(log_level_for(1, false), LogLevel::Debug);
    assert_eq!(log_level_for(2, false), LogLevel::Trace);
    assert_eq!(log_level_for(9, false), LogLevel::Trace);
    assert_eq!(log_level_for(3, true), LogLevel::Error);
}

#[test]
fn unmount_commands() {
    assert_eq!(unmount_args("/mnt/t", false), vec!["-u".to_string(), "/mnt/t".to_string()]);
    assert_eq!(unmount_args("/mnt/t", true), vec!["-zu".to_string(), "/mnt/t".to_string()]);
    assert_eq!(command_failed_message("fusermount", "busy"), "fusermount failed: busy");
    assert!(unmount_falls_back("sh: fusermount: command not found"));
    assert!(unmount_falls_back("No such file or directory"));
    assert!(!unmount_falls_back("Device or resource busy"));
}

#[test]
fn text_helpers() {
    assert!(str_contains("hello world", "o w"));
    assert!(str_contains("abc", ""));
    assert!(!str_contains("abc", "abcd"));
    assert_eq!(lines_of("a\r\nb\n\nc"), vec!["a".to_string(), "b".to_string(), "".to_string(), "c".to_string()]);
    assert_eq!(lines_of("x\n"), vec!["x".to_string()]);
    assert!(lines_of("").is_empty());
    assert_eq!(words_of("  a  bb\tc \n"), vec!["a".to_string(), "bb".to_string(), "c".to_string()]);
}

#[test]
fn mount_listing() {
    let out = "proc on /proc type proc\ntorrent-fuse on /mnt/torrents type fuse\n";
    assert!(mount_output_lists(out, "/mnt/torrents"));
    assert!(!mount_output_lists(out, "/mnt/other"));
}

#[test]
fn df_parsing() {
    let out = "Filesystem Size Used Avail Use% Mounted on\nrqbit-fuse 0 0 0 - /mnt/torrents\n";
    let info = mount_info_from_df(true, out);
    assert_eq!(info.filesystem, "rqbit-fuse");
    assert_eq!(info.size, "0");
    assert_eq!(info.used, "0");
    assert_eq!(info.available, "0");

    let unknown = mount_info_from_df(false, out);
    assert_eq!(unknown.filesystem, "fuse.torrent-fuse");
    assert_eq!(unknown.size, "unknown");

    let short = mount_info_from_df(true, "Filesystem Size\nonly two\n");
    assert_eq!(short.used, "unknown");
}
