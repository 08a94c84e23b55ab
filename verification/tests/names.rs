use rqbit_fuse::fs::names::{is_safe_path_component, sanitize_filename};

#[test]
fn test_sanitize_filename_path_traversal() {
    assert_eq!(sanitize_filename("../../../etc/passwd"), "______etc_passwd");
    assert_eq!(sanitize_filename(".."), "_");
    assert_eq!(sanitize_filename("../secret"), "__secret");
}

#[test]
fn test_sanitize_filename_special_chars() {
    assert_eq!(sanitize_filename("file:name.txt"), "file_name.txt");
    assert_eq!(sanitize_filename("file*name?.txt"), "file_name_.txt");
    assert_eq!(sanitize_filename("<script>alert(1)</script>"), "_script_alert(1)__script_");
}

#[test]
fn test_sanitize_filename_control_chars() {
    assert_eq!(sanitize_filename("file\x00name"), "file_name");
    assert_eq!(sanitize_filename("file\nname"), "file_name");
    assert_eq!(sanitize_filename("file\tname"), "file_name");
}

#[test]
fn test_sanitize_filename_leading_dots() {
    assert_eq!(sanitize_filename(".hidden"), "hidden");
    assert_eq!(sanitize_filename("file."), "file");
    assert_eq!(sanitize_filename("..double"), "_double");
}

#[test]
fn test_sanitize_filename_empty() {
    assert_eq!(sanitize_filename(""), "unnamed");
    assert_eq!(sanitize_filename("   "), "unnamed");
    assert_eq!(sanitize_filename("..."), "_");
}

#[test]
fn test_is_safe_path_component() {
    assert!(is_safe_path_component("normal_file"));
    assert!(is_safe_path_component("file.txt"));
    assert!(is_safe_path_component("my-directory"));

    assert!(!is_safe_path_component(""));
    assert!(!is_safe_path_component("."));
    assert!(!is_safe_path_component(".."));
    assert!(!is_safe_path_component("../.."));
    assert!(!is_safe_path_component("dir/file"));
    assert!(!is_safe_path_component("dir\\file"));
}

#[test]
fn sanitized_names_are_safe_components() {
    let names = [
        "../../../etc/passwd",
        "..",
        "...",
        "....",
        "a..b",
        ".",
        "",
        " . ",
        "x\\y",
        "\u{7f}del",
        "normal.txt",
        "  spaced  ",
        "文件.txt",
    ];
    for name in names {
        let s = sanitize_filename(name);
        assert!(is_safe_path_component(&s), "{:?} -> {:?}", name, s);
    }
}

#[test]
fn sanitize_keeps_ordinary_names_and_trims_whitespace() {
    assert_eq!(sanitize_filename("normal.txt"), "normal.txt");
    assert_eq!(sanitize_filename("  spaced  "), "spaced");
    assert_eq!(sanitize_filename("a|b\"c"), "a_b_c");
    assert_eq!(sanitize_filename("naïve.txt"), "naïve.txt");
}
