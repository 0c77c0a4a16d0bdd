use observer::path::{file_name_of, parent_of};
use observer::platform::Platform;

fn some(s: &str) -> Option<String> {
    Some(s.to_string())
}

#[test]
fn unix_path_splits_at_the_last_slash() {
    assert_eq!(file_name_of(Platform::Unix, "/usr/bin/tool"), some("tool"));
    assert_eq!(parent_of(Platform::Unix, "/usr/bin/tool"), some("/usr/bin"));
}

#[test]
fn file_in_the_root_has_the_root_for_parent() {
    assert_eq!(file_name_of(Platform::Unix, "/tool"), some("tool"));
    assert_eq!(parent_of(Platform::Unix, "/tool"), some("/"));
    assert_eq!(parent_of(Platform::Unix, "//tool"), some("//"));
}

#[test]
fn bare_name_has_an_empty_parent() {
    assert_eq!(file_name_of(Platform::Unix, "tool"), some("tool"));
    assert_eq!(parent_of(Platform::Unix, "tool"), some(""));
    assert_eq!(file_name_of(Platform::Windows, "tool.exe"), some("tool.exe"));
    assert_eq!(parent_of(Platform::Windows, "tool.exe"), some(""));
}

#[test]
fn relative_path_keeps_its_directory() {
    assert_eq!(file_name_of(Platform::Unix, "bin/tool"), some("tool"));
    assert_eq!(parent_of(Platform::Unix, "bin/tool"), some("bin"));
    assert_eq!(parent_of(Platform::Unix, "./tool"), some("."));
}

#[test]
fn trailing_separators_are_passed_over() {
    assert_eq!(file_name_of(Platform::Unix, "/usr/bin/"), some("bin"));
    assert_eq!(parent_of(Platform::Unix, "/usr/bin/"), some("/usr"));
    assert_eq!(file_name_of(Platform::Unix, "/usr/bin///"), some("bin"));
    assert_eq!(parent_of(Platform::Unix, "/usr/bin///"), some("/usr"));
}

#[test]
fn repeated_separators_count_once() {
    assert_eq!(file_name_of(Platform::Unix, "a//b"), some("b"));
    assert_eq!(parent_of(Platform::Unix, "a//b"), some("a"));
}

#[test]
fn path_that_names_no_file_has_neither_name_nor_parent() {
    for path in ["", "/", "///"] {
        assert_eq!(file_name_of(Platform::Unix, path), None);
        assert_eq!(parent_of(Platform::Unix, path), None);
    }
    for path in ["", "/", "\\", "C:\\", "C:", "c:/", "C:\\\\"] {
        assert_eq!(file_name_of(Platform::Windows, path), None);
        assert_eq!(parent_of(Platform::Windows, path), None);
    }
}

#[test]
fn windows_path_splits_at_backslashes() {
    assert_eq!(file_name_of(Platform::Windows, "C:\\Apps\\tool.exe"), some("tool.exe"));
    assert_eq!(parent_of(Platform::Windows, "C:\\Apps\\tool.exe"), some("C:\\Apps"));
}

#[test]
fn windows_path_splits_at_slashes_too() {
    assert_eq!(file_name_of(Platform::Windows, "C:/Apps/tool.exe"), some("tool.exe"));
    assert_eq!(parent_of(Platform::Windows, "C:/Apps/tool.exe"), some("C:/Apps"));
    assert_eq!(parent_of(Platform::Windows, "C:\\Apps/bin\\tool.exe"), some("C:\\Apps/bin"));
}

#[test]
fn file_in_a_drive_root_has_the_drive_root_for_parent() {
    assert_eq!(file_name_of(Platform::Windows, "C:\\tool.exe"), some("tool.exe"));
    assert_eq!(parent_of(Platform::Windows, "C:\\tool.exe"), some("C:\\"));
}

#[test]
fn drive_relative_file_has_the_drive_for_parent() {
    assert_eq!(file_name_of(Platform::Windows, "C:tool.exe"), some("tool.exe"));
    assert_eq!(parent_of(Platform::Windows, "C:tool.exe"), some("C:"));
}

#[test]
fn drive_designator_needs_a_letter() {
    assert_eq!(file_name_of(Platform::Windows, "1:tool"), some("1:tool"));
    assert_eq!(parent_of(Platform::Windows, "1:tool"), some(""));
    assert_eq!(file_name_of(Platform::Windows, "z:tool"), some("tool"));
    assert_eq!(parent_of(Platform::Windows, "z:tool"), some("z:"));
}

#[test]
fn network_path_keeps_server_and_share() {
    assert_eq!(file_name_of(Platform::Windows, "\\\\srv\\share\\tool.exe"), some("tool.exe"));
    assert_eq!(parent_of(Platform::Windows, "\\\\srv\\share\\tool.exe"), some("\\\\srv\\share"));
}

#[test]
fn backslash_is_an_ordinary_character_on_unix() {
    assert_eq!(file_name_of(Platform::Unix, "C:\\Apps\\tool.exe"), some("C:\\Apps\\tool.exe"));
    assert_eq!(parent_of(Platform::Unix, "C:\\Apps\\tool.exe"), some(""));
    assert_eq!(file_name_of(Platform::Unix, "/opt/a\\b"), some("a\\b"));
    assert_eq!(parent_of(Platform::Unix, "/opt/a\\b"), some("/opt"));
}

#[test]
fn drive_designator_means_nothing_on_unix() {
    assert_eq!(file_name_of(Platform::Unix, "C:"), some("C:"));
    assert_eq!(parent_of(Platform::Unix, "C:"), some(""));
}

#[test]
fn separators_are_told_by_platform() {
    assert!(Platform::Unix.is_separator('/'));
    assert!(!Platform::Unix.is_separator('\\'));
    assert!(Platform::Windows.is_separator('/'));
    assert!(Platform::Windows.is_separator('\\'));
    assert!(!Platform::Windows.is_separator(':'));
}

#[test]
fn names_beyond_ascii_stay_whole() {
    assert_eq!(file_name_of(Platform::Unix, "/opt/\u{e9}t\u{e9}/outil\u{2603}"), some("outil\u{2603}"));
    assert_eq!(parent_of(Platform::Unix, "/opt/\u{e9}t\u{e9}/outil\u{2603}"), some("/opt/\u{e9}t\u{e9}"));
}
