use wslgit::winpath::{shell_escape, translate_path_to_unix};

#[test]
fn backslash_drive_path_is_translated() {
    assert_eq!(
        translate_path_to_unix(String::from("C:\\work\\file.txt")),
        "/mnt/c/work/file.txt"
    );
}

#[test]
fn forward_slash_drive_path_is_translated() {
    assert_eq!(translate_path_to_unix(String::from("C:/a/b")), "/mnt/c/a/b");
}

#[test]
fn lowercase_drive_letter_is_kept_lowercase() {
    assert_eq!(translate_path_to_unix(String::from("c:\\x")), "/mnt/c/x");
}

#[test]
fn relative_path_with_backslashes_is_unchanged() {
    assert_eq!(
        translate_path_to_unix(String::from("sub\\file")),
        "sub\\file"
    );
}

#[test]
fn plain_argument_is_unchanged() {
    assert_eq!(
        translate_path_to_unix(String::from("--oneline")),
        "--oneline"
    );
}

#[test]
fn drive_letter_without_separator_is_unchanged() {
    assert_eq!(translate_path_to_unix(String::from("C:")), "C:");
}

#[test]
fn unc_path_is_unchanged() {
    assert_eq!(
        translate_path_to_unix(String::from("\\\\server\\share")),
        "\\\\server\\share"
    );
}

#[test]
fn colon_argument_without_drive_prefix_is_unchanged() {
    assert_eq!(
        translate_path_to_unix(String::from("HEAD:binary.bin")),
        "HEAD:binary.bin"
    );
}

#[test]
fn translated_tail_keeps_mixed_separators_as_slashes() {
    assert_eq!(
        translate_path_to_unix(String::from("D:\\a/b\\c")),
        "/mnt/d/a/b/c"
    );
}

#[test]
fn shell_escape_wraps_argument_with_space() {
    assert_eq!(shell_escape(String::from("a b")), "\"a b\"");
}

#[test]
fn shell_escape_keeps_argument_without_space() {
    assert_eq!(shell_escape(String::from("ab")), "ab");
}
