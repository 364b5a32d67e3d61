use wslgit::wslpath::translate_path_to_win;

#[test]
fn line_start_mnt_path_is_rewritten() {
    let input = b"/mnt/d/proj/a.txt\n".to_vec();
    assert_eq!(translate_path_to_win(&input), b"D:/proj/a.txt\n".to_vec());
}

#[test]
fn mid_line_mnt_path_is_unchanged() {
    let input = b"M /mnt/d/proj/a.txt\nM other\n".to_vec();
    assert_eq!(translate_path_to_win(&input), input);
}

#[test]
fn mid_line_occurrence_alone_is_unchanged() {
    let input = b"say /mnt/c/x here\n".to_vec();
    assert_eq!(translate_path_to_win(&input), input);
}

#[test]
fn every_matching_line_is_rewritten() {
    let input = b"/mnt/c/one\nplain\n/mnt/e/two\n".to_vec();
    assert_eq!(
        translate_path_to_win(&input),
        b"C:/one\nplain\nE:/two\n".to_vec()
    );
}

#[test]
fn uppercase_mnt_letter_is_kept_uppercase() {
    let input = b"/mnt/D/x\n".to_vec();
    assert_eq!(translate_path_to_win(&input), b"D:/x\n".to_vec());
}

#[test]
fn buffer_without_trailing_newline_is_rewritten() {
    let input = b"/mnt/c/x".to_vec();
    assert_eq!(translate_path_to_win(&input), b"C:/x".to_vec());
}

#[test]
fn empty_buffer_stays_empty() {
    let input: Vec<u8> = Vec::new();
    assert_eq!(translate_path_to_win(&input), Vec::<u8>::new());
}

#[test]
fn bare_mnt_prefix_without_tail_is_unchanged() {
    let input = b"/mnt/c\n".to_vec();
    assert_eq!(translate_path_to_win(&input), input);
}

#[test]
fn non_utf8_bytes_pass_through() {
    let mut input: Vec<u8> = vec![0xff, 0xfe, b'\n'];
    input.extend_from_slice(b"/mnt/c/bin");
    input.push(0x80);
    let mut expected: Vec<u8> = vec![0xff, 0xfe, b'\n'];
    expected.extend_from_slice(b"C:/bin");
    expected.push(0x80);
    assert_eq!(translate_path_to_win(&input), expected);
}

#[test]
fn translating_twice_equals_translating_once() {
    let input = b"/mnt/c/one\nM /mnt/d/two\n/mnt/e/three".to_vec();
    let once = translate_path_to_win(&input);
    let twice = translate_path_to_win(&once);
    assert_eq!(twice, once);
}

#[test]
fn slashes_in_rewritten_tail_are_retained() {
    let input = b"/mnt/c/a/b\n".to_vec();
    assert_eq!(translate_path_to_win(&input), b"C:/a/b\n".to_vec());
}
