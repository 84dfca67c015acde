use file_rs::input::iter_buf_nul;

#[test]
fn test_iter_buf_nul() {
    let input = b"foo.txt\0bar.txt\0baz.log\0";

    let lines: Vec<String> = iter_buf_nul(input);

    assert_eq!(lines, vec!["foo.txt", "bar.txt", "baz.log"]);
}

#[test]
fn test_iter_buf_nul_with_spaces() {
    let input = b"foo bar.txt\0baz qux.log\0";

    let lines: Vec<String> = iter_buf_nul(input);

    assert_eq!(lines, vec!["foo bar.txt", "baz qux.log"]);
}

#[test]
fn iter_buf_nul_drops_empty_fragments() {
    assert_eq!(iter_buf_nul(b"a\0\0b"), vec!["a", "b"]);
    assert_eq!(iter_buf_nul(b"\0\0"), Vec::<String>::new());
    assert_eq!(iter_buf_nul(b""), Vec::<String>::new());
    assert_eq!(iter_buf_nul(b"tail"), vec!["tail"]);
}
