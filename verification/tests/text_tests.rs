use voice2text::text::{clean_output, decimal_string, white_space};

#[test]
fn clean_output_removes_brackets_and_joins_lines() {
    assert_eq!(clean_output("（你好）\n  世界 (笑)  \n\n"), "你好世界 笑");
}

#[test]
fn clean_output_trims_each_line() {
    assert_eq!(clean_output("  hello world  \r\n\tsecond line\t"), "hello worldsecond line");
}

#[test]
fn clean_output_keeps_inner_white_space() {
    assert_eq!(clean_output("a  b"), "a  b");
}

#[test]
fn clean_output_of_empty_and_blank_text() {
    assert_eq!(clean_output(""), "");
    assert_eq!(clean_output(" \n\u{3000}\n() "), "");
}

#[test]
fn clean_output_trims_unicode_white_space() {
    assert_eq!(clean_output("\u{3000}文字\u{a0}"), "文字");
}

#[test]
fn clean_output_is_idempotent_on_an_example() {
    let once = clean_output(" (a)\n b c \n");
    assert_eq!(once, "ab c");
    assert_eq!(clean_output(&once), once);
}

#[test]
fn white_space_matches_std() {
    for c in ['\t', '\n', ' ', '\u{85}', '\u{a0}', '\u{2003}', '\u{3000}', 'a', '（', '\u{200b}'] {
        assert_eq!(white_space(c), c.is_whitespace());
    }
}

#[test]
fn decimal_string_writes_numbers() {
    assert_eq!(decimal_string(0), "0");
    assert_eq!(decimal_string(7), "7");
    assert_eq!(decimal_string(48000), "48000");
    assert_eq!(decimal_string(usize::MAX), usize::MAX.to_string());
}
