use adb_sync_tool::commands::{
    device_df_command, free_space_kib, DfError, find_dirs_command, find_files_command, local_df_command, mkdir_command,
    progress_message, progress_tag,
};
use adb_sync_tool::text::{
    contains_dot_component, count_newlines, is_whitespace, parse_i64, split_fields, split_lines,
};

#[test]
fn lines_split_like_std() {
    for text in ["", "a", "a\n", "a\nb", "a\r\nb\r\n", "\n\n", "x\r", "a\n\nb\n", "é\nü"] {
        let expected: Vec<String> = text.lines().map(|l| l.to_string()).collect();
        assert_eq!(split_lines(text), expected, "{:?}", text);
    }
}

#[test]
fn fields_split_like_std() {
    for text in [
        "",
        "   ",
        "Filesystem 1K-blocks Used Available Use% Mounted",
        "/dev/fuse  115 22 93 20% /storage/emulated\n",
        "a\u{3000}b\u{a0}c\td",
    ] {
        let expected: Vec<String> = text.split_whitespace().map(|l| l.to_string()).collect();
        assert_eq!(split_fields(text), expected, "{:?}", text);
    }
}

#[test]
fn whitespace_matches_std() {
    for c in ['\t', '\n', ' ', '\u{85}', '\u{a0}', '\u{2007}', '\u{3000}', 'a', '0', '\u{200b}'] {
        assert_eq!(is_whitespace(c), c.is_whitespace(), "{:?}", c);
    }
}

#[test]
fn newlines_are_counted() {
    assert_eq!(count_newlines(""), 0);
    assert_eq!(count_newlines("a\nb\n"), 2);
    assert_eq!(count_newlines("a\r\nb"), 1);
}

#[test]
fn hidden_components_are_found() {
    assert!(contains_dot_component("/sdcard/Music/.thumbs/a.jpg"));
    assert!(contains_dot_component("/sdcard/.x"));
    assert!(!contains_dot_component("/sdcard/Music/a.flac"));
    assert!(!contains_dot_component(".hidden"));
    assert!(!contains_dot_component("/"));
}

#[test]
fn integers_parse_like_std() {
    for text in [
        "0", "42", "-42", "+7", "", "-", "+", "12a", "9223372036854775807",
        "9223372036854775808", "-9223372036854775808", "-9223372036854775809", "007",
        "99999999999999999999999",
    ] {
        assert_eq!(parse_i64(text), text.parse::<i64>().ok(), "{:?}", text);
    }
}

#[test]
fn decimal_form_reads_back() {
    for n in [0u64, 7, 10, 12345, i64::MAX as u64] {
        let tag = progress_tag(n, 1);
        let digits = &tag[1..tag.len() - 3];
        assert_eq!(parse_i64(digits), Some(n as i64));
    }
}

#[test]
fn commands_and_progress_text() {
    assert_eq!(mkdir_command("/sdcard/My Music"), "mkdir -p \"/sdcard/My Music\"");
    assert_eq!(find_dirs_command("/home/u/Music"), "find /home/u/Music -type d");
    assert_eq!(find_files_command("/sdcard/Music"), "find /sdcard/Music -type f");
    assert_eq!(device_df_command("/sdcard"), "df \"/sdcard\" | tail -n 1");
    assert_eq!(local_df_command("/home/u"), "df -k \"/home/u\" | tail -n 1");
    assert_eq!(progress_tag(3, 12), "[3/12]");
    assert_eq!(progress_tag(0, 0), "[0/0]");
    assert_eq!(progress_tag(u64::MAX, 10), format!("[{}/10]", u64::MAX));
    assert_eq!(progress_message(true, "a/b.txt"), "Adding a/b.txt");
    assert_eq!(progress_message(false, "b.txt"), "Updating b.txt");
}

#[test]
fn free_space_is_the_fourth_field() {
    assert_eq!(
        free_space_kib("/dev/fuse 115343360 22466212 92877148 20% /storage/emulated\n"),
        Ok(92877148)
    );
    assert_eq!(free_space_kib("/dev/fuse 1 2"), Err(DfError::MissingField));
    assert_eq!(
        free_space_kib("/dev/fuse 1 2 x% /"),
        Err(DfError::NotANumber("x%".to_string()))
    );
}
