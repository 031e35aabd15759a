use yauz::sorting::sort_strings;
use yauz::text::{chars_of, split_lines, split_whitespace_chars, trim_chars};
use yauz::webdav::{webdav_dir_url, webdav_file_url};

fn s(v: &[char]) -> String {
    v.iter().collect()
}

#[test]
fn trimming_removes_unicode_white_space() {
    let t = trim_chars(&chars_of("\u{3000}\t a b \u{a0}\r\n"));
    assert_eq!(s(&t), "a b");
    assert_eq!(s(&trim_chars(&t)), "a b");
    assert_eq!(s(&trim_chars(&chars_of(" \n "))), "");
}

#[test]
fn lines_follow_str_lines() {
    for text in ["a\r\nb\n\nc", "a\n", "", "\n", "x\r", "a\rb\nc\r\n"] {
        let ours: Vec<String> = split_lines(&chars_of(text)).iter().map(|l| s(l)).collect();
        let std: Vec<String> = text.lines().map(|l| l.to_string()).collect();
        assert_eq!(ours, std, "{:?}", text);
    }
}

#[test]
fn words_follow_split_whitespace() {
    for text in ["7-Zip (z) 24.09 (arm64) : x", "  a\t\tb  ", "", "   ", "x"] {
        let ours: Vec<String> = split_whitespace_chars(&chars_of(text)).iter().map(|w| s(w)).collect();
        let std: Vec<String> = text.split_whitespace().map(|w| w.to_string()).collect();
        assert_eq!(ours, std, "{:?}", text);
    }
}

#[test]
fn sorting_matches_string_order() {
    let v: Vec<String> = ["b", "a", "é", "B", "a", "ab", ""].iter().map(|x| x.to_string()).collect();
    let mut expected = v.clone();
    expected.sort();
    assert_eq!(sort_strings(v), expected);
}

#[test]
fn trailing_slashes_make_no_difference() {
    assert_eq!(webdav_dir_url("https://h/dav/"), webdav_dir_url("https://h/dav"));
    assert_eq!(webdav_file_url("https://h/dav///"), webdav_file_url("https://h/dav"));
    assert_eq!(webdav_file_url("https://h"), format!("{}yauz_config.ini", webdav_dir_url("https://h")));
}
