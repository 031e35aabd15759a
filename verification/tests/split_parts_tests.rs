use yauz::split_parts::{detect_split_parts, regex_match_numbered};

fn strings(v: &[&str]) -> Vec<String> {
    v.iter().map(|s| s.to_string()).collect()
}

#[test]
fn numbered_names_are_recognised() {
    assert_eq!(regex_match_numbered("name.7z.001"), Some(("name.7z".to_string(), 3)));
    assert_eq!(regex_match_numbered("name.0001"), Some(("name".to_string(), 4)));
    assert_eq!(regex_match_numbered("name.01"), None);
    assert_eq!(regex_match_numbered("name.7z"), None);
    assert_eq!(regex_match_numbered("name"), None);
    assert_eq!(regex_match_numbered("a.00x"), None);
}

#[test]
fn numbered_volumes_are_found() {
    let entries = strings(&["data.7z.003", "data.7z.001", "data.7z.002", "data.7z.0004", "data.7z", "other.7z.002", "data.7z.00a"]);
    let parts = detect_split_parts("data.7z.001", &entries);
    assert_eq!(parts, strings(&["data.7z.002", "data.7z.003"]));
}

#[test]
fn part_rar_volumes_are_found_without_regard_to_case() {
    let entries = strings(&["Movie.part1.rar", "movie.PART2.RAR", "Movie.part10.rar", "Movie.partx.rar", "Movie.part3.zip"]);
    let parts = detect_split_parts("Movie.part1.rar", &entries);
    assert_eq!(parts, strings(&["Movie.part10.rar", "movie.PART2.RAR"]));
}

#[test]
fn zip_and_rar_volumes_are_found() {
    let entries = strings(&["Backup.zip", "backup.z01", "Backup.Z02", "backup.z1", "backup.r00", "backupx.z03"]);
    assert_eq!(detect_split_parts("Backup.zip", &entries), strings(&["Backup.Z02", "backup.z01"]));
    let entries = strings(&["old.rar", "old.r00", "old.r01", "old.z01"]);
    assert_eq!(detect_split_parts("old.rar", &entries), strings(&["old.r00", "old.r01"]));
}

#[test]
fn other_names_have_no_volumes() {
    let entries = strings(&["a.7z", "a.7z.001"]);
    assert_eq!(detect_split_parts("a.7z", &entries), Vec::<String>::new());
}

#[test]
fn non_ascii_names_are_handled() {
    let entries = strings(&["资料.part1.rar", "资料.part2.rar", "资料.part3.rar"]);
    assert_eq!(detect_split_parts("资料.part1.rar", &entries), strings(&["资料.part2.rar", "资料.part3.rar"]));
}

#[test]
fn overlapping_prefix_and_extension_is_not_a_volume() {
    let entries = strings(&["a.part1.part", "a.part", "a.part2.part"]);
    assert_eq!(detect_split_parts("a.part1.part", &entries), strings(&["a.part2.part"]));
}

#[test]
fn volume_number_must_not_be_empty() {
    let entries = strings(&["x.part1.rar", "x.part.rar", "X.PART02.RAR"]);
    assert_eq!(detect_split_parts("x.part1.rar", &entries), strings(&["X.PART02.RAR"]));
}

#[test]
fn non_ascii_names_whose_lowercase_changes_length() {
    // U+0130 lowercases to two characters (three bytes instead of two).
    let entries = strings(&["\u{130}x.part1.rar", "\u{130}x.part2.rar", "i\u{307}x.PART3.rar", "\u{130}x.z01"]);
    assert_eq!(
        detect_split_parts("\u{130}x.part1.rar", &entries),
        strings(&["i\u{307}x.PART3.rar", "\u{130}x.part2.rar"])
    );
    let entries = strings(&["\u{130}\u{130}.ZIP", "\u{130}\u{130}.z01", "\u{130}\u{130}.r01"]);
    assert_eq!(detect_split_parts("\u{130}\u{130}.ZIP", &entries), strings(&["\u{130}\u{130}.z01"]));
}
