use yauz::passwords::normalize_passwords;
use yauz::state::AppState;

fn strings(v: &[&str]) -> Vec<String> {
    v.iter().map(|s| s.to_string()).collect()
}

#[test]
fn passwords_are_deduplicated_and_sorted() {
    let r = normalize_passwords(strings(&["b", "a", "b", "C", "a"]));
    assert_eq!(r, strings(&["C", "a", "b"]));
}

#[test]
fn normalizing_twice_changes_nothing() {
    let once = normalize_passwords(strings(&["zz", "z", "", "éclair", "z", "密码"]));
    let twice = normalize_passwords(once.clone());
    assert_eq!(once, twice);
    let mut expected = strings(&["zz", "z", "", "éclair", "密码"]);
    expected.sort();
    assert_eq!(once, expected);
}

#[test]
fn saving_passwords_updates_only_the_passwords() {
    let mut state = AppState {
        passwords: vec![],
        seven_zip_dir: "d".to_string(),
        seven_zip_dir_other: String::new(),
        language: "en-GB".to_string(),
        needs_setup: true,
        webdav_url: String::new(),
        webdav_user: String::new(),
        webdav_pass: String::new(),
    };
    state.save_passwords(strings(&["q", "p", "q"]));
    assert_eq!(state.passwords, strings(&["p", "q"]));
    assert_eq!(state.seven_zip_dir, "d");
    assert!(state.needs_setup);
}
