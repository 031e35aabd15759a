use yauz::config::{load_config, render_config};
use yauz::platform::Platform;
use yauz::state::{save_all, startup_state, AppState};

#[test]
fn missing_file_is_first_run() {
    let cfg = load_config(None, Platform::Windows);
    assert!(cfg.first_run);
    assert!(!cfg.migrated);
    assert!(cfg.passwords.is_empty());
    assert_eq!(cfg.seven_zip_dir, "");
}

#[test]
fn readme_example_migrates_legacy_dir() {
    let text = "[settings]\n7zip_dir=C:\\Program Files\\7-Zip\nlanguage=auto\n\n[passwords]\npassword1\npassword2\n";
    let cfg = load_config(Some(text), Platform::Windows);
    assert_eq!(cfg.seven_zip_dir, "C:\\Program Files\\7-Zip");
    assert_eq!(cfg.seven_zip_dir_other, "");
    assert_eq!(cfg.language, "auto");
    assert_eq!(cfg.passwords, vec!["password1".to_string(), "password2".to_string()]);
    assert!(cfg.migrated);
    assert!(!cfg.first_run);
    let mac = load_config(Some(text), Platform::MacOs);
    assert_eq!(mac.seven_zip_dir, "C:\\Program Files\\7-Zip");
    assert!(mac.migrated);
}

#[test]
fn platform_keys_pick_own_dir() {
    let text = "[settings]\n7zip_dir_windows=C:\\7z\n7zip_dir_macos=/opt/homebrew/bin\n7zip_dir=/legacy\n";
    let win = load_config(Some(text), Platform::Windows);
    assert_eq!(win.seven_zip_dir, "C:\\7z");
    assert_eq!(win.seven_zip_dir_other, "/opt/homebrew/bin");
    assert!(!win.migrated);
    let mac = load_config(Some(text), Platform::MacOs);
    assert_eq!(mac.seven_zip_dir, "/opt/homebrew/bin");
    assert_eq!(mac.seven_zip_dir_other, "C:\\7z");
}

#[test]
fn lines_are_trimmed_and_crlf_accepted() {
    let text = "  [webdav] \r\n url=  https://dav.example/  \r\n user = bob\r\nuser=alice\r\npass= s e \r\n\r\n[passwords]\r\n  pw one  \r\n\r\n";
    let cfg = load_config(Some(text), Platform::MacOs);
    assert_eq!(cfg.webdav_url, "https://dav.example/");
    // "user = bob" does not start with "user=" and is ignored.
    assert_eq!(cfg.webdav_user, "alice");
    assert_eq!(cfg.webdav_pass, "s e");
    assert_eq!(cfg.passwords, vec!["pw one".to_string()]);
    assert!(cfg.first_run);
}

#[test]
fn unknown_sections_and_lines_before_any_section_are_ignored() {
    let text = "secret\n[other]\nlanguage=fr\nx\n[settings]\nlanguage=zh-CN\nnonsense\n";
    let cfg = load_config(Some(text), Platform::Windows);
    assert_eq!(cfg.language, "zh-CN");
    assert!(cfg.passwords.is_empty());
}

#[test]
fn render_writes_the_three_sections() {
    let pw = vec!["a".to_string(), "b".to_string()];
    let text = render_config(&pw, "C:\\7z", "/usr/bin", "en-GB", "https://h/", "u", "p", Platform::Windows);
    assert_eq!(
        text,
        "[settings]\n7zip_dir_windows=C:\\7z\n7zip_dir_macos=/usr/bin\nlanguage=en-GB\n\n[webdav]\nurl=https://h/\nuser=u\npass=p\n\n[passwords]\na\nb\n"
    );
    let mac = render_config(&pw, "/usr/bin", "C:\\7z", "", "", "", "", Platform::MacOs);
    assert!(mac.starts_with("[settings]\n7zip_dir_macos=/usr/bin\n7zip_dir_windows=C:\\7z\n"));
}

#[test]
fn saved_configuration_loads_back() {
    let pw = vec!["zeta".to_string(), "alpha beta".to_string(), "密码".to_string()];
    for platform in [Platform::Windows, Platform::MacOs] {
        let text = render_config(&pw, "D:\\Tools\\7-Zip", "/opt/7z", "zh-TW", "https://dav/x", "bob", "pa=ss", platform);
        let cfg = load_config(Some(text.as_str()), platform);
        assert_eq!(cfg.passwords, pw);
        assert_eq!(cfg.seven_zip_dir, "D:\\Tools\\7-Zip");
        assert_eq!(cfg.seven_zip_dir_other, "/opt/7z");
        assert_eq!(cfg.language, "zh-TW");
        assert_eq!(cfg.webdav_url, "https://dav/x");
        assert_eq!(cfg.webdav_user, "bob");
        assert_eq!(cfg.webdav_pass, "pa=ss");
        assert!(!cfg.first_run);
        assert!(!cfg.migrated);
    }
}

#[test]
fn saving_the_state_writes_its_fields() {
    let state = AppState {
        passwords: vec!["x".to_string()],
        seven_zip_dir: "/a".to_string(),
        seven_zip_dir_other: "C:\\b".to_string(),
        language: "auto".to_string(),
        needs_setup: false,
        webdav_url: String::new(),
        webdav_user: String::new(),
        webdav_pass: String::new(),
    };
    let text = save_all(&state, Platform::MacOs);
    assert_eq!(
        text,
        "[settings]\n7zip_dir_macos=/a\n7zip_dir_windows=C:\\b\nlanguage=auto\n\n[webdav]\nurl=\nuser=\npass=\n\n[passwords]\nx\n"
    );
}

#[test]
fn startup_clears_an_unusable_dir() {
    let cfg = load_config(Some("[settings]\n7zip_dir_windows=C:\\gone\n"), Platform::Windows);
    let s = startup_state(cfg, true, false, false);
    assert!(s.cleared_dir);
    assert!(s.save_needed);
    assert_eq!(s.state.seven_zip_dir, "");
    assert!(s.state.needs_setup);

    let cfg = load_config(Some("[settings]\n7zip_dir_windows=C:\\gone\n"), Platform::Windows);
    let s = startup_state(cfg, true, false, true);
    assert!(s.cleared_dir);
    assert!(!s.state.needs_setup);

    let cfg = load_config(None, Platform::Windows);
    let s = startup_state(cfg, true, true, false);
    assert!(!s.cleared_dir);
    assert!(s.state.needs_setup);

    let cfg = load_config(Some("[settings]\n7zip_dir_windows=C:\\7z\n"), Platform::Windows);
    let s = startup_state(cfg, true, true, false);
    assert!(!s.cleared_dir);
    assert!(!s.state.needs_setup);
    assert_eq!(s.state.seven_zip_dir, "C:\\7z");
}

#[test]
fn first_launch_creates_the_file_and_asks_for_setup() {
    // No configuration file yet, 7-Zip found on the search path: the file
    // is still written and the user is still asked for the 7-Zip directory.
    let cfg = load_config(None, Platform::Windows);
    let s = startup_state(cfg, false, true, true);
    assert!(s.save_needed);
    assert!(s.state.needs_setup);
    assert!(!s.cleared_dir);
    assert_eq!(
        save_all(&s.state, Platform::Windows),
        "[settings]\n7zip_dir_windows=\n7zip_dir_macos=\nlanguage=\n\n[webdav]\nurl=\nuser=\npass=\n\n[passwords]\n"
    );

    // Later launches with the file in place and 7-Zip on the search path
    // need no setup and write nothing.
    let cfg = load_config(Some(&save_all(&s.state, Platform::Windows)), Platform::Windows);
    let s = startup_state(cfg, true, true, true);
    assert!(!s.save_needed);
    assert!(!s.state.needs_setup);
}

#[test]
fn migrated_config_is_saved_again() {
    let cfg = load_config(Some("[settings]\n7zip_dir=C:\\7z\n"), Platform::Windows);
    assert!(cfg.migrated);
    let s = startup_state(cfg, true, true, false);
    assert!(s.save_needed);
    assert!(!s.cleared_dir);
    assert_eq!(s.state.seven_zip_dir, "C:\\7z");
}
