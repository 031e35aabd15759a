use yauz::sevenzip::{extract_args, extract_outcome, password_required, seven_zip_version, seven_zip_version_from_output, test_args, version_args};

#[test]
fn version_of_standard_build() {
    let out = "\n7-Zip 24.09 (x64) : Copyright (c) 1999-2024 Igor Pavlov : 2024-11-29\n\nLibs:\n";
    assert_eq!(seven_zip_version_from_output(out), "24.09");
}

#[test]
fn version_of_zstandard_build() {
    let out = "7-Zip 26.00 ZS v1.5.7 (x64) : Copyright (c) 1999-2025 Igor Pavlov\n";
    assert_eq!(seven_zip_version_from_output(out), "26.00 ZS v1.5.7");
}

#[test]
fn version_of_macos_7zz() {
    let out = "\r\n7-Zip (z) 24.09 (arm64) : Copyright (c) 1999-2024 Igor Pavlov\r\n";
    assert_eq!(seven_zip_version_from_output(out), "24.09 (z)");
}

#[test]
fn version_unknown_without_banner() {
    assert_eq!(seven_zip_version_from_output("usage: 7z\n7-Zip\n"), "?");
    assert_eq!(seven_zip_version(b""), "?");
    assert_eq!(seven_zip_version(b"7-Zip 23.01 (x86)\n"), "23.01");
}

#[test]
fn encrypted_archives_are_recognised() {
    assert!(password_required(b"ERROR: Wrong password : file.txt", b""));
    assert!(password_required(b"", b"Cannot open encrypted archive. Wrong password?"));
    assert!(password_required(b"Enter password (will not be echoed):", b""));
    assert!(password_required(b"Encry", b"pted = +"));
    assert!(!password_required(b"Everything is Ok", b""));
}

#[test]
fn command_lines() {
    assert_eq!(extract_args("a.7z", "/out", None), vec!["x", "a.7z", "-o/out", "-aoa"]);
    assert_eq!(extract_args("a.7z", "/out", Some("pw")), vec!["x", "a.7z", "-o/out", "-aoa", "-ppw"]);
    assert_eq!(test_args("a.7z"), vec!["t", "a.7z", "-p-"]);
    assert_eq!(version_args(), vec!["i"]);
}

#[test]
fn extraction_outcomes() {
    assert_eq!(extract_outcome(Some(0), b"ok", b""), (true, String::new()));
    assert_eq!(extract_outcome(Some(2), b"out\n", b"ERROR: x"), (false, "out\nERROR: x".to_string()));
    assert_eq!(extract_outcome(None, b"", b"killed"), (false, "killed".to_string()));
    assert_eq!(extract_outcome(Some(1), &[0x66, 0xff], b""), (false, "f\u{fffd}".to_string()));
}
