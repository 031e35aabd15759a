use yauz::webdav::{webdav_dir_url, webdav_file_url, webdav_mkcol_outcome, webdav_pull_outcome, webdav_push_outcome, webdav_sync_url_check, webdav_test_outcome, webdav_test_url_check};

#[test]
fn urls_on_the_server() {
    assert_eq!(webdav_dir_url("https://dav.example.com/remote.php/webdav/"), "https://dav.example.com/remote.php/webdav/YAUZ/");
    assert_eq!(webdav_file_url("https://dav.example.com//"), "https://dav.example.com/YAUZ/yauz_config.ini");
    assert_eq!(webdav_file_url("https://h"), "https://h/YAUZ/yauz_config.ini");
    assert_eq!(webdav_dir_url(""), "/YAUZ/");
}

#[test]
fn connection_test_outcomes() {
    assert_eq!(webdav_test_outcome(200), Ok(()));
    assert_eq!(webdav_test_outcome(204), Ok(()));
    assert_eq!(webdav_test_outcome(401), Err("auth_fail".to_string()));
    assert_eq!(webdav_test_outcome(403), Err("auth_fail".to_string()));
    assert_eq!(webdav_test_outcome(404), Err("HTTP 404 Not Found".to_string()));
    assert_eq!(webdav_test_outcome(599), Err("HTTP 599 <unknown status code>".to_string()));
}

#[test]
fn directory_creation_outcomes() {
    assert_eq!(webdav_mkcol_outcome(201), Ok(()));
    assert_eq!(webdav_mkcol_outcome(405), Ok(()));
    assert_eq!(webdav_mkcol_outcome(200), Ok(()));
    assert_eq!(webdav_mkcol_outcome(301), Err("MKCOL HTTP 301 Moved Permanently".to_string()));
}

#[test]
fn upload_and_download_outcomes() {
    assert_eq!(webdav_push_outcome(204), Ok(()));
    assert_eq!(webdav_push_outcome(507), Err("HTTP 507 Insufficient Storage".to_string()));
    assert_eq!(webdav_pull_outcome(200), Ok(()));
    assert_eq!(webdav_pull_outcome(404), Err("HTTP 404 Not Found".to_string()));
}

#[test]
fn url_checks() {
    assert_eq!(webdav_test_url_check(""), Err("URL is empty".to_string()));
    assert_eq!(webdav_test_url_check("h"), Ok(()));
    assert_eq!(webdav_sync_url_check(""), Err("WebDAV URL not configured".to_string()));
    assert_eq!(webdav_sync_url_check("h"), Ok(()));
}
