use yauz::menu::{configured_menu_language, menu_labels, menu_language, system_menu_language, MenuLanguage};
use yauz::platform::{current_platform_key, other_platform_key, resolve_seven_zip_exe, seven_zip_exe_names, seven_zip_search_dirs, webview2_version_installed, Platform};

#[test]
fn platform_keys() {
    assert_eq!(current_platform_key(Platform::Windows), "windows");
    assert_eq!(other_platform_key(Platform::Windows), "macos");
    assert_eq!(current_platform_key(Platform::MacOs), "macos");
    assert_eq!(other_platform_key(Platform::MacOs), "windows");
}

#[test]
fn seven_zip_executable_names() {
    assert_eq!(seven_zip_exe_names(Platform::Windows), ("7z.exe", "7zz.exe"));
    assert_eq!(seven_zip_exe_names(Platform::MacOs), ("7z", "7zz"));
    assert_eq!(resolve_seven_zip_exe(Platform::Windows, true), "7z.exe");
    assert_eq!(resolve_seven_zip_exe(Platform::Windows, false), "7zz.exe");
    assert_eq!(resolve_seven_zip_exe(Platform::MacOs, false), "7zz");
}

#[test]
fn webview2_versions() {
    assert!(webview2_version_installed("120.0.2210.91"));
    assert!(!webview2_version_installed("0.0.0.0"));
    assert!(!webview2_version_installed(""));
}

#[test]
fn menu_language_choice() {
    assert_eq!(configured_menu_language("zh-TW"), Some("zh-TW".to_string()));
    assert_eq!(configured_menu_language("auto"), None);
    assert_eq!(configured_menu_language(""), None);
    assert_eq!(system_menu_language("(\n    \"zh-Hans-CN\",\n    \"en-GB\"\n)"), "zh-CN");
    assert_eq!(system_menu_language("(\n    \"zh\"\n)"), "zh-CN");
    assert_eq!(system_menu_language("(\n    \"zh-HK\"\n)"), "zh-TW");
    assert_eq!(system_menu_language("(\n    \"en-US\"\n)"), "en-GB");
    assert_eq!(system_menu_language(""), "en-GB");
    assert_eq!(menu_language("zh-CN"), MenuLanguage::SimplifiedChinese);
    assert_eq!(menu_language("zh-TW"), MenuLanguage::TraditionalChinese);
    assert_eq!(menu_language("fr"), MenuLanguage::BritishEnglish);
}

#[test]
fn menu_label_tables() {
    let en = menu_labels(MenuLanguage::BritishEnglish);
    assert_eq!(en.minimize, "Minimise");
    assert_eq!(en.quit, "Quit YAUZ");
    let cn = menu_labels(MenuLanguage::SimplifiedChinese);
    assert_eq!(cn.file, "文件");
    assert_eq!(cn.services, "服务");
    let tw = menu_labels(MenuLanguage::TraditionalChinese);
    assert_eq!(tw.view, "顯示方式");
}

#[test]
fn seven_zip_search_directories() {
    let path = vec!["/usr/bin".to_string(), "/usr/local/bin".to_string()];
    assert_eq!(
        seven_zip_search_dirs(&path, Platform::MacOs),
        vec!["/usr/bin", "/usr/local/bin", "/opt/homebrew/bin", "/opt/homebrew/sbin", "/usr/local/sbin"]
    );
    assert_eq!(seven_zip_search_dirs(&path, Platform::Windows), vec!["/usr/bin", "/usr/local/bin"]);
    assert_eq!(
        seven_zip_search_dirs(&Vec::new(), Platform::MacOs),
        vec!["/opt/homebrew/bin", "/usr/local/bin", "/opt/homebrew/sbin", "/usr/local/sbin"]
    );
}
