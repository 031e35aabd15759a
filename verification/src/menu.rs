//! The language of the macOS application menu and the menu's labels.
use vstd::prelude::*;
use crate::config::chars_eq;
use crate::text::{chars_of, contains_chars, contains_str, lemma_find_str_spec, starts_with};

verus! {

/// The languages the menu is translated into.
#[derive(Clone, Copy, Debug, PartialEq, Eq)]
pub enum MenuLanguage {
    SimplifiedChinese,
    TraditionalChinese,
    BritishEnglish,
}

/// The language setting names a language unless it is empty or `auto`.
pub open spec fn explicit_language(setting: Seq<char>) -> bool {
    setting.len() > 0 && setting != "auto"@
}

/// The configured language when one is set explicitly; `None` means the
/// system's preferred languages decide.
pub fn configured_menu_language(setting: &str) -> (r: Option<String>)
    ensures
        explicit_language(setting@) ==> (r matches Some(l) && l@ == setting@),
        !explicit_language(setting@) ==> r is None,
{
    let v = chars_of(setting);
    if v.len() > 0 && !chars_eq(&v, &chars_of("auto")) {
        Some(String::from_str(setting))
    } else {
        None
    }
}

/// The language code that the system's preferred-language list (the output
/// of `defaults read -g AppleLanguages`) selects: Simplified Chinese when it
/// mentions `zh-Hans`, `zh-CN` or `"zh"`, else Traditional Chinese when it
/// mentions `zh-Hant`, `zh-TW` or `zh-HK`, else British English.
pub open spec fn system_menu_language_spec(output: Seq<char>) -> Seq<char> {
    if contains_str(output, "zh-Hans"@) || contains_str(output, "zh-CN"@) || contains_str(
        output,
        "\"zh\""@,
    ) {
        "zh-CN"@
    } else if contains_str(output, "zh-Hant"@) || contains_str(output, "zh-TW"@) || contains_str(
        output,
        "zh-HK"@,
    ) {
        "zh-TW"@
    } else {
        "en-GB"@
    }
}

pub fn system_menu_language(apple_languages: &str) -> (code: String)
    ensures
        code@ == system_menu_language_spec(apple_languages@),
{
    let o = chars_of(apple_languages);
    if contains_chars(&o, &chars_of("zh-Hans")) || contains_chars(&o, &chars_of("zh-CN"))
        || contains_chars(&o, &chars_of("\"zh\"")) {
        String::from_str("zh-CN")
    } else if contains_chars(&o, &chars_of("zh-Hant")) || contains_chars(&o, &chars_of("zh-TW"))
        || contains_chars(&o, &chars_of("zh-HK")) {
        String::from_str("zh-TW")
    } else {
        String::from_str("en-GB")
    }
}

/// The translation a language code selects: `zh-CN` and `zh-TW` have their
/// own, every other code gets British English.
pub open spec fn menu_language_of(code: Seq<char>) -> MenuLanguage {
    if code == "zh-CN"@ {
        MenuLanguage::SimplifiedChinese
    } else if code == "zh-TW"@ {
        MenuLanguage::TraditionalChinese
    } else {
        MenuLanguage::BritishEnglish
    }
}

pub fn menu_language(code: &str) -> (l: MenuLanguage)
    ensures
        l == menu_language_of(code@),
{
    let v = chars_of(code);
    if chars_eq(&v, &chars_of("zh-CN")) {
        MenuLanguage::SimplifiedChinese
    } else if chars_eq(&v, &chars_of("zh-TW")) {
        MenuLanguage::TraditionalChinese
    } else {
        MenuLanguage::BritishEnglish
    }
}

/// The labels of the application menu.
pub struct MenuLabels {
    pub file: &'static str,
    pub open_file: &'static str,
    pub about: &'static str,
    pub edit: &'static str,
    pub view: &'static str,
    pub window: &'static str,
    pub undo: &'static str,
    pub redo: &'static str,
    pub cut: &'static str,
    pub copy: &'static str,
    pub paste: &'static str,
    pub select_all: &'static str,
    pub minimize: &'static str,
    pub zoom: &'static str,
    pub fullscreen: &'static str,
    pub close: &'static str,
    pub hide: &'static str,
    pub hide_others: &'static str,
    pub quit: &'static str,
    pub services: &'static str,
}

/// The labels in the order of the fields of `MenuLabels`.
pub open spec fn labels_seq(m: MenuLabels) -> Seq<Seq<char>> {
    seq![
        m.file@, m.open_file@, m.about@, m.edit@, m.view@, m.window@, m.undo@, m.redo@, m.cut@,
        m.copy@, m.paste@, m.select_all@, m.minimize@, m.zoom@, m.fullscreen@, m.close@, m.hide@,
        m.hide_others@, m.quit@, m.services@,
    ]
}

/// The translations of the menu labels.
pub open spec fn menu_labels_spec(l: MenuLanguage) -> Seq<Seq<char>> {
    match l {
        MenuLanguage::SimplifiedChinese => seq![
            "文件"@, "打开文件..."@, "关于 YAUZ"@, "编辑"@, "显示"@, "窗口"@, "撤销"@,
            "重做"@, "剪切"@, "拷贝"@, "粘贴"@, "全选"@, "最小化"@, "缩放"@,
            "进入全屏幕"@, "关闭窗口"@, "隐藏 YAUZ"@, "隐藏其他"@, "退出 YAUZ"@, "服务"@,
        ],
        MenuLanguage::TraditionalChinese => seq![
            "檔案"@, "開啟檔案..."@, "關於 YAUZ"@, "編輯"@, "顯示方式"@, "視窗"@, "還原"@,
            "重做"@, "剪下"@, "拷貝"@, "貼上"@, "全選"@, "縮到最小"@, "縮放"@,
            "進入全螢幕"@, "關閉視窗"@, "隱藏 YAUZ"@, "隱藏其他"@, "結束 YAUZ"@, "服務"@,
        ],
        MenuLanguage::BritishEnglish => seq![
            "File"@, "Open File..."@, "About YAUZ"@, "Edit"@, "View"@, "Window"@, "Undo"@,
            "Redo"@, "Cut"@, "Copy"@, "Paste"@, "Select All"@, "Minimise"@, "Zoom"@,
            "Enter Full Screen"@, "Close Window"@, "Hide YAUZ"@, "Hide Others"@, "Quit YAUZ"@,
            "Services"@,
        ],
    }
}

/// The menu labels in the given language.
pub fn menu_labels(l: MenuLanguage) -> (m: MenuLabels)
    ensures
        labels_seq(m) == menu_labels_spec(l),
{
    match l {
        MenuLanguage::SimplifiedChinese => MenuLabels {
            file: "文件",
            open_file: "打开文件...",
            about: "关于 YAUZ",
            edit: "编辑",
            view: "显示",
            window: "窗口",
            undo: "撤销",
            redo: "重做",
            cut: "剪切",
            copy: "拷贝",
            paste: "粘贴",
            select_all: "全选",
            minimize: "最小化",
            zoom: "缩放",
            fullscreen: "进入全屏幕",
            close: "关闭窗口",
            hide: "隐藏 YAUZ",
            hide_others: "隐藏其他",
            quit: "退出 YAUZ",
            services: "服务",
        },
        MenuLanguage::TraditionalChinese => MenuLabels {
            file: "檔案",
            open_file: "開啟檔案...",
            about: "關於 YAUZ",
            edit: "編輯",
            view: "顯示方式",
            window: "視窗",
            undo: "還原",
            redo: "重做",
            cut: "剪下",
            copy: "拷貝",
            paste: "貼上",
            select_all: "全選",
            minimize: "縮到最小",
            zoom: "縮放",
            fullscreen: "進入全螢幕",
            close: "關閉視窗",
            hide: "隱藏 YAUZ",
            hide_others: "隱藏其他",
            quit: "結束 YAUZ",
            services: "服務",
        },
        MenuLanguage::BritishEnglish => MenuLabels {
            file: "File",
            open_file: "Open File...",
            about: "About YAUZ",
            edit: "Edit",
            view: "View",
            window: "Window",
            undo: "Undo",
            redo: "Redo",
            cut: "Cut",
            copy: "Copy",
            paste: "Paste",
            select_all: "Select All",
            minimize: "Minimise",
            zoom: "Zoom",
            fullscreen: "Enter Full Screen",
            close: "Close Window",
            hide: "Hide YAUZ",
            hide_others: "Hide Others",
            quit: "Quit YAUZ",
            services: "Services",
        },
    }
}

/// `p` occurs somewhere in `s`.
pub open spec fn mentions(s: Seq<char>, p: Seq<char>) -> bool {
    exists|k: int| 0 <= k <= s.len() && #[trigger] starts_with(s.skip(k), p)
}

proof fn lemma_contains_is_mentions(s: Seq<char>, p: Seq<char>)
    ensures
        contains_str(s, p) == mentions(s, p),
{
    lemma_find_str_spec(s, p);
    if let Some(i) = crate::text::find_str(s, p) {
        assert(starts_with(s.skip(i), p));
    }
}

/// The menu follows the system's preferred languages: a list that mentions
/// Simplified Chinese (`zh-Hans`, `zh-CN` or `"zh"`) gets the Simplified
/// Chinese menu; otherwise one that mentions Traditional Chinese (`zh-Hant`,
/// `zh-TW` or `zh-HK`) gets the Traditional Chinese menu; any other list
/// gets the British English one.
pub proof fn law_system_menu_language(output: Seq<char>)
    ensures
        (mentions(output, "zh-Hans"@) || mentions(output, "zh-CN"@) || mentions(
            output,
            "\"zh\""@,
        )) ==> system_menu_language_spec(output) == "zh-CN"@ && menu_language_of(
            system_menu_language_spec(output),
        ) == MenuLanguage::SimplifiedChinese,
        (!mentions(output, "zh-Hans"@) && !mentions(output, "zh-CN"@) && !mentions(
            output,
            "\"zh\""@,
        ) && (mentions(output, "zh-Hant"@) || mentions(output, "zh-TW"@) || mentions(
            output,
            "zh-HK"@,
        ))) ==> system_menu_language_spec(output) == "zh-TW"@ && menu_language_of(
            system_menu_language_spec(output),
        ) == MenuLanguage::TraditionalChinese,
        (!mentions(output, "zh-Hans"@) && !mentions(output, "zh-CN"@) && !mentions(
            output,
            "\"zh\""@,
        ) && !mentions(output, "zh-Hant"@) && !mentions(output, "zh-TW"@) && !mentions(
            output,
            "zh-HK"@,
        )) ==> system_menu_language_spec(output) == "en-GB"@ && menu_language_of(
            system_menu_language_spec(output),
        ) == MenuLanguage::BritishEnglish,
{
    lemma_contains_is_mentions(output, "zh-Hans"@);
    lemma_contains_is_mentions(output, "zh-CN"@);
    lemma_contains_is_mentions(output, "\"zh\""@);
    lemma_contains_is_mentions(output, "zh-Hant"@);
    lemma_contains_is_mentions(output, "zh-TW"@);
    lemma_contains_is_mentions(output, "zh-HK"@);
    reveal_strlit("zh-CN");
    reveal_strlit("zh-TW");
    reveal_strlit("en-GB");
    assert("en-GB"@ != "zh-CN"@ && "en-GB"@ != "zh-TW"@) by {
        assert("en-GB"@[0] != "zh-CN"@[0]);
    }
    assert("zh-TW"@ != "zh-CN"@) by {
        assert("zh-TW"@[3] != "zh-CN"@[3]);
    }
}

} // verus!
