use hope_core::menu_labels::{
    language_from_locale, macos_app_menu_labels, parse_preferred_language, resolve_language_from,
    tray_labels,
};

#[test]
fn macos_app_menu_labels_follow_simplified_chinese() {
    let labels = macos_app_menu_labels("zh");
    assert_eq!(labels.about, "关于 Hope Agent");
    assert_eq!(labels.settings, "设置...");
    assert_eq!(labels.hide, "隐藏 Hope Agent");
}

#[test]
fn macos_app_menu_labels_fall_back_to_english() {
    let labels = macos_app_menu_labels("fr");
    assert_eq!(labels.about, "About Hope Agent");
    assert_eq!(labels.settings, "Settings...");
    assert_eq!(labels.hide, "Hide Hope Agent");
}

#[test]
fn tray_labels_still_match_existing_english_defaults() {
    let labels = tray_labels("en");
    assert_eq!(labels.show_main, "Show Main Window");
    assert_eq!(labels.quick_chat, "Quick Chat");
    assert_eq!(labels.new_session, "New Session");
    assert_eq!(labels.settings, "Settings");
    assert_eq!(labels.quit, "Quit Hope Agent");
}

#[test]
fn tray_labels_traditional_chinese_and_japanese() {
    assert_eq!(tray_labels("zh-TW").settings, "設定");
    assert_eq!(tray_labels("zh-CN").quick_chat, "快捷对话");
    assert_eq!(tray_labels("ja").quit, "Hope Agent を終了");
}

#[test]
fn locale_to_language_code() {
    assert_eq!(language_from_locale("zh_CN.UTF-8"), "zh");
    assert_eq!(language_from_locale("zh_TW.UTF-8"), "zh-TW");
    assert_eq!(language_from_locale("zh-Hant-HK"), "zh-TW");
    assert_eq!(language_from_locale("zh-HK"), "zh-TW");
    assert_eq!(language_from_locale("pt-BR"), "pt");
    assert_eq!(language_from_locale("fr_FR.UTF-8"), "en");
    assert_eq!(language_from_locale(""), "en");
}

#[test]
fn preferred_language_from_defaults_output() {
    let out = "(\n    \"ja-JP\",\n    \"en-US\"\n)\n";
    assert_eq!(parse_preferred_language(out), Some("ja-JP".to_string()));
    assert_eq!(parse_preferred_language("(\n)\n"), None);
    assert_eq!(
        resolve_language_from("auto", &Some(out.to_string()), &None),
        "ja"
    );
    assert_eq!(resolve_language_from("auto", &None, &Some("ko_KR.UTF-8".to_string())), "ko");
    assert_eq!(resolve_language_from("auto", &None, &None), "en");
    assert_eq!(resolve_language_from("es", &None, &None), "es");
}
