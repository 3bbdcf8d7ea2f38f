use sidescreen::i18n::{LanguageFile, Translations};

fn file(code: &str, name: &str, strings: &[(&str, &str)]) -> LanguageFile {
    LanguageFile {
        code: code.to_owned(),
        name: name.to_owned(),
        strings: strings
            .iter()
            .map(|(key, text)| (key.to_string(), text.to_string()))
            .collect(),
    }
}

fn sample() -> Vec<LanguageFile> {
    vec![
        file("en_US", "English", &[("action.start", "Start"), ("tray.quit", "Quit")]),
        file("zh_CN", "简体中文", &[("action.start", "开始"), ("tray.about", "关于")]),
        file("de_DE", "Deutsch", &[]),
    ]
}

#[test]
fn requested_language_becomes_active() {
    let translations = Translations::from_files(sample(), "zh_CN");
    assert_eq!(translations.active_index(), 1);
    assert_eq!(translations.language_code(), "zh_CN");
    assert_eq!(translations.text("action.start"), "开始");
}

#[test]
fn unknown_language_falls_back_to_english() {
    let translations = Translations::from_files(sample(), "fr_FR");
    assert_eq!(translations.language_code(), "en_US");
}

#[test]
fn without_english_the_first_language_is_used() {
    let files = vec![file("ja_JP", "日本語", &[]), file("zh_CN", "简体中文", &[])];
    let translations = Translations::from_files(files, "fr_FR");
    assert_eq!(translations.active_index(), 0);
}

#[test]
fn missing_text_falls_back_to_chinese_then_to_the_key() {
    let translations = Translations::from_files(sample(), "en_US");
    assert_eq!(translations.text("tray.about"), "关于");
    assert_eq!(translations.text("no.such.key"), "no.such.key");
}

#[test]
fn english_text_is_not_a_fallback() {
    let translations = Translations::from_files(sample(), "zh_CN");
    assert_eq!(translations.text("tray.quit"), "tray.quit");
}

#[test]
fn select_ignores_an_index_past_the_end() {
    let mut translations = Translations::from_files(sample(), "en_US");
    translations.select(2);
    assert_eq!(translations.language_code(), "de_DE");
    assert_eq!(translations.text("action.start"), "开始");
    translations.select(7);
    assert_eq!(translations.active_index(), 2);
}

#[test]
fn language_names_keep_the_file_order() {
    let translations = Translations::from_files(sample(), "en_US");
    assert_eq!(translations.language_names(), vec!["English", "简体中文", "Deutsch"]);
}
