use codex_hosts::i18n::{check_languages, find_language, replace_all, Catalog, Entry, Fill};
use codex_hosts::text::decimal_string;

#[test]
fn selects_supported_system_language_family() {
    assert_eq!(Catalog::for_locale(Some("zh-Hans-SG")).locale(), "zh-CN");
    assert_eq!(Catalog::for_locale(Some("ja-JP")).locale(), "ja");
    assert_eq!(Catalog::for_locale(Some("fr-FR")).locale(), "en");
}

#[test]
fn every_embedded_catalog_is_loadable() {
    for language in Catalog::available() {
        let catalog = Catalog::for_locale(Some(language.locale.as_str()));
        assert!(!catalog.text("app_title").is_empty());
    }
}

#[test]
fn exit_menu_labels_are_concise() {
    for (locale, expected) in [
        ("en", "Exit"),
        ("ja", "終了"),
        ("zh-CN", "退出"),
        ("zh-TW", "退出"),
    ] {
        assert_eq!(
            Catalog::for_locale(Some(locale)).text("tray_exit"),
            expected
        );
    }
}

#[test]
fn the_system_locale_picks_one_of_the_languages() {
    let own = Catalog::for_locale(None);
    assert!(Catalog::available()
        .iter()
        .any(|language| language.locale == own.locale()));
}

#[test]
fn languages_are_complete_and_placeholders_are_filled() {
    let languages = Catalog::available();
    assert!(check_languages(&languages));
    assert_eq!(find_language(&languages, "ZH_tw"), Some(3));
    assert_eq!(replace_all("{a} and {a}", "{a}", "x{a}"), "x{a} and x{a}");
    assert_eq!(replace_all("plain", "{a}", "x"), "plain");
    let fills = vec![Fill {
        name: "count",
        value: decimal_string(3),
    }];
    let catalog = Catalog::for_locale(Some("en"));
    assert_eq!(catalog.format("app_title", &fills), "Codex Hosts");
    let catalog = Catalog {
        locale: "en".into(),
        strings: vec![Entry {
            key: "k".into(),
            value: "{count} of {all}, {count}".into(),
        }],
    };
    assert_eq!(catalog.format("k", &fills), "3 of {all}, 3");
    assert_eq!(catalog.format("k", &vec![]), "{count} of {all}, {count}");
    let own = Catalog::for_locale_among(&languages, Some("ja-JP"));
    assert_eq!(own.locale(), "ja");
}
