use waddle::fonts::{
    choose_family, config_directories, ini_value, is_kde_desktop, kde_font_family, matching_family,
    split_chars,
};

#[test]
fn parses_multiword_families_without_confusing_styles_or_digits() {
    let families = ["Noto Sans", "Noto Sans Mono", "DIN 1451"];
    assert_eq!(
        matching_family("Noto Sans Mono Bold 11", &families),
        Some("Noto Sans Mono")
    );
    assert_eq!(
        matching_family("DIN 1451 10.5", &families),
        Some("DIN 1451")
    );
    assert_eq!(matching_family("Noto Sansish 11", &families), None);
    assert_eq!(matching_family("Missing Font 11", &families), None);
}

#[test]
fn reads_gtk_and_kde_settings_from_the_right_section() {
    assert_eq!(
        ini_value(
            "[Other]\ngtk-font-name=Wrong 12\n[Settings]\ngtk-font-name=\"Adwaita Sans 11\"",
            "Settings",
            "gtk-font-name"
        )
        .as_deref(),
        Some("Adwaita Sans 11")
    );
    assert_eq!(
        ini_value(
            "[General]\nfont=Noto Sans,10,-1,5,50,0\nfixed=Noto Sans Mono,10,-1,5,50,0",
            "General",
            "font"
        )
        .as_deref(),
        Some("Noto Sans,10,-1,5,50,0")
    );
    assert_eq!(
        ini_value("[Settings]\ngtk-font-name=", "Settings", "gtk-font-name"),
        None
    );
}

#[test]
fn families_match_case_insensitively_and_prefer_the_last_of_equals() {
    let families = ["noto sans", "Other", "NOTO SANS"];
    assert_eq!(matching_family("  Noto Sans 12  ", &families), Some("NOTO SANS"));
    assert_eq!(matching_family("Other", &families), Some("Other"));
    assert_eq!(matching_family("", &families), None);
    assert_eq!(matching_family("Noto Sans", &[]), None);
}

#[test]
fn ini_reading_handles_crlf_spacing_and_later_sections() {
    let text = "[Settings]\r\n  key = \"\"value\"\" \r\n[Other]\r\nkey=ignored\r\n";
    assert_eq!(ini_value(text, "Settings", "key").as_deref(), Some("value"));
    let twice = "[S]\nk=one\n[T]\nk=two\n[S]\nk=three";
    assert_eq!(ini_value(twice, "S", "k").as_deref(), Some("three"));
    assert_eq!(ini_value("k=outside", "S", "k"), None);
    assert_eq!(ini_value("[S]\nk=one\nk=\"\"", "S", "k"), None);
    assert_eq!(ini_value("[S]\nnot a setting\n[", "S", "k"), None);
}

#[test]
fn family_choice_prefers_the_description_then_fontconfig_then_the_bundled_font() {
    let available = ["Waddle Sans", "Example Desktop Sans", "DejaVu Sans"];
    assert_eq!(
        choose_family(&available, Some("Example Desktop Sans Bold 11"), None, "Waddle Sans"),
        Some("Example Desktop Sans".to_owned())
    );
    assert_eq!(
        choose_family(&available, Some("Missing Font 11"), Some("dejavu sans"), "Waddle Sans"),
        Some("DejaVu Sans".to_owned())
    );
    assert_eq!(
        choose_family(&available, Some("Missing Font 11"), Some("Missing"), "Waddle Sans"),
        Some("Waddle Sans".to_owned())
    );
    assert_eq!(choose_family(&available, None, None, "Waddle Mono"), None);
}

#[test]
fn kde_settings_are_recognised_and_read() {
    assert!(is_kde_desktop("KDE"));
    assert!(is_kde_desktop("ubuntu:kde"));
    assert!(!is_kde_desktop("GNOME"));
    assert!(!is_kde_desktop(""));
    assert_eq!(kde_font_family("Noto Sans,10,-1,5,50,0,0,0,0,0"), Some("Noto Sans".to_owned()));
    assert_eq!(kde_font_family("  Hack  "), Some("Hack".to_owned()));
    assert_eq!(kde_font_family(" ,10"), None);
}

#[test]
fn settings_folders_follow_the_xdg_variables() {
    assert_eq!(
        config_directories(Some("/cfg"), Some("/home/me"), Some("/a:/b")),
        ["/cfg", "/a", "/b"]
    );
    assert_eq!(
        config_directories(Some(""), Some("/home/me"), None),
        ["/home/me/.config", "/etc/xdg"]
    );
    assert_eq!(config_directories(None, None, Some("")), ["/etc/xdg"]);
    assert_eq!(split_chars("a::b", ':'), ["a", "", "b"]);
}
