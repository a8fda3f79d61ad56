use spicetify_guard::config::get_versions_from_config_from_string;

fn some(s: &str) -> Option<String> {
    Some(s.to_string())
}

#[test]
fn test_get_versions_from_config_prop() {
    let samples: Vec<Option<&str>> = vec![
        None,
        Some("1.2"),
        Some("1.2.3"),
        Some("10.99.123"),
        Some("0.0.0.1"),
        Some("99.9"),
    ];
    for version in &samples {
        for with in &samples {
            let mut content = String::from("[Backup]\n");
            if let Some(v) = version {
                content.push_str(&format!("version = {}\n", v));
            }
            if let Some(w) = with {
                content.push_str(&format!("with = {}\n", w));
            }
            let (pv, pw) = get_versions_from_config_from_string(&content);
            assert_eq!(pv, version.map(|s| s.to_string()));
            assert_eq!(pw, with.map(|s| s.to_string()));
        }
    }
}

#[test]
fn backup_section_values_are_trimmed() {
    let text = "[Backup]\nversion =   1.2.3  \nwith =\t4.5.6\n";
    assert_eq!(get_versions_from_config_from_string(text), (some("1.2.3"), some("4.5.6")));
}

#[test]
fn no_backup_section_gives_nothing() {
    let text = "[Setting]\nversion = 1.2.3\nwith = 1.2.3\n";
    assert_eq!(get_versions_from_config_from_string(text), (None, None));
    assert_eq!(get_versions_from_config_from_string(""), (None, None));
}

#[test]
fn keys_before_the_section_are_ignored() {
    let text = "version = 9.9\nwith = 9.9\n[Backup]\nwith = 1.0\n";
    assert_eq!(get_versions_from_config_from_string(text), (None, some("1.0")));
}

#[test]
fn two_equals_signs_do_not_set_current() {
    let text = "[Backup]\nversion = A = B\nwith = 1.2.3\n";
    assert_eq!(get_versions_from_config_from_string(text), (None, some("1.2.3")));
    let text = "[Backup]\nversion = 1.0\nversion = A = B\n";
    assert_eq!(get_versions_from_config_from_string(text), (some("1.0"), None));
}

#[test]
fn line_without_equals_is_ignored() {
    let text = "[Backup]\nversion 1.2.3\nwith = 2\n";
    assert_eq!(get_versions_from_config_from_string(text), (None, some("2")));
}

#[test]
fn next_section_ends_the_scan() {
    let text = "[Backup]\nversion = 1.2.3\n[Other]\nwith = 4.5.6\nversion = 7.7.7\n";
    assert_eq!(get_versions_from_config_from_string(text), (some("1.2.3"), None));
}

#[test]
fn crlf_lines_and_indented_header() {
    let text = "[Setting]\r\nx = 1\r\n  [Backup]  \r\nversion = 1.2.3\r\nwith = 1.2.3\r\n";
    assert_eq!(get_versions_from_config_from_string(text), (some("1.2.3"), some("1.2.3")));
}

#[test]
fn later_line_overrides_earlier() {
    let text = "[Backup]\nversion = 1\nversion = 2\nwith = 3";
    assert_eq!(get_versions_from_config_from_string(text), (some("2"), some("3")));
}

#[test]
fn key_prefix_match_and_empty_value() {
    let text = "[Backup]\nversions = 5\nwithout =\n";
    assert_eq!(get_versions_from_config_from_string(text), (some("5"), some("")));
}

#[test]
fn unicode_whitespace_is_trimmed() {
    let text = "[Backup]\nversion =\u{3000}1.2\u{a0}\nwith = ü.1\n";
    assert_eq!(get_versions_from_config_from_string(text), (some("1.2"), some("ü.1")));
}
