use light::{WorldError, WorldMeta};

#[test]
fn meta_single_pair_with_blank_lines() {
    let meta = WorldMeta::parse("backend = sqlite3\n\n  \n").unwrap();
    assert_eq!(meta.get_str("backend"), Some("sqlite3"));
    assert_eq!(meta.get_str("seed"), None);
}

#[test]
fn meta_line_without_equals_is_unexpected_format() {
    let r = WorldMeta::parse("backend = sqlite3\n  broken line  \n");
    match r {
        Err(WorldError::UnexpectedFormat(line)) => assert_eq!(line, "broken line"),
        _ => panic!("expected the unexpected-format error"),
    }
}

#[test]
fn meta_trims_both_sides() {
    let meta = WorldMeta::parse("\t backend   =\t postgres \r\n").unwrap();
    assert_eq!(meta.get_str("backend"), Some("postgres"));
}

#[test]
fn meta_trims_unicode_whitespace() {
    let meta = WorldMeta::parse("\u{a0}backend\u{2003} = \u{2028}sqlite3\u{a0}\n").unwrap();
    assert_eq!(meta.get_str("backend"), Some("sqlite3"));
}

#[test]
fn meta_later_binding_wins() {
    let meta = WorldMeta::parse("k = one\nk = two\n").unwrap();
    assert_eq!(meta.get_str("k"), Some("two"));
}

#[test]
fn meta_value_may_hold_equals() {
    let meta = WorldMeta::parse("dsn = host=localhost user=mt\n").unwrap();
    assert_eq!(meta.get_str("dsn"), Some("host=localhost user=mt"));
}

#[test]
fn meta_empty_text_is_empty() {
    let meta = WorldMeta::parse("").unwrap();
    assert_eq!(meta.get_str("backend"), None);
}

#[test]
fn meta_several_pairs() {
    let meta = WorldMeta::parse("backend = sqlite3\nseed = 42\nname = world\n").unwrap();
    assert_eq!(meta.get_str("backend"), Some("sqlite3"));
    assert_eq!(meta.get_str("seed"), Some("42"));
    assert_eq!(meta.get_str("name"), Some("world"));
}
