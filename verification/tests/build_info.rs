use heap_size::build_info::{
    commit_lines, commit_lines_for, next_step, rerun_for_head, rerun_for_path, rerun_if_changed,
    Step,
};

#[test]
fn the_path_of_head_is_trimmed() {
    assert_eq!(
        rerun_for_head("  /repo/.git/HEAD\n"),
        Some("cargo:rerun-if-changed=/repo/.git/HEAD".to_string())
    );
    assert_eq!(rerun_for_head(" \n"), None);
    assert_eq!(rerun_for_path(""), None);
    assert_eq!(rerun_for_path(" a"), Some("cargo:rerun-if-changed= a".to_string()));
    assert_eq!(rerun_if_changed("x"), "cargo:rerun-if-changed=x");
}

#[test]
fn the_search_stops_at_the_first_head() {
    assert_eq!(next_step(true, true), Step::Report);
    assert_eq!(next_step(true, false), Step::Climb);
    assert_eq!(next_step(false, true), Step::GiveUp);
    assert_eq!(next_step(false, false), Step::GiveUp);
}

#[test]
fn the_log_makes_three_lines() {
    let expected = vec![
        "cargo:rustc-env=RA_COMMIT_HASH=abcdef0".to_string(),
        "cargo:rustc-env=RA_COMMIT_SHORT_HASH=abc".to_string(),
        "cargo:rustc-env=RA_COMMIT_DATE=2024-01-31".to_string(),
    ];
    assert_eq!(commit_lines("abcdef0 abc  2024-01-31\n"), expected);
    assert_eq!(commit_lines("abcdef0\tabc\u{a0}2024-01-31 more"), expected);
    assert_eq!(commit_lines_for(&["abcdef0", "abc", "2024-01-31"]), expected);
    assert_eq!(commit_lines("abcdef0 abc"), expected[..2]);
    assert_eq!(commit_lines(" \n"), expected[..0]);
    assert_eq!(commit_lines_for(&["abcdef0"]), expected[..1]);
}

#[test]
fn whitespace_is_what_unicode_says() {
    let listed = |u: u32| {
        matches!(
            u,
            0x9..=0xD
                | 0x20
                | 0x85
                | 0xA0
                | 0x1680
                | 0x2000..=0x200A
                | 0x2028..=0x2029
                | 0x202F
                | 0x205F
                | 0x3000
        )
    };
    for c in (0..=0x10FFFF).filter_map(char::from_u32) {
        assert_eq!(c.is_whitespace(), listed(c as u32));
    }
}
