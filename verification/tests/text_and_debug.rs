use websrv_core::debug::DebugSettings;
use websrv_core::text::{remove_all_whitespace, remove_first_slash, replace_all_hyphen};

#[test]
fn remove_first_slash_drops_leading_slash() {
    assert_eq!(remove_first_slash("/index.html"), "index.html");
    assert_eq!(remove_first_slash("/api/mu.rs"), "api/mu.rs");
}

#[test]
fn remove_first_slash_drops_any_first_character() {
    assert_eq!(remove_first_slash("abc"), "bc");
    assert_eq!(remove_first_slash("é/x"), "/x");
    assert_eq!(remove_first_slash("☔a"), "a");
    assert_eq!(remove_first_slash(""), "");
    assert_eq!(remove_first_slash("/"), "");
}

#[test]
fn remove_all_whitespace_removes_spaces_only() {
    let s = String::from(" ----WebKit Form Boundary ");
    assert_eq!(remove_all_whitespace(&s), "----WebKitFormBoundary");
    let t = String::from("a\tb\r\n");
    assert_eq!(remove_all_whitespace(&t), "a\tb\r\n");
    assert_eq!(remove_all_whitespace(&String::new()), "");
}

#[test]
fn remove_all_whitespace_is_idempotent() {
    let s = String::from("  a b  c ");
    let once = remove_all_whitespace(&s);
    let twice = remove_all_whitespace(&once);
    assert_eq!(once, "abc");
    assert_eq!(once, twice);
}

#[test]
fn replace_all_hyphen_replaces_every_hyphen() {
    let s = String::from("6f1c-2a9b-4e0d");
    assert_eq!(replace_all_hyphen(&s), "6f1c_2a9b_4e0d");
    assert_eq!(replace_all_hyphen(&String::from("--")), "__");
    assert_eq!(replace_all_hyphen(&String::from("plain")), "plain");
}

#[test]
fn replace_all_hyphen_keeps_length_and_is_idempotent() {
    let s = String::from("a-b-ü-");
    let once = replace_all_hyphen(&s);
    assert_eq!(once.chars().count(), s.chars().count());
    assert!(!once.contains('-'));
    assert_eq!(replace_all_hyphen(&once), once);
}

#[test]
fn debug_switches_start_off() {
    let d = DebugSettings::new();
    assert!(!d.print_debug());
    assert!(!d.print_debugdata());
}

#[test]
fn debug_switch_reads_back_last_write() {
    let mut d = DebugSettings::new();
    d.change_debug(true);
    assert!(d.print_debug());
    assert!(!d.print_debugdata());
    d.change_debugdata(true);
    d.change_debug(false);
    assert!(!d.print_debug());
    assert!(d.print_debugdata());
    d.change_debugdata(false);
    d.change_debugdata(false);
    assert!(!d.print_debugdata());
}
