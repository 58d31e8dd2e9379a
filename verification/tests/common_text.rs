use shy::handler::{is_switcher_layer, is_switcher_name, normalize_addr, split_fields};
use shy::ipc::HyprIpc;
use shy::text::{push_decimal, str_contains, str_equals, to_lowercase};

#[test]
fn normalize_adds_prefix() {
    assert_eq!(normalize_addr("abc123"), "0xabc123");
}

#[test]
fn normalize_keeps_prefix() {
    assert_eq!(normalize_addr("0xabc123"), "0xabc123");
}

#[test]
fn normalize_cuts_at_comma_and_trims() {
    assert_eq!(normalize_addr("  55d1e2f0 ,1,kitty"), "0x55d1e2f0");
    assert_eq!(normalize_addr(""), "0x");
    assert_eq!(normalize_addr(",abc"), "0x");
}

#[test]
fn normalize_trims_unicode_space() {
    assert_eq!(normalize_addr("\u{3000}0xff\t\n"), "0xff");
}

#[test]
fn split_fields_on_comma_and_bar() {
    assert_eq!(split_fields("a,b|c"), vec!["a", "b", "c"]);
    assert_eq!(split_fields(""), vec![""]);
    assert_eq!(split_fields("a||"), vec!["a", "", ""]);
    assert_eq!(split_fields("0x1,2,kitty,title with, comma"), vec!["0x1", "2", "kitty", "title with", " comma"]);
}

#[test]
fn switcher_layers_are_recognised() {
    assert!(is_switcher_layer("rofi"));
    assert!(is_switcher_layer("ROFI"));
    assert!(is_switcher_layer("noctalia-Launcher"));
    assert!(is_switcher_layer("hyprland-overview"));
    assert!(is_switcher_layer("TabSwitch"));
    assert!(!is_switcher_layer("waybar"));
    assert!(!is_switcher_layer("notifications"));
}

#[test]
fn lowercase_folds_case() {
    assert_eq!(to_lowercase("AbC Ä"), "abc ä");
}

#[test]
fn decimal_spelling() {
    let mut s = String::new();
    push_decimal(&mut s, -305);
    assert_eq!(s, "-305");
    let mut t = String::from("x=");
    push_decimal(&mut t, 0);
    assert_eq!(t, "x=0");
    let mut u = String::new();
    push_decimal(&mut u, i64::MIN);
    assert_eq!(u, i64::MIN.to_string());
    let mut w = String::new();
    push_decimal(&mut w, i64::MAX);
    assert_eq!(w, i64::MAX.to_string());
}

#[test]
fn substring_search() {
    assert!(str_contains("hello world", "o w"));
    assert!(str_contains("abc", ""));
    assert!(!str_contains("abc", "abcd"));
    assert!(!str_contains("", "a"));
    assert!(str_contains("aaab", "aab"));
}

#[test]
fn string_equality() {
    assert!(str_equals("abc", "abc"));
    assert!(!str_equals("abc", "abd"));
    assert!(!str_equals("ab", "abc"));
}

#[test]
fn socket_paths() {
    let ipc = HyprIpc::at("/run/user/1000", "sig_123");
    assert_eq!(ipc.socket(), "/run/user/1000/hypr/sig_123/.socket.sock");
    assert_eq!(ipc.socket2(), "/run/user/1000/hypr/sig_123/.socket2.sock");
}

#[test]
fn switcher_names_are_matched_as_given() {
    assert!(is_switcher_name("rofi"));
    assert!(!is_switcher_name("ROFI"));
    assert!(is_switcher_name("alt-tab"));
    assert!(!is_switcher_name("waybar"));
}
