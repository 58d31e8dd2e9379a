use shy::config::{default_ignore_hover, matches_lowered, Config};
use shy::monitor::MonitorCache;
use shy::types::{HyprMonitor, MonitorGeometry};

fn config(ignore: &[&str]) -> Config {
    Config { hide_offset: 300, debug: false, ignore: ignore.iter().map(|s| s.to_string()).collect(), ignore_hover: true }
}

#[test]
fn default_config_values() {
    let c = Config::default();
    assert_eq!(c.hide_offset, 300);
    assert!(!c.debug);
    assert!(c.ignore.is_empty());
    assert!(c.ignore_hover);
    assert!(default_ignore_hover());
}

#[test]
fn should_ignore_matches_class_or_title_case_insensitively() {
    let c = config(&["Rofi", "waybar"]);
    assert!(c.should_ignore("rofi", "anything"));
    assert!(c.should_ignore("kitty", "my WAYBAR config"));
    assert!(!c.should_ignore("kitty", "zsh"));
}

#[test]
fn should_ignore_folds_the_window_text() {
    let c = config(&["firefox"]);
    assert!(c.should_ignore("Firefox", "Mozilla"));
}

#[test]
fn should_ignore_with_empty_list_is_false() {
    let c = config(&[]);
    assert!(!c.should_ignore("rofi", "rofi"));
}

#[test]
fn empty_pattern_ignores_everything() {
    let c = config(&[""]);
    assert!(c.should_ignore("", ""));
}

fn monitor(id: i32, name: &str, x: i32, y: i32, w: i32, h: i32) -> HyprMonitor {
    HyprMonitor { id, name: name.to_string(), x, y, width: w, height: h }
}

#[test]
fn refresh_replaces_cache() {
    let mut m = MonitorCache::new();
    m.refresh(vec![monitor(0, "DP-1", 0, 0, 1920, 1080), monitor(1, "HDMI-A-1", 1920, 0, 2560, 1440)]);
    assert_eq!(m.monitors.len(), 2);
    m.refresh(vec![monitor(3, "eDP-1", 0, 0, 1366, 768)]);
    assert_eq!(m.monitors.len(), 1);
    assert_eq!(m.monitor_name(3), "eDP-1");
    assert_eq!(m.monitor_name(0), "monitor-0");
}

#[test]
fn refresh_later_entry_wins() {
    let mut m = MonitorCache::new();
    m.refresh(vec![monitor(0, "A", 0, 0, 10, 10), monitor(0, "B", 0, 0, 20, 20)]);
    assert_eq!(m.monitor_name(0), "B");
}

#[test]
fn offscreen_coordinates() {
    let mut m = MonitorCache::new();
    m.refresh(vec![monitor(1, "DP-1", 100, 50, 1920, 1080)]);
    assert_eq!(m.get_offscreen_x(1, 300), 100 + 1920 + 300);
    assert_eq!(m.get_offscreen_y(1, 300), 50 + 1080 + 300);
    assert_eq!(m.get_offscreen_x(7, 300), 10000);
    assert_eq!(m.get_offscreen_y(7, 300), 10000);
}

#[test]
fn monitor_names_and_ids() {
    let mut m = MonitorCache::new();
    m.monitors.insert(5, MonitorGeometry { name: "DP-2".to_string(), x: 0, y: 0, width: 1, height: 1 });
    m.monitors.insert(2, MonitorGeometry { name: "DP-2".to_string(), x: 0, y: 0, width: 1, height: 1 });
    m.monitors.insert(9, MonitorGeometry { name: "HDMI".to_string(), x: 0, y: 0, width: 1, height: 1 });
    assert_eq!(m.monitor_id("DP-2"), Some(2));
    assert_eq!(m.monitor_id("HDMI"), Some(9));
    assert_eq!(m.monitor_id("none"), None);
    assert_eq!(m.monitor_name(-4), "monitor--4");
}

#[test]
fn lowered_matching_is_case_sensitive_on_given_texts() {
    let pats = vec!["rofi".to_string(), "bar".to_string()];
    assert!(matches_lowered("rofi", "x", &pats));
    assert!(matches_lowered("kitty", "waybar", &pats));
    assert!(!matches_lowered("ROFI", "x", &pats));
    assert!(!matches_lowered("kitty", "zsh", &pats));
    assert!(!matches_lowered("kitty", "zsh", &Vec::new()));
}
