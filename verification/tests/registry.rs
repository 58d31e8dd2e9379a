use shy::monitor::MonitorCache;
use shy::registry::Registry;
use shy::types::{HyprClient, HyprMonitor, HyprWorkspace, WindowEntry};

fn monitors() -> MonitorCache {
    let mut m = MonitorCache::new();
    m.refresh(vec![HyprMonitor { id: 0, name: "DP-1".to_string(), x: 0, y: 0, width: 1920, height: 1080 }]);
    m
}

fn client(addr: &str, x: i32, y: i32, w: i32, h: i32, floating: bool) -> HyprClient {
    HyprClient {
        address: addr.to_string(),
        workspace: HyprWorkspace { id: 1 },
        monitor: 0,
        at: [x, y],
        size: [w, h],
        floating,
        mapped: true,
        hidden: false,
        focus_history_id: 0,
    }
}

fn entry<'a>(r: &'a Registry, addr: &str) -> &'a WindowEntry {
    (0..r.len()).map(|i| r.get(i)).find(|e| e.addr == addr).expect("window is registered")
}

fn set_prop(addr: &str) -> String {
    format!("dispatch hl.dsp.window.set_prop({{ prop = \"animation\", value = \"none\", window = \"address:{}\" }})", addr)
}

fn mv(x: i64, y: i64, addr: &str) -> String {
    format!("dispatch hl.dsp.window.move({{ x = {}, y = {}, window = \"address:{}\" }})", x, y, addr)
}

fn cursor(x: i64, y: i64) -> String {
    format!("dispatch hl.dsp.cursor.move({{ x = {}, y = {} }})", x, y)
}

#[test]
fn register_on_screen_window() {
    let m = monitors();
    let mut r = Registry::new();
    let cmds = r.register("0xa", 3, "DP-1", 100, 200, 800, 600, &m, 300);
    assert_eq!(cmds, vec![set_prop("0xa")]);
    let e = entry(&r, "0xa");
    assert_eq!((e.workspace, e.monitor.as_str(), e.saved_x, e.saved_y, e.width, e.height, e.hidden), (3, "DP-1", 100, 200, 800, 600, false));
}

#[test]
fn register_off_screen_window_is_hidden_with_reset_position() {
    let m = monitors();
    let mut r = Registry::new();
    // Off-screen line is 0 + 1080 + 300 = 1380; on screen means y < 1330.
    r.register("0xa", 1, "DP-1", 40, 1330, 800, 600, &m, 300);
    let e = entry(&r, "0xa");
    assert!(e.hidden);
    assert_eq!((e.saved_x, e.saved_y), (40, 200));
    r.register("0xb", 1, "DP-1", 40, 1329, 800, 600, &m, 300);
    assert!(!entry(&r, "0xb").hidden);
    assert_eq!(entry(&r, "0xb").saved_y, 1329);
}

#[test]
fn register_on_unknown_monitor_uses_fallback_line() {
    let m = monitors();
    let mut r = Registry::new();
    r.register("0xa", 1, "monitor-9", 0, 1150, 10, 10, &m, 300);
    assert!(entry(&r, "0xa").hidden);
    r.register("0xb", 1, "monitor-9", 0, 1149, 10, 10, &m, 300);
    assert!(!entry(&r, "0xb").hidden);
}

#[test]
fn register_twice_keeps_first() {
    let m = monitors();
    let mut r = Registry::new();
    r.register("0xa", 1, "DP-1", 1, 2, 3, 4, &m, 300);
    let cmds = r.register("0xa", 9, "DP-1", 5, 6, 7, 8, &m, 300);
    assert!(cmds.is_empty());
    assert_eq!(r.len(), 1);
    assert_eq!(entry(&r, "0xa").saved_x, 1);
}

#[test]
fn hide_without_client_list_moves_below_monitor() {
    let m = monitors();
    let mut r = Registry::new();
    r.register("0xa", 1, "DP-1", 100, 200, 800, 600, &m, 300);
    assert!(r.is_shown("0xa"));
    let cmds = r.hide_window("0xa", None, &m, 300);
    assert_eq!(cmds, vec![mv(100, 1380, "0xa")]);
    assert!(entry(&r, "0xa").hidden);
    assert!(!r.is_shown("0xa"));
}

#[test]
fn hide_takes_fresh_position_and_size() {
    let m = monitors();
    let mut r = Registry::new();
    r.register("0xa", 1, "DP-1", 100, 200, 800, 600, &m, 300);
    let clients = vec![client("0xb", 0, 0, 1, 1, true), client("0xa", 50, 60, 640, 480, true)];
    let cmds = r.hide_window("0xa", Some(&clients), &m, 300);
    assert_eq!(cmds, vec![mv(50, 1380, "0xa")]);
    let e = entry(&r, "0xa");
    assert_eq!((e.saved_x, e.saved_y, e.width, e.height), (50, 60, 640, 480));
}

#[test]
fn hide_ignores_off_screen_fresh_position() {
    let m = monitors();
    let mut r = Registry::new();
    r.register("0xa", 1, "DP-1", 100, 200, 800, 600, &m, 300);
    let clients = vec![client("0xa", 70, 2000, 640, 480, true)];
    r.hide_window("0xa", Some(&clients), &m, 300);
    let e = entry(&r, "0xa");
    assert_eq!((e.saved_x, e.saved_y, e.width, e.height), (100, 200, 640, 480));
}

#[test]
fn hide_on_unknown_monitor_uses_ten_thousand() {
    let m = monitors();
    let mut r = Registry::new();
    r.register("0xa", 1, "elsewhere", 5, 6, 7, 8, &m, 300);
    assert_eq!(r.hide_window("0xa", None, &m, 300), vec![mv(5, 10000, "0xa")]);
}

#[test]
fn hide_and_restore_are_idempotent() {
    let m = monitors();
    let mut r = Registry::new();
    r.register("0xa", 1, "DP-1", 100, 200, 800, 600, &m, 300);
    assert!(r.restore("0xa", &m, 300).is_empty());
    r.hide_window("0xa", None, &m, 300);
    assert!(r.hide_window("0xa", None, &m, 300).is_empty());
    assert!(!r.restore("0xa", &m, 300).is_empty());
    assert!(r.restore("0xa", &m, 300).is_empty());
    assert!(r.hide_window("0xnone", None, &m, 300).is_empty());
    assert!(r.restore("0xnone", &m, 300).is_empty());
}

#[test]
fn restore_moves_back_and_warps_cursor() {
    let m = monitors();
    let mut r = Registry::new();
    r.register("0xa", 1, "DP-1", 100, 200, 801, 600, &m, 300);
    r.hide_window("0xa", None, &m, 300);
    let cmds = r.restore("0xa", &m, 300);
    assert_eq!(cmds, vec![mv(100, 200, "0xa"), cursor(100 + 400, 200 + 300)]);
    assert!(!entry(&r, "0xa").hidden);
}

#[test]
fn restore_halves_toward_zero() {
    let m = monitors();
    let mut r = Registry::new();
    r.register("0xa", 1, "DP-1", 10, 20, -5, -3, &m, 300);
    r.hide_window("0xa", None, &m, 300);
    let cmds = r.restore("0xa", &m, 300);
    assert_eq!(cmds[1], cursor(10 - 2, 20 - 1));
}

#[test]
fn restore_resets_an_off_screen_saved_position() {
    let mut m = monitors();
    let mut r = Registry::new();
    r.register("0xa", 1, "DP-1", 100, 1000, 800, 600, &m, 300);
    r.hide_window("0xa", None, &m, 300);
    // The monitor shrinks: the line is now 600 + 300 = 900 and y = 1000 is off screen.
    m.refresh(vec![HyprMonitor { id: 0, name: "DP-1".to_string(), x: 0, y: 0, width: 800, height: 600 }]);
    let cmds = r.restore("0xa", &m, 300);
    assert_eq!(cmds[0], mv(100, 200, "0xa"));
    assert_eq!(entry(&r, "0xa").saved_y, 200);
}

#[test]
fn hide_then_restore_round_trip() {
    let m = monitors();
    let mut r = Registry::new();
    r.register("0xa", 1, "DP-1", 100, 200, 800, 600, &m, 300);
    r.register("0xb", 2, "DP-1", 300, 400, 100, 100, &m, 300);
    let before: Vec<(String, i32, i32, bool)> =
        (0..r.len()).map(|i| r.get(i)).map(|e| (e.addr.clone(), e.saved_x, e.saved_y, e.hidden)).collect();
    r.hide_window("0xa", None, &m, 300);
    r.restore("0xa", &m, 300);
    let after: Vec<(String, i32, i32, bool)> =
        (0..r.len()).map(|i| r.get(i)).map(|e| (e.addr.clone(), e.saved_x, e.saved_y, e.hidden)).collect();
    assert_eq!(before, after);
}

#[test]
fn hide_all_and_restore_all() {
    let m = monitors();
    let mut r = Registry::new();
    r.register("0xa", 1, "DP-1", 1, 2, 10, 10, &m, 300);
    r.register("0xb", 1, "DP-1", 3, 4, 10, 10, &m, 300);
    r.register("0xc", 1, "DP-1", 5, 1400, 10, 10, &m, 300);
    assert_eq!(r.addrs(), vec!["0xa", "0xb", "0xc"]);
    let mut cmds = Vec::new();
    for a in r.addrs() {
        if r.is_shown(&a) {
            cmds.extend(r.hide_window(&a, None, &m, 300));
        }
    }
    assert_eq!(cmds, vec![mv(1, 1380, "0xa"), mv(3, 1380, "0xb")]);
    assert!((0..r.len()).all(|i| r.get(i).hidden));
    let cmds = r.restore_all(&m, 300);
    assert_eq!(cmds.len(), 6);
    assert_eq!(cmds[4], mv(5, 200, "0xc"));
    assert!((0..r.len()).all(|i| !r.get(i).hidden));
}

#[test]
fn update_position_only_while_shown_and_on_screen() {
    let m = monitors();
    let mut r = Registry::new();
    r.register("0xa", 1, "DP-1", 100, 200, 800, 600, &m, 300);
    r.update_position("0xa", 10, 20, &m, 300);
    assert_eq!((entry(&r, "0xa").saved_x, entry(&r, "0xa").saved_y), (10, 20));
    r.update_position("0xa", 10, 1330, &m, 300);
    assert_eq!((entry(&r, "0xa").saved_x, entry(&r, "0xa").saved_y), (10, 20));
    r.hide_window("0xa", None, &m, 300);
    r.update_position("0xa", 30, 40, &m, 300);
    assert_eq!((entry(&r, "0xa").saved_x, entry(&r, "0xa").saved_y), (10, 20));
    r.update_position("0xnone", 1, 1, &m, 300);
    assert_eq!(r.len(), 1);
}

#[test]
fn update_floating_registers_and_removes() {
    let m = monitors();
    let mut r = Registry::new();
    let clients = vec![client("0xa", 11, 22, 33, 44, true)];
    let cmds = r.update_floating("0xa", true, Some(&clients), &m, 300);
    assert_eq!(cmds, vec![set_prop("0xa")]);
    assert_eq!(entry(&r, "0xa").monitor, "DP-1");
    assert!(r.update_floating("0xz", true, Some(&clients), &m, 300).is_empty());
    assert!(r.update_floating("0xz", true, None, &m, 300).is_empty());
    assert!(r.update_floating("0xa", false, None, &m, 300).is_empty());
    assert!(!r.contains("0xa"));
    assert_eq!(r.len(), 0);
}

#[test]
fn remove_forgets_window() {
    let m = monitors();
    let mut r = Registry::new();
    r.register("0xa", 1, "DP-1", 1, 2, 3, 4, &m, 300);
    r.register("0xb", 1, "DP-1", 1, 2, 3, 4, &m, 300);
    r.remove("0xa");
    assert!(!r.contains("0xa"));
    assert!(r.contains("0xb"));
    r.remove("0xa");
    assert_eq!(r.len(), 1);
}

#[test]
fn scan_registers_visible_floating_clients() {
    let m = monitors();
    let mut r = Registry::new();
    let mut tiled = client("0xt", 0, 0, 1, 1, false);
    tiled.floating = false;
    let mut unmapped = client("0xu", 0, 0, 1, 1, true);
    unmapped.mapped = false;
    let clients = vec![
        client("0xa", 1, 2, 3, 4, true),
        tiled,
        unmapped,
        client("0xb", 5, 1500, 7, 8, true),
        client("0xa", 9, 10, 11, 12, true),
    ];
    let cmds = r.scan(&clients, &m, 300);
    assert_eq!(cmds, vec![set_prop("0xa"), set_prop("0xb"), set_prop("0xa")]);
    assert_eq!(r.addrs(), vec!["0xa", "0xb"]);
    assert_eq!(entry(&r, "0xa").saved_x, 9);
    assert!(entry(&r, "0xb").hidden);
    assert_eq!(entry(&r, "0xb").saved_y, 200);
}
