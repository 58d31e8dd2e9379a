use std::time::Instant;

use shy::config::Config;
use shy::handler::{handle, handle_at, needs_clients, needs_monitors, within_switcher_grace, State};
use shy::monitor::MonitorCache;
use shy::registry::Registry;
use shy::types::{HyprClient, HyprMonitor, HyprWorkspace};

fn monitors() -> MonitorCache {
    let mut m = MonitorCache::new();
    m.refresh(vec![HyprMonitor { id: 0, name: "DP-1".to_string(), x: 0, y: 0, width: 1920, height: 1080 }]);
    m
}

fn config(ignore_hover: bool) -> Config {
    Config { hide_offset: 300, debug: false, ignore: vec!["waybar".to_string()], ignore_hover }
}

fn client(addr: &str, x: i32, y: i32, floating: bool) -> HyprClient {
    HyprClient {
        address: addr.to_string(),
        workspace: HyprWorkspace { id: 1 },
        monitor: 0,
        at: [x, y],
        size: [100, 50],
        floating,
        mapped: true,
        hidden: false,
        focus_history_id: 0,
    }
}

fn hidden(r: &Registry, addr: &str) -> Option<bool> {
    (0..r.len()).map(|i| r.get(i)).find(|e| e.addr == addr).map(|e| e.hidden)
}

struct World {
    registry: Registry,
    monitors: MonitorCache,
    config: Config,
    state: State,
}

impl World {
    fn new(ignore_hover: bool) -> World {
        World { registry: Registry::new(), monitors: monitors(), config: config(ignore_hover), state: State::new() }
    }

    /// `elapsed_ms` is the clock reading since the recorded switcher time.
    /// Handles the event and, when asked, hides the shown windows one at a
    /// time with `clients` as each fetched list, as the daemon does.
    fn event_at(&mut self, line: &str, clients: Option<&Vec<HyprClient>>, elapsed_ms: Option<u128>) -> Vec<String> {
        let r = handle_at(line, &mut self.registry, &mut self.monitors, &self.config, &mut self.state, clients, None, elapsed_ms, Instant::now());
        let mut cmds = r.commands;
        if r.hide_shown_windows {
            for a in self.registry.addrs() {
                if self.registry.is_shown(&a) {
                    cmds.extend(self.registry.hide_window(&a, clients, &self.monitors, 300));
                }
            }
        }
        cmds
    }

    fn event(&mut self, line: &str, clients: Option<&Vec<HyprClient>>, recent: bool) -> Vec<String> {
        let elapsed = if self.state.last_switcher_time.is_some() { Some(if recent { 100 } else { 5000 }) } else { None };
        self.event_at(line, clients, elapsed)
    }
}

#[test]
fn focus_on_floating_window_registers_and_restores_it() {
    let mut w = World::new(true);
    let clients = vec![client("0xa", 10, 20, true), client("0xt", 0, 0, false)];
    let cmds = w.event("activewindowv2>>a", Some(&clients), false);
    assert_eq!(hidden(&w.registry, "0xa"), Some(false));
    assert_eq!(cmds.len(), 1);
    w.registry.hide_window("0xa", None, &w.monitors, 300);
    w.state.switcher_active = true;
    let cmds = w.event("activewindowv2>>0xa", Some(&clients), false);
    assert_eq!(hidden(&w.registry, "0xa"), Some(false));
    assert_eq!(cmds.len(), 2);
    assert!(!w.state.switcher_active);
    assert!(w.state.last_switcher_time.is_none());
}

#[test]
fn hover_onto_tiled_window_hides_nothing() {
    let mut w = World::new(true);
    let clients = vec![client("0xa", 10, 20, true), client("0xt", 0, 0, false)];
    w.event("activewindowv2>>0xa", Some(&clients), false);
    let cmds = w.event("activewindowv2>>0xt", Some(&clients), false);
    assert!(cmds.is_empty());
    assert_eq!(hidden(&w.registry, "0xa"), Some(false));
}

#[test]
fn switcher_focus_onto_tiled_window_hides_all() {
    let mut w = World::new(true);
    let clients = vec![client("0xa", 10, 20, true), client("0xb", 30, 40, true), client("0xt", 0, 0, false)];
    w.event("activewindowv2>>0xa", Some(&clients), false);
    w.event("openlayer>>rofi", None, false);
    assert!(w.state.switcher_active);
    assert!(w.state.last_switcher_time.is_some());
    let cmds = w.event("activewindowv2>>0xt", Some(&clients), false);
    assert_eq!(cmds.len(), 2);
    assert_eq!(hidden(&w.registry, "0xa"), Some(true));
    assert_eq!(hidden(&w.registry, "0xb"), Some(true));
    assert!(!w.state.switcher_active);
    assert!(w.state.last_switcher_time.is_none());
}

#[test]
fn recent_switcher_counts_as_switcher() {
    let mut w = World::new(true);
    let clients = vec![client("0xa", 10, 20, true), client("0xt", 0, 0, false)];
    w.event("activewindowv2>>0xa", Some(&clients), false);
    w.event("closelayer>>walker", None, false);
    assert!(!w.state.switcher_active);
    w.event("activewindowv2>>0xt", Some(&clients), true);
    assert_eq!(hidden(&w.registry, "0xa"), Some(true));
}

#[test]
fn without_ignore_hover_tiled_focus_hides() {
    let mut w = World::new(false);
    let clients = vec![client("0xa", 10, 20, true), client("0xt", 0, 0, false)];
    w.event("activewindow>>0xa", Some(&clients), false);
    w.event("activewindow>>0xt", Some(&clients), false);
    assert_eq!(hidden(&w.registry, "0xa"), Some(true));
}

#[test]
fn focus_on_empty_address_or_unknown_window_does_little() {
    let mut w = World::new(false);
    let clients = vec![client("0xa", 10, 20, true)];
    assert!(w.event("activewindowv2>>", Some(&clients), false).is_empty());
    assert_eq!(w.registry.len(), 0);
    let cmds = w.event("activewindowv2>>0xzz", Some(&clients), false);
    assert_eq!(cmds.len(), 1);
    assert_eq!(hidden(&w.registry, "0xa"), Some(false));
    assert!(w.event("activewindowv2>>0xa", None, false).is_empty());
}

#[test]
fn non_switcher_layer_leaves_state() {
    let mut w = World::new(true);
    w.event("openlayer>>waybar", None, false);
    assert!(!w.state.switcher_active);
    assert!(w.state.last_switcher_time.is_none());
}

#[test]
fn open_window_registers_floating_and_skips_ignored() {
    let mut w = World::new(true);
    let clients = vec![client("0xa", 10, 20, true), client("0xw", 0, 0, true), client("0xt", 0, 0, false)];
    let cmds = w.event("openwindow>>a,1,kitty,shell", Some(&clients), false);
    assert_eq!(cmds.len(), 1);
    assert!(w.registry.contains("0xa"));
    assert!(w.event("openwindow>>w,1,Waybar,bar", Some(&clients), false).is_empty());
    assert!(!w.registry.contains("0xw"));
    assert!(w.event("openwindow>>t,1,foot,shell", Some(&clients), false).is_empty());
    assert!(w.event("openwindow>>a,1,kitty", Some(&clients), false).is_empty());
}

#[test]
fn close_window_forgets_it() {
    let mut w = World::new(true);
    let clients = vec![client("0xa", 10, 20, true)];
    w.event("activewindowv2>>0xa", Some(&clients), false);
    w.event("closewindow>>a", None, false);
    assert!(!w.registry.contains("0xa"));
}

#[test]
fn move_window_updates_saved_position() {
    let mut w = World::new(true);
    let clients = vec![client("0xa", 10, 20, true)];
    w.event("activewindowv2>>0xa", Some(&clients), false);
    w.event("movewindow>>a,300,400", None, false);
    let e = w.registry.get(0);
    assert_eq!((e.saved_x, e.saved_y), (300, 400));
    w.event("movewindow>>a,+5,-6", None, false);
    assert_eq!((w.registry.get(0).saved_x, w.registry.get(0).saved_y), (5, -6));
    w.event("movewindow>>a, 7,8", None, false);
    w.event("movewindow>>a,7,99999999999", None, false);
    w.event("movewindow>>a,7", None, false);
    assert_eq!((w.registry.get(0).saved_x, w.registry.get(0).saved_y), (5, -6));
}

#[test]
fn change_floating_registers_and_removes() {
    let mut w = World::new(true);
    let clients = vec![client("0xa", 10, 20, true)];
    let cmds = w.event("changefloating>>a,1", Some(&clients), false);
    assert_eq!(cmds.len(), 1);
    assert!(w.registry.contains("0xa"));
    w.event("changefloating>>a,0", None, false);
    assert!(!w.registry.contains("0xa"));
}

#[test]
fn monitor_events_refresh_the_cache() {
    let mut w = World::new(true);
    let list: Vec<HyprMonitor> = vec![HyprMonitor { id: 4, name: "HDMI-A-1".to_string(), x: 0, y: 0, width: 10, height: 10 }];
    handle_at("monitoradded>>HDMI-A-1", &mut w.registry, &mut w.monitors, &w.config, &mut w.state, None, Some(list), None, Instant::now());
    assert_eq!(w.monitors.monitor_name(4), "HDMI-A-1");
    assert_eq!(w.monitors.monitor_name(0), "monitor-0");
    handle_at("monitorremoved>>HDMI-A-1", &mut w.registry, &mut w.monitors, &w.config, &mut w.state, None, None, None, Instant::now());
    assert_eq!(w.monitors.monitor_name(4), "HDMI-A-1");
}

#[test]
fn unknown_and_malformed_events_are_ignored() {
    let mut w = World::new(false);
    assert!(w.event("workspace>>2", None, false).is_empty());
    assert!(w.event("no separator", None, false).is_empty());
    assert!(w.event(">>", None, false).is_empty());
    assert_eq!(w.registry.len(), 0);
}

#[test]
fn which_events_need_fresh_lists() {
    let c = config(true);
    assert!(needs_clients("activewindowv2>>abc", &c));
    assert!(!needs_clients("activewindowv2>>", &c));
    assert!(needs_clients("openwindow>>a,1,kitty,zsh", &c));
    assert!(!needs_clients("openwindow>>a,1,waybar,zsh", &c));
    assert!(!needs_clients("openwindow>>a,1,kitty", &c));
    assert!(needs_clients("changefloating>>a,1", &c));
    assert!(!needs_clients("changefloating>>a,0", &c));
    assert!(!needs_clients("closewindow>>a", &c));
    assert!(needs_monitors("monitoradded>>DP-2"));
    assert!(needs_monitors("monitorremoved>>DP-2"));
    assert!(!needs_monitors("monitoraddedv2>>3,DP-2,desc"));
}

#[test]
fn handle_reads_the_clock() {
    let mut registry = Registry::new();
    let mut m = monitors();
    let c = config(true);
    let mut state = State::new();
    assert!(!state.recently_switched());
    handle("openlayer>>rofi", &mut registry, &mut m, &c, &mut state, None, None);
    assert!(state.switcher_active);
    assert!(state.recently_switched());
    let clients = vec![client("0xa", 10, 20, true), client("0xt", 0, 0, false)];
    handle("activewindowv2>>0xa", &mut registry, &mut m, &c, &mut state, Some(&clients), None);
    assert!(!state.switcher_active);
    assert!(!state.recently_switched());
}

#[test]
fn grace_period_is_under_600_ms() {
    assert!(within_switcher_grace(0));
    assert!(within_switcher_grace(599));
    assert!(!within_switcher_grace(600));
    assert!(!within_switcher_grace(10_000));
}

#[test]
fn switcher_seen_long_ago_does_not_count() {
    let mut w = World::new(true);
    let clients = vec![client("0xa", 10, 20, true), client("0xt", 0, 0, false)];
    w.event_at("activewindowv2>>0xa", Some(&clients), None);
    w.event_at("closelayer>>rofi", None, None);
    let cmds = w.event_at("activewindowv2>>0xt", Some(&clients), Some(600));
    assert!(cmds.is_empty());
    assert_eq!(hidden(&w.registry, "0xa"), Some(false));
    assert!(w.state.last_switcher_time.is_some());
    w.event_at("activewindowv2>>0xt", Some(&clients), Some(599));
    assert_eq!(hidden(&w.registry, "0xa"), Some(true));
    assert!(w.state.last_switcher_time.is_none());
}

#[test]
fn elapsed_reading_without_recorded_time_is_ignored() {
    let mut w = World::new(true);
    let clients = vec![client("0xa", 10, 20, true), client("0xt", 0, 0, false)];
    w.event_at("activewindowv2>>0xa", Some(&clients), None);
    w.event_at("activewindowv2>>0xt", Some(&clients), Some(0));
    assert_eq!(hidden(&w.registry, "0xa"), Some(false));
}

#[test]
fn switch_to_tiled_asks_for_hiding_with_a_fresh_list_per_window() {
    let mut w = World::new(false);
    let clients = vec![client("0xa", 10, 20, true), client("0xb", 30, 40, true), client("0xt", 0, 0, false)];
    w.event_at("activewindowv2>>0xa", Some(&clients), None);
    let r = handle_at("activewindowv2>>0xt", &mut w.registry, &mut w.monitors, &w.config, &mut w.state, Some(&clients), None, None, Instant::now());
    assert!(r.hide_shown_windows);
    assert!(r.commands.is_empty());
    assert_eq!(hidden(&w.registry, "0xa"), Some(false));
    assert_eq!(hidden(&w.registry, "0xb"), Some(false));
    let fresh_a = vec![client("0xa", 11, 21, true)];
    w.registry.hide_window("0xa", Some(&fresh_a), &w.monitors, 300);
    let fresh_b = vec![client("0xb", 31, 41, true)];
    w.registry.hide_window("0xb", Some(&fresh_b), &w.monitors, 300);
    let saved: Vec<(i32, i32, bool)> = (0..w.registry.len()).map(|i| w.registry.get(i)).map(|e| (e.saved_x, e.saved_y, e.hidden)).collect();
    assert_eq!(saved, vec![(11, 21, true), (31, 41, true)]);
}

#[test]
fn focus_on_floating_window_does_not_ask_for_hiding() {
    let mut w = World::new(false);
    let clients = vec![client("0xa", 10, 20, true)];
    let r = handle_at("activewindowv2>>0xa", &mut w.registry, &mut w.monitors, &w.config, &mut w.state, Some(&clients), None, None, Instant::now());
    assert!(!r.hide_shown_windows);
    let r = handle_at("closewindow>>0xa", &mut w.registry, &mut w.monitors, &w.config, &mut w.state, None, None, None, Instant::now());
    assert!(!r.hide_shown_windows);
}
