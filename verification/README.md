# shy

A Hyprland daemon that moves inactive floating windows below the screen and
brings them back when they get focus. The decisions are a verified library;
the daemon around it only talks to Hyprland.

- `src/` — the library, verified with Verus:
  - `text.rs`: character helpers (trim, substring search, decimal spelling, `i32` parsing);
  - `types.rs`: window, monitor and client records;
  - `config.rs`: settings and the ignore filter;
  - `monitor.rs`: the monitor geometry cache;
  - `registry.rs`: managed windows, hide/restore and the commands they send;
  - `handler.rs`: event parsing and the reaction to each event;
  - `ipc.rs`: socket paths;
  - `laws.rs`: properties that hold across calls.
- `app/` — the daemon: config file loading, socket I/O, JSON decoding, the event loop.
- `tests/` — tests of the library.
