//! Hyprland event handling: parsing the event lines of the event socket and
//! deciding, from the registry, the monitor cache and the switcher state,
//! which windows to register, hide or restore.
use std::time::{Duration, Instant};
use vstd::prelude::*;

use crate::config::{ignored_by, patterns, Config};
use crate::monitor::{monitors_from, MonitorCache};
use crate::registry::{
    commands, find_client, first_client, lemma_commands_append, no_commands,
    register_client_model, remove_model, restore_model, snapshot, update_floating_model,
    update_position_model, Registry,
};
use crate::text::{
    chars_of, contains, contains_chars, lowercase, parse_i32_range, parse_i32_spec, push_range,
    push_str, range_equals, starts_with, str_equals, string_of, to_lowercase, trim, trim_bounds,
};
use crate::types::{client_views, ClientView, HyprClient, HyprMonitor, MonitorView, WindowView};

verus! {

#[verifier::external_type_specification]
#[verifier::external_body]
pub struct ExInstant(Instant);

/// `Instant::now`: the current reading of the monotonic clock. Nothing is
/// stated of it.
#[verifier::external_body]
fn instant_now() -> Instant {
    Instant::now()
}

/// `Instant::elapsed`: the time since `t`. It depends on the clock; nothing
/// is stated of it.
#[verifier::external_body]
fn elapsed_since(t: &Instant) -> Duration {
    t.elapsed()
}

/// `Duration::as_millis`: the whole milliseconds of `d`. Nothing is stated
/// of it.
#[verifier::external_body]
fn whole_millis(d: &Duration) -> u128 {
    d.as_millis()
}

/// How long after a switcher layer was seen a focus change still counts as
/// coming from the switcher.
pub const SWITCHER_GRACE_MS: u128 = 600;

/// What the handler remembers of switcher layers between events.
pub struct State {
    /// A switcher layer (alt-tab window, launcher, ...) is open.
    pub switcher_active: bool,
    /// When a switcher layer was last opened or closed; `None` once a focus
    /// change has consumed it.
    pub last_switcher_time: Option<Instant>,
}

impl State {
    /// No switcher open and none seen recently.
    pub fn new() -> (s: Self)
        ensures
            !s.switcher_active,
            s.last_switcher_time is None,
    {
        State { switcher_active: false, last_switcher_time: None }
    }

    /// The whole milliseconds since the recorded switcher time, read from the
    /// clock; `None` when no switcher time is recorded. Nothing is stated of
    /// the reading itself.
    pub fn switcher_elapsed_ms(&self) -> (r: Option<u128>)
        ensures
            r is Some <==> self.last_switcher_time is Some,
    {
        match &self.last_switcher_time {
            Some(t) => Some(whole_millis(&elapsed_since(t))),
            None => None,
        }
    }

    /// Whether a switcher layer was opened or closed less than 600 ms ago.
    /// This reads the clock; the comparison with the reading is
    /// `within_switcher_grace`. What is stated here is that it is false when
    /// no switcher time is recorded.
    pub fn recently_switched(&self) -> (b: bool)
        ensures
            b ==> self.last_switcher_time is Some,
    {
        match self.switcher_elapsed_ms() {
            Some(ms) => within_switcher_grace(ms),
            None => false,
        }
    }
}

/// Whether `elapsed_ms` milliseconds after a switcher event still fall in the
/// grace period.
pub fn within_switcher_grace(elapsed_ms: u128) -> (b: bool)
    ensures
        b == (elapsed_ms < SWITCHER_GRACE_MS),
{
    elapsed_ms < SWITCHER_GRACE_MS
}

/// A switcher was seen recently: a switcher time is recorded and the clock
/// reading since it is under 600 ms.
pub open spec fn switcher_recent(st: State, elapsed_ms: Option<u128>) -> bool {
    &&& st.last_switcher_time is Some
    &&& elapsed_ms matches Some(ms)
    &&& ms < SWITCHER_GRACE_MS
}

/// The state after a focus change has been acted on.
pub open spec fn consumed_state() -> State {
    State { switcher_active: false, last_switcher_time: None }
}

// ---------------------------------------------------------------------------
// Parsing
// ---------------------------------------------------------------------------

/// `>>` stands at position `i` of `s`.
pub open spec fn arrow_at(s: Seq<char>, i: int) -> bool {
    0 <= i && i + 1 < s.len() && s[i] == '>' && s[i + 1] == '>'
}

/// `i` is the first position of `>>` in `s`.
pub open spec fn first_arrow(s: Seq<char>, i: int) -> bool {
    arrow_at(s, i) && forall|j: int| 0 <= j < i ==> !#[trigger] arrow_at(s, j)
}

/// An event line `name>>payload`, split at its first `>>`.
pub open spec fn split_event(s: Seq<char>) -> Option<(Seq<char>, Seq<char>)> {
    if exists|i: int| first_arrow(s, i) {
        let i = choose|i: int| first_arrow(s, i);
        Some((s.take(i), s.skip(i + 2)))
    } else {
        None
    }
}

pub open spec fn is_field_sep(c: char) -> bool {
    c == ',' || c == '|'
}

/// The fields of an event payload, separated by `,` or `|`; empty fields
/// count, so there is always at least one.
pub open spec fn fields(s: Seq<char>) -> Seq<Seq<char>>
    decreases s.len(),
{
    if s.len() == 0 {
        seq![Seq::<char>::empty()]
    } else {
        let r = fields(s.drop_last());
        if is_field_sep(s.last()) {
            r.push(Seq::<char>::empty())
        } else {
            r.update(r.len() - 1, r.last().push(s.last()))
        }
    }
}

/// The part of `s` before its first comma.
pub open spec fn before_comma(s: Seq<char>) -> Seq<char>
    decreases s.len(),
{
    if s.len() == 0 {
        s
    } else if s[0] == ',' {
        Seq::<char>::empty()
    } else {
        seq![s[0]] + before_comma(s.drop_first())
    }
}

/// A window address as events spell it, in the `0x...` form that the client
/// list uses: the part before the first comma, trimmed, with `0x` put in
/// front when missing.
pub open spec fn normalize(raw: Seq<char>) -> Seq<char> {
    let clean = trim(before_comma(raw));
    if starts_with(clean, "0x"@) {
        clean
    } else {
        "0x"@ + clean
    }
}

/// A layer surface that belongs to a window switcher or launcher.
pub open spec fn switcher_layer(name: Seq<char>) -> bool {
    names_switcher(lowercase(name))
}

/// An already lowercased layer name that names a switcher or launcher.
pub open spec fn names_switcher(l: Seq<char>) -> bool {
    ||| contains(l, "switcher"@)
    ||| contains(l, "rofi"@)
    ||| contains(l, "walker"@)
    ||| contains(l, "overview"@)
    ||| contains(l, "tab"@)
    ||| contains(l, "launcher"@)
}

proof fn lemma_fields_nonempty(s: Seq<char>)
    ensures
        fields(s).len() >= 1,
    decreases s.len(),
{
    if s.len() > 0 {
        lemma_fields_nonempty(s.drop_last());
    }
}

/// Splits an event payload into its fields, at every `,` and `|`.
pub fn split_fields(payload: &str) -> (r: Vec<String>)
    ensures
        commands(r@) == fields(payload@),
{
    let v = chars_of(payload);
    let mut out: Vec<String> = Vec::new();
    let mut start: usize = 0;
    let mut i: usize = 0;
    proof {
        assert(v@.take(0) == Seq::<char>::empty());
    }
    while i < v.len()
        invariant
            v@ == payload@,
            start <= i <= v.len(),
            commands(out@).push(v@.subrange(start as int, i as int)) == fields(v@.take(i as int)),
        decreases v.len() - i,
    {
        proof {
            assert(v@.take(i + 1).drop_last() == v@.take(i as int));
            assert(v@.take(i + 1).last() == v@[i as int]);
            lemma_fields_nonempty(v@.take(i as int));
        }
        let c = v[i];
        if c == ',' || c == '|' {
            let piece = string_of(&v, start, i);
            let ghost before = out@;
            out.push(piece);
            assert(commands(out@) =~= commands(before).push(v@.subrange(start as int, i as int)));
            start = i + 1;
            assert(v@.subrange(start as int, i + 1) =~= Seq::<char>::empty());
        } else {
            assert(v@.subrange(start as int, i + 1) =~= v@.subrange(start as int, i as int).push(c));
        }
        i = i + 1;
    }
    let last = string_of(&v, start, v.len());
    let ghost before = out@;
    out.push(last);
    assert(commands(out@) =~= commands(before).push(v@.subrange(start as int, v.len() as int)));
    assert(v@.take(v.len() as int) == v@);
    out
}

/// The address named by an event payload, normalized to the `0x...` form.
pub fn normalize_addr(raw: &str) -> (r: String)
    ensures
        r@ == normalize(raw@),
{
    let v = chars_of(raw);
    let mut e: usize = 0;
    assert(v@.skip(0) == v@);
    while e < v.len() && v[e] != ','
        invariant
            v@ == raw@,
            e <= v.len(),
            before_comma(v@) == v@.take(e as int) + before_comma(v@.skip(e as int)),
        decreases v.len() - e,
    {
        assert(v@.skip(e as int).drop_first() == v@.skip(e + 1));
        assert(v@.take(e + 1) == v@.take(e as int).push(v@[e as int]));
        e = e + 1;
    }
    assert(before_comma(v@.skip(e as int)) == Seq::<char>::empty());
    assert(v@.take(e as int) == v@.subrange(0, e as int));
    let (a, b) = trim_bounds(&v, 0, e);
    let prefix = chars_of("0x");
    let has_prefix = b - a >= 2 && range_equals(&v, a, a + 2, &prefix);
    proof {
        reveal_strlit("0x");
        let clean = v@.subrange(a as int, b as int);
        if b - a >= 2 {
            assert(clean.subrange(0, 2) == v@.subrange(a as int, a + 2));
        }
        assert(has_prefix == starts_with(clean, "0x"@));
    }
    if has_prefix {
        string_of(&v, a, b)
    } else {
        let mut s = String::new();
        push_str(&mut s, "0x");
        push_range(&mut s, &v, a, b);
        s
    }
}

/// Whether the layer surface `layer_name` is a window switcher or launcher:
/// its name, ignoring case, contains `switcher`, `rofi`, `walker`,
/// `overview`, `tab` or `launcher`.
pub fn is_switcher_layer(layer_name: &str) -> (b: bool)
    ensures
        b == switcher_layer(layer_name@),
{
    is_switcher_name(to_lowercase(layer_name).as_str())
}

/// Whether an already lowercased layer name contains `switcher`, `rofi`,
/// `walker`, `overview`, `tab` or `launcher`.
pub fn is_switcher_name(lowered: &str) -> (b: bool)
    ensures
        b == names_switcher(lowered@),
{
    let l = chars_of(lowered);
    contains_chars(&l, &chars_of("switcher")) || contains_chars(&l, &chars_of("rofi"))
        || contains_chars(&l, &chars_of("walker")) || contains_chars(&l, &chars_of("overview"))
        || contains_chars(&l, &chars_of("tab")) || contains_chars(&l, &chars_of("launcher"))
}

/// The position of the first `>>` of the line, if any.
fn find_arrow(v: &Vec<char>) -> (r: Option<usize>)
    ensures
        match r {
            Some(i) => first_arrow(v@, i as int),
            None => forall|i: int| !#[trigger] arrow_at(v@, i),
        },
{
    let mut i: usize = 0;
    while i < v.len() && i + 1 < v.len()
        invariant
            i <= v.len(),
            forall|j: int| 0 <= j < i ==> !#[trigger] arrow_at(v@, j),
        decreases v.len() - i,
    {
        if v[i] == '>' && v[i + 1] == '>' {
            return Some(i);
        }
        i = i + 1;
    }
    None
}

/// Splits an event line into its name and payload.
fn split_event_line(event: &str) -> (r: Option<(String, String)>)
    ensures
        match r {
            Some((name, payload)) => split_event(event@) == Some((name@, payload@)),
            None => split_event(event@) is None,
        },
{
    let v = chars_of(event);
    match find_arrow(&v) {
        Some(i) => {
            let name = string_of(&v, 0, i);
            let payload = string_of(&v, i + 2, v.len());
            proof {
                assert(forall|k: int| #[trigger] first_arrow(v@, k) ==> k == i) by {
                    assert forall|k: int| #[trigger] first_arrow(v@, k) implies k == i by {
                        if k < i {
                            assert(!arrow_at(v@, k));
                        } else if k > i {
                            assert(!arrow_at(v@, i as int));
                        }
                    }
                }
                assert(first_arrow(v@, i as int));
                assert(v@.take(i as int) == v@.subrange(0, i as int));
                assert(v@.skip(i + 2) == v@.subrange(i + 2, v.len() as int));
            }
            Some((name, payload))
        },
        None => None,
    }
}

// ---------------------------------------------------------------------------
// The model of event handling
// ---------------------------------------------------------------------------

/// What handling one event leaves behind.
pub struct Outcome {
    pub windows: Seq<WindowView>,
    pub monitors: Map<i32, MonitorView>,
    pub state: State,
    pub commands: Seq<Seq<char>>,
    /// Every shown window is to be hidden next, each after a fresh client list.
    pub hide_shown: bool,
}

/// What one event asks to be done outside the library.
pub struct Reaction {
    /// Commands to send, in order.
    pub commands: Vec<String>,
    /// After sending them, hide every window that is shown, one at a time in
    /// registry order, fetching a fresh client list before each
    /// (`Registry::is_shown`, then `Registry::hide_window`).
    pub hide_shown_windows: bool,
}

/// Registering every visible floating client of the list, in order.
pub open spec fn register_visible(
    s: Seq<WindowView>,
    mons: Map<i32, MonitorView>,
    hide_offset: i32,
    cs: Seq<ClientView>,
) -> (Seq<WindowView>, Seq<Seq<char>>)
    decreases cs.len(),
{
    if cs.len() == 0 {
        (s, seq![])
    } else {
        let (s1, c1) = register_visible(s, mons, hide_offset, cs.drop_last());
        let c = cs.last();
        if c.is_visible_floating() {
            let (s2, c2) = register_client_model(s1, mons, hide_offset, c.address, c);
            (s2, c1 + c2)
        } else {
            (s1, c1)
        }
    }
}

/// A focus change to the window named by `payload`. Unknown visible floating
/// clients are registered first. Focus on a visible floating window restores
/// it; focus elsewhere asks for every managed window to be hidden (the last
/// component, `true`), but only when hover focus is not ignored or a switcher
/// is (or was just) open. Either reaction consumes the switcher state.
pub open spec fn focus_model(
    payload: Seq<char>,
    s: Seq<WindowView>,
    mons: Map<i32, MonitorView>,
    config: &Config,
    st: State,
    clients: Option<Seq<ClientView>>,
    recent: bool,
) -> (Seq<WindowView>, State, Seq<Seq<char>>, bool) {
    let addr = normalize(payload);
    if addr == "0x"@ {
        (s, st, seq![], false)
    } else {
        match clients {
            None => (s, st, seq![], false),
            Some(cs) => {
                let (s1, c1) = register_visible(s, mons, config.hide_offset, cs);
                match find_client(cs, addr) {
                    None => (s1, st, c1, false),
                    Some(f) => if f.is_visible_floating() {
                        let (s2, c2) = restore_model(s1, mons, config.hide_offset, addr);
                        (s2, consumed_state(), c1 + c2, false)
                    } else if !config.ignore_hover || st.switcher_active || recent {
                        (s1, consumed_state(), c1, true)
                    } else {
                        (s1, st, c1, false)
                    },
                }
            },
        }
    }
}

/// A new window: unless ignored, it is registered when floating and mapped.
pub open spec fn open_model(
    payload: Seq<char>,
    s: Seq<WindowView>,
    mons: Map<i32, MonitorView>,
    config: &Config,
    clients: Option<Seq<ClientView>>,
) -> (Seq<WindowView>, Seq<Seq<char>>) {
    let f = fields(payload);
    if f.len() < 4 || ignored_by(patterns(config), f[2], f[3]) {
        (s, seq![])
    } else {
        let addr = normalize(f[0]);
        match clients {
            None => (s, seq![]),
            Some(cs) => match find_client(cs, addr) {
                Some(c) => if c.floating && c.mapped {
                    register_client_model(s, mons, config.hide_offset, addr, c)
                } else {
                    (s, seq![])
                },
                None => (s, seq![]),
            },
        }
    }
}

/// A window moved: `addr,x,y`.
pub open spec fn move_model(
    payload: Seq<char>,
    s: Seq<WindowView>,
    mons: Map<i32, MonitorView>,
    config: &Config,
) -> Seq<WindowView> {
    let f = fields(payload);
    if f.len() < 3 {
        s
    } else {
        match (parse_i32_spec(f[1]), parse_i32_spec(f[2])) {
            (Some(x), Some(y)) => update_position_model(s, mons, config.hide_offset, normalize(f[0]), x, y),
            _ => s,
        }
    }
}

/// A window's floating flag changed: `addr,1` or `addr,0`.
pub open spec fn float_model(
    payload: Seq<char>,
    s: Seq<WindowView>,
    mons: Map<i32, MonitorView>,
    config: &Config,
    clients: Option<Seq<ClientView>>,
) -> (Seq<WindowView>, Seq<Seq<char>>) {
    let f = fields(payload);
    if f.len() < 2 {
        (s, seq![])
    } else {
        update_floating_model(s, mons, config.hide_offset, normalize(f[0]), f[1] == "1"@, clients)
    }
}

/// The effect of one event line, given the client list and monitor list
/// fetched for it, the clock reading in milliseconds since the recorded
/// switcher time, and the current time.
pub open spec fn handle_model(
    line: Seq<char>,
    s: Seq<WindowView>,
    mons: Map<i32, MonitorView>,
    config: &Config,
    st: State,
    clients: Option<Seq<ClientView>>,
    monitor_list: Option<Seq<HyprMonitor>>,
    elapsed_ms: Option<u128>,
    now: Instant,
) -> Outcome {
    let same = Outcome { windows: s, monitors: mons, state: st, commands: seq![], hide_shown: false };
    match split_event(line) {
        None => same,
        Some((name, payload)) => if name == "activewindowv2"@ || name == "activewindow"@ {
            let (s1, st1, c, h) = focus_model(payload, s, mons, config, st, clients, switcher_recent(st, elapsed_ms));
            Outcome { windows: s1, state: st1, commands: c, hide_shown: h, ..same }
        } else if name == "openlayer"@ {
            if switcher_layer(payload) {
                Outcome { state: State { switcher_active: true, last_switcher_time: Some(now) }, ..same }
            } else {
                same
            }
        } else if name == "closelayer"@ {
            if switcher_layer(payload) {
                Outcome { state: State { switcher_active: false, last_switcher_time: Some(now) }, ..same }
            } else {
                same
            }
        } else if name == "openwindow"@ {
            let (s1, c) = open_model(payload, s, mons, config, clients);
            Outcome { windows: s1, commands: c, ..same }
        } else if name == "closewindow"@ {
            Outcome { windows: remove_model(s, normalize(payload)), ..same }
        } else if name == "movewindow"@ {
            Outcome { windows: move_model(payload, s, mons, config), ..same }
        } else if name == "changefloating"@ {
            let (s1, c) = float_model(payload, s, mons, config, clients);
            Outcome { windows: s1, commands: c, ..same }
        } else if name == "monitoradded"@ || name == "monitorremoved"@ {
            match monitor_list {
                Some(l) => Outcome { monitors: monitors_from(l), ..same },
                None => same,
            }
        } else {
            same
        }
    }
}

/// Handling the event line needs a fresh client list.
pub open spec fn wants_clients(line: Seq<char>, config: &Config) -> bool {
    match split_event(line) {
        None => false,
        Some((name, payload)) => {
            let f = fields(payload);
            if name == "activewindowv2"@ || name == "activewindow"@ {
                normalize(payload) != "0x"@
            } else if name == "openwindow"@ {
                f.len() >= 4 && !ignored_by(patterns(config), f[2], f[3])
            } else if name == "changefloating"@ {
                f.len() >= 2 && f[1] == "1"@
            } else {
                false
            }
        },
    }
}

/// Handling the event line needs a fresh monitor list.
pub open spec fn wants_monitors(line: Seq<char>) -> bool {
    match split_event(line) {
        None => false,
        Some((name, payload)) => name == "monitoradded"@ || name == "monitorremoved"@,
    }
}


/// The monitors of an optional monitor list.
pub open spec fn monitor_snapshot(list: Option<Vec<HyprMonitor>>) -> Option<Seq<HyprMonitor>> {
    match list {
        Some(v) => Some(v@),
        None => None,
    }
}

// ---------------------------------------------------------------------------
// Event handlers
// ---------------------------------------------------------------------------

fn handle_open_layer(payload: &str, state: &mut State, now: Instant)
    ensures
        *final(state) == (if switcher_layer(payload@) {
            State { switcher_active: true, last_switcher_time: Some(now) }
        } else {
            *old(state)
        }),
{
    if is_switcher_layer(payload) {
        state.switcher_active = true;
        state.last_switcher_time = Some(now);
    }
}

fn handle_close_layer(payload: &str, state: &mut State, now: Instant)
    ensures
        *final(state) == (if switcher_layer(payload@) {
            State { switcher_active: false, last_switcher_time: Some(now) }
        } else {
            *old(state)
        }),
{
    if is_switcher_layer(payload) {
        state.switcher_active = false;
        state.last_switcher_time = Some(now);
    }
}

fn append_commands(cmds: &mut Vec<String>, more: Vec<String>)
    ensures
        commands(final(cmds)@) == commands(old(cmds)@) + commands(more@),
{
    let mut more = more;
    let ghost a = cmds@;
    let ghost b = more@;
    cmds.append(&mut more);
    proof {
        lemma_commands_append(a, b);
    }
}

fn handle_focus(
    payload: &str,
    registry: &mut Registry,
    monitors: &MonitorCache,
    config: &Config,
    state: &mut State,
    clients: Option<&Vec<HyprClient>>,
    recent: bool,
) -> (r: Reaction)
    requires
        old(registry).wf(),
    ensures
        final(registry).wf(),
        final(registry)@ == focus_model(payload@, old(registry)@, monitors@, config, *old(state), snapshot(clients), recent).0,
        *final(state) == focus_model(payload@, old(registry)@, monitors@, config, *old(state), snapshot(clients), recent).1,
        commands(r.commands@) == focus_model(payload@, old(registry)@, monitors@, config, *old(state), snapshot(clients), recent).2,
        r.hide_shown_windows == focus_model(payload@, old(registry)@, monitors@, config, *old(state), snapshot(clients), recent).3,
{
    let addr = normalize_addr(payload);
    if str_equals(addr.as_str(), "0x") {
        return only(no_commands());
    }
    let cs = match clients {
        Some(cs) => cs,
        None => return only(no_commands()),
    };
    let ghost views = client_views(cs@);
    let mut cmds = no_commands();
    let mut i: usize = 0;
    while i < cs.len()
        invariant
            registry.wf(),
            i <= cs.len(),
            views == client_views(cs@),
            registry@ == register_visible(old(registry)@, monitors@, config.hide_offset, views.take(i as int)).0,
            commands(cmds@) == register_visible(old(registry)@, monitors@, config.hide_offset, views.take(i as int)).1,
        decreases cs.len() - i,
    {
        assert(views.take(i + 1).drop_last() == views.take(i as int));
        assert(views.take(i + 1).last() == cs@[i as int]@);
        let c = &cs[i];
        if c.floating && c.mapped && !c.hidden {
            if !registry.contains(c.address.as_str()) {
                let mon_name = monitors.monitor_name(c.monitor);
                let r = registry.register(
                    c.address.as_str(),
                    c.workspace.id,
                    mon_name.as_str(),
                    c.at[0],
                    c.at[1],
                    c.size[0],
                    c.size[1],
                    monitors,
                    config.hide_offset,
                );
                append_commands(&mut cmds, r);
            } else {
                assert(commands(cmds@) + Seq::<Seq<char>>::empty() == commands(cmds@));
            }
        }
        i = i + 1;
    }
    assert(views.take(i as int) == views);
    match first_client(cs, addr.as_str()) {
        None => only(cmds),
        Some(f) => {
            if f.floating && f.mapped && !f.hidden {
                let r = registry.restore(addr.as_str(), monitors, config.hide_offset);
                append_commands(&mut cmds, r);
                state.switcher_active = false;
                state.last_switcher_time = None;
                only(cmds)
            } else if !config.ignore_hover || state.switcher_active || recent {
                state.switcher_active = false;
                state.last_switcher_time = None;
                Reaction { commands: cmds, hide_shown_windows: true }
            } else {
                only(cmds)
            }
        },
    }
}

/// A reaction that only sends commands.
fn only(commands: Vec<String>) -> (r: Reaction)
    ensures
        r.commands == commands,
        !r.hide_shown_windows,
{
    Reaction { commands, hide_shown_windows: false }
}

fn handle_open(
    payload: &str,
    registry: &mut Registry,
    monitors: &MonitorCache,
    config: &Config,
    clients: Option<&Vec<HyprClient>>,
) -> (cmds: Vec<String>)
    requires
        old(registry).wf(),
    ensures
        final(registry).wf(),
        final(registry)@ == open_model(payload@, old(registry)@, monitors@, config, snapshot(clients)).0,
        commands(cmds@) == open_model(payload@, old(registry)@, monitors@, config, snapshot(clients)).1,
{
    let f = split_fields(payload);
    proof {
        assert(f@.len() == fields(payload@).len());
        if f@.len() >= 4 {
            assert(f@[2]@ == fields(payload@)[2]);
            assert(f@[3]@ == fields(payload@)[3]);
            assert(f@[0]@ == fields(payload@)[0]);
        }
    }
    if f.len() < 4 {
        return no_commands();
    }
    if config.should_ignore(f[2].as_str(), f[3].as_str()) {
        return no_commands();
    }
    let addr = normalize_addr(f[0].as_str());
    match clients {
        None => no_commands(),
        Some(cs) => match first_client(cs, addr.as_str()) {
            Some(c) => {
                if c.floating && c.mapped {
                    let mon_name = monitors.monitor_name(c.monitor);
                    registry.register(
                        addr.as_str(),
                        c.workspace.id,
                        mon_name.as_str(),
                        c.at[0],
                        c.at[1],
                        c.size[0],
                        c.size[1],
                        monitors,
                        config.hide_offset,
                    )
                } else {
                    no_commands()
                }
            },
            None => no_commands(),
        },
    }
}

fn handle_close(payload: &str, registry: &mut Registry)
    requires
        old(registry).wf(),
    ensures
        final(registry).wf(),
        final(registry)@ == remove_model(old(registry)@, normalize(payload@)),
{
    let addr = normalize_addr(payload);
    registry.remove(addr.as_str());
}

fn parse_i32_text(s: &str) -> (r: Option<i32>)
    ensures
        r == parse_i32_spec(s@),
{
    let v = chars_of(s);
    assert(v@.subrange(0, v.len() as int) == v@);
    parse_i32_range(&v, 0, v.len())
}

fn handle_move(payload: &str, registry: &mut Registry, monitors: &MonitorCache, config: &Config)
    requires
        old(registry).wf(),
    ensures
        final(registry).wf(),
        final(registry)@ == move_model(payload@, old(registry)@, monitors@, config),
{
    let f = split_fields(payload);
    proof {
        assert(f@.len() == fields(payload@).len());
        if f@.len() >= 3 {
            assert(f@[0]@ == fields(payload@)[0]);
            assert(f@[1]@ == fields(payload@)[1]);
            assert(f@[2]@ == fields(payload@)[2]);
        }
    }
    if f.len() < 3 {
        return ;
    }
    let addr = normalize_addr(f[0].as_str());
    match (parse_i32_text(f[1].as_str()), parse_i32_text(f[2].as_str())) {
        (Some(x), Some(y)) => registry.update_position(addr.as_str(), x, y, monitors, config.hide_offset),
        _ => {},
    }
}

fn handle_float_change(
    payload: &str,
    registry: &mut Registry,
    monitors: &MonitorCache,
    config: &Config,
    clients: Option<&Vec<HyprClient>>,
) -> (cmds: Vec<String>)
    requires
        old(registry).wf(),
    ensures
        final(registry).wf(),
        final(registry)@ == float_model(payload@, old(registry)@, monitors@, config, snapshot(clients)).0,
        commands(cmds@) == float_model(payload@, old(registry)@, monitors@, config, snapshot(clients)).1,
{
    let f = split_fields(payload);
    proof {
        assert(f@.len() == fields(payload@).len());
        if f@.len() >= 2 {
            assert(f@[0]@ == fields(payload@)[0]);
            assert(f@[1]@ == fields(payload@)[1]);
        }
    }
    if f.len() < 2 {
        return no_commands();
    }
    let addr = normalize_addr(f[0].as_str());
    let floating = str_equals(f[1].as_str(), "1");
    registry.update_floating(addr.as_str(), floating, clients, monitors, config.hide_offset)
}


/// Handles one event line given everything it needs from outside: the client
/// list fetched for it (`None` when none was fetched or it could not be
/// parsed), the monitor list likewise, the clock reading in milliseconds
/// since the recorded switcher time, and the current time. The result is the commands to send,
/// in order.
pub fn handle_at(
    event: &str,
    registry: &mut Registry,
    monitors: &mut MonitorCache,
    config: &Config,
    state: &mut State,
    clients: Option<&Vec<HyprClient>>,
    monitor_list: Option<Vec<HyprMonitor>>,
    switcher_elapsed_ms: Option<u128>,
    now: Instant,
) -> (r: Reaction)
    requires
        old(registry).wf(),
    ensures
        final(registry).wf(),
        final(registry)@ == handle_model(event@, old(registry)@, old(monitors)@, config, *old(state), snapshot(clients), monitor_snapshot(monitor_list), switcher_elapsed_ms, now).windows,
        final(monitors)@ == handle_model(event@, old(registry)@, old(monitors)@, config, *old(state), snapshot(clients), monitor_snapshot(monitor_list), switcher_elapsed_ms, now).monitors,
        *final(state) == handle_model(event@, old(registry)@, old(monitors)@, config, *old(state), snapshot(clients), monitor_snapshot(monitor_list), switcher_elapsed_ms, now).state,
        commands(r.commands@) == handle_model(event@, old(registry)@, old(monitors)@, config, *old(state), snapshot(clients), monitor_snapshot(monitor_list), switcher_elapsed_ms, now).commands,
        r.hide_shown_windows == handle_model(event@, old(registry)@, old(monitors)@, config, *old(state), snapshot(clients), monitor_snapshot(monitor_list), switcher_elapsed_ms, now).hide_shown,
{
    let (name, payload) = match split_event_line(event) {
        Some(parts) => parts,
        None => return only(no_commands()),
    };
    let name = name.as_str();
    let payload = payload.as_str();
    if str_equals(name, "activewindowv2") || str_equals(name, "activewindow") {
        let recent = match (&state.last_switcher_time, switcher_elapsed_ms) {
            (Some(_), Some(ms)) => within_switcher_grace(ms),
            _ => false,
        };
        handle_focus(payload, registry, monitors, config, state, clients, recent)
    } else if str_equals(name, "openlayer") {
        handle_open_layer(payload, state, now);
        only(no_commands())
    } else if str_equals(name, "closelayer") {
        handle_close_layer(payload, state, now);
        only(no_commands())
    } else if str_equals(name, "openwindow") {
        only(handle_open(payload, registry, monitors, config, clients))
    } else if str_equals(name, "closewindow") {
        handle_close(payload, registry);
        only(no_commands())
    } else if str_equals(name, "movewindow") {
        handle_move(payload, registry, monitors, config);
        only(no_commands())
    } else if str_equals(name, "changefloating") {
        only(handle_float_change(payload, registry, monitors, config, clients))
    } else if str_equals(name, "monitoradded") || str_equals(name, "monitorremoved") {
        match monitor_list {
            Some(list) => monitors.refresh(list),
            None => {},
        }
        only(no_commands())
    } else {
        only(no_commands())
    }
}

/// Handles one event line, reading the clock for the switcher grace period.
/// The outcome is that of `handle_at` for some clock reading, taken exactly
/// when a switcher time is recorded.
pub fn handle(
    event: &str,
    registry: &mut Registry,
    monitors: &mut MonitorCache,
    config: &Config,
    state: &mut State,
    clients: Option<&Vec<HyprClient>>,
    monitor_list: Option<Vec<HyprMonitor>>,
) -> (r: Reaction)
    requires
        old(registry).wf(),
    ensures
        final(registry).wf(),
        exists|elapsed_ms: Option<u128>, now: Instant|
            #![trigger handle_model(event@, old(registry)@, old(monitors)@, config, *old(state), snapshot(clients), monitor_snapshot(monitor_list), elapsed_ms, now)]
            {
                let o = handle_model(event@, old(registry)@, old(monitors)@, config, *old(state), snapshot(clients), monitor_snapshot(monitor_list), elapsed_ms, now);
                &&& (elapsed_ms is Some <==> old(state).last_switcher_time is Some)
                &&& final(registry)@ == o.windows
                &&& final(monitors)@ == o.monitors
                &&& *final(state) == o.state
                &&& commands(r.commands@) == o.commands
                &&& r.hide_shown_windows == o.hide_shown
            },
{
    let elapsed_ms = state.switcher_elapsed_ms();
    let now = instant_now();
    handle_at(event, registry, monitors, config, state, clients, monitor_list, elapsed_ms, now)
}

/// Whether handling the event line needs a fresh client list.
pub fn needs_clients(event: &str, config: &Config) -> (b: bool)
    ensures
        b == wants_clients(event@, config),
{
    let (name, payload) = match split_event_line(event) {
        Some(parts) => parts,
        None => return false,
    };
    let name = name.as_str();
    let payload = payload.as_str();
    if str_equals(name, "activewindowv2") || str_equals(name, "activewindow") {
        let addr = normalize_addr(payload);
        !str_equals(addr.as_str(), "0x")
    } else if str_equals(name, "openwindow") {
        let f = split_fields(payload);
        proof {
            assert(f@.len() == fields(payload@).len());
            if f@.len() >= 4 {
                assert(f@[2]@ == fields(payload@)[2]);
                assert(f@[3]@ == fields(payload@)[3]);
            }
        }
        f.len() >= 4 && !config.should_ignore(f[2].as_str(), f[3].as_str())
    } else if str_equals(name, "changefloating") {
        let f = split_fields(payload);
        proof {
            assert(f@.len() == fields(payload@).len());
            if f@.len() >= 2 {
                assert(f@[1]@ == fields(payload@)[1]);
            }
        }
        f.len() >= 2 && str_equals(f[1].as_str(), "1")
    } else {
        false
    }
}

/// Whether handling the event line needs a fresh monitor list.
pub fn needs_monitors(event: &str) -> (b: bool)
    ensures
        b == wants_monitors(event@),
{
    match split_event_line(event) {
        Some((name, _)) => str_equals(name.as_str(), "monitoradded") || str_equals(name.as_str(), "monitorremoved"),
        None => false,
    }
}

} // verus!
