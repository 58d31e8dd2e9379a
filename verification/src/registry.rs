//! The registry of managed floating windows: where each one was last seen on
//! screen, and whether it is hidden below its monitor.
//!
//! Every operation changes the registry and returns the Hyprland commands
//! that carry the change out, in the order in which they are to be sent.
use vstd::prelude::*;

use crate::monitor::{monitor_name_of, offscreen_y_of, MonitorCache};
use crate::text::{decimal, push_decimal, push_str, str_equals};
use crate::types::{client_views, ClientView, HyprClient, MonitorView, WindowEntry, WindowView};

verus! {

/// How far above the off-screen line a window still counts as on screen.
pub const OFFSCREEN_MARGIN: i64 = 50;

/// The off-screen line used to judge positions when the window's monitor is unknown.
pub const FALLBACK_LINE: i64 = 1200;

/// Where windows of an unknown monitor are moved when hidden.
pub const FALLBACK_HIDE_Y: i64 = 10000;

/// The y coordinate that replaces a saved position found off screen.
pub const RESET_Y: i32 = 200;

// ---------------------------------------------------------------------------
// Commands
// ---------------------------------------------------------------------------

/// Turns off Hyprland's animation for a window.
pub open spec fn set_prop_command(addr: Seq<char>) -> Seq<char> {
    "dispatch hl.dsp.window.set_prop({ prop = \"animation\", value = \"none\", window = \"address:"@
        + addr + "\" })"@
}

/// Moves a window to the given position.
pub open spec fn move_command(x: int, y: int, addr: Seq<char>) -> Seq<char> {
    "dispatch hl.dsp.window.move({ x = "@ + decimal(x) + ", y = "@ + decimal(y)
        + ", window = \"address:"@ + addr + "\" })"@
}

/// Moves the cursor to the given position.
pub open spec fn cursor_command(x: int, y: int) -> Seq<char> {
    "dispatch hl.dsp.cursor.move({ x = "@ + decimal(x) + ", y = "@ + decimal(y) + " })"@
}

fn set_prop_cmd(addr: &str) -> (r: String)
    ensures
        r@ == set_prop_command(addr@),
{
    let mut s = String::new();
    push_str(&mut s, "dispatch hl.dsp.window.set_prop({ prop = \"animation\", value = \"none\", window = \"address:");
    push_str(&mut s, addr);
    push_str(&mut s, "\" })");
    s
}

fn move_cmd(x: i64, y: i64, addr: &str) -> (r: String)
    ensures
        r@ == move_command(x as int, y as int, addr@),
{
    let mut s = String::new();
    push_str(&mut s, "dispatch hl.dsp.window.move({ x = ");
    push_decimal(&mut s, x);
    push_str(&mut s, ", y = ");
    push_decimal(&mut s, y);
    push_str(&mut s, ", window = \"address:");
    push_str(&mut s, addr);
    push_str(&mut s, "\" })");
    s
}

fn cursor_cmd(x: i64, y: i64) -> (r: String)
    ensures
        r@ == cursor_command(x as int, y as int),
{
    let mut s = String::new();
    push_str(&mut s, "dispatch hl.dsp.cursor.move({ x = ");
    push_decimal(&mut s, x);
    push_str(&mut s, ", y = ");
    push_decimal(&mut s, y);
    push_str(&mut s, " })");
    s
}

/// The command strings of a list of commands.
pub open spec fn commands(v: Seq<String>) -> Seq<Seq<char>> {
    v.map_values(|s: String| s@)
}

// ---------------------------------------------------------------------------
// The model
// ---------------------------------------------------------------------------

pub open spec fn addrs_distinct(s: Seq<WindowView>) -> bool {
    forall|i: int, j: int| 0 <= i < s.len() && 0 <= j < s.len() && i != j ==> s[i].addr != s[j].addr
}

pub open spec fn has_addr(s: Seq<WindowView>, addr: Seq<char>) -> bool {
    exists|i: int| 0 <= i < s.len() && s[i].addr == addr
}

/// The position of the window `addr` (meaningful when `has_addr`).
pub open spec fn index_of(s: Seq<WindowView>, addr: Seq<char>) -> int {
    choose|i: int| 0 <= i < s.len() && s[i].addr == addr
}

/// The window `addr`, when it is registered.
pub open spec fn window_of(s: Seq<WindowView>, addr: Seq<char>) -> Option<WindowView> {
    if has_addr(s, addr) {
        Some(s[index_of(s, addr)])
    } else {
        None
    }
}

/// The addresses of the windows, in registry order.
pub open spec fn addrs_of(s: Seq<WindowView>) -> Seq<Seq<char>> {
    s.map_values(|e: WindowView| e.addr)
}

/// `y` is on screen with respect to the off-screen line `line`.
pub open spec fn on_screen(y: int, line: int) -> bool {
    y < line - OFFSCREEN_MARGIN
}

/// Integer halving that rounds toward zero, as `/ 2` does on `i32`.
pub open spec fn half(v: int) -> int {
    if v >= 0 {
        v / 2
    } else {
        -((-v) / 2)
    }
}

/// The first client with the given address.
pub open spec fn find_client(cs: Seq<ClientView>, addr: Seq<char>) -> Option<ClientView>
    decreases cs.len(),
{
    if cs.len() == 0 {
        None
    } else if cs[0].address == addr {
        Some(cs[0])
    } else {
        find_client(cs.drop_first(), addr)
    }
}

/// The client views of an optional client list.
pub open spec fn snapshot(clients: Option<&Vec<HyprClient>>) -> Option<Seq<ClientView>> {
    match clients {
        Some(v) => Some(client_views(v@)),
        None => None,
    }
}

/// A newly registered window: a window found off screen is recorded as
/// hidden, with its saved position reset to y = 200.
pub open spec fn new_window(
    addr: Seq<char>,
    workspace: i32,
    monitor: Seq<char>,
    x: i32,
    y: i32,
    width: i32,
    height: i32,
    line: int,
) -> WindowView {
    let off = !on_screen(y as int, line);
    WindowView {
        addr,
        workspace,
        monitor,
        saved_x: x,
        saved_y: if off {
            RESET_Y
        } else {
            y
        },
        width,
        height,
        hidden: off,
    }
}

/// The result of registering a window that is not yet known.
pub open spec fn register_model(
    s: Seq<WindowView>,
    mons: Map<i32, MonitorView>,
    hide_offset: i32,
    addr: Seq<char>,
    workspace: i32,
    monitor: Seq<char>,
    x: i32,
    y: i32,
    width: i32,
    height: i32,
) -> (Seq<WindowView>, Seq<Seq<char>>) {
    if has_addr(s, addr) {
        (s, seq![])
    } else {
        let line = offscreen_y_of(mons, monitor, hide_offset as int, FALLBACK_LINE as int);
        (
            s.push(new_window(addr, workspace, monitor, x, y, width, height, line)),
            seq![set_prop_command(addr)],
        )
    }
}

pub open spec fn remove_model(s: Seq<WindowView>, addr: Seq<char>) -> Seq<WindowView> {
    if has_addr(s, addr) {
        s.remove(index_of(s, addr))
    } else {
        s
    }
}

/// The window once the fresh client record has been taken into account: its
/// position is saved when on screen, its size always.
pub open spec fn refreshed(e: WindowView, c: Option<ClientView>, line: int) -> WindowView {
    match c {
        Some(c) => WindowView {
            saved_x: if on_screen(c.y as int, line) {
                c.x
            } else {
                e.saved_x
            },
            saved_y: if on_screen(c.y as int, line) {
                c.y
            } else {
                e.saved_y
            },
            width: c.width,
            height: c.height,
            ..e
        },
        None => e,
    }
}

/// Hiding one window: a visible window takes the fresh position from the
/// client list, is marked hidden and is moved below its monitor.
pub open spec fn hide_model(
    s: Seq<WindowView>,
    mons: Map<i32, MonitorView>,
    hide_offset: i32,
    addr: Seq<char>,
    clients: Option<Seq<ClientView>>,
) -> (Seq<WindowView>, Seq<Seq<char>>) {
    if !has_addr(s, addr) || s[index_of(s, addr)].hidden {
        (s, seq![])
    } else {
        let i = index_of(s, addr);
        let e = s[i];
        let c = match clients {
            Some(cs) => find_client(cs, addr),
            None => None,
        };
        let line = offscreen_y_of(mons, e.monitor, hide_offset as int, FALLBACK_LINE as int);
        let e1 = refreshed(e, c, line);
        let target = offscreen_y_of(mons, e.monitor, hide_offset as int, FALLBACK_HIDE_Y as int);
        (
            s.update(i, WindowView { hidden: true, ..e1 }),
            seq![move_command(e1.saved_x as int, target, addr)],
        )
    }
}

/// Restoring one window: a hidden window goes back to its saved position
/// (reset to y = 200 when that position is off screen) and the cursor is
/// moved to its centre.
pub open spec fn restore_model(
    s: Seq<WindowView>,
    mons: Map<i32, MonitorView>,
    hide_offset: i32,
    addr: Seq<char>,
) -> (Seq<WindowView>, Seq<Seq<char>>) {
    if !has_addr(s, addr) || !s[index_of(s, addr)].hidden {
        (s, seq![])
    } else {
        let i = index_of(s, addr);
        let e = s[i];
        let line = offscreen_y_of(mons, e.monitor, hide_offset as int, FALLBACK_LINE as int);
        let y = if on_screen(e.saved_y as int, line) {
            e.saved_y
        } else {
            RESET_Y
        };
        (
            s.update(i, WindowView { saved_y: y, hidden: false, ..e }),
            seq![
                move_command(e.saved_x as int, y as int, addr),
                cursor_command(e.saved_x + half(e.width as int), y + half(e.height as int)),
            ],
        )
    }
}

/// Hiding the windows `addrs`, one after the other; `fetched[k]` is the
/// client list fetched just before hiding `addrs[k]`.
pub open spec fn hide_each(
    s: Seq<WindowView>,
    mons: Map<i32, MonitorView>,
    hide_offset: i32,
    addrs: Seq<Seq<char>>,
    fetched: Seq<Option<Seq<ClientView>>>,
) -> (Seq<WindowView>, Seq<Seq<char>>)
    decreases addrs.len(),
{
    if addrs.len() == 0 {
        (s, seq![])
    } else {
        let (s1, c1) = hide_each(s, mons, hide_offset, addrs.drop_last(), fetched);
        let (s2, c2) = hide_model(s1, mons, hide_offset, addrs.last(), fetched[addrs.len() - 1]);
        (s2, c1 + c2)
    }
}

/// Restoring the windows `addrs`, one after the other.
pub open spec fn restore_each(
    s: Seq<WindowView>,
    mons: Map<i32, MonitorView>,
    hide_offset: i32,
    addrs: Seq<Seq<char>>,
) -> (Seq<WindowView>, Seq<Seq<char>>)
    decreases addrs.len(),
{
    if addrs.len() == 0 {
        (s, seq![])
    } else {
        let (s1, c1) = restore_each(s, mons, hide_offset, addrs.drop_last());
        let (s2, c2) = restore_model(s1, mons, hide_offset, addrs.last());
        (s2, c1 + c2)
    }
}

pub open spec fn update_position_model(
    s: Seq<WindowView>,
    mons: Map<i32, MonitorView>,
    hide_offset: i32,
    addr: Seq<char>,
    x: i32,
    y: i32,
) -> Seq<WindowView> {
    if !has_addr(s, addr) {
        s
    } else {
        let i = index_of(s, addr);
        let e = s[i];
        let line = offscreen_y_of(mons, e.monitor, hide_offset as int, FALLBACK_LINE as int);
        if !e.hidden && on_screen(y as int, line) {
            s.update(i, WindowView { saved_x: x, saved_y: y, ..e })
        } else {
            s
        }
    }
}

/// Registering the window `addr` from its client record.
pub open spec fn register_client_model(
    s: Seq<WindowView>,
    mons: Map<i32, MonitorView>,
    hide_offset: i32,
    addr: Seq<char>,
    c: ClientView,
) -> (Seq<WindowView>, Seq<Seq<char>>) {
    register_model(
        s,
        mons,
        hide_offset,
        addr,
        c.workspace,
        monitor_name_of(mons, c.monitor),
        c.x,
        c.y,
        c.width,
        c.height,
    )
}

pub open spec fn update_floating_model(
    s: Seq<WindowView>,
    mons: Map<i32, MonitorView>,
    hide_offset: i32,
    addr: Seq<char>,
    floating: bool,
    clients: Option<Seq<ClientView>>,
) -> (Seq<WindowView>, Seq<Seq<char>>) {
    if floating {
        match clients {
            Some(cs) => match find_client(cs, addr) {
                Some(c) => register_client_model(s, mons, hide_offset, addr, c),
                None => (s, seq![]),
            },
            None => (s, seq![]),
        }
    } else {
        (remove_model(s, addr), seq![])
    }
}

/// Inserts `e`, replacing a window with the same address.
pub open spec fn upsert(s: Seq<WindowView>, e: WindowView) -> Seq<WindowView> {
    if has_addr(s, e.addr) {
        s.update(index_of(s, e.addr), e)
    } else {
        s.push(e)
    }
}

/// The start-up scan: every visible floating client is (re)registered.
pub open spec fn scan_model(
    s: Seq<WindowView>,
    mons: Map<i32, MonitorView>,
    hide_offset: i32,
    cs: Seq<ClientView>,
) -> (Seq<WindowView>, Seq<Seq<char>>)
    decreases cs.len(),
{
    if cs.len() == 0 {
        (s, seq![])
    } else {
        let (s1, c1) = scan_model(s, mons, hide_offset, cs.drop_last());
        let c = cs.last();
        if c.is_visible_floating() {
            let mon = monitor_name_of(mons, c.monitor);
            let line = offscreen_y_of(mons, mon, hide_offset as int, FALLBACK_LINE as int);
            (
                upsert(s1, new_window(c.address, c.workspace, mon, c.x, c.y, c.width, c.height, line)),
                c1.push(set_prop_command(c.address)),
            )
        } else {
            (s1, c1)
        }
    }
}

// ---------------------------------------------------------------------------
// The registry
// ---------------------------------------------------------------------------

/// The managed windows, each address at most once.
pub struct Registry {
    windows: Vec<WindowEntry>,
}

impl View for Registry {
    type V = Seq<WindowView>;

    open spec fn view(&self) -> Seq<WindowView> {
        self.entries()
    }
}

impl Registry {
    pub closed spec fn entries(&self) -> Seq<WindowView> {
        self.windows@.map_values(|e: WindowEntry| e@)
    }

    /// No address occurs twice.
    pub open spec fn wf(&self) -> bool {
        addrs_distinct(self@)
    }

    /// An empty registry.
    pub fn new() -> (r: Self)
        ensures
            r@ == Seq::<WindowView>::empty(),
            r.wf(),
    {
        let r = Registry { windows: Vec::new() };
        assert(r@ =~= Seq::<WindowView>::empty());
        r
    }

    /// The number of managed windows.
    pub fn len(&self) -> (n: usize)
        ensures
            n == self@.len(),
    {
        self.windows.len()
    }

    /// The managed window at position `i`.
    pub fn get(&self, i: usize) -> (e: &WindowEntry)
        requires
            i < self@.len(),
        ensures
            e@ == self@[i as int],
    {
        &self.windows[i]
    }

    fn find(&self, addr: &str) -> (r: Option<usize>)
        requires
            self.wf(),
        ensures
            match r {
                Some(i) => has_addr(self@, addr@) && i == index_of(self@, addr@) && i < self@.len(),
                None => !has_addr(self@, addr@),
            },
    {
        let mut i: usize = 0;
        while i < self.windows.len()
            invariant
                self.wf(),
                i <= self.windows.len(),
                forall|j: int| 0 <= j < i ==> self@[j].addr != addr@,
            decreases self.windows.len() - i,
        {
            if str_equals(self.windows[i].addr.as_str(), addr) {
                assert(self@[i as int].addr == addr@);
                let ghost k = index_of(self@, addr@);
                assert(self@[k].addr == addr@);
                return Some(i);
            }
            i = i + 1;
        }
        None
    }

    /// Whether the window `addr` is managed.
    pub fn contains(&self, addr: &str) -> (b: bool)
        requires
            self.wf(),
        ensures
            b == has_addr(self@, addr@),
    {
        self.find(addr).is_some()
    }

    /// Whether the window `addr` is managed and currently shown. Only such a
    /// window is hidden, after a client list is fetched for it; for any other
    /// `hide_window` does nothing whatever list it gets.
    pub fn is_shown(&self, addr: &str) -> (b: bool)
        requires
            self.wf(),
        ensures
            b == (has_addr(self@, addr@) && !self@[index_of(self@, addr@)].hidden),
    {
        match self.find(addr) {
            Some(i) => !self.windows[i].hidden,
            None => false,
        }
    }

    /// The addresses of the managed windows, in registry order.
    pub fn addrs(&self) -> (v: Vec<String>)
        ensures
            commands(v@) == addrs_of(self@),
    {
        let mut v: Vec<String> = Vec::new();
        let mut i: usize = 0;
        while i < self.windows.len()
            invariant
                i <= self.windows.len(),
                self@.len() == self.windows.len(),
                v@.len() == i,
                commands(v@) == addrs_of(self@).take(i as int),
            decreases self.windows.len() - i,
        {
            let a = self.windows[i].addr.clone();
            assert(a@ == self@[i as int].addr);
            let ghost before = v@;
            v.push(a);
            assert(v@ == before.push(a));
            assert forall|j: int| 0 <= j < i + 1 implies #[trigger] commands(v@)[j] == addrs_of(self@)[j] by {
                assert(commands(v@)[j] == v@[j]@);
                assert(addrs_of(self@)[j] == self@[j].addr);
                if j < i {
                    assert(commands(before)[j] == addrs_of(self@).take(i as int)[j]);
                    assert(commands(before)[j] == before[j]@);
                }
            }
            assert(commands(v@) =~= addrs_of(self@).take(i + 1));
            i = i + 1;
        }
        assert(addrs_of(self@).take(i as int) == addrs_of(self@));
        v
    }
}


pub(crate) proof fn lemma_update_keeps_distinct(s: Seq<WindowView>, i: int, e: WindowView)
    requires
        addrs_distinct(s),
        0 <= i < s.len(),
        e.addr == s[i].addr,
    ensures
        addrs_distinct(s.update(i, e)),
        forall|a: Seq<char>| has_addr(s.update(i, e), a) == has_addr(s, a),
        forall|a: Seq<char>| #[trigger] has_addr(s, a) ==> index_of(s.update(i, e), a) == index_of(s, a),
{
    let t = s.update(i, e);
    assert forall|a: Seq<char>| has_addr(t, a) == has_addr(s, a) by {
        if has_addr(s, a) {
            let k = choose|k: int| 0 <= k < s.len() && s[k].addr == a;
            assert(t[k].addr == a);
        }
        if has_addr(t, a) {
            let k = choose|k: int| 0 <= k < t.len() && t[k].addr == a;
            assert(s[k].addr == a);
        }
    }
    assert forall|a: Seq<char>| #[trigger] has_addr(s, a) implies index_of(t, a) == index_of(s, a) by {
        let k = index_of(s, a);
        let k2 = index_of(t, a);
        assert(t[k].addr == a);
    }
}

pub(crate) proof fn lemma_index_of(s: Seq<WindowView>, i: int)
    requires
        addrs_distinct(s),
        0 <= i < s.len(),
    ensures
        has_addr(s, s[i].addr),
        index_of(s, s[i].addr) == i,
{
    assert(has_addr(s, s[i].addr));
}

pub(crate) proof fn lemma_push_keeps_distinct(s: Seq<WindowView>, e: WindowView)
    requires
        addrs_distinct(s),
        !has_addr(s, e.addr),
    ensures
        addrs_distinct(s.push(e)),
{
    let t = s.push(e);
    assert forall|i: int, j: int| 0 <= i < t.len() && 0 <= j < t.len() && i != j implies t[i].addr
        != t[j].addr by {
        if i < s.len() && j < s.len() {
            assert(t[i] == s[i] && t[j] == s[j]);
        } else if i < s.len() {
            assert(t[i] == s[i]);
        } else {
            assert(t[j] == s[j]);
        }
    }
}

pub(crate) proof fn lemma_remove_keeps_distinct(s: Seq<WindowView>, i: int)
    requires
        addrs_distinct(s),
        0 <= i < s.len(),
    ensures
        addrs_distinct(s.remove(i)),
{
    let t = s.remove(i);
    assert forall|a: int, b: int| 0 <= a < t.len() && 0 <= b < t.len() && a != b implies t[a].addr
        != t[b].addr by {
        let a2 = if a < i { a } else { a + 1 };
        let b2 = if b < i { b } else { b + 1 };
        assert(t[a] == s[a2] && t[b] == s[b2]);
    }
}

proof fn lemma_find_client_skip(cs: Seq<ClientView>, addr: Seq<char>, i: int)
    requires
        0 <= i < cs.len(),
    ensures
        find_client(cs.skip(i), addr) == (if cs[i].address == addr {
            Some(cs[i])
        } else {
            find_client(cs.skip(i + 1), addr)
        }),
{
    assert(cs.skip(i)[0] == cs[i]);
    assert(cs.skip(i).drop_first() == cs.skip(i + 1));
}

/// The first client with address `addr` in the list.
pub(crate) fn first_client<'a>(clients: &'a Vec<HyprClient>, addr: &str) -> (r: Option<&'a HyprClient>)
    ensures
        match r {
            Some(c) => find_client(client_views(clients@), addr@) == Some(c@),
            None => find_client(client_views(clients@), addr@) is None,
        },
{
    let ghost cs = client_views(clients@);
    let mut i: usize = 0;
    assert(cs.skip(0) == cs);
    while i < clients.len()
        invariant
            cs == client_views(clients@),
            i <= clients.len(),
            find_client(cs, addr@) == find_client(cs.skip(i as int), addr@),
        decreases clients.len() - i,
    {
        proof {
            lemma_find_client_skip(cs, addr@, i as int);
        }
        if str_equals(clients[i].address.as_str(), addr) {
            return Some(&clients[i]);
        }
        i = i + 1;
    }
    assert(cs.skip(i as int).len() == 0);
    None
}

impl Registry {
    proof fn lemma_view_len(&self)
        ensures
            self@.len() == self.windows@.len(),
            forall|i: int| 0 <= i < self@.len() ==> #[trigger] self@[i] == self.windows@[i]@,
    {
    }

    /// Replaces the window at position `i` by `e`, which has the same address.
    fn set_entry(&mut self, i: usize, e: WindowEntry)
        requires
            old(self).wf(),
            i < old(self)@.len(),
            e.addr@ == old(self)@[i as int].addr,
        ensures
            final(self)@ == old(self)@.update(i as int, e@),
            final(self).wf(),
    {
        proof {
            old(self).lemma_view_len();
            lemma_update_keeps_distinct(old(self)@, i as int, e@);
        }
        self.windows[i] = e;
        assert(self@ =~= old(self)@.update(i as int, e@));
    }

    fn push_entry(&mut self, e: WindowEntry)
        requires
            old(self).wf(),
            !has_addr(old(self)@, e.addr@),
        ensures
            final(self)@ == old(self)@.push(e@),
            final(self).wf(),
    {
        proof {
            lemma_push_keeps_distinct(old(self)@, e@);
        }
        self.windows.push(e);
        assert(self@ =~= old(self)@.push(e@));
    }

    /// Starts managing a floating window that is not managed yet. A window
    /// found off screen (at or below 50 pixels above its monitor's off-screen
    /// line) is recorded as hidden, with y = 200 as its saved position. The
    /// result is the command that turns off the window's animation.
    pub fn register(
        &mut self,
        addr: &str,
        workspace: i32,
        monitor: &str,
        x: i32,
        y: i32,
        width: i32,
        height: i32,
        monitors: &MonitorCache,
        hide_offset: i32,
    ) -> (cmds: Vec<String>)
        requires
            old(self).wf(),
        ensures
            final(self).wf(),
            final(self)@ == register_model(old(self)@, monitors@, hide_offset, addr@, workspace, monitor@, x, y, width, height).0,
            commands(cmds@) == register_model(old(self)@, monitors@, hide_offset, addr@, workspace, monitor@, x, y, width, height).1,
    {
        if self.contains(addr) {
            let v: Vec<String> = Vec::new();
            assert(commands(v@) =~= seq![]);
            return v;
        }
        let line = monitors.offscreen_y_by_name(monitor, hide_offset, FALLBACK_LINE);
        let off = y as i64 >= line - OFFSCREEN_MARGIN;
        let e = WindowEntry {
            addr: addr.to_string(),
            workspace,
            monitor: monitor.to_string(),
            saved_x: x,
            saved_y: if off { RESET_Y } else { y },
            width,
            height,
            hidden: off,
        };
        self.push_entry(e);
        let mut cmds: Vec<String> = Vec::new();
        cmds.push(set_prop_cmd(addr));
        assert(commands(cmds@) =~= seq![set_prop_command(addr@)]);
        cmds
    }

    /// Stops managing the window `addr`.
    pub fn remove(&mut self, addr: &str)
        requires
            old(self).wf(),
        ensures
            final(self).wf(),
            final(self)@ == remove_model(old(self)@, addr@),
    {
        match self.find(addr) {
            Some(i) => {
                proof {
                    self.lemma_view_len();
                    lemma_remove_keeps_distinct(self@, i as int);
                }
                let ghost before = self@;
                self.windows.remove(i);
                assert(self@ =~= before.remove(i as int));
            },
            None => {},
        }
    }
}


pub(crate) proof fn lemma_commands_append(a: Seq<String>, b: Seq<String>)
    ensures
        commands(a + b) == commands(a) + commands(b),
{
    assert(commands(a + b) =~= commands(a) + commands(b));
}

pub(crate) fn no_commands() -> (v: Vec<String>)
    ensures
        commands(v@) == Seq::<Seq<char>>::empty(),
{
    let v: Vec<String> = Vec::new();
    assert(commands(v@) =~= Seq::<Seq<char>>::empty());
    v
}

pub(crate) fn one_command(c: String) -> (v: Vec<String>)
    ensures
        commands(v@) == seq![c@],
{
    let mut v: Vec<String> = Vec::new();
    v.push(c);
    assert(commands(v@) =~= seq![c@]);
    v
}

fn half_of(v: i32) -> (r: i64)
    ensures
        r == half(v as int),
{
    let w = v as i64;
    if w >= 0 {
        w / 2
    } else {
        -((-w) / 2)
    }
}

impl Registry {
    /// Hides the window `addr` if it is managed and shown. Its position is
    /// first refreshed from `clients`, a client list fetched just before
    /// (`None` when it could not be had): the position is saved when it is
    /// on screen, the size always. The window is then marked hidden and the
    /// result moves it `hide_offset` pixels below its monitor (to y = 10000
    /// when the monitor is unknown).
    pub fn hide_window(
        &mut self,
        addr: &str,
        clients: Option<&Vec<HyprClient>>,
        monitors: &MonitorCache,
        hide_offset: i32,
    ) -> (cmds: Vec<String>)
        requires
            old(self).wf(),
        ensures
            final(self).wf(),
            final(self)@ == hide_model(old(self)@, monitors@, hide_offset, addr@, snapshot(clients)).0,
            commands(cmds@) == hide_model(old(self)@, monitors@, hide_offset, addr@, snapshot(clients)).1,
    {
        proof {
            self.lemma_view_len();
        }
        let i = match self.find(addr) {
            Some(i) => i,
            None => return no_commands(),
        };
        if self.windows[i].hidden {
            return no_commands();
        }
        let e = &self.windows[i];
        let line = monitors.offscreen_y_by_name(e.monitor.as_str(), hide_offset, FALLBACK_LINE);
        let found = match clients {
            Some(cs) => first_client(cs, addr),
            None => None,
        };
        let (sx, sy, w, h) = match found {
            Some(c) => {
                if (c.at[1] as i64) < line - OFFSCREEN_MARGIN {
                    (c.at[0], c.at[1], c.size[0], c.size[1])
                } else {
                    (e.saved_x, e.saved_y, c.size[0], c.size[1])
                }
            },
            None => (e.saved_x, e.saved_y, e.width, e.height),
        };
        let target = monitors.offscreen_y_by_name(e.monitor.as_str(), hide_offset, FALLBACK_HIDE_Y);
        let ne = WindowEntry {
            addr: e.addr.clone(),
            workspace: e.workspace,
            monitor: e.monitor.clone(),
            saved_x: sx,
            saved_y: sy,
            width: w,
            height: h,
            hidden: true,
        };
        let cmd = move_cmd(sx as i64, target, addr);
        self.set_entry(i, ne);
        one_command(cmd)
    }

    /// Shows the window `addr` again if it is managed and hidden: it goes
    /// back to its saved position, with y reset to 200 when that position is
    /// off screen, and the cursor is moved to the window's centre.
    pub fn restore(&mut self, addr: &str, monitors: &MonitorCache, hide_offset: i32) -> (cmds: Vec<String>)
        requires
            old(self).wf(),
        ensures
            final(self).wf(),
            final(self)@ == restore_model(old(self)@, monitors@, hide_offset, addr@).0,
            commands(cmds@) == restore_model(old(self)@, monitors@, hide_offset, addr@).1,
    {
        proof {
            self.lemma_view_len();
        }
        let i = match self.find(addr) {
            Some(i) => i,
            None => return no_commands(),
        };
        if !self.windows[i].hidden {
            return no_commands();
        }
        let e = &self.windows[i];
        let line = monitors.offscreen_y_by_name(e.monitor.as_str(), hide_offset, FALLBACK_LINE);
        let y = if (e.saved_y as i64) < line - OFFSCREEN_MARGIN {
            e.saved_y
        } else {
            RESET_Y
        };
        let ne = WindowEntry {
            addr: e.addr.clone(),
            workspace: e.workspace,
            monitor: e.monitor.clone(),
            saved_x: e.saved_x,
            saved_y: y,
            width: e.width,
            height: e.height,
            hidden: false,
        };
        let mv = move_cmd(e.saved_x as i64, y as i64, addr);
        let cursor = cursor_cmd(e.saved_x as i64 + half_of(e.width), y as i64 + half_of(e.height));
        self.set_entry(i, ne);
        let ghost mv_text = mv@;
        let ghost cursor_text = cursor@;
        let mut cmds = one_command(mv);
        let ghost before = cmds@;
        cmds.push(cursor);
        assert(cmds@ == before.push(cursor));
        assert(commands(cmds@) =~= commands(before).push(cursor_text));
        assert(commands(cmds@) =~= seq![mv_text, cursor_text]);
        cmds
    }

    /// Restores every managed window, in registry order.
    pub fn restore_all(&mut self, monitors: &MonitorCache, hide_offset: i32) -> (cmds: Vec<String>)
        requires
            old(self).wf(),
        ensures
            final(self).wf(),
            final(self)@ == restore_each(old(self)@, monitors@, hide_offset, addrs_of(old(self)@)).0,
            commands(cmds@) == restore_each(old(self)@, monitors@, hide_offset, addrs_of(old(self)@)).1,
    {
        let addrs = self.addrs();
        let ghost all = addrs_of(old(self)@);
        let mut cmds = no_commands();
        let mut k: usize = 0;
        while k < addrs.len()
            invariant
                self.wf(),
                k <= addrs.len(),
                commands(addrs@) == all,
                self@ == restore_each(old(self)@, monitors@, hide_offset, all.take(k as int)).0,
                commands(cmds@) == restore_each(old(self)@, monitors@, hide_offset, all.take(k as int)).1,
            decreases addrs.len() - k,
        {
            assert(all.take(k + 1).drop_last() == all.take(k as int));
            assert(all.take(k + 1).last() == addrs@[k as int]@);
            let ghost before = cmds@;
            let mut c = self.restore(addrs[k].as_str(), monitors, hide_offset);
            cmds.append(&mut c);
            proof {
                lemma_commands_append(before, c@);
            }
            k = k + 1;
        }
        assert(all.take(k as int) == all);
        cmds
    }

    /// Records a new position of the window `addr` from a move event, when
    /// the window is shown and the position is on screen.
    pub fn update_position(&mut self, addr: &str, x: i32, y: i32, monitors: &MonitorCache, hide_offset: i32)
        requires
            old(self).wf(),
        ensures
            final(self).wf(),
            final(self)@ == update_position_model(old(self)@, monitors@, hide_offset, addr@, x, y),
    {
        proof {
            self.lemma_view_len();
        }
        let i = match self.find(addr) {
            Some(i) => i,
            None => return ,
        };
        let e = &self.windows[i];
        let line = monitors.offscreen_y_by_name(e.monitor.as_str(), hide_offset, FALLBACK_LINE);
        if !e.hidden && (y as i64) < line - OFFSCREEN_MARGIN {
            let ne = WindowEntry {
                addr: e.addr.clone(),
                workspace: e.workspace,
                monitor: e.monitor.clone(),
                saved_x: x,
                saved_y: y,
                width: e.width,
                height: e.height,
                hidden: e.hidden,
            };
            self.set_entry(i, ne);
        }
    }

    /// Follows a change of the floating flag of window `addr`: a window that
    /// became floating is registered from its record in `clients`; one that
    /// became tiled is no longer managed.
    pub fn update_floating(
        &mut self,
        addr: &str,
        floating: bool,
        clients: Option<&Vec<HyprClient>>,
        monitors: &MonitorCache,
        hide_offset: i32,
    ) -> (cmds: Vec<String>)
        requires
            old(self).wf(),
        ensures
            final(self).wf(),
            final(self)@ == update_floating_model(old(self)@, monitors@, hide_offset, addr@, floating, snapshot(clients)).0,
            commands(cmds@) == update_floating_model(old(self)@, monitors@, hide_offset, addr@, floating, snapshot(clients)).1,
    {
        if floating {
            match clients {
                Some(cs) => match first_client(cs, addr) {
                    Some(c) => {
                        let mon_name = monitors.monitor_name(c.monitor);
                        self.register(
                            addr,
                            c.workspace.id,
                            mon_name.as_str(),
                            c.at[0],
                            c.at[1],
                            c.size[0],
                            c.size[1],
                            monitors,
                            hide_offset,
                        )
                    },
                    None => no_commands(),
                },
                None => no_commands(),
            }
        } else {
            self.remove(addr);
            no_commands()
        }
    }

    /// Registers every visible floating client of the start-up client list,
    /// replacing a window already registered under the same address.
    pub fn scan(&mut self, clients: &Vec<HyprClient>, monitors: &MonitorCache, hide_offset: i32) -> (cmds: Vec<String>)
        requires
            old(self).wf(),
        ensures
            final(self).wf(),
            final(self)@ == scan_model(old(self)@, monitors@, hide_offset, client_views(clients@)).0,
            commands(cmds@) == scan_model(old(self)@, monitors@, hide_offset, client_views(clients@)).1,
    {
        let ghost cs = client_views(clients@);
        let mut cmds = no_commands();
        let mut i: usize = 0;
        while i < clients.len()
            invariant
                self.wf(),
                i <= clients.len(),
                cs == client_views(clients@),
                self@ == scan_model(old(self)@, monitors@, hide_offset, cs.take(i as int)).0,
                commands(cmds@) == scan_model(old(self)@, monitors@, hide_offset, cs.take(i as int)).1,
            decreases clients.len() - i,
        {
            assert(cs.take(i + 1).drop_last() == cs.take(i as int));
            assert(cs.take(i + 1).last() == clients@[i as int]@);
            let c = &clients[i];
            if c.floating && c.mapped && !c.hidden {
                let mon_name = monitors.monitor_name(c.monitor);
                let line = monitors.offscreen_y_by_name(mon_name.as_str(), hide_offset, FALLBACK_LINE);
                let off = c.at[1] as i64 >= line - OFFSCREEN_MARGIN;
                let e = WindowEntry {
                    addr: c.address.clone(),
                    workspace: c.workspace.id,
                    monitor: mon_name,
                    saved_x: c.at[0],
                    saved_y: if off { RESET_Y } else { c.at[1] },
                    width: c.size[0],
                    height: c.size[1],
                    hidden: off,
                };
                proof {
                    self.lemma_view_len();
                }
                match self.find(c.address.as_str()) {
                    Some(j) => self.set_entry(j, e),
                    None => self.push_entry(e),
                }
                let ghost before = cmds@;
                cmds.push(set_prop_cmd(c.address.as_str()));
                assert(commands(cmds@) =~= commands(before).push(set_prop_command(c.address@)));
            }
            i = i + 1;
        }
        assert(cs.take(i as int) == cs);
        cmds
    }
}

} // verus!
