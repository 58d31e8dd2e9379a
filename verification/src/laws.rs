//! What holds of the registry and of event handling across calls.
use vstd::prelude::*;

use crate::config::{ignored_by, lowered_match, patterns, Config};
use crate::handler::{
    consumed_state, fields, handle_model, names_switcher, switcher_layer, SWITCHER_GRACE_MS, normalize,
    register_visible, split_event, Outcome, State,
};
use crate::monitor::{lookup_id, monitor_name_of, offscreen_y_of};
use crate::text::{contains, lowercase, occurs_at};
use crate::registry::{
    addrs_distinct, addrs_of, cursor_command, find_client, half, has_addr, hide_each, hide_model,
    index_of, lemma_index_of, lemma_push_keeps_distinct, lemma_update_keeps_distinct, move_command,
    lemma_remove_keeps_distinct, on_screen, refreshed, register_client_model, register_model,
    remove_model, restore_each, restore_model, scan_model, update_position_model, upsert,
    window_of, FALLBACK_HIDE_Y, FALLBACK_LINE, RESET_Y,
};
use crate::types::{ClientView, HyprMonitor, MonitorView, WindowView};
use std::time::Instant;

verus! {

// ---------------------------------------------------------------------------
// Helper lemmas
// ---------------------------------------------------------------------------

/// Two registries with the same addresses at the same positions.
pub open spec fn same_addrs(s: Seq<WindowView>, t: Seq<WindowView>) -> bool {
    s.len() == t.len() && forall|j: int| 0 <= j < s.len() ==> #[trigger] t[j].addr == s[j].addr
}

proof fn lemma_same_addrs_index(s: Seq<WindowView>, t: Seq<WindowView>, a: Seq<char>)
    requires
        addrs_distinct(s),
        same_addrs(s, t),
    ensures
        addrs_distinct(t),
        has_addr(t, a) == has_addr(s, a),
        has_addr(s, a) ==> index_of(t, a) == index_of(s, a),
{
    assert forall|i: int, j: int| 0 <= i < t.len() && 0 <= j < t.len() && i != j implies t[i].addr
        != t[j].addr by {
        assert(t[i].addr == s[i].addr && t[j].addr == s[j].addr);
    }
    if has_addr(s, a) {
        let k = index_of(s, a);
        assert(t[k].addr == a);
        assert(has_addr(t, a));
        let k2 = index_of(t, a);
        assert(s[k2].addr == a);
    }
    if has_addr(t, a) {
        let k = index_of(t, a);
        assert(s[k].addr == a);
    }
}

proof fn lemma_hide_model(
    s: Seq<WindowView>,
    mons: Map<i32, MonitorView>,
    hide_offset: i32,
    addr: Seq<char>,
    clients: Option<Seq<ClientView>>,
)
    requires
        addrs_distinct(s),
    ensures
        same_addrs(s, hide_model(s, mons, hide_offset, addr, clients).0),
        forall|j: int|
            0 <= j < s.len() && s[j].hidden ==> #[trigger] hide_model(s, mons, hide_offset, addr, clients).0[j].hidden,
        has_addr(s, addr) ==> hide_model(s, mons, hide_offset, addr, clients).0[index_of(s, addr)].hidden,
{
}

proof fn lemma_restore_model(s: Seq<WindowView>, mons: Map<i32, MonitorView>, hide_offset: i32, addr: Seq<char>)
    requires
        addrs_distinct(s),
    ensures
        same_addrs(s, restore_model(s, mons, hide_offset, addr).0),
        forall|j: int|
            0 <= j < s.len() && !s[j].hidden ==> !#[trigger] restore_model(s, mons, hide_offset, addr).0[j].hidden,
        has_addr(s, addr) ==> !restore_model(s, mons, hide_offset, addr).0[index_of(s, addr)].hidden,
{
}

proof fn lemma_hide_each(
    s: Seq<WindowView>,
    mons: Map<i32, MonitorView>,
    hide_offset: i32,
    addrs: Seq<Seq<char>>,
    fetched: Seq<Option<Seq<ClientView>>>,
)
    requires
        addrs_distinct(s),
    ensures
        same_addrs(s, hide_each(s, mons, hide_offset, addrs, fetched).0),
        forall|j: int|
            0 <= j < s.len() && s[j].hidden ==> #[trigger] hide_each(s, mons, hide_offset, addrs, fetched).0[j].hidden,
        forall|k: int|
            0 <= k < addrs.len() && has_addr(s, #[trigger] addrs[k]) ==> hide_each(
                s,
                mons,
                hide_offset,
                addrs,
                fetched,
            ).0[index_of(s, addrs[k])].hidden,
    decreases addrs.len(),
{
    if addrs.len() > 0 {
        let s1 = hide_each(s, mons, hide_offset, addrs.drop_last(), fetched).0;
        lemma_hide_each(s, mons, hide_offset, addrs.drop_last(), fetched);
        lemma_same_addrs_index(s, s1, addrs.last());
        lemma_hide_model(s1, mons, hide_offset, addrs.last(), fetched[addrs.len() - 1]);
        let s2 = hide_model(s1, mons, hide_offset, addrs.last(), fetched[addrs.len() - 1]).0;
        assert forall|k: int| 0 <= k < addrs.len() && has_addr(s, #[trigger] addrs[k]) implies s2[index_of(
            s,
            addrs[k],
        )].hidden by {
            if k < addrs.len() - 1 {
                assert(addrs.drop_last()[k] == addrs[k]);
                assert(s1[index_of(s, addrs[k])].hidden);
            }
        }
    }
}

proof fn lemma_restore_each(s: Seq<WindowView>, mons: Map<i32, MonitorView>, hide_offset: i32, addrs: Seq<Seq<char>>)
    requires
        addrs_distinct(s),
    ensures
        same_addrs(s, restore_each(s, mons, hide_offset, addrs).0),
        forall|j: int|
            0 <= j < s.len() && !s[j].hidden ==> !#[trigger] restore_each(s, mons, hide_offset, addrs).0[j].hidden,
        forall|k: int|
            0 <= k < addrs.len() && has_addr(s, #[trigger] addrs[k]) ==> !restore_each(
                s,
                mons,
                hide_offset,
                addrs,
            ).0[index_of(s, addrs[k])].hidden,
    decreases addrs.len(),
{
    if addrs.len() > 0 {
        let s1 = restore_each(s, mons, hide_offset, addrs.drop_last()).0;
        lemma_restore_each(s, mons, hide_offset, addrs.drop_last());
        lemma_same_addrs_index(s, s1, addrs.last());
        lemma_restore_model(s1, mons, hide_offset, addrs.last());
        let s2 = restore_model(s1, mons, hide_offset, addrs.last()).0;
        assert forall|k: int| 0 <= k < addrs.len() && has_addr(s, #[trigger] addrs[k]) implies !s2[index_of(
            s,
            addrs[k],
        )].hidden by {
            if k < addrs.len() - 1 {
                assert(addrs.drop_last()[k] == addrs[k]);
                assert(!s1[index_of(s, addrs[k])].hidden);
            }
        }
    }
}

// ---------------------------------------------------------------------------
// Laws of the registry
// ---------------------------------------------------------------------------

/// Restoring a window right after hiding it puts it back where it was saved
/// when it was hidden (its position refreshed from the client list), moves
/// the cursor to its centre, and leaves it as it was apart from that refresh.
pub proof fn law_restore_after_hide(
    s: Seq<WindowView>,
    mons: Map<i32, MonitorView>,
    hide_offset: i32,
    addr: Seq<char>,
    clients: Option<Seq<ClientView>>,
)
    requires
        addrs_distinct(s),
        has_addr(s, addr),
        !s[index_of(s, addr)].hidden,
        on_screen(
            refreshed(
                s[index_of(s, addr)],
                match clients {
                    Some(cs) => find_client(cs, addr),
                    None => None,
                },
                offscreen_y_of(mons, s[index_of(s, addr)].monitor, hide_offset as int, FALLBACK_LINE as int),
            ).saved_y as int,
            offscreen_y_of(mons, s[index_of(s, addr)].monitor, hide_offset as int, FALLBACK_LINE as int),
        ),
    ensures
        ({
            let i = index_of(s, addr);
            let line = offscreen_y_of(mons, s[i].monitor, hide_offset as int, FALLBACK_LINE as int);
            let c = match clients {
                Some(cs) => find_client(cs, addr),
                None => None,
            };
            let e1 = refreshed(s[i], c, line);
            let s1 = hide_model(s, mons, hide_offset, addr, clients).0;
            let (s2, cmds) = restore_model(s1, mons, hide_offset, addr);
            &&& s2 == s.update(i, e1)
            &&& cmds == seq![
                move_command(e1.saved_x as int, e1.saved_y as int, addr),
                cursor_command(e1.saved_x + half(e1.width as int), e1.saved_y + half(e1.height as int)),
            ]
        }),
{
    let i = index_of(s, addr);
    let line = offscreen_y_of(mons, s[i].monitor, hide_offset as int, FALLBACK_LINE as int);
    let c = match clients {
        Some(cs) => find_client(cs, addr),
        None => None,
    };
    let e1 = refreshed(s[i], c, line);
    let s1 = hide_model(s, mons, hide_offset, addr, clients).0;
    lemma_update_keeps_distinct(s, i, WindowView { hidden: true, ..e1 });
    assert(index_of(s1, addr) == i);
    let s2 = restore_model(s1, mons, hide_offset, addr).0;
    assert(s2 =~= s.update(i, e1));
}

/// Hiding a window, with no fresh client list, and then restoring it gives
/// back the registry as it was, when its saved position is on screen.
pub proof fn law_hide_restore_round_trip(
    s: Seq<WindowView>,
    mons: Map<i32, MonitorView>,
    hide_offset: i32,
    addr: Seq<char>,
)
    requires
        addrs_distinct(s),
        has_addr(s, addr),
        !s[index_of(s, addr)].hidden,
        on_screen(
            s[index_of(s, addr)].saved_y as int,
            offscreen_y_of(mons, s[index_of(s, addr)].monitor, hide_offset as int, FALLBACK_LINE as int),
        ),
    ensures
        restore_model(hide_model(s, mons, hide_offset, addr, None).0, mons, hide_offset, addr).0 == s,
{
    law_restore_after_hide(s, mons, hide_offset, addr, None);
    assert(s.update(index_of(s, addr), s[index_of(s, addr)]) =~= s);
}

/// Hiding is idempotent: hiding a window a second time changes nothing and
/// sends nothing.
pub proof fn law_hide_idempotent(
    s: Seq<WindowView>,
    mons: Map<i32, MonitorView>,
    hide_offset: i32,
    addr: Seq<char>,
    clients: Option<Seq<ClientView>>,
    later: Option<Seq<ClientView>>,
)
    requires
        addrs_distinct(s),
    ensures
        ({
            let s1 = hide_model(s, mons, hide_offset, addr, clients).0;
            hide_model(s1, mons, hide_offset, addr, later) == (s1, Seq::<Seq<char>>::empty())
        }),
{
    let s1 = hide_model(s, mons, hide_offset, addr, clients).0;
    lemma_hide_model(s, mons, hide_offset, addr, clients);
    lemma_same_addrs_index(s, s1, addr);
}

/// Restoring is idempotent: restoring a window a second time changes nothing
/// and sends nothing.
pub proof fn law_restore_idempotent(
    s: Seq<WindowView>,
    mons: Map<i32, MonitorView>,
    hide_offset: i32,
    addr: Seq<char>,
)
    requires
        addrs_distinct(s),
    ensures
        ({
            let s1 = restore_model(s, mons, hide_offset, addr).0;
            restore_model(s1, mons, hide_offset, addr) == (s1, Seq::<Seq<char>>::empty())
        }),
{
    let s1 = restore_model(s, mons, hide_offset, addr).0;
    lemma_restore_model(s, mons, hide_offset, addr);
    lemma_same_addrs_index(s, s1, addr);
}

/// Hiding every window in turn, whatever client list is fetched before each,
/// leaves every managed window hidden, and the set of managed windows
/// unchanged.
pub proof fn law_hide_all_hides_every_window(
    s: Seq<WindowView>,
    mons: Map<i32, MonitorView>,
    hide_offset: i32,
    fetched: Seq<Option<Seq<ClientView>>>,
)
    requires
        addrs_distinct(s),
    ensures
        same_addrs(s, hide_each(s, mons, hide_offset, addrs_of(s), fetched).0),
        forall|j: int|
            0 <= j < s.len() ==> #[trigger] hide_each(s, mons, hide_offset, addrs_of(s), fetched).0[j].hidden,
{
    lemma_hide_each(s, mons, hide_offset, addrs_of(s), fetched);
    assert forall|j: int| 0 <= j < s.len() implies #[trigger] hide_each(
        s,
        mons,
        hide_offset,
        addrs_of(s),
        fetched,
    ).0[j].hidden by {
        lemma_index_of(s, j);
        assert(addrs_of(s)[j] == s[j].addr);
    }
}

/// After restoring all windows every managed window is shown, and the set
/// of managed windows is unchanged.
pub proof fn law_restore_all_shows_every_window(s: Seq<WindowView>, mons: Map<i32, MonitorView>, hide_offset: i32)
    requires
        addrs_distinct(s),
    ensures
        same_addrs(s, restore_each(s, mons, hide_offset, addrs_of(s)).0),
        forall|j: int| 0 <= j < s.len() ==> !#[trigger] restore_each(s, mons, hide_offset, addrs_of(s)).0[j].hidden,
{
    lemma_restore_each(s, mons, hide_offset, addrs_of(s));
    assert forall|j: int| 0 <= j < s.len() implies !#[trigger] restore_each(
        s,
        mons,
        hide_offset,
        addrs_of(s),
    ).0[j].hidden by {
        lemma_index_of(s, j);
        assert(addrs_of(s)[j] == s[j].addr);
    }
}

/// Registering a window that is already managed changes nothing.
pub proof fn law_register_keeps_existing(
    s: Seq<WindowView>,
    mons: Map<i32, MonitorView>,
    hide_offset: i32,
    addr: Seq<char>,
    workspace: i32,
    monitor: Seq<char>,
    x: i32,
    y: i32,
    width: i32,
    height: i32,
)
    requires
        has_addr(s, addr),
    ensures
        register_model(s, mons, hide_offset, addr, workspace, monitor, x, y, width, height) == (s, Seq::<Seq<char>>::empty()),
{
}

/// A window registered at an on-screen position is managed, shown, and
/// remembers that position.
pub proof fn law_register_remembers_position(
    s: Seq<WindowView>,
    mons: Map<i32, MonitorView>,
    hide_offset: i32,
    addr: Seq<char>,
    workspace: i32,
    monitor: Seq<char>,
    x: i32,
    y: i32,
    width: i32,
    height: i32,
)
    requires
        addrs_distinct(s),
        !has_addr(s, addr),
        on_screen(y as int, offscreen_y_of(mons, monitor, hide_offset as int, FALLBACK_LINE as int)),
    ensures
        ({
            let s1 = register_model(s, mons, hide_offset, addr, workspace, monitor, x, y, width, height).0;
            &&& addrs_distinct(s1)
            &&& window_of(s1, addr) == Some(
                WindowView { addr, workspace, monitor, saved_x: x, saved_y: y, width, height, hidden: false },
            )
        }),
{
    let s1 = register_model(s, mons, hide_offset, addr, workspace, monitor, x, y, width, height).0;
    lemma_push_keeps_distinct(s, s1.last());
    lemma_index_of(s1, s.len() as int);
}

/// A move of a shown window to an on-screen position is remembered; a hidden
/// window keeps the position it had when it was hidden.
pub proof fn law_position_tracking(
    s: Seq<WindowView>,
    mons: Map<i32, MonitorView>,
    hide_offset: i32,
    addr: Seq<char>,
    x: i32,
    y: i32,
)
    requires
        addrs_distinct(s),
        has_addr(s, addr),
    ensures
        ({
            let i = index_of(s, addr);
            let line = offscreen_y_of(mons, s[i].monitor, hide_offset as int, FALLBACK_LINE as int);
            let s1 = update_position_model(s, mons, hide_offset, addr, x, y);
            &&& (!s[i].hidden && on_screen(y as int, line)) ==> s1 == s.update(
                i,
                WindowView { saved_x: x, saved_y: y, ..s[i] },
            )
            &&& s[i].hidden ==> s1 == s
        }),
{
}


// ---------------------------------------------------------------------------
// Laws of event handling
// ---------------------------------------------------------------------------

/// `t` keeps the windows of `s` at their positions and may add more after them.
pub open spec fn extends(s: Seq<WindowView>, t: Seq<WindowView>) -> bool {
    s.len() <= t.len() && forall|j: int| 0 <= j < s.len() ==> #[trigger] t[j] == s[j]
}

proof fn lemma_extends_index(s: Seq<WindowView>, t: Seq<WindowView>, a: Seq<char>)
    requires
        addrs_distinct(t),
        extends(s, t),
        has_addr(s, a),
    ensures
        has_addr(t, a),
        index_of(t, a) == index_of(s, a),
        window_of(t, a) == window_of(s, a),
{
    let k = index_of(s, a);
    assert(t[k] == s[k]);
    assert(has_addr(t, a));
    lemma_index_of(t, k);
}

proof fn lemma_register_grows(
    s: Seq<WindowView>,
    mons: Map<i32, MonitorView>,
    hide_offset: i32,
    addr: Seq<char>,
    c: ClientView,
)
    requires
        addrs_distinct(s),
    ensures
        addrs_distinct(register_client_model(s, mons, hide_offset, addr, c).0),
        extends(s, register_client_model(s, mons, hide_offset, addr, c).0),
        has_addr(register_client_model(s, mons, hide_offset, addr, c).0, addr),
{
    let s1 = register_client_model(s, mons, hide_offset, addr, c).0;
    if !has_addr(s, addr) {
        lemma_push_keeps_distinct(s, s1.last());
        assert(s1[s.len() as int].addr == addr);
    }
}

proof fn lemma_register_visible(s: Seq<WindowView>, mons: Map<i32, MonitorView>, hide_offset: i32, cs: Seq<ClientView>)
    requires
        addrs_distinct(s),
    ensures
        addrs_distinct(register_visible(s, mons, hide_offset, cs).0),
        extends(s, register_visible(s, mons, hide_offset, cs).0),
        forall|i: int|
            0 <= i < cs.len() && (#[trigger] cs[i]).is_visible_floating() ==> has_addr(
                register_visible(s, mons, hide_offset, cs).0,
                cs[i].address,
            ),
    decreases cs.len(),
{
    if cs.len() > 0 {
        let s1 = register_visible(s, mons, hide_offset, cs.drop_last()).0;
        lemma_register_visible(s, mons, hide_offset, cs.drop_last());
        let c = cs.last();
        let s2 = register_visible(s, mons, hide_offset, cs).0;
        if c.is_visible_floating() {
            lemma_register_grows(s1, mons, hide_offset, c.address, c);
            assert(s2 == register_client_model(s1, mons, hide_offset, c.address, c).0);
        } else {
            assert(s2 == s1);
        }
        assert forall|i: int| 0 <= i < cs.len() && (#[trigger] cs[i]).is_visible_floating() implies has_addr(
            s2,
            cs[i].address,
        ) by {
            if i < cs.len() - 1 {
                assert(cs.drop_last()[i] == cs[i]);
                assert(has_addr(s1, cs[i].address));
                lemma_extends_index(s1, s2, cs[i].address);
            }
        }
    }
}

proof fn lemma_find_client(cs: Seq<ClientView>, a: Seq<char>)
    ensures
        find_client(cs, a) matches Some(f) ==> f.address == a && exists|i: int| 0 <= i < cs.len() && cs[i] == f,
    decreases cs.len(),
{
    if cs.len() > 0 && cs[0].address != a {
        lemma_find_client(cs.drop_first(), a);
        if let Some(f) = find_client(cs, a) {
            let i = choose|i: int| 0 <= i < cs.drop_first().len() && cs.drop_first()[i] == f;
            assert(cs[i + 1] == f);
        }
    }
}

proof fn lemma_event_names_differ()
    ensures
        "openwindow"@ != "activewindowv2"@,
        "openwindow"@ != "activewindow"@,
        "openwindow"@ != "openlayer"@,
        "openwindow"@ != "closelayer"@,
        "closewindow"@ != "activewindowv2"@,
        "closewindow"@ != "activewindow"@,
        "closewindow"@ != "openlayer"@,
        "closewindow"@ != "closelayer"@,
        "closewindow"@ != "openwindow"@,
{
    reveal_strlit("activewindowv2");
    reveal_strlit("activewindow");
    reveal_strlit("openlayer");
    reveal_strlit("closelayer");
    reveal_strlit("openwindow");
    reveal_strlit("closewindow");
    assert("openwindow"@.len() != "activewindowv2"@.len());
    assert("openwindow"@.len() != "activewindow"@.len());
    assert("openwindow"@.len() != "openlayer"@.len());
    assert("openwindow"@[0] != "closelayer"@[0]);
    assert("closewindow"@.len() != "activewindowv2"@.len());
    assert("closewindow"@.len() != "activewindow"@.len());
    assert("closewindow"@.len() != "openlayer"@.len());
    assert("closewindow"@.len() != "closelayer"@.len());
    assert("closewindow"@.len() != "openwindow"@.len());
}

/// With `ignore_hover` set, no switcher open, and the last switcher event
/// 600 ms or more ago (or none recorded),
/// a focus change to anything but a visible floating window (a tiled window
/// reached by hovering the mouse) hides nothing: every window managed before
/// is left exactly as it was, and the switcher state is unchanged.
pub proof fn law_hover_does_not_hide(
    line: Seq<char>,
    name: Seq<char>,
    payload: Seq<char>,
    s: Seq<WindowView>,
    mons: Map<i32, MonitorView>,
    config: &Config,
    st: State,
    clients: Option<Seq<ClientView>>,
    monitor_list: Option<Seq<HyprMonitor>>,
    elapsed_ms: Option<u128>,
    now: Instant,
)
    requires
        addrs_distinct(s),
        split_event(line) == Some((name, payload)),
        name == "activewindowv2"@ || name == "activewindow"@,
        config.ignore_hover,
        !st.switcher_active,
        elapsed_ms matches Some(ms) ==> ms >= SWITCHER_GRACE_MS,
        clients matches Some(cs) ==> (find_client(cs, normalize(payload)) matches Some(f) ==> !f.is_visible_floating()),
    ensures
        ({
            let o = handle_model(line, s, mons, config, st, clients, monitor_list, elapsed_ms, now);
            &&& addrs_distinct(o.windows)
            &&& extends(s, o.windows)
            &&& o.state == st
            &&& !o.hide_shown
        }),
{
    if let Some(cs) = clients {
        lemma_register_visible(s, mons, config.hide_offset, cs);
    }
}

/// When hover focus is not ignored, or a switcher is open, or a switcher
/// event was recorded less than 600 ms ago, a focus change to a known window
/// that is not a visible floating window consumes the switcher state and asks
/// for every shown window to be hidden; hiding them in turn, whatever client
/// list is fetched before each, leaves every managed window hidden and none
/// dropped.
pub proof fn law_switch_to_tiled_hides_all(
    line: Seq<char>,
    name: Seq<char>,
    payload: Seq<char>,
    s: Seq<WindowView>,
    mons: Map<i32, MonitorView>,
    config: &Config,
    st: State,
    cs: Seq<ClientView>,
    monitor_list: Option<Seq<HyprMonitor>>,
    elapsed_ms: Option<u128>,
    now: Instant,
    fetched: Seq<Option<Seq<ClientView>>>,
)
    requires
        addrs_distinct(s),
        split_event(line) == Some((name, payload)),
        name == "activewindowv2"@ || name == "activewindow"@,
        !config.ignore_hover || st.switcher_active || (st.last_switcher_time is Some
            && elapsed_ms is Some && elapsed_ms->0 < SWITCHER_GRACE_MS),
        normalize(payload) != "0x"@,
        find_client(cs, normalize(payload)) matches Some(f) && !f.is_visible_floating(),
    ensures
        ({
            let o = handle_model(line, s, mons, config, st, Some(cs), monitor_list, elapsed_ms, now);
            let t = hide_each(o.windows, mons, config.hide_offset, addrs_of(o.windows), fetched).0;
            &&& o.hide_shown
            &&& o.state == consumed_state()
            &&& addrs_distinct(t)
            &&& forall|a: Seq<char>| has_addr(s, a) ==> has_addr(t, a)
            &&& forall|j: int| 0 <= j < t.len() ==> (#[trigger] t[j]).hidden
        }),
{
    lemma_register_visible(s, mons, config.hide_offset, cs);
    let s1 = register_visible(s, mons, config.hide_offset, cs).0;
    law_hide_all_hides_every_window(s1, mons, config.hide_offset, fetched);
    let s2 = hide_each(s1, mons, config.hide_offset, addrs_of(s1), fetched).0;
    assert forall|a: Seq<char>| has_addr(s, a) implies has_addr(s2, a) by {
        lemma_extends_index(s, s1, a);
        lemma_same_addrs_index(s1, s2, a);
    }
    lemma_same_addrs_index(s1, s2, Seq::<char>::empty());
}

/// A focus change to a visible floating window leaves that window managed and
/// shown, and consumes the switcher state.
pub proof fn law_focus_shows_floating_window(
    line: Seq<char>,
    name: Seq<char>,
    payload: Seq<char>,
    s: Seq<WindowView>,
    mons: Map<i32, MonitorView>,
    config: &Config,
    st: State,
    cs: Seq<ClientView>,
    monitor_list: Option<Seq<HyprMonitor>>,
    elapsed_ms: Option<u128>,
    now: Instant,
)
    requires
        addrs_distinct(s),
        split_event(line) == Some((name, payload)),
        name == "activewindowv2"@ || name == "activewindow"@,
        normalize(payload) != "0x"@,
        find_client(cs, normalize(payload)) matches Some(f) && f.is_visible_floating(),
    ensures
        ({
            let o = handle_model(line, s, mons, config, st, Some(cs), monitor_list, elapsed_ms, now);
            let addr = normalize(payload);
            &&& addrs_distinct(o.windows)
            &&& window_of(o.windows, addr) matches Some(e) && !e.hidden
            &&& o.state == consumed_state()
        }),
{
    let addr = normalize(payload);
    lemma_register_visible(s, mons, config.hide_offset, cs);
    lemma_find_client(cs, addr);
    let f = find_client(cs, addr)->0;
    let i = choose|i: int| 0 <= i < cs.len() && cs[i] == f;
    assert(cs[i].is_visible_floating());
    let s1 = register_visible(s, mons, config.hide_offset, cs).0;
    assert(has_addr(s1, addr));
    lemma_restore_model(s1, mons, config.hide_offset, addr);
    let s2 = restore_model(s1, mons, config.hide_offset, addr).0;
    lemma_same_addrs_index(s1, s2, addr);
}

/// An opened window whose class or title matches an `ignore` pattern is
/// never registered, and nothing is sent.
pub proof fn law_ignored_window_not_registered(
    line: Seq<char>,
    payload: Seq<char>,
    s: Seq<WindowView>,
    mons: Map<i32, MonitorView>,
    config: &Config,
    st: State,
    clients: Option<Seq<ClientView>>,
    monitor_list: Option<Seq<HyprMonitor>>,
    elapsed_ms: Option<u128>,
    now: Instant,
)
    requires
        split_event(line) == Some(("openwindow"@, payload)),
        fields(payload).len() >= 4,
        ignored_by(patterns(config), fields(payload)[2], fields(payload)[3]),
    ensures
        handle_model(line, s, mons, config, st, clients, monitor_list, elapsed_ms, now) == (Outcome {
            windows: s,
            monitors: mons,
            state: st,
            commands: Seq::<Seq<char>>::empty(),
            hide_shown: false,
        }),
{
    lemma_event_names_differ();
}

/// A closed window is no longer managed, and nothing else changes.
pub proof fn law_close_forgets_window(
    line: Seq<char>,
    payload: Seq<char>,
    s: Seq<WindowView>,
    mons: Map<i32, MonitorView>,
    config: &Config,
    st: State,
    clients: Option<Seq<ClientView>>,
    monitor_list: Option<Seq<HyprMonitor>>,
    elapsed_ms: Option<u128>,
    now: Instant,
)
    requires
        addrs_distinct(s),
        split_event(line) == Some(("closewindow"@, payload)),
    ensures
        ({
            let o = handle_model(line, s, mons, config, st, clients, monitor_list, elapsed_ms, now);
            &&& addrs_distinct(o.windows)
            &&& !has_addr(o.windows, normalize(payload))
            &&& forall|a: Seq<char>| a != normalize(payload) ==> has_addr(o.windows, a) == has_addr(s, a)
            &&& o.monitors == mons
            &&& o.state == st
            &&& o.commands == Seq::<Seq<char>>::empty()
            &&& !o.hide_shown
        }),
{
    lemma_event_names_differ();
    let a = normalize(payload);
    let o = handle_model(line, s, mons, config, st, clients, monitor_list, elapsed_ms, now);
    assert(o.windows == remove_model(s, a));
    if has_addr(s, a) {
        let k = index_of(s, a);
        lemma_remove_keeps_distinct(s, k);
        let t = s.remove(k);
        assert forall|b: Seq<char>| b != a implies has_addr(t, b) == has_addr(s, b) by {
            if has_addr(s, b) {
                let j = index_of(s, b);
                if j < k {
                    assert(t[j].addr == b);
                } else {
                    assert(j != k);
                    assert(t[j - 1].addr == b);
                }
            }
            if has_addr(t, b) {
                let j = index_of(t, b);
                if j < k {
                    assert(s[j].addr == b);
                } else {
                    assert(s[j + 1].addr == b);
                }
            }
        }
        if has_addr(t, a) {
            let j = index_of(t, a);
            if j < k {
                assert(s[j].addr == a);
            } else {
                assert(s[j + 1].addr == a);
            }
        }
    }
}


// ---------------------------------------------------------------------------
// Laws stated from first principles
// ---------------------------------------------------------------------------

/// The monitor `id` is the only cached monitor called `name`.
pub open spec fn only_monitor_named(mons: Map<i32, MonitorView>, name: Seq<char>, id: i32) -> bool {
    &&& mons.contains_key(id)
    &&& mons[id].name == name
    &&& forall|j: i32| mons.contains_key(j) && #[trigger] mons[j].name == name ==> j == id
}

proof fn lemma_only_monitor(mons: Map<i32, MonitorView>, name: Seq<char>, id: i32, offset: int, fallback: int)
    requires
        only_monitor_named(mons, name, id),
    ensures
        lookup_id(mons, name) == Some(id),
        offscreen_y_of(mons, name, offset, fallback) == mons[id].y + mons[id].height + offset,
{
    assert(crate::monitor::first_named(mons, name, id));
    let c = choose|c: i32| crate::monitor::first_named(mons, name, c);
    assert(crate::monitor::is_named(mons, c, name));
    assert(mons[c].name == name);
}

/// A focus change to a registered window that Hyprland reports as visible
/// and floating restores that window alone: every other window that was
/// managed before keeps its entry exactly, the focused window is shown again
/// at its saved x (its saved y kept, or reset to 200), and the commands after
/// the registration commands are exactly one move of that window to that
/// position and one cursor move to its centre (none when it was already
/// shown).
pub proof fn law_focus_restores_only_focused_window(
    line: Seq<char>,
    name: Seq<char>,
    payload: Seq<char>,
    s: Seq<WindowView>,
    mons: Map<i32, MonitorView>,
    config: &Config,
    st: State,
    cs: Seq<ClientView>,
    monitor_list: Option<Seq<HyprMonitor>>,
    elapsed_ms: Option<u128>,
    now: Instant,
)
    requires
        addrs_distinct(s),
        split_event(line) == Some((name, payload)),
        name == "activewindowv2"@ || name == "activewindow"@,
        normalize(payload) != "0x"@,
        has_addr(s, normalize(payload)),
        find_client(cs, normalize(payload)) matches Some(f) && f.is_visible_floating(),
    ensures
        ({
            let addr = normalize(payload);
            let o = handle_model(line, s, mons, config, st, Some(cs), monitor_list, elapsed_ms, now);
            let e = s[index_of(s, addr)];
            let reg = register_visible(s, mons, config.hide_offset, cs).1;
            &&& forall|a: Seq<char>| a != addr && has_addr(s, a) ==> #[trigger] window_of(o.windows, a) == window_of(s, a)
            &&& window_of(o.windows, addr) matches Some(e2) && {
                &&& !e2.hidden
                &&& e2.addr == addr
                &&& e2.saved_x == e.saved_x
                &&& (e2.saved_y == e.saved_y || e2.saved_y == RESET_Y)
                &&& (!e.hidden ==> e2.saved_y == e.saved_y)
                &&& e2.width == e.width
                &&& e2.height == e.height
                &&& e2.monitor == e.monitor
                &&& e2.workspace == e.workspace
                &&& (e.hidden ==> o.commands == reg + seq![
                    move_command(e.saved_x as int, e2.saved_y as int, addr),
                    cursor_command(e.saved_x + half(e.width as int), e2.saved_y + half(e.height as int)),
                ])
                &&& (!e.hidden ==> o.commands == reg)
            }
            &&& o.state == consumed_state()
            &&& !o.hide_shown
        }),
{
    let addr = normalize(payload);
    let off = config.hide_offset;
    lemma_register_visible(s, mons, off, cs);
    let s1 = register_visible(s, mons, off, cs).0;
    lemma_extends_index(s, s1, addr);
    let i = index_of(s, addr);
    let s2 = restore_model(s1, mons, off, addr).0;
    if s1[i].hidden {
        let e = s1[i];
        let line_y = offscreen_y_of(mons, e.monitor, off as int, FALLBACK_LINE as int);
        let y = if on_screen(e.saved_y as int, line_y) { e.saved_y } else { RESET_Y };
        let ne = WindowView { saved_y: y, hidden: false, ..e };
        lemma_update_keeps_distinct(s1, i, ne);
        assert(s2 == s1.update(i, ne));
        lemma_index_of(s2, i);
        assert forall|a: Seq<char>| a != addr && has_addr(s, a) implies #[trigger] window_of(s2, a) == window_of(s, a) by {
            lemma_extends_index(s, s1, a);
            let k = index_of(s, a);
            assert(s[k].addr == a);
            assert(k != i);
        }
    } else {
        assert(s2 == s1);
        assert forall|a: Seq<char>| a != addr && has_addr(s, a) implies #[trigger] window_of(s2, a) == window_of(s, a) by {
            lemma_extends_index(s, s1, a);
        }
    }
}

/// Hiding a shown window whose monitor is in the cache (under a name no
/// other cached monitor has) moves it to the line `hide_offset` pixels below
/// that monitor's bottom edge, wherever the monitor stands: y = monitor y +
/// monitor height + `hide_offset`, with the window's saved x.
pub proof fn law_hide_goes_below_its_monitor(
    s: Seq<WindowView>,
    mons: Map<i32, MonitorView>,
    hide_offset: i32,
    addr: Seq<char>,
    clients: Option<Seq<ClientView>>,
    id: i32,
)
    requires
        addrs_distinct(s),
        has_addr(s, addr),
        !s[index_of(s, addr)].hidden,
        only_monitor_named(mons, s[index_of(s, addr)].monitor, id),
    ensures
        ({
            let (s1, cmds) = hide_model(s, mons, hide_offset, addr, clients);
            let i = index_of(s, addr);
            &&& s1[i].hidden
            &&& s1[i].addr == addr
            &&& cmds == seq![move_command(s1[i].saved_x as int, mons[id].y + mons[id].height + hide_offset, addr)]
        }),
{
    let i = index_of(s, addr);
    lemma_only_monitor(mons, s[i].monitor, id, hide_offset as int, FALLBACK_HIDE_Y as int);
    lemma_only_monitor(mons, s[i].monitor, id, hide_offset as int, FALLBACK_LINE as int);
}

/// A window registered on a cached monitor (under a name no other cached
/// monitor has) is judged against the line `hide_offset` pixels below that
/// monitor's bottom edge: above that line by more than 50 pixels it is
/// recorded shown at its position; otherwise hidden, with y reset to 200.
pub proof fn law_register_judges_against_its_monitor(
    s: Seq<WindowView>,
    mons: Map<i32, MonitorView>,
    hide_offset: i32,
    addr: Seq<char>,
    workspace: i32,
    monitor: Seq<char>,
    x: i32,
    y: i32,
    width: i32,
    height: i32,
    id: i32,
)
    requires
        !has_addr(s, addr),
        only_monitor_named(mons, monitor, id),
    ensures
        ({
            let (s1, cmds) = register_model(s, mons, hide_offset, addr, workspace, monitor, x, y, width, height);
            let shown = y < mons[id].y + mons[id].height + hide_offset - 50;
            &&& s1 == s.push(WindowView {
                addr,
                workspace,
                monitor,
                saved_x: x,
                saved_y: if shown { y } else { RESET_Y },
                width,
                height,
                hidden: !shown,
            })
            &&& cmds.len() == 1
        }),
{
    lemma_only_monitor(mons, monitor, id, hide_offset as int, FALLBACK_LINE as int);
}

/// `p` is spelled out in `text` starting at position `k`.
pub open spec fn spelled_at(text: Seq<char>, p: Seq<char>, k: int) -> bool {
    0 <= k && k + p.len() <= text.len() && text.subrange(k, k + p.len()) == p
}

proof fn lemma_contains_spelled(text: Seq<char>, p: Seq<char>)
    ensures
        contains(text, p) <==> exists|k: int| #[trigger] spelled_at(text, p, k),
{
    if contains(text, p) {
        let k = choose|k: int| occurs_at(text, p, k);
        assert(spelled_at(text, p, k));
    }
    if exists|k: int| #[trigger] spelled_at(text, p, k) {
        let k = choose|k: int| #[trigger] spelled_at(text, p, k);
        assert(occurs_at(text, p, k));
    }
}

/// An ignore pattern matches exactly when, case folded, it is spelled out at
/// some position of the case-folded class or of the case-folded title.
pub proof fn law_ignore_is_substring_match(ps: Seq<Seq<char>>, class: Seq<char>, title: Seq<char>)
    ensures
        ignored_by(ps, class, title) <==> exists|i: int, k: int|
            #![trigger spelled_at(lowercase(class), lowercase(ps[i]), k)]
            #![trigger spelled_at(lowercase(title), lowercase(ps[i]), k)]
            0 <= i < ps.len() && (spelled_at(lowercase(class), lowercase(ps[i]), k)
                || spelled_at(lowercase(title), lowercase(ps[i]), k)),
{
    let rhs = exists|i: int, k: int|
        #![trigger spelled_at(lowercase(class), lowercase(ps[i]), k)]
        #![trigger spelled_at(lowercase(title), lowercase(ps[i]), k)]
        0 <= i < ps.len() && (spelled_at(lowercase(class), lowercase(ps[i]), k)
            || spelled_at(lowercase(title), lowercase(ps[i]), k));
    if ignored_by(ps, class, title) {
        let i = choose|i: int| 0 <= i < ps.len() && #[trigger] crate::config::pattern_matches(ps[i], class, title);
        lemma_contains_spelled(lowercase(class), lowercase(ps[i]));
        lemma_contains_spelled(lowercase(title), lowercase(ps[i]));
        if contains(lowercase(class), lowercase(ps[i])) {
            let k = choose|k: int| #[trigger] spelled_at(lowercase(class), lowercase(ps[i]), k);
            assert(spelled_at(lowercase(class), lowercase(ps[i]), k));
        } else {
            let k = choose|k: int| #[trigger] spelled_at(lowercase(title), lowercase(ps[i]), k);
            assert(spelled_at(lowercase(title), lowercase(ps[i]), k));
        }
        assert(rhs);
    }
    if rhs {
        let (i, k) = choose|i: int, k: int|
            #![trigger spelled_at(lowercase(class), lowercase(ps[i]), k)]
            #![trigger spelled_at(lowercase(title), lowercase(ps[i]), k)]
            0 <= i < ps.len() && (spelled_at(lowercase(class), lowercase(ps[i]), k)
                || spelled_at(lowercase(title), lowercase(ps[i]), k));
        lemma_contains_spelled(lowercase(class), lowercase(ps[i]));
        lemma_contains_spelled(lowercase(title), lowercase(ps[i]));
        assert(crate::config::pattern_matches(ps[i], class, title));
    }
}

/// Matching already case-folded texts: a pattern matches exactly when it is
/// spelled out at some position of the class or of the title.
pub proof fn law_lowered_match_is_substring_match(class_l: Seq<char>, title_l: Seq<char>, pats_l: Seq<Seq<char>>)
    ensures
        lowered_match(class_l, title_l, pats_l) <==> exists|i: int, k: int|
            #![trigger spelled_at(class_l, pats_l[i], k)]
            #![trigger spelled_at(title_l, pats_l[i], k)]
            0 <= i < pats_l.len() && (spelled_at(class_l, pats_l[i], k) || spelled_at(title_l, pats_l[i], k)),
{
    let rhs = exists|i: int, k: int|
        #![trigger spelled_at(class_l, pats_l[i], k)]
        #![trigger spelled_at(title_l, pats_l[i], k)]
        0 <= i < pats_l.len() && (spelled_at(class_l, pats_l[i], k) || spelled_at(title_l, pats_l[i], k));
    if lowered_match(class_l, title_l, pats_l) {
        let i = choose|i: int|
            0 <= i < pats_l.len() && (contains(class_l, #[trigger] pats_l[i]) || contains(title_l, pats_l[i]));
        lemma_contains_spelled(class_l, pats_l[i]);
        lemma_contains_spelled(title_l, pats_l[i]);
        if contains(class_l, pats_l[i]) {
            let k = choose|k: int| #[trigger] spelled_at(class_l, pats_l[i], k);
            assert(spelled_at(class_l, pats_l[i], k));
        } else {
            let k = choose|k: int| #[trigger] spelled_at(title_l, pats_l[i], k);
            assert(spelled_at(title_l, pats_l[i], k));
        }
        assert(rhs);
    }
    if rhs {
        let (i, k) = choose|i: int, k: int|
            #![trigger spelled_at(class_l, pats_l[i], k)]
            #![trigger spelled_at(title_l, pats_l[i], k)]
            0 <= i < pats_l.len() && (spelled_at(class_l, pats_l[i], k) || spelled_at(title_l, pats_l[i], k));
        lemma_contains_spelled(class_l, pats_l[i]);
        lemma_contains_spelled(title_l, pats_l[i]);
        assert(contains(class_l, pats_l[i]) || contains(title_l, pats_l[i]));
    }
}

/// One of the words that mark a switcher or launcher layer.
pub open spec fn switcher_word(w: Seq<char>) -> bool {
    ||| w == "switcher"@
    ||| w == "rofi"@
    ||| w == "walker"@
    ||| w == "overview"@
    ||| w == "tab"@
    ||| w == "launcher"@
}

/// A (lowercased) layer name names a switcher exactly when one of the six
/// words `switcher`, `rofi`, `walker`, `overview`, `tab`, `launcher` occurs
/// at some position of it.
pub proof fn law_switcher_names_are_substring_matches(l: Seq<char>)
    ensures
        names_switcher(l) <==> exists|w: Seq<char>, k: int| switcher_word(w) && #[trigger] spelled_at(l, w, k),
{
    let rhs = exists|w: Seq<char>, k: int| switcher_word(w) && #[trigger] spelled_at(l, w, k);
    if names_switcher(l) {
        let w = if contains(l, "switcher"@) {
            "switcher"@
        } else if contains(l, "rofi"@) {
            "rofi"@
        } else if contains(l, "walker"@) {
            "walker"@
        } else if contains(l, "overview"@) {
            "overview"@
        } else if contains(l, "tab"@) {
            "tab"@
        } else {
            "launcher"@
        };
        assert(contains(l, w));
        lemma_contains_spelled(l, w);
        let k = choose|k: int| #[trigger] spelled_at(l, w, k);
        assert(switcher_word(w) && spelled_at(l, w, k));
        assert(rhs);
    }
    if rhs {
        let (w, k) = choose|w: Seq<char>, k: int| switcher_word(w) && #[trigger] spelled_at(l, w, k);
        lemma_contains_spelled(l, w);
        assert(contains(l, w));
    }
}

/// Opening a layer whose case-folded name contains `switcher` (or another
/// switcher word) marks the switcher open, recording the time; nothing else
/// changes.
pub proof fn law_opening_switcher_layer_is_recorded(
    line: Seq<char>,
    payload: Seq<char>,
    s: Seq<WindowView>,
    mons: Map<i32, MonitorView>,
    config: &Config,
    st: State,
    clients: Option<Seq<ClientView>>,
    monitor_list: Option<Seq<HyprMonitor>>,
    elapsed_ms: Option<u128>,
    now: Instant,
    w: Seq<char>,
    k: int,
)
    requires
        split_event(line) == Some(("openlayer"@, payload)),
        switcher_word(w),
        spelled_at(lowercase(payload), w, k),
    ensures
        handle_model(line, s, mons, config, st, clients, monitor_list, elapsed_ms, now) == (Outcome {
            windows: s,
            monitors: mons,
            state: State { switcher_active: true, last_switcher_time: Some(now) },
            commands: Seq::<Seq<char>>::empty(),
            hide_shown: false,
        }),
{
    reveal_strlit("activewindowv2");
    reveal_strlit("activewindow");
    reveal_strlit("openlayer");
    assert("openlayer"@.len() != "activewindowv2"@.len());
    assert("openlayer"@.len() != "activewindow"@.len());
    law_switcher_names_are_substring_matches(lowercase(payload));
    assert(switcher_layer(payload));
}

proof fn lemma_upsert(s: Seq<WindowView>, e: WindowView)
    requires
        addrs_distinct(s),
    ensures
        addrs_distinct(upsert(s, e)),
        window_of(upsert(s, e), e.addr) == Some(e),
        forall|a: Seq<char>| a != e.addr ==> #[trigger] window_of(upsert(s, e), a) == window_of(s, a),
{
    let t = upsert(s, e);
    if has_addr(s, e.addr) {
        let i = index_of(s, e.addr);
        lemma_update_keeps_distinct(s, i, e);
        lemma_index_of(t, i);
        assert forall|a: Seq<char>| a != e.addr implies #[trigger] window_of(t, a) == window_of(s, a) by {
            if has_addr(s, a) {
                assert(s[index_of(s, a)].addr == a);
            }
        }
    } else {
        lemma_push_keeps_distinct(s, e);
        lemma_index_of(t, s.len() as int);
        assert forall|a: Seq<char>| a != e.addr implies #[trigger] window_of(t, a) == window_of(s, a) by {
            if has_addr(s, a) {
                lemma_extends_index(s, t, a);
            }
            if has_addr(t, a) {
                let j = index_of(t, a);
                assert(j < s.len());
                assert(s[j].addr == a);
            }
        }
    }
}

proof fn lemma_scan_distinct(s: Seq<WindowView>, mons: Map<i32, MonitorView>, hide_offset: i32, cs: Seq<ClientView>)
    requires
        addrs_distinct(s),
    ensures
        addrs_distinct(scan_model(s, mons, hide_offset, cs).0),
    decreases cs.len(),
{
    if cs.len() > 0 {
        lemma_scan_distinct(s, mons, hide_offset, cs.drop_last());
        let s1 = scan_model(s, mons, hide_offset, cs.drop_last()).0;
        let c = cs.last();
        if c.is_visible_floating() {
            let mon = monitor_name_of(mons, c.monitor);
            let line = offscreen_y_of(mons, mon, hide_offset as int, FALLBACK_LINE as int);
            lemma_upsert(s1, crate::registry::new_window(c.address, c.workspace, mon, c.x, c.y, c.width, c.height, line));
        }
    }
}

proof fn lemma_scan_records(
    s: Seq<WindowView>,
    mons: Map<i32, MonitorView>,
    hide_offset: i32,
    cs: Seq<ClientView>,
    i: int,
)
    requires
        addrs_distinct(s),
        0 <= i < cs.len(),
        cs[i].is_visible_floating(),
        forall|j: int| i < j < cs.len() ==> #[trigger] cs[j].address != cs[i].address,
    ensures
        ({
            let c = cs[i];
            let mon = monitor_name_of(mons, c.monitor);
            let line = offscreen_y_of(mons, mon, hide_offset as int, FALLBACK_LINE as int);
            window_of(scan_model(s, mons, hide_offset, cs).0, c.address) == Some(
                crate::registry::new_window(c.address, c.workspace, mon, c.x, c.y, c.width, c.height, line),
            )
        }),
    decreases cs.len(),
{
    lemma_scan_distinct(s, mons, hide_offset, cs.drop_last());
    let s1 = scan_model(s, mons, hide_offset, cs.drop_last()).0;
    let c = cs.last();
    let mon = monitor_name_of(mons, c.monitor);
    let line = offscreen_y_of(mons, mon, hide_offset as int, FALLBACK_LINE as int);
    let e = crate::registry::new_window(c.address, c.workspace, mon, c.x, c.y, c.width, c.height, line);
    lemma_upsert(s1, e);
    if i < cs.len() - 1 {
        assert(cs.drop_last()[i] == cs[i]);
        assert forall|j: int| i < j < cs.drop_last().len() implies #[trigger] cs.drop_last()[j].address
            != cs.drop_last()[i].address by {
            assert(cs.drop_last()[j] == cs[j]);
        }
        lemma_scan_records(s, mons, hide_offset, cs.drop_last(), i);
        assert(cs[cs.len() - 1].address != cs[i].address);
    }
}

/// The start-up scan records a visible floating client, not followed in the
/// list by another client with its address, at its reported position and
/// size on its monitor; judged against the line `hide_offset` pixels below
/// that monitor's bottom edge, a client above it by more than 50 pixels is
/// recorded shown, any other hidden with y reset to 200.
pub proof fn law_scan_records_visible_client(
    s: Seq<WindowView>,
    mons: Map<i32, MonitorView>,
    hide_offset: i32,
    cs: Seq<ClientView>,
    i: int,
)
    requires
        addrs_distinct(s),
        0 <= i < cs.len(),
        cs[i].is_visible_floating(),
        forall|j: int| i < j < cs.len() ==> #[trigger] cs[j].address != cs[i].address,
        only_monitor_named(mons, mons[cs[i].monitor].name, cs[i].monitor),
    ensures
        ({
            let c = cs[i];
            let m = mons[c.monitor];
            let shown = c.y < m.y + m.height + hide_offset - 50;
            &&& addrs_distinct(scan_model(s, mons, hide_offset, cs).0)
            &&& window_of(scan_model(s, mons, hide_offset, cs).0, c.address) == Some(WindowView {
                addr: c.address,
                workspace: c.workspace,
                monitor: m.name,
                saved_x: c.x,
                saved_y: if shown { c.y } else { RESET_Y },
                width: c.width,
                height: c.height,
                hidden: !shown,
            })
        }),
{
    let c = cs[i];
    lemma_scan_distinct(s, mons, hide_offset, cs);
    lemma_scan_records(s, mons, hide_offset, cs, i);
    assert(monitor_name_of(mons, c.monitor) == mons[c.monitor].name);
    lemma_only_monitor(mons, mons[c.monitor].name, c.monitor, hide_offset as int, FALLBACK_LINE as int);
}

} // verus!
