//! The cache of monitor geometry, refreshed from Hyprland's monitor list.
use std::collections::HashMap;
use vstd::prelude::*;
use vstd::std_specs::hash::spec_hash_map_iter;
use vstd::std_specs::iter::IteratorSpec;

use crate::text::{decimal, push_decimal, push_str, str_equals};
use crate::types::{HyprMonitor, MonitorGeometry, MonitorView};

verus! {

broadcast use vstd::std_specs::hash::group_hash_axioms;

/// Monitor geometry by Hyprland monitor id.
pub struct MonitorCache {
    pub monitors: HashMap<i32, MonitorGeometry>,
}

impl View for MonitorCache {
    type V = Map<i32, MonitorView>;

    open spec fn view(&self) -> Map<i32, MonitorView> {
        self.monitors@.map_values(|g: MonitorGeometry| g@)
    }
}

/// Monitor `id` is in the cache under the name `name`.
pub open spec fn is_named(m: Map<i32, MonitorView>, id: i32, name: Seq<char>) -> bool {
    m.contains_key(id) && m[id].name == name
}

/// `id` is the smallest id among the monitors called `name`.
pub open spec fn first_named(m: Map<i32, MonitorView>, name: Seq<char>, id: i32) -> bool {
    is_named(m, id, name) && forall|j: i32| #[trigger] is_named(m, j, name) ==> id <= j
}

/// The id that a lookup by name finds: the smallest id of a monitor with that
/// name, if there is one.
pub open spec fn lookup_id(m: Map<i32, MonitorView>, name: Seq<char>) -> Option<i32> {
    if exists|id: i32| first_named(m, name, id) {
        Some(choose|id: i32| first_named(m, name, id))
    } else {
        None
    }
}

/// The y coordinate just below the monitor called `name`, `offset` pixels
/// past its bottom edge, or `fallback` when no monitor has that name.
pub open spec fn offscreen_y_of(m: Map<i32, MonitorView>, name: Seq<char>, offset: int, fallback: int) -> int {
    match lookup_id(m, name) {
        Some(id) => m[id].y + m[id].height + offset,
        None => fallback,
    }
}

/// The name that stands for monitor `id`: its own, or `monitor-<id>`.
pub open spec fn monitor_name_of(m: Map<i32, MonitorView>, id: i32) -> Seq<char> {
    if m.contains_key(id) {
        m[id].name
    } else {
        "monitor-"@ + decimal(id as int)
    }
}

/// The cache that a refresh builds from a monitor list: each monitor under
/// its id, a later entry replacing an earlier one with the same id.
pub open spec fn monitors_from(list: Seq<HyprMonitor>) -> Map<i32, MonitorView>
    decreases list.len(),
{
    if list.len() == 0 {
        Map::empty()
    } else {
        monitors_from(list.drop_last()).insert(list.last().id, list.last().geometry())
    }
}

impl MonitorCache {
    /// An empty cache.
    pub fn new() -> (c: Self)
        ensures
            c@ == Map::<i32, MonitorView>::empty(),
    {
        MonitorCache { monitors: HashMap::new() }
    }

    /// Replaces the cache with the monitors of a freshly parsed monitor list.
    pub fn refresh(&mut self, list: Vec<HyprMonitor>)
        ensures
            final(self)@ == monitors_from(list@),
    {
        self.monitors.clear();
        let mut i: usize = 0;
        while i < list.len()
            invariant
                i <= list.len(),
                self@ == monitors_from(list@.take(i as int)),
            decreases list.len() - i,
        {
            let m = &list[i];
            let g = MonitorGeometry { name: m.name.clone(), x: m.x, y: m.y, width: m.width, height: m.height };
            self.monitors.insert(m.id, g);
            assert(list@.take(i + 1).drop_last() == list@.take(i as int));
            assert(self@ == monitors_from(list@.take(i + 1)));
            i = i + 1;
        }
        assert(list@.take(list.len() as int) == list@);
    }

    /// The x coordinate `offset` pixels right of monitor `monitor_id`, or
    /// 10000 for a monitor that is not in the cache.
    pub fn get_offscreen_x(&self, monitor_id: i32, offset: i32) -> (x: i32)
        requires
            self@.contains_key(monitor_id) ==> i32::MIN <= self@[monitor_id].x + self@[monitor_id].width
                + offset <= i32::MAX,
        ensures
            x == (if self@.contains_key(monitor_id) {
                self@[monitor_id].x + self@[monitor_id].width + offset
            } else {
                10000
            }),
    {
        match self.monitors.get(&monitor_id) {
            Some(m) => (m.x as i64 + m.width as i64 + offset as i64) as i32,
            None => 10000,
        }
    }

    /// The y coordinate `offset` pixels below monitor `monitor_id`, or 10000
    /// for a monitor that is not in the cache.
    pub fn get_offscreen_y(&self, monitor_id: i32, offset: i32) -> (y: i32)
        requires
            self@.contains_key(monitor_id) ==> i32::MIN <= self@[monitor_id].y + self@[monitor_id].height
                + offset <= i32::MAX,
        ensures
            y == (if self@.contains_key(monitor_id) {
                self@[monitor_id].y + self@[monitor_id].height + offset
            } else {
                10000
            }),
    {
        match self.monitors.get(&monitor_id) {
            Some(m) => (m.y as i64 + m.height as i64 + offset as i64) as i32,
            None => 10000,
        }
    }

    /// The name of monitor `monitor_id`, or `monitor-<id>` when it is not cached.
    pub fn monitor_name(&self, monitor_id: i32) -> (name: String)
        ensures
            name@ == monitor_name_of(self@, monitor_id),
    {
        match self.monitors.get(&monitor_id) {
            Some(m) => m.name.clone(),
            None => {
                let mut s = String::new();
                push_str(&mut s, "monitor-");
                push_decimal(&mut s, monitor_id as i64);
                s
            },
        }
    }

    /// The y coordinate `offset` pixels below the monitor called `name`, or
    /// `fallback` when no monitor has that name; computed without overflow.
    pub(crate) fn offscreen_y_by_name(&self, name: &str, offset: i32, fallback: i64) -> (y: i64)
        ensures
            y == offscreen_y_of(self@, name@, offset as int, fallback as int),
    {
        match self.monitor_id(name) {
            Some(id) => {
                let g = self.monitors.get(&id).unwrap();
                g.y as i64 + g.height as i64 + offset as i64
            },
            None => fallback,
        }
    }

    /// The id of a monitor called `name`: the smallest such id, or `None`
    /// when no cached monitor has that name.
    pub fn monitor_id(&self, name: &str) -> (r: Option<i32>)
        ensures
            r == lookup_id(self@, name@),
    {
        let ghost m = self@;
        let ghost v = spec_hash_map_iter(&self.monitors).remaining();
        let ghost mut seen: int = 0;
        let mut best: Option<i32> = None;
        for entry in it: self.monitors.iter()
            invariant
                m == self@,
                v == spec_hash_map_iter(&self.monitors).remaining(),
                it.seq() == v,
                seen == it.index(),
                match best {
                    Some(b) => is_named(m, b, name@) && forall|j: int|
                        0 <= j < seen && #[trigger] is_named(m, *v[j].0, name@) ==> b <= *v[j].0,
                    None => forall|j: int| 0 <= j < seen ==> !#[trigger] is_named(m, *v[j].0, name@),
                },
        {
            proof {
                seen = seen + 1;
            }
            let (id, g) = entry;
            if str_equals(g.name.as_str(), name) {
                match best {
                    Some(b) => {
                        if *id < b {
                            best = Some(*id);
                        }
                    },
                    None => {
                        best = Some(*id);
                    },
                }
            }
        }
        assert(seen == v.len());
        match best {
            Some(b) => {
                assert forall|j: i32| #[trigger] is_named(m, j, name@) implies b <= j by {
                    assert(self.monitors@.contains_key(j));
                    assert(v.contains((&j, &self.monitors@[j])));
                    let k = choose|k: int| 0 <= k < v.len() && v[k] == (&j, &self.monitors@[j]);
                    assert(*v[k].0 == j);
                    assert(is_named(m, *v[k].0, name@));
                }
                assert(first_named(m, name@, b));
            },
            None => {
                assert forall|j: i32| !#[trigger] is_named(m, j, name@) by {
                    if is_named(m, j, name@) {
                        assert(self.monitors@.contains_key(j));
                        assert(v.contains((&j, &self.monitors@[j])));
                        let k = choose|k: int| 0 <= k < v.len() && v[k] == (&j, &self.monitors@[j]);
                        assert(*v[k].0 == j);
                        assert(is_named(m, *v[k].0, name@));
                    }
                }
            },
        }
        best
    }
}

} // verus!
