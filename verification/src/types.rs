//! The records that the daemon keeps and the records that Hyprland reports.
use vstd::prelude::*;

verus! {

/// A floating window that the daemon manages.
#[derive(Debug, Clone)]
pub struct WindowEntry {
    pub addr: String,
    pub workspace: i32,
    pub monitor: String,
    pub saved_x: i32,
    pub saved_y: i32,
    pub width: i32,
    pub height: i32,
    pub hidden: bool,
}

/// A managed window as contracts see it.
pub struct WindowView {
    pub addr: Seq<char>,
    pub workspace: i32,
    pub monitor: Seq<char>,
    pub saved_x: i32,
    pub saved_y: i32,
    pub width: i32,
    pub height: i32,
    pub hidden: bool,
}

impl View for WindowEntry {
    type V = WindowView;

    open spec fn view(&self) -> WindowView {
        WindowView {
            addr: self.addr@,
            workspace: self.workspace,
            monitor: self.monitor@,
            saved_x: self.saved_x,
            saved_y: self.saved_y,
            width: self.width,
            height: self.height,
            hidden: self.hidden,
        }
    }
}

/// Placement and size of one monitor.
#[derive(Debug, Clone)]
pub struct MonitorGeometry {
    pub name: String,
    pub x: i32,
    pub y: i32,
    pub width: i32,
    pub height: i32,
}

pub struct MonitorView {
    pub name: Seq<char>,
    pub x: i32,
    pub y: i32,
    pub width: i32,
    pub height: i32,
}

impl View for MonitorGeometry {
    type V = MonitorView;

    open spec fn view(&self) -> MonitorView {
        MonitorView { name: self.name@, x: self.x, y: self.y, width: self.width, height: self.height }
    }
}

/// One client (window) as Hyprland's `j/clients` reply lists it.
#[derive(Debug)]
pub struct HyprClient {
    pub address: String,
    pub workspace: HyprWorkspace,
    pub monitor: i32,
    pub at: [i32; 2],
    pub size: [i32; 2],
    pub floating: bool,
    pub mapped: bool,
    pub hidden: bool,
    pub focus_history_id: i32,
}

/// A client as contracts see it.
pub struct ClientView {
    pub address: Seq<char>,
    pub workspace: i32,
    pub monitor: i32,
    pub x: i32,
    pub y: i32,
    pub width: i32,
    pub height: i32,
    pub floating: bool,
    pub mapped: bool,
    pub hidden: bool,
}

impl View for HyprClient {
    type V = ClientView;

    open spec fn view(&self) -> ClientView {
        ClientView {
            address: self.address@,
            workspace: self.workspace.id,
            monitor: self.monitor,
            x: self.at@[0],
            y: self.at@[1],
            width: self.size@[0],
            height: self.size@[1],
            floating: self.floating,
            mapped: self.mapped,
            hidden: self.hidden,
        }
    }
}

impl ClientView {
    /// A window that the daemon takes charge of: floating, mapped and not
    /// hidden by Hyprland.
    pub open spec fn is_visible_floating(self) -> bool {
        self.floating && self.mapped && !self.hidden
    }
}

/// The workspace field of a client.
#[derive(Debug)]
pub struct HyprWorkspace {
    pub id: i32,
}

/// One monitor as Hyprland's `monitors -j` reply lists it.
#[derive(Debug)]
pub struct HyprMonitor {
    pub id: i32,
    pub name: String,
    pub x: i32,
    pub y: i32,
    pub width: i32,
    pub height: i32,
}

impl HyprMonitor {
    /// The geometry that the monitor cache records for this monitor.
    pub open spec fn geometry(self) -> MonitorView {
        MonitorView { name: self.name@, x: self.x, y: self.y, width: self.width, height: self.height }
    }
}

/// The client views of a list of clients.
pub open spec fn client_views(cs: Seq<HyprClient>) -> Seq<ClientView> {
    cs.map_values(|c: HyprClient| c@)
}

} // verus!
