//! Where Hyprland's two sockets live: the command socket and the event socket.
use vstd::prelude::*;

use crate::text::push_str;

verus! {

/// The path of socket file `file` of the Hyprland instance `signature` under
/// the runtime directory `runtime_dir`.
pub open spec fn socket_path(runtime_dir: Seq<char>, signature: Seq<char>, file: Seq<char>) -> Seq<char> {
    runtime_dir + "/hypr/"@ + signature + "/"@ + file
}

/// The socket paths of one Hyprland instance.
pub struct HyprIpc {
    socket: String,
    socket2: String,
}

impl HyprIpc {
    /// The command socket's path.
    pub closed spec fn command_path(&self) -> Seq<char> {
        self.socket@
    }

    /// The event socket's path.
    pub closed spec fn event_path(&self) -> Seq<char> {
        self.socket2@
    }

    /// The sockets of instance `signature` under `runtime_dir`:
    /// `<runtime_dir>/hypr/<signature>/.socket.sock` for commands and
    /// `.socket2.sock` beside it for events.
    pub fn at(runtime_dir: &str, signature: &str) -> (r: Self)
        ensures
            r.command_path() == socket_path(runtime_dir@, signature@, ".socket.sock"@),
            r.event_path() == socket_path(runtime_dir@, signature@, ".socket2.sock"@),
    {
        let mut socket = String::new();
        push_str(&mut socket, runtime_dir);
        push_str(&mut socket, "/hypr/");
        push_str(&mut socket, signature);
        push_str(&mut socket, "/");
        push_str(&mut socket, ".socket.sock");
        let mut socket2 = String::new();
        push_str(&mut socket2, runtime_dir);
        push_str(&mut socket2, "/hypr/");
        push_str(&mut socket2, signature);
        push_str(&mut socket2, "/");
        push_str(&mut socket2, ".socket2.sock");
        HyprIpc { socket, socket2 }
    }

    /// The command socket's path.
    pub fn socket(&self) -> (s: &str)
        ensures
            s@ == self.command_path(),
    {
        self.socket.as_str()
    }

    /// The event socket's path.
    pub fn socket2(&self) -> (s: &str)
        ensures
            s@ == self.event_path(),
    {
        self.socket2.as_str()
    }
}

} // verus!
