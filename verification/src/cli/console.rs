//! The console of a guest: the socket of its display, and the ports on which
//! it is bridged.

use vstd::prelude::*;

use crate::text::{cat7, join_path, path_join};

verus! {

/// The first port of a display.
pub const DISPLAY_BASE: u16 = 5900;

/// How many display ports are tried.
pub const DISPLAYS: u16 = 100;

/// The display socket of a guest.
pub fn vnc_socket(lab_runtime: &str, vm: &str) -> (r: String)
    ensures
        r@ == path_join(path_join(path_join(lab_runtime@, "vms"@), vm@), "vnc.sock"@),
{
    let vms = join_path(lab_runtime, "vms");
    let dir = join_path(vms.as_str(), vm);
    join_path(dir.as_str(), "vnc.sock")
}

/// The port to try after `tried` displays were taken; any free port once there
/// is no display left.
pub fn bridge_port(tried: u16) -> (r: u16)
    ensures
        r == (if tried < DISPLAYS {
            (DISPLAY_BASE + tried) as u16
        } else {
            0
        }),
{
    if tried < DISPLAYS {
        DISPLAY_BASE + tried
    } else {
        0
    }
}

/// The display of a port.
pub open spec fn display_of(port: u16) -> int {
    if port >= DISPLAY_BASE {
        port - DISPLAY_BASE
    } else {
        port - DISPLAY_BASE + 0x1_0000
    }
}

/// The display of a port (only meaningful for a display port).
pub fn display(port: u16) -> (r: u16)
    ensures
        r == display_of(port),
{
    port.wrapping_sub(DISPLAY_BASE)
}

/// How a console is shown.
#[derive(Debug, Clone, Copy, PartialEq, Eq, Structural)]
pub enum ConsoleMode {
    /// Bridge the display to a port and say which.
    Bridge,
    /// The viewer dials the socket itself.
    Direct,
    /// A helper holds a bridge for the viewer.
    Helper,
}

/// How a console is shown: without a viewer, or when asked to, over a port.
/// `dials_socket` says whether the viewer that was found can dial a socket.
pub fn console_mode(tcp: bool, dials_socket: Option<bool>) -> (r: ConsoleMode)
    ensures
        r == (match dials_socket {
            Some(true) if !tcp => ConsoleMode::Direct,
            Some(false) if !tcp => ConsoleMode::Helper,
            _ => ConsoleMode::Bridge,
        }),
{
    if tcp {
        return ConsoleMode::Bridge;
    }
    match dials_socket {
        None => ConsoleMode::Bridge,
        Some(direct) => if direct {
            ConsoleMode::Direct
        } else {
            ConsoleMode::Helper
        },
    }
}

/// What is said when a guest has no display socket.
pub fn no_socket(lab: &str, vm: &str, socket: &str) -> (r: String)
    ensures
        r@ == "VNC socket for "@ + lab@ + "/"@ + vm@ + " not found ("@ + socket@ + ")"@,
{
    cat7("VNC socket for ", lab, "/", vm, " not found (", socket, ")")
}

} // verus!
