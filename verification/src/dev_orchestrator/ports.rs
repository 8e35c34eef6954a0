//! Free ports.

use vstd::prelude::*;

verus! {

/// How many ports are tried.
pub const PORTS_TRIED: u16 = 200;

/// The last of the ports that are tried from one on.
pub open spec fn last_port(start: u16) -> int {
    if start + PORTS_TRIED - 1 > u16::MAX {
        u16::MAX as int
    } else {
        start + PORTS_TRIED - 1
    }
}

/// The first port, from one on, that a probe finds free. There is none only where none
/// of the ports that are tried is free.
pub fn find_free_port_from<F: Fn(u16) -> bool>(start: u16, free: F) -> (r: Option<u16>)
    requires
        forall|p: u16| call_requires(free, (p,)),
    ensures
        match r {
            Some(port) => start <= port <= last_port(start) && call_ensures(free, (port,), true)
                && forall|p: u16|
                start <= p < port ==> #[trigger] call_ensures(free, (p,), false),
            None => forall|p: u16|
                start <= p <= last_port(start) ==> #[trigger] call_ensures(free, (p,), false),
        },
{
    let last: u16 = if start > u16::MAX - (PORTS_TRIED - 1) {
        u16::MAX
    } else {
        start + (PORTS_TRIED - 1)
    };
    let mut port: u16 = start;
    loop
        invariant
            start <= port <= last,
            last == last_port(start),
            forall|p: u16| call_requires(free, (p,)),
            forall|p: u16| start <= p < port ==> #[trigger] call_ensures(free, (p,), false),
        decreases last - port,
    {
        if free(port) {
            return Some(port);
        }
        if port == last {
            return None;
        }
        port = port + 1;
    }
}

/// Two hundred ports are tried from the first on, or as many as there are up to the
/// largest.
pub proof fn how_many_ports_are_tried(start: u16)
    ensures
        start + 199 <= 65535 ==> last_port(start) == start + 199,
        start + 199 > 65535 ==> last_port(start) == 65535,
{
}

} // verus!
