//! The relay's part in a connection's beginning.

use crate::handler::{ConnState, ConnectionHandler};
use crate::registry::{Peer, PeerRegistry, RegistryError};
use vstd::prelude::*;

verus! {

/// Takes in an accepted connection: registers the peer under the next
/// identifier and gives the handler that will serve it.
///
/// Fails, and registers nothing, only when every identifier has been given
/// out.
pub fn accept<H>(registry: &mut PeerRegistry<H>, addr: String, handle: H) -> (handler: Result<
    ConnectionHandler,
    RegistryError,
>)
    requires
        old(registry).wf(),
    ensures
        final(registry).wf(),
        match handler {
            Ok(h) => {
                &&& h.peer() == old(registry).next_id()
                &&& h.status() == ConnState::Connected
                &&& old(registry).next_id() < u64::MAX
                &&& final(registry).next_id() == old(registry).next_id() + 1
                &&& final(registry).peers() == old(registry).peers().push(
                    (Peer { id: h.peer(), addr, handle, failed: false }),
                )
            },
            Err(_) => {
                &&& old(registry).next_id() == u64::MAX
                &&& final(registry).next_id() == old(registry).next_id()
                &&& final(registry).peers() == old(registry).peers()
            },
        },
{
    match registry.register(addr, handle) {
        Ok(id) => Ok(ConnectionHandler::new(id)),
        Err(error) => Err(error),
    }
}

} // verus!
