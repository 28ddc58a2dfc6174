use vstd::prelude::*;

use crate::registry::PortRegistry;

verus! {

/// The address listened on when none is given.
pub const DEFAULT_LISTEN_ADDRESS: &'static str = "127.0.0.1:12345";

/// The address to listen on: the one given, else the default.
pub fn listen_address(arg: Option<String>) -> (r: String)
    ensures
        r@ == (match arg {
            Some(a) => a@,
            None => DEFAULT_LISTEN_ADDRESS@,
        }),
{
    match arg {
        Some(a) => a,
        None => String::from_str(DEFAULT_LISTEN_ADDRESS),
    }
}

/// What the accept operation reported.
pub enum AcceptEvent {
    /// A connection was accepted from a peer on this remote port.
    Accepted(u16),
    /// The accept operation failed.
    Failed,
}

/// What the accept loop does next.
#[derive(PartialEq, Eq, Structural, Clone, Copy, Debug)]
pub enum AcceptAction {
    /// Hand the connection to a new echo loop of its own and accept again.
    /// `seen_before` tells whether its port had connected before.
    Serve { peer_port: u16, seen_before: bool },
    /// Stop serving: the failure ends the whole server.
    Shutdown,
}

/// The accept loop's state: the registry of remote ports, and whether the
/// loop has stopped.
pub struct EchoServer {
    registry: PortRegistry,
    stopped: bool,
}

impl EchoServer {
    /// The ports the registry holds.
    pub closed spec fn ports(&self) -> Set<u16> {
        self.registry@
    }

    /// Whether an accept failure has ended the loop.
    pub closed spec fn has_stopped(&self) -> bool {
        self.stopped
    }

    pub closed spec fn wf(&self) -> bool {
        self.registry.wf()
    }

    /// A running server whose registry is empty.
    pub fn new() -> (r: EchoServer)
        ensures
            r.wf(),
            r.ports() == Set::<u16>::empty(),
            !r.has_stopped(),
    {
        EchoServer { registry: PortRegistry::new(), stopped: false }
    }

    /// Decides what follows an accept. Every accepted connection is served,
    /// after its port is checked and, if new, recorded; the registry decides
    /// nothing. A failed accept stops the loop, and once stopped it stays so.
    pub fn on_accept(&mut self, event: AcceptEvent) -> (action: AcceptAction)
        requires
            old(self).wf(),
        ensures
            final(self).wf(),
            old(self).has_stopped() ==> action == AcceptAction::Shutdown
                && final(self).ports() == old(self).ports() && final(self).has_stopped(),
            !old(self).has_stopped() ==> match event {
                AcceptEvent::Accepted(p) => action == (AcceptAction::Serve {
                    peer_port: p,
                    seen_before: old(self).ports().contains(p),
                }) && final(self).ports() == old(self).ports().insert(p)
                    && !final(self).has_stopped(),
                AcceptEvent::Failed => action == AcceptAction::Shutdown
                    && final(self).ports() == old(self).ports() && final(self).has_stopped(),
            },
    {
        if self.stopped {
            return AcceptAction::Shutdown;
        }
        match event {
            AcceptEvent::Accepted(p) => {
                let seen_before = self.registry.observe(p);
                AcceptAction::Serve { peer_port: p, seen_before }
            },
            AcceptEvent::Failed => {
                self.stopped = true;
                AcceptAction::Shutdown
            },
        }
    }

    /// Whether the loop has stopped.
    pub fn is_stopped(&self) -> (r: bool)
        ensures
            r == self.has_stopped(),
    {
        self.stopped
    }

    /// Whether a connection from `port` has been accepted.
    pub fn has_seen(&self, port: u16) -> (r: bool)
        ensures
            r == self.ports().contains(port),
    {
        self.registry.contains(port)
    }
}

} // verus!
