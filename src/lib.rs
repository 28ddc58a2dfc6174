//! A concurrent TCP echo service, as a verified core: the registry of remote
//! ports that have connected, the decisions of one connection's echo loop,
//! and the decisions of the accept loop. The program around it performs the
//! socket I/O and hands each outcome back as an event.

pub mod listener;
pub mod registry;
pub mod session;

pub use listener::{listen_address, AcceptAction, AcceptEvent, EchoServer, DEFAULT_LISTEN_ADDRESS};
pub use registry::{PortRegistry, PRESENCE_MARKER};
pub use session::{Action, EchoSession, Event, Phase, READ_CHUNK};
