//! Relay-and-verification engine for bridging chat and presence events
//! between a group-chat service and a game server's plugin host.
//!
//! The crate holds the pure core: the template engine and role resolver
//! (`format`), the markup translator (`markup`), the identity-verification
//! ledger (`ledger`), and the dispatcher's per-event decision functions
//! (`dispatch`). Transport, I/O and the event loops live outside the
//! library and call into it with plain values.

pub mod config;
pub mod dispatch;
pub mod format;
pub mod ledger;
pub mod markup;
pub mod numbers;
mod text;
