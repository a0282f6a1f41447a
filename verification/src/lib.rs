//! Routing core of a small message-routing daemon for CAN and stream packets.
//!
//! Clients connect to the daemon over a stream socket, may register as nodes,
//! and exchange length-prefixed messages. The daemon passes each data packet
//! from the node that sent it to that node's routes, or to every other node
//! where CAN broadcast is on, and may drop CAN packets by chance.
//!
//! Everything here is free of I/O: the node table, the forwarding rules, the
//! per-connection state machine, the client's state and the wire codec work
//! on plain values and byte buffers, so that sockets, threads and the random
//! source stay with the caller.
//!
//! - [`host`]: the node table and the two flags, with their invariants.
//! - [`table_laws`]: what holds of every run of the table.
//! - [`forward`]: where a data packet goes.
//! - [`chance`]: the drop chance and the draw against it.
//! - [`session`]: the life of one connection to the daemon.
//! - [`server`]: the client's side of a connection.
//! - [`rics`]: the messages.
//! - [`codec`] and [`wire`]: the messages as bytes.
//! - [`text`]: decimal text of integers.
//! - [`script`]: the hooks of a plugin.
//! - [`bridge`]: the byte layouts of the bridges to other buses.

pub mod bridge;
pub mod chance;
pub mod codec;
pub mod forward;
pub mod host;
pub mod rics;
pub mod script;
pub mod server;
pub mod session;
pub mod table_laws;
pub mod text;
pub mod wire;
