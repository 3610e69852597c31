//! Reverse tunnelling over WebSocket: the message vocabulary shared by the
//! server and the client, the server's registry of clients, ports and
//! tunnels, and the client's forwarding rules and session logic.

pub mod protocol;
pub mod server;
pub mod rules;
pub mod client;
pub mod session;
