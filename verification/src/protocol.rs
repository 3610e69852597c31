use vstd::prelude::*;

verus! {

/// Protocol messages exchanged between client and server.
#[derive(Debug, Clone, PartialEq, Eq)]
pub enum Message {
    /// Client registers a port forwarding rule
    Register { local_port: u16, remote_port: u16 },
    /// Server acknowledges registration
    RegisterAck { remote_port: u16, success: bool, error: Option<String> },
    /// Server requests client to open a new tunnel
    TunnelOpen { tunnel_id: u32, remote_port: u16 },
    /// Client acknowledges tunnel opening
    TunnelOpenAck { tunnel_id: u32, success: bool, error: Option<String> },
    /// Data transfer in a tunnel
    TunnelData { tunnel_id: u32, data: Vec<u8> },
    /// Close a tunnel
    TunnelClose { tunnel_id: u32 },
    /// Keepalive request
    Ping,
    /// Keepalive answer
    Pong,
}

/// The text carried by an optional error field, if any.
pub open spec fn error_text(error: Option<String>) -> Option<Seq<char>> {
    match error {
        Some(e) => Some(e@),
        None => None,
    }
}

/// `msg` is an acknowledgement of a registration of `remote_port`, with the
/// given outcome and error text.
pub open spec fn is_register_ack(
    msg: Message,
    remote_port: u16,
    success: bool,
    error: Option<Seq<char>>,
) -> bool {
    match msg {
        Message::RegisterAck { remote_port: p, success: s, error: e } => {
            p == remote_port && s == success && error_text(e) == error
        },
        _ => false,
    }
}

/// `msg` is an acknowledgement of the opening of tunnel `tunnel_id`, with the
/// given outcome and error text.
pub open spec fn is_tunnel_open_ack(
    msg: Message,
    tunnel_id: u32,
    success: bool,
    error: Option<Seq<char>>,
) -> bool {
    match msg {
        Message::TunnelOpenAck { tunnel_id: t, success: s, error: e } => {
            t == tunnel_id && s == success && error_text(e) == error
        },
        _ => false,
    }
}

} // verus!
