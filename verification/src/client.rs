use vstd::prelude::*;
use std::collections::HashMap;
use crate::protocol::{Message, error_text, is_tunnel_open_ack};
use crate::rules::ForwardRule;

verus! {

broadcast use vstd::std_specs::hash::group_hash_axioms;

/// The client's state as the contracts see it.
pub struct ClientView<T> {
    pub rules: Seq<ForwardRule>,
    pub tunnels: Map<u32, T>,
}

/// What the client has to do after taking in a message from the server.
pub enum ClientReaction {
    /// Nothing to do.
    Nothing,
    /// The server answered a registration; to be reported.
    Registered { remote_port: u16, success: bool, error: Option<String> },
    /// Connect to `local_port` on this machine for tunnel `tunnel_id`.
    OpenTunnel { tunnel_id: u32, local_port: u16 },
    /// Send this message to the server.
    Send(Message),
    /// Hand `data` to the local end of tunnel `tunnel_id`.
    Forward { tunnel_id: u32, data: Vec<u8> },
    /// The server sent a message that only a client sends.
    Unexpected(Message),
}

/// The local port of the first rule for `remote_port`, if any.
pub open spec fn first_local_port(rules: Seq<ForwardRule>, remote_port: u16) -> Option<u16>
    decreases rules.len(),
{
    if rules.len() == 0 {
        None
    } else if rules[0].remote_port == remote_port {
        Some(rules[0].local_port)
    } else {
        first_local_port(rules.drop_first(), remote_port)
    }
}

impl<T> ClientView<T> {
    pub open spec fn close_tunnel(self, tunnel_id: u32) -> Self {
        ClientView { rules: self.rules, tunnels: self.tunnels.remove(tunnel_id) }
    }

    /// The client after taking in `msg` from the server.
    pub open spec fn receive(self, msg: Message) -> Self {
        match msg {
            Message::TunnelClose { tunnel_id } => self.close_tunnel(tunnel_id),
            _ => self,
        }
    }

    /// What the client is asked to do when `msg` comes in from the server.
    pub open spec fn reaction(self, msg: Message, r: ClientReaction) -> bool {
        match msg {
            Message::RegisterAck { remote_port, success, error } => r == ClientReaction::Registered {
                remote_port,
                success,
                error,
            },
            Message::TunnelOpen { tunnel_id, remote_port } => match first_local_port(
                self.rules,
                remote_port,
            ) {
                Some(local_port) => r == ClientReaction::OpenTunnel { tunnel_id, local_port },
                None => r matches ClientReaction::Send(m) && is_tunnel_open_ack(
                    m,
                    tunnel_id,
                    false,
                    Some("No local port configured"@),
                ),
            },
            Message::TunnelData { tunnel_id, data } => {
                if self.tunnels.contains_key(tunnel_id) {
                    r == ClientReaction::Forward { tunnel_id, data }
                } else {
                    r is Nothing
                }
            },
            Message::Ping => r == ClientReaction::Send(Message::Pong),
            Message::Register { .. } => r == ClientReaction::Unexpected(msg),
            Message::TunnelOpenAck { .. } => r == ClientReaction::Unexpected(msg),
            _ => r is Nothing,
        }
    }
}

/// The client's forwarding rules and its open tunnels; `T` is the channel to
/// the local end of a tunnel.
pub struct ClientState<T> {
    forward_rules: Vec<ForwardRule>,
    tunnel_senders: HashMap<u32, T>,
}

impl<T> View for ClientState<T> {
    type V = ClientView<T>;

    closed spec fn view(&self) -> ClientView<T> {
        ClientView { rules: self.forward_rules@, tunnels: self.tunnel_senders@ }
    }
}

impl<T> ClientState<T> {
    pub fn new(forward_rules: Vec<ForwardRule>) -> (s: Self)
        ensures
            s@.rules == forward_rules@,
            s@.tunnels == Map::<u32, T>::empty(),
    {
        ClientState { forward_rules, tunnel_senders: HashMap::new() }
    }

    /// The forwarding rules, in the order given.
    pub fn forward_rules(&self) -> (rules: &Vec<ForwardRule>)
        ensures
            rules@ == self@.rules,
    {
        &self.forward_rules
    }

    /// The local port of the first rule for `remote_port`, if any.
    pub fn local_port_for(&self, remote_port: u16) -> (p: Option<u16>)
        ensures
            p == first_local_port(self@.rules, remote_port),
    {
        let n = self.forward_rules.len();
        assert(self.forward_rules@.skip(0) =~= self.forward_rules@);
        for i in 0..n
            invariant
                n == self.forward_rules@.len(),
                first_local_port(self.forward_rules@, remote_port) == first_local_port(
                    self.forward_rules@.skip(i as int),
                    remote_port,
                ),
        {
            let rule = self.forward_rules[i];
            assert(self.forward_rules@.skip(i as int)[0] == rule);
            if rule.remote_port == remote_port {
                return Some(rule.local_port);
            }
            assert(self.forward_rules@.skip(i as int).drop_first() =~= self.forward_rules@.skip(
                i + 1,
            ));
        }
        assert(self.forward_rules@.skip(n as int) =~= Seq::<ForwardRule>::empty());
        None
    }

    /// Takes in a message from the server and says what to do about it.
    pub fn handle_server_message(&mut self, message: Message) -> (r: ClientReaction)
        ensures
            final(self)@ == old(self)@.receive(message),
            old(self)@.reaction(message, r),
    {
        match message {
            Message::RegisterAck { remote_port, success, error } => {
                ClientReaction::Registered { remote_port, success, error }
            },
            Message::TunnelOpen { tunnel_id, remote_port } => {
                match self.local_port_for(remote_port) {
                    Some(local_port) => ClientReaction::OpenTunnel { tunnel_id, local_port },
                    None => {
                        let text = String::from_str("No local port configured");
                        proof {
                            reveal_strlit("No local port configured");
                        }
                        ClientReaction::Send(
                            Message::TunnelOpenAck { tunnel_id, success: false, error: Some(text) },
                        )
                    },
                }
            },
            Message::TunnelData { tunnel_id, data } => {
                if self.tunnel_senders.contains_key(&tunnel_id) {
                    ClientReaction::Forward { tunnel_id, data }
                } else {
                    ClientReaction::Nothing
                }
            },
            Message::TunnelClose { tunnel_id } => {
                self.remove_tunnel(tunnel_id);
                ClientReaction::Nothing
            },
            Message::Ping => ClientReaction::Send(Message::Pong),
            Message::Pong => ClientReaction::Nothing,
            other => ClientReaction::Unexpected(other),
        }
    }

    /// Keeps the channel to the local end of tunnel `tunnel_id`.
    pub fn add_tunnel(&mut self, tunnel_id: u32, sender: T)
        ensures
            final(self)@ == (ClientView {
                rules: old(self)@.rules,
                tunnels: old(self)@.tunnels.insert(tunnel_id, sender),
            }),
    {
        self.tunnel_senders.insert(tunnel_id, sender);
    }

    /// Forgets tunnel `tunnel_id` and hands back its channel, if it was open.
    pub fn remove_tunnel(&mut self, tunnel_id: u32) -> (sender: Option<T>)
        ensures
            final(self)@ == old(self)@.close_tunnel(tunnel_id),
            sender == (if old(self)@.tunnels.contains_key(tunnel_id) {
                Some(old(self)@.tunnels[tunnel_id])
            } else {
                None::<T>
            }),
    {
        self.tunnel_senders.remove(&tunnel_id)
    }

    /// Forgets every tunnel (the connection to the server is gone).
    pub fn clear_tunnels(&mut self)
        ensures
            final(self)@ == (ClientView { rules: old(self)@.rules, tunnels: Map::<u32, T>::empty() }),
    {
        self.tunnel_senders.clear();
    }

    /// The channel to the local end of tunnel `tunnel_id`, if it is open.
    pub fn tunnel_sender(&self, tunnel_id: u32) -> (sender: Option<&T>)
        ensures
            sender == (if self@.tunnels.contains_key(tunnel_id) {
                Some(&self@.tunnels[tunnel_id])
            } else {
                None::<&T>
            }),
    {
        self.tunnel_senders.get(&tunnel_id)
    }
}

/// The answer to the server's request to open tunnel `tunnel_id`: success, or
/// failure with the reason the local service could not be reached.
pub fn tunnel_open_ack(tunnel_id: u32, connect_error: Option<&str>) -> (m: Message)
    ensures
        match connect_error {
            None => is_tunnel_open_ack(m, tunnel_id, true, None),
            Some(e) => is_tunnel_open_ack(
                m,
                tunnel_id,
                false,
                Some("Failed to connect to local service: "@ + e@),
            ),
        },
{
    match connect_error {
        None => Message::TunnelOpenAck { tunnel_id, success: true, error: None },
        Some(e) => {
            let text = String::from_str("Failed to connect to local service: ").concat(e);
            Message::TunnelOpenAck { tunnel_id, success: false, error: Some(text) }
        },
    }
}

proof fn lemma_first_local_port(rules: Seq<ForwardRule>, k: int)
    requires
        0 <= k < rules.len(),
        forall|j: int| 0 <= j < k ==> rules[j].remote_port != rules[k].remote_port,
    ensures
        first_local_port(rules, rules[k].remote_port) == Some(rules[k].local_port),
    decreases k,
{
    if k > 0 {
        let rest = rules.drop_first();
        assert forall|j: int| 0 <= j < k - 1 implies (#[trigger] rest[j]).remote_port != rest[k - 1].remote_port by {
            assert(rest[j] == rules[j + 1]);
        }
        lemma_first_local_port(rest, k - 1);
        assert(rest[k - 1] == rules[k]);
    }
}

/// A tunnel request for a public port sends the client to the local port of
/// its first rule for that port.
pub proof fn lemma_tunnel_request_reaches_local_port<T>(
    c: ClientView<T>,
    tunnel_id: u32,
    k: int,
    r: ClientReaction,
)
    requires
        0 <= k < c.rules.len(),
        forall|j: int| 0 <= j < k ==> c.rules[j].remote_port != c.rules[k].remote_port,
        c.reaction((Message::TunnelOpen { tunnel_id, remote_port: c.rules[k].remote_port }), r),
    ensures
        r == (ClientReaction::OpenTunnel { tunnel_id, local_port: c.rules[k].local_port }),
{
    lemma_first_local_port(c.rules, k);
}

/// Forgetting a tunnel forgets that tunnel only: every other tunnel keeps its
/// channel, and the rules stay.
pub proof fn lemma_client_close_tunnel_closes_only_it<T>(c: ClientView<T>, tunnel_id: u32, t2: u32)
    ensures
        !c.close_tunnel(tunnel_id).tunnels.contains_key(tunnel_id),
        t2 != tunnel_id ==> (c.close_tunnel(tunnel_id).tunnels.contains_key(t2)
            <==> c.tunnels.contains_key(t2)),
        t2 != tunnel_id && c.tunnels.contains_key(t2) ==> c.close_tunnel(tunnel_id).tunnels[t2]
            == c.tunnels[t2],
        c.close_tunnel(tunnel_id).rules == c.rules,
{
}

/// Only a close from the server changes the client, and only by forgetting
/// that one tunnel; every other message leaves the rules and the open tunnels
/// as they were.
pub proof fn lemma_client_receive_keeps_tunnels<T>(c: ClientView<T>, msg: Message, t2: u32)
    ensures
        c.receive(msg).rules == c.rules,
        !(msg is TunnelClose) ==> c.receive(msg).tunnels == c.tunnels,
        msg matches Message::TunnelClose { tunnel_id } ==> !c.receive(msg).tunnels.contains_key(
            tunnel_id,
        ),
        msg matches Message::TunnelClose { tunnel_id } ==> (t2 != tunnel_id ==> (c.receive(
            msg,
        ).tunnels.contains_key(t2) <==> c.tunnels.contains_key(t2))),
        msg matches Message::TunnelClose { tunnel_id } ==> (t2 != tunnel_id
            && c.tunnels.contains_key(t2) ==> c.receive(msg).tunnels[t2] == c.tunnels[t2]),
{
}

/// What the client answers: a pong to a ping; a refusal ("No local port
/// configured") when no rule serves the requested port; the data of an open
/// tunnel forwarded unchanged (nothing for a tunnel that is not open); the
/// server's answer to a registration reported as it came; nothing for closes
/// and pongs; and a report of the messages only a client sends.
pub proof fn lemma_client_reaction_answers<T>(c: ClientView<T>, msg: Message, r: ClientReaction)
    requires
        c.reaction(msg, r),
    ensures
        msg is Ping ==> (r matches ClientReaction::Send(m) && m is Pong),
        msg matches Message::TunnelOpen { tunnel_id, remote_port } ==> (first_local_port(
            c.rules,
            remote_port,
        ) is None ==> (r matches ClientReaction::Send(m) && m matches Message::TunnelOpenAck {
            tunnel_id: t,
            success,
            error,
        } && t == tunnel_id && !success && error_text(error) == Some(
            "No local port configured"@,
        ))),
        msg matches Message::TunnelOpen { remote_port, .. } ==> (first_local_port(
            c.rules,
            remote_port,
        ) is None <==> forall|i: int| 0 <= i < c.rules.len() ==> (#[trigger] c.rules[i]).remote_port
            != remote_port),
        msg matches Message::TunnelData { tunnel_id, data } ==> (c.tunnels.contains_key(tunnel_id)
            ==> (r matches ClientReaction::Forward { tunnel_id: t, data: d } && t == tunnel_id && d
            == data)),
        msg matches Message::TunnelData { tunnel_id, .. } ==> (!c.tunnels.contains_key(tunnel_id)
            ==> r is Nothing),
        msg matches Message::RegisterAck { remote_port, success, error } ==> (r matches
            ClientReaction::Registered { remote_port: p, success: s, error: e } && p == remote_port
            && s == success && e == error),
        msg is Pong || msg is TunnelClose ==> r is Nothing,
        msg is Register || msg is TunnelOpenAck ==> r == ClientReaction::Unexpected(msg),
{
    if let Message::TunnelOpen { remote_port, .. } = msg {
        lemma_first_local_port_none(c.rules, remote_port);
    }
}

proof fn lemma_first_local_port_none(rules: Seq<ForwardRule>, remote_port: u16)
    ensures
        first_local_port(rules, remote_port) is None <==> forall|i: int|
            0 <= i < rules.len() ==> (#[trigger] rules[i]).remote_port != remote_port,
    decreases rules.len(),
{
    if rules.len() > 0 {
        let rest = rules.drop_first();
        lemma_first_local_port_none(rest, remote_port);
        if rules[0].remote_port != remote_port {
            assert forall|i: int| 0 <= i < rules.len() && (forall|j: int|
                0 <= j < rest.len() ==> (#[trigger] rest[j]).remote_port != remote_port) implies (
            #[trigger] rules[i]).remote_port != remote_port by {
                if i > 0 {
                    assert(rules[i] == rest[i - 1]);
                }
            }
            assert forall|j: int| 0 <= j < rest.len() && (forall|i: int|
                0 <= i < rules.len() ==> (#[trigger] rules[i]).remote_port != remote_port) implies (
            #[trigger] rest[j]).remote_port != remote_port by {
                assert(rest[j] == rules[j + 1]);
            }
        }
    }
}

} // verus!
