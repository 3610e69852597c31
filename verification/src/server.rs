use vstd::prelude::*;
use std::collections::HashMap;
use crate::protocol::{Message, error_text, is_register_ack};

verus! {

broadcast use vstd::std_specs::hash::group_hash_axioms;

/// What the server keeps of one connected client: the channel it answers on,
/// the public ports it holds, and the tasks listening on those ports.
pub struct ClientEntry<C, L> {
    pub sender: C,
    pub registered_ports: Vec<u16>,
    pub listener_tasks: Vec<L>,
}

/// A client entry as the contracts see it.
pub struct ClientModel<C, L> {
    pub sender: C,
    pub ports: Seq<u16>,
    pub listeners: Seq<L>,
}

impl<C, L> ClientEntry<C, L> {
    pub open spec fn model(self) -> ClientModel<C, L> {
        ClientModel {
            sender: self.sender,
            ports: self.registered_ports@,
            listeners: self.listener_tasks@,
        }
    }
}

/// The server's registry as the contracts see it.
pub struct ServerModel<C, L, T> {
    pub clients: Map<usize, ClientModel<C, L>>,
    pub port_to_client: Map<u16, usize>,
    pub tunnels: Map<u32, T>,
    pub next_client_id: usize,
    pub next_tunnel_id: u32,
}

/// What the connection handler has to do after the registry has taken in a
/// message from a client.
pub enum ServerReaction {
    /// Nothing to do.
    Nothing,
    /// Send this message back to the client.
    Reply(Message),
    /// Start listening on `port` for this client, then send `ack` (if any).
    Listen { port: u16, ack: Option<Message> },
    /// Hand `data` to the local end of tunnel `tunnel_id`.
    Forward { tunnel_id: u32, data: Vec<u8> },
    /// The client sent a message that only a server sends.
    Unexpected(Message),
}

/// Why a tunnel could not be requested from a client.
#[derive(Debug, Clone, Copy, PartialEq, Eq)]
pub enum TunnelError {
    ClientNotFound,
}

impl<C, L, T> ServerModel<C, L, T> {
    /// The registry's consistency: identifiers already handed out stay below
    /// the counters, and every port a client holds is mapped to that client,
    /// once.
    pub open spec fn wf(self) -> bool {
        &&& forall|c: usize| #[trigger] self.clients.contains_key(c) ==> c < self.next_client_id
        &&& forall|t: u32| #[trigger] self.tunnels.contains_key(t) ==> t < self.next_tunnel_id
        &&& forall|c: usize, i: int|
            self.clients.contains_key(c) && 0 <= i < self.clients[c].ports.len() ==> {
                &&& self.port_to_client.contains_key(#[trigger] self.clients[c].ports[i])
                &&& self.port_to_client[self.clients[c].ports[i]] == c
            }
        &&& forall|c: usize| #[trigger]
            self.clients.contains_key(c) ==> self.clients[c].ports.no_duplicates()
    }

    /// A new client gets the next identifier, no ports and no listeners.
    pub open spec fn connect(self, sender: C) -> Self {
        ServerModel {
            clients: self.clients.insert(
                self.next_client_id,
                ClientModel { sender, ports: Seq::empty(), listeners: Seq::empty() },
            ),
            port_to_client: self.port_to_client,
            tunnels: self.tunnels,
            next_client_id: (self.next_client_id + 1) as usize,
            next_tunnel_id: self.next_tunnel_id,
        }
    }

    /// Registration of `port` for `client_id`: refused (no change) when the
    /// port is taken; otherwise the port is mapped to the client and, if the
    /// client is known, added to its ports.
    pub open spec fn register(self, client_id: usize, port: u16) -> Self {
        if self.port_to_client.contains_key(port) {
            self
        } else {
            ServerModel {
                clients: if self.clients.contains_key(client_id) {
                    self.clients.insert(
                        client_id,
                        ClientModel {
                            sender: self.clients[client_id].sender,
                            ports: self.clients[client_id].ports.push(port),
                            listeners: self.clients[client_id].listeners,
                        },
                    )
                } else {
                    self.clients
                },
                port_to_client: self.port_to_client.insert(port, client_id),
                tunnels: self.tunnels,
                next_client_id: self.next_client_id,
                next_tunnel_id: self.next_tunnel_id,
            }
        }
    }

    /// A listener task is kept with its client, if the client is known.
    pub open spec fn add_listener(self, client_id: usize, task: L) -> Self {
        if self.clients.contains_key(client_id) {
            ServerModel {
                clients: self.clients.insert(
                    client_id,
                    ClientModel {
                        sender: self.clients[client_id].sender,
                        ports: self.clients[client_id].ports,
                        listeners: self.clients[client_id].listeners.push(task),
                    },
                ),
                ..self
            }
        } else {
            self
        }
    }

    /// A new tunnel gets the next tunnel identifier.
    pub open spec fn open_tunnel(self, sender: T) -> Self {
        ServerModel {
            tunnels: self.tunnels.insert(self.next_tunnel_id, sender),
            next_tunnel_id: (self.next_tunnel_id + 1) as u32,
            ..self
        }
    }

    pub open spec fn close_tunnel(self, tunnel_id: u32) -> Self {
        ServerModel { tunnels: self.tunnels.remove(tunnel_id), ..self }
    }

    /// A departing client is forgotten and the ports it held are released.
    pub open spec fn disconnect(self, client_id: usize) -> Self {
        if self.clients.contains_key(client_id) {
            ServerModel {
                clients: self.clients.remove(client_id),
                port_to_client: self.port_to_client.remove_keys(
                    self.clients[client_id].ports.to_set(),
                ),
                ..self
            }
        } else {
            self
        }
    }

    /// The registry after taking in `msg` from `client_id`.
    pub open spec fn receive(self, client_id: usize, msg: Message) -> Self {
        match msg {
            Message::Register { remote_port, .. } => self.register(client_id, remote_port),
            Message::TunnelOpenAck { tunnel_id, success, .. } => {
                if success {
                    self
                } else {
                    self.close_tunnel(tunnel_id)
                }
            },
            Message::TunnelClose { tunnel_id } => self.close_tunnel(tunnel_id),
            _ => self,
        }
    }

    /// What the connection handler is asked to do when `msg` comes in from
    /// `client_id` (judged on the registry before the message).
    pub open spec fn reaction(self, client_id: usize, msg: Message, r: ServerReaction) -> bool {
        let known = self.clients.contains_key(client_id);
        match msg {
            Message::Register { remote_port, .. } => {
                if self.port_to_client.contains_key(remote_port) {
                    if known {
                        r matches ServerReaction::Reply(m) && is_register_ack(
                            m,
                            remote_port,
                            false,
                            Some("Port already in use"@),
                        )
                    } else {
                        r is Nothing
                    }
                } else {
                    &&& r matches ServerReaction::Listen { port, ack } && port == remote_port && (
                    if known {
                        ack matches Some(m) && is_register_ack(m, remote_port, true, None)
                    } else {
                        ack is None
                    })
                }
            },
            Message::TunnelData { tunnel_id, data } => {
                if self.tunnels.contains_key(tunnel_id) {
                    r == ServerReaction::Forward { tunnel_id, data }
                } else {
                    r is Nothing
                }
            },
            Message::Ping => {
                if known {
                    r == ServerReaction::Reply(Message::Pong)
                } else {
                    r is Nothing
                }
            },
            Message::RegisterAck { .. } => r == ServerReaction::Unexpected(msg),
            Message::TunnelOpen { .. } => r == ServerReaction::Unexpected(msg),
            _ => r is Nothing,
        }
    }
}

/// The server's registry of clients, public ports and tunnels. `C` is the
/// channel to a client, `L` a task listening on a public port, `T` the
/// channel to the local end of a tunnel.
pub struct ServerState<C, L, T> {
    clients: HashMap<usize, ClientEntry<C, L>>,
    port_to_client: HashMap<u16, usize>,
    next_client_id: usize,
    next_tunnel_id: u32,
    tunnel_senders: HashMap<u32, T>,
}

impl<C, L, T> View for ServerState<C, L, T> {
    type V = ServerModel<C, L, T>;

    closed spec fn view(&self) -> ServerModel<C, L, T> {
        ServerModel {
            clients: self.clients@.map_values(|e: ClientEntry<C, L>| e.model()),
            port_to_client: self.port_to_client@,
            tunnels: self.tunnel_senders@,
            next_client_id: self.next_client_id,
            next_tunnel_id: self.next_tunnel_id,
        }
    }
}

impl<C, L, T> ServerState<C, L, T> {
    pub fn new() -> (s: Self)
        ensures
            s@.clients == Map::<usize, ClientModel<C, L>>::empty(),
            s@.port_to_client == Map::<u16, usize>::empty(),
            s@.tunnels == Map::<u32, T>::empty(),
            s@.next_client_id == 0,
            s@.next_tunnel_id == 0,
            s@.wf(),
    {
        let s = ServerState {
            clients: HashMap::new(),
            port_to_client: HashMap::new(),
            next_client_id: 0,
            next_tunnel_id: 0,
            tunnel_senders: HashMap::new(),
        };
        assert(s@.clients =~= Map::<usize, ClientModel<C, L>>::empty());
        s
    }

    /// Hands out the next client identifier.
    pub fn allocate_client_id(&mut self) -> (id: usize)
        requires
            old(self)@.next_client_id < usize::MAX,
        ensures
            id == old(self)@.next_client_id,
            final(self)@ == (ServerModel { next_client_id: (id + 1) as usize, ..old(self)@ }),
    {
        let current = self.next_client_id;
        self.next_client_id = current + 1;
        current
    }

    /// Hands out the next tunnel identifier.
    pub fn allocate_tunnel_id(&mut self) -> (id: u32)
        requires
            old(self)@.next_tunnel_id < u32::MAX,
        ensures
            id == old(self)@.next_tunnel_id,
            final(self)@ == (ServerModel { next_tunnel_id: (id + 1) as u32, ..old(self)@ }),
    {
        let current = self.next_tunnel_id;
        self.next_tunnel_id = current + 1;
        current
    }

    /// Whether another client identifier can be handed out.
    pub fn can_accept_client(&self) -> (b: bool)
        ensures
            b == (self@.next_client_id < usize::MAX),
    {
        self.next_client_id < usize::MAX
    }

    /// Whether another tunnel identifier can be handed out.
    pub fn can_open_tunnel(&self) -> (b: bool)
        ensures
            b == (self@.next_tunnel_id < u32::MAX),
    {
        self.next_tunnel_id < u32::MAX
    }

    /// Registers a newly connected client, answering on `sender`; returns its
    /// identifier, which no client known to the registry holds.
    pub fn add_client(&mut self, sender: C) -> (id: usize)
        requires
            old(self)@.wf(),
            old(self)@.next_client_id < usize::MAX,
        ensures
            id == old(self)@.next_client_id,
            !old(self)@.clients.contains_key(id),
            final(self)@ == old(self)@.connect(sender),
            final(self)@.wf(),
    {
        let id = self.allocate_client_id();
        let entry = ClientEntry { sender, registered_ports: Vec::new(), listener_tasks: Vec::new() };
        self.clients.insert(id, entry);
        assert(self@.clients =~= old(self)@.connect(sender).clients);
        id
    }

    /// Takes in a registration of `remote_port` by `client_id`.
    fn register_port(&mut self, client_id: usize, remote_port: u16) -> (r: ServerReaction)
        requires
            old(self)@.wf(),
        ensures
            final(self)@ == old(self)@.register(client_id, remote_port),
            old(self)@.reaction(
                client_id,
                Message::Register { local_port: 0, remote_port },
                r,
            ),
            final(self)@.wf(),
    {
        if self.port_to_client.contains_key(&remote_port) {
            if self.clients.contains_key(&client_id) {
                let text = String::from_str("Port already in use");
                proof {
                    reveal_strlit("Port already in use");
                }
                return ServerReaction::Reply(
                    Message::RegisterAck { remote_port, success: false, error: Some(text) },
                );
            }
            return ServerReaction::Nothing;
        }
        let ghost before = self@;
        self.port_to_client.insert(remote_port, client_id);
        let known = self.clients.contains_key(&client_id);
        if known {
            let removed = self.clients.remove(&client_id);
            match removed {
                Some(entry) => {
                    let mut entry = entry;
                    entry.registered_ports.push(remote_port);
                    self.clients.insert(client_id, entry);
                },
                None => {},
            }
        }
        assert(self@.clients =~= before.register(client_id, remote_port).clients);
        assert(self@.port_to_client =~= before.register(client_id, remote_port).port_to_client);
        proof {
            let m = self@;
            assert forall|c: usize, i: int|
                m.clients.contains_key(c) && 0 <= i < m.clients[c].ports.len() implies {
                    &&& m.port_to_client.contains_key(#[trigger] m.clients[c].ports[i])
                    &&& m.port_to_client[m.clients[c].ports[i]] == c
                } by {
                if c == client_id && i == m.clients[c].ports.len() - 1 {
                } else {
                    assert(before.clients[c].ports[i] == m.clients[c].ports[i]);
                }
            }
            assert forall|c: usize| #[trigger] m.clients.contains_key(c) implies m.clients[
                c
            ].ports.no_duplicates() by {
                if c == client_id {
                    let ps = m.clients[c].ports;
                    assert forall|i: int, j: int|
                        0 <= i < ps.len() && 0 <= j < ps.len() && i != j implies ps[i]
                        != ps[j] by {
                        if i < ps.len() - 1 && j < ps.len() - 1 {
                            assert(ps[i] == before.clients[c].ports[i]);
                            assert(ps[j] == before.clients[c].ports[j]);
                        } else if i < ps.len() - 1 {
                            assert(before.port_to_client.contains_key(before.clients[c].ports[i]));
                        } else {
                            assert(before.port_to_client.contains_key(before.clients[c].ports[j]));
                        }
                    }
                }
            }
        }
        if known {
            ServerReaction::Listen {
                port: remote_port,
                ack: Some(Message::RegisterAck { remote_port, success: true, error: None }),
            }
        } else {
            ServerReaction::Listen { port: remote_port, ack: None }
        }
    }

    /// Takes in a message from client `client_id` and says what the
    /// connection handler has to do about it.
    pub fn handle_client_message(&mut self, client_id: usize, message: Message) -> (r:
        ServerReaction)
        requires
            old(self)@.wf(),
        ensures
            final(self)@ == old(self)@.receive(client_id, message),
            old(self)@.reaction(client_id, message, r),
            final(self)@.wf(),
    {
        match message {
            Message::Register { local_port, remote_port } => {
                self.register_port(client_id, remote_port)
            },
            Message::TunnelOpenAck { tunnel_id, success, error } => {
                if !success {
                    self.close_tunnel(tunnel_id);
                }
                ServerReaction::Nothing
            },
            Message::TunnelData { tunnel_id, data } => {
                if self.tunnel_senders.contains_key(&tunnel_id) {
                    ServerReaction::Forward { tunnel_id, data }
                } else {
                    ServerReaction::Nothing
                }
            },
            Message::TunnelClose { tunnel_id } => {
                self.close_tunnel(tunnel_id);
                ServerReaction::Nothing
            },
            Message::Ping => {
                if self.clients.contains_key(&client_id) {
                    ServerReaction::Reply(Message::Pong)
                } else {
                    ServerReaction::Nothing
                }
            },
            Message::Pong => ServerReaction::Nothing,
            other => ServerReaction::Unexpected(other),
        }
    }

    /// Forgets tunnel `tunnel_id` and hands back its channel, if it was open.
    pub fn close_tunnel(&mut self, tunnel_id: u32) -> (sender: Option<T>)
        requires
            old(self)@.wf(),
        ensures
            final(self)@ == old(self)@.close_tunnel(tunnel_id),
            sender == (if old(self)@.tunnels.contains_key(tunnel_id) {
                Some(old(self)@.tunnels[tunnel_id])
            } else {
                None::<T>
            }),
            final(self)@.wf(),
    {
        let r = self.tunnel_senders.remove(&tunnel_id);
        assert(self@.clients =~= old(self)@.close_tunnel(tunnel_id).clients);
        r
    }

    /// Keeps a task listening on a port of `client_id` with that client; hands
    /// the task back when the client is not known.
    pub fn add_listener(&mut self, client_id: usize, task: L) -> (rest: Option<L>)
        requires
            old(self)@.wf(),
        ensures
            final(self)@ == old(self)@.add_listener(client_id, task),
            rest == (if old(self)@.clients.contains_key(client_id) {
                None::<L>
            } else {
                Some(task)
            }),
            final(self)@.wf(),
    {
        let removed = self.clients.remove(&client_id);
        match removed {
            Some(entry) => {
                let mut entry = entry;
                entry.listener_tasks.push(task);
                self.clients.insert(client_id, entry);
                assert(self@.clients =~= old(self)@.add_listener(client_id, task).clients);
                assert(forall|i: int|
                    0 <= i < self@.clients[client_id].ports.len()
                        ==> self@.clients[client_id].ports[i] == old(self)@.clients[client_id].ports[i]);
                None
            },
            None => {
                assert(self@.clients =~= old(self)@.clients);
                Some(task)
            },
        }
    }

    /// Forgets client `client_id` and releases the public ports it held; hands
    /// back those ports and its listener tasks, which the caller stops.
    pub fn cleanup_client(&mut self, client_id: usize) -> (released: (Vec<u16>, Vec<L>))
        requires
            old(self)@.wf(),
        ensures
            final(self)@ == old(self)@.disconnect(client_id),
            released.0@ == (if old(self)@.clients.contains_key(client_id) {
                old(self)@.clients[client_id].ports
            } else {
                Seq::<u16>::empty()
            }),
            released.1@ == (if old(self)@.clients.contains_key(client_id) {
                old(self)@.clients[client_id].listeners
            } else {
                Seq::<L>::empty()
            }),
            final(self)@.wf(),
    {
        let removed = self.clients.remove(&client_id);
        match removed {
            Some(entry) => {
                let ClientEntry { sender, registered_ports, listener_tasks } = entry;
                let ghost start = self.port_to_client@;
                let ghost remaining = self.clients@;
                let n = registered_ports.len();
                for i in 0..n
                    invariant
                        n == registered_ports@.len(),
                        self.port_to_client@ == start.remove_keys(
                            registered_ports@.take(i as int).to_set(),
                        ),
                        self.clients@ == remaining,
                        self.tunnel_senders@ == old(self).tunnel_senders@,
                        self.next_client_id == old(self).next_client_id,
                        self.next_tunnel_id == old(self).next_tunnel_id,
                {
                    let port = registered_ports[i];
                    let ghost before = self.port_to_client@;
                    self.port_to_client.remove(&port);
                    proof {
                        let a = registered_ports@.take(i as int);
                        let b = registered_ports@.take(i + 1);
                        assert(b =~= a.push(port));
                        assert forall|k: u16| b.contains(k) <==> (a.contains(k) || k == port) by {
                            if b.contains(k) {
                                let j = choose|j: int| 0 <= j < b.len() && b[j] == k;
                                if j < a.len() {
                                    assert(a[j] == k);
                                }
                            }
                            if a.contains(k) {
                                let j = choose|j: int| 0 <= j < a.len() && a[j] == k;
                                assert(b[j] == k);
                            }
                            if k == port {
                                assert(b[i as int] == k);
                            }
                        }
                        assert(self.port_to_client@ =~= start.remove_keys(b.to_set()));
                    }
                }
                assert(registered_ports@.take(n as int) =~= registered_ports@);
                assert(self@.clients =~= old(self)@.disconnect(client_id).clients);
                assert(self@.port_to_client =~= old(self)@.disconnect(client_id).port_to_client);
                proof {
                    let m = self@;
                    let o = old(self)@;
                    assert forall|c: usize, i: int|
                        m.clients.contains_key(c) && 0 <= i < m.clients[c].ports.len() implies {
                            &&& m.port_to_client.contains_key(#[trigger] m.clients[c].ports[i])
                            &&& m.port_to_client[m.clients[c].ports[i]] == c
                        } by {
                        let p = m.clients[c].ports[i];
                        assert(o.port_to_client[p] == c);
                        if o.clients[client_id].ports.contains(p) {
                            let k = choose|k: int|
                                0 <= k < o.clients[client_id].ports.len()
                                    && o.clients[client_id].ports[k] == p;
                            assert(o.port_to_client[o.clients[client_id].ports[k]] == client_id);
                        }
                    }
                }
                (registered_ports, listener_tasks)
            },
            None => {
                assert(self@.clients =~= old(self)@.clients);
                (Vec::new(), Vec::new())
            },
        }
    }

    /// The channel to client `client_id`, if it is known.
    pub fn client_sender(&self, client_id: usize) -> (sender: Option<&C>)
        ensures
            sender == (if self@.clients.contains_key(client_id) {
                Some(&self@.clients[client_id].sender)
            } else {
                None::<&C>
            }),
    {
        match self.clients.get(&client_id) {
            Some(entry) => Some(&entry.sender),
            None => None,
        }
    }

    /// Whether client `client_id` is known.
    pub fn has_client(&self, client_id: usize) -> (b: bool)
        ensures
            b == self@.clients.contains_key(client_id),
    {
        self.clients.contains_key(&client_id)
    }

    /// The channel to the local end of tunnel `tunnel_id`, if it is open.
    pub fn tunnel_sender(&self, tunnel_id: u32) -> (sender: Option<&T>)
        ensures
            sender == (if self@.tunnels.contains_key(tunnel_id) {
                Some(&self@.tunnels[tunnel_id])
            } else {
                None::<&T>
            }),
    {
        self.tunnel_senders.get(&tunnel_id)
    }

    /// Opens a tunnel for a connection that arrived on public port `port` of
    /// client `client_id`: the tunnel gets the next identifier and its channel
    /// is kept. Gives the request to send to the client, or an error when the
    /// client is not known (the channel is kept all the same).
    pub fn open_tunnel(&mut self, client_id: usize, port: u16, sender: T) -> (r: Result<
        (u32, Message),
        TunnelError,
    >)
        requires
            old(self)@.wf(),
            old(self)@.next_tunnel_id < u32::MAX,
        ensures
            final(self)@ == old(self)@.open_tunnel(sender),
            !old(self)@.tunnels.contains_key(old(self)@.next_tunnel_id),
            r == (if old(self)@.clients.contains_key(client_id) {
                Ok::<(u32, Message), TunnelError>(
                    (
                        old(self)@.next_tunnel_id,
                        Message::TunnelOpen {
                            tunnel_id: old(self)@.next_tunnel_id,
                            remote_port: port,
                        },
                    ),
                )
            } else {
                Err(TunnelError::ClientNotFound)
            }),
            final(self)@.wf(),
    {
        let tunnel_id = self.allocate_tunnel_id();
        self.tunnel_senders.insert(tunnel_id, sender);
        assert(self@.clients =~= old(self)@.clients);
        if self.clients.contains_key(&client_id) {
            Ok((tunnel_id, Message::TunnelOpen { tunnel_id, remote_port: port }))
        } else {
            Err(TunnelError::ClientNotFound)
        }
    }

    /// The message carrying `data` read from the public side of tunnel
    /// `tunnel_id` to client `client_id`; `None` when the client is gone.
    pub fn tunnel_data(&self, client_id: usize, tunnel_id: u32, data: Vec<u8>) -> (m: Option<
        Message,
    >)
        ensures
            m == (if self@.clients.contains_key(client_id) {
                Some(Message::TunnelData { tunnel_id, data })
            } else {
                None::<Message>
            }),
    {
        if self.clients.contains_key(&client_id) {
            Some(Message::TunnelData { tunnel_id, data })
        } else {
            None
        }
    }

    /// The message telling client `client_id` that the public side of tunnel
    /// `tunnel_id` has finished; `None` when the client is gone.
    pub fn tunnel_finished(&self, client_id: usize, tunnel_id: u32) -> (m: Option<Message>)
        ensures
            m == (if self@.clients.contains_key(client_id) {
                Some(Message::TunnelClose { tunnel_id })
            } else {
                None::<Message>
            }),
    {
        if self.clients.contains_key(&client_id) {
            Some(Message::TunnelClose { tunnel_id })
        } else {
            None
        }
    }
}

/// No public port is held by two clients at once.
pub proof fn lemma_port_held_by_one_client<C, L, T>(
    m: ServerModel<C, L, T>,
    a: usize,
    b: usize,
    port: u16,
)
    requires
        m.wf(),
        m.clients.contains_key(a),
        m.clients.contains_key(b),
        m.clients[a].ports.contains(port),
        m.clients[b].ports.contains(port),
    ensures
        a == b,
{
    let i = choose|i: int| 0 <= i < m.clients[a].ports.len() && m.clients[a].ports[i] == port;
    let j = choose|j: int| 0 <= j < m.clients[b].ports.len() && m.clients[b].ports[j] == port;
    assert(m.port_to_client[m.clients[a].ports[i]] == a);
    assert(m.port_to_client[m.clients[b].ports[j]] == b);
}

/// Registering a port that is already in use changes nothing.
pub proof fn lemma_taken_port_refused<C, L, T>(m: ServerModel<C, L, T>, client_id: usize, port: u16)
    requires
        m.port_to_client.contains_key(port),
    ensures
        m.register(client_id, port) == m,
{
}

/// A free port registered by a known client is held by that client.
pub proof fn lemma_free_port_registered<C, L, T>(m: ServerModel<C, L, T>, client_id: usize, port: u16)
    requires
        m.wf(),
        m.clients.contains_key(client_id),
        !m.port_to_client.contains_key(port),
    ensures
        m.register(client_id, port).port_to_client[port] == client_id,
        m.register(client_id, port).clients[client_id].ports.contains(port),
{
    let ps = m.register(client_id, port).clients[client_id].ports;
    assert(ps[ps.len() - 1] == port);
}

/// Once a client has gone, each port it held is free again, and another
/// client that registers it gets it.
pub proof fn lemma_released_port_can_be_registered<C, L, T>(
    m: ServerModel<C, L, T>,
    client_id: usize,
    other: usize,
    port: u16,
)
    requires
        m.wf(),
        m.clients.contains_key(client_id),
        m.clients[client_id].ports.contains(port),
    ensures
        !m.disconnect(client_id).port_to_client.contains_key(port),
        m.disconnect(client_id).register(other, port).port_to_client[port] == other,
{
}

/// Disconnecting a client undoes its registration of a free port.
pub proof fn lemma_disconnect_undoes_register<C, L, T>(
    m: ServerModel<C, L, T>,
    client_id: usize,
    port: u16,
)
    requires
        m.wf(),
        m.clients.contains_key(client_id),
        !m.port_to_client.contains_key(port),
    ensures
        m.register(client_id, port).disconnect(client_id) == m.disconnect(client_id),
{
    let r = m.register(client_id, port);
    let ps = m.clients[client_id].ports;
    assert(r.clients[client_id].ports.to_set() =~= ps.to_set().insert(port)) by {
        let qs = r.clients[client_id].ports;
        assert(qs =~= ps.push(port));
        assert forall|k: u16| qs.contains(k) <==> (ps.contains(k) || k == port) by {
            if qs.contains(k) {
                let j = choose|j: int| 0 <= j < qs.len() && qs[j] == k;
                if j < ps.len() {
                    assert(ps[j] == k);
                }
            }
            if ps.contains(k) {
                let j = choose|j: int| 0 <= j < ps.len() && ps[j] == k;
                assert(qs[j] == k);
            }
            if k == port {
                assert(qs[ps.len() as int] == k);
            }
        }
    }
    assert(r.disconnect(client_id).clients =~= m.disconnect(client_id).clients);
    assert(r.disconnect(client_id).port_to_client =~= m.disconnect(client_id).port_to_client);
}

/// Closing a tunnel that was just opened leaves the open tunnels as they were.
pub proof fn lemma_close_undoes_open<C, L, T>(m: ServerModel<C, L, T>, sender: T)
    requires
        m.wf(),
    ensures
        m.open_tunnel(sender).close_tunnel(m.next_tunnel_id).tunnels == m.tunnels,
{
    assert(m.open_tunnel(sender).close_tunnel(m.next_tunnel_id).tunnels =~= m.tunnels);
}

/// A new client gets a fresh identifier, the given channel, no ports and no
/// listeners; every other client, every port and every tunnel stay as they
/// were.
pub proof fn lemma_connect_keeps_the_rest<C, L, T>(m: ServerModel<C, L, T>, sender: C, c2: usize)
    requires
        m.wf(),
        m.next_client_id < usize::MAX,
    ensures
        !m.clients.contains_key(m.next_client_id),
        m.connect(sender).clients.contains_key(m.next_client_id),
        m.connect(sender).clients[m.next_client_id].sender == sender,
        m.connect(sender).clients[m.next_client_id].ports.len() == 0,
        m.connect(sender).clients[m.next_client_id].listeners.len() == 0,
        m.connect(sender).next_client_id == m.next_client_id + 1,
        c2 != m.next_client_id ==> (m.connect(sender).clients.contains_key(c2)
            <==> m.clients.contains_key(c2)),
        c2 != m.next_client_id && m.clients.contains_key(c2) ==> m.connect(sender).clients[c2]
            == m.clients[c2],
        m.connect(sender).port_to_client == m.port_to_client,
        m.connect(sender).tunnels == m.tunnels,
        m.connect(sender).next_tunnel_id == m.next_tunnel_id,
{
}

/// Registering a port touches only that port and that client's port list:
/// every client keeps its channel and its listener tasks, every other client
/// keeps its ports, every other port keeps its owner, and the tunnels stay.
pub proof fn lemma_register_keeps_the_rest<C, L, T>(
    m: ServerModel<C, L, T>,
    client_id: usize,
    port: u16,
    c2: usize,
    p2: u16,
)
    ensures
        m.register(client_id, port).clients.dom() == m.clients.dom(),
        m.clients.contains_key(c2) ==> m.register(client_id, port).clients[c2].listeners
            == m.clients[c2].listeners,
        m.clients.contains_key(c2) ==> m.register(client_id, port).clients[c2].sender
            == m.clients[c2].sender,
        m.clients.contains_key(c2) && c2 != client_id ==> m.register(client_id, port).clients[c2]
            == m.clients[c2],
        p2 != port ==> (m.register(client_id, port).port_to_client.contains_key(p2)
            <==> m.port_to_client.contains_key(p2)),
        p2 != port && m.port_to_client.contains_key(p2) ==> m.register(
            client_id,
            port,
        ).port_to_client[p2] == m.port_to_client[p2],
        m.register(client_id, port).tunnels == m.tunnels,
        m.register(client_id, port).next_client_id == m.next_client_id,
        m.register(client_id, port).next_tunnel_id == m.next_tunnel_id,
{
    assert(m.register(client_id, port).clients.dom() =~= m.clients.dom());
}

/// A registration of a free port by a known client adds exactly that port at
/// the end of the client's ports; a taken port leaves the ports as they were.
pub proof fn lemma_register_adds_one_port<C, L, T>(m: ServerModel<C, L, T>, client_id: usize, port: u16)
    requires
        m.clients.contains_key(client_id),
    ensures
        !m.port_to_client.contains_key(port) ==> {
            &&& m.register(client_id, port).clients[client_id].ports.len() == m.clients[client_id].ports.len() + 1
            &&& m.register(client_id, port).clients[client_id].ports.last() == port
            &&& forall|i: int| 0 <= i < m.clients[client_id].ports.len() ==>
                m.register(client_id, port).clients[client_id].ports[i] == #[trigger] m.clients[client_id].ports[i]
            &&& m.register(client_id, port).port_to_client[port] == client_id
        },
        m.port_to_client.contains_key(port) ==> m.register(client_id, port).clients[client_id].ports
            == m.clients[client_id].ports,
{
}

/// A listener task is added at the end of its client's listeners, and nothing
/// else changes.
pub proof fn lemma_add_listener_appends<C, L, T>(m: ServerModel<C, L, T>, client_id: usize, task: L, c2: usize)
    ensures
        m.clients.contains_key(client_id) ==> m.add_listener(client_id, task).clients[client_id].listeners
            == m.clients[client_id].listeners.push(task),
        m.clients.contains_key(client_id) ==> m.add_listener(client_id, task).clients[client_id].ports
            == m.clients[client_id].ports,
        m.add_listener(client_id, task).clients.dom() == m.clients.dom(),
        m.clients.contains_key(c2) && c2 != client_id ==> m.add_listener(client_id, task).clients[c2]
            == m.clients[c2],
        m.add_listener(client_id, task).port_to_client == m.port_to_client,
        m.add_listener(client_id, task).tunnels == m.tunnels,
{
    assert(m.add_listener(client_id, task).clients.dom() =~= m.clients.dom());
}

/// Every listener task kept for a client, whatever ports it registers in
/// between, is among the tasks handed back when it disconnects.
pub proof fn lemma_listener_kept_until_disconnect<C, L, T>(
    m: ServerModel<C, L, T>,
    client_id: usize,
    task: L,
    port: u16,
)
    requires
        m.clients.contains_key(client_id),
    ensures
        m.add_listener(client_id, task).register(client_id, port).clients[client_id].listeners
            == m.clients[client_id].listeners.push(task),
        m.add_listener(client_id, task).register(client_id, port).clients[client_id].listeners.contains(task),
{
    let l = m.clients[client_id].listeners.push(task);
    assert(l[l.len() - 1] == task);
}

/// Opening a tunnel keeps its channel under the next identifier and leaves
/// every other tunnel, every client and every port as they were.
pub proof fn lemma_open_tunnel_keeps_the_rest<C, L, T>(m: ServerModel<C, L, T>, sender: T, t2: u32)
    requires
        m.wf(),
        m.next_tunnel_id < u32::MAX,
    ensures
        m.open_tunnel(sender).tunnels.contains_key(m.next_tunnel_id),
        m.open_tunnel(sender).tunnels[m.next_tunnel_id] == sender,
        m.open_tunnel(sender).next_tunnel_id == m.next_tunnel_id + 1,
        t2 != m.next_tunnel_id ==> (m.open_tunnel(sender).tunnels.contains_key(t2)
            <==> m.tunnels.contains_key(t2)),
        t2 != m.next_tunnel_id && m.tunnels.contains_key(t2) ==> m.open_tunnel(sender).tunnels[t2]
            == m.tunnels[t2],
        m.open_tunnel(sender).clients == m.clients,
        m.open_tunnel(sender).port_to_client == m.port_to_client,
{
}

/// Closing a tunnel forgets that tunnel only: every other tunnel keeps its
/// channel, and the clients and ports stay as they were.
pub proof fn lemma_close_tunnel_closes_only_it<C, L, T>(m: ServerModel<C, L, T>, tunnel_id: u32, t2: u32)
    ensures
        !m.close_tunnel(tunnel_id).tunnels.contains_key(tunnel_id),
        t2 != tunnel_id ==> (m.close_tunnel(tunnel_id).tunnels.contains_key(t2)
            <==> m.tunnels.contains_key(t2)),
        t2 != tunnel_id && m.tunnels.contains_key(t2) ==> m.close_tunnel(tunnel_id).tunnels[t2]
            == m.tunnels[t2],
        m.close_tunnel(tunnel_id).clients == m.clients,
        m.close_tunnel(tunnel_id).port_to_client == m.port_to_client,
        m.close_tunnel(tunnel_id).next_tunnel_id == m.next_tunnel_id,
        m.close_tunnel(tunnel_id).next_client_id == m.next_client_id,
{
}

/// A departing client is forgotten and the ports it held are freed; every
/// other client keeps its entry, every port held by another client keeps its
/// owner, and the tunnels stay.
pub proof fn lemma_disconnect_keeps_others<C, L, T>(
    m: ServerModel<C, L, T>,
    client_id: usize,
    c2: usize,
    p: u16,
)
    requires
        m.wf(),
    ensures
        !m.disconnect(client_id).clients.contains_key(client_id),
        c2 != client_id ==> (m.disconnect(client_id).clients.contains_key(c2)
            <==> m.clients.contains_key(c2)),
        c2 != client_id && m.clients.contains_key(c2) ==> m.disconnect(client_id).clients[c2]
            == m.clients[c2],
        c2 != client_id && m.port_to_client.contains_key(p) && m.port_to_client[p] == c2
            ==> m.disconnect(client_id).port_to_client.contains_key(p)
            && m.disconnect(client_id).port_to_client[p] == c2,
        m.clients.contains_key(client_id) && m.clients[client_id].ports.contains(p)
            ==> !m.disconnect(client_id).port_to_client.contains_key(p),
        m.clients.contains_key(client_id) && !m.clients[client_id].ports.contains(p)
            ==> (m.disconnect(client_id).port_to_client.contains_key(p)
            <==> m.port_to_client.contains_key(p)),
        m.disconnect(client_id).tunnels == m.tunnels,
        m.disconnect(client_id).next_client_id == m.next_client_id,
        m.disconnect(client_id).next_tunnel_id == m.next_tunnel_id,
{
    if c2 != client_id && m.port_to_client.contains_key(p) && m.port_to_client[p] == c2
        && m.clients.contains_key(client_id) {
        if m.clients[client_id].ports.contains(p) {
            let k = choose|k: int|
                0 <= k < m.clients[client_id].ports.len() && m.clients[client_id].ports[k] == p;
            assert(m.port_to_client[m.clients[client_id].ports[k]] == client_id);
        }
    }
}

/// Only registrations and tunnel closings change the registry: a failed
/// tunnel acknowledgement or a close forgets that one tunnel, a registration
/// registers that one port, and every other message leaves it as it was.
pub proof fn lemma_receive_changes<C, L, T>(m: ServerModel<C, L, T>, client_id: usize, msg: Message)
    ensures
        match msg {
            Message::Register { remote_port, .. } => m.receive(client_id, msg) == m.register(
                client_id,
                remote_port,
            ),
            Message::TunnelOpenAck { tunnel_id, success, .. } => if success {
                m.receive(client_id, msg) == m
            } else {
                m.receive(client_id, msg) == m.close_tunnel(tunnel_id)
            },
            Message::TunnelClose { tunnel_id } => m.receive(client_id, msg) == m.close_tunnel(
                tunnel_id,
            ),
            _ => m.receive(client_id, msg) == m,
        },
{
}

/// What the server answers: a refusal ("Port already in use") of a taken port
/// to a known client and nothing to an unknown one; a listener on a free port,
/// with a success acknowledgement for a known client; the data of an open
/// tunnel forwarded unchanged and nothing for a closed one; a pong to a known
/// client's ping; nothing for acknowledgements, closes and pongs; and a report
/// of the messages only a server sends.
pub proof fn lemma_reaction_answers<C, L, T>(
    m: ServerModel<C, L, T>,
    client_id: usize,
    msg: Message,
    r: ServerReaction,
)
    requires
        m.reaction(client_id, msg, r),
    ensures
        msg matches Message::Register { remote_port, .. } ==> (m.port_to_client.contains_key(
            remote_port,
        ) && m.clients.contains_key(client_id) ==> (r matches ServerReaction::Reply(a) && a
            matches Message::RegisterAck { remote_port: p, success, error } && p == remote_port
            && !success && error_text(error) == Some("Port already in use"@))),
        msg matches Message::Register { remote_port, .. } ==> (m.port_to_client.contains_key(
            remote_port,
        ) && !m.clients.contains_key(client_id) ==> r is Nothing),
        msg matches Message::Register { remote_port, .. } ==> (!m.port_to_client.contains_key(
            remote_port,
        ) ==> (r matches ServerReaction::Listen { port, ack } && port == remote_port && (ack is Some
            <==> m.clients.contains_key(client_id)))),
        msg matches Message::Register { remote_port, .. } ==> (r matches ServerReaction::Listen {
            ack: Some(a),
            ..
        } ==> (a matches Message::RegisterAck { remote_port: p, success, error }
            && p == remote_port && success && error is None)),
        msg matches Message::TunnelData { tunnel_id, data } ==> (m.tunnels.contains_key(tunnel_id)
            ==> (r matches ServerReaction::Forward { tunnel_id: t, data: d } && t == tunnel_id && d
            == data)),
        msg matches Message::TunnelData { tunnel_id, .. } ==> (!m.tunnels.contains_key(tunnel_id)
            ==> r is Nothing),
        msg is Ping ==> (m.clients.contains_key(client_id) ==> (r matches ServerReaction::Reply(a)
            && a is Pong)),
        msg is Ping ==> (!m.clients.contains_key(client_id) ==> r is Nothing),
        msg is Pong || msg is TunnelClose || msg is TunnelOpenAck ==> r is Nothing,
        msg is RegisterAck || msg is TunnelOpen ==> r == ServerReaction::Unexpected(msg),
{
}

} // verus!
