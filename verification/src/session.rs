use vstd::prelude::*;
use crate::protocol::Message;
use crate::rules::ForwardRule;
use crate::client::{ClientState, ClientView};

verus! {

/// A WebSocket frame as the connection loops see it.
pub enum Frame {
    /// A binary frame: an encoded protocol message.
    Binary(Vec<u8>),
    /// The peer closed the connection.
    Close,
    /// A WebSocket ping (the pong is sent by the WebSocket layer).
    Ping,
    /// Reading from the connection failed.
    Failed,
    /// Any other frame (text, pong, raw).
    Other,
}

/// What a connection loop does with a frame.
pub enum FrameStep {
    /// Decode these bytes and take in the message.
    Deliver(Vec<u8>),
    /// Go on reading.
    Ignore,
    /// Leave the loop: the connection is interrupted.
    Stop,
}

/// How a connection loop reads frames: binary frames carry messages, a close
/// or a failure ends the loop, anything else is skipped.
pub fn frame_step(frame: Frame) -> (s: FrameStep)
    ensures
        match frame {
            Frame::Binary(data) => s == FrameStep::Deliver(data),
            Frame::Close => s is Stop,
            Frame::Failed => s is Stop,
            _ => s is Ignore,
        },
{
    match frame {
        Frame::Binary(data) => FrameStep::Deliver(data),
        Frame::Close => FrameStep::Stop,
        Frame::Failed => FrameStep::Stop,
        Frame::Ping => FrameStep::Ignore,
        Frame::Other => FrameStep::Ignore,
    }
}

/// Where the client's connection loop stands.
#[derive(Debug, Clone, Copy, PartialEq, Eq, Structural)]
pub enum SessionPhase {
    /// Trying to connect to the server.
    Connecting,
    /// Connected; registering the rules, `next` being the rule to register
    /// after the one being sent.
    Registering { next: usize },
    /// Registered; serving the server's messages until the connection ends.
    Serving,
    /// Waiting for the retry interval before connecting again.
    Waiting,
    /// Shut down.
    Finished,
}

/// What happened to the last command of the connection loop.
#[derive(Debug, Clone, Copy, PartialEq, Eq, Structural)]
pub enum SessionEvent {
    /// Connecting failed.
    ConnectFailed,
    /// The connection is established.
    Connected,
    /// The message was sent.
    Sent,
    /// Sending the message failed.
    SendFailed,
    /// The server's messages have ended; `interrupted` when by a close frame
    /// or an error rather than by the end of the stream.
    Ended { interrupted: bool },
    /// The retry interval is over.
    Waited,
}

/// What the connection loop is to do next.
pub enum SessionCommand {
    /// Connect to the server.
    Connect,
    /// Send this message to the server.
    Send(Message),
    /// Start the keepalive and serve the server's messages.
    Serve,
    /// Wait for the retry interval.
    Wait,
    /// Shut down.
    Stop,
}

/// The registration of a rule.
pub open spec fn register_message(rule: ForwardRule) -> Message {
    Message::Register { local_port: rule.local_port, remote_port: rule.remote_port }
}

/// The events the loop can report in a phase.
pub open spec fn expects(phase: SessionPhase, event: SessionEvent) -> bool {
    match phase {
        SessionPhase::Connecting => event is ConnectFailed || event is Connected,
        SessionPhase::Registering { .. } => event is Sent || event is SendFailed,
        SessionPhase::Serving => event is Ended,
        SessionPhase::Waiting => event is Waited,
        SessionPhase::Finished => false,
    }
}

/// The phase's consistency with the number of rules.
pub open spec fn phase_wf(phase: SessionPhase, n_rules: nat) -> bool {
    phase matches SessionPhase::Registering { next } ==> 1 <= next <= n_rules
}

/// The next phase and command after `event` in `phase`.
pub open spec fn advance(phase: SessionPhase, event: SessionEvent, rules: Seq<ForwardRule>) -> (
    SessionPhase,
    SessionCommand,
) {
    match (phase, event) {
        (SessionPhase::Connecting, SessionEvent::Connected) => {
            if rules.len() == 0 {
                (SessionPhase::Serving, SessionCommand::Serve)
            } else {
                (
                    SessionPhase::Registering { next: 1 },
                    SessionCommand::Send(register_message(rules[0])),
                )
            }
        },
        (SessionPhase::Registering { next }, SessionEvent::Sent) => {
            if next < rules.len() {
                (
                    SessionPhase::Registering { next: (next + 1) as usize },
                    SessionCommand::Send(register_message(rules[next as int])),
                )
            } else {
                (SessionPhase::Serving, SessionCommand::Serve)
            }
        },
        (SessionPhase::Serving, SessionEvent::Ended { interrupted }) => {
            if interrupted {
                (SessionPhase::Waiting, SessionCommand::Wait)
            } else {
                (SessionPhase::Finished, SessionCommand::Stop)
            }
        },
        (SessionPhase::Waiting, SessionEvent::Waited) => (
            SessionPhase::Connecting,
            SessionCommand::Connect,
        ),
        (SessionPhase::Connecting, SessionEvent::ConnectFailed) => (
            SessionPhase::Waiting,
            SessionCommand::Wait,
        ),
        (SessionPhase::Registering { .. }, SessionEvent::SendFailed) => (
            SessionPhase::Waiting,
            SessionCommand::Wait,
        ),
        _ => (SessionPhase::Waiting, SessionCommand::Wait),
    }
}

/// The phase reached and the commands given when the loop takes in `events`
/// one after the other, starting in `phase`.
pub open spec fn run(phase: SessionPhase, events: Seq<SessionEvent>, rules: Seq<ForwardRule>) -> (
    SessionPhase,
    Seq<SessionCommand>,
)
    decreases events.len(),
{
    if events.len() == 0 {
        (phase, Seq::empty())
    } else {
        let (next, command) = advance(phase, events[0], rules);
        let (last, commands) = run(next, events.drop_first(), rules);
        (last, seq![command] + commands)
    }
}

/// `n` successful sends.
pub open spec fn all_sent(n: nat) -> Seq<SessionEvent> {
    Seq::new(n, |i: int| SessionEvent::Sent)
}

/// The registrations of `rules`, in order, as commands.
pub open spec fn register_commands(rules: Seq<ForwardRule>) -> Seq<SessionCommand> {
    rules.map_values(|r: ForwardRule| SessionCommand::Send(register_message(r)))
}

proof fn lemma_register_rest(rules: Seq<ForwardRule>, k: nat)
    requires
        1 <= k <= rules.len() <= usize::MAX,
    ensures
        run(SessionPhase::Registering { next: k as usize }, all_sent((rules.len() - k + 1) as nat), rules)
            == (SessionPhase::Serving, register_commands(rules.skip(k as int)).push(SessionCommand::Serve)),
    decreases rules.len() - k,
{
    let n = rules.len();
    let p = SessionPhase::Registering { next: k as usize };
    let evs = all_sent((n - k + 1) as nat);
    assert(evs[0] == SessionEvent::Sent);
    if k == n {
        assert(evs.drop_first() =~= Seq::<SessionEvent>::empty());
        assert(advance(p, SessionEvent::Sent, rules) == (SessionPhase::Serving, SessionCommand::Serve));
        assert(run(SessionPhase::Serving, evs.drop_first(), rules) == (SessionPhase::Serving, Seq::<SessionCommand>::empty()));
        assert(register_commands(rules.skip(k as int)) =~= Seq::<SessionCommand>::empty());
        assert(seq![SessionCommand::Serve] + Seq::<SessionCommand>::empty() =~= register_commands(rules.skip(k as int)).push(SessionCommand::Serve));
    } else {
        lemma_register_rest(rules, k + 1);
        assert(evs.drop_first() =~= all_sent((n - (k + 1) + 1) as nat));
        let c = SessionCommand::Send(register_message(rules[k as int]));
        assert(advance(p, SessionEvent::Sent, rules) == (SessionPhase::Registering { next: (k + 1) as usize }, c));
        assert(seq![c] + register_commands(rules.skip(k + 1 as int)).push(SessionCommand::Serve)
            =~= register_commands(rules.skip(k as int)).push(SessionCommand::Serve));
    }
}

/// Once connected, the loop registers every rule, in the order given, one
/// message after another, and then serves.
pub proof fn lemma_connection_registers_every_rule(rules: Seq<ForwardRule>)
    requires
        1 <= rules.len() <= usize::MAX,
    ensures
        run(SessionPhase::Connecting, seq![SessionEvent::Connected] + all_sent(rules.len()), rules)
            == (SessionPhase::Serving, register_commands(rules).push(SessionCommand::Serve)),
{
    let n = rules.len();
    let evs = seq![SessionEvent::Connected] + all_sent(n);
    assert(evs[0] == SessionEvent::Connected);
    assert(evs.drop_first() =~= all_sent((n - 1 + 1) as nat));
    lemma_register_rest(rules, 1);
    let c = SessionCommand::Send(register_message(rules[0]));
    assert(advance(SessionPhase::Connecting, SessionEvent::Connected, rules) == (SessionPhase::Registering { next: 1 }, c));
    assert(seq![c] + register_commands(rules.skip(1)).push(SessionCommand::Serve)
        =~= register_commands(rules).push(SessionCommand::Serve));
}

/// Each successful send leads to the registration of the next rule, or to
/// serving once every rule is registered; a connection with no rule to
/// register serves at once.
pub proof fn lemma_registration_steps(rules: Seq<ForwardRule>, next: usize)
    requires
        rules.len() <= usize::MAX,
    ensures
        next < rules.len() ==> advance(SessionPhase::Registering { next }, SessionEvent::Sent, rules)
            == (SessionPhase::Registering { next: (next + 1) as usize }, SessionCommand::Send(
            Message::Register {
                local_port: rules[next as int].local_port,
                remote_port: rules[next as int].remote_port,
            },
        )),
        next >= rules.len() ==> advance(SessionPhase::Registering { next }, SessionEvent::Sent, rules)
            == (SessionPhase::Serving, SessionCommand::Serve),
        rules.len() == 0 ==> advance(SessionPhase::Connecting, SessionEvent::Connected, rules) == (
            SessionPhase::Serving,
            SessionCommand::Serve,
        ),
        rules.len() > 0 ==> advance(SessionPhase::Connecting, SessionEvent::Connected, rules) == (
            SessionPhase::Registering { next: 1 },
            SessionCommand::Send(
                Message::Register {
                    local_port: rules[0].local_port,
                    remote_port: rules[0].remote_port,
                },
            ),
        ),
{
}

/// The loop shuts down only when the server's messages end without an
/// interruption; in every other case it goes on.
pub proof fn lemma_stops_only_on_clean_end(phase: SessionPhase, event: SessionEvent, rules: Seq<ForwardRule>)
    ensures
        advance(phase, event, rules).1 is Stop <==> (phase == SessionPhase::Serving && event == SessionEvent::Ended { interrupted: false }),
{
}

/// An interrupted connection is retried: the loop waits, then connects again.
pub proof fn lemma_interruption_retried(rules: Seq<ForwardRule>)
    ensures
        run(SessionPhase::Serving, seq![SessionEvent::Ended { interrupted: true }, SessionEvent::Waited], rules)
            == (SessionPhase::Connecting, seq![SessionCommand::Wait, SessionCommand::Connect]),
{
    let evs = seq![SessionEvent::Ended { interrupted: true }, SessionEvent::Waited];
    assert(evs.drop_first() =~= seq![SessionEvent::Waited]);
    assert(evs.drop_first().drop_first() =~= Seq::<SessionEvent>::empty());
    assert(run(SessionPhase::Connecting, evs.drop_first().drop_first(), rules) == (SessionPhase::Connecting, Seq::<SessionCommand>::empty()));
    assert(run(SessionPhase::Waiting, evs.drop_first(), rules) == (SessionPhase::Connecting, seq![SessionCommand::Connect] + Seq::<SessionCommand>::empty()));
    assert(seq![SessionCommand::Connect] + Seq::<SessionCommand>::empty() =~= seq![SessionCommand::Connect]);
    assert(seq![SessionCommand::Wait] + seq![SessionCommand::Connect] =~= seq![SessionCommand::Wait, SessionCommand::Connect]);
}

/// A failed connection attempt or a failed registration is retried after the
/// wait.
pub proof fn lemma_failures_retried(rules: Seq<ForwardRule>, next: usize)
    ensures
        advance(SessionPhase::Connecting, SessionEvent::ConnectFailed, rules) == (SessionPhase::Waiting, SessionCommand::Wait),
        advance(SessionPhase::Registering { next }, SessionEvent::SendFailed, rules) == (SessionPhase::Waiting, SessionCommand::Wait),
        advance(SessionPhase::Waiting, SessionEvent::Waited, rules) == (SessionPhase::Connecting, SessionCommand::Connect),
{
}

/// The client's connection loop: connect, register every rule, serve, and on
/// an interruption wait and start over.
pub struct Session {
    phase: SessionPhase,
}

impl View for Session {
    type V = SessionPhase;

    closed spec fn view(&self) -> SessionPhase {
        self.phase
    }
}

impl Session {
    /// A loop that is about to connect.
    pub fn new() -> (s: Self)
        ensures
            s@ == SessionPhase::Connecting,
    {
        Session { phase: SessionPhase::Connecting }
    }

    /// Where the loop stands.
    pub fn phase(&self) -> (p: SessionPhase)
        ensures
            p == self@,
    {
        self.phase
    }

    /// Takes in what happened to the last command and gives the next one.
    /// When the server's messages end, every tunnel is forgotten.
    pub fn step<T>(&mut self, client: &mut ClientState<T>, event: SessionEvent) -> (c:
        SessionCommand)
        requires
            expects(old(self)@, event),
            phase_wf(old(self)@, old(client)@.rules.len()),
        ensures
            (final(self)@, c) == advance(old(self)@, event, old(client)@.rules),
            phase_wf(final(self)@, old(client)@.rules.len()),
            final(client)@ == (if event is Ended {
                ClientView { rules: old(client)@.rules, tunnels: Map::<u32, T>::empty() }
            } else {
                old(client)@
            }),
    {
        let n = client.forward_rules().len();
        match (self.phase, event) {
            (SessionPhase::Connecting, SessionEvent::Connected) => {
                if n == 0 {
                    self.phase = SessionPhase::Serving;
                    SessionCommand::Serve
                } else {
                    let rule = client.forward_rules()[0];
                    self.phase = SessionPhase::Registering { next: 1 };
                    SessionCommand::Send(
                        Message::Register {
                            local_port: rule.local_port,
                            remote_port: rule.remote_port,
                        },
                    )
                }
            },
            (SessionPhase::Registering { next }, SessionEvent::Sent) => {
                if next < n {
                    let rule = client.forward_rules()[next];
                    self.phase = SessionPhase::Registering { next: next + 1 };
                    SessionCommand::Send(
                        Message::Register {
                            local_port: rule.local_port,
                            remote_port: rule.remote_port,
                        },
                    )
                } else {
                    self.phase = SessionPhase::Serving;
                    SessionCommand::Serve
                }
            },
            (SessionPhase::Serving, SessionEvent::Ended { interrupted }) => {
                client.clear_tunnels();
                if interrupted {
                    self.phase = SessionPhase::Waiting;
                    SessionCommand::Wait
                } else {
                    self.phase = SessionPhase::Finished;
                    SessionCommand::Stop
                }
            },
            (SessionPhase::Waiting, SessionEvent::Waited) => {
                self.phase = SessionPhase::Connecting;
                SessionCommand::Connect
            },
            (SessionPhase::Connecting, SessionEvent::ConnectFailed) => {
                self.phase = SessionPhase::Waiting;
                SessionCommand::Wait
            },
            (SessionPhase::Registering { .. }, SessionEvent::SendFailed) => {
                self.phase = SessionPhase::Waiting;
                SessionCommand::Wait
            },
            _ => {
                self.phase = SessionPhase::Waiting;
                SessionCommand::Wait
            },
        }
    }
}

} // verus!
