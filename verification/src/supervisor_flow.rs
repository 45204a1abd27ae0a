//! The course of a supervisor's requests: what each message, reply and failure leads to.
//!
//! Whoever holds the streams and the store feeds in what happened and carries out what is
//! asked for.
use vstd::prelude::*;
use vstd::string::*;

use crate::session_liveness::{AnnounceStep, LivenessError, LivenessHandle, PeerSessions};
use crate::status::{plain_status, Code, Status, StatusView};
use crate::supervisor_session::{
    claim_actions, claim_view, ensure_sandbox_principal_scope, in_scope, is_current,
    is_random_uuid, lists_channels, out_of_scope, refusal_view, relay_claimed,
    relay_requests, ClaimedRelay, GatewayMessage, GatewayMessageView, LiveSessionView, Principal,
    RegistryView, SessionAction, SessionActionView, SupervisorSessionRegistry,
    HEARTBEAT_INTERVAL_SECS, random_uuid,
};
use crate::values::views;

verus! {

// Messages.
/// How a supervisor introduces itself.
#[derive(Debug, PartialEq, Eq)]
pub struct SupervisorHello {
    pub sandbox_id: String,
    pub instance_id: String,
}

/// What a supervisor sends to a gateway.
#[derive(Debug, PartialEq, Eq)]
pub enum SupervisorPayload {
    Hello(SupervisorHello),
    Heartbeat,
    /// Whether a relay could be opened, and why not.
    RelayOpenResult { channel_id: String, success: bool, error: String },
    RelayClose { channel_id: String, reason: String },
}

/// A message of a supervisor; one of a kind that is not known has no payload.
#[derive(Debug, PartialEq, Eq)]
pub struct SupervisorMessage {
    pub payload: Option<SupervisorPayload>,
}

/// An argument that a request lacks.
pub open spec fn invalid(message: Seq<char>) -> StatusView {
    plain_status(Code::InvalidArgument, message)
}

/// Someone has no business with a sandbox. Without a principal, requests are not scoped.
pub open spec fn refused(principal: Option<&Principal>, sandbox_id: Seq<char>) -> bool {
    match principal {
        Some(p) => !in_scope(*p, sandbox_id),
        None => false,
    }
}

fn check_scope(principal: Option<&Principal>, sandbox_id: &str) -> (r: Result<(), Status>)
    ensures
        r is Err <==> refused(principal, sandbox_id@),
        r is Err ==> r->Err_0@ == out_of_scope(),
{
    match principal {
        Some(p) => ensure_sandbox_principal_scope(p, sandbox_id),
        None => Ok(()),
    }
}

/// What is wrong with the first message of a supervisor: it has to be an introduction that
/// names a sandbox that the sender speaks for.
pub open spec fn hello_refusal(
    first: Option<SupervisorMessage>,
    principal: Option<&Principal>,
) -> Option<StatusView> {
    match first {
        None => Some(invalid("stream closed before hello"@)),
        Some(message) => match message.payload {
            Some(SupervisorPayload::Hello(hello)) => if hello.sandbox_id@.len() == 0 {
                Some(invalid("sandbox_id is required"@))
            } else if refused(principal, hello.sandbox_id@) {
                Some(out_of_scope())
            } else {
                None
            },
            _ => Some(invalid("expected SupervisorHello"@)),
        },
    }
}

/// Takes the introduction out of the first message.
pub fn accept_hello(first: Option<SupervisorMessage>, principal: Option<&Principal>) -> (r: Result<
    SupervisorHello,
    Status,
>)
    ensures
        match hello_refusal(first, principal) {
            Some(status) => r is Err && r->Err_0@ == status,
            None => r is Ok && first == Some(
                SupervisorMessage { payload: Some(SupervisorPayload::Hello(r->Ok_0)) },
            ),
        },
{
    match first {
        None => Err(Status::of(Code::InvalidArgument, "stream closed before hello")),
        Some(message) => match message.payload {
            Some(SupervisorPayload::Hello(hello)) => {
                if hello.sandbox_id.as_str().is_empty() {
                    return Err(Status::of(Code::InvalidArgument, "sandbox_id is required"));
                }
                match check_scope(principal, &hello.sandbox_id) {
                    Err(status) => Err(status),
                    Ok(()) => Ok(hello),
                }
            },
            _ => Err(Status::of(Code::InvalidArgument, "expected SupervisorHello")),
        },
    }
}

/// What is wrong with a sandbox that was looked for: the store failed, or it is not there.
pub open spec fn sandbox_refusal(found: Result<bool, String>) -> Option<StatusView> {
    match found {
        Err(error) => Some(
            plain_status(Code::Internal, "failed to load sandbox: "@ + error@),
        ),
        Ok(false) => Some(plain_status(Code::NotFound, "sandbox not found"@)),
        Ok(true) => None,
    }
}

/// Refuses a sandbox that is not in the store.
pub fn require_persisted_sandbox(found: &Result<bool, String>) -> (r: Result<(), Status>)
    ensures
        match sandbox_refusal(*found) {
            Some(status) => r is Err && r->Err_0@ == status,
            None => r is Ok,
        },
{
    match found {
        Err(error) => {
            let mut message = String::from_str("failed to load sandbox: ");
            message.append(error);
            Err(Status::new(Code::Internal, message))
        },
        Ok(present) => if *present {
            Ok(())
        } else {
            Err(Status::of(Code::NotFound, "sandbox not found"))
        },
    }
}

// Connecting.
/// What the course of a connection waits for.
#[derive(Debug, Clone, Copy, PartialEq, Eq, Structural)]
pub enum ConnectPhase {
    /// The first message.
    Hello,
    /// Whether the sandbox is in the store.
    Sandbox,
    /// Whether the acceptance was sent.
    Accepted,
    /// Whether the sandbox was marked as connected.
    Ready,
    /// The end of the session.
    Serving,
    /// The withdrawal of the session's liveness row.
    Withdrawn,
    /// What the rows say of other replicas.
    Peers,
    /// Nothing more.
    Ended,
}

/// The course of one connection.
#[derive(Debug)]
pub struct Connection {
    pub phase: ConnectPhase,
    pub sandbox_id: String,
    pub instance_id: String,
    pub session_id: String,
    /// The outbound channel.
    pub connection: u64,
    /// It took the place of another session.
    pub superseded: bool,
    /// The terminal delivery of the session was finalized when it ended.
    pub terminal_finalized: bool,
}

/// What [`Connection`] stands for.
#[verifier::ext_equal]
pub struct ConnectionView {
    pub phase: ConnectPhase,
    pub sandbox_id: Seq<char>,
    pub instance_id: Seq<char>,
    pub session_id: Seq<char>,
    pub connection: u64,
    pub superseded: bool,
    pub terminal_finalized: bool,
}

impl View for Connection {
    type V = ConnectionView;

    open spec fn view(&self) -> ConnectionView {
        ConnectionView {
            phase: self.phase,
            sandbox_id: self.sandbox_id@,
            instance_id: self.instance_id@,
            session_id: self.session_id@,
            connection: self.connection,
            superseded: self.superseded,
            terminal_finalized: self.terminal_finalized,
        }
    }
}

/// What the course of a connection asks for.
#[derive(Debug, PartialEq)]
pub enum ConnectAction {
    /// Answer the request with a refusal.
    Refuse(Status),
    /// Look for the sandbox in the store.
    FindSandbox,
    /// Tell another session of the sandbox to end.
    Session(SessionAction),
    /// Announce the session in the liveness rows, and keep renewing.
    StartRenewal,
    /// Send this on the outbound channel.
    Send(GatewayMessage),
    /// Send these in turn, until one cannot be sent.
    Replay(Vec<GatewayMessage>),
    /// Mark the sandbox as connected.
    MarkConnected,
    /// Count the connection.
    CountConnected,
    /// Answer the request with the outbound channel, and read what comes in.
    Serve,
    /// Stop renewing.
    StopRenewal,
    /// Withdraw the liveness row of the session.
    Withdraw,
    /// Count the end of the connection.
    CountDisconnected,
    /// Look at the liveness rows of the sandbox.
    FindPeers,
    /// Mark the sandbox as disconnected.
    MarkDisconnected { terminal_finalized: bool, peers: PeerSessions },
}

/// What [`ConnectAction`] stands for.
#[verifier::ext_equal]
pub enum ConnectActionView {
    Refuse(StatusView),
    FindSandbox,
    Session(SessionActionView),
    StartRenewal,
    Send(GatewayMessageView),
    Replay(Seq<GatewayMessageView>),
    MarkConnected,
    CountConnected,
    Serve,
    StopRenewal,
    Withdraw,
    CountDisconnected,
    FindPeers,
    MarkDisconnected { terminal_finalized: bool, peers: PeerSessions },
}

impl View for ConnectAction {
    type V = ConnectActionView;

    open spec fn view(&self) -> ConnectActionView {
        match *self {
            ConnectAction::Refuse(status) => ConnectActionView::Refuse(status@),
            ConnectAction::FindSandbox => ConnectActionView::FindSandbox,
            ConnectAction::Session(action) => ConnectActionView::Session(action@),
            ConnectAction::StartRenewal => ConnectActionView::StartRenewal,
            ConnectAction::Send(message) => ConnectActionView::Send(message@),
            ConnectAction::Replay(messages) => ConnectActionView::Replay(views(messages@)),
            ConnectAction::MarkConnected => ConnectActionView::MarkConnected,
            ConnectAction::CountConnected => ConnectActionView::CountConnected,
            ConnectAction::Serve => ConnectActionView::Serve,
            ConnectAction::StopRenewal => ConnectActionView::StopRenewal,
            ConnectAction::Withdraw => ConnectActionView::Withdraw,
            ConnectAction::CountDisconnected => ConnectActionView::CountDisconnected,
            ConnectAction::FindPeers => ConnectActionView::FindPeers,
            ConnectAction::MarkDisconnected { terminal_finalized, peers } =>
                ConnectActionView::MarkDisconnected { terminal_finalized, peers },
        }
    }
}

/// The acceptance of a session.
pub open spec fn acceptance(session_id: Seq<char>) -> GatewayMessageView {
    GatewayMessageView::SessionAccepted {
        session_id,
        heartbeat_interval_secs: HEARTBEAT_INTERVAL_SECS,
    }
}

/// The connection in another phase.
pub open spec fn in_phase(c: ConnectionView, phase: ConnectPhase) -> ConnectionView {
    ConnectionView { phase, ..c }
}

/// The registry without a session, if that is the sandbox's current one.
pub open spec fn without_current(
    v: RegistryView,
    sandbox_id: Seq<char>,
    session_id: Seq<char>,
) -> RegistryView {
    if is_current(v, sandbox_id, session_id) {
        RegistryView { sessions: v.sessions.remove(sandbox_id), ..v }
    } else {
        v
    }
}

/// The registry with the session of a connection.
pub open spec fn with_session(
    v: RegistryView,
    sandbox_id: Seq<char>,
    session_id: Seq<char>,
    connection: u64,
) -> RegistryView {
    RegistryView {
        sessions: v.sessions.insert(
            sandbox_id,
            LiveSessionView { session_id, connection, terminal_delivery_finalized: false },
        ),
        ..v
    }
}

/// What registering the session of a connection asks for: the session whose place it takes
/// is told to end, and the new one is announced and accepted.
pub open spec fn registration_actions(
    v: RegistryView,
    sandbox_id: Seq<char>,
    session_id: Seq<char>,
) -> Seq<ConnectActionView> {
    (if v.sessions.contains_key(sandbox_id) {
        seq![
            ConnectActionView::Session(
                SessionActionView::Shutdown(v.sessions[sandbox_id].connection),
            ),
        ]
    } else {
        Seq::empty()
    }) + seq![ConnectActionView::StartRenewal, ConnectActionView::Send(acceptance(session_id))]
}

/// What follows the withdrawal of an ended session's row: what is left of the connection and
/// of the registry, and what is asked for.
pub open spec fn end_of_session(c: ConnectionView, v: RegistryView) -> (
    ConnectionView,
    RegistryView,
    Seq<ConnectActionView>,
) {
    if is_current(v, c.sandbox_id, c.session_id) {
        (
            ConnectionView {
                phase: ConnectPhase::Peers,
                terminal_finalized: v.sessions[c.sandbox_id].terminal_delivery_finalized,
                ..c
            },
            without_current(v, c.sandbox_id, c.session_id),
            seq![ConnectActionView::CountDisconnected, ConnectActionView::FindPeers],
        )
    } else {
        (in_phase(c, ConnectPhase::Ended), v, Seq::empty())
    }
}

/// The end of a session whose place another has taken changes nothing, and nothing is told
/// of it: the sandbox is still connected.
pub proof fn law_superseded_session_ends_in_silence(
    c: ConnectionView,
    v: RegistryView,
    session_id: Seq<char>,
    connection: u64,
)
    requires
        session_id != c.session_id,
    ensures
        ({
            let after = with_session(v, c.sandbox_id, session_id, connection);
            &&& end_of_session(c, after) == (
                in_phase(c, ConnectPhase::Ended),
                after,
                Seq::<ConnectActionView>::empty(),
            )
            &&& without_current(after, c.sandbox_id, c.session_id) == after
        }),
{
}

/// A session that nothing takes the place of ends where it began: the registry is as it was
/// before it was registered, if the sandbox had none, and the end is told.
pub proof fn law_session_leaves_no_trace(
    c: ConnectionView,
    v: RegistryView,
    connection: u64,
)
    requires
        !v.sessions.contains_key(c.sandbox_id),
    ensures
        ({
            let (after, registry, actions) = end_of_session(
                c,
                with_session(v, c.sandbox_id, c.session_id, connection),
            );
            &&& registry == v
            &&& after.phase == ConnectPhase::Peers
            &&& actions == seq![
                ConnectActionView::CountDisconnected,
                ConnectActionView::FindPeers,
            ]
        }),
{
    let inside = with_session(v, c.sandbox_id, c.session_id, connection);
    assert(inside.sessions.remove(c.sandbox_id) =~= v.sessions);
}

fn one(action: ConnectAction) -> (r: Vec<ConnectAction>)
    ensures
        views(r@) == seq![action@],
{
    let mut actions: Vec<ConnectAction> = Vec::new();
    actions.push(action);
    proof {
        assert(views(actions@) =~= seq![action@]);
    }
    actions
}

fn two(first: ConnectAction, second: ConnectAction) -> (r: Vec<ConnectAction>)
    ensures
        views(r@) == seq![first@, second@],
{
    let mut actions = one(first);
    let ghost before = views(actions@);
    actions.push(second);
    proof {
        assert(views(actions@) =~= before.push(second@));
        assert(views(actions@) =~= seq![first@, second@]);
    }
    actions
}

fn three(first: ConnectAction, second: ConnectAction, third: ConnectAction) -> (r: Vec<
    ConnectAction,
>)
    ensures
        views(r@) == seq![first@, second@, third@],
{
    let mut actions = two(first, second);
    let ghost before = views(actions@);
    actions.push(third);
    proof {
        assert(views(actions@) =~= before.push(third@));
        assert(views(actions@) =~= seq![first@, second@, third@]);
    }
    actions
}

impl Connection {
    /// A connection of which nothing is known yet.
    pub fn new() -> (r: Self)
        ensures
            r@ == (ConnectionView {
                phase: ConnectPhase::Hello,
                sandbox_id: Seq::empty(),
                instance_id: Seq::empty(),
                session_id: Seq::empty(),
                connection: 0,
                superseded: false,
                terminal_finalized: false,
            }),
    {
        Connection {
            phase: ConnectPhase::Hello,
            sandbox_id: String::new(),
            instance_id: String::new(),
            session_id: String::new(),
            connection: 0,
            superseded: false,
            terminal_finalized: false,
        }
    }

    /// The first message came in.
    pub fn hello(&mut self, first: Option<SupervisorMessage>, principal: Option<&Principal>) -> (r:
        Vec<ConnectAction>)
        requires
            old(self)@.phase == ConnectPhase::Hello,
        ensures
            match hello_refusal(first, principal) {
                Some(status) => final(self)@ == in_phase(old(self)@, ConnectPhase::Ended) && views(
                    r@,
                ) == seq![ConnectActionView::Refuse(status)],
                None => first is Some && match first->0.payload {
                    Some(SupervisorPayload::Hello(hello)) => final(self)@ == (ConnectionView {
                        phase: ConnectPhase::Sandbox,
                        sandbox_id: hello.sandbox_id@,
                        instance_id: hello.instance_id@,
                        ..old(self)@
                    }),
                    _ => false,
                } && views(r@) == seq![ConnectActionView::FindSandbox],
            },
    {
        match accept_hello(first, principal) {
            Err(status) => {
                self.phase = ConnectPhase::Ended;
                one(ConnectAction::Refuse(status))
            },
            Ok(hello) => {
                self.phase = ConnectPhase::Sandbox;
                self.sandbox_id = hello.sandbox_id;
                self.instance_id = hello.instance_id;
                one(ConnectAction::FindSandbox)
            },
        }
    }

    /// The sandbox was looked for. If it is there, the session is registered under the given
    /// identifier and outbound channel, and accepted.
    pub fn sandbox_found_as(
        &mut self,
        registry: &mut SupervisorSessionRegistry,
        found: &Result<bool, String>,
        session_id: String,
        connection: u64,
    ) -> (r: Vec<ConnectAction>)
        requires
            old(self)@.phase == ConnectPhase::Sandbox,
        ensures
            match sandbox_refusal(*found) {
                Some(status) => {
                    &&& final(self)@ == in_phase(old(self)@, ConnectPhase::Ended)
                    &&& final(registry)@ == old(registry)@
                    &&& views(r@) == seq![ConnectActionView::Refuse(status)]
                },
                None => {
                    let sandbox_id = old(self)@.sandbox_id;
                    &&& final(self)@ == (ConnectionView {
                        phase: ConnectPhase::Accepted,
                        session_id: session_id@,
                        connection,
                        superseded: old(registry)@.sessions.contains_key(sandbox_id),
                        ..old(self)@
                    })
                    &&& final(registry)@ == with_session(
                        old(registry)@,
                        sandbox_id,
                        session_id@,
                        connection,
                    )
                    &&& views(r@) == registration_actions(
                        old(registry)@,
                        sandbox_id,
                        session_id@,
                    )
                },
            },
    {
        match require_persisted_sandbox(found) {
            Err(status) => {
                self.phase = ConnectPhase::Ended;
                return one(ConnectAction::Refuse(status));
            },
            Ok(()) => {},
        }
        let mut told: Vec<SessionAction> = Vec::new();
        let ghost nothing = views(told@);
        let superseded = registry.register(
            self.sandbox_id.clone(),
            session_id.clone(),
            connection,
            &mut told,
        );
        let accepted = GatewayMessage::SessionAccepted {
            session_id: session_id.clone(),
            heartbeat_interval_secs: HEARTBEAT_INTERVAL_SECS,
        };
        self.phase = ConnectPhase::Accepted;
        self.session_id = session_id;
        self.connection = connection;
        self.superseded = superseded;
        proof {
            assert(nothing =~= Seq::empty());
            assert(Seq::<SessionActionView>::empty().len() == 0);
        }
        if superseded {
            proof {
                assert(views(told@).len() == 1);
                assert(views(told@)[0] == told@[0]@);
            }
            let action = told.swap_remove(0);
            let actions = three(
                ConnectAction::Session(action),
                ConnectAction::StartRenewal,
                ConnectAction::Send(accepted),
            );
            proof {
                assert(views(actions@) =~= seq![
                    ConnectActionView::Session(
                        SessionActionView::Shutdown(
                            old(registry)@.sessions[old(self)@.sandbox_id].connection,
                        ),
                    ),
                ] + seq![
                    ConnectActionView::StartRenewal,
                    ConnectActionView::Send(acceptance(session_id@)),
                ]);
            }
            actions
        } else {
            let actions = two(ConnectAction::StartRenewal, ConnectAction::Send(accepted));
            proof {
                assert(views(actions@) =~= Seq::<ConnectActionView>::empty() + seq![
                    ConnectActionView::StartRenewal,
                    ConnectActionView::Send(acceptance(session_id@)),
                ]);
            }
            actions
        }
    }

    /// The sandbox was looked for. If it is there, the session is registered under a new
    /// identifier and the given outbound channel, and accepted.
    pub fn sandbox_found(
        &mut self,
        registry: &mut SupervisorSessionRegistry,
        found: &Result<bool, String>,
        connection: u64,
    ) -> (r: Vec<ConnectAction>)
        requires
            old(self)@.phase == ConnectPhase::Sandbox,
        ensures
            match sandbox_refusal(*found) {
                Some(status) => {
                    &&& final(self)@ == in_phase(old(self)@, ConnectPhase::Ended)
                    &&& final(registry)@ == old(registry)@
                    &&& views(r@) == seq![ConnectActionView::Refuse(status)]
                },
                None => {
                    let sandbox_id = old(self)@.sandbox_id;
                    let session_id = final(self)@.session_id;
                    &&& is_random_uuid(session_id)
                    &&& final(self)@ == (ConnectionView {
                        phase: ConnectPhase::Accepted,
                        session_id,
                        connection,
                        superseded: old(registry)@.sessions.contains_key(sandbox_id),
                        ..old(self)@
                    })
                    &&& final(registry)@ == with_session(
                        old(registry)@,
                        sandbox_id,
                        session_id,
                        connection,
                    )
                    &&& views(r@) == registration_actions(old(registry)@, sandbox_id, session_id)
                },
            },
    {
        self.sandbox_found_as(registry, found, random_uuid(), connection)
    }

    /// The acceptance was sent, or could not be. In the latter case only this session is
    /// taken out: a faster reconnect may have its place already.
    pub fn accepted_sent(&mut self, registry: &mut SupervisorSessionRegistry, sent: bool) -> (r: Vec<
        ConnectAction,
    >)
        requires
            old(self)@.phase == ConnectPhase::Accepted,
        ensures
            !sent ==> {
                &&& final(self)@ == in_phase(old(self)@, ConnectPhase::Ended)
                &&& final(registry)@ == without_current(
                    old(registry)@,
                    old(self)@.sandbox_id,
                    old(self)@.session_id,
                )
                &&& views(r@) == seq![
                    ConnectActionView::StopRenewal,
                    ConnectActionView::Withdraw,
                    ConnectActionView::Refuse(
                        plain_status(Code::Internal, "failed to send session accepted"@),
                    ),
                ]
            },
            sent ==> {
                &&& final(self)@ == in_phase(old(self)@, ConnectPhase::Ready)
                &&& final(registry)@ == old(registry)@
                &&& old(self)@.superseded ==> exists|channels: Seq<Seq<char>>| #[trigger]
                    lists_channels(channels, old(registry)@.pending, old(self)@.sandbox_id)
                        && views(r@) == seq![
                        ConnectActionView::Replay(
                            relay_requests(channels, old(registry)@.pending),
                        ),
                        ConnectActionView::MarkConnected,
                    ]
                &&& !old(self)@.superseded ==> views(r@) == seq![ConnectActionView::MarkConnected]
            },
    {
        if !sent {
            registry.remove_if_current(&self.sandbox_id, &self.session_id);
            self.phase = ConnectPhase::Ended;
            return three(
                ConnectAction::StopRenewal,
                ConnectAction::Withdraw,
                ConnectAction::Refuse(
                    Status::of(Code::Internal, "failed to send session accepted"),
                ),
            );
        }
        self.phase = ConnectPhase::Ready;
        if self.superseded {
            two(
                ConnectAction::Replay(registry.replay_pending_relays(&self.sandbox_id)),
                ConnectAction::MarkConnected,
            )
        } else {
            one(ConnectAction::MarkConnected)
        }
    }

    /// The sandbox was marked as connected, or could not be. The session serves either way.
    pub fn marked_connected(&mut self, marked: bool) -> (r: Vec<ConnectAction>)
        requires
            old(self)@.phase == ConnectPhase::Ready,
        ensures
            final(self)@ == in_phase(old(self)@, ConnectPhase::Serving),
            views(r@) == (if marked {
                seq![ConnectActionView::CountConnected, ConnectActionView::Serve]
            } else {
                seq![ConnectActionView::Serve]
            }),
    {
        self.phase = ConnectPhase::Serving;
        if marked {
            two(ConnectAction::CountConnected, ConnectAction::Serve)
        } else {
            one(ConnectAction::Serve)
        }
    }

    /// The session ended. Renewing stops before the row is withdrawn, so that no renewal
    /// brings it back.
    pub fn session_ended(&mut self) -> (r: Vec<ConnectAction>)
        requires
            old(self)@.phase == ConnectPhase::Serving,
        ensures
            final(self)@ == in_phase(old(self)@, ConnectPhase::Withdrawn),
            views(r@) == seq![ConnectActionView::StopRenewal, ConnectActionView::Withdraw],
    {
        self.phase = ConnectPhase::Withdrawn;
        two(ConnectAction::StopRenewal, ConnectAction::Withdraw)
    }

    /// The row was withdrawn. A session whose place was taken has nothing more to say;
    /// otherwise the rows tell, now without its own, whether someone still serves.
    pub fn row_withdrawn(&mut self, registry: &mut SupervisorSessionRegistry) -> (r: Vec<
        ConnectAction,
    >)
        requires
            old(self)@.phase == ConnectPhase::Withdrawn,
        ensures
            (final(self)@, final(registry)@, views(r@)) == end_of_session(
                old(self)@,
                old(registry)@,
            ),
    {
        match registry.remove_if_current(&self.sandbox_id, &self.session_id) {
            Some(terminal_finalized) => {
                self.phase = ConnectPhase::Peers;
                self.terminal_finalized = terminal_finalized;
                two(ConnectAction::CountDisconnected, ConnectAction::FindPeers)
            },
            None => {
                self.phase = ConnectPhase::Ended;
                let actions: Vec<ConnectAction> = Vec::new();
                proof {
                    assert(views(actions@) =~= Seq::empty());
                }
                actions
            },
        }
    }

    /// The rows were looked at.
    pub fn peers_found(&mut self, peers: PeerSessions) -> (r: Vec<ConnectAction>)
        requires
            old(self)@.phase == ConnectPhase::Peers,
        ensures
            final(self)@ == in_phase(old(self)@, ConnectPhase::Ended),
            views(r@) == seq![
                ConnectActionView::MarkDisconnected {
                    terminal_finalized: old(self)@.terminal_finalized,
                    peers,
                },
            ],
    {
        self.phase = ConnectPhase::Ended;
        one(
            ConnectAction::MarkDisconnected { terminal_finalized: self.terminal_finalized, peers },
        )
    }
}

/// What happens to a connection.
#[derive(Debug)]
pub enum ConnectEvent<'a> {
    /// The first message came in, from a principal if one is known.
    Hello { first: Option<SupervisorMessage>, principal: Option<&'a Principal> },
    /// The sandbox was looked for; the session would use this outbound channel.
    SandboxFound { found: Result<bool, String>, connection: u64 },
    /// The acceptance was sent, or could not be.
    AcceptedSent(bool),
    /// The sandbox was marked as connected, or could not be.
    MarkedConnected(bool),
    /// The session ended.
    SessionEnded,
    /// The liveness row of the session was withdrawn.
    RowWithdrawn,
    /// The liveness rows of the sandbox were looked at.
    PeersFound(PeerSessions),
}

/// What an event may make of a connection and of the registry, and what it may ask for. An
/// event that the connection does not wait for makes nothing of them.
pub open spec fn connect_step(
    c: ConnectionView,
    v: RegistryView,
    event: ConnectEvent,
    after: ConnectionView,
    registry: RegistryView,
    actions: Seq<ConnectActionView>,
) -> bool {
    match (c.phase, event) {
        (ConnectPhase::Hello, ConnectEvent::Hello { first, principal }) => {
            &&& registry == v
            &&& match hello_refusal(first, principal) {
                Some(status) => after == in_phase(c, ConnectPhase::Ended) && actions == seq![
                    ConnectActionView::Refuse(status),
                ],
                None => first is Some && match first->0.payload {
                    Some(SupervisorPayload::Hello(hello)) => after == (ConnectionView {
                        phase: ConnectPhase::Sandbox,
                        sandbox_id: hello.sandbox_id@,
                        instance_id: hello.instance_id@,
                        ..c
                    }),
                    _ => false,
                } && actions == seq![ConnectActionView::FindSandbox],
            }
        },
        (ConnectPhase::Sandbox, ConnectEvent::SandboxFound { found, connection }) => {
            match sandbox_refusal(found) {
                Some(status) => after == in_phase(c, ConnectPhase::Ended) && registry == v
                    && actions == seq![ConnectActionView::Refuse(status)],
                None => {
                    &&& is_random_uuid(after.session_id)
                    &&& after == (ConnectionView {
                        phase: ConnectPhase::Accepted,
                        session_id: after.session_id,
                        connection,
                        superseded: v.sessions.contains_key(c.sandbox_id),
                        ..c
                    })
                    &&& registry == with_session(v, c.sandbox_id, after.session_id, connection)
                    &&& actions == registration_actions(v, c.sandbox_id, after.session_id)
                },
            }
        },
        (ConnectPhase::Accepted, ConnectEvent::AcceptedSent(sent)) => if sent {
            &&& after == in_phase(c, ConnectPhase::Ready)
            &&& registry == v
            &&& c.superseded ==> exists|channels: Seq<Seq<char>>| #[trigger]
                lists_channels(channels, v.pending, c.sandbox_id) && actions == seq![
                    ConnectActionView::Replay(relay_requests(channels, v.pending)),
                    ConnectActionView::MarkConnected,
                ]
            &&& !c.superseded ==> actions == seq![ConnectActionView::MarkConnected]
        } else {
            &&& after == in_phase(c, ConnectPhase::Ended)
            &&& registry == without_current(v, c.sandbox_id, c.session_id)
            &&& actions == seq![
                ConnectActionView::StopRenewal,
                ConnectActionView::Withdraw,
                ConnectActionView::Refuse(
                    plain_status(Code::Internal, "failed to send session accepted"@),
                ),
            ]
        },
        (ConnectPhase::Ready, ConnectEvent::MarkedConnected(marked)) => {
            &&& after == in_phase(c, ConnectPhase::Serving)
            &&& registry == v
            &&& actions == (if marked {
                seq![ConnectActionView::CountConnected, ConnectActionView::Serve]
            } else {
                seq![ConnectActionView::Serve]
            })
        },
        (ConnectPhase::Serving, ConnectEvent::SessionEnded) => {
            &&& after == in_phase(c, ConnectPhase::Withdrawn)
            &&& registry == v
            &&& actions == seq![ConnectActionView::StopRenewal, ConnectActionView::Withdraw]
        },
        (ConnectPhase::Withdrawn, ConnectEvent::RowWithdrawn) => (after, registry, actions)
            == end_of_session(c, v),
        (ConnectPhase::Peers, ConnectEvent::PeersFound(peers)) => {
            &&& after == in_phase(c, ConnectPhase::Ended)
            &&& registry == v
            &&& actions == seq![
                ConnectActionView::MarkDisconnected {
                    terminal_finalized: c.terminal_finalized,
                    peers,
                },
            ]
        },
        _ => after == c && registry == v && actions == Seq::<ConnectActionView>::empty(),
    }
}

/// Takes in what happened to the connection of a supervisor, and says what to do about it.
pub fn handle_connect_supervisor(
    connection: &mut Connection,
    registry: &mut SupervisorSessionRegistry,
    event: ConnectEvent,
) -> (r: Vec<ConnectAction>)
    ensures
        connect_step(
            old(connection)@,
            old(registry)@,
            event,
            final(connection)@,
            final(registry)@,
            views(r@),
        ),
{
    match (connection.phase, event) {
        (ConnectPhase::Hello, ConnectEvent::Hello { first, principal }) => connection.hello(
            first,
            principal,
        ),
        (ConnectPhase::Sandbox, ConnectEvent::SandboxFound { found, connection: number }) =>
            connection.sandbox_found(registry, &found, number),
        (ConnectPhase::Accepted, ConnectEvent::AcceptedSent(sent)) => connection.accepted_sent(
            registry,
            sent,
        ),
        (ConnectPhase::Ready, ConnectEvent::MarkedConnected(marked)) =>
            connection.marked_connected(marked),
        (ConnectPhase::Serving, ConnectEvent::SessionEnded) => connection.session_ended(),
        (ConnectPhase::Withdrawn, ConnectEvent::RowWithdrawn) => connection.row_withdrawn(registry),
        (ConnectPhase::Peers, ConnectEvent::PeersFound(peers)) => connection.peers_found(peers),
        _ => {
            let actions: Vec<ConnectAction> = Vec::new();
            proof {
                assert(views(actions@) =~= Seq::empty());
            }
            actions
        },
    }
}

/// A connection touches no sandbox but its own, and no relay.
pub proof fn law_connection_keeps_to_its_sandbox(
    c: ConnectionView,
    v: RegistryView,
    event: ConnectEvent,
    after: ConnectionView,
    registry: RegistryView,
    actions: Seq<ConnectActionView>,
    other: Seq<char>,
)
    requires
        connect_step(c, v, event, after, registry, actions),
        other != c.sandbox_id,
    ensures
        registry.pending == v.pending,
        registry.liveness == v.liveness,
        registry.sessions.contains_key(other) <==> v.sessions.contains_key(other),
        v.sessions.contains_key(other) ==> registry.sessions[other] == v.sessions[other],
        c.phase != ConnectPhase::Hello ==> after.sandbox_id == c.sandbox_id,
{
}

/// The other replicas are asked about only after the session's own row is withdrawn, and
/// the sandbox is marked as disconnected only after they were.
pub proof fn law_disconnection_comes_last(
    c: ConnectionView,
    v: RegistryView,
    event: ConnectEvent,
    after: ConnectionView,
    registry: RegistryView,
    actions: Seq<ConnectActionView>,
)
    requires
        connect_step(c, v, event, after, registry, actions),
    ensures
        actions.contains(ConnectActionView::FindPeers) ==> c.phase == ConnectPhase::Withdrawn,
        after.phase == ConnectPhase::Withdrawn && c.phase != ConnectPhase::Withdrawn
            ==> actions.contains(ConnectActionView::Withdraw),
        forall|i: int|
            0 <= i < actions.len() && (#[trigger] actions[i]) is MarkDisconnected ==> c.phase
                == ConnectPhase::Peers,
{
    if after.phase == ConnectPhase::Withdrawn && c.phase != ConnectPhase::Withdrawn {
        assert(actions[1] == ConnectActionView::Withdraw);
    }
    if actions.contains(ConnectActionView::FindPeers) {
        let i = choose|i: int| 0 <= i < actions.len() && actions[i] == ConnectActionView::FindPeers;
        assert(actions[i] is FindPeers);
    }
}

/// Once the acceptance was sent, nothing is refused any more: neither a sandbox that cannot
/// be marked nor anything about liveness rows ends a session that works.
pub proof fn law_accepted_sessions_are_not_refused(
    c: ConnectionView,
    v: RegistryView,
    event: ConnectEvent,
    after: ConnectionView,
    registry: RegistryView,
    actions: Seq<ConnectActionView>,
    i: int,
)
    requires
        connect_step(c, v, event, after, registry, actions),
        0 <= i < actions.len(),
        actions[i] is Refuse,
    ensures
        c.phase == ConnectPhase::Hello || c.phase == ConnectPhase::Sandbox || (c.phase
            == ConnectPhase::Accepted && event == ConnectEvent::AcceptedSent(false)),
{
}

// Serving.
/// The end of a stream is expected: its status looks like a closed transport, and something
/// is being torn down.
pub fn expected_transport_close_during_shutdown(closed_transport: bool, terminating: bool) -> (r:
    bool)
    ensures
        r == (closed_transport && terminating),
{
    terminating && closed_transport
}

/// The end of a session's stream is expected.
pub fn expected_transport_close_during_session_state(
    closed_transport: bool,
    gateway_shutting_down: bool,
    session_no_longer_current: bool,
    sandbox_terminating_or_gone: bool,
) -> (r: bool)
    ensures
        r == (closed_transport && (gateway_shutting_down || session_no_longer_current
            || sandbox_terminating_or_gone)),
{
    expected_transport_close_during_shutdown(
        closed_transport,
        gateway_shutting_down || session_no_longer_current || sandbox_terminating_or_gone,
    )
}

/// In which phase of its life a sandbox is.
#[derive(Debug, Clone, Copy, PartialEq, Eq, Structural)]
pub enum SandboxPhase {
    Provisioning,
    Ready,
    Deleting,
    /// Any other phase.
    Other,
}

/// What is read of a sandbox in the store.
#[derive(Debug, Clone, Copy, PartialEq, Eq, Structural)]
pub struct Sandbox {
    /// Nothing where the phase is not known.
    pub phase: Option<SandboxPhase>,
    /// When its deletion was asked for, zero for never. Nothing without metadata.
    pub deletion_timestamp_ms: Option<i64>,
}

/// The sandbox is being deleted.
pub open spec fn is_terminating(sandbox: Sandbox) -> bool {
    sandbox.phase == Some(SandboxPhase::Deleting) || (sandbox.deletion_timestamp_ms is Some
        && sandbox.deletion_timestamp_ms->0 != 0)
}

/// Whether the sandbox is being deleted.
pub fn sandbox_proto_is_terminating(sandbox: &Sandbox) -> (r: bool)
    ensures
        r == is_terminating(*sandbox),
{
    let deleting = match sandbox.phase {
        Some(SandboxPhase::Deleting) => true,
        _ => false,
    };
    deleting || match sandbox.deletion_timestamp_ms {
        Some(at) => at != 0,
        None => false,
    }
}

/// Whether a sandbox that was looked for is being deleted or gone. A store that failed
/// says neither.
pub fn sandbox_is_terminating_or_gone(loaded: &Result<Option<Sandbox>, String>) -> (r: bool)
    ensures
        r == (match *loaded {
            Ok(Some(sandbox)) => is_terminating(sandbox),
            Ok(None) => true,
            Err(e) => false,
        }),
{
    match loaded {
        Ok(Some(sandbox)) => sandbox_proto_is_terminating(sandbox),
        Ok(None) => true,
        Err(e) => false,
    }
}

/// What a message of a supervisor changes: a relay that could not be opened no longer
/// waits. Everything else is only noted.
pub open spec fn message_effect(v: RegistryView, message: SupervisorMessage) -> (
    RegistryView,
    Seq<SessionActionView>,
) {
    match message.payload {
        Some(SupervisorPayload::RelayOpenResult { channel_id, success, error }) => if success
            || !v.pending.contains_key(channel_id@) {
            (v, Seq::empty())
        } else {
            (
                RegistryView { pending: v.pending.remove(channel_id@), ..v },
                seq![
                    SessionActionView::FailRelay {
                        waiter: v.pending[channel_id@].waiter,
                        status: plain_status(Code::Unavailable, error@),
                    },
                ],
            )
        },
        _ => (v, Seq::empty()),
    }
}

/// Takes in a message of a supervisor.
pub fn handle_supervisor_message(
    registry: &mut SupervisorSessionRegistry,
    message: SupervisorMessage,
    actions: &mut Vec<SessionAction>,
)
    ensures
        (final(registry)@, views(final(actions)@)) == ({
            let (after, more) = message_effect(old(registry)@, message);
            (after, views(old(actions)@) + more)
        }),
{
    let ghost before = registry@;
    let ghost told = views(actions@);
    proof {
        assert(told + Seq::<SessionActionView>::empty() =~= told);
    }
    match message.payload {
        Some(SupervisorPayload::RelayOpenResult { channel_id, success, error }) => {
            if !success {
                registry.fail_pending_relay(&channel_id, error, actions);
                proof {
                    if before.pending.contains_key(channel_id@) {
                        assert(views(actions@) =~= told + seq![
                            SessionActionView::FailRelay {
                                waiter: before.pending[channel_id@].waiter,
                                status: plain_status(Code::Unavailable, error@),
                            },
                        ]);
                    } else {
                        assert(before.pending.remove(channel_id@) =~= before.pending);
                    }
                }
            }
        },
        _ => {},
    }
}

/// What happens to a session while it serves.
#[derive(Debug, PartialEq, Eq)]
pub enum SessionEvent {
    /// Another session took its place.
    Superseded,
    /// A message came in.
    Message(SupervisorMessage),
    /// The supervisor closed the stream.
    Closed,
    /// The stream failed, with a status that looks like a closed transport or not, while
    /// the gateway or the sandbox is going away or not.
    Failed { closed_transport: bool, gateway_shutting_down: bool, sandbox_terminating_or_gone: bool },
    /// It is time for a heartbeat.
    HeartbeatDue,
    /// A heartbeat was sent, or could not be.
    HeartbeatSent(bool),
}

/// Why a session stops.
#[derive(Debug, Clone, Copy, PartialEq, Eq, Structural)]
pub enum StopReason {
    Superseded,
    ClosedBySupervisor,
    ExpectedClose,
    StreamError,
    OutboundClosed,
}

/// What a session does next.
#[derive(Debug, Clone, Copy, PartialEq, Eq, Structural)]
pub enum SessionStep {
    /// Wait for what happens next.
    Continue,
    /// Send a heartbeat.
    SendHeartbeat,
    /// End.
    Stop(StopReason),
}

/// What a session does about what happened.
pub open spec fn session_step(
    v: RegistryView,
    sandbox_id: Seq<char>,
    session_id: Seq<char>,
    event: SessionEvent,
) -> SessionStep {
    match event {
        SessionEvent::Superseded => SessionStep::Stop(StopReason::Superseded),
        SessionEvent::Message(message) => SessionStep::Continue,
        SessionEvent::Closed => SessionStep::Stop(StopReason::ClosedBySupervisor),
        SessionEvent::Failed {
            closed_transport,
            gateway_shutting_down,
            sandbox_terminating_or_gone,
        } => if closed_transport && (gateway_shutting_down || !is_current(v, sandbox_id, session_id)
            || sandbox_terminating_or_gone) {
            SessionStep::Stop(StopReason::ExpectedClose)
        } else {
            SessionStep::Stop(StopReason::StreamError)
        },
        SessionEvent::HeartbeatDue => SessionStep::SendHeartbeat,
        SessionEvent::HeartbeatSent(sent) => if sent {
            SessionStep::Continue
        } else {
            SessionStep::Stop(StopReason::OutboundClosed)
        },
    }
}

/// Takes in what happened to a session.
pub fn run_session_step(
    registry: &mut SupervisorSessionRegistry,
    sandbox_id: &str,
    session_id: &str,
    event: SessionEvent,
    actions: &mut Vec<SessionAction>,
) -> (r: SessionStep)
    ensures
        r == session_step(old(registry)@, sandbox_id@, session_id@, event),
        match event {
            SessionEvent::Message(message) => {
                let (after, more) = message_effect(old(registry)@, message);
                final(registry)@ == after && views(final(actions)@) == views(old(actions)@) + more
            },
            _ => final(registry)@ == old(registry)@ && views(final(actions)@) == views(
                old(actions)@,
            ),
        },
{
    match event {
        SessionEvent::Superseded => SessionStep::Stop(StopReason::Superseded),
        SessionEvent::Message(message) => {
            handle_supervisor_message(registry, message, actions);
            SessionStep::Continue
        },
        SessionEvent::Closed => SessionStep::Stop(StopReason::ClosedBySupervisor),
        SessionEvent::Failed {
            closed_transport,
            gateway_shutting_down,
            sandbox_terminating_or_gone,
        } => {
            let no_longer_current = !registry.is_current_session(sandbox_id, session_id);
            if expected_transport_close_during_session_state(
                closed_transport,
                gateway_shutting_down,
                no_longer_current,
                sandbox_terminating_or_gone,
            ) {
                SessionStep::Stop(StopReason::ExpectedClose)
            } else {
                SessionStep::Stop(StopReason::StreamError)
            }
        },
        SessionEvent::HeartbeatDue => SessionStep::SendHeartbeat,
        SessionEvent::HeartbeatSent(sent) => if sent {
            SessionStep::Continue
        } else {
            SessionStep::Stop(StopReason::OutboundClosed)
        },
    }
}

// Renewing.
/// What the task that keeps a liveness row does next.
#[derive(Debug, Clone, Copy, PartialEq, Eq, Structural)]
pub enum RenewalStep {
    /// Read the row and write it again.
    AnnounceAgain,
    /// Wait for the interval, then renew.
    WaitAndRenew,
    /// Assert that the sandbox is ready, wait for the interval, then renew.
    KeepReadyWaitAndRenew,
    /// Stop. The session serves on: the rows are only advice.
    Stop,
}

/// The task that keeps the liveness row of a session.
#[derive(Debug)]
pub struct LivenessRenewal {
    /// How many writes of the announcement failed.
    pub failed_attempts: usize,
    /// The row, once it is announced.
    pub handle: Option<LivenessHandle>,
}

impl LivenessRenewal {
    /// Nothing is announced yet.
    pub fn new() -> (r: Self)
        ensures
            r.failed_attempts == 0,
            r.handle is None,
    {
        LivenessRenewal { failed_attempts: 0, handle: None }
    }

    /// Takes in what the write of the announcement led to.
    pub fn announced(&mut self, step: AnnounceStep) -> (r: RenewalStep)
        ensures
            match step {
                AnnounceStep::ReadAgain => r == RenewalStep::AnnounceAgain
                    && final(self).failed_attempts == (if old(self).failed_attempts < usize::MAX {
                    old(self).failed_attempts + 1
                } else {
                    usize::MAX as int
                }) && final(self).handle == old(self).handle,
                AnnounceStep::Announced(handle) => r == RenewalStep::WaitAndRenew
                    && final(self).handle == Some(handle) && final(self).failed_attempts == old(
                    self,
                ).failed_attempts,
                AnnounceStep::Failed(error) => r == RenewalStep::Stop && *final(self) == *old(self),
            },
    {
        match step {
            AnnounceStep::ReadAgain => {
                if self.failed_attempts < usize::MAX {
                    self.failed_attempts = self.failed_attempts + 1;
                }
                RenewalStep::AnnounceAgain
            },
            AnnounceStep::Announced(handle) => {
                self.handle = Some(handle);
                RenewalStep::WaitAndRenew
            },
            AnnounceStep::Failed(error) => RenewalStep::Stop,
        }
    }

    /// Takes in what a renewal came to. A replica that holds a live session knows that it
    /// does, and says so each time it renews.
    pub fn renewed(outcome: &Result<(), LivenessError>) -> (r: RenewalStep)
        ensures
            r == (if *outcome is Ok {
                RenewalStep::KeepReadyWaitAndRenew
            } else {
                RenewalStep::Stop
            }),
    {
        match outcome {
            Ok(()) => RenewalStep::KeepReadyWaitAndRenew,
            Err(e) => RenewalStep::Stop,
        }
    }
}

// Relayed streams.
/// What one frame of a relayed stream carries.
#[derive(Debug, PartialEq, Eq)]
pub enum RelayPayload {
    /// The channel that the stream is for.
    Init { channel_id: String },
    Data(Vec<u8>),
}

/// One frame of a relayed stream.
#[derive(Debug, PartialEq, Eq)]
pub struct RelayFrame {
    pub payload: Option<RelayPayload>,
}

/// The channel that the first frame of a stream names, or what is wrong with it.
pub open spec fn named_channel(first: Option<RelayFrame>) -> Result<Seq<char>, StatusView> {
    match first {
        None => Err(invalid("empty RelayStream"@)),
        Some(frame) => match frame.payload {
            Some(RelayPayload::Init { channel_id }) => if channel_id@.len() > 0 {
                Ok(channel_id@)
            } else {
                Err(invalid("first RelayFrame must be init with non-empty channel_id"@))
            },
            _ => Err(invalid("first RelayFrame must be init with non-empty channel_id"@)),
        },
    }
}

/// The channel that the first frame of a stream names.
pub fn relay_channel(first: Option<RelayFrame>) -> (r: Result<String, Status>)
    ensures
        match named_channel(first) {
            Ok(channel_id) => r is Ok && r->Ok_0@ == channel_id,
            Err(status) => r is Err && r->Err_0@ == status,
        },
{
    match first {
        None => Err(Status::of(Code::InvalidArgument, "empty RelayStream")),
        Some(frame) => match frame.payload {
            Some(RelayPayload::Init { channel_id }) => if !channel_id.as_str().is_empty() {
                Ok(channel_id)
            } else {
                Err(
                    Status::of(
                        Code::InvalidArgument,
                        "first RelayFrame must be init with non-empty channel_id",
                    ),
                )
            },
            _ => Err(
                Status::of(
                    Code::InvalidArgument,
                    "first RelayFrame must be init with non-empty channel_id",
                ),
            ),
        },
    }
}

/// Opens a relayed stream: its first frame names the channel of a waiting relay, which is
/// claimed.
pub fn handle_relay_stream(
    registry: &mut SupervisorSessionRegistry,
    first: Option<RelayFrame>,
    principal: Option<&Principal>,
    now: u128,
    actions: &mut Vec<SessionAction>,
) -> (r: Result<ClaimedRelay, Status>)
    ensures
        match named_channel(first) {
            Err(status) => r is Err && r->Err_0@ == status && final(registry)@ == old(registry)@
                && final(actions)@ == old(actions)@,
            Ok(channel_id) => {
                let who = match principal {
                    Some(p) => Some(*p),
                    None => None,
                };
                let (outcome, left) = relay_claimed(
                    old(registry)@.pending,
                    channel_id,
                    who,
                    now,
                );
                &&& claim_view(r) == outcome
                &&& final(registry)@ == (RegistryView { pending: left, ..old(registry)@ })
                &&& views(final(actions)@) == views(old(actions)@) + claim_actions(
                    old(registry)@.pending,
                    channel_id,
                    who,
                    now,
                )
            },
        },
{
    match relay_channel(first) {
        Err(status) => Err(status),
        Ok(channel_id) => registry.claim_relay(&channel_id, principal, now, actions),
    }
}

/// What is done with what comes in on a relayed stream.
#[derive(Debug, PartialEq, Eq)]
pub enum InboundStep {
    /// Hand the bytes on.
    Write(Vec<u8>),
    /// Wait for more.
    Skip,
    /// Close the other side: the stream ended, or something other than data came.
    Stop,
}

/// What is done with a frame, or with the end of the stream. Bytes are handed on as they
/// are, and nothing but data is.
pub fn relay_inbound(frame: Option<RelayFrame>) -> (r: InboundStep)
    ensures
        match frame {
            Some(RelayFrame { payload: Some(RelayPayload::Data(data)) }) => if data@.len() == 0 {
                r is Skip
            } else {
                r is Write && r->Write_0@ == data@
            },
            _ => r is Stop,
        },
{
    match frame {
        Some(frame) => match frame.payload {
            Some(RelayPayload::Data(data)) => if data.len() == 0 {
                InboundStep::Skip
            } else {
                InboundStep::Write(data)
            },
            _ => InboundStep::Stop,
        },
        None => InboundStep::Stop,
    }
}

/// The frame for so many bytes that were read into a buffer, or nothing at the end.
pub fn relay_outbound(buffer: &Vec<u8>, read: usize) -> (r: Option<RelayFrame>)
    requires
        read <= buffer.len(),
    ensures
        r is None <==> read == 0,
        r is Some ==> match r->0.payload {
            Some(RelayPayload::Data(data)) => data@ == buffer@.take(read as int),
            _ => false,
        },
{
    if read == 0 {
        return None;
    }
    let mut data: Vec<u8> = Vec::new();
    let mut i: usize = 0;
    while i < read
        invariant
            i <= read <= buffer.len(),
            data@ == buffer@.take(i as int),
        decreases read - i,
    {
        data.push(buffer[i]);
        proof {
            assert(data@ =~= buffer@.take(i as int + 1));
        }
        i += 1;
    }
    Some(RelayFrame { payload: Some(RelayPayload::Data(data)) })
}

/// The bytes that a stream of frames hands on: those of its data frames, up to the first
/// that is none.
pub open spec fn relayed_bytes(frames: Seq<RelayFrame>) -> Seq<u8>
    decreases frames.len(),
{
    if frames.len() == 0 {
        Seq::empty()
    } else {
        match frames[0].payload {
            Some(RelayPayload::Data(data)) => data@ + relayed_bytes(frames.skip(1)),
            _ => Seq::empty(),
        }
    }
}

/// Each frame carries the chunk at its position.
pub open spec fn frames_carry(frames: Seq<RelayFrame>, chunks: Seq<Seq<u8>>) -> bool {
    &&& frames.len() == chunks.len()
    &&& forall|i: int|
        0 <= i < frames.len() ==> match (#[trigger] frames[i]).payload {
            Some(RelayPayload::Data(data)) => data@ == chunks[i],
            _ => false,
        }
}

/// Cutting bytes into frames and handing the frames on gives the bytes back.
pub proof fn law_relayed_bytes_are_kept(frames: Seq<RelayFrame>, chunks: Seq<Seq<u8>>)
    requires
        frames_carry(frames, chunks),
    ensures
        relayed_bytes(frames) == chunks.flatten(),
    decreases frames.len(),
{
    if frames.len() > 0 {
        let rest = frames.skip(1);
        let later = chunks.drop_first();
        assert forall|i: int| 0 <= i < rest.len() implies match (#[trigger] rest[i]).payload {
            Some(RelayPayload::Data(data)) => data@ == later[i],
            _ => false,
        } by {
            assert(rest[i] == frames[i + 1]);
        }
        assert(frames[0].payload is Some);
        law_relayed_bytes_are_kept(rest, later);
        assert(chunks.first() == chunks[0]);
    }
}

// Reports of the main process.
/// What is wrong with a report: it has to name a sandbox that the sender speaks for, and an
/// instance.
pub open spec fn report_refusal(
    sandbox_id: Seq<char>,
    instance_id: Seq<char>,
    principal: Option<&Principal>,
) -> Option<StatusView> {
    if sandbox_id.len() == 0 {
        Some(invalid("sandbox_id is required"@))
    } else if instance_id.len() == 0 {
        Some(invalid("instance_id is required"@))
    } else if refused(principal, sandbox_id) {
        Some(out_of_scope())
    } else {
        None
    }
}

/// Refuses a report that is not in order.
pub fn check_report(sandbox_id: &str, instance_id: &str, principal: Option<&Principal>) -> (r: Result<
    (),
    Status,
>)
    ensures
        match report_refusal(sandbox_id@, instance_id@, principal) {
            Some(status) => r is Err && r->Err_0@ == status,
            None => r is Ok,
        },
{
    if sandbox_id.is_empty() {
        return Err(Status::of(Code::InvalidArgument, "sandbox_id is required"));
    }
    if instance_id.is_empty() {
        return Err(Status::of(Code::InvalidArgument, "instance_id is required"));
    }
    check_scope(principal, sandbox_id)
}

/// The answer to a report of an exit, once it was passed on.
pub fn handle_report_main_process_exit(passed_on: Result<(), String>) -> (r: Result<(), Status>)
    ensures
        refusal_view(r) == (match passed_on {
            Ok(()) => Ok(()),
            Err(error) => Err(plain_status(Code::FailedPrecondition, error@)),
        }),
{
    match passed_on {
        Ok(()) => Ok(()),
        Err(error) => Err(Status::new(Code::FailedPrecondition, error)),
    }
}

/// The answer to the report that all output of an exited process is delivered, once it was
/// passed on: the session notes it, and there has to be one.
pub fn handle_finalize_main_process_exit(
    registry: &mut SupervisorSessionRegistry,
    sandbox_id: &str,
    passed_on: Result<(), String>,
) -> (r: Result<(), Status>)
    ensures
        match passed_on {
            Err(error) => refusal_view(r) == Err::<(), StatusView>(
                plain_status(Code::FailedPrecondition, error@),
            ) && final(registry)@ == old(registry)@,
            Ok(()) => if old(registry)@.sessions.contains_key(sandbox_id@) {
                r is Ok && final(registry)@ == (RegistryView {
                    sessions: old(registry)@.sessions.insert(
                        sandbox_id@,
                        LiveSessionView {
                            terminal_delivery_finalized: true,
                            ..old(registry)@.sessions[sandbox_id@]
                        },
                    ),
                    ..old(registry)@
                })
            } else {
                refusal_view(r) == Err::<(), StatusView>(
                    plain_status(
                        Code::FailedPrecondition,
                        "supervisor session is not connected"@,
                    ),
                ) && final(registry)@ == old(registry)@
            },
        },
{
    match passed_on {
        Err(error) => Err(Status::new(Code::FailedPrecondition, error)),
        Ok(()) => if registry.finalize_main_process_exit(sandbox_id) {
            Ok(())
        } else {
            Err(Status::of(Code::FailedPrecondition, "supervisor session is not connected"))
        },
    }
}

} // verus!
