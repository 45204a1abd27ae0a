//! The supervisor sessions that a gateway replica holds, and the relays that wait for them.
use vstd::prelude::*;
use vstd::string::*;

use crate::session_liveness::{
    LivenessError, LivenessRecord, LivenessRecordView, PeerSessions, SessionLiveness,
    SERVING_REPLICA_METADATA_KEY,
};
use crate::status::{plain_status, Code, Status, StatusView};
use crate::string_map::StringMap;
use crate::text::{same_text, trim, trimmed};
use crate::values::{duplicate_option, option_view, views, Plain};

verus! {

/// Seconds between heartbeats.
pub const HEARTBEAT_INTERVAL_SECS: u32 = 15;

/// Nanoseconds for which a relay waits to be claimed.
pub const RELAY_PENDING_TIMEOUT: u128 = 10_000_000_000;

/// How many relays wait at most.
pub const MAX_PENDING_RELAYS: usize = 256;

/// How many relays of one sandbox wait at most.
pub const MAX_PENDING_RELAYS_PER_SANDBOX: usize = 32;

/// Bytes read at once from a relayed stream.
pub const RELAY_STREAM_CHUNK_SIZE: usize = 16384;

// Messages.
/// What a relay is opened to.
#[derive(Debug, PartialEq, Eq)]
pub enum RelayTarget {
    /// The SSH server of the sandbox.
    Ssh,
    /// An address that the sandbox can reach.
    Tcp { host: String, port: u32 },
}

/// What [`RelayTarget`] stands for.
#[verifier::ext_equal]
pub enum RelayTargetView {
    Ssh,
    Tcp { host: Seq<char>, port: u32 },
}

impl View for RelayTarget {
    type V = RelayTargetView;

    open spec fn view(&self) -> RelayTargetView {
        match *self {
            RelayTarget::Ssh => RelayTargetView::Ssh,
            RelayTarget::Tcp { host, port } => RelayTargetView::Tcp { host: host@, port },
        }
    }
}

impl Plain for RelayTarget {
    fn same(&self, other: &Self) -> (r: bool) {
        match (self, other) {
            (RelayTarget::Ssh, RelayTarget::Ssh) => true,
            (
                RelayTarget::Tcp { host, port },
                RelayTarget::Tcp { host: other_host, port: other_port },
            ) => host.same(other_host) && *port == *other_port,
            _ => false,
        }
    }

    fn duplicate(&self) -> (r: Self) {
        match self {
            RelayTarget::Ssh => RelayTarget::Ssh,
            RelayTarget::Tcp { host, port } => RelayTarget::Tcp { host: host.clone(), port: *port },
        }
    }
}

/// Asks a supervisor to open a relay.
#[derive(Debug, PartialEq, Eq)]
pub struct RelayOpen {
    pub channel_id: String,
    pub target: Option<RelayTarget>,
    pub service_id: String,
}

/// What [`RelayOpen`] stands for.
#[verifier::ext_equal]
pub struct RelayOpenView {
    pub channel_id: Seq<char>,
    pub target: Option<RelayTargetView>,
    pub service_id: Seq<char>,
}

impl View for RelayOpen {
    type V = RelayOpenView;

    open spec fn view(&self) -> RelayOpenView {
        RelayOpenView {
            channel_id: self.channel_id@,
            target: option_view(self.target),
            service_id: self.service_id@,
        }
    }
}

impl Plain for RelayOpen {
    fn same(&self, other: &Self) -> (r: bool) {
        self.channel_id.same(&other.channel_id) && crate::values::same_option(
            &self.target,
            &other.target,
        ) && self.service_id.same(&other.service_id)
    }

    fn duplicate(&self) -> (r: Self) {
        RelayOpen {
            channel_id: self.channel_id.clone(),
            target: duplicate_option(&self.target),
            service_id: self.service_id.clone(),
        }
    }
}

/// What a gateway sends to a supervisor.
#[derive(Debug, PartialEq, Eq)]
pub enum GatewayMessage {
    SessionAccepted { session_id: String, heartbeat_interval_secs: u32 },
    RelayOpen(RelayOpen),
    Heartbeat,
}

/// What [`GatewayMessage`] stands for.
#[verifier::ext_equal]
pub enum GatewayMessageView {
    SessionAccepted { session_id: Seq<char>, heartbeat_interval_secs: u32 },
    RelayOpen(RelayOpenView),
    Heartbeat,
}

impl View for GatewayMessage {
    type V = GatewayMessageView;

    open spec fn view(&self) -> GatewayMessageView {
        match *self {
            GatewayMessage::SessionAccepted { session_id, heartbeat_interval_secs } =>
                GatewayMessageView::SessionAccepted {
                    session_id: session_id@,
                    heartbeat_interval_secs,
                },
            GatewayMessage::RelayOpen(open) => GatewayMessageView::RelayOpen(open@),
            GatewayMessage::Heartbeat => GatewayMessageView::Heartbeat,
        }
    }
}

// Principals.
/// Who makes a request.
#[derive(Debug, PartialEq, Eq)]
pub enum Principal {
    /// The supervisor of a sandbox.
    Sandbox { sandbox_id: String },
    /// A user.
    User { subject: String },
}

/// The principal is the supervisor of the sandbox.
pub open spec fn in_scope(principal: Principal, sandbox_id: Seq<char>) -> bool {
    match principal {
        Principal::Sandbox { sandbox_id: own } => own@ == sandbox_id,
        Principal::User { subject } => false,
    }
}

/// The refusal of a principal that has no business with a sandbox.
pub open spec fn out_of_scope() -> StatusView {
    plain_status(Code::PermissionDenied, "principal is not scoped to this sandbox"@)
}

/// Refuses everyone but the supervisor of the sandbox.
pub fn ensure_sandbox_principal_scope(principal: &Principal, sandbox_id: &str) -> (r: Result<
    (),
    Status,
>)
    ensures
        r is Ok <==> in_scope(*principal, sandbox_id@),
        r is Err ==> r->Err_0@ == out_of_scope(),
{
    let scoped = match principal {
        Principal::Sandbox { sandbox_id: own } => same_text(own, sandbox_id),
        Principal::User { subject } => false,
    };
    if scoped {
        Ok(())
    } else {
        Err(Status::of(Code::PermissionDenied, "principal is not scoped to this sandbox"))
    }
}

// Sessions and relays.
/// A session that a supervisor holds.
#[derive(Debug, PartialEq, Eq)]
pub struct LiveSession {
    /// Tells this session from one that took its place.
    pub session_id: String,
    /// Its outbound channel and shutdown signal, by the number that their owner knows
    /// them by.
    pub connection: u64,
    /// Every attachment has closed and the terminal output is delivered.
    pub terminal_delivery_finalized: bool,
}

/// What [`LiveSession`] stands for.
#[verifier::ext_equal]
pub struct LiveSessionView {
    pub session_id: Seq<char>,
    pub connection: u64,
    pub terminal_delivery_finalized: bool,
}

impl View for LiveSession {
    type V = LiveSessionView;

    open spec fn view(&self) -> LiveSessionView {
        LiveSessionView {
            session_id: self.session_id@,
            connection: self.connection,
            terminal_delivery_finalized: self.terminal_delivery_finalized,
        }
    }
}

/// A relay that was asked for and not claimed yet.
#[derive(Debug, PartialEq, Eq)]
pub struct PendingRelay {
    /// Who waits for the stream, by the number that its owner knows it by.
    pub waiter: u64,
    pub sandbox_id: String,
    pub relay_open: RelayOpen,
    /// When it was asked for, in nanoseconds of a clock that never goes back.
    pub created_at: u128,
}

/// What [`PendingRelay`] stands for.
#[verifier::ext_equal]
pub struct PendingRelayView {
    pub waiter: u64,
    pub sandbox_id: Seq<char>,
    pub relay_open: RelayOpenView,
    pub created_at: u128,
}

impl View for PendingRelay {
    type V = PendingRelayView;

    open spec fn view(&self) -> PendingRelayView {
        PendingRelayView {
            waiter: self.waiter,
            sandbox_id: self.sandbox_id@,
            relay_open: self.relay_open@,
            created_at: self.created_at,
        }
    }
}

/// A relay that the supervisor claimed.
#[derive(Debug, PartialEq, Eq)]
pub struct ClaimedRelay {
    /// Who waits for the stream.
    pub waiter: u64,
    pub sandbox_id: String,
}

/// What the owner of the connections has to do.
#[derive(Debug, PartialEq)]
pub enum SessionAction {
    /// Tell the session on this connection to end.
    Shutdown(u64),
    /// Tell the waiter that its relay failed.
    FailRelay { waiter: u64, status: Status },
    /// Let go of the waiter: its relay will never come.
    DropRelay(u64),
    /// Withdraw the liveness row of a session.
    WithdrawLiveness { sandbox_id: String, session_id: String },
}

/// What [`SessionAction`] stands for.
#[verifier::ext_equal]
pub enum SessionActionView {
    Shutdown(u64),
    FailRelay { waiter: u64, status: StatusView },
    DropRelay(u64),
    WithdrawLiveness { sandbox_id: Seq<char>, session_id: Seq<char> },
}

impl View for SessionAction {
    type V = SessionActionView;

    open spec fn view(&self) -> SessionActionView {
        match *self {
            SessionAction::Shutdown(connection) => SessionActionView::Shutdown(connection),
            SessionAction::FailRelay { waiter, status } => SessionActionView::FailRelay {
                waiter,
                status: status@,
            },
            SessionAction::DropRelay(waiter) => SessionActionView::DropRelay(waiter),
            SessionAction::WithdrawLiveness { sandbox_id, session_id } =>
                SessionActionView::WithdrawLiveness {
                    sandbox_id: sandbox_id@,
                    session_id: session_id@,
                },
        }
    }
}

fn push_action(actions: &mut Vec<SessionAction>, action: SessionAction)
    ensures
        views(final(actions)@) == views(old(actions)@).push(action@),
{
    let ghost before = views(actions@);
    actions.push(action);
    proof {
        assert(views(actions@) =~= before.push(action@));
    }
}

/// The sessions and the waiting relays of a replica.
#[derive(Debug)]
pub struct SupervisorSessionRegistry {
    sessions: StringMap<LiveSession>,
    pending_relays: StringMap<PendingRelay>,
    /// The liveness rows of this replica. Without them it is the only one.
    liveness: Option<SessionLiveness>,
}

/// What [`SupervisorSessionRegistry`] stands for.
#[verifier::ext_equal]
pub struct RegistryView {
    /// The session of each sandbox.
    pub sessions: Map<Seq<char>, LiveSessionView>,
    /// The relay waiting on each channel.
    pub pending: Map<Seq<char>, PendingRelayView>,
    /// The liveness rows of this replica.
    pub liveness: Option<SessionLiveness>,
}

impl View for SupervisorSessionRegistry {
    type V = RegistryView;

    closed spec fn view(&self) -> RegistryView {
        RegistryView {
            sessions: self.sessions@,
            pending: self.pending_relays@,
            liveness: self.liveness,
        }
    }
}

/// The registry has a session for the sandbox, and it is this one.
pub open spec fn is_current(v: RegistryView, sandbox_id: Seq<char>, session_id: Seq<char>) -> bool {
    v.sessions.contains_key(sandbox_id) && v.sessions[sandbox_id].session_id == session_id
}

/// The channels on which relays of a sandbox wait.
pub open spec fn channels_of(
    pending: Map<Seq<char>, PendingRelayView>,
    sandbox_id: Seq<char>,
) -> Set<Seq<char>> {
    pending.dom().filter(|channel: Seq<char>| pending[channel].sandbox_id == sandbox_id)
}

/// The list has the channels on which relays of a sandbox wait, once each.
pub open spec fn lists_channels(
    channels: Seq<Seq<char>>,
    pending: Map<Seq<char>, PendingRelayView>,
    sandbox_id: Seq<char>,
) -> bool {
    channels.no_duplicates() && channels.to_set() == channels_of(pending, sandbox_id)
}

/// The requests for the relays on the channels.
pub open spec fn relay_requests(
    channels: Seq<Seq<char>>,
    pending: Map<Seq<char>, PendingRelayView>,
) -> Seq<GatewayMessageView> {
    channels.map_values(
        |channel: Seq<char>| GatewayMessageView::RelayOpen(pending[channel].relay_open),
    )
}

/// The relays of all sandboxes but one.
pub open spec fn relays_of_others(
    pending: Map<Seq<char>, PendingRelayView>,
    sandbox_id: Seq<char>,
) -> Map<Seq<char>, PendingRelayView> {
    Map::new(
        |channel: Seq<char>|
            pending.contains_key(channel) && pending[channel].sandbox_id != sandbox_id,
        |channel: Seq<char>| pending[channel],
    )
}

/// The actions that let go of those who wait on the channels.
pub open spec fn dropped_waiters(
    channels: Seq<Seq<char>>,
    pending: Map<Seq<char>, PendingRelayView>,
) -> Seq<SessionActionView> {
    channels.map_values(
        |channel: Seq<char>| SessionActionView::DropRelay(pending[channel].waiter),
    )
}

/// The actions for the session of a sandbox that is forgotten.
pub open spec fn forgotten_session(v: RegistryView, sandbox_id: Seq<char>) -> Seq<
    SessionActionView,
> {
    if v.sessions.contains_key(sandbox_id) {
        withdrawal(v.liveness, sandbox_id, v.sessions[sandbox_id].session_id)
    } else {
        Seq::empty()
    }
}

/// The relay has waited too long.
pub open spec fn relay_expired(relay: PendingRelayView, now: u128) -> bool {
    now - relay.created_at > RELAY_PENDING_TIMEOUT
}

fn has_expired(created_at: u128, now: u128) -> (r: bool)
    ensures
        r == (now - created_at > RELAY_PENDING_TIMEOUT),
{
    now > created_at && now - created_at > RELAY_PENDING_TIMEOUT
}

/// The channels on which relays have waited too long.
pub open spec fn expired_channels(
    pending: Map<Seq<char>, PendingRelayView>,
    now: u128,
) -> Set<Seq<char>> {
    pending.dom().filter(|channel: Seq<char>| relay_expired(pending[channel], now))
}

/// The list has the channels on which relays have waited too long, once each.
pub open spec fn lists_expired(
    channels: Seq<Seq<char>>,
    pending: Map<Seq<char>, PendingRelayView>,
    now: u128,
) -> bool {
    channels.no_duplicates() && channels.to_set() == expired_channels(pending, now)
}

/// The action that withdraws a session's row, where there are rows.
pub open spec fn withdrawal(
    liveness: Option<SessionLiveness>,
    sandbox_id: Seq<char>,
    session_id: Seq<char>,
) -> Seq<SessionActionView> {
    if liveness is Some {
        seq![SessionActionView::WithdrawLiveness { sandbox_id, session_id }]
    } else {
        Seq::empty()
    }
}

impl SupervisorSessionRegistry {
    /// A registry of the only replica.
    pub fn new() -> (r: Self)
        ensures
            r@.sessions == Map::<Seq<char>, LiveSessionView>::empty(),
            r@.pending == Map::<Seq<char>, PendingRelayView>::empty(),
            r@.liveness is None,
    {
        SupervisorSessionRegistry {
            sessions: StringMap::new(),
            pending_relays: StringMap::new(),
            liveness: None,
        }
    }

    /// A registry that also keeps liveness rows.
    pub fn with_liveness(liveness: SessionLiveness) -> (r: Self)
        ensures
            r@.sessions == Map::<Seq<char>, LiveSessionView>::empty(),
            r@.pending == Map::<Seq<char>, PendingRelayView>::empty(),
            r@.liveness == Some(liveness),
    {
        SupervisorSessionRegistry {
            sessions: StringMap::new(),
            pending_relays: StringMap::new(),
            liveness: Some(liveness),
        }
    }

    /// Registers a session, in the place of the one that the sandbox had, which is told to
    /// end. Returns whether there was one.
    pub fn register(
        &mut self,
        sandbox_id: String,
        session_id: String,
        connection: u64,
        actions: &mut Vec<SessionAction>,
    ) -> (r: bool)
        ensures
            final(self)@ == (RegistryView {
                sessions: old(self)@.sessions.insert(
                    sandbox_id@,
                    LiveSessionView {
                        session_id: session_id@,
                        connection,
                        terminal_delivery_finalized: false,
                    },
                ),
                ..old(self)@
            }),
            r == old(self)@.sessions.contains_key(sandbox_id@),
            views(final(actions)@) == (if r {
                views(old(actions)@).push(
                    SessionActionView::Shutdown(old(self)@.sessions[sandbox_id@].connection),
                )
            } else {
                views(old(actions)@)
            }),
    {
        let ghost before = self@;
        let previous = self.sessions.remove(&sandbox_id);
        let session = LiveSession { session_id, connection, terminal_delivery_finalized: false };
        proof {
            assert(before.sessions.remove(sandbox_id@).insert(sandbox_id@, session@)
                =~= before.sessions.insert(sandbox_id@, session@));
        }
        self.sessions.insert(sandbox_id, session);
        match previous {
            Some(session) => {
                push_action(actions, SessionAction::Shutdown(session.connection));
                true
            },
            None => false,
        }
    }

    /// Removes the session of a sandbox, and returns which one it was.
    pub fn remove(&mut self, sandbox_id: &str) -> (r: Option<String>)
        ensures
            final(self)@ == (RegistryView {
                sessions: old(self)@.sessions.remove(sandbox_id@),
                ..old(self)@
            }),
            option_view(r) == (if old(self)@.sessions.contains_key(sandbox_id@) {
                Some(old(self)@.sessions[sandbox_id@].session_id)
            } else {
                None
            }),
    {
        match self.sessions.remove(sandbox_id) {
            Some(session) => Some(session.session_id),
            None => None,
        }
    }

    /// Ends the session of a sandbox, so that a later start needs a new one.
    pub fn disconnect(&mut self, sandbox_id: &str, actions: &mut Vec<SessionAction>) -> (r: bool)
        ensures
            final(self)@ == (RegistryView {
                sessions: old(self)@.sessions.remove(sandbox_id@),
                ..old(self)@
            }),
            r == old(self)@.sessions.contains_key(sandbox_id@),
            views(final(actions)@) == views(old(actions)@) + (if r {
                seq![
                    SessionActionView::Shutdown(old(self)@.sessions[sandbox_id@].connection),
                ] + withdrawal(
                    old(self)@.liveness,
                    sandbox_id@,
                    old(self)@.sessions[sandbox_id@].session_id,
                )
            } else {
                Seq::empty()
            }),
    {
        let ghost told = views(actions@);
        match self.sessions.remove(sandbox_id) {
            Some(session) => {
                push_action(actions, SessionAction::Shutdown(session.connection));
                if self.liveness.is_some() {
                    push_action(
                        actions,
                        SessionAction::WithdrawLiveness {
                            sandbox_id: sandbox_id.to_owned(),
                            session_id: session.session_id,
                        },
                    );
                }
                proof {
                    assert(views(actions@) =~= told + (seq![
                        SessionActionView::Shutdown(old(self)@.sessions[sandbox_id@].connection),
                    ] + withdrawal(
                        old(self)@.liveness,
                        sandbox_id@,
                        old(self)@.sessions[sandbox_id@].session_id,
                    )));
                }
                true
            },
            None => {
                proof {
                    assert(told + Seq::<SessionActionView>::empty() =~= told);
                }
                false
            },
        }
    }

    /// Removes the session of a sandbox only if it is the given one, and returns whether its
    /// terminal delivery was finalized. The task of an old session can end long after
    /// another took its place.
    pub fn remove_if_current(&mut self, sandbox_id: &str, session_id: &str) -> (r: Option<bool>)
        ensures
            r is Some <==> is_current(old(self)@, sandbox_id@, session_id@),
            r is Some ==> r->0 == old(self)@.sessions[sandbox_id@].terminal_delivery_finalized
                && final(self)@ == (RegistryView {
                sessions: old(self)@.sessions.remove(sandbox_id@),
                ..old(self)@
            }),
            r is None ==> final(self)@ == old(self)@,
    {
        if self.is_current_session(sandbox_id, session_id) {
            match self.sessions.remove(sandbox_id) {
                Some(session) => Some(session.terminal_delivery_finalized),
                None => None,
            }
        } else {
            None
        }
    }

    /// The connection of a sandbox's session.
    pub fn lookup_session(&self, sandbox_id: &str) -> (r: Option<u64>)
        ensures
            r == (if self@.sessions.contains_key(sandbox_id@) {
                Some(self@.sessions[sandbox_id@].connection)
            } else {
                None
            }),
    {
        match self.sessions.get(sandbox_id) {
            Some(session) => Some(session.connection),
            None => None,
        }
    }

    /// Whether the sandbox has a session here.
    pub fn has_session(&self, sandbox_id: &str) -> (r: bool)
        ensures
            r == self@.sessions.contains_key(sandbox_id@),
    {
        self.sessions.contains_key(sandbox_id)
    }

    /// Whether the terminal delivery of the sandbox's session is finalized.
    pub fn terminal_delivery_finalized(&self, sandbox_id: &str) -> (r: bool)
        ensures
            r == (self@.sessions.contains_key(sandbox_id@)
                && self@.sessions[sandbox_id@].terminal_delivery_finalized),
    {
        match self.sessions.get(sandbox_id) {
            Some(session) => session.terminal_delivery_finalized,
            None => false,
        }
    }

    /// Notes that the terminal delivery of the sandbox's session is finalized.
    pub fn finalize_main_process_exit(&mut self, sandbox_id: &str) -> (r: bool)
        ensures
            r == old(self)@.sessions.contains_key(sandbox_id@),
            final(self)@ == (if r {
                RegistryView {
                    sessions: old(self)@.sessions.insert(
                        sandbox_id@,
                        LiveSessionView {
                            terminal_delivery_finalized: true,
                            ..old(self)@.sessions[sandbox_id@]
                        },
                    ),
                    ..old(self)@
                }
            } else {
                old(self)@
            }),
    {
        let ghost before = self@.sessions;
        match self.sessions.remove(sandbox_id) {
            Some(mut session) => {
                session.terminal_delivery_finalized = true;
                proof {
                    assert(before.remove(sandbox_id@).insert(sandbox_id@, session@)
                        =~= before.insert(sandbox_id@, session@));
                }
                self.sessions.insert(sandbox_id.to_owned(), session);
                true
            },
            None => {
                proof {
                    assert(before.remove(sandbox_id@) =~= before);
                }
                false
            },
        }
    }

    /// Whether the sandbox's session is the given one.
    pub fn is_current_session(&self, sandbox_id: &str, session_id: &str) -> (r: bool)
        ensures
            r == is_current(self@, sandbox_id@, session_id@),
    {
        match self.sessions.get(sandbox_id) {
            Some(session) => same_text(&session.session_id, session_id),
            None => false,
        }
    }

    /// The channels on which relays of a sandbox wait, in order.
    pub fn pending_channel_ids(&self, sandbox_id: &str) -> (r: Vec<String>)
        ensures
            lists_channels(views(r@), self@.pending, sandbox_id@),
            r@.len() == channels_of(self@.pending, sandbox_id@).len(),
    {
        let ghost pending = self@.pending;
        let ghost wanted = channels_of(pending, sandbox_id@);
        let n: usize = self.pending_relays.len();
        let ghost keys = self.pending_relays.keys();
        let mut r: Vec<String> = Vec::new();
        let mut i: usize = 0;
        while i < n
            invariant
                pending == self.pending_relays@,
                wanted == channels_of(pending, sandbox_id@),
                keys == self.pending_relays.keys(),
                n == keys.len(),
                crate::order::ascending(keys, crate::string_map::key_order()),
                i <= n,
                views(r@).no_duplicates(),
                forall|x: Seq<char>| #[trigger]
                    views(r@).contains(x) <==> wanted.contains(x) && keys.take(i as int).contains(
                        x,
                    ),
            decreases n - i,
        {
            let ghost before = views(r@);
            let ghost key = keys[i as int];
            proof {
                assert(keys.take(i as int + 1) =~= keys.take(i as int).push(key));
                assert forall|x: Seq<char>| #[trigger] keys.take(i as int + 1).contains(x) <==> (
                keys.take(i as int).contains(x) || x == key) by {
                    crate::order::lemma_push_members(keys.take(i as int), key, x);
                }
                if keys.take(i as int).contains(key) {
                    let j = choose|j: int| 0 <= j < i && keys[j] == key;
                    assert(crate::string_map::key_order()(keys[j], keys[i as int]));
                    crate::text::lemma_precedes_irreflexive(key);
                }
            }
            if same_text(&self.pending_relays.value_at(i).sandbox_id, sandbox_id) {
                r.push(self.pending_relays.key_at(i).clone());
                proof {
                    assert(views(r@) =~= before.push(key));
                    assert(!before.contains(key));
                    assert forall|a: int, b: int|
                        0 <= a < b < views(r@).len() implies views(r@)[a] != views(r@)[b] by {
                        if b == before.len() {
                            assert(before.contains(before[a]));
                        } else {
                            assert(before[a] != before[b]);
                        }
                    }
                    assert forall|x: Seq<char>| #[trigger]
                        views(r@).contains(x) <==> wanted.contains(x) && keys.take(
                            i as int + 1,
                        ).contains(x) by {
                        crate::order::lemma_push_members(before, key, x);
                    }
                }
            }
            i += 1;
        }
        proof {
            assert(keys.take(keys.len() as int) =~= keys);
            assert(views(r@).to_set() =~= wanted);
            views(r@).unique_seq_to_set();
        }
        r
    }
}

// Redirects.
/// A character that response metadata can carry.
pub open spec fn header_char(c: char) -> bool {
    c as u32 == 0x9 || (c as u32 >= 0x20 && c as u32 != 0x7f)
}

/// `tonic::metadata::MetadataValue::from_str` takes a text as a metadata value exactly if
/// none of its bytes is a control character other than the tab.
#[verifier::external_body]
fn is_metadata_value(text: &str) -> (r: bool)
    ensures
        r == (forall|i: int| 0 <= i < text@.len() ==> header_char(#[trigger] text@[i])),
{
    text.parse::<tonic::metadata::MetadataValue<tonic::metadata::Ascii>>().is_ok()
}

/// The address that a caller is sent to: that of another replica that is believed to hold
/// the session, if it is one that a caller can be told and not our own.
pub open spec fn redirect_address(
    liveness: SessionLiveness,
    record: LivenessRecordView,
) -> Option<Seq<char>> {
    let address = trimmed(record.advertise_address);
    if record.replica_id == liveness.replica() || address.len() == 0 || address
        == liveness.address() || !(forall|i: int|
        0 <= i < address.len() ==> header_char(#[trigger] address[i])) {
        None
    } else {
        Some(address)
    }
}

/// The refusal that names another replica, in its metadata and in its text.
pub open spec fn redirect_status(address: Seq<char>) -> StatusView {
    StatusView {
        code: Code::Unavailable,
        message: "supervisor session not connected on this gateway replica; owned by "@ + address,
        metadata: Map::<Seq<char>, Seq<char>>::empty().insert(
            SERVING_REPLICA_METADATA_KEY@,
            address,
        ),
    }
}

/// The refusal that names another replica, where the rows have one to name. No rows, rows
/// that could not be read, and rows that name no one else all give none.
pub open spec fn serving_replica_redirect(
    liveness: Option<SessionLiveness>,
    looked_up: Result<Option<LivenessRecordView>, ()>,
) -> Option<StatusView> {
    match (liveness, looked_up) {
        (Some(own), Ok(Some(record))) => match redirect_address(own, record) {
            Some(address) => Some(redirect_status(address)),
            None => None,
        },
        _ => None,
    }
}

/// What a look at the rows stands for, whatever the error was.
pub open spec fn lookup_view(looked_up: Result<Option<LivenessRecord>, LivenessError>) -> Result<
    Option<LivenessRecordView>,
    (),
> {
    match looked_up {
        Ok(record) => Ok(option_view(record)),
        Err(e) => Err(()),
    }
}

/// The connection of a sandbox's session, or the refusal of a replica that holds none.
pub open spec fn session_or_refusal(
    v: RegistryView,
    sandbox_id: Seq<char>,
    looked_up: Result<Option<LivenessRecordView>, ()>,
) -> Result<u64, StatusView> {
    if v.sessions.contains_key(sandbox_id) {
        Ok(v.sessions[sandbox_id].connection)
    } else {
        match serving_replica_redirect(v.liveness, looked_up) {
            Some(status) => Err(status),
            None => Err(plain_status(Code::Unavailable, "supervisor session not connected"@)),
        }
    }
}

/// What a result stands for.
pub open spec fn refusal_view<T>(r: Result<T, Status>) -> Result<T, StatusView> {
    match r {
        Ok(t) => Ok(t),
        Err(status) => Err(status@),
    }
}

impl SupervisorSessionRegistry {
    /// The refusal that names another replica, where the rows have one to name. It is
    /// a hint: a caller that ignores it sees what a single replica would answer.
    pub fn serving_replica_redirect_status(
        &self,
        looked_up: &Result<Option<LivenessRecord>, LivenessError>,
    ) -> (r: Option<Status>)
        ensures
            option_view(r) == serving_replica_redirect(self@.liveness, lookup_view(*looked_up)),
    {
        match (&self.liveness, looked_up) {
            (Some(liveness), Ok(Some(record))) => {
                if same_text(&record.replica_id, liveness.replica_id()) {
                    return None;
                }
                let address = trim(&record.advertise_address);
                if address.as_str().is_empty() || same_text(
                    &address,
                    liveness.advertise_address(),
                ) {
                    return None;
                }
                if !is_metadata_value(&address) {
                    return None;
                }
                let mut message = String::from_str(
                    "supervisor session not connected on this gateway replica; owned by ",
                );
                message.append(&address);
                let mut status = Status::new(Code::Unavailable, message);
                status.metadata.insert(SERVING_REPLICA_METADATA_KEY.to_owned(), address);
                Some(status)
            },
            _ => None,
        }
    }

    /// The connection of a sandbox's session. A replica that holds none says so at once: it
    /// knows its own connections and nothing more, and how long to keep trying, and where,
    /// is the caller's to decide.
    pub fn session_or_unavailable(
        &self,
        sandbox_id: &str,
        looked_up: &Result<Option<LivenessRecord>, LivenessError>,
    ) -> (r: Result<u64, Status>)
        ensures
            refusal_view(r) == session_or_refusal(self@, sandbox_id@, lookup_view(*looked_up)),
    {
        match self.lookup_session(sandbox_id) {
            Some(connection) => Ok(connection),
            None => match self.serving_replica_redirect_status(looked_up) {
                Some(status) => Err(status),
                None => Err(Status::of(Code::Unavailable, "supervisor session not connected")),
            },
        }
    }

    /// Whether any replica holds a session for the sandbox. Readiness is a fact about the
    /// fleet; where the rows cannot be read, it is what is known here.
    pub fn session_connected_in_fleet(
        &self,
        sandbox_id: &str,
        looked_up: &Result<Option<LivenessRecord>, LivenessError>,
    ) -> (r: bool)
        ensures
            r == (self@.sessions.contains_key(sandbox_id@) || (self@.liveness is Some
                && lookup_view(*looked_up) is Ok && lookup_view(*looked_up)->Ok_0 is Some)),
    {
        if self.has_session(sandbox_id) {
            return true;
        }
        match (&self.liveness, looked_up) {
            (Some(liveness), Ok(Some(record))) => true,
            _ => false,
        }
    }

    /// What the rows say of a sandbox after its session here has ended. Without rows there
    /// was only that session; a store that cannot answer says nothing either way.
    pub fn sandbox_peer_sessions(
        &self,
        looked_up: &Result<Option<LivenessRecord>, LivenessError>,
    ) -> (r: PeerSessions)
        ensures
            r == (if self@.liveness is None {
                PeerSessions::Nobody
            } else {
                match lookup_view(*looked_up) {
                    Ok(Some(record)) => PeerSessions::Serving,
                    Ok(None) => PeerSessions::Nobody,
                    Err(e) => PeerSessions::Unknown,
                }
            }),
    {
        if self.liveness.is_none() {
            return PeerSessions::Nobody;
        }
        match looked_up {
            Ok(Some(record)) => PeerSessions::Serving,
            Ok(None) => PeerSessions::Nobody,
            Err(e) => PeerSessions::Unknown,
        }
    }
}

// Relays.
/// A small hexadecimal digit.
pub open spec fn hex_digit(c: char) -> bool {
    ('0' <= c && c <= '9') || ('a' <= c && c <= 'f')
}

/// A random identifier in writing: hexadecimal digits in five groups with hyphens between
/// them, the third group starting with the version and the fourth with the variant.
pub open spec fn is_random_uuid(s: Seq<char>) -> bool {
    &&& s.len() == 36
    &&& s[14] == '4'
    &&& s[19] == '8' || s[19] == '9' || s[19] == 'a' || s[19] == 'b'
    &&& forall|i: int|
        0 <= i < 36 ==> if i == 8 || i == 13 || i == 18 || i == 23 {
            #[trigger] s[i] == '-'
        } else {
            hex_digit(s[i])
        }
}

/// `uuid::Uuid::new_v4` makes a random identifier, which `to_string` writes in the
/// hyphenated form with small letters.
#[verifier::external_body]
pub(crate) fn random_uuid() -> (r: String)
    ensures
        is_random_uuid(r@),
{
    uuid::Uuid::new_v4().to_string()
}

/// The request for a relay.
pub open spec fn relay_request(
    channel_id: Seq<char>,
    target: RelayTargetView,
    service_id: Seq<char>,
) -> RelayOpenView {
    RelayOpenView { channel_id, target: Some(target), service_id }
}

/// The refusal of one relay too many.
pub open spec fn capacity_reached() -> StatusView {
    plain_status(Code::ResourceExhausted, "gateway relay capacity reached (256 in flight)"@)
}

/// The refusal of one relay too many for a sandbox.
pub open spec fn sandbox_limit_reached(sandbox_id: Seq<char>) -> StatusView {
    plain_status(
        Code::ResourceExhausted,
        "per-sandbox relay limit reached (32 in flight for "@ + sandbox_id + ")"@,
    )
}

/// Why a relay cannot be added to those that wait.
pub open spec fn relay_refusal(
    pending: Map<Seq<char>, PendingRelayView>,
    sandbox_id: Seq<char>,
) -> Option<StatusView> {
    if pending.dom().len() >= MAX_PENDING_RELAYS {
        Some(capacity_reached())
    } else if channels_of(pending, sandbox_id).len() >= MAX_PENDING_RELAYS_PER_SANDBOX {
        Some(sandbox_limit_reached(sandbox_id))
    } else {
        None
    }
}

/// A relay that was added to those that wait: its channel, and the connection on which the
/// supervisor is asked for it.
#[derive(Debug, PartialEq, Eq)]
pub struct OpenedRelay {
    pub channel_id: String,
    pub connection: u64,
    pub message: GatewayMessage,
}

/// What opening a relay on a channel comes to: the connection on which it is asked for and
/// the registry with the relay waiting, or a refusal that leaves the registry as it was.
pub open spec fn relay_opened(
    v: RegistryView,
    sandbox_id: Seq<char>,
    looked_up: Result<Option<LivenessRecordView>, ()>,
    relay: PendingRelayView,
    channel_id: Seq<char>,
) -> Result<(u64, RegistryView), StatusView> {
    match session_or_refusal(v, sandbox_id, looked_up) {
        Err(status) => Err(status),
        Ok(connection) => match relay_refusal(v.pending, sandbox_id) {
            Some(status) => Err(status),
            None => Ok(
                (
                    connection,
                    RegistryView { pending: v.pending.insert(channel_id, relay), ..v },
                ),
            ),
        },
    }
}

/// What claiming the relay on a channel comes to: who waits for it and for which sandbox,
/// and what is left waiting. One who may not claim it leaves it waiting; one who comes too
/// late uses it up.
pub open spec fn relay_claimed(
    pending: Map<Seq<char>, PendingRelayView>,
    channel_id: Seq<char>,
    principal: Option<Principal>,
    now: u128,
) -> (Result<(u64, Seq<char>), StatusView>, Map<Seq<char>, PendingRelayView>) {
    if !pending.contains_key(channel_id) {
        (Err(plain_status(Code::NotFound, "unknown or expired relay channel"@)), pending)
    } else {
        let relay = pending[channel_id];
        if principal is Some && !in_scope(principal->0, relay.sandbox_id) {
            (Err(out_of_scope()), pending)
        } else if relay_expired(relay, now) {
            (
                Err(plain_status(Code::DeadlineExceeded, "relay channel timed out"@)),
                pending.remove(channel_id),
            )
        } else {
            (Ok((relay.waiter, relay.sandbox_id)), pending.remove(channel_id))
        }
    }
}

/// What claiming the relay on a channel asks for: one who comes too late finds a relay that
/// will never come, and its waiter is let go.
pub open spec fn claim_actions(
    pending: Map<Seq<char>, PendingRelayView>,
    channel_id: Seq<char>,
    principal: Option<Principal>,
    now: u128,
) -> Seq<SessionActionView> {
    if pending.contains_key(channel_id) && (principal is Some ==> in_scope(
        principal->0,
        pending[channel_id].sandbox_id,
    )) && relay_expired(pending[channel_id], now) {
        seq![SessionActionView::DropRelay(pending[channel_id].waiter)]
    } else {
        Seq::empty()
    }
}

/// What [`ClaimedRelay`] stands for, or why there is none.
pub open spec fn claim_view(r: Result<ClaimedRelay, Status>) -> Result<
    (u64, Seq<char>),
    StatusView,
> {
    match r {
        Ok(claimed) => Ok((claimed.waiter, claimed.sandbox_id@)),
        Err(status) => Err(status@),
    }
}

/// The relays that have not waited too long.
pub open spec fn unexpired(pending: Map<Seq<char>, PendingRelayView>, now: u128) -> Map<
    Seq<char>,
    PendingRelayView,
> {
    Map::new(
        |channel: Seq<char>| pending.contains_key(channel) && !relay_expired(pending[channel], now),
        |channel: Seq<char>| pending[channel],
    )
}

impl SupervisorSessionRegistry {
    /// Asks for a relay on a given channel: puts it among those that wait, and says what to
    /// send on which connection. The relay waits before it is asked for, so that the answer
    /// finds it.
    pub fn open_relay_on_channel(
        &mut self,
        sandbox_id: &str,
        target: RelayTarget,
        service_id: String,
        channel_id: String,
        waiter: u64,
        now: u128,
        looked_up: &Result<Option<LivenessRecord>, LivenessError>,
    ) -> (r: Result<OpenedRelay, Status>)
        ensures
            ({
                let request = relay_request(channel_id@, target@, service_id@);
                let relay = PendingRelayView {
                    waiter,
                    sandbox_id: sandbox_id@,
                    relay_open: request,
                    created_at: now,
                };
                match relay_opened(
                    old(self)@,
                    sandbox_id@,
                    lookup_view(*looked_up),
                    relay,
                    channel_id@,
                ) {
                    Ok((connection, after)) => r is Ok && final(self)@ == after
                        && r->Ok_0.channel_id@ == channel_id@ && r->Ok_0.connection == connection
                        && r->Ok_0.message@ == GatewayMessageView::RelayOpen(request),
                    Err(status) => r is Err && r->Err_0@ == status && final(self)@ == old(self)@,
                }
            }),
    {
        match self.session_or_unavailable(sandbox_id, looked_up) {
            Err(status) => Err(status),
            Ok(connection) => {
                if self.pending_relays.len() >= MAX_PENDING_RELAYS {
                    return Err(
                        Status::of(
                            Code::ResourceExhausted,
                            "gateway relay capacity reached (256 in flight)",
                        ),
                    );
                }
                if self.pending_channel_ids(sandbox_id).len() >= MAX_PENDING_RELAYS_PER_SANDBOX {
                    let mut message = String::from_str(
                        "per-sandbox relay limit reached (32 in flight for ",
                    );
                    message.append(sandbox_id);
                    message.append(")");
                    return Err(Status::new(Code::ResourceExhausted, message));
                }
                let relay_open = RelayOpen {
                    channel_id: channel_id.clone(),
                    target: Some(target),
                    service_id,
                };
                let message = GatewayMessage::RelayOpen(relay_open.duplicate());
                self.pending_relays.insert(
                    channel_id.clone(),
                    PendingRelay {
                        waiter,
                        sandbox_id: sandbox_id.to_owned(),
                        relay_open,
                        created_at: now,
                    },
                );
                Ok(OpenedRelay { channel_id, connection, message })
            },
        }
    }

    /// Asks for a relay on a new channel.
    pub fn open_relay_with_target(
        &mut self,
        sandbox_id: &str,
        target: RelayTarget,
        service_id: String,
        waiter: u64,
        now: u128,
        looked_up: &Result<Option<LivenessRecord>, LivenessError>,
    ) -> (r: Result<OpenedRelay, Status>)
        ensures
            match session_or_refusal(old(self)@, sandbox_id@, lookup_view(*looked_up)) {
                Err(status) => r is Err && r->Err_0@ == status && final(self)@ == old(self)@,
                Ok(connection) => match relay_refusal(old(self)@.pending, sandbox_id@) {
                    Some(status) => r is Err && r->Err_0@ == status && final(self)@ == old(self)@,
                    None => {
                        let request = relay_request(
                            r->Ok_0.channel_id@,
                            target@,
                            service_id@,
                        );
                        &&& r is Ok
                        &&& is_random_uuid(r->Ok_0.channel_id@)
                        &&& r->Ok_0.connection == connection
                        &&& r->Ok_0.message@ == GatewayMessageView::RelayOpen(request)
                        &&& final(self)@ == (RegistryView {
                            pending: old(self)@.pending.insert(
                                r->Ok_0.channel_id@,
                                PendingRelayView {
                                    waiter,
                                    sandbox_id: sandbox_id@,
                                    relay_open: request,
                                    created_at: now,
                                },
                            ),
                            ..old(self)@
                        })
                    },
                },
            },
    {
        let channel_id = random_uuid();
        self.open_relay_on_channel(
            sandbox_id,
            target,
            service_id,
            channel_id,
            waiter,
            now,
            looked_up,
        )
    }

    /// Asks for a relay to the SSH server of a sandbox, on a new channel.
    pub fn open_relay(
        &mut self,
        sandbox_id: &str,
        waiter: u64,
        now: u128,
        looked_up: &Result<Option<LivenessRecord>, LivenessError>,
    ) -> (r: Result<OpenedRelay, Status>)
        ensures
            match session_or_refusal(old(self)@, sandbox_id@, lookup_view(*looked_up)) {
                Err(status) => r is Err && r->Err_0@ == status && final(self)@ == old(self)@,
                Ok(connection) => match relay_refusal(old(self)@.pending, sandbox_id@) {
                    Some(status) => r is Err && r->Err_0@ == status && final(self)@ == old(self)@,
                    None => {
                        let request = relay_request(
                            r->Ok_0.channel_id@,
                            RelayTargetView::Ssh,
                            Seq::empty(),
                        );
                        &&& r is Ok
                        &&& is_random_uuid(r->Ok_0.channel_id@)
                        &&& r->Ok_0.connection == connection
                        &&& r->Ok_0.message@ == GatewayMessageView::RelayOpen(request)
                        &&& final(self)@ == (RegistryView {
                            pending: old(self)@.pending.insert(
                                r->Ok_0.channel_id@,
                                PendingRelayView {
                                    waiter,
                                    sandbox_id: sandbox_id@,
                                    relay_open: request,
                                    created_at: now,
                                },
                            ),
                            ..old(self)@
                        })
                    },
                },
            },
    {
        self.open_relay_with_target(
            sandbox_id,
            RelayTarget::Ssh,
            String::new(),
            waiter,
            now,
            looked_up,
        )
    }

    /// The request for a relay could not be sent: the session went away in between, and the
    /// relay no longer waits.
    pub fn relay_not_sent(&mut self, channel_id: &str) -> (r: Status)
        ensures
            final(self)@ == (RegistryView {
                pending: old(self)@.pending.remove(channel_id@),
                ..old(self)@
            }),
            r@ == plain_status(Code::Unavailable, "supervisor session disconnected"@),
    {
        self.pending_relays.remove(channel_id);
        Status::of(Code::Unavailable, "supervisor session disconnected")
    }

    /// The supervisor could not open a relay: who waits for it is told.
    pub fn fail_pending_relay(
        &mut self,
        channel_id: &str,
        error: String,
        actions: &mut Vec<SessionAction>,
    ) -> (r: bool)
        ensures
            r == old(self)@.pending.contains_key(channel_id@),
            final(self)@ == (RegistryView {
                pending: old(self)@.pending.remove(channel_id@),
                ..old(self)@
            }),
            views(final(actions)@) == (if r {
                views(old(actions)@).push(
                    SessionActionView::FailRelay {
                        waiter: old(self)@.pending[channel_id@].waiter,
                        status: plain_status(Code::Unavailable, error@),
                    },
                )
            } else {
                views(old(actions)@)
            }),
    {
        match self.pending_relays.remove(channel_id) {
            Some(relay) => {
                push_action(
                    actions,
                    SessionAction::FailRelay {
                        waiter: relay.waiter,
                        status: Status::new(Code::Unavailable, error),
                    },
                );
                true
            },
            None => false,
        }
    }

    /// Claims the relay that waits on a channel, for the supervisor that brings its stream.
    /// One that comes too late uses the relay up, and the waiter is let go.
    pub fn claim_relay(
        &mut self,
        channel_id: &str,
        principal: Option<&Principal>,
        now: u128,
        actions: &mut Vec<SessionAction>,
    ) -> (r: Result<ClaimedRelay, Status>)
        ensures
            ({
                let who = match principal {
                    Some(p) => Some(*p),
                    None => None,
                };
                let (outcome, left) = relay_claimed(old(self)@.pending, channel_id@, who, now);
                &&& claim_view(r) == outcome
                &&& final(self)@ == (RegistryView { pending: left, ..old(self)@ })
                &&& views(final(actions)@) == views(old(actions)@) + claim_actions(
                    old(self)@.pending,
                    channel_id@,
                    who,
                    now,
                )
            }),
    {
        let ghost told = views(actions@);
        proof {
            assert(told + Seq::<SessionActionView>::empty() =~= told);
        }
        let expired = match self.pending_relays.get(channel_id) {
            None => {
                return Err(Status::of(Code::NotFound, "unknown or expired relay channel"));
            },
            Some(relay) => {
                if let Some(principal) = principal {
                    match ensure_sandbox_principal_scope(principal, &relay.sandbox_id) {
                        Err(status) => {
                            return Err(status);
                        },
                        Ok(()) => {},
                    }
                }
                has_expired(relay.created_at, now)
            },
        };
        match self.pending_relays.remove(channel_id) {
            None => Err(Status::of(Code::NotFound, "unknown or expired relay channel")),
            Some(relay) => {
                if expired {
                    push_action(actions, SessionAction::DropRelay(relay.waiter));
                    proof {
                        assert(views(actions@) =~= told + seq![
                            SessionActionView::DropRelay(relay.waiter),
                        ]);
                    }
                    Err(Status::of(Code::DeadlineExceeded, "relay channel timed out"))
                } else {
                    Ok(ClaimedRelay { waiter: relay.waiter, sandbox_id: relay.sandbox_id })
                }
            },
        }
    }

    /// The channels on which relays have waited too long.
    fn expired_channel_ids(&self, now: u128) -> (r: Vec<String>)
        ensures
            lists_expired(views(r@), self@.pending, now),
    {
        let ghost pending = self@.pending;
        let ghost wanted = expired_channels(pending, now);
        let n: usize = self.pending_relays.len();
        let ghost keys = self.pending_relays.keys();
        let mut r: Vec<String> = Vec::new();
        let mut i: usize = 0;
        while i < n
            invariant
                pending == self.pending_relays@,
                wanted == expired_channels(pending, now),
                keys == self.pending_relays.keys(),
                n == keys.len(),
                crate::order::ascending(keys, crate::string_map::key_order()),
                i <= n,
                views(r@).no_duplicates(),
                forall|x: Seq<char>| #[trigger]
                    views(r@).contains(x) <==> wanted.contains(x) && keys.take(i as int).contains(
                        x,
                    ),
            decreases n - i,
        {
            let ghost before = views(r@);
            let ghost key = keys[i as int];
            proof {
                assert(keys.take(i as int + 1) =~= keys.take(i as int).push(key));
                assert forall|x: Seq<char>| #[trigger] keys.take(i as int + 1).contains(x) <==> (
                keys.take(i as int).contains(x) || x == key) by {
                    crate::order::lemma_push_members(keys.take(i as int), key, x);
                }
                if keys.take(i as int).contains(key) {
                    let j = choose|j: int| 0 <= j < i && keys[j] == key;
                    assert(crate::string_map::key_order()(keys[j], keys[i as int]));
                    crate::text::lemma_precedes_irreflexive(key);
                }
            }
            if has_expired(self.pending_relays.value_at(i).created_at, now) {
                r.push(self.pending_relays.key_at(i).clone());
                proof {
                    assert(views(r@) =~= before.push(key));
                    assert(!before.contains(key));
                    assert forall|a: int, b: int|
                        0 <= a < b < views(r@).len() implies views(r@)[a] != views(r@)[b] by {
                        if b == before.len() {
                            assert(before.contains(before[a]));
                        } else {
                            assert(before[a] != before[b]);
                        }
                    }
                    assert forall|x: Seq<char>| #[trigger]
                        views(r@).contains(x) <==> wanted.contains(x) && keys.take(
                            i as int + 1,
                        ).contains(x) by {
                        crate::order::lemma_push_members(before, key, x);
                    }
                }
            }
            i += 1;
        }
        proof {
            assert(keys.take(keys.len() as int) =~= keys);
            assert(views(r@).to_set() =~= wanted);
        }
        r
    }

    /// Drops the relays on the channels, and lets go of their waiters.
    fn drop_relays(&mut self, channels: &Vec<String>, actions: &mut Vec<SessionAction>)
        requires
            views(channels@).no_duplicates(),
            forall|k: Seq<char>| #[trigger]
                views(channels@).contains(k) ==> old(self)@.pending.contains_key(k),
        ensures
            final(self)@ == (RegistryView {
                pending: old(self)@.pending.remove_keys(views(channels@).to_set()),
                ..old(self)@
            }),
            views(final(actions)@) == views(old(actions)@) + dropped_waiters(
                views(channels@),
                old(self)@.pending,
            ),
    {
        let ghost told = views(actions@);
        let ghost all = self@.pending;
        let ghost names = views(channels@);
        let mut i: usize = 0;
        proof {
            assert(names.take(0) =~= Seq::empty());
            assert(told + dropped_waiters(names.take(0), all) =~= told);
        }
        while i < channels.len()
            invariant
                i <= channels.len(),
                names == views(channels@),
                names.no_duplicates(),
                forall|k: Seq<char>| #[trigger] names.contains(k) ==> all.contains_key(k),
                self.sessions@ == old(self)@.sessions,
                self.liveness == old(self).liveness,
                all == old(self)@.pending,
                views(actions@) == told + dropped_waiters(names.take(i as int), all),
                forall|k: Seq<char>| #[trigger]
                    self.pending_relays@.contains_key(k) <==> all.contains_key(k) && !names.take(
                        i as int,
                    ).contains(k),
                forall|k: Seq<char>| #[trigger]
                    self.pending_relays@.contains_key(k) ==> self.pending_relays@[k] == all[k],
            decreases channels.len() - i,
        {
            let ghost channel = names[i as int];
            let ghost waiting = self.pending_relays@;
            proof {
                assert(channel == channels@[i as int]@);
                assert(names.contains(channel));
                assert(names.take(i as int + 1) =~= names.take(i as int).push(channel));
                if names.take(i as int).contains(channel) {
                    let j = choose|j: int| 0 <= j < i && names[j] == channel;
                    assert(names[j] != names[i as int]);
                }
                assert forall|k: Seq<char>| #[trigger] names.take(i as int + 1).contains(k) <==> (
                names.take(i as int).contains(k) || k == channel) by {
                    crate::order::lemma_push_members(names.take(i as int), channel, k);
                }
            }
            match self.pending_relays.remove(&channels[i]) {
                Some(relay) => {
                    push_action(actions, SessionAction::DropRelay(relay.waiter));
                },
                None => {},
            }
            proof {
                assert(views(actions@) =~= told + dropped_waiters(names.take(i as int + 1), all));
                assert forall|k: Seq<char>| #[trigger] self.pending_relays@.contains_key(k)
                    <==> all.contains_key(k) && !names.take(i as int + 1).contains(k) by {
                    assert(waiting.contains_key(k) <==> all.contains_key(k) && !names.take(
                        i as int,
                    ).contains(k));
                }
            }
            i += 1;
        }
        proof {
            assert(names.take(names.len() as int) =~= names);
            let left = all.remove_keys(names.to_set());
            assert forall|k: Seq<char>| #[trigger] self.pending_relays@.contains_key(k)
                <==> left.contains_key(k) by {
                assert(names.to_set().contains(k) <==> names.contains(k));
            }
            assert(self.pending_relays@ =~= left);
        }
    }

    /// Drops the relays that have waited too long, and lets go of their waiters.
    pub fn reap_expired_relays(&mut self, now: u128, actions: &mut Vec<SessionAction>)
        ensures
            final(self)@ == (RegistryView {
                pending: unexpired(old(self)@.pending, now),
                ..old(self)@
            }),
            exists|channels: Seq<Seq<char>>| #[trigger]
                lists_expired(channels, old(self)@.pending, now) && views(final(actions)@) == views(
                    old(actions)@,
                ) + dropped_waiters(channels, old(self)@.pending),
    {
        let ghost all = self@.pending;
        let expired = self.expired_channel_ids(now);
        proof {
            assert forall|k: Seq<char>| #[trigger] views(expired@).contains(k) implies all.contains_key(
                k,
            ) by {
                assert(views(expired@).to_set().contains(k));
            }
        }
        self.drop_relays(&expired, actions);
        proof {
            assert(self@.pending =~= unexpired(all, now));
        }
    }

    /// Forgets a sandbox: its session, whose row is withdrawn, and its relays, whose waiters
    /// are let go.
    pub fn cleanup_sandbox(&mut self, sandbox_id: &str, actions: &mut Vec<SessionAction>)
        ensures
            final(self)@ == (RegistryView {
                sessions: old(self)@.sessions.remove(sandbox_id@),
                pending: relays_of_others(old(self)@.pending, sandbox_id@),
                ..old(self)@
            }),
            exists|channels: Seq<Seq<char>>| #[trigger]
                lists_channels(channels, old(self)@.pending, sandbox_id@) && views(final(actions)@)
                    == views(old(actions)@) + forgotten_session(old(self)@, sandbox_id@)
                    + dropped_waiters(channels, old(self)@.pending),
    {
        let ghost told = views(actions@);
        let ghost all = self@.pending;
        let ghost ended = forgotten_session(self@, sandbox_id@);
        let channels = self.pending_channel_ids(sandbox_id);
        match self.remove(sandbox_id) {
            Some(session_id) => {
                if self.liveness.is_some() {
                    push_action(
                        actions,
                        SessionAction::WithdrawLiveness {
                            sandbox_id: sandbox_id.to_owned(),
                            session_id,
                        },
                    );
                }
            },
            None => {},
        }
        proof {
            assert(views(actions@) =~= told + ended);
            assert forall|k: Seq<char>| #[trigger]
                views(channels@).contains(k) implies all.contains_key(k) by {
                assert(views(channels@).to_set().contains(k));
            }
        }
        self.drop_relays(&channels, actions);
        proof {
            assert(self@.pending =~= relays_of_others(all, sandbox_id@));
        }
    }

    /// The requests for the relays of a sandbox that wait, for a session that took the
    /// place of the one they were sent on.
    pub fn replay_pending_relays(&self, sandbox_id: &str) -> (r: Vec<GatewayMessage>)
        ensures
            exists|channels: Seq<Seq<char>>| #[trigger]
                lists_channels(channels, self@.pending, sandbox_id@) && views(r@)
                    == relay_requests(channels, self@.pending),
    {
        let channels = self.pending_channel_ids(sandbox_id);
        let ghost wanted = channels_of(self@.pending, sandbox_id@);
        let ghost pending = self@.pending;
        let mut r: Vec<GatewayMessage> = Vec::new();
        let mut i: usize = 0;
        while i < channels.len()
            invariant
                pending == self.pending_relays@,
                wanted == channels_of(pending, sandbox_id@),
                views(channels@).to_set() == wanted,
                i <= channels.len(),
                r.len() == i,
                forall|j: int|
                    0 <= j < i ==> (#[trigger] r@[j])@ == GatewayMessageView::RelayOpen(
                        pending[channels@[j]@].relay_open,
                    ),
            decreases channels.len() - i,
        {
            proof {
                assert(views(channels@)[i as int] == channels@[i as int]@);
                assert(views(channels@).to_set().contains(channels@[i as int]@));
            }
            let relay = self.pending_relays.get(&channels[i]).unwrap();
            r.push(GatewayMessage::RelayOpen(relay.relay_open.duplicate()));
            i += 1;
        }
        proof {
            assert(views(r@) =~= relay_requests(views(channels@), pending));
            assert(lists_channels(views(channels@), pending, sandbox_id@));
        }
        r
    }

    /// The liveness rows of this replica.
    pub fn liveness(&self) -> (r: &Option<SessionLiveness>)
        ensures
            *r == self@.liveness,
    {
        &self.liveness
    }
}

/// The stream of a claimed relay was handed to who waits for it, or no one waits any more.
pub fn claim_delivered(claimed: ClaimedRelay, delivered: bool) -> (r: Result<ClaimedRelay, Status>)
    ensures
        claim_view(r) == (if delivered {
            Ok((claimed.waiter, claimed.sandbox_id@))
        } else {
            Err(plain_status(Code::Internal, "relay requester dropped"@))
        }),
{
    if delivered {
        Ok(claimed)
    } else {
        Err(Status::of(Code::Internal, "relay requester dropped"))
    }
}

} // verus!
