//! What each request of a supervisor, and each request for one, does to a replica.
use vstd::prelude::*;

use crate::session_liveness::{LivenessRecordView, SessionLiveness};
use crate::status::Code;
use crate::supervisor_flow::{
    connect_step, hello_refusal, is_terminating, message_effect, named_channel, relayed_bytes,
    report_refusal, sandbox_refusal, session_step, ConnectActionView, ConnectEvent, ConnectPhase,
    ConnectionView, RelayFrame, Sandbox, SandboxPhase, SessionEvent, SessionStep, StopReason,
    SupervisorMessage,
};
use crate::supervisor_session::{
    channels_of, forgotten_session, header_char, in_scope, lists_channels, redirect_address,
    relay_claimed, relay_opened, relay_requests, relays_of_others, session_or_refusal, unexpired,
    GatewayMessageView, PendingRelayView, Principal, RegistryView, SessionActionView,
};
use crate::text::trimmed;

verus! {

// Principals.
/// The principal speaks for the sandbox: it is the sandbox's own.
pub open spec fn speaks_for(principal: Principal, sandbox_id: Seq<char>) -> bool {
    principal is Sandbox && principal->Sandbox_sandbox_id@ == sandbox_id
}

/// Only the supervisor of a sandbox is in its scope: no user is, and no other sandbox.
pub proof fn law_only_the_own_supervisor_is_in_scope(principal: Principal, sandbox_id: Seq<char>)
    ensures
        in_scope(principal, sandbox_id) <==> speaks_for(principal, sandbox_id),
{
}

// Relays.
/// A relay is opened exactly if the sandbox has a session here and neither the replica nor the
/// sandbox has as many waiting as it may. It then waits on its channel, is asked for on the
/// connection of that session, and changes nothing else.
pub proof fn law_relays_open_on_the_session(
    v: RegistryView,
    sandbox_id: Seq<char>,
    looked_up: Result<Option<LivenessRecordView>, ()>,
    relay: PendingRelayView,
    channel_id: Seq<char>,
    other: Seq<char>,
)
    ensures
        ({
            let opened = relay_opened(v, sandbox_id, looked_up, relay, channel_id);
            &&& opened is Ok <==> v.sessions.contains_key(sandbox_id) && v.pending.dom().len() < 256
                && channels_of(v.pending, sandbox_id).len() < 32
            &&& opened is Ok ==> {
                let (connection, after) = opened->Ok_0;
                &&& connection == v.sessions[sandbox_id].connection
                &&& after.sessions == v.sessions
                &&& after.liveness == v.liveness
                &&& after.pending.contains_key(channel_id)
                &&& after.pending[channel_id] == relay
                &&& other != channel_id ==> (after.pending.contains_key(other)
                    <==> v.pending.contains_key(other))
                &&& other != channel_id && v.pending.contains_key(other) ==> after.pending[other]
                    == v.pending[other]
            }
            &&& opened is Err && v.sessions.contains_key(sandbox_id) ==> opened->Err_0.code
                == Code::ResourceExhausted
            &&& opened is Err && !v.sessions.contains_key(sandbox_id) ==> opened->Err_0.code
                == Code::Unavailable
        }),
{
}

/// A relay is claimed exactly if it waits, the claimant may have it, and it is not more than
/// ten seconds old. The claim gives who waits and for which sandbox, and takes that relay away
/// and no other. Whoever may not have it leaves everything as it is.
pub proof fn law_relays_are_claimed_by_their_sandbox(
    pending: Map<Seq<char>, PendingRelayView>,
    channel_id: Seq<char>,
    principal: Option<Principal>,
    now: u128,
    other: Seq<char>,
)
    ensures
        ({
            let (outcome, left) = relay_claimed(pending, channel_id, principal, now);
            let relay = pending[channel_id];
            let waits = pending.contains_key(channel_id);
            let may = principal is None || speaks_for(principal->0, relay.sandbox_id);
            let late = now - relay.created_at > 10_000_000_000;
            &&& outcome is Ok <==> waits && may && !late
            &&& outcome is Ok ==> outcome->Ok_0 == (relay.waiter, relay.sandbox_id)
            &&& !waits ==> outcome->Err_0.code == Code::NotFound && left == pending
            &&& waits && !may ==> outcome->Err_0.code == Code::PermissionDenied && left == pending
            &&& waits && may && late ==> outcome->Err_0.code == Code::DeadlineExceeded
            &&& waits && may ==> !left.contains_key(channel_id)
            &&& other != channel_id ==> (left.contains_key(other) <==> pending.contains_key(other))
            &&& other != channel_id && pending.contains_key(other) ==> left[other] == pending[other]
        }),
{
}

/// Reaping leaves every relay that is not more than ten seconds old as it is, and no other.
pub proof fn law_reaping_leaves_the_recent(
    pending: Map<Seq<char>, PendingRelayView>,
    now: u128,
    channel_id: Seq<char>,
)
    ensures
        unexpired(pending, now).contains_key(channel_id) <==> pending.contains_key(channel_id)
            && now - pending[channel_id].created_at <= 10_000_000_000,
        unexpired(pending, now).contains_key(channel_id) ==> unexpired(pending, now)[channel_id]
            == pending[channel_id],
{
}

/// Every relay of the sandbox that waits is asked for again, with the request that it was first
/// asked for with, once, and no relay of another sandbox is.
pub proof fn law_every_waiting_relay_is_asked_for_again(
    pending: Map<Seq<char>, PendingRelayView>,
    sandbox_id: Seq<char>,
    channels: Seq<Seq<char>>,
    channel_id: Seq<char>,
    i: int,
)
    requires
        lists_channels(channels, pending, sandbox_id),
    ensures
        relay_requests(channels, pending).len() == channels.len(),
        pending.contains_key(channel_id) && pending[channel_id].sandbox_id == sandbox_id
            <==> exists|j: int| 0 <= j < channels.len() && #[trigger] channels[j] == channel_id,
        0 <= i < channels.len() ==> relay_requests(channels, pending)[i]
            == GatewayMessageView::RelayOpen(pending[channels[i]].relay_open)
            && pending.contains_key(channels[i]) && pending[channels[i]].sandbox_id == sandbox_id,
{
    assert(channels.to_set().contains(channel_id) <==> channels.contains(channel_id));
    if 0 <= i < channels.len() {
        assert(channels.contains(channels[i]));
        assert(channels.to_set().contains(channels[i]));
    }
}

/// Forgetting a sandbox withdraws the row of its session, where rows are kept, and nothing
/// else; the relays of every other sandbox stay as they are.
pub proof fn law_forgetting_withdraws_the_row(
    v: RegistryView,
    sandbox_id: Seq<char>,
    channel_id: Seq<char>,
)
    ensures
        forgotten_session(v, sandbox_id).len() == (if v.sessions.contains_key(sandbox_id)
            && v.liveness is Some {
            1int
        } else {
            0
        }),
        v.sessions.contains_key(sandbox_id) && v.liveness is Some ==> forgotten_session(
            v,
            sandbox_id,
        )[0] == (SessionActionView::WithdrawLiveness {
            sandbox_id,
            session_id: v.sessions[sandbox_id].session_id,
        }),
        relays_of_others(v.pending, sandbox_id).contains_key(channel_id)
            <==> v.pending.contains_key(channel_id) && v.pending[channel_id].sandbox_id
            != sandbox_id,
        relays_of_others(v.pending, sandbox_id).contains_key(channel_id) ==> relays_of_others(
            v.pending,
            sandbox_id,
        )[channel_id] == v.pending[channel_id],
{
}

// Redirects.
/// A caller is sent on exactly if the row names another replica, under an address that is not
/// our own and that a header can carry; white space around it does not count.
pub proof fn law_callers_are_sent_to_the_holder(
    v: RegistryView,
    sandbox_id: Seq<char>,
    own: SessionLiveness,
    record: LivenessRecordView,
)
    requires
        !v.sessions.contains_key(sandbox_id),
        v.liveness == Some(own),
    ensures
        ({
            let address = trimmed(record.advertise_address);
            let refusal = session_or_refusal(v, sandbox_id, Ok(Some(record)))->Err_0;
            let sent = record.replica_id != own.replica() && address.len() > 0 && address
                != own.address() && forall|i: int|
                0 <= i < address.len() ==> header_char(#[trigger] address[i]);
            let key = crate::session_liveness::SERVING_REPLICA_METADATA_KEY@;
            &&& session_or_refusal(v, sandbox_id, Ok(Some(record))) is Err
            &&& refusal.code == Code::Unavailable
            &&& refusal.metadata.dom().len() == if sent {
                1int
            } else {
                0
            }
            &&& sent ==> refusal.metadata.contains_key(key) && refusal.metadata[key] == address
            &&& sent ==> address.is_suffix_of(refusal.message)
            &&& !sent ==> refusal.message == "supervisor session not connected"@
        }),
{
    let address = trimmed(record.advertise_address);
    let refusal = session_or_refusal(v, sandbox_id, Ok(Some(record)))->Err_0;
    let key = crate::session_liveness::SERVING_REPLICA_METADATA_KEY@;
    match redirect_address(own, record) {
        Some(to) => {
            assert(refusal.metadata.contains_key(key) && refusal.metadata[key] == address);
            assert(refusal.metadata.dom() =~= set![key]);
            let m = refusal.message;
            assert(m.subrange(m.len() - address.len(), m.len() as int) =~= address);
        },
        None => {
            assert(refusal.metadata.dom() =~= Set::empty());
        },
    }
}

/// A character that a header cannot carry is a control character other than the tab.
pub proof fn law_headers_carry_all_but_controls(c: char)
    ensures
        header_char(c) <==> c == '\t' || (c >= ' ' && c as u32 != 0x7f),
{
}

// Connecting.
/// A first message is taken exactly if it is an introduction that names a sandbox, and if the
/// sender, where one is known, speaks for that sandbox.
pub proof fn law_introductions_name_their_sandbox(
    first: Option<SupervisorMessage>,
    principal: Option<&Principal>,
)
    ensures
        hello_refusal(first, principal) is None <==> {
            &&& first is Some
            &&& first->0.payload is Some
            &&& first->0.payload->0 is Hello
            &&& first->0.payload->0->Hello_0.sandbox_id@.len() > 0
            &&& principal is None || speaks_for(
                *principal->0,
                first->0.payload->0->Hello_0.sandbox_id@,
            )
        },
        hello_refusal(first, principal) is Some ==> hello_refusal(first, principal)->0.code
            == Code::InvalidArgument || hello_refusal(first, principal)->0.code
            == Code::PermissionDenied,
{
}

/// Whoever introduces itself is from then on spoken of as it did, and its sandbox is looked
/// for; whoever is refused is told so, and nothing is registered.
pub proof fn law_introductions_are_followed_up(
    c: ConnectionView,
    v: RegistryView,
    first: Option<SupervisorMessage>,
    principal: Option<&Principal>,
    after: ConnectionView,
    registry: RegistryView,
    actions: Seq<ConnectActionView>,
)
    requires
        c.phase == ConnectPhase::Hello,
        connect_step(c, v, ConnectEvent::Hello { first, principal }, after, registry, actions),
    ensures
        registry == v,
        actions.len() == 1,
        actions[0] is FindSandbox || actions[0] is Refuse,
        actions[0] is FindSandbox <==> hello_refusal(first, principal) is None,
        actions[0] is FindSandbox ==> {
            &&& after.phase == ConnectPhase::Sandbox
            &&& after.sandbox_id == first->0.payload->0->Hello_0.sandbox_id@
            &&& after.instance_id == first->0.payload->0->Hello_0.instance_id@
        },
        actions[0] is Refuse ==> after.phase == ConnectPhase::Ended && actions[0]->Refuse_0
            == hello_refusal(first, principal)->0,
{
}

/// A sandbox that is in the store gets its session: the session is the one that the registry
/// then has for the sandbox, on the connection that was given, and the one that the supervisor
/// is told of. A session that was there before is told to end, and no other is.
pub proof fn law_accepted_session_is_the_registered_one(
    c: ConnectionView,
    v: RegistryView,
    found: Result<bool, String>,
    connection: u64,
    after: ConnectionView,
    registry: RegistryView,
    actions: Seq<ConnectActionView>,
)
    requires
        c.phase == ConnectPhase::Sandbox,
        connect_step(
            c,
            v,
            ConnectEvent::SandboxFound { found, connection },
            after,
            registry,
            actions,
        ),
    ensures
        after.sandbox_id == c.sandbox_id && after.instance_id == c.instance_id,
        found != Ok::<bool, String>(true) ==> {
            &&& after.phase == ConnectPhase::Ended
            &&& registry == v
            &&& actions.len() == 1 && actions[0] is Refuse
            &&& found is Err ==> actions[0]->Refuse_0.code == Code::Internal
            &&& found is Ok ==> actions[0]->Refuse_0.code == Code::NotFound
        },
        found == Ok::<bool, String>(true) ==> {
            let had = v.sessions.contains_key(c.sandbox_id);
            let n: int = if had {
                1
            } else {
                0
            };
            &&& after.phase == ConnectPhase::Accepted
            &&& after.connection == connection
            &&& after.superseded == had
            &&& registry.sessions.contains_key(c.sandbox_id)
            &&& registry.sessions[c.sandbox_id].session_id == after.session_id
            &&& registry.sessions[c.sandbox_id].connection == connection
            &&& !registry.sessions[c.sandbox_id].terminal_delivery_finalized
            &&& actions.len() == n + 2
            &&& had ==> actions[0] == ConnectActionView::Session(
                SessionActionView::Shutdown(v.sessions[c.sandbox_id].connection),
            )
            &&& actions[n] is StartRenewal
            &&& actions[n + 1] is Send
            &&& actions[n + 1]->Send_0 == (GatewayMessageView::SessionAccepted {
                session_id: after.session_id,
                heartbeat_interval_secs: 15,
            })
        },
{
    if found == Ok::<bool, String>(true) {
        assert(sandbox_refusal(found) is None);
    }
}

/// A session whose acceptance could not be sent is taken out again, unless another has its
/// place already, and the request is refused. One whose acceptance was sent goes on: relays
/// that wait are asked for again if it took another's place, and the sandbox is marked.
pub proof fn law_acceptance_is_sent_or_undone(
    c: ConnectionView,
    v: RegistryView,
    sent: bool,
    after: ConnectionView,
    registry: RegistryView,
    actions: Seq<ConnectActionView>,
)
    requires
        c.phase == ConnectPhase::Accepted,
        connect_step(c, v, ConnectEvent::AcceptedSent(sent), after, registry, actions),
    ensures
        sent ==> {
            &&& registry == v
            &&& after == (ConnectionView { phase: ConnectPhase::Ready, ..c })
            &&& actions.last() is MarkConnected
            &&& actions.len() == if c.superseded {
                2int
            } else {
                1
            }
            &&& c.superseded ==> actions[0] is Replay && exists|channels: Seq<Seq<char>>|
                #[trigger] lists_channels(channels, v.pending, c.sandbox_id)
                    && actions[0]->Replay_0 == relay_requests(channels, v.pending)
        },
        !sent ==> {
            &&& after.phase == ConnectPhase::Ended
            &&& actions.last() is Refuse
            &&& actions.contains(ConnectActionView::Withdraw)
            &&& registry.pending == v.pending
            &&& v.sessions.contains_key(c.sandbox_id) && v.sessions[c.sandbox_id].session_id
                == c.session_id ==> !registry.sessions.contains_key(c.sandbox_id)
            &&& !(v.sessions.contains_key(c.sandbox_id) && v.sessions[c.sandbox_id].session_id
                == c.session_id) ==> registry == v
        },
{
    if !sent {
        assert(actions[1] == ConnectActionView::Withdraw);
    }
}

/// A session serves whether or not its sandbox could be marked, and is counted only if it was.
/// When it ends, renewing stops before its row is withdrawn.
pub proof fn law_sessions_serve_and_end_in_order(
    c: ConnectionView,
    v: RegistryView,
    event: ConnectEvent,
    after: ConnectionView,
    registry: RegistryView,
    actions: Seq<ConnectActionView>,
)
    requires
        connect_step(c, v, event, after, registry, actions),
        (c.phase == ConnectPhase::Ready && event is MarkedConnected) || (c.phase
            == ConnectPhase::Serving && event is SessionEnded),
    ensures
        registry == v,
        c.phase == ConnectPhase::Ready ==> {
            &&& after == (ConnectionView { phase: ConnectPhase::Serving, ..c })
            &&& actions.last() is Serve
            &&& actions.len() == if event->MarkedConnected_0 {
                2int
            } else {
                1
            }
            &&& event->MarkedConnected_0 ==> actions[0] is CountConnected
        },
        c.phase == ConnectPhase::Serving ==> {
            &&& after == (ConnectionView { phase: ConnectPhase::Withdrawn, ..c })
            &&& actions.len() == 2
            &&& actions[0] is StopRenewal
            &&& actions[1] is Withdraw
        },
{
}

/// Once its row is withdrawn, a session that is still the sandbox's is taken out, its end is
/// counted, and the rows are looked at; a session whose place was taken changes nothing. What
/// the rows say, and whether all was delivered, is then told.
pub proof fn law_the_end_of_a_session_is_told(
    c: ConnectionView,
    v: RegistryView,
    event: ConnectEvent,
    after: ConnectionView,
    registry: RegistryView,
    actions: Seq<ConnectActionView>,
)
    requires
        connect_step(c, v, event, after, registry, actions),
        (c.phase == ConnectPhase::Withdrawn && event is RowWithdrawn) || (c.phase
            == ConnectPhase::Peers && event is PeersFound),
    ensures
        c.phase == ConnectPhase::Withdrawn ==> {
            let own = v.sessions.contains_key(c.sandbox_id) && v.sessions[c.sandbox_id].session_id
                == c.session_id;
            &&& own ==> {
                &&& after.phase == ConnectPhase::Peers
                &&& after.terminal_finalized
                    == v.sessions[c.sandbox_id].terminal_delivery_finalized
                &&& !registry.sessions.contains_key(c.sandbox_id)
                &&& registry.pending == v.pending
                &&& actions.len() == 2 && actions[0] is CountDisconnected && actions[1] is FindPeers
            }
            &&& !own ==> after.phase == ConnectPhase::Ended && registry == v && actions.len() == 0
        },
        c.phase == ConnectPhase::Peers ==> {
            &&& after.phase == ConnectPhase::Ended
            &&& registry == v
            &&& actions.len() == 1
            &&& actions[0] is MarkDisconnected
            &&& actions[0]->MarkDisconnected_peers == event->PeersFound_0
            &&& actions[0]->MarkDisconnected_terminal_finalized == c.terminal_finalized
        },
{
}

/// What comes out of turn changes nothing, and a connection that has ended asks for nothing.
pub proof fn law_events_out_of_turn_change_nothing(
    c: ConnectionView,
    v: RegistryView,
    event: ConnectEvent,
    after: ConnectionView,
    registry: RegistryView,
    actions: Seq<ConnectActionView>,
)
    requires
        connect_step(c, v, event, after, registry, actions),
        !(c.phase == ConnectPhase::Hello && event is Hello),
        !(c.phase == ConnectPhase::Sandbox && event is SandboxFound),
        !(c.phase == ConnectPhase::Accepted && event is AcceptedSent),
        !(c.phase == ConnectPhase::Ready && event is MarkedConnected),
        !(c.phase == ConnectPhase::Serving && event is SessionEnded),
        !(c.phase == ConnectPhase::Withdrawn && event is RowWithdrawn),
        !(c.phase == ConnectPhase::Peers && event is PeersFound),
    ensures
        after == c,
        registry == v,
        actions.len() == 0,
{
}

// Serving.
/// A relay that the supervisor could not open no longer waits, and who waits for it is told why;
/// no other message changes anything.
pub proof fn law_only_failed_relays_are_given_up(
    v: RegistryView,
    message: SupervisorMessage,
    channel_id: Seq<char>,
)
    ensures
        ({
            let (after, actions) = message_effect(v, message);
            let result = message.payload->0;
            let failed = message.payload is Some && result is RelayOpenResult
                && !result->RelayOpenResult_success
                && result->RelayOpenResult_channel_id@ == channel_id;
            &&& after.sessions == v.sessions
            &&& after.liveness == v.liveness
            &&& after.pending.contains_key(channel_id) <==> v.pending.contains_key(channel_id)
                && !failed
            &&& after.pending.contains_key(channel_id) ==> after.pending[channel_id]
                == v.pending[channel_id]
            &&& failed && v.pending.contains_key(channel_id) ==> {
                &&& actions.len() == 1
                &&& actions[0] is FailRelay
                &&& actions[0]->FailRelay_waiter == v.pending[channel_id].waiter
                &&& actions[0]->FailRelay_status.code == Code::Unavailable
                &&& actions[0]->FailRelay_status.message == result->RelayOpenResult_error@
            }
            &&& after == v ==> actions.len() == 0
        }),
{
    let (after, actions) = message_effect(v, message);
    if actions.len() > 0 {
        let failed = message.payload->0->RelayOpenResult_channel_id@;
        assert(v.pending.contains_key(failed) && !after.pending.contains_key(failed));
    }
}

/// A session goes on until another takes its place, its stream ends or fails, or a heartbeat
/// cannot be sent. The end of a stream is expected exactly if it looks like a closed transport
/// and the gateway, the sandbox or the session is on its way out.
pub proof fn law_sessions_go_on_until_they_end(
    v: RegistryView,
    sandbox_id: Seq<char>,
    session_id: Seq<char>,
    event: SessionEvent,
)
    ensures
        ({
            let step = session_step(v, sandbox_id, session_id, event);
            let current = v.sessions.contains_key(sandbox_id) && v.sessions[sandbox_id].session_id
                == session_id;
            &&& step is Stop <==> event is Superseded || event is Closed || event is Failed || event
                == SessionEvent::HeartbeatSent(false)
            &&& step is SendHeartbeat <==> event is HeartbeatDue
            &&& event is Superseded ==> step == SessionStep::Stop(StopReason::Superseded)
            &&& event is Closed ==> step == SessionStep::Stop(StopReason::ClosedBySupervisor)
            &&& event is HeartbeatSent && step is Stop ==> step == SessionStep::Stop(
                StopReason::OutboundClosed,
            )
            &&& event is Failed ==> (step == SessionStep::Stop(StopReason::ExpectedClose)
                <==> event->closed_transport && (event->gateway_shutting_down
                || event->sandbox_terminating_or_gone || !current))
            &&& event is Failed && step != SessionStep::Stop(StopReason::ExpectedClose) ==> step
                == SessionStep::Stop(StopReason::StreamError)
        }),
{
}

/// A sandbox is on its way out if it is being deleted, or if its deletion was asked for.
pub proof fn law_deletion_is_seen_either_way(sandbox: Sandbox)
    ensures
        sandbox.phase == Some(SandboxPhase::Deleting) ==> is_terminating(sandbox),
        sandbox.deletion_timestamp_ms is Some && sandbox.deletion_timestamp_ms->0 != 0
            ==> is_terminating(sandbox),
        sandbox.phase != Some(SandboxPhase::Deleting) && (sandbox.deletion_timestamp_ms is None
            || sandbox.deletion_timestamp_ms->0 == 0) ==> !is_terminating(sandbox),
{
}

// Relayed streams and reports.
/// A relayed stream is taken exactly if its first frame names a channel, and then for that
/// channel.
pub proof fn law_relayed_streams_name_their_channel(first: Option<RelayFrame>)
    ensures
        ({
            let init = first is Some && first->0.payload is Some && first->0.payload->0 is Init;
            &&& named_channel(first) is Ok <==> init
                && first->0.payload->0->Init_channel_id@.len() > 0
            &&& named_channel(first) is Ok ==> named_channel(first)->Ok_0
                == first->0.payload->0->Init_channel_id@
            &&& named_channel(first) is Err ==> named_channel(first)->Err_0.code
                == Code::InvalidArgument
        }),
{
}

/// The bytes of a stream end at the first frame that is no data, and what follows it does not
/// matter; the bytes of data frames stand one after the other.
pub proof fn law_relayed_bytes_end_with_the_data(
    frames: Seq<RelayFrame>,
    end: RelayFrame,
    more: Seq<RelayFrame>,
)
    requires
        end.payload is None || end.payload->0 is Init,
        forall|i: int|
            0 <= i < frames.len() ==> (#[trigger] frames[i]).payload is Some
                && frames[i].payload->0 is Data,
    ensures
        relayed_bytes(frames + seq![end] + more) == relayed_bytes(frames),
    decreases frames.len(),
{
    let all = frames + seq![end] + more;
    if frames.len() > 0 {
        let rest = frames.skip(1);
        assert forall|i: int| 0 <= i < rest.len() implies (#[trigger] rest[i]).payload is Some
            && rest[i].payload->0 is Data by {
            assert(rest[i] == frames[i + 1]);
        }
        law_relayed_bytes_end_with_the_data(rest, end, more);
        assert(all.skip(1) =~= rest + seq![end] + more);
        assert(all[0] == frames[0]);
    } else {
        assert(all[0] == end);
    }
}

/// A report is taken exactly if it names a sandbox and an instance, and if the sender, where
/// one is known, speaks for that sandbox.
pub proof fn law_reports_name_sandbox_and_instance(
    sandbox_id: Seq<char>,
    instance_id: Seq<char>,
    principal: Option<&Principal>,
)
    ensures
        report_refusal(sandbox_id, instance_id, principal) is None <==> sandbox_id.len() > 0
            && instance_id.len() > 0 && (principal is None || speaks_for(
            *principal->0,
            sandbox_id,
        )),
        report_refusal(sandbox_id, instance_id, principal) is Some && sandbox_id.len() > 0
            && instance_id.len() > 0 ==> report_refusal(sandbox_id, instance_id, principal)->0.code
            == Code::PermissionDenied,
        sandbox_id.len() == 0 || instance_id.len() == 0 ==> report_refusal(
            sandbox_id,
            instance_id,
            principal,
        )->0.code == Code::InvalidArgument,
{
}

} // verus!
