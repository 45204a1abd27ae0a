//! What holds of the supervisor sessions and relays of a replica.
use vstd::prelude::*;

use crate::session_liveness::{
    is_freshest, law_replicas_have_rows_of_their_own, own_row_condition, row_age, row_key,
    withdrawable, wrapped_status, LivenessRecordView, SessionLiveness, WriteCondition,
    SERVING_REPLICA_METADATA_KEY,
};
use crate::status::{Code, StatusView};
use crate::supervisor_session::{
    channels_of, claim_actions, dropped_waiters, in_scope, is_current, lists_expired, out_of_scope,
    redirect_address, redirect_status, relay_claimed, relay_opened, relays_of_others,
    session_or_refusal, unexpired, LiveSessionView, PendingRelayView, Principal, RegistryView,
    SessionActionView, MAX_PENDING_RELAYS, MAX_PENDING_RELAYS_PER_SANDBOX,
};

verus! {

/// No more relays wait than may, in all and for each sandbox.
pub open spec fn within_limits(pending: Map<Seq<char>, PendingRelayView>) -> bool {
    &&& pending.dom().finite()
    &&& pending.dom().len() <= MAX_PENDING_RELAYS
    &&& forall|sandbox_id: Seq<char>|
        (#[trigger] channels_of(pending, sandbox_id)).len() <= MAX_PENDING_RELAYS_PER_SANDBOX
}

proof fn lemma_channels_of_fewer(
    fewer: Map<Seq<char>, PendingRelayView>,
    pending: Map<Seq<char>, PendingRelayView>,
)
    requires
        within_limits(pending),
        fewer.dom().subset_of(pending.dom()),
        forall|k: Seq<char>| #[trigger] fewer.contains_key(k) ==> fewer[k] == pending[k],
    ensures
        within_limits(fewer),
{
    vstd::set_lib::lemma_len_subset(fewer.dom(), pending.dom());
    assert forall|sandbox_id: Seq<char>|
        (#[trigger] channels_of(fewer, sandbox_id)).len() <= MAX_PENDING_RELAYS_PER_SANDBOX by {
        assert(channels_of(fewer, sandbox_id).subset_of(channels_of(pending, sandbox_id)));
        assert(channels_of(pending, sandbox_id).finite());
        vstd::set_lib::lemma_len_subset(
            channels_of(fewer, sandbox_id),
            channels_of(pending, sandbox_id),
        );
    }
}

/// Relays stay within their limits, whoever opens, claims, fails or drops them.
pub proof fn law_relays_stay_within_limits(
    v: RegistryView,
    sandbox_id: Seq<char>,
    looked_up: Result<Option<LivenessRecordView>, ()>,
    relay: PendingRelayView,
    channel_id: Seq<char>,
    principal: Option<Principal>,
    now: u128,
)
    requires
        within_limits(v.pending),
        relay.sandbox_id == sandbox_id,
    ensures
        relay_opened(v, sandbox_id, looked_up, relay, channel_id) is Ok ==> within_limits(
            relay_opened(v, sandbox_id, looked_up, relay, channel_id)->Ok_0.1.pending,
        ),
        within_limits(relay_claimed(v.pending, channel_id, principal, now).1),
        within_limits(v.pending.remove(channel_id)),
        within_limits(unexpired(v.pending, now)),
{
    lemma_channels_of_fewer(v.pending.remove(channel_id), v.pending);
    lemma_channels_of_fewer(unexpired(v.pending, now), v.pending);
    lemma_channels_of_fewer(relay_claimed(v.pending, channel_id, principal, now).1, v.pending);
    if relay_opened(v, sandbox_id, looked_up, relay, channel_id) is Ok {
        let after = v.pending.insert(channel_id, relay);
        assert(after.dom() =~= v.pending.dom().insert(channel_id));
        assert forall|other: Seq<char>|
            (#[trigger] channels_of(after, other)).len() <= MAX_PENDING_RELAYS_PER_SANDBOX by {
            let before = channels_of(v.pending, other);
            assert(before.finite());
            if other == sandbox_id {
                assert(channels_of(after, other) =~= before.insert(channel_id));
            } else {
                assert(channels_of(after, other) =~= before.remove(channel_id));
            }
        }
    }
}

/// A principal that may not claim a relay leaves it for the one who may.
pub proof fn law_refused_claim_leaves_the_relay(
    pending: Map<Seq<char>, PendingRelayView>,
    channel_id: Seq<char>,
    principal: Principal,
    now: u128,
)
    requires
        pending.contains_key(channel_id),
        !in_scope(principal, pending[channel_id].sandbox_id),
    ensures
        relay_claimed(pending, channel_id, Some(principal), now) == (
            Err::<(u64, Seq<char>), StatusView>(out_of_scope()),
            pending,
        ),
{
}

/// A relay is claimed at most once, and whoever comes second learns that it is unknown.
pub proof fn law_relay_is_claimed_once(
    pending: Map<Seq<char>, PendingRelayView>,
    channel_id: Seq<char>,
    first: Option<Principal>,
    second: Option<Principal>,
    now: u128,
    later: u128,
)
    requires
        relay_claimed(pending, channel_id, first, now).0 is Ok,
    ensures
        ({
            let left = relay_claimed(pending, channel_id, first, now).1;
            let again = relay_claimed(left, channel_id, second, later);
            &&& again.0 is Err
            &&& again.0->Err_0.code == Code::NotFound
            &&& again.1 == left
        }),
{
}

/// Dropping relays that waited too long takes nothing from those who come in time: at the
/// same moment a claim succeeds exactly if it would have before.
pub proof fn law_reaping_takes_only_the_expired(
    pending: Map<Seq<char>, PendingRelayView>,
    channel_id: Seq<char>,
    principal: Option<Principal>,
    now: u128,
)
    ensures
        relay_claimed(pending, channel_id, principal, now).0 is Ok <==> relay_claimed(
            unexpired(pending, now),
            channel_id,
            principal,
            now,
        ).0 is Ok,
        relay_claimed(pending, channel_id, principal, now).0 is Ok ==> relay_claimed(
            pending,
            channel_id,
            principal,
            now,
        ).0 == relay_claimed(unexpired(pending, now), channel_id, principal, now).0,
{
}

/// Whoever waits for a relay learns what becomes of it: a claim that takes the relay away
/// hands its waiter over or lets it go, and no other waiter.
pub proof fn law_claimed_waiter_is_not_forgotten(
    pending: Map<Seq<char>, PendingRelayView>,
    channel_id: Seq<char>,
    principal: Option<Principal>,
    now: u128,
)
    ensures
        ({
            let (outcome, left) = relay_claimed(pending, channel_id, principal, now);
            let actions = claim_actions(pending, channel_id, principal, now);
            if pending.contains_key(channel_id) && !left.contains_key(channel_id) {
                let waiter = pending[channel_id].waiter;
                if outcome is Ok {
                    outcome->Ok_0.0 == waiter && actions == Seq::<SessionActionView>::empty()
                } else {
                    actions == seq![SessionActionView::DropRelay(waiter)]
                }
            } else {
                outcome is Err && left == pending && actions == Seq::<SessionActionView>::empty()
            }
        }),
{
}

/// Reaping lets go of a waiter for each relay that it takes away, and for no other.
pub proof fn law_reaped_waiters_are_not_forgotten(
    pending: Map<Seq<char>, PendingRelayView>,
    now: u128,
    channels: Seq<Seq<char>>,
    channel_id: Seq<char>,
)
    requires
        lists_expired(channels, pending, now),
    ensures
        channels.contains(channel_id) <==> pending.contains_key(channel_id) && !unexpired(
            pending,
            now,
        ).contains_key(channel_id),
        forall|i: int|
            0 <= i < channels.len() ==> #[trigger] dropped_waiters(channels, pending)[i]
                == SessionActionView::DropRelay(pending[channels[i]].waiter),
        dropped_waiters(channels, pending).len() == channels.len(),
        channels.no_duplicates(),
{
    assert(channels.to_set().contains(channel_id) <==> channels.contains(channel_id));
}

/// Asking for a relay that then cannot be sent leaves the relays as they were, if the
/// channel is new.
pub proof fn law_unsent_relay_leaves_no_trace(
    v: RegistryView,
    sandbox_id: Seq<char>,
    looked_up: Result<Option<LivenessRecordView>, ()>,
    relay: PendingRelayView,
    channel_id: Seq<char>,
)
    requires
        !v.pending.contains_key(channel_id),
        relay_opened(v, sandbox_id, looked_up, relay, channel_id) is Ok,
    ensures
        relay_opened(v, sandbox_id, looked_up, relay, channel_id)->Ok_0.1.pending.remove(channel_id)
            == v.pending,
{
    assert(v.pending.insert(channel_id, relay).remove(channel_id) =~= v.pending);
}

/// The cleanup of a session does not evict the session that took its place.
pub proof fn law_old_session_cannot_evict_the_new(
    v: RegistryView,
    sandbox_id: Seq<char>,
    session: LiveSessionView,
    old_session: Seq<char>,
)
    requires
        session.session_id != old_session,
    ensures
        !is_current(
            RegistryView { sessions: v.sessions.insert(sandbox_id, session), ..v },
            sandbox_id,
            old_session,
        ),
        is_current(
            RegistryView { sessions: v.sessions.insert(sandbox_id, session), ..v },
            sandbox_id,
            session.session_id,
        ),
{
}

/// No relay is left of a sandbox that was cleaned up, and every relay of the others is left
/// as it was.
pub proof fn law_cleanup_forgets_one_sandbox(
    v: RegistryView,
    sandbox_id: Seq<char>,
    other: Seq<char>,
)
    requires
        other != sandbox_id,
    ensures
        channels_of(relays_of_others(v.pending, sandbox_id), sandbox_id) == Set::<Seq<char>>::empty(),
        channels_of(relays_of_others(v.pending, sandbox_id), other) == channels_of(
            v.pending,
            other,
        ),
        forall|channel: Seq<char>|
            channels_of(v.pending, other).contains(channel) ==> #[trigger] relays_of_others(
                v.pending,
                sandbox_id,
            )[channel] == v.pending[channel],
{
    let left = relays_of_others(v.pending, sandbox_id);
    assert(channels_of(left, sandbox_id) =~= Set::<Seq<char>>::empty());
    assert(channels_of(left, other) =~= channels_of(v.pending, other));
}

/// A session here is used, whatever the rows say.
pub proof fn law_local_session_comes_first(
    v: RegistryView,
    sandbox_id: Seq<char>,
    looked_up: Result<Option<LivenessRecordView>, ()>,
)
    requires
        v.sessions.contains_key(sandbox_id),
    ensures
        session_or_refusal(v, sandbox_id, looked_up) == Ok::<u64, StatusView>(
            v.sessions[sandbox_id].connection,
        ),
{
}

/// A replica without a session refuses with `Unavailable`, with or without a hint, and
/// without rows or where they cannot be read it gives none.
pub proof fn law_refusal_is_unavailable(
    v: RegistryView,
    sandbox_id: Seq<char>,
    looked_up: Result<Option<LivenessRecordView>, ()>,
)
    requires
        !v.sessions.contains_key(sandbox_id),
    ensures
        session_or_refusal(v, sandbox_id, looked_up) is Err,
        session_or_refusal(v, sandbox_id, looked_up)->Err_0.code == Code::Unavailable,
        v.liveness is None || looked_up is Err || looked_up->Ok_0 is None ==> session_or_refusal(
            v,
            sandbox_id,
            looked_up,
        )->Err_0.metadata == Map::<Seq<char>, Seq<char>>::empty(),
{
}

/// No one is sent to this replica itself, and a hint survives however it is wrapped.
pub proof fn law_redirect_names_another_replica(
    liveness: SessionLiveness,
    record: LivenessRecordView,
    code: Code,
    message: Seq<char>,
)
    requires
        redirect_address(liveness, record) is Some,
    ensures
        record.replica_id != liveness.replica(),
        redirect_address(liveness, record)->0 != liveness.address(),
        redirect_address(liveness, record)->0.len() > 0,
        ({
            let address = redirect_address(liveness, record)->0;
            let seen = wrapped_status(redirect_status(address), code, message);
            &&& seen.metadata.contains_key(SERVING_REPLICA_METADATA_KEY@)
            &&& seen.metadata[SERVING_REPLICA_METADATA_KEY@] == address
        }),
{
}

// Liveness rows in a store.
/// What a write under a condition makes of the rows of a store, if the store lets it
/// through.
pub open spec fn put_if(
    rows: Map<Seq<char>, LivenessRecordView>,
    key: Seq<char>,
    condition: WriteCondition,
    row: LivenessRecordView,
) -> Option<Map<Seq<char>, LivenessRecordView>> {
    let allowed = match condition {
        WriteCondition::MustCreate => !rows.contains_key(key),
        WriteCondition::MatchResourceVersion(version) => rows.contains_key(key)
            && rows[key].resource_version == version,
    };
    if allowed {
        Some(rows.insert(key, row))
    } else {
        None
    }
}

/// What a removal at a version makes of the rows of a store, if the store lets it through.
pub open spec fn delete_if(
    rows: Map<Seq<char>, LivenessRecordView>,
    key: Seq<char>,
    version: u64,
) -> Option<Map<Seq<char>, LivenessRecordView>> {
    if rows.contains_key(key) && rows[key].resource_version == version {
        Some(rows.remove(key))
    } else {
        None
    }
}

/// The row under a key.
pub open spec fn row_at(rows: Map<Seq<char>, LivenessRecordView>, key: Seq<char>) -> Option<
    LivenessRecordView,
> {
    if rows.contains_key(key) {
        Some(rows[key])
    } else {
        None
    }
}

/// An announcement that nothing interferes with gets through at once, whether or not the
/// replica had a row: then the row is the announced one.
pub proof fn law_undisturbed_announcement_gets_through(
    rows: Map<Seq<char>, LivenessRecordView>,
    sandbox_id: Seq<char>,
    replica_id: Seq<char>,
    row: LivenessRecordView,
)
    ensures
        ({
            let key = row_key(sandbox_id, replica_id);
            let after = put_if(rows, key, own_row_condition(row_at(rows, key)), row);
            after is Some && row_at(after->0, key) == Some(row)
        }),
{
}

/// What one replica writes or removes leaves the rows of the others alone, for the same
/// sandbox: their renewals, at the version that they know, still get through.
pub proof fn law_replicas_do_not_disturb_each_other(
    rows: Map<Seq<char>, LivenessRecordView>,
    sandbox_id: Seq<char>,
    ours: Seq<char>,
    theirs: Seq<char>,
    condition: WriteCondition,
    row: LivenessRecordView,
    version: u64,
    renewed: LivenessRecordView,
)
    requires
        ours != theirs,
        rows.contains_key(row_key(sandbox_id, ours)),
    ensures
        ({
            let our_key = row_key(sandbox_id, ours);
            let their_key = row_key(sandbox_id, theirs);
            let renewal = WriteCondition::MatchResourceVersion(rows[our_key].resource_version);
            &&& match put_if(rows, their_key, condition, row) {
                Some(after) => row_at(after, our_key) == row_at(rows, our_key) && put_if(
                    after,
                    our_key,
                    renewal,
                    renewed,
                ) is Some,
                None => true,
            }
            &&& match delete_if(rows, their_key, version) {
                Some(after) => row_at(after, our_key) == row_at(rows, our_key) && put_if(
                    after,
                    our_key,
                    renewal,
                    renewed,
                ) is Some,
                None => true,
            }
        }),
{
    law_replicas_have_rows_of_their_own(sandbox_id, ours, theirs);
}

/// A session that withdraws its own row removes it, and the cleanup of a session whose place
/// another has taken on the same replica removes nothing.
pub proof fn law_withdrawal_removes_only_its_session(
    rows: Map<Seq<char>, LivenessRecordView>,
    sandbox_id: Seq<char>,
    replica_id: Seq<char>,
    row: LivenessRecordView,
    session_id: Seq<char>,
)
    requires
        row.replica_id == replica_id,
    ensures
        ({
            let key = row_key(sandbox_id, replica_id);
            let stored = rows.insert(key, row);
            match withdrawable(row_at(stored, key), replica_id, session_id) {
                Some(version) => row.session_id == session_id && delete_if(stored, key, version)
                    == Some(stored.remove(key)),
                None => row.session_id != session_id,
            }
        }),
{
}

/// A replica that is believed is found: among the rows of a sandbox, as soon as one is young
/// enough, the freshest of these is picked, and an expired one never is.
pub proof fn law_live_rows_are_found(
    records: Seq<LivenessRecordView>,
    now_ms: i64,
    ttl_ms: int,
    i: int,
)
    requires
        0 <= i < records.len(),
        row_age(now_ms, records[i].updated_at_ms) < ttl_ms,
    ensures
        exists|j: int| is_freshest(records, now_ms, ttl_ms, j),
    decreases records.len(),
{
    let last = records.len() - 1;
    let before = records.drop_last();
    if exists|k: int|
        0 <= k < before.len() && row_age(now_ms, (#[trigger] before[k]).updated_at_ms) < ttl_ms {
        let k = choose|k: int|
            0 <= k < before.len() && row_age(now_ms, (#[trigger] before[k]).updated_at_ms) < ttl_ms;
        law_live_rows_are_found(before, now_ms, ttl_ms, k);
        let j = choose|j: int| is_freshest(before, now_ms, ttl_ms, j);
        assert(forall|p: int| 0 <= p < before.len() ==> before[p] == records[p]);
        if row_age(now_ms, records[last].updated_at_ms) < ttl_ms && records[last].renewed_at_ms
            >= records[j].renewed_at_ms {
            assert forall|p: int|
                0 <= p < records.len() && row_age(
                    now_ms,
                    (#[trigger] records[p]).updated_at_ms,
                ) < ttl_ms implies records[p].renewed_at_ms <= records[last].renewed_at_ms && (p
                > last ==> records[p].renewed_at_ms < records[last].renewed_at_ms) by {
                if p < last {
                    assert(before[p] == records[p]);
                }
            }
            assert(is_freshest(records, now_ms, ttl_ms, last));
        } else {
            assert forall|p: int|
                0 <= p < records.len() && row_age(
                    now_ms,
                    (#[trigger] records[p]).updated_at_ms,
                ) < ttl_ms implies records[p].renewed_at_ms <= records[j].renewed_at_ms && (p > j
                ==> records[p].renewed_at_ms < records[j].renewed_at_ms) by {
                if p < last {
                    assert(before[p] == records[p]);
                }
            }
            assert(is_freshest(records, now_ms, ttl_ms, j));
        }
    } else {
        if i < last {
            assert(before[i] == records[i]);
        }
        assert forall|p: int|
            0 <= p < records.len() && row_age(now_ms, (#[trigger] records[p]).updated_at_ms)
                < ttl_ms implies p == last by {
            if p < last {
                assert(before[p] == records[p]);
            }
        }
        assert(is_freshest(records, now_ms, ttl_ms, last));
    }
}

} // verus!
