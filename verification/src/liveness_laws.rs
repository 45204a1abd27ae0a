//! What holds of liveness rows and of the store that keeps them.
use vstd::prelude::*;

use crate::session_liveness::{
    advertised_address, announced, is_freshest, own_row_condition, removal_outcome, row_age,
    row_key, withdrawable, without_session, worth_another_attempt, wrapped_status, write_outcome,
    LivenessErrorView, LivenessRecordView, PersistenceError, PersistenceErrorKind, WriteCondition,
};
use crate::status::{Code, StatusView};
use crate::text::trimmed;

verus! {

/// A row is written under the condition that it is as it was read: at its version, or not there.
pub proof fn law_rows_are_written_as_they_were_read(own: Option<LivenessRecordView>)
    ensures
        own is None <==> own_row_condition(own) == WriteCondition::MustCreate,
        own is Some ==> own_row_condition(own) == WriteCondition::MatchResourceVersion(
            own->0.resource_version,
        ),
{
}

/// What a store says of a write is told apart: the version of one that got through, a key that
/// was taken, a row that changed, and a store that failed, with its own words.
pub proof fn law_store_outcomes_are_told_apart(
    stored: Result<u64, PersistenceError>,
    removed: Result<bool, PersistenceError>,
    key: Seq<char>,
)
    ensures
        write_outcome(stored, key) is Ok <==> stored is Ok,
        stored is Ok ==> write_outcome(stored, key)->Ok_0 == stored->Ok_0,
        stored is Err ==> ({
            let told = write_outcome(stored, key)->Err_0;
            let error = stored->Err_0;
            &&& told is KeyTaken <==> error.kind == PersistenceErrorKind::UniqueViolation
            &&& told is KeyTaken ==> told->key == key
            &&& told is Conflict <==> error.kind == PersistenceErrorKind::Conflict
            &&& !(told is KeyTaken) && !(told is Conflict) ==> told == (LivenessErrorView::Store {
                kind: error.kind,
                message: error.message@,
            })
            &&& worth_another_attempt(told) <==> told is KeyTaken || told is Conflict
        }),
        removal_outcome(removed) is Ok <==> removed is Ok,
        removed is Ok ==> removal_outcome(removed)->Ok_0 == removed->Ok_0,
        removed is Err ==> ({
            let told = removal_outcome(removed)->Err_0;
            let error = removed->Err_0;
            &&& told is Conflict <==> error.kind == PersistenceErrorKind::Conflict
            &&& !(told is Conflict) ==> told == (LivenessErrorView::Store {
                kind: error.kind,
                message: error.message@,
            })
        }),
{
}

/// An announcement stands at the version of the write that got through; it fails with the error
/// of a write that could not be tried again, or, after eight writes that could, with that.
pub proof fn law_announcement_tells_what_happened(
    failed_attempts: int,
    writes: Seq<Result<u64, LivenessErrorView>>,
    i: int,
)
    requires
        0 <= failed_attempts,
        0 <= i < writes.len(),
        failed_attempts + i < 8,
        forall|j: int|
            0 <= j < i ==> (#[trigger] writes[j]) is Err && worth_another_attempt(
                writes[j]->Err_0,
            ),
    ensures
        writes[i] is Ok ==> announced(failed_attempts, writes) == Some(writes[i]),
        writes[i] is Err && !worth_another_attempt(writes[i]->Err_0) ==> announced(
            failed_attempts,
            writes,
        ) == Some(writes[i]),
        writes[i] is Err && worth_another_attempt(writes[i]->Err_0) && failed_attempts + i == 7
            ==> announced(failed_attempts, writes) == Some(
            Err::<u64, LivenessErrorView>(LivenessErrorView::Contended { attempts: 8 }),
        ),
    decreases i,
{
    if i > 0 {
        assert(writes[0] is Err && worth_another_attempt(writes[0]->Err_0));
        let rest = writes.skip(1);
        assert forall|j: int| 0 <= j < i - 1 implies (#[trigger] rest[j]) is Err
            && worth_another_attempt(rest[j]->Err_0) by {
            assert(rest[j] == writes[j + 1]);
        }
        law_announcement_tells_what_happened(failed_attempts + 1, rest, i - 1);
    }
}

/// A session that stops being tracked is the only one that does, and only while it is the one
/// that is tracked.
pub proof fn law_only_the_session_is_forgotten(
    owned: Map<Seq<char>, Seq<char>>,
    sandbox_id: Seq<char>,
    session_id: Seq<char>,
    other: Seq<char>,
)
    ensures
        ({
            let left = without_session(owned, sandbox_id, session_id);
            &&& left.contains_key(other) <==> owned.contains_key(other) && !(other == sandbox_id
                && owned[other] == session_id)
            &&& left.contains_key(other) ==> left[other] == owned[other]
        }),
{
}

/// A row that is withdrawn is withdrawn at the version that was read.
pub proof fn law_rows_are_withdrawn_at_their_version(
    own: LivenessRecordView,
    replica_id: Seq<char>,
    session_id: Seq<char>,
)
    ensures
        own.replica_id == replica_id && own.session_id == session_id ==> withdrawable(
            Some(own),
            replica_id,
            session_id,
        ) == Some(own.resource_version),
        own.replica_id != replica_id || own.session_id != session_id ==> withdrawable(
            Some(own),
            replica_id,
            session_id,
        ) is None,
        withdrawable(None, replica_id, session_id) is None,
{
}

/// The age of a row is the time since it was written, as long as a number holds it.
pub proof fn law_rows_age_with_time(now_ms: i64, updated_at_ms: i64, later_ms: i64)
    requires
        updated_at_ms <= now_ms <= later_ms,
        later_ms - updated_at_ms <= i64::MAX,
    ensures
        row_age(now_ms, updated_at_ms) == now_ms - updated_at_ms,
        row_age(later_ms, updated_at_ms) - row_age(now_ms, updated_at_ms) == later_ms - now_ms,
        row_age(updated_at_ms, updated_at_ms) == 0,
{
}

/// The row that is picked is believed, and no believed row was renewed after it.
pub proof fn law_picked_row_is_believed_and_freshest(
    records: Seq<LivenessRecordView>,
    now_ms: i64,
    ttl_ms: int,
    i: int,
    j: int,
)
    requires
        is_freshest(records, now_ms, ttl_ms, i),
        0 <= j < records.len(),
    ensures
        0 <= i < records.len(),
        row_age(now_ms, records[i].updated_at_ms) < ttl_ms,
        records[j].renewed_at_ms > records[i].renewed_at_ms ==> row_age(
            now_ms,
            records[j].updated_at_ms,
        ) >= ttl_ms,
        j > i && records[j].renewed_at_ms == records[i].renewed_at_ms ==> row_age(
            now_ms,
            records[j].updated_at_ms,
        ) >= ttl_ms,
{
}

/// The key of a row starts with its type and ends with the sandbox and the replica.
pub proof fn law_keys_have_their_parts(sandbox_id: Seq<char>, replica_id: Seq<char>)
    ensures
        crate::session_liveness::LIVENESS_OBJECT_TYPE@.is_prefix_of(
            row_key(sandbox_id, replica_id),
        ),
        (sandbox_id + ":"@ + replica_id).is_suffix_of(row_key(sandbox_id, replica_id)),
{
    let key = row_key(sandbox_id, replica_id);
    let head = crate::session_liveness::LIVENESS_OBJECT_TYPE@;
    let tail = sandbox_id + ":"@ + replica_id;
    assert(key.subrange(0, head.len() as int) =~= head);
    assert(key.subrange(key.len() - tail.len(), key.len() as int) =~= tail);
}

/// A status that is wrapped has the code and the text that it is given.
pub proof fn law_wrapped_status_says_what_it_is_given(
    inner: StatusView,
    code: Code,
    message: Seq<char>,
)
    ensures
        wrapped_status(inner, code, message).code == code,
        wrapped_status(inner, code, message).message == message,
{
}

/// An address that is set is advertised, white space aside; without one, and without a pod
/// address or a Service name, nothing is.
pub proof fn law_set_address_comes_first(
    override_address: &str,
    pod_ip: Option<&str>,
    dns_suffix: Option<&str>,
    grpc_port: u16,
)
    ensures
        trimmed(override_address@).len() > 0 ==> advertised_address(
            Some(override_address),
            pod_ip,
            dns_suffix,
            grpc_port,
        ) == trimmed(override_address@),
        trimmed(override_address@).len() == 0 ==> advertised_address(
            Some(override_address),
            pod_ip,
            dns_suffix,
            grpc_port,
        ) == advertised_address(None, pod_ip, dns_suffix, grpc_port),
        advertised_address(None, None, dns_suffix, grpc_port).len() == 0,
        advertised_address(None, pod_ip, None, grpc_port).len() == 0,
{
}

} // verus!
