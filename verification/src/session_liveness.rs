//! Which replica held a supervisor session for a sandbox, and when.
//!
//! A session lives in the memory of one gateway replica. Each replica that holds one for
//! a sandbox keeps a row of its own that says so, and renews it. A row is liveness, not
//! ownership: it lags behind what another process knows, so it may bias an attempt and may
//! never refuse one.
use vstd::prelude::*;
use vstd::string::*;

use crate::gateway_fleet::{canonical_name, member_name};
use crate::status::{Code, Status, StatusView};
use crate::string_map::StringMap;
use crate::text::{decimal, decimal_text, replace, replaced, same_text, strip, trim, trimmed};
use crate::values::{option_view, views};

verus! {

/// The object type of liveness rows.
pub const LIVENESS_OBJECT_TYPE: &'static str = "supervisor-session-liveness";

/// How often an announcement is tried.
pub const ANNOUNCE_CAS_ATTEMPTS: usize = 8;

/// Milliseconds for which a row is believed without a renewal: three renewals fit in.
pub const LIVENESS_TTL: u64 = 30_000;

/// Milliseconds between renewals while a session lives.
pub const LIVENESS_RENEWAL_INTERVAL: u64 = 10_000;

/// Milliseconds for withdrawing all rows at shutdown.
pub const LIVENESS_RELEASE_ALL_TIMEOUT: u64 = 3_000;

/// The response metadata with the address of a replica that held a session. It biases the
/// next attempt and refuses none.
pub const SERVING_REPLICA_METADATA_KEY: &'static str = "x-openshell-serving-replica";

/// How many rows are read for one sandbox, well above any subset.
pub const OWNER_ROW_LIST_LIMIT: u32 = 64;

/// What the rows say of a sandbox after a session released its own. A store that cannot
/// answer is another thing than one that answers "nobody".
#[derive(Debug, Clone, Copy, PartialEq, Eq, Structural)]
pub enum PeerSessions {
    /// A row that is believed names a replica.
    Serving,
    /// The store answered, and no such row exists.
    Nobody,
    /// The store could not be asked, or could not answer.
    Unknown,
}

// Row keys.
/// The key of a replica's row for a sandbox.
pub open spec fn row_key(sandbox_id: Seq<char>, replica_id: Seq<char>) -> Seq<char> {
    LIVENESS_OBJECT_TYPE@ + ":"@ + sandbox_id + ":"@ + replica_id
}

/// The key of a replica's row for a sandbox. Keys are shared by all object types, and the
/// sandbox itself occupies the one that is its identifier, so the row is put under its type.
pub fn liveness_object_id(sandbox_id: &str, replica_id: &str) -> (r: String)
    ensures
        r@ == row_key(sandbox_id@, replica_id@),
{
    let mut key = LIVENESS_OBJECT_TYPE.to_owned();
    key.append(":");
    key.append(sandbox_id);
    key.append(":");
    key.append(replica_id);
    key
}

/// Where a row stands in the store.
#[derive(Debug, PartialEq, Eq)]
pub struct RowAddress {
    pub object_type: String,
    pub id: String,
    pub name: String,
    pub workspace: String,
}

/// A row's key is never the identifier of its sandbox.
pub proof fn law_row_is_not_the_sandbox(sandbox_id: Seq<char>, replica_id: Seq<char>)
    ensures
        row_key(sandbox_id, replica_id) != sandbox_id,
{
    reveal_strlit(":");
}

/// Two replicas have different rows for a sandbox.
pub proof fn law_replicas_have_rows_of_their_own(
    sandbox_id: Seq<char>,
    a: Seq<char>,
    b: Seq<char>,
)
    ensures
        row_key(sandbox_id, a) == row_key(sandbox_id, b) ==> a == b,
{
    let before = LIVENESS_OBJECT_TYPE@ + ":"@ + sandbox_id + ":"@;
    let n = before.len() as int;
    assert(row_key(sandbox_id, a).skip(n) =~= a);
    assert(row_key(sandbox_id, b).skip(n) =~= b);
}

/// Two sandboxes have different rows, as long as their identifiers have no colon in them.
pub proof fn law_sandboxes_have_rows_of_their_own(
    sandbox_a: Seq<char>,
    replica_a: Seq<char>,
    sandbox_b: Seq<char>,
    replica_b: Seq<char>,
)
    requires
        !sandbox_a.contains(':'),
        !sandbox_b.contains(':'),
        row_key(sandbox_a, replica_a) == row_key(sandbox_b, replica_b),
    ensures
        sandbox_a == sandbox_b,
        replica_a == replica_b,
{
    reveal_strlit(":");
    let before = LIVENESS_OBJECT_TYPE@ + ":"@;
    let n = before.len() as int;
    let key = row_key(sandbox_a, replica_a);
    assert(key.skip(n) =~= sandbox_a + ":"@ + replica_a);
    assert(key.skip(n) =~= sandbox_b + ":"@ + replica_b);
    let rest = key.skip(n);
    assert(rest[sandbox_a.len() as int] == ':');
    assert(rest[sandbox_b.len() as int] == ':');
    if sandbox_a.len() < sandbox_b.len() {
        assert(sandbox_b[sandbox_a.len() as int] == ':');
    }
    if sandbox_b.len() < sandbox_a.len() {
        assert(sandbox_a[sandbox_b.len() as int] == ':');
    }
    assert(sandbox_a =~= rest.take(sandbox_a.len() as int));
    assert(sandbox_b =~= rest.take(sandbox_b.len() as int));
    assert(replica_a =~= rest.skip(sandbox_a.len() as int + 1));
    assert(replica_b =~= rest.skip(sandbox_b.len() as int + 1));
}

// Statuses.
/// The status with a new code and text, and of the inner metadata only the hint.
pub open spec fn wrapped_status(inner: StatusView, code: Code, message: Seq<char>) -> StatusView {
    StatusView {
        code,
        message,
        metadata: if inner.metadata.contains_key(SERVING_REPLICA_METADATA_KEY@) {
            Map::<Seq<char>, Seq<char>>::empty().insert(
                SERVING_REPLICA_METADATA_KEY@,
                inner.metadata[SERVING_REPLICA_METADATA_KEY@],
            )
        } else {
            Map::empty()
        },
    }
}

/// Wraps a status so that its hint survives. Nothing else of its metadata does: what is
/// forwarded is what was decided to be.
pub fn wrap_status_preserving_redirect_hint(inner: &Status, code: Code, message: String) -> (r:
    Status)
    ensures
        r@ == wrapped_status(inner@, code, message@),
{
    let mut wrapped = Status::new(code, message);
    if let Some(hint) = inner.metadata.get(SERVING_REPLICA_METADATA_KEY) {
        wrapped.metadata.insert(SERVING_REPLICA_METADATA_KEY.to_owned(), hint.clone());
    }
    wrapped
}

/// A hint survives wrapping, none is made up, and nothing else is forwarded, however
/// often a status is wrapped.
pub proof fn law_only_the_hint_survives(
    inner: StatusView,
    code: Code,
    message: Seq<char>,
    outer_code: Code,
    outer_message: Seq<char>,
    key: Seq<char>,
)
    ensures
        ({
            let wrapped = wrapped_status(inner, code, message);
            let again = wrapped_status(wrapped, outer_code, outer_message);
            &&& again.metadata == wrapped.metadata
            &&& wrapped.metadata.contains_key(key) <==> key == SERVING_REPLICA_METADATA_KEY@
                && inner.metadata.contains_key(key)
            &&& wrapped.metadata.contains_key(key) ==> wrapped.metadata[key] == inner.metadata[key]
        }),
{
    let wrapped = wrapped_status(inner, code, message);
    let again = wrapped_status(wrapped, outer_code, outer_message);
    assert(again.metadata =~= wrapped.metadata);
}

// Records.
/// What kind of failure the store met.
#[derive(Debug, Clone, Copy, PartialEq, Eq, Structural)]
pub enum PersistenceErrorKind {
    Encode,
    Decode,
    UniqueViolation,
    Conflict,
    Other,
}

/// A failure of the store, in its words.
#[derive(Debug, PartialEq, Eq)]
pub struct PersistenceError {
    pub kind: PersistenceErrorKind,
    pub message: String,
}

/// Why a row could not be read or written.
#[derive(Debug, PartialEq, Eq)]
pub enum LivenessError {
    /// A row already occupies the key, possibly of another object type.
    KeyTaken { key: String },
    /// The row changed between reading and writing.
    Conflict,
    /// Every attempt met a change.
    Contended { attempts: usize },
    /// The store failed.
    Store(PersistenceError),
}

/// What [`LivenessError`] stands for.
#[verifier::ext_equal]
pub enum LivenessErrorView {
    KeyTaken { key: Seq<char> },
    Conflict,
    Contended { attempts: usize },
    Store { kind: PersistenceErrorKind, message: Seq<char> },
}

impl View for LivenessError {
    type V = LivenessErrorView;

    open spec fn view(&self) -> LivenessErrorView {
        match *self {
            LivenessError::KeyTaken { key } => LivenessErrorView::KeyTaken { key: key@ },
            LivenessError::Conflict => LivenessErrorView::Conflict,
            LivenessError::Contended { attempts } => LivenessErrorView::Contended { attempts },
            LivenessError::Store(error) => LivenessErrorView::Store {
                kind: error.kind,
                message: error.message@,
            },
        }
    }
}

impl LivenessErrorView {
    /// The words in which this is told.
    pub open spec fn message(self) -> Seq<char> {
        match self {
            LivenessErrorView::KeyTaken { key } =>
                "an objects row already exists with liveness key "@ + key,
            LivenessErrorView::Conflict =>
                "liveness record changed between our read and our write"@,
            LivenessErrorView::Contended { attempts } => "gave up claiming liveness after "@
                + decimal(attempts as nat) + " attempts"@,
            LivenessErrorView::Store { kind, message } => "persistence error: "@ + message,
        }
    }
}

impl LivenessError {
    /// The words in which this is told.
    pub fn message(&self) -> (r: String)
        ensures
            r@ == self@.message(),
    {
        match self {
            LivenessError::KeyTaken { key } => {
                let mut s = String::from_str("an objects row already exists with liveness key ");
                s.append(key);
                s
            },
            LivenessError::Conflict => "liveness record changed between our read and our write".to_owned(),
            LivenessError::Contended { attempts } => {
                let mut s = String::from_str("gave up claiming liveness after ");
                s.append(&decimal_text(*attempts as u64));
                s.append(" attempts");
                s
            },
            LivenessError::Store(error) => {
                let mut s = String::from_str("persistence error: ");
                s.append(&error.message);
                s
            },
        }
    }
}

/// What a row holds.
#[derive(Debug, PartialEq, Eq)]
pub struct LivenessPayload {
    pub replica_id: String,
    pub advertise_address: String,
    pub session_id: String,
    pub renewed_at_ms: i64,
}

/// A row that was read.
#[derive(Debug, PartialEq, Eq)]
pub struct LivenessRecord {
    pub replica_id: String,
    /// Where the replica can be reached, empty where it does not know.
    pub advertise_address: String,
    pub session_id: String,
    pub renewed_at_ms: i64,
    pub resource_version: u64,
    pub updated_at_ms: i64,
}

/// What [`LivenessRecord`] stands for.
#[verifier::ext_equal]
pub struct LivenessRecordView {
    pub replica_id: Seq<char>,
    pub advertise_address: Seq<char>,
    pub session_id: Seq<char>,
    pub renewed_at_ms: i64,
    pub resource_version: u64,
    pub updated_at_ms: i64,
}

impl View for LivenessRecord {
    type V = LivenessRecordView;

    open spec fn view(&self) -> LivenessRecordView {
        LivenessRecordView {
            replica_id: self.replica_id@,
            advertise_address: self.advertise_address@,
            session_id: self.session_id@,
            renewed_at_ms: self.renewed_at_ms,
            resource_version: self.resource_version,
            updated_at_ms: self.updated_at_ms,
        }
    }
}

impl Clone for LivenessRecord {
    fn clone(&self) -> (r: Self)
        ensures
            r@ == self@,
    {
        LivenessRecord {
            replica_id: self.replica_id.clone(),
            advertise_address: self.advertise_address.clone(),
            session_id: self.session_id.clone(),
            renewed_at_ms: self.renewed_at_ms,
            resource_version: self.resource_version,
            updated_at_ms: self.updated_at_ms,
        }
    }
}

/// The record of a row with the given payload.
pub fn liveness_record(payload: LivenessPayload, resource_version: u64, updated_at_ms: i64) -> (r:
    LivenessRecord)
    ensures
        r@ == (LivenessRecordView {
            replica_id: payload.replica_id@,
            advertise_address: payload.advertise_address@,
            session_id: payload.session_id@,
            renewed_at_ms: payload.renewed_at_ms,
            resource_version,
            updated_at_ms,
        }),
{
    LivenessRecord {
        replica_id: payload.replica_id,
        advertise_address: payload.advertise_address,
        session_id: payload.session_id,
        renewed_at_ms: payload.renewed_at_ms,
        resource_version,
        updated_at_ms,
    }
}

/// The age of a row: none where its clock is ahead, and bounded by what a number holds.
pub open spec fn row_age(now_ms: i64, updated_at_ms: i64) -> int {
    if now_ms < updated_at_ms {
        0
    } else if now_ms - updated_at_ms > i64::MAX {
        i64::MAX as int
    } else {
        now_ms - updated_at_ms
    }
}

/// Whether a row is too old to be believed.
pub fn record_is_expired(now_ms: i64, updated_at_ms: i64, ttl_ms: i64) -> (r: bool)
    ensures
        r == (row_age(now_ms, updated_at_ms) >= ttl_ms),
{
    let age: i64 = if now_ms < updated_at_ms {
        0
    } else if updated_at_ms < 0 && now_ms > i64::MAX + updated_at_ms {
        i64::MAX
    } else {
        now_ms - updated_at_ms
    };
    age >= ttl_ms
}

/// A row that this replica holds, with the version needed to renew it.
#[derive(Debug, PartialEq, Eq)]
pub struct LivenessHandle {
    session_id: String,
    resource_version: u64,
}

impl LivenessHandle {
    /// The session that the row names.
    pub closed spec fn session(&self) -> Seq<char> {
        self.session_id@
    }

    /// The version of the row.
    pub closed spec fn version(&self) -> u64 {
        self.resource_version
    }

    /// The session that the row names.
    pub fn session_id(&self) -> (r: &str)
        ensures
            r@ == self.session(),
    {
        &self.session_id
    }

    /// The version of the row.
    pub fn resource_version(&self) -> (r: u64)
        ensures
            r == self.version(),
    {
        self.resource_version
    }
}

/// The condition under which a row is written.
#[derive(Debug, Clone, Copy, PartialEq, Eq, Structural)]
pub enum WriteCondition {
    /// There is no such row yet.
    MustCreate,
    /// The row has this version.
    MatchResourceVersion(u64),
}

/// What a shutdown came to.
#[derive(Debug, Clone, Copy, PartialEq, Eq, Structural)]
pub struct ReleaseAllSummary {
    /// Rows that were removed.
    pub released: usize,
    /// Rows that no longer name this replica and session.
    pub skipped: usize,
    /// Rows that could not be read or removed. They expire by themselves.
    pub failed: usize,
}

/// The rows that one replica keeps.
#[derive(Debug)]
pub struct SessionLiveness {
    replica_id: String,
    advertise_address: String,
    ttl: u64,
    /// The session announced for each sandbox and not withdrawn yet.
    owned: StringMap<String>,
}

impl SessionLiveness {
    /// The name of this replica.
    pub closed spec fn replica(&self) -> Seq<char> {
        self.replica_id@
    }

    /// Where this replica can be reached.
    pub closed spec fn address(&self) -> Seq<char> {
        self.advertise_address@
    }

    /// Milliseconds for which a row is believed.
    pub closed spec fn ttl(&self) -> u64 {
        self.ttl
    }

    /// The session announced for each sandbox and not withdrawn yet.
    pub closed spec fn owned(&self) -> Map<Seq<char>, Seq<char>> {
        self.owned@
    }

    /// A replica without rows.
    pub fn new(replica_id: String, advertise_address: String, ttl: u64) -> (r: Self)
        ensures
            r.replica() == replica_id@,
            r.address() == advertise_address@,
            r.ttl() == ttl,
            r.owned() == Map::<Seq<char>, Seq<char>>::empty(),
    {
        SessionLiveness { replica_id, advertise_address, ttl, owned: StringMap::new() }
    }

    /// The name of this replica.
    pub fn replica_id(&self) -> (r: &str)
        ensures
            r@ == self.replica(),
    {
        &self.replica_id
    }

    /// Where this replica can be reached, empty where it does not know.
    pub fn advertise_address(&self) -> (r: &str)
        ensures
            r@ == self.address(),
    {
        &self.advertise_address
    }

    /// Milliseconds for which a row is believed, as far as a signed number goes.
    pub fn ttl_ms(&self) -> (r: i64)
        ensures
            r == (if self.ttl() > i64::MAX {
                i64::MAX as int
            } else {
                self.ttl() as int
            }),
    {
        if self.ttl > 0x7fff_ffff_ffff_ffff {
            i64::MAX
        } else {
            self.ttl as i64
        }
    }

    /// Where this replica's row for a sandbox stands: it reads and writes no other. Under
    /// the sandbox as the workspace, the rows of a sandbox are listed together.
    pub fn own_row(&self, sandbox_id: &str) -> (r: RowAddress)
        ensures
            r.object_type@ == LIVENESS_OBJECT_TYPE@,
            r.id@ == row_key(sandbox_id@, self.replica()),
            r.name@ == self.replica(),
            r.workspace@ == sandbox_id@,
    {
        RowAddress {
            object_type: LIVENESS_OBJECT_TYPE.to_owned(),
            id: liveness_object_id(sandbox_id, &self.replica_id),
            name: self.replica_id.clone(),
            workspace: sandbox_id.to_owned(),
        }
    }

    /// What is written into a row for a session.
    pub fn payload(&self, session_id: &str, now_ms: i64) -> (r: LivenessPayload)
        ensures
            r.replica_id@ == self.replica(),
            r.advertise_address@ == self.address(),
            r.session_id@ == session_id@,
            r.renewed_at_ms == now_ms,
    {
        LivenessPayload {
            replica_id: self.replica_id.clone(),
            advertise_address: self.advertise_address.clone(),
            session_id: session_id.to_owned(),
            renewed_at_ms: now_ms,
        }
    }
}

// Announcing, renewing and withdrawing.
/// What a result of the store stands for.
pub open spec fn outcome_view<T>(r: Result<T, LivenessError>) -> Result<T, LivenessErrorView> {
    match r {
        Ok(t) => Ok(t),
        Err(e) => Err(e@),
    }
}

/// The condition under which a replica's own row is written: that it is as it was read.
pub open spec fn own_row_condition(own: Option<LivenessRecordView>) -> WriteCondition {
    match own {
        Some(record) => WriteCondition::MatchResourceVersion(record.resource_version),
        None => WriteCondition::MustCreate,
    }
}

/// The condition under which a replica's own row is written.
pub fn write_condition(own: &Option<LivenessRecord>) -> (r: WriteCondition)
    ensures
        r == own_row_condition(option_view(*own)),
{
    match own {
        Some(record) => WriteCondition::MatchResourceVersion(record.resource_version),
        None => WriteCondition::MustCreate,
    }
}

/// The outcome of a write in this module's terms: a taken key and a changed row are told
/// apart from a store that failed.
pub open spec fn write_outcome(
    stored: Result<u64, PersistenceError>,
    key: Seq<char>,
) -> Result<u64, LivenessErrorView> {
    match stored {
        Ok(version) => Ok(version),
        Err(error) => match error.kind {
            PersistenceErrorKind::UniqueViolation => Err(LivenessErrorView::KeyTaken { key }),
            PersistenceErrorKind::Conflict => Err(LivenessErrorView::Conflict),
            kind => Err(LivenessErrorView::Store { kind, message: error.message@ }),
        },
    }
}

/// The outcome of a removal in this module's terms.
pub open spec fn removal_outcome(removed: Result<bool, PersistenceError>) -> Result<
    bool,
    LivenessErrorView,
> {
    match removed {
        Ok(done) => Ok(done),
        Err(error) => match error.kind {
            PersistenceErrorKind::Conflict => Err(LivenessErrorView::Conflict),
            kind => Err(LivenessErrorView::Store { kind, message: error.message@ }),
        },
    }
}

/// The outcome of a removal in this module's terms.
pub fn delete_outcome(removed: Result<bool, PersistenceError>) -> (r: Result<bool, LivenessError>)
    ensures
        outcome_view(r) == removal_outcome(removed),
{
    match removed {
        Ok(done) => Ok(done),
        Err(error) => match error.kind {
            PersistenceErrorKind::Conflict => Err(LivenessError::Conflict),
            _ => Err(LivenessError::Store(error)),
        },
    }
}

/// A write failed because the row changed under it: reading and writing again can help.
pub open spec fn worth_another_attempt(error: LivenessErrorView) -> bool {
    error is Conflict || error is KeyTaken
}

/// What follows the write of an announcement.
#[derive(Debug, PartialEq, Eq)]
pub enum AnnounceStep {
    /// Read the row again and write it again.
    ReadAgain,
    /// The row stands.
    Announced(LivenessHandle),
    /// The announcement is given up.
    Failed(LivenessError),
}

/// What follows a write after so many failed ones: nothing where another attempt is made.
pub open spec fn announce_step(
    failed_attempts: int,
    written: Result<u64, LivenessErrorView>,
) -> Option<Result<u64, LivenessErrorView>> {
    match written {
        Ok(version) => Some(Ok(version)),
        Err(error) => if !worth_another_attempt(error) {
            Some(Err(error))
        } else if failed_attempts + 1 < ANNOUNCE_CAS_ATTEMPTS {
            None
        } else {
            Some(Err(LivenessErrorView::Contended { attempts: ANNOUNCE_CAS_ATTEMPTS }))
        },
    }
}

/// What an announcement comes to, given what each write comes to.
pub open spec fn announced(
    failed_attempts: int,
    writes: Seq<Result<u64, LivenessErrorView>>,
) -> Option<Result<u64, LivenessErrorView>>
    decreases writes.len(),
{
    if writes.len() == 0 {
        None
    } else {
        match announce_step(failed_attempts, writes[0]) {
            Some(done) => Some(done),
            None => announced(failed_attempts + 1, writes.skip(1)),
        }
    }
}

/// An announcement ends within its attempts. It stands exactly if a write got through
/// before a write failed for another reason than a changed row.
pub proof fn law_announcement_ends(
    failed_attempts: int,
    writes: Seq<Result<u64, LivenessErrorView>>,
)
    requires
        0 <= failed_attempts < ANNOUNCE_CAS_ATTEMPTS,
        writes.len() >= ANNOUNCE_CAS_ATTEMPTS - failed_attempts,
    ensures
        announced(failed_attempts, writes) is Some,
        announced(failed_attempts, writes)->0 is Ok <==> exists|i: int|
            0 <= i < ANNOUNCE_CAS_ATTEMPTS - failed_attempts && (#[trigger] writes[i]) is Ok
                && forall|j: int|
                0 <= j < i ==> (#[trigger] writes[j]) is Err && worth_another_attempt(
                    writes[j]->Err_0,
                ),
    decreases writes.len(),
{
    match announce_step(failed_attempts, writes[0]) {
        Some(done) => {
            if done is Err && failed_attempts + 1 == ANNOUNCE_CAS_ATTEMPTS {
                assert(writes[0] is Err);
            }
        },
        None => {
            let rest = writes.skip(1);
            law_announcement_ends(failed_attempts + 1, rest);
            if announced(failed_attempts + 1, rest)->0 is Ok {
                let i = choose|i: int|
                    0 <= i < ANNOUNCE_CAS_ATTEMPTS - failed_attempts - 1 && (#[trigger] rest[i])
                        is Ok && forall|j: int|
                        0 <= j < i ==> (#[trigger] rest[j]) is Err && worth_another_attempt(
                            rest[j]->Err_0,
                        );
                assert(writes[i + 1] is Ok);
                assert forall|j: int| 0 <= j < i + 1 implies (#[trigger] writes[j]) is Err
                    && worth_another_attempt(writes[j]->Err_0) by {
                    if j > 0 {
                        assert(rest[j - 1] == writes[j]);
                    }
                }
            }
            if exists|i: int|
                0 <= i < ANNOUNCE_CAS_ATTEMPTS - failed_attempts && (#[trigger] writes[i]) is Ok
                    && forall|j: int|
                    0 <= j < i ==> (#[trigger] writes[j]) is Err && worth_another_attempt(
                        writes[j]->Err_0,
                    ) {
                let i = choose|i: int|
                    0 <= i < ANNOUNCE_CAS_ATTEMPTS - failed_attempts && (#[trigger] writes[i])
                        is Ok && forall|j: int|
                        0 <= j < i ==> (#[trigger] writes[j]) is Err && worth_another_attempt(
                            writes[j]->Err_0,
                        );
                assert(rest[i - 1] is Ok);
                assert forall|j: int| 0 <= j < i - 1 implies (#[trigger] rest[j]) is Err
                    && worth_another_attempt(rest[j]->Err_0) by {
                    assert(writes[j + 1] == rest[j]);
                }
            }
        },
    }
}

/// What is left of the announced sessions when a session stops being tracked: another
/// session in its place stays.
pub open spec fn without_session(
    owned: Map<Seq<char>, Seq<char>>,
    sandbox_id: Seq<char>,
    session_id: Seq<char>,
) -> Map<Seq<char>, Seq<char>> {
    if owned.contains_key(sandbox_id) && owned[sandbox_id] == session_id {
        owned.remove(sandbox_id)
    } else {
        owned
    }
}

/// The version of the row to remove: the replica's own row, if it still names the replica
/// and the session.
pub open spec fn withdrawable(
    own: Option<LivenessRecordView>,
    replica_id: Seq<char>,
    session_id: Seq<char>,
) -> Option<u64> {
    match own {
        Some(record) => if record.replica_id == replica_id && record.session_id == session_id {
            Some(record.resource_version)
        } else {
            None
        },
        None => None,
    }
}

/// The number of outcomes of each kind.
pub open spec fn tally(outcomes: Seq<Result<bool, LivenessError>>) -> (int, int, int)
    decreases outcomes.len(),
{
    if outcomes.len() == 0 {
        (0, 0, 0)
    } else {
        let (released, skipped, failed) = tally(outcomes.drop_last());
        match outcomes.last() {
            Ok(true) => (released + 1, skipped, failed),
            Ok(false) => (released, skipped + 1, failed),
            Err(_) => (released, skipped, failed + 1),
        }
    }
}

/// The list has the tracked sessions by their sandboxes, once each.
pub open spec fn lists_rows(
    rows: Seq<(Seq<char>, Seq<char>)>,
    owned: Map<Seq<char>, Seq<char>>,
) -> bool {
    &&& forall|i: int|
        0 <= i < rows.len() ==> owned.contains_key((#[trigger] rows[i]).0) && owned[rows[i].0]
            == rows[i].1
    &&& forall|k: Seq<char>| #[trigger]
        owned.contains_key(k) ==> exists|i: int| 0 <= i < rows.len() && (#[trigger] rows[i]).0 == k
    &&& forall|i: int, j: int|
        0 <= i < j < rows.len() ==> (#[trigger] rows[i]).0 != (#[trigger] rows[j]).0
}

/// What a list of sandboxes and sessions stands for.
pub open spec fn row_views(rows: Seq<(String, String)>) -> Seq<(Seq<char>, Seq<char>)> {
    rows.map_values(|row: (String, String)| (row.0@, row.1@))
}

/// The row at `i` is believed, none is fresher, and none after it is as fresh.
pub open spec fn is_freshest(
    records: Seq<LivenessRecordView>,
    now_ms: i64,
    ttl_ms: int,
    i: int,
) -> bool {
    &&& 0 <= i < records.len()
    &&& row_age(now_ms, records[i].updated_at_ms) < ttl_ms
    &&& forall|j: int|
        0 <= j < records.len() && row_age(now_ms, (#[trigger] records[j]).updated_at_ms) < ttl_ms
            ==> records[j].renewed_at_ms <= records[i].renewed_at_ms && (j > i
            ==> records[j].renewed_at_ms < records[i].renewed_at_ms)
}

impl SessionLiveness {
    /// The milliseconds for which a row is believed, as rows are aged by them.
    pub open spec fn ttl_bound(&self) -> int {
        if self.ttl() > i64::MAX {
            i64::MAX as int
        } else {
            self.ttl() as int
        }
    }

    /// The same replica, whatever it has announced.
    pub open spec fn same_replica(&self, other: Self) -> bool {
        self.replica() == other.replica() && self.address() == other.address() && self.ttl()
            == other.ttl()
    }

    /// The outcome of writing this replica's row for a sandbox.
    pub fn put_outcome(&self, sandbox_id: &str, stored: Result<u64, PersistenceError>) -> (r: Result<
        u64,
        LivenessError,
    >)
        ensures
            outcome_view(r) == write_outcome(stored, row_key(sandbox_id@, self.replica())),
    {
        match stored {
            Ok(version) => Ok(version),
            Err(error) => match error.kind {
                PersistenceErrorKind::UniqueViolation => Err(
                    LivenessError::KeyTaken {
                        key: liveness_object_id(sandbox_id, &self.replica_id),
                    },
                ),
                PersistenceErrorKind::Conflict => Err(LivenessError::Conflict),
                _ => Err(LivenessError::Store(error)),
            },
        }
    }

    /// Takes in what the write of an announcement came to. A replica writes only its own
    /// row, so a row that changed is a reconnect racing its own cleanup, and is written
    /// again.
    pub fn announce(
        &mut self,
        sandbox_id: &str,
        session_id: &str,
        failed_attempts: usize,
        written: Result<u64, LivenessError>,
    ) -> (r: AnnounceStep)
        ensures
            final(self).same_replica(*old(self)),
            written is Ok ==> final(self).owned() == old(self).owned().insert(
                sandbox_id@,
                session_id@,
            ),
            written is Err ==> final(self).owned() == old(self).owned(),
            match announce_step(failed_attempts as int, outcome_view(written)) {
                None => r is ReadAgain,
                Some(Ok(version)) => r is Announced && r->Announced_0.session() == session_id@
                    && r->Announced_0.version() == version,
                Some(Err(error)) => r is Failed && r->Failed_0@ == error,
            },
    {
        match written {
            Ok(resource_version) => {
                self.owned.insert(sandbox_id.to_owned(), session_id.to_owned());
                AnnounceStep::Announced(
                    LivenessHandle { session_id: session_id.to_owned(), resource_version },
                )
            },
            Err(error) => {
                let again = match &error {
                    LivenessError::Conflict => true,
                    LivenessError::KeyTaken { key } => true,
                    _ => false,
                };
                if !again {
                    AnnounceStep::Failed(error)
                } else if failed_attempts < ANNOUNCE_CAS_ATTEMPTS - 1 {
                    AnnounceStep::ReadAgain
                } else {
                    AnnounceStep::Failed(
                        LivenessError::Contended { attempts: ANNOUNCE_CAS_ATTEMPTS },
                    )
                }
            },
        }
    }

    /// The condition under which a row is renewed: that it is the one last written.
    pub fn renewal_condition(claim: &LivenessHandle) -> (r: WriteCondition)
        ensures
            r == WriteCondition::MatchResourceVersion(claim.version()),
    {
        WriteCondition::MatchResourceVersion(claim.resource_version)
    }

    /// Takes in what the write of a renewal came to.
    pub fn renew(claim: &mut LivenessHandle, written: Result<u64, LivenessError>) -> (r: Result<
        (),
        LivenessError,
    >)
        ensures
            final(claim).session() == old(claim).session(),
            match written {
                Ok(version) => r is Ok && final(claim).version() == version,
                Err(error) => r is Err && r->Err_0@ == error@ && final(claim).version() == old(
                    claim,
                ).version(),
            },
    {
        match written {
            Ok(version) => {
                claim.resource_version = version;
                Ok(())
            },
            Err(error) => Err(error),
        }
    }

    /// Stops tracking a session, unless another has taken its place.
    pub fn forget_owned(&mut self, sandbox_id: &str, session_id: &str)
        ensures
            final(self).same_replica(*old(self)),
            final(self).owned() == without_session(old(self).owned(), sandbox_id@, session_id@),
    {
        let current = match self.owned.get(sandbox_id) {
            Some(announced_session) => same_text(announced_session, session_id),
            None => false,
        };
        if current {
            self.owned.remove(sandbox_id);
        }
    }

    /// Whether to remove this replica's row for a session, and at which version: only while
    /// it names this replica and the session. The cleanup of a session can run long after
    /// another took its place.
    pub fn withdraw(&self, own: &Option<LivenessRecord>, session_id: &str) -> (r: Option<u64>)
        ensures
            r == withdrawable(option_view(*own), self.replica(), session_id@),
    {
        match own {
            Some(record) => if same_text(&record.replica_id, &self.replica_id) && same_text(
                &record.session_id,
                session_id,
            ) {
                Some(record.resource_version)
            } else {
                None
            },
            None => None,
        }
    }

    /// Takes all tracked sessions out, for a shutdown.
    pub fn take_owned(&mut self) -> (r: Vec<(String, String)>)
        ensures
            final(self).same_replica(*old(self)),
            final(self).owned() == Map::<Seq<char>, Seq<char>>::empty(),
            lists_rows(row_views(r@), old(self).owned()),
    {
        let ghost all = self.owned@;
        let n: usize = self.owned.len();
        let ghost keys = self.owned.keys();
        let mut r: Vec<(String, String)> = Vec::new();
        let mut i: usize = 0;
        while i < n
            invariant
                self.owned@ == all,
                self.owned.keys() == keys,
                self.same_replica(*old(self)),
                n == keys.len(),
                i <= n,
                r.len() == i,
                forall|j: int|
                    0 <= j < i ==> (#[trigger] r@[j]).0@ == keys[j] && r@[j].1@ == all[keys[j]],
            decreases n - i,
        {
            r.push((self.owned.key_at(i).clone(), self.owned.value_at(i).clone()));
            i += 1;
        }
        proof {
            let rows = row_views(r@);
            assert forall|i: int| 0 <= i < rows.len() implies (#[trigger] rows[i]) == (
                keys[i],
                all[keys[i]],
            ) && all.contains_key(keys[i]) by {
                assert(r@[i].0@ == keys[i]);
                assert(keys.contains(keys[i]));
            }
            assert forall|k: Seq<char>| #[trigger] all.contains_key(k) implies exists|i: int|
                0 <= i < rows.len() && (#[trigger] rows[i]).0 == k by {
                assert(keys.contains(k));
                let i = choose|i: int| 0 <= i < keys.len() && keys[i] == k;
                assert(rows[i].0 == k);
            }
            assert forall|i: int, j: int| 0 <= i < j < rows.len() implies (#[trigger] rows[i]).0 != (
            #[trigger] rows[j]).0 by {
                assert(crate::string_map::key_order()(keys[i], keys[j]));
                crate::text::lemma_precedes_irreflexive(keys[i]);
            }
        }
        self.owned = StringMap::new();
        r
    }

    /// A replica that holds a session for the sandbox that the rows are of: that of the
    /// freshest row that is still believed, the last of several as fresh. An expired row
    /// names a replica that stopped renewing.
    pub fn lookup(&self, records: &Vec<LivenessRecord>, now_ms: i64) -> (r: Option<LivenessRecord>)
        ensures
            match r {
                Some(record) => exists|i: int|
                    is_freshest(views(records@), now_ms, self.ttl_bound(), i) && record@ == views(
                        records@,
                    )[i],
                None => forall|i: int|
                    0 <= i < records@.len() ==> row_age(
                        now_ms,
                        (#[trigger] records@[i]).updated_at_ms,
                    ) >= self.ttl_bound(),
            },
    {
        let ttl: i64 = self.ttl_ms();
        let ghost all = views(records@);
        let mut best: Option<usize> = None;
        let mut i: usize = 0;
        while i < records.len()
            invariant
                ttl == self.ttl_bound(),
                all == views(records@),
                i <= records.len(),
                match best {
                    Some(b) => b < i && is_freshest(all.take(i as int), now_ms, ttl as int, b as int),
                    None => forall|j: int|
                        0 <= j < i ==> row_age(now_ms, (#[trigger] records@[j]).updated_at_ms)
                            >= ttl,
                },
            decreases records.len() - i,
        {
            let ghost before = all.take(i as int);
            let ghost next = all.take(i as int + 1);
            proof {
                assert(next[i as int] == records@[i as int]@);
                assert(forall|j: int| 0 <= j < i ==> next[j] == before[j]);
                assert(forall|j: int| 0 <= j < i ==> #[trigger] before[j] == records@[j]@);
            }
            if !record_is_expired(now_ms, records[i].updated_at_ms, ttl) {
                let fresher = match best {
                    Some(b) => records[b].renewed_at_ms <= records[i].renewed_at_ms,
                    None => true,
                };
                if fresher {
                    proof {
                        assert forall|j: int|
                            0 <= j < next.len() && row_age(
                                now_ms,
                                (#[trigger] next[j]).updated_at_ms,
                            ) < ttl implies next[j].renewed_at_ms <= next[i as int].renewed_at_ms
                            && (j > i ==> next[j].renewed_at_ms < next[i as int].renewed_at_ms) by {
                            if j < i {
                                assert(before[j] == records@[j]@);
                            }
                        }
                    }
                    best = Some(i);
                } else {
                    proof {
                        assert(is_freshest(next, now_ms, ttl as int, best->0 as int));
                    }
                }
            } else {
                proof {
                    if best is Some {
                        assert(is_freshest(next, now_ms, ttl as int, best->0 as int));
                    }
                }
            }
            i += 1;
        }
        proof {
            assert(all.take(all.len() as int) =~= all);
        }
        match best {
            Some(b) => {
                let record = records[b].clone();
                proof {
                    assert(record@ == all[b as int]);
                }
                Some(record)
            },
            None => None,
        }
    }
}

impl SessionLiveness {
    /// Counts what withdrawing each row came to. Failures are counted and never passed on: what
    /// is left expires by itself.
    pub fn release_all_owned(outcomes: &Vec<Result<bool, LivenessError>>) -> (r: ReleaseAllSummary)
        ensures
            (r.released as int, r.skipped as int, r.failed as int) == tally(outcomes@),
            r.released + r.skipped + r.failed == outcomes@.len(),
    {
        let mut summary = ReleaseAllSummary { released: 0, skipped: 0, failed: 0 };
        let mut i: usize = 0;
        proof {
            assert(outcomes@.take(0) =~= Seq::empty());
        }
        while i < outcomes.len()
            invariant
                i <= outcomes.len(),
                (summary.released as int, summary.skipped as int, summary.failed as int) == tally(
                    outcomes@.take(i as int),
                ),
                summary.released + summary.skipped + summary.failed == i,
            decreases outcomes.len() - i,
        {
            proof {
                assert(outcomes@.take(i as int + 1).drop_last() =~= outcomes@.take(i as int));
                assert(outcomes@.take(i as int + 1).last() == outcomes@[i as int]);
            }
            match &outcomes[i] {
                Ok(true) => {
                    summary.released = summary.released + 1;
                },
                Ok(false) => {
                    summary.skipped = summary.skipped + 1;
                },
                Err(_) => {
                    summary.failed = summary.failed + 1;
                },
            }
            i += 1;
        }
        proof {
            assert(outcomes@.take(outcomes@.len() as int) =~= outcomes@);
        }
        summary
    }
}

/// Releasing all rows accounts for each of them, with one outcome for each: it is counted as
/// released, as skipped or as failed, and as failed exactly where the store failed. Nothing is
/// tracked afterwards, so releasing once more counts nothing.
pub proof fn law_release_accounts_for_every_row(
    owned: Map<Seq<char>, Seq<char>>,
    rows: Seq<(Seq<char>, Seq<char>)>,
    outcomes: Seq<Result<bool, LivenessError>>,
    rows_left: Seq<(Seq<char>, Seq<char>)>,
    outcomes_left: Seq<Result<bool, LivenessError>>,
)
    requires
        lists_rows(rows, owned),
        outcomes.len() == rows.len(),
        lists_rows(rows_left, Map::<Seq<char>, Seq<char>>::empty()),
        outcomes_left.len() == rows_left.len(),
    ensures
        owned.dom().finite(),
        ({
            let (released, skipped, failed) = tally(outcomes);
            &&& released + skipped + failed == owned.dom().len()
            &&& released == outcomes.filter(
                |o: Result<bool, LivenessError>| o == Ok::<bool, LivenessError>(true),
            ).len()
            &&& skipped == outcomes.filter(
                |o: Result<bool, LivenessError>| o == Ok::<bool, LivenessError>(false),
            ).len()
            &&& failed == outcomes.filter(
                |o: Result<bool, LivenessError>| o is Err,
            ).len()
        }),
        tally(outcomes_left) == (0int, 0int, 0int),
{
    let keys = rows.map_values(|row: (Seq<char>, Seq<char>)| row.0);
    assert(keys.no_duplicates()) by {
        assert forall|i: int, j: int| 0 <= i < j < keys.len() implies keys[i] != keys[j] by {
            assert(rows[i].0 != rows[j].0);
        }
    }
    assert forall|k: Seq<char>| keys.to_set().contains(k) <==> #[trigger] owned.contains_key(k) by {
        if owned.contains_key(k) {
            let i = choose|i: int| 0 <= i < rows.len() && (#[trigger] rows[i]).0 == k;
            assert(keys[i] == k);
        }
        if keys.contains(k) {
            let i = choose|i: int| 0 <= i < keys.len() && keys[i] == k;
            assert(rows[i].0 == k);
        }
    }
    keys.unique_seq_to_set();
    assert(keys.to_set() =~= owned.dom());
    lemma_tally(outcomes);
    if rows_left.len() > 0 {
        assert(Map::<Seq<char>, Seq<char>>::empty().contains_key(rows_left[0].0));
    }
}

/// Every outcome is counted, under its kind.
proof fn lemma_tally(outcomes: Seq<Result<bool, LivenessError>>)
    ensures
        ({
            let (released, skipped, failed) = tally(outcomes);
            &&& released + skipped + failed == outcomes.len()
            &&& released == outcomes.filter(
                |o: Result<bool, LivenessError>| o == Ok::<bool, LivenessError>(true),
            ).len()
            &&& skipped == outcomes.filter(
                |o: Result<bool, LivenessError>| o == Ok::<bool, LivenessError>(false),
            ).len()
            &&& failed == outcomes.filter(
                |o: Result<bool, LivenessError>| o is Err,
            ).len()
        }),
    decreases outcomes.len(),
{
    reveal(Seq::filter);
    if outcomes.len() > 0 {
        lemma_tally(outcomes.drop_last());
    }
}

/// A row is withdrawn only if it is the replica's own and still names the session that is
/// released: what another replica, or a later session, has written stays.
pub proof fn law_only_own_rows_are_withdrawn(
    own: Option<LivenessRecordView>,
    replica_id: Seq<char>,
    session_id: Seq<char>,
)
    ensures
        withdrawable(own, replica_id, session_id) is Some <==> own is Some && own->0.replica_id
            == replica_id && own->0.session_id == session_id,
{
}

/// The cleanup of a session that another took the place of neither stops the tracking of
/// that other session nor removes a row that names it.
pub proof fn law_superseded_cleanup_changes_nothing(
    owned: Map<Seq<char>, Seq<char>>,
    own: Option<LivenessRecordView>,
    replica_id: Seq<char>,
    sandbox_id: Seq<char>,
    old_session: Seq<char>,
    new_session: Seq<char>,
)
    requires
        old_session != new_session,
        own is Some ==> own->0.session_id == new_session,
    ensures
        without_session(owned.insert(sandbox_id, new_session), sandbox_id, old_session)
            == owned.insert(sandbox_id, new_session),
        withdrawable(own, replica_id, old_session) is None,
{
}

/// The row that [`SessionLiveness::lookup`] picks is the only one it can pick.
pub proof fn law_freshest_row_is_unique(
    records: Seq<LivenessRecordView>,
    now_ms: i64,
    ttl_ms: int,
    i: int,
    j: int,
)
    requires
        is_freshest(records, now_ms, ttl_ms, i),
        is_freshest(records, now_ms, ttl_ms, j),
    ensures
        i == j,
{
    assert(records[i].renewed_at_ms <= records[j].renewed_at_ms);
    assert(records[j].renewed_at_ms <= records[i].renewed_at_ms);
}

/// A clock that is ahead never makes a row look old, unless no row is ever believed.
pub proof fn law_future_rows_have_no_age(now_ms: i64, updated_at_ms: i64)
    ensures
        updated_at_ms >= now_ms ==> row_age(now_ms, updated_at_ms) == 0,
        row_age(now_ms, updated_at_ms) >= 0,
{
}

// Addresses.
/// A setting without white space around it, if anything is left.
pub open spec fn given(value: Option<&str>) -> Option<Seq<char>> {
    match value {
        Some(text) => if trimmed(text@).len() > 0 {
            Some(trimmed(text@))
        } else {
            None
        },
        None => None,
    }
}

/// A name suffix without dots and white space around it, if anything is left.
pub open spec fn given_suffix(value: Option<&str>) -> Option<Seq<char>> {
    match value {
        Some(text) => if canonical_name(text@).len() > 0 {
            Some(canonical_name(text@))
        } else {
            None
        },
        None => None,
    }
}

fn given_text(value: Option<&str>) -> (r: Option<String>)
    ensures
        option_view(r) == given(value),
{
    match value {
        Some(text) => {
            let trimmed_text = trim(text);
            if trimmed_text.as_str().is_empty() {
                None
            } else {
                Some(trimmed_text)
            }
        },
        None => None,
    }
}

fn given_suffix_text(value: Option<&str>) -> (r: Option<String>)
    ensures
        option_view(r) == given_suffix(value),
{
    match value {
        Some(text) => {
            let suffix = strip(&trim(text), '.');
            if suffix.as_str().is_empty() {
                None
            } else {
                Some(suffix)
            }
        },
        None => None,
    }
}

/// The address at which other replicas reach this one: what is set, or else the pod's name
/// under the headless Service, or else nothing.
pub open spec fn advertised_address(
    override_address: Option<&str>,
    pod_ip: Option<&str>,
    dns_suffix: Option<&str>,
    grpc_port: u16,
) -> Seq<char> {
    match (given(override_address), given(pod_ip), given_suffix(dns_suffix)) {
        (Some(address), _, _) => address,
        (None, Some(ip), Some(suffix)) => replaced(ip, '.', ':', '-') + "."@ + suffix + ":"@
            + decimal(grpc_port as nat),
        _ => Seq::empty(),
    }
}

/// The address at which other replicas reach this one, empty where it is not known. A row
/// is kept in that case too, but no one is sent here.
pub fn build_advertise_address(
    override_address: Option<&str>,
    pod_ip: Option<&str>,
    dns_suffix: Option<&str>,
    grpc_port: u16,
) -> (r: String)
    ensures
        r@ == advertised_address(override_address, pod_ip, dns_suffix, grpc_port),
{
    if let Some(address) = given_text(override_address) {
        return address;
    }
    match (given_text(pod_ip), given_suffix_text(dns_suffix)) {
        (Some(ip), Some(suffix)) => {
            let mut address = replace(&ip, '.', ':', '-');
            address.append(".");
            address.append(&suffix);
            address.append(":");
            address.append(&decimal_text(grpc_port as u64));
            address
        },
        _ => String::new(),
    }
}

/// A replica that is told nothing else advertises itself under the name by which it is
/// a member of the fleet.
pub proof fn law_advertised_address_is_the_member_name(
    pod_ip: &str,
    dns_suffix: &str,
    grpc_port: u16,
)
    requires
        trimmed(pod_ip@).len() > 0,
        canonical_name(dns_suffix@).len() > 0,
    ensures
        advertised_address(None, Some(pod_ip), Some(dns_suffix), grpc_port) == member_name(
            trimmed(pod_ip@),
            dns_suffix@,
            grpc_port,
        ),
{
}

} // verus!
