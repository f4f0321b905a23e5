//! Conflict and recovery records: the two competing intents of a conflict
//! and their resolution, and the logical snapshot plus operation journal a
//! project is rebuilt from, with its recovery and quarantine lifecycle.
use vstd::prelude::*;
use vstd::string::StringExecFns;
use vstd::utf8::encode_utf8;

use crate::command::CommandBatch;
use crate::ids::{OperationId, ProjectId};
use crate::model::{Actor, RevisionId, StudioDesignSnapshot};
use crate::text::{chars_before, has_control, trim_whitespace};

verus! {

/// Whether a conflict still awaits a user choice.
#[derive(Clone, Copy, Debug, PartialEq, Eq, Structural)]
pub enum ConflictStatus {
    /// Neither intent has been selected yet.
    Pending,
    /// A user-selected resolution plan has been retained.
    Resolved,
}

/// Explicit resolution choices exposed by the conflict center.
#[derive(Clone, Copy, Debug, PartialEq, Eq, Structural)]
pub enum ResolutionChoice {
    /// Continue with the local intent while retaining the remote intent.
    KeepLocal,
    /// Continue with the remote intent while retaining the local intent.
    KeepRemote,
    /// Preserve both intents as branches for a later merge.
    KeepBoth,
}

/// The recovery lifecycle of one project.
#[derive(Clone, Copy, Debug, PartialEq, Eq, Structural)]
pub enum RecoveryState {
    /// The project can be restored from its local logical bundle.
    Recoverable,
    /// An upgrade stopped before its migration completed.
    InterruptedUpgrade { from_schema: u16, to_schema: u16 },
    /// A migration is staged and must not be opened as a project.
    Migrating { from_schema: u16, to_schema: u16 },
    /// The last restore attempt failed but source data remains available.
    RestoreFailed,
    /// The project is isolated from normal opening pending operator action.
    Quarantined,
    /// Recovery completed and the project may be opened.
    Restored,
}

/// The schema of conflict and recovery records.
pub const RESILIENCE_SCHEMA_VERSION: u16 = 1;

/// The longest operator-facing reason, in UTF-8 bytes.
pub const MAX_REASON_LENGTH: usize = 512;

/// Errors of the conflict and recovery centers.
#[derive(Debug, PartialEq, Eq)]
pub enum ResilienceError {
    InvalidRecord(String),
    ProjectMismatch,
    JournalGap,
    DuplicateConflict,
    DuplicateRecovery,
    ConflictNotFound(String),
    RecoveryNotFound(String),
    AlreadyResolved,
    NotRecoverable,
    InvalidRecoveryTransition,
}

/// The state after beginning a migration: only an interrupted upgrade moves,
/// to migrating with the same schemas.
pub open spec fn migration_begun(s: RecoveryState) -> Option<RecoveryState> {
    match s {
        RecoveryState::InterruptedUpgrade { from_schema, to_schema } => Some(RecoveryState::Migrating { from_schema, to_schema }),
        _ => None,
    }
}

/// Begin the staged migration of an interrupted upgrade.
pub fn begin_migration(state: &mut RecoveryState) -> (r: Result<(), ResilienceError>)
    ensures
        match migration_begun(*old(state)) {
            Some(s) => r is Ok && *final(state) == s,
            None => r == Err::<(), ResilienceError>(ResilienceError::InvalidRecoveryTransition) && *final(state) == *old(state),
        },
{
    match *state {
        RecoveryState::InterruptedUpgrade { from_schema, to_schema } => {
            *state = RecoveryState::Migrating { from_schema, to_schema };
            Ok(())
        },
        _ => Err(ResilienceError::InvalidRecoveryTransition),
    }
}

/// Mark a recoverable or migrating project restored.
pub fn mark_restored(state: &mut RecoveryState) -> (r: Result<(), ResilienceError>)
    ensures
        (*old(state) == RecoveryState::Recoverable || (*old(state) is Migrating)) ==> (r is Ok) && *final(state) == RecoveryState::Restored,
        !(*old(state) == RecoveryState::Recoverable || (*old(state) is Migrating)) ==> r == Err::<(), ResilienceError>(ResilienceError::InvalidRecoveryTransition)
            && *final(state) == *old(state),
{
    match *state {
        RecoveryState::Recoverable | RecoveryState::Migrating { .. } => {
            *state = RecoveryState::Restored;
            Ok(())
        },
        _ => Err(ResilienceError::InvalidRecoveryTransition),
    }
}

/// Whether opening the project is safe without another recovery action.
pub fn can_open(state: RecoveryState) -> (r: bool)
    ensures
        r == (state == RecoveryState::Restored),
{
    match state {
        RecoveryState::Restored => true,
        _ => false,
    }
}

/// A project can only be opened through a restore: an interrupted upgrade
/// needs a migration and a restore before it opens.
pub proof fn lemma_upgrade_opens_after_restore(from_schema: u16, to_schema: u16)
    ensures
        migration_begun((RecoveryState::InterruptedUpgrade { from_schema, to_schema })) == Some((RecoveryState::Migrating { from_schema, to_schema })),
        (RecoveryState::InterruptedUpgrade { from_schema, to_schema }) != RecoveryState::Restored,
        (RecoveryState::Migrating { from_schema, to_schema }) != RecoveryState::Restored,
{
}

/// Whether an error reports an invalid record of the named part.
pub open spec fn invalid_record(e: ResilienceError, what: Seq<char>) -> bool {
    e matches ResilienceError::InvalidRecord(m) && m@ == what
}

fn invalid(what: &str) -> (r: ResilienceError)
    ensures
        invalid_record(r, what@),
{
    ResilienceError::InvalidRecord(String::from_str(what))
}

/// A display name holds `1..=256` UTF-8 bytes, is not blank and has no
/// control characters.
pub open spec fn valid_display_name(name: Seq<char>) -> bool {
    trim_whitespace(name).len() != 0 && encode_utf8(name).len() <= 256 && !has_control(name)
}

/// One complete authoring intent retained when two revisions conflict.
#[derive(Clone, Debug, PartialEq)]
pub struct ConflictIntent {
    /// The operation identity submitted by the author.
    pub operation_id: OperationId,
    /// The actor that authored the operation.
    pub actor: Actor,
    /// Revision against which the intent was authored.
    pub base_revision: RevisionId,
    /// The command batch, kept whole.
    pub batch: CommandBatch,
    /// Revision assigned before the conflict was detected, if any.
    pub resulting_revision: Option<RevisionId>,
}

/// Whether an intent copy keeps the metadata of the original; its batch is
/// a copy made by the batch's derived `Clone`.
pub open spec fn intent_copy(a: ConflictIntent, b: ConflictIntent) -> bool {
    &&& a.operation_id == b.operation_id
    &&& a.actor == b.actor
    &&& a.base_revision == b.base_revision
    &&& a.resulting_revision == b.resulting_revision
}

impl ConflictIntent {
    /// An intent built from its original command batch, refused when the
    /// author's display name is unsafe.
    pub fn new(batch: CommandBatch, resulting_revision: Option<RevisionId>) -> (r: Result<Self, ResilienceError>)
        ensures
            r is Ok <==> valid_display_name(batch.actor.display_name@),
            r matches Err(e) ==> invalid_record(e, "conflict intent metadata"@),
            r matches Ok(i) ==> {
                &&& i.operation_id == batch.operation_id
                &&& i.actor == batch.actor
                &&& i.base_revision == batch.base_revision
                &&& i.batch == batch
                &&& i.resulting_revision == resulting_revision
            },
    {
        let name = batch.actor.display_name.as_str();
        if crate::content::is_blank(name) || crate::content::longer_than_256_bytes(name)
            || crate::text::contains_control(name) {
            return Err(invalid("conflict intent metadata"));
        }
        Ok(ConflictIntent {
            operation_id: batch.operation_id.copy(),
            actor: batch.actor.copy(),
            base_revision: batch.base_revision,
            batch,
            resulting_revision,
        })
    }

    /// The number of commands of the intent.
    pub fn command_count(&self) -> (r: usize)
        ensures
            r == self.batch.commands@.len(),
    {
        self.batch.commands.len()
    }

    fn copy(&self) -> (r: Self)
        ensures
            intent_copy(r, *self),
    {
        ConflictIntent {
            operation_id: self.operation_id.copy(),
            actor: self.actor.copy(),
            base_revision: self.base_revision,
            batch: self.batch.clone(),
            resulting_revision: self.resulting_revision,
        }
    }
}

/// The identity of a conflict: project, local operation and remote operation.
pub open spec fn conflict_key(project: Seq<char>, local: Seq<char>, remote: Seq<char>) -> Seq<char> {
    project + ":"@ + local + ":"@ + remote
}

/// A durable conflict record holding both competing intents.
#[derive(Clone, Debug, PartialEq)]
pub struct ConflictRecord {
    /// Record schema version.
    pub schema_version: u16,
    /// Deterministic conflict identity.
    pub conflict_id: String,
    /// Project to which both intents belong.
    pub project_id: ProjectId,
    /// Host-provided logical detection time.
    pub detected_at: u64,
    /// Local intent.
    pub local: ConflictIntent,
    /// Remote intent.
    pub remote: ConflictIntent,
    /// Current lifecycle state.
    pub status: ConflictStatus,
    /// Chosen resolution, once handled.
    pub resolution: Option<ResolutionChoice>,
}

/// The result of resolving a conflict; both intents stay available.
#[derive(Debug, PartialEq)]
pub struct ResolutionPlan {
    /// Conflict record being resolved.
    pub conflict_id: String,
    /// Choice selected by the operator.
    pub choice: ResolutionChoice,
    /// Intents retained by the plan, in precedence order.
    pub retained: Vec<ConflictIntent>,
}

impl ConflictRecord {
    /// A pending conflict with an identity derived from both operations,
    /// refused when either intent belongs to another project.
    pub fn new(project_id: ProjectId, detected_at: u64, local: ConflictIntent, remote: ConflictIntent) -> (r: Result<Self, ResilienceError>)
        ensures
            (local.batch.project_id@ != project_id@ || remote.batch.project_id@ != project_id@) ==> r
                == Err::<Self, ResilienceError>(ResilienceError::ProjectMismatch),
            (local.batch.project_id@ == project_id@ && remote.batch.project_id@ == project_id@) ==> (r matches Ok(c) && {
                &&& c.schema_version == RESILIENCE_SCHEMA_VERSION
                &&& c.conflict_id@ == conflict_key(project_id@, local.operation_id@, remote.operation_id@)
                &&& c.project_id == project_id
                &&& c.detected_at == detected_at
                &&& c.local == local
                &&& c.remote == remote
                &&& c.status == ConflictStatus::Pending
                &&& c.resolution is None
            }),
    {
        if !local.batch.project_id.same(&project_id) || !remote.batch.project_id.same(&project_id) {
            return Err(ResilienceError::ProjectMismatch);
        }
        let conflict_id = Self::deterministic_id(&project_id, &local, &remote);
        Ok(ConflictRecord {
            schema_version: RESILIENCE_SCHEMA_VERSION,
            conflict_id,
            project_id,
            detected_at,
            local,
            remote,
            status: ConflictStatus::Pending,
            resolution: None,
        })
    }

    /// The identity of a conflict between two intents of a project.
    pub fn deterministic_id(project_id: &ProjectId, local: &ConflictIntent, remote: &ConflictIntent) -> (r: String)
        ensures
            r@ == conflict_key(project_id@, local.operation_id@, remote.operation_id@),
    {
        let mut id = String::from_str(project_id.as_str());
        id.append(":");
        id.append(local.operation_id.as_str());
        id.append(":");
        id.append(remote.operation_id.as_str());
        id
    }

    /// Resolve a pending record, keeping both intents: the chosen one first,
    /// the local one first when both are kept.
    pub fn resolve(&mut self, choice: ResolutionChoice) -> (r: Result<ResolutionPlan, ResilienceError>)
        ensures
            old(self).status == ConflictStatus::Resolved ==> r == Err::<ResolutionPlan, ResilienceError>(
                ResilienceError::AlreadyResolved,
            ) && *final(self) == *old(self),
            old(self).status == ConflictStatus::Pending ==> (r matches Ok(plan) && {
                &&& *final(self) == (ConflictRecord {
                    status: ConflictStatus::Resolved,
                    resolution: Some(choice),
                    ..*old(self)
                })
                &&& plan.conflict_id@ == old(self).conflict_id@
                &&& plan.choice == choice
                &&& plan.retained@.len() == 2
                &&& if choice == ResolutionChoice::KeepRemote {
                    intent_copy(plan.retained@[0], old(self).remote) && intent_copy(plan.retained@[1], old(self).local)
                } else {
                    intent_copy(plan.retained@[0], old(self).local) && intent_copy(plan.retained@[1], old(self).remote)
                }
            }),
    {
        if self.status == ConflictStatus::Resolved {
            return Err(ResilienceError::AlreadyResolved);
        }
        self.status = ConflictStatus::Resolved;
        self.resolution = Some(choice);
        let mut retained: Vec<ConflictIntent> = Vec::new();
        match choice {
            ResolutionChoice::KeepRemote => {
                retained.push(self.remote.copy());
                retained.push(self.local.copy());
            },
            _ => {
                retained.push(self.local.copy());
                retained.push(self.remote.copy());
            },
        }
        Ok(ResolutionPlan { conflict_id: self.conflict_id.clone(), choice, retained })
    }

    /// Whether the record still needs operator action.
    pub fn is_pending(&self) -> (r: bool)
        ensures
            r == (self.status == ConflictStatus::Pending),
    {
        self.status == ConflictStatus::Pending
    }
}

/// A logical, engine-independent snapshot a recovery bundle starts from.
#[derive(Clone, Debug, PartialEq)]
pub struct LogicalSnapshot {
    /// Recovery schema version.
    pub schema_version: u16,
    /// Project represented by the snapshot.
    pub project_id: ProjectId,
    /// Complete design state at the snapshot revision.
    pub revision: StudioDesignSnapshot,
    /// Number of journal entries already included.
    pub journal_cursor: u64,
    /// Host-provided logical capture time.
    pub captured_at: u64,
}

impl LogicalSnapshot {
    /// A logical snapshot of a design snapshot, refused when the design
    /// belongs to another project.
    pub fn new(project_id: ProjectId, revision: StudioDesignSnapshot, journal_cursor: u64, captured_at: u64) -> (r: Result<Self, ResilienceError>)
        ensures
            revision.design.project_id@ != project_id@ ==> r == Err::<Self, ResilienceError>(ResilienceError::ProjectMismatch),
            revision.design.project_id@ == project_id@ ==> r == Ok::<Self, ResilienceError>(
                LogicalSnapshot { schema_version: RESILIENCE_SCHEMA_VERSION, project_id, revision, journal_cursor, captured_at },
            ),
    {
        if !revision.design.project_id.same(&project_id) {
            return Err(ResilienceError::ProjectMismatch);
        }
        Ok(LogicalSnapshot { schema_version: RESILIENCE_SCHEMA_VERSION, project_id, revision, journal_cursor, captured_at })
    }
}

/// One accepted operation after a logical snapshot.
#[derive(Clone, Debug, PartialEq)]
pub struct JournalEntry {
    /// Operation-log position.
    pub sequence: u64,
    /// Project owning the operation.
    pub project_id: ProjectId,
    /// Original command batch to replay.
    pub batch: CommandBatch,
    /// Revision expected after replaying this entry.
    pub committed_revision: RevisionId,
}

impl JournalEntry {
    /// A journal entry, refused at position zero or for another project's batch.
    pub fn new(sequence: u64, project_id: ProjectId, batch: CommandBatch, committed_revision: RevisionId) -> (r: Result<Self, ResilienceError>)
        ensures
            (sequence == 0 || batch.project_id@ != project_id@) ==> (r matches Err(e) && invalid_record(e, "journal entry metadata"@)),
            !(sequence == 0 || batch.project_id@ != project_id@) ==> r == Ok::<Self, ResilienceError>(
                JournalEntry { sequence, project_id, batch, committed_revision },
            ),
    {
        if sequence == 0 || !batch.project_id.same(&project_id) {
            return Err(invalid("journal entry metadata"));
        }
        Ok(JournalEntry { sequence, project_id, batch, committed_revision })
    }
}

/// Snapshot-plus-journal input a project is rebuilt from.
#[derive(Clone, Debug, PartialEq)]
pub struct RecoveryBundle {
    /// Base logical snapshot.
    pub snapshot: LogicalSnapshot,
    /// Ordered operations not included in the snapshot.
    pub journal: Vec<JournalEntry>,
}

/// The next position after `s`, saturating.
pub open spec fn next_sequence(s: u64) -> u64 {
    if s < u64::MAX {
        (s + 1) as u64
    } else {
        u64::MAX
    }
}

/// Whether journal entries continue a chain from position `sequence` and
/// revision `revision`: each belongs to the project, sits at the expected
/// position and is based on the revision its predecessor committed.
pub open spec fn journal_chains(project: Seq<char>, sequence: u64, revision: RevisionId, journal: Seq<JournalEntry>) -> bool
    decreases journal.len(),
{
    if journal.len() == 0 {
        true
    } else {
        let e = journal[0];
        &&& e.project_id@ == project
        &&& e.batch.project_id@ == project
        &&& e.sequence == sequence
        &&& e.batch.base_revision == revision
        &&& journal_chains(project, next_sequence(sequence), e.committed_revision, journal.drop_first())
    }
}

/// Why a bundle cannot be rebuilt, if it cannot.
#[derive(Clone, Copy, Debug, PartialEq, Eq, Structural)]
pub enum BundleFault {
    /// The snapshot's schema or project is wrong.
    SnapshotMetadata,
    /// The journal does not continue the snapshot.
    JournalGap,
}

/// The fault of a bundle, if any.
pub open spec fn bundle_fault(b: RecoveryBundle) -> Option<BundleFault> {
    if b.snapshot.schema_version != RESILIENCE_SCHEMA_VERSION || b.snapshot.revision.design.project_id@
        != b.snapshot.project_id@ {
        Some(BundleFault::SnapshotMetadata)
    } else if !journal_chains(
        b.snapshot.project_id@,
        next_sequence(b.snapshot.journal_cursor),
        b.snapshot.revision.revision.id,
        b.journal@,
    ) {
        Some(BundleFault::JournalGap)
    } else {
        None
    }
}

/// Whether an error reports a bundle fault.
pub open spec fn reports_bundle_fault(e: ResilienceError, f: BundleFault) -> bool {
    match f {
        BundleFault::SnapshotMetadata => invalid_record(e, "logical snapshot metadata"@),
        BundleFault::JournalGap => e == ResilienceError::JournalGap,
    }
}

impl RecoveryBundle {
    /// Check the snapshot metadata and that the journal continues it.
    pub fn validate(&self) -> (r: Result<(), ResilienceError>)
        ensures
            match bundle_fault(*self) {
                Some(f) => r matches Err(e) && reports_bundle_fault(e, f),
                None => r is Ok,
            },
    {
        if self.snapshot.schema_version != RESILIENCE_SCHEMA_VERSION || !self.snapshot.revision.design.project_id.same(
            &self.snapshot.project_id,
        ) {
            return Err(invalid("logical snapshot metadata"));
        }
        let project = &self.snapshot.project_id;
        let mut expected_sequence = self.snapshot.journal_cursor.saturating_add(1);
        let mut expected_revision = self.snapshot.revision.revision.id;
        let ghost j = self.journal@;
        let mut i: usize = 0;
        assert(j.skip(0) =~= j);
        while i < self.journal.len()
            invariant
                i <= j.len(),
                j == self.journal@,
                self.snapshot.schema_version == RESILIENCE_SCHEMA_VERSION,
                self.snapshot.revision.design.project_id@ == self.snapshot.project_id@,
                *project == self.snapshot.project_id,
                journal_chains(project@, next_sequence(self.snapshot.journal_cursor), self.snapshot.revision.revision.id, j)
                    == journal_chains(project@, expected_sequence, expected_revision, j.skip(i as int)),
            decreases j.len() - i,
        {
            let entry = &self.journal[i];
            assert(j.skip(i as int)[0] == j[i as int]);
            assert(j.skip(i as int).drop_first() =~= j.skip(i + 1));
            if !entry.project_id.same(project) || !entry.batch.project_id.same(project) || entry.sequence
                != expected_sequence || entry.batch.base_revision != expected_revision {
                return Err(ResilienceError::JournalGap);
            }
            expected_sequence = expected_sequence.saturating_add(1);
            expected_revision = entry.committed_revision;
            i = i + 1;
        }
        Ok(())
    }
}

/// Durable recovery and quarantine record for one project.
#[derive(Clone, Debug, PartialEq)]
pub struct RecoveryRecord {
    /// Recovery schema version.
    pub schema_version: u16,
    /// Stable recovery record identity.
    pub recovery_id: String,
    /// Project represented by this record.
    pub project_id: ProjectId,
    /// Current recovery lifecycle state.
    pub state: RecoveryState,
    /// Snapshot and operation journal used for rebuilding.
    pub bundle: RecoveryBundle,
    /// Operator-facing reason for a failed or quarantined state.
    pub reason: Option<String>,
}

/// A recovery identity holds `1..=128` UTF-8 bytes and no control characters.
pub open spec fn valid_recovery_id(id: Seq<char>) -> bool {
    id.len() > 0 && encode_utf8(id).len() <= 128 && !has_control(id)
}

/// A reason holds `1..=512` UTF-8 bytes and no control characters.
pub open spec fn valid_reason(reason: Seq<char>) -> bool {
    reason.len() > 0 && encode_utf8(reason).len() <= MAX_REASON_LENGTH && !has_control(reason)
}

/// Check an operator-facing reason.
pub fn validate_reason(reason: &str) -> (r: Result<(), ResilienceError>)
    ensures
        valid_reason(reason@) ==> r is Ok,
        !valid_reason(reason@) ==> (r matches Err(e) && invalid_record(e, "recovery reason"@)),
{
    proof {
        crate::ids::lemma_utf8_len_bounds(reason@);
    }
    if reason.unicode_len() == 0 || crate::text::utf8_byte_len(reason) > MAX_REASON_LENGTH as u128
        || crate::text::contains_control(reason) {
        Err(invalid("recovery reason"))
    } else {
        Ok(())
    }
}

impl RecoveryRecord {
    /// A recoverable record of a bundle, refused for an unsafe identity or an
    /// invalid bundle.
    pub fn new(recovery_id: String, bundle: RecoveryBundle) -> (r: Result<Self, ResilienceError>)
        ensures
            !valid_recovery_id(recovery_id@) ==> (r matches Err(e) && invalid_record(e, "recovery identity"@)),
            valid_recovery_id(recovery_id@) ==> match bundle_fault(bundle) {
                Some(f) => r matches Err(e) && reports_bundle_fault(e, f),
                None => r matches Ok(rec) && {
                    &&& rec.schema_version == RESILIENCE_SCHEMA_VERSION
                    &&& rec.recovery_id == recovery_id
                    &&& rec.project_id == bundle.snapshot.project_id
                    &&& rec.state == RecoveryState::Recoverable
                    &&& rec.bundle == bundle
                    &&& rec.reason is None
                },
            },
    {
        proof {
            crate::ids::lemma_utf8_len_bounds(recovery_id@);
        }
        if recovery_id.as_str().unicode_len() == 0 || crate::text::utf8_byte_len(recovery_id.as_str()) > 128
            || crate::text::contains_control(recovery_id.as_str()) {
            return Err(invalid("recovery identity"));
        }
        match bundle.validate() {
            Err(e) => {
                return Err(e);
            },
            Ok(()) => {},
        }
        Ok(RecoveryRecord {
            schema_version: RESILIENCE_SCHEMA_VERSION,
            project_id: bundle.snapshot.project_id.copy(),
            state: RecoveryState::Recoverable,
            bundle,
            reason: None,
            recovery_id,
        })
    }

    /// Mark an interrupted upgrade as needing migration.
    pub fn interrupted_upgrade(&mut self, from_schema: u16, to_schema: u16)
        ensures
            *final(self) == (RecoveryRecord {
                state: RecoveryState::InterruptedUpgrade { from_schema, to_schema },
                ..*old(self)
            }),
    {
        self.state = RecoveryState::InterruptedUpgrade { from_schema, to_schema };
    }

    /// Move an interrupted upgrade into migration.
    pub fn begin_migration(&mut self) -> (r: Result<(), ResilienceError>)
        ensures
            match migration_begun(old(self).state) {
                Some(s) => r is Ok && *final(self) == (RecoveryRecord { state: s, ..*old(self) }),
                None => r == Err::<(), ResilienceError>(ResilienceError::InvalidRecoveryTransition) && *final(self)
                    == *old(self),
            },
    {
        begin_migration(&mut self.state)
    }

    /// Mark a recoverable or migrating record restored, clearing its reason.
    pub fn mark_restored(&mut self) -> (r: Result<(), ResilienceError>)
        ensures
            (old(self).state == RecoveryState::Recoverable || (old(self).state is Migrating)) ==> r is Ok && *final(self)
                == (RecoveryRecord { state: RecoveryState::Restored, reason: None, ..*old(self) }),
            !(old(self).state == RecoveryState::Recoverable || (old(self).state is Migrating)) ==> r == Err::<
                (),
                ResilienceError,
            >(ResilienceError::InvalidRecoveryTransition) && *final(self) == *old(self),
    {
        match mark_restored(&mut self.state) {
            Ok(()) => {
                self.reason = None;
                Ok(())
            },
            Err(e) => Err(e),
        }
    }

    /// Move a record into quarantine with a safe reason.
    pub fn quarantine(&mut self, reason: String) -> (r: Result<(), ResilienceError>)
        ensures
            valid_reason(reason@) ==> r is Ok && *final(self) == (RecoveryRecord {
                state: RecoveryState::Quarantined,
                reason: Some(reason),
                ..*old(self)
            }),
            !valid_reason(reason@) ==> (r matches Err(e) && invalid_record(e, "recovery reason"@) && *final(self)
                == *old(self)),
    {
        match validate_reason(reason.as_str()) {
            Err(e) => Err(e),
            Ok(()) => {
                self.state = RecoveryState::Quarantined;
                self.reason = Some(reason);
                Ok(())
            },
        }
    }

    /// Record a failed restore, keeping the bundle.
    pub fn restore_failed(&mut self, reason: String) -> (r: Result<(), ResilienceError>)
        ensures
            valid_reason(reason@) ==> r is Ok && *final(self) == (RecoveryRecord {
                state: RecoveryState::RestoreFailed,
                reason: Some(reason),
                ..*old(self)
            }),
            !valid_reason(reason@) ==> (r matches Err(e) && invalid_record(e, "recovery reason"@) && *final(self)
                == *old(self)),
    {
        match validate_reason(reason.as_str()) {
            Err(e) => Err(e),
            Ok(()) => {
                self.state = RecoveryState::RestoreFailed;
                self.reason = Some(reason);
                Ok(())
            },
        }
    }

    /// Whether opening the project is safe without another recovery action.
    pub fn can_open(&self) -> (r: bool)
        ensures
            r == (self.state == RecoveryState::Restored),
    {
        can_open(self.state)
    }
}

/// Whether one conflict record is internally consistent for a project:
/// schema, project of the record and both batches, intent metadata matching
/// its batch, deterministic identity, and a resolution exactly when resolved.
pub open spec fn conflict_sound(project: Seq<char>, r: ConflictRecord) -> bool {
    &&& r.schema_version == RESILIENCE_SCHEMA_VERSION
    &&& r.project_id@ == project
    &&& r.local.batch.project_id@ == project
    &&& r.remote.batch.project_id@ == project
    &&& r.local.operation_id@ == r.local.batch.operation_id@
    &&& r.remote.operation_id@ == r.remote.batch.operation_id@
    &&& r.local.base_revision == r.local.batch.base_revision
    &&& r.remote.base_revision == r.remote.batch.base_revision
    &&& r.conflict_id@ == conflict_key(r.project_id@, r.local.operation_id@, r.remote.operation_id@)
    &&& (r.status == ConflictStatus::Pending ==> r.resolution is None)
    &&& (r.status == ConflictStatus::Resolved ==> r.resolution is Some)
}

/// Whether conflict records are sound for a project and in strictly
/// increasing identity order.
pub open spec fn conflicts_sound(project: Seq<char>, rs: Seq<ConflictRecord>) -> bool {
    &&& forall|i: int| 0 <= i < rs.len() ==> conflict_sound(project, #[trigger] rs[i])
    &&& forall|i: int| 0 < i < rs.len() ==> chars_before(rs[i - 1].conflict_id@, #[trigger] rs[i].conflict_id@)
}

fn conflict_is_sound(project_id: &ProjectId, r: &ConflictRecord) -> (b: bool)
    ensures
        b == conflict_sound(project_id@, *r),
{
    let id = ConflictRecord::deterministic_id(&r.project_id, &r.local, &r.remote);
    r.schema_version == RESILIENCE_SCHEMA_VERSION && r.project_id.same(project_id) && r.local.batch.project_id.same(
        project_id,
    ) && r.remote.batch.project_id.same(project_id) && r.local.operation_id.same(&r.local.batch.operation_id)
        && r.remote.operation_id.same(&r.remote.batch.operation_id) && r.local.base_revision == r.local.batch.base_revision
        && r.remote.base_revision == r.remote.batch.base_revision && crate::text::str_eq(r.conflict_id.as_str(), id.as_str())
        && !(r.status == ConflictStatus::Pending && r.resolution.is_some()) && !(r.status == ConflictStatus::Resolved
        && r.resolution.is_none())
}

/// Check conflict records for a project: each consistent, identities in
/// strictly increasing order.
pub fn validate_conflicts(project_id: &ProjectId, records: &[ConflictRecord]) -> (r: Result<(), ResilienceError>)
    ensures
        conflicts_sound(project_id@, records@) ==> r is Ok,
        !conflicts_sound(project_id@, records@) ==> (r matches Err(e) && invalid_record(e, "conflict record metadata"@)),
{
    let mut i: usize = 0;
    while i < records.len()
        invariant
            i <= records@.len(),
            forall|k: int| 0 <= k < i ==> conflict_sound(project_id@, #[trigger] records@[k]),
            forall|k: int| 0 < k < i ==> chars_before(records@[k - 1].conflict_id@, #[trigger] records@[k].conflict_id@),
        decreases records@.len() - i,
    {
        let ordered = if i == 0 {
            true
        } else {
            compare_ids(records[i - 1].conflict_id.as_str(), records[i].conflict_id.as_str())
        };
        if !conflict_is_sound(project_id, &records[i]) || !ordered {
            return Err(invalid("conflict record metadata"));
        }
        i = i + 1;
    }
    Ok(())
}

fn compare_ids(a: &str, b: &str) -> (r: bool)
    ensures
        r == chars_before(a@, b@),
{
    crate::text::compare_strs(a, b) == crate::text::KeyOrder::Less
}

/// Why a list of recovery records is refused.
#[derive(Clone, Copy, Debug, PartialEq, Eq, Structural)]
pub enum RecoveryFault {
    /// A record's schema, project or identity order is wrong.
    RecordMetadata,
    /// A record's bundle cannot be rebuilt.
    Bundle(BundleFault),
}

/// Whether the record at `i` has a wrong schema or project, or does not
/// follow its predecessor in strictly increasing identity order.
pub open spec fn recovery_meta_bad(project: Seq<char>, rs: Seq<RecoveryRecord>, i: int) -> bool {
    ||| rs[i].schema_version != RESILIENCE_SCHEMA_VERSION
    ||| rs[i].project_id@ != project
    ||| rs[i].bundle.snapshot.project_id@ != project
    ||| (i > 0 && !chars_before(rs[i - 1].recovery_id@, rs[i].recovery_id@))
}

/// The first fault among recovery records, in order.
pub open spec fn recovery_fault(project: Seq<char>, rs: Seq<RecoveryRecord>) -> Option<RecoveryFault>
    decreases rs.len(),
{
    if rs.len() == 0 {
        None
    } else {
        match recovery_fault(project, rs.drop_last()) {
            Some(f) => Some(f),
            None => if recovery_meta_bad(project, rs, rs.len() - 1) {
                Some(RecoveryFault::RecordMetadata)
            } else {
                match bundle_fault(rs.last().bundle) {
                    Some(b) => Some(RecoveryFault::Bundle(b)),
                    None => None,
                }
            },
        }
    }
}

/// Whether an error reports a recovery fault.
pub open spec fn reports_recovery_fault(e: ResilienceError, f: RecoveryFault) -> bool {
    match f {
        RecoveryFault::RecordMetadata => invalid_record(e, "recovery record metadata"@),
        RecoveryFault::Bundle(b) => reports_bundle_fault(e, b),
    }
}

proof fn lemma_recovery_fault_prefix(project: Seq<char>, rs: Seq<RecoveryRecord>, k: int)
    requires
        0 <= k <= rs.len(),
        recovery_fault(project, rs.take(k)) is Some,
    ensures
        recovery_fault(project, rs) == recovery_fault(project, rs.take(k)),
    decreases rs.len(),
{
    if k == rs.len() {
        assert(rs.take(k) =~= rs);
    } else {
        assert(rs.drop_last().take(k) =~= rs.take(k));
        lemma_recovery_fault_prefix(project, rs.drop_last(), k);
    }
}

/// Check recovery records for a project, in order: each record's metadata,
/// then its bundle.
pub fn validate_recovery(project_id: &ProjectId, records: &[RecoveryRecord]) -> (r: Result<(), ResilienceError>)
    ensures
        match recovery_fault(project_id@, records@) {
            Some(f) => r matches Err(e) && reports_recovery_fault(e, f),
            None => r is Ok,
        },
{
    let ghost rs = records@;
    let mut i: usize = 0;
    assert(rs.take(0) =~= Seq::<RecoveryRecord>::empty());
    while i < records.len()
        invariant
            i <= rs.len(),
            rs == records@,
            recovery_fault(project_id@, rs.take(i as int)) is None,
        decreases rs.len() - i,
    {
        let ghost t = rs.take(i + 1);
        assert(t.drop_last() =~= rs.take(i as int));
        assert(t.last() == rs[i as int]);
        assert(i > 0 ==> t[i - 1] == rs[i - 1]);
        let record = &records[i];
        let ordered = if i == 0 {
            true
        } else {
            compare_ids(records[i - 1].recovery_id.as_str(), record.recovery_id.as_str())
        };
        if record.schema_version != RESILIENCE_SCHEMA_VERSION || !record.project_id.same(project_id)
            || !record.bundle.snapshot.project_id.same(project_id) || !ordered {
            proof {
                assert(recovery_meta_bad(project_id@, t, i as int));
                lemma_recovery_fault_prefix(project_id@, rs, i + 1);
            }
            return Err(invalid("recovery record metadata"));
        }
        assert(!recovery_meta_bad(project_id@, t, i as int));
        match record.bundle.validate() {
            Err(e) => {
                proof {
                    lemma_recovery_fault_prefix(project_id@, rs, i + 1);
                }
                return Err(e);
            },
            Ok(()) => {},
        }
        i = i + 1;
    }
    assert(rs.take(rs.len() as int) =~= rs);
    Ok(())
}

/// A record ordered by a text identity.
pub trait KeyedRecord: Sized {
    /// The record's identity.
    spec fn record_key(&self) -> Seq<char>;

    /// Borrow the record's identity.
    fn key_text(&self) -> (r: &str)
        ensures
            r@ == self.record_key(),
    ;
}

impl KeyedRecord for ConflictRecord {
    open spec fn record_key(&self) -> Seq<char> {
        self.conflict_id@
    }

    fn key_text(&self) -> (r: &str) {
        self.conflict_id.as_str()
    }
}

impl KeyedRecord for RecoveryRecord {
    open spec fn record_key(&self) -> Seq<char> {
        self.recovery_id@
    }

    fn key_text(&self) -> (r: &str) {
        self.recovery_id.as_str()
    }
}

/// Whether records are in non-decreasing identity order.
pub open spec fn key_ordered<T: KeyedRecord>(s: Seq<T>) -> bool {
    forall|i: int, j: int| 0 <= i < j < s.len() ==> !chars_before(#[trigger] s[j].record_key(), #[trigger] s[i].record_key())
}

/// Sort records by identity; records with equal identities keep their order.
fn sort_by_key<T: KeyedRecord>(items: Vec<T>) -> (r: Vec<T>)
    ensures
        r@.to_multiset() == items@.to_multiset(),
        key_ordered(r@),
{
    let mut rest = items;
    let mut out: Vec<T> = Vec::new();
    let ghost all = rest@;
    proof {
        broadcast use vstd::seq_lib::group_to_multiset_ensures, vstd::multiset::group_multiset_axioms, vstd::multiset::group_multiset_properties;

        assert(out@.to_multiset().len() == 0);
        assert(out@.to_multiset() =~= vstd::multiset::Multiset::<T>::empty());
        assert(rest@.to_multiset().add(vstd::multiset::Multiset::<T>::empty()) =~= rest@.to_multiset());
    }
    while rest.len() > 0
        invariant
            out@.to_multiset().add(rest@.to_multiset()) == all.to_multiset(),
            key_ordered(out@),
        decreases rest@.len(),
    {
        let ghost rest0 = rest@;
        let x = rest.remove(0);
        let ghost before = out@;
        let mut p: usize = 0;
        while p < out.len() && !chars_before_exec(x.key_text(), out[p].key_text())
            invariant
                p <= out@.len(),
                out@ == before,
                forall|j: int| 0 <= j < p ==> !chars_before(x.record_key(), #[trigger] out@[j].record_key()),
            decreases out@.len() - p,
        {
            p = p + 1;
        }
        proof {
            assert forall|j: int| 0 <= j < p implies !chars_before(x.record_key(), #[trigger] before[j].record_key()) by {}
            assert forall|j: int| p <= j < before.len() implies !chars_before(#[trigger] before[j].record_key(), x.record_key()) by {
                crate::text::lemma_before_asymmetric(x.record_key(), before[p as int].record_key());
                if j > p {
                    assert(!chars_before(before[j].record_key(), before[p as int].record_key()));
                    crate::text::lemma_before_total(before[j].record_key(), before[p as int].record_key());
                    crate::text::lemma_before_transitive(before[j].record_key(), x.record_key(), before[p as int].record_key());
                    if before[j].record_key() == before[p as int].record_key() {
                    } else {
                        crate::text::lemma_before_transitive(before[p as int].record_key(), before[j].record_key(), x.record_key());
                        crate::text::lemma_before_asymmetric(before[p as int].record_key(), x.record_key());
                    }
                }
            }
        }
        out.insert(p, x);
        proof {
            broadcast use vstd::seq_lib::group_to_multiset_ensures, vstd::multiset::group_multiset_axioms;

            assert(rest@ == rest0.remove(0));
            assert(x == rest0[0]);
            vstd::seq_lib::to_multiset_remove(rest0, 0);
            vstd::seq_lib::to_multiset_contains(rest0, x);
            assert(rest0.contains(rest0[0]));
            assert(rest0.to_multiset() =~= rest@.to_multiset().insert(x));
            vstd::seq_lib::to_multiset_insert(before, p as int, x);
            assert(out@.to_multiset() == before.to_multiset().insert(x));
            assert(out@.to_multiset().add(rest@.to_multiset()) =~= before.to_multiset().add(rest0.to_multiset()));
            assert forall|a: int, b: int| 0 <= a < b < out@.len() implies !chars_before(
                #[trigger] out@[b].record_key(),
                #[trigger] out@[a].record_key(),
            ) by {
                if a < p && b == p {
                } else if a == p {
                    assert(out@[b] == before[b - 1]);
                } else if b < p {
                } else if a < p {
                    assert(out@[b] == before[b - 1]);
                    crate::text::lemma_before_transitive(before[b - 1].record_key(), x.record_key(), before[a].record_key());
                    if chars_before(before[b - 1].record_key(), before[a].record_key()) {
                        assert(!chars_before(before[b - 1].record_key(), before[a].record_key()));
                    }
                    crate::text::lemma_before_total(x.record_key(), before[a].record_key());
                    if x.record_key() == before[a].record_key() {
                    } else {
                        crate::text::lemma_before_transitive(before[b - 1].record_key(), before[a].record_key(), x.record_key());
                    }
                } else {
                    assert(out@[a] == before[a - 1]);
                    assert(out@[b] == before[b - 1]);
                }
            }
        }
    }
    proof {
        broadcast use vstd::seq_lib::group_to_multiset_ensures, vstd::multiset::group_multiset_axioms, vstd::multiset::group_multiset_properties;

        assert(rest@.to_multiset().len() == 0);
        assert(rest@.to_multiset() =~= vstd::multiset::Multiset::<T>::empty());
        assert(out@.to_multiset().add(vstd::multiset::Multiset::<T>::empty()) =~= out@.to_multiset());
    }
    out
}

fn chars_before_exec(a: &str, b: &str) -> (r: bool)
    ensures
        r == chars_before(a@, b@),
{
    crate::text::compare_strs(a, b) == crate::text::KeyOrder::Less
}

/// The position of the first record with identity `key`.
pub open spec fn key_index<T: KeyedRecord>(s: Seq<T>, key: Seq<char>) -> Option<int>
    decreases s.len(),
{
    if s.len() == 0 {
        None
    } else {
        match key_index(s.drop_last(), key) {
            Some(i) => Some(i),
            None => if s.last().record_key() == key {
                Some(s.len() - 1)
            } else {
                None
            },
        }
    }
}

proof fn lemma_key_index<T: KeyedRecord>(s: Seq<T>, key: Seq<char>)
    ensures
        match key_index(s, key) {
            Some(i) => 0 <= i < s.len() && s[i].record_key() == key && forall|j: int|
                0 <= j < i ==> (#[trigger] s[j]).record_key() != key,
            None => forall|j: int| 0 <= j < s.len() ==> (#[trigger] s[j]).record_key() != key,
        },
    decreases s.len(),
{
    if s.len() > 0 {
        lemma_key_index(s.drop_last(), key);
        assert forall|j: int| 0 <= j < s.len() - 1 implies s.drop_last()[j] == s[j] by {}
    }
}

fn find_key<T: KeyedRecord>(v: &Vec<T>, key: &str) -> (r: Option<usize>)
    ensures
        match r {
            Some(i) => key_index(v@, key@) == Some(i as int),
            None => key_index(v@, key@) is None,
        },
{
    proof {
        lemma_key_index(v@, key@);
    }
    let mut i: usize = 0;
    while i < v.len()
        invariant
            i <= v@.len(),
            forall|j: int| 0 <= j < i ==> (#[trigger] v@[j]).record_key() != key@,
        decreases v@.len() - i,
    {
        if crate::text::str_eq(v[i].key_text(), key) {
            proof {
                lemma_key_index(v@, key@);
                match key_index(v@, key@) {
                    Some(k) => {
                        if k < i {
                            assert(v@[k].record_key() != key@);
                        } else if k > i {
                            assert(v@[i as int].record_key() != key@);
                        }
                    },
                    None => {
                        assert(v@[i as int].record_key() != key@);
                    },
                }
            }
            return Some(i);
        }
        i = i + 1;
    }
    None
}

/// Where a new identity goes among records in strictly increasing order:
/// after every record whose identity comes before it.
fn insertion_point<T: KeyedRecord>(v: &Vec<T>, key: &str) -> (r: usize)
    ensures
        r <= v@.len(),
        forall|j: int| 0 <= j < r ==> !chars_before(key@, (#[trigger] v@[j]).record_key()),
        r < v@.len() ==> chars_before(key@, v@[r as int].record_key()),
{
    let mut p: usize = 0;
    while p < v.len() && !chars_before_exec(key, v[p].key_text())
        invariant
            p <= v@.len(),
            forall|j: int| 0 <= j < p ==> !chars_before(key@, (#[trigger] v@[j]).record_key()),
        decreases v@.len() - p,
    {
        p = p + 1;
    }
    p
}

/// The records that still need operator action, in order.
pub open spec fn pending_records(s: Seq<ConflictRecord>) -> Seq<ConflictRecord>
    decreases s.len(),
{
    if s.len() == 0 {
        Seq::empty()
    } else if s.last().status == ConflictStatus::Pending {
        pending_records(s.drop_last()).push(s.last())
    } else {
        pending_records(s.drop_last())
    }
}

/// The conflict records of one project, consistent and in strictly
/// increasing identity order.
#[derive(Debug)]
pub struct ConflictLedger {
    project_id: ProjectId,
    records: Vec<ConflictRecord>,
}

impl ConflictLedger {
    /// The project of the ledger.
    pub closed spec fn project_view(&self) -> ProjectId {
        self.project_id
    }

    /// The records of the ledger, in order.
    pub closed spec fn entries(&self) -> Seq<ConflictRecord> {
        self.records@
    }

    #[verifier::type_invariant]
    closed spec fn inv(&self) -> bool {
        conflicts_sound(self.project_id@, self.records@)
    }

    /// Hold loaded records in identity order, refused unless they are
    /// consistent for the project with distinct identities.
    pub fn open(project_id: ProjectId, records: Vec<ConflictRecord>) -> (r: Result<Self, ResilienceError>)
        ensures
            match r {
                Ok(l) => {
                    &&& l.project_view() == project_id
                    &&& l.entries().to_multiset() == records@.to_multiset()
                    &&& conflicts_sound(project_id@, l.entries())
                },
                Err(e) => invalid_record(e, "conflict record metadata"@) && exists|s: Seq<ConflictRecord>|
                    #[trigger] key_ordered(s) && s.to_multiset() == records@.to_multiset() && !conflicts_sound(
                        project_id@,
                        s,
                    ),
            },
    {
        let sorted = sort_by_key(records);
        match validate_conflicts(&project_id, sorted.as_slice()) {
            Ok(()) => Ok(ConflictLedger { project_id, records: sorted }),
            Err(e) => {
                assert(key_ordered(sorted@));
                Err(e)
            },
        }
    }

    /// Borrow all records in identity order.
    pub fn records(&self) -> (r: &[ConflictRecord])
        ensures
            r@ == self.entries(),
            conflicts_sound(self.project_view()@, self.entries()),
    {
        proof {
            use_type_invariant(self);
        }
        self.records.as_slice()
    }

    /// Borrow the records that still need operator action.
    pub fn pending(&self) -> (r: Vec<&ConflictRecord>)
        ensures
            r@.map_values(|c: &ConflictRecord| *c) == pending_records(self.entries()),
    {
        let mut out: Vec<&ConflictRecord> = Vec::new();
        let mut i: usize = 0;
        while i < self.records.len()
            invariant
                i <= self.records@.len(),
                out@.map_values(|c: &ConflictRecord| *c) == pending_records(self.records@.take(i as int)),
            decreases self.records@.len() - i,
        {
            assert(self.records@.take(i + 1).drop_last() =~= self.records@.take(i as int));
            assert(self.records@.take(i + 1).last() == self.records@[i as int]);
            if self.records[i].is_pending() {
                let ghost before = out@;
                out.push(&self.records[i]);
                assert(out@.map_values(|c: &ConflictRecord| *c) =~= before.map_values(|c: &ConflictRecord| *c).push(
                    self.records@[i as int],
                ));
            }
            i = i + 1;
        }
        assert(self.records@.take(self.records@.len() as int) =~= self.records@);
        out
    }

    /// Add a conflict, keeping both intents: refused when the record is not
    /// consistent for the project or its identity is already held.
    #[verifier::spinoff_prover]
    pub fn record(&mut self, record: ConflictRecord) -> (r: Result<(), ResilienceError>)
        ensures
            !conflict_sound(old(self).project_view()@, record) ==> (r matches Err(e) && invalid_record(
                e,
                "conflict record metadata"@,
            )),
            conflict_sound(old(self).project_view()@, record) && key_index(old(self).entries(), record.conflict_id@) is Some
                ==> r == Err::<(), ResilienceError>(ResilienceError::DuplicateConflict),
            r is Err ==> final(self).entries() == old(self).entries(),
            r is Ok <==> conflict_sound(old(self).project_view()@, record) && key_index(
                old(self).entries(),
                record.conflict_id@,
            ) is None,
            r is Ok ==> exists|p: int|
                0 <= p <= old(self).entries().len() && final(self).entries() == #[trigger] old(self).entries().insert(
                    p,
                    record,
                ),
            final(self).project_view() == old(self).project_view(),
            conflicts_sound(final(self).project_view()@, final(self).entries()),
    {
        proof {
            use_type_invariant(&*self);
        }
        if !conflict_is_sound(&self.project_id, &record) {
            return Err(invalid("conflict record metadata"));
        }
        if find_key(&self.records, record.conflict_id.as_str()).is_some() {
            return Err(ResilienceError::DuplicateConflict);
        }
        proof {
            lemma_key_index(self.records@, record.conflict_id@);
        }
        let p = insertion_point(&self.records, record.conflict_id.as_str());
        let ghost before = self.records@;
        let ghost key = record.conflict_id@;
        proof {
            assert forall|j: int| 0 <= j < p implies chars_before(before[j].conflict_id@, key) by {
                crate::text::lemma_before_total(before[j].conflict_id@, key);
                assert(before[j].record_key() != key);
            }
            assert forall|j: int| p <= j < before.len() implies chars_before(key, before[j].conflict_id@) by {
                if j > p {
                    assert(before[j].conflict_id@ == before[j].record_key());
                    lemma_sorted_ids(before, p as int, j);
                    crate::text::lemma_before_transitive(key, before[p as int].conflict_id@, before[j].conflict_id@);
                }
            }
        }
        let mut recs: Vec<ConflictRecord> = Vec::new();
        std::mem::swap(&mut recs, &mut self.records);
        recs.insert(p, record);
        proof {
            assert forall|i: int| 0 <= i < recs@.len() implies conflict_sound(self.project_id@, #[trigger] recs@[i]) by {
                if i < p {
                    assert(recs@[i] == before[i]);
                } else if i > p {
                    assert(recs@[i] == before[i - 1]);
                }
            }
            assert forall|i: int| 0 < i < recs@.len() implies chars_before(recs@[i - 1].conflict_id@, #[trigger] recs@[i].conflict_id@) by {
                if i < p {
                    assert(recs@[i] == before[i] && recs@[i - 1] == before[i - 1]);
                } else if i == p {
                    assert(recs@[i - 1] == before[i - 1]);
                } else if i == p + 1 {
                    assert(recs@[i] == before[i - 1]);
                } else {
                    assert(recs@[i] == before[i - 1] && recs@[i - 1] == before[i - 2]);
                }
            }
        }
        self.records = recs;
        Ok(())
    }

    /// Resolve the record with an identity, keeping both intents.
    #[verifier::spinoff_prover]
    pub fn resolve(&mut self, conflict_id: &str, choice: ResolutionChoice) -> (r: Result<ResolutionPlan, ResilienceError>)
        ensures
            final(self).project_view() == old(self).project_view(),
            conflicts_sound(final(self).project_view()@, final(self).entries()),
            match key_index(old(self).entries(), conflict_id@) {
                None => (r matches Err(ResilienceError::ConflictNotFound(s)) && s@ == conflict_id@) && final(self).entries()
                    == old(self).entries(),
                Some(k) => if old(self).entries()[k].status == ConflictStatus::Resolved {
                    r == Err::<ResolutionPlan, ResilienceError>(ResilienceError::AlreadyResolved) && final(self).entries()
                        == old(self).entries()
                } else {
                    &&& r matches Ok(plan) && plan.choice == choice && plan.conflict_id@ == conflict_id@
                    &&& final(self).entries() == old(self).entries().update(
                        k,
                        ConflictRecord {
                            status: ConflictStatus::Resolved,
                            resolution: Some(choice),
                            ..old(self).entries()[k]
                        },
                    )
                },
            },
    {
        proof {
            use_type_invariant(&*self);
            lemma_key_index(self.records@, conflict_id@);
        }
        let k = match find_key(&self.records, conflict_id) {
            Some(k) => k,
            None => {
                return Err(ResilienceError::ConflictNotFound(String::from_str(conflict_id)));
            },
        };
        let ghost before = self.records@;
        let mut recs: Vec<ConflictRecord> = Vec::new();
        std::mem::swap(&mut recs, &mut self.records);
        let mut record = recs.remove(k);
        let result = record.resolve(choice);
        recs.insert(k, record);
        proof {
            assert(recs@ =~= before.update(k as int, recs@[k as int]));
            assert forall|i: int| 0 <= i < recs@.len() implies conflict_sound(self.project_id@, #[trigger] recs@[i]) by {
                if i != k {
                    assert(recs@[i] == before[i]);
                }
            }
            assert forall|i: int| 0 < i < recs@.len() implies chars_before(recs@[i - 1].conflict_id@, #[trigger] recs@[i].conflict_id@) by {
                assert(recs@[i].conflict_id == before[i].conflict_id);
                assert(recs@[i - 1].conflict_id == before[i - 1].conflict_id);
            }
        }
        self.records = recs;
        result
    }
}

proof fn lemma_sorted_ids(s: Seq<ConflictRecord>, a: int, b: int)
    requires
        forall|i: int| 0 < i < s.len() ==> chars_before(s[i - 1].conflict_id@, #[trigger] s[i].conflict_id@),
        0 <= a < b < s.len(),
    ensures
        chars_before(s[a].conflict_id@, s[b].conflict_id@),
    decreases b - a,
{
    if b > a + 1 {
        lemma_sorted_ids(s, a, b - 1);
        crate::text::lemma_before_transitive(s[a].conflict_id@, s[b - 1].conflict_id@, s[b].conflict_id@);
    }
}

/// Whether recovery records are consistent for a project: each with the
/// right schema and project, a valid bundle, in strictly increasing identity
/// order.
pub open spec fn recoveries_sound(project: Seq<char>, rs: Seq<RecoveryRecord>) -> bool {
    forall|i: int| 0 <= i < rs.len() ==> !#[trigger] recovery_meta_bad(project, rs, i) && bundle_fault(rs[i].bundle) is None
}

proof fn lemma_recoveries_sound(project: Seq<char>, rs: Seq<RecoveryRecord>)
    ensures
        recovery_fault(project, rs) is None <==> recoveries_sound(project, rs),
    decreases rs.len(),
{
    if rs.len() > 0 {
        let d = rs.drop_last();
        lemma_recoveries_sound(project, d);
        assert forall|i: int| 0 <= i < d.len() implies recovery_meta_bad(project, d, i) == recovery_meta_bad(
            project,
            rs,
            i,
        ) by {
            assert(d[i] == rs[i]);
            if i > 0 {
                assert(d[i - 1] == rs[i - 1]);
            }
        }
        if recoveries_sound(project, rs) {
            assert forall|i: int| 0 <= i < d.len() implies !#[trigger] recovery_meta_bad(project, d, i) && bundle_fault(
                d[i].bundle,
            ) is None by {
                assert(!recovery_meta_bad(project, rs, i));
                assert(d[i] == rs[i]);
            }
            assert(!recovery_meta_bad(project, rs, rs.len() - 1));
        }
        if recovery_fault(project, rs) is None {
            assert forall|i: int| 0 <= i < rs.len() implies !#[trigger] recovery_meta_bad(project, rs, i) && bundle_fault(
                rs[i].bundle,
            ) is None by {
                if i < d.len() {
                    assert(!recovery_meta_bad(project, d, i));
                    assert(d[i] == rs[i]);
                }
            }
        }
    }
}

/// The record `r` differs from `old` only in its state and reason.
pub open spec fn same_but_lifecycle(a: RecoveryRecord, b: RecoveryRecord) -> bool {
    &&& a.schema_version == b.schema_version
    &&& a.recovery_id == b.recovery_id
    &&& a.project_id == b.project_id
    &&& a.bundle == b.bundle
}

proof fn lemma_sound_update(project: Seq<char>, rs: Seq<RecoveryRecord>, k: int, r: RecoveryRecord)
    requires
        recoveries_sound(project, rs),
        0 <= k < rs.len(),
        same_but_lifecycle(rs[k], r),
    ensures
        recoveries_sound(project, rs.update(k, r)),
{
    let t = rs.update(k, r);
    assert forall|i: int| 0 <= i < t.len() implies !#[trigger] recovery_meta_bad(project, t, i) && bundle_fault(
        t[i].bundle,
    ) is None by {
        assert(!recovery_meta_bad(project, rs, i));
    }
}

/// A recovery lifecycle step applied to a record.
pub enum LifecycleStep {
    /// Quarantine with a reason.
    Quarantine(String),
    /// Record an interrupted upgrade between two schemas.
    InterruptedUpgrade(u16, u16),
    /// Begin the staged migration.
    BeginMigration,
    /// Mark the record restored.
    MarkRestored,
    /// Record a failed restore with a reason.
    RestoreFailed(String),
    /// Record a completed restore.
    RestoreSucceeded,
}

/// The record after one lifecycle step, or none where the step is refused.
pub open spec fn stepped(r: RecoveryRecord, step: LifecycleStep) -> Option<RecoveryRecord> {
    match step {
        LifecycleStep::Quarantine(reason) => if valid_reason(reason@) {
            Some(RecoveryRecord { state: RecoveryState::Quarantined, reason: Some(reason), ..r })
        } else {
            None
        },
        LifecycleStep::InterruptedUpgrade(from_schema, to_schema) => Some(
            RecoveryRecord { state: RecoveryState::InterruptedUpgrade { from_schema, to_schema }, ..r },
        ),
        LifecycleStep::BeginMigration => match migration_begun(r.state) {
            Some(s) => Some(RecoveryRecord { state: s, ..r }),
            None => None,
        },
        LifecycleStep::MarkRestored => if r.state == RecoveryState::Recoverable || (r.state is Migrating) {
            Some(RecoveryRecord { state: RecoveryState::Restored, reason: None, ..r })
        } else {
            None
        },
        LifecycleStep::RestoreFailed(reason) => if valid_reason(reason@) {
            Some(RecoveryRecord { state: RecoveryState::RestoreFailed, reason: Some(reason), ..r })
        } else {
            None
        },
        LifecycleStep::RestoreSucceeded => Some(RecoveryRecord { state: RecoveryState::Restored, reason: None, ..r }),
    }
}

/// The error of a refused lifecycle step.
pub open spec fn step_refusal(step: LifecycleStep, e: ResilienceError) -> bool {
    match step {
        LifecycleStep::Quarantine(_) | LifecycleStep::RestoreFailed(_) => invalid_record(e, "recovery reason"@),
        _ => e == ResilienceError::InvalidRecoveryTransition,
    }
}

fn apply_step(record: &mut RecoveryRecord, step: LifecycleStep) -> (r: Result<(), ResilienceError>)
    ensures
        match stepped(*old(record), step) {
            Some(n) => r is Ok && *final(record) == n,
            None => (r matches Err(e) && step_refusal(step, e)) && *final(record) == *old(record),
        },
{
    match step {
        LifecycleStep::Quarantine(reason) => record.quarantine(reason),
        LifecycleStep::InterruptedUpgrade(from_schema, to_schema) => {
            record.interrupted_upgrade(from_schema, to_schema);
            Ok(())
        },
        LifecycleStep::BeginMigration => record.begin_migration(),
        LifecycleStep::MarkRestored => record.mark_restored(),
        LifecycleStep::RestoreFailed(reason) => record.restore_failed(reason),
        LifecycleStep::RestoreSucceeded => {
            record.state = RecoveryState::Restored;
            record.reason = None;
            Ok(())
        },
    }
}

/// The recovery records of one project, consistent and in strictly
/// increasing identity order.
#[derive(Debug)]
pub struct RecoveryLedger {
    project_id: ProjectId,
    records: Vec<RecoveryRecord>,
}

impl RecoveryLedger {
    /// The project of the ledger.
    pub closed spec fn project_view(&self) -> ProjectId {
        self.project_id
    }

    /// The records of the ledger, in order.
    pub closed spec fn entries(&self) -> Seq<RecoveryRecord> {
        self.records@
    }

    #[verifier::type_invariant]
    closed spec fn inv(&self) -> bool {
        recoveries_sound(self.project_id@, self.records@)
    }

    /// Hold loaded records in identity order, refused with the first fault
    /// of that order.
    pub fn open(project_id: ProjectId, records: Vec<RecoveryRecord>) -> (r: Result<Self, ResilienceError>)
        ensures
            match r {
                Ok(l) => {
                    &&& l.project_view() == project_id
                    &&& l.entries().to_multiset() == records@.to_multiset()
                    &&& recoveries_sound(project_id@, l.entries())
                },
                Err(e) => exists|s: Seq<RecoveryRecord>|
                    #[trigger] key_ordered(s) && s.to_multiset() == records@.to_multiset() && (recovery_fault(
                        project_id@,
                        s,
                    ) matches Some(f) && reports_recovery_fault(e, f)),
            },
    {
        let sorted = sort_by_key(records);
        proof {
            lemma_recoveries_sound(project_id@, sorted@);
        }
        match validate_recovery(&project_id, sorted.as_slice()) {
            Ok(()) => Ok(RecoveryLedger { project_id, records: sorted }),
            Err(e) => {
                assert(key_ordered(sorted@));
                Err(e)
            },
        }
    }

    /// Borrow all records in identity order.
    pub fn records(&self) -> (r: &[RecoveryRecord])
        ensures
            r@ == self.entries(),
            recoveries_sound(self.project_view()@, self.entries()),
    {
        proof {
            use_type_invariant(self);
        }
        self.records.as_slice()
    }

    /// Add a recovery record: refused with its fault when it is not
    /// consistent for the project, or when its identity is already held.
    #[verifier::spinoff_prover]
    #[verifier::rlimit(40)]
    pub fn record(&mut self, record: RecoveryRecord) -> (r: Result<(), ResilienceError>)
        ensures
            match recovery_fault(old(self).project_view()@, seq![record]) {
                Some(f) => r matches Err(e) && reports_recovery_fault(e, f),
                None => if key_index(old(self).entries(), record.recovery_id@) is Some {
                    r == Err::<(), ResilienceError>(ResilienceError::DuplicateRecovery)
                } else {
                    r is Ok && exists|p: int|
                        0 <= p <= old(self).entries().len() && final(self).entries() == #[trigger] old(
                            self,
                        ).entries().insert(p, record)
                },
            },
            r is Err ==> final(self).entries() == old(self).entries(),
            final(self).project_view() == old(self).project_view(),
            recoveries_sound(final(self).project_view()@, final(self).entries()),
    {
        proof {
            use_type_invariant(&*self);
        }
        let ghost one = seq![record];
        assert(one.drop_last() =~= Seq::<RecoveryRecord>::empty());
        assert(recovery_fault(self.project_id@, one.drop_last()) is None);
        assert(one.last() == record);
        let meta_bad = record.schema_version != RESILIENCE_SCHEMA_VERSION || !record.project_id.same(&self.project_id)
            || !record.bundle.snapshot.project_id.same(&self.project_id);
        if meta_bad {
            assert(recovery_meta_bad(self.project_id@, one, 0));
            assert(one.drop_last() =~= Seq::<RecoveryRecord>::empty());
            return Err(invalid("recovery record metadata"));
        }
        assert(!recovery_meta_bad(self.project_id@, one, 0));
        assert(one.drop_last() =~= Seq::<RecoveryRecord>::empty());
        match record.bundle.validate() {
            Err(e) => {
                return Err(e);
            },
            Ok(()) => {},
        }
        if find_key(&self.records, record.recovery_id.as_str()).is_some() {
            return Err(ResilienceError::DuplicateRecovery);
        }
        proof {
            lemma_key_index(self.records@, record.recovery_id@);
        }
        let p = insertion_point(&self.records, record.recovery_id.as_str());
        let ghost before = self.records@;
        let ghost key = record.recovery_id@;
        proof {
            assert forall|j: int| 0 <= j < p implies chars_before(before[j].recovery_id@, key) by {
                crate::text::lemma_before_total(before[j].recovery_id@, key);
                assert(before[j].record_key() != key);
            }
            assert forall|j: int| p <= j < before.len() implies chars_before(key, before[j].recovery_id@) by {
                assert(before[p as int].recovery_id@ == before[p as int].record_key());
                if j > p {
                    lemma_sorted_recovery_ids(self.project_id@, before, p as int, j);
                    crate::text::lemma_before_transitive(key, before[p as int].recovery_id@, before[j].recovery_id@);
                }
            }
        }
        let mut recs: Vec<RecoveryRecord> = Vec::new();
        std::mem::swap(&mut recs, &mut self.records);
        recs.insert(p, record);
        proof {
            assert forall|i: int| 0 <= i < recs@.len() implies !#[trigger] recovery_meta_bad(self.project_id@, recs@, i)
                && bundle_fault(recs@[i].bundle) is None by {
                if i < p {
                    assert(recs@[i] == before[i]);
                    assert(!recovery_meta_bad(self.project_id@, before, i));
                    if i > 0 {
                        assert(recs@[i - 1] == before[i - 1]);
                    }
                } else if i > p {
                    assert(recs@[i] == before[i - 1]);
                    assert(!recovery_meta_bad(self.project_id@, before, i - 1));
                    if i - 1 > p {
                        assert(recs@[i - 1] == before[i - 2]);
                    }
                } else if i > 0 {
                    assert(recs@[i - 1] == before[i - 1]);
                }
            }
            assert(recoveries_sound(self.project_id@, recs@));
        }
        self.records = recs;
        Ok(())
    }

    /// Apply one lifecycle step to the record with an identity.
    #[verifier::spinoff_prover]
    pub fn step(&mut self, recovery_id: &str, step: LifecycleStep) -> (r: Result<(), ResilienceError>)
        ensures
            final(self).project_view() == old(self).project_view(),
            recoveries_sound(final(self).project_view()@, final(self).entries()),
            match key_index(old(self).entries(), recovery_id@) {
                None => (r matches Err(ResilienceError::RecoveryNotFound(s)) && s@ == recovery_id@) && final(self).entries()
                    == old(self).entries(),
                Some(k) => match stepped(old(self).entries()[k], step) {
                    Some(n) => r is Ok && final(self).entries() == old(self).entries().update(k, n),
                    None => (r matches Err(e) && step_refusal(step, e)) && final(self).entries() == old(self).entries(),
                },
            },
    {
        proof {
            use_type_invariant(&*self);
            lemma_key_index(self.records@, recovery_id@);
        }
        let k = match find_key(&self.records, recovery_id) {
            Some(k) => k,
            None => {
                return Err(ResilienceError::RecoveryNotFound(String::from_str(recovery_id)));
            },
        };
        let ghost before = self.records@;
        let mut recs: Vec<RecoveryRecord> = Vec::new();
        std::mem::swap(&mut recs, &mut self.records);
        let mut record = recs.remove(k);
        let result = apply_step(&mut record, step);
        recs.insert(k, record);
        proof {
            assert(recs@ =~= before.update(k as int, recs@[k as int]));
            lemma_sound_update(self.project_id@, before, k as int, recs@[k as int]);
        }
        self.records = recs;
        result
    }

    /// The bundle to rebuild a record from: refused for an unknown record or
    /// one that is neither recoverable nor after a failed restore.
    pub fn restore_source(&self, recovery_id: &str) -> (r: Result<&RecoveryBundle, ResilienceError>)
        ensures
            match key_index(self.entries(), recovery_id@) {
                None => r matches Err(ResilienceError::RecoveryNotFound(s)) && s@ == recovery_id@,
                Some(k) => if self.entries()[k].state == RecoveryState::Recoverable || self.entries()[k].state
                    == RecoveryState::RestoreFailed {
                    r matches Ok(b) && *b == self.entries()[k].bundle
                } else {
                    r == Err::<&RecoveryBundle, ResilienceError>(ResilienceError::NotRecoverable)
                },
            },
    {
        proof {
            lemma_key_index(self.records@, recovery_id@);
        }
        match find_key(&self.records, recovery_id) {
            Some(k) => {
                let record = &self.records[k];
                match record.state {
                    RecoveryState::Recoverable | RecoveryState::RestoreFailed => Ok(&record.bundle),
                    _ => Err(ResilienceError::NotRecoverable),
                }
            },
            None => Err(ResilienceError::RecoveryNotFound(String::from_str(recovery_id))),
        }
    }
}

proof fn lemma_sorted_recovery_ids(project: Seq<char>, s: Seq<RecoveryRecord>, a: int, b: int)
    requires
        recoveries_sound(project, s),
        0 <= a < b < s.len(),
    ensures
        chars_before(s[a].recovery_id@, s[b].recovery_id@),
    decreases b - a,
{
    assert(!recovery_meta_bad(project, s, b));
    if b > a + 1 {
        lemma_sorted_recovery_ids(project, s, a, b - 1);
        crate::text::lemma_before_transitive(s[a].recovery_id@, s[b - 1].recovery_id@, s[b].recovery_id@);
    }
}

} // verus!
