use studio_design::recovery::{
    ConflictIntent, ConflictLedger, ConflictRecord, JournalEntry, LifecycleStep, LogicalSnapshot, RecoveryBundle,
    RecoveryLedger, RecoveryRecord, validate_conflicts, validate_reason,
};
use studio_design::{
    Actor, ActorId, ActorKind, CommandBatch, ConflictStatus, OperationId, OrderedMap, ProjectId, RecoveryState,
    ResilienceError, ResolutionChoice, RevisionId, RevisionMetadata, RevisionReason, STUDIO_DESIGN_SCHEMA_VERSION,
    StudioDesign, StudioDesignSnapshot, UndoGroupId,
};

fn pid(s: &str) -> ProjectId {
    ProjectId::new(s).unwrap()
}

fn actor(name: &str) -> Actor {
    Actor { id: ActorId::new("user").unwrap(), kind: ActorKind::Human, display_name: name.to_owned() }
}

fn batch(project: &str, op: &str, base: u64) -> CommandBatch {
    CommandBatch {
        schema_version: STUDIO_DESIGN_SCHEMA_VERSION,
        operation_id: OperationId::new(op).unwrap(),
        actor: actor("User"),
        project_id: pid(project),
        base_revision: RevisionId::new(base),
        undo_group_id: UndoGroupId::new("g").unwrap(),
        undo_group_name: "Edit".to_owned(),
        preconditions: Vec::new(),
        commands: Vec::new(),
    }
}

fn intent(project: &str, op: &str) -> ConflictIntent {
    ConflictIntent::new(batch(project, op, 1), None).unwrap()
}

fn conflict(local: &str, remote: &str) -> ConflictRecord {
    ConflictRecord::new(pid("p"), 7, intent("p", local), intent("p", remote)).unwrap()
}

fn invalid(e: ResilienceError) -> String {
    match e {
        ResilienceError::InvalidRecord(m) => m,
        other => panic!("unexpected {other:?}"),
    }
}

#[test]
fn intents_and_conflicts_are_checked() {
    let mut b = batch("p", "op", 1);
    b.actor = actor("  ");
    assert_eq!(invalid(ConflictIntent::new(b, None).unwrap_err()), "conflict intent metadata");
    let i = intent("p", "op-a");
    assert_eq!(i.command_count(), 0);
    assert_eq!(i.base_revision, RevisionId::new(1));
    assert_eq!(
        ConflictRecord::new(pid("p"), 1, intent("q", "a"), intent("p", "b")).unwrap_err(),
        ResilienceError::ProjectMismatch
    );
    let c = conflict("a", "b");
    assert_eq!(c.conflict_id, "p:a:b");
    assert_eq!(c.status, ConflictStatus::Pending);
    assert!(c.is_pending());
}

#[test]
fn resolving_keeps_both_intents() {
    let mut c = conflict("a", "b");
    let plan = c.resolve(ResolutionChoice::KeepRemote).unwrap();
    assert_eq!(plan.conflict_id, "p:a:b");
    let order: Vec<&str> = plan.retained.iter().map(|i| i.operation_id.as_str()).collect();
    assert_eq!(order, vec!["b", "a"]);
    assert_eq!(c.status, ConflictStatus::Resolved);
    assert_eq!(c.resolution, Some(ResolutionChoice::KeepRemote));
    assert_eq!(c.resolve(ResolutionChoice::KeepLocal).unwrap_err(), ResilienceError::AlreadyResolved);
    let mut d = conflict("c", "d");
    let both = d.resolve(ResolutionChoice::KeepBoth).unwrap();
    let order: Vec<&str> = both.retained.iter().map(|i| i.operation_id.as_str()).collect();
    assert_eq!(order, vec!["c", "d"]);
}

#[test]
fn conflict_ledgers_keep_identity_order() {
    assert!(validate_conflicts(&pid("p"), &[conflict("a", "b"), conflict("c", "d")]).is_ok());
    assert_eq!(
        invalid(validate_conflicts(&pid("p"), &[conflict("c", "d"), conflict("a", "b")]).unwrap_err()),
        "conflict record metadata"
    );
    let mut ledger = ConflictLedger::open(pid("p"), vec![conflict("c", "d"), conflict("a", "b")]).unwrap();
    let ids: Vec<&str> = ledger.records().iter().map(|r| r.conflict_id.as_str()).collect();
    assert_eq!(ids, vec!["p:a:b", "p:c:d"]);
    assert_eq!(ledger.record(conflict("a", "b")).unwrap_err(), ResilienceError::DuplicateConflict);
    ledger.record(conflict("b", "z")).unwrap();
    let ids: Vec<&str> = ledger.records().iter().map(|r| r.conflict_id.as_str()).collect();
    assert_eq!(ids, vec!["p:a:b", "p:b:z", "p:c:d"]);
    ledger.resolve("p:b:z", ResolutionChoice::KeepLocal).unwrap();
    let pending: Vec<&str> = ledger.pending().iter().map(|r| r.conflict_id.as_str()).collect();
    assert_eq!(pending, vec!["p:a:b", "p:c:d"]);
    assert_eq!(
        ledger.resolve("p:x:y", ResolutionChoice::KeepLocal).unwrap_err(),
        ResilienceError::ConflictNotFound("p:x:y".to_owned())
    );
    assert!(ConflictLedger::open(pid("p"), vec![conflict("a", "b"), conflict("a", "b")]).is_err());
}

fn snapshot(project: &str, revision: u64) -> StudioDesignSnapshot {
    StudioDesignSnapshot {
        revision: RevisionMetadata {
            id: RevisionId::new(revision),
            parent_id: None,
            operation_id: OperationId::new("op").unwrap(),
            actor: actor("User"),
            undo_group_id: UndoGroupId::new("g").unwrap(),
            undo_group_name: "Edit".to_owned(),
            reason: RevisionReason::Command,
        },
        design: StudioDesign::empty(pid(project), "Demo"),
        tombstones: OrderedMap::new(),
    }
}

fn bundle(entries: Vec<(u64, u64, u64)>) -> RecoveryBundle {
    let journal = entries
        .into_iter()
        .map(|(seq, base, committed)| {
            JournalEntry::new(seq, pid("p"), batch("p", "op", base), RevisionId::new(committed)).unwrap()
        })
        .collect();
    RecoveryBundle { snapshot: LogicalSnapshot::new(pid("p"), snapshot("p", 4), 2, 9).unwrap(), journal }
}

#[test]
fn bundles_must_continue_their_snapshot() {
    assert_eq!(LogicalSnapshot::new(pid("q"), snapshot("p", 1), 0, 0).unwrap_err(), ResilienceError::ProjectMismatch);
    assert_eq!(
        invalid(JournalEntry::new(0, pid("p"), batch("p", "op", 1), RevisionId::new(2)).unwrap_err()),
        "journal entry metadata"
    );
    assert!(bundle(vec![(3, 4, 5), (4, 5, 6)]).validate().is_ok());
    assert_eq!(bundle(vec![(3, 4, 5), (5, 5, 6)]).validate().unwrap_err(), ResilienceError::JournalGap);
    assert_eq!(bundle(vec![(3, 3, 5)]).validate().unwrap_err(), ResilienceError::JournalGap);
    let mut wrong = bundle(vec![]);
    wrong.snapshot.schema_version = 9;
    assert_eq!(invalid(wrong.validate().unwrap_err()), "logical snapshot metadata");
}

#[test]
fn recovery_records_follow_their_lifecycle() {
    assert_eq!(invalid(RecoveryRecord::new(String::new(), bundle(vec![])).unwrap_err()), "recovery identity");
    assert_eq!(RecoveryRecord::new("r".to_owned(), bundle(vec![(9, 4, 5)])).unwrap_err(), ResilienceError::JournalGap);
    let mut r = RecoveryRecord::new("r".to_owned(), bundle(vec![(3, 4, 5)])).unwrap();
    assert_eq!(r.state, RecoveryState::Recoverable);
    assert!(!r.can_open());
    assert_eq!(invalid(r.quarantine(String::new()).unwrap_err()), "recovery reason");
    assert!(validate_reason(&"x".repeat(512)).is_ok());
    assert!(validate_reason(&"x".repeat(513)).is_err());
    r.interrupted_upgrade(1, 2);
    assert_eq!(r.mark_restored().unwrap_err(), ResilienceError::InvalidRecoveryTransition);
    r.begin_migration().unwrap();
    assert_eq!(r.state, RecoveryState::Migrating { from_schema: 1, to_schema: 2 });
    r.mark_restored().unwrap();
    assert!(r.can_open());
    r.quarantine("disk damaged".to_owned()).unwrap();
    assert_eq!(r.state, RecoveryState::Quarantined);
    assert_eq!(r.reason.as_deref(), Some("disk damaged"));
}

#[test]
fn recovery_ledgers_step_records_by_identity() {
    let a = RecoveryRecord::new("b-rec".to_owned(), bundle(vec![])).unwrap();
    let b = RecoveryRecord::new("a-rec".to_owned(), bundle(vec![])).unwrap();
    let mut ledger = RecoveryLedger::open(pid("p"), vec![a, b]).unwrap();
    let ids: Vec<&str> = ledger.records().iter().map(|r| r.recovery_id.as_str()).collect();
    assert_eq!(ids, vec!["a-rec", "b-rec"]);
    let dup = RecoveryRecord::new("a-rec".to_owned(), bundle(vec![])).unwrap();
    assert_eq!(ledger.record(dup).unwrap_err(), ResilienceError::DuplicateRecovery);
    ledger.step("a-rec", LifecycleStep::RestoreFailed("replay failed".to_owned())).unwrap();
    assert!(ledger.restore_source("a-rec").is_ok());
    ledger.step("a-rec", LifecycleStep::RestoreSucceeded).unwrap();
    assert_eq!(ledger.restore_source("a-rec").unwrap_err(), ResilienceError::NotRecoverable);
    assert_eq!(
        ledger.step("zz", LifecycleStep::MarkRestored).unwrap_err(),
        ResilienceError::RecoveryNotFound("zz".to_owned())
    );
    assert_eq!(ledger.step("b-rec", LifecycleStep::BeginMigration).unwrap_err(), ResilienceError::InvalidRecoveryTransition);
    ledger.step("b-rec", LifecycleStep::Quarantine("operator hold".to_owned())).unwrap();
    assert_eq!(ledger.records()[1].state, RecoveryState::Quarantined);
}
