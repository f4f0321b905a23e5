//! The decisions a session takes on a submitted command batch.
//!
//! A batch is answered from its receipt when its operation was already
//! applied, refused as stale when written against another revision, rejected
//! for a malformed shape, answered with a conflict when a precondition no
//! longer holds, and otherwise applied in full to the current design. An
//! applied batch joins the history: after an undo the redoable groups are
//! dropped, and consecutive batches of one undo group share one entry.
use vstd::prelude::*;
use vstd::string::StringExecFns;

use crate::command::{AppliedBatch, Command, CommandBatch, HistoryEntry};
use crate::content::{diag_view, views};
use crate::design_rules::{DiagText, design_issues, dtext, dtexts, validate_design};
use crate::ordered_map::{MapKey, OrderedMap, keys_of};
use crate::ids::{InteractionId, NodeId};
use crate::dispatch::{apply_commands, commands_applied};
use crate::engine::{batch_shape_issues, diagnostic, error_view, failed_precondition, validate_batch_shape};
use crate::history::{find_receipt, first_failure, preconditions_hold, receipt_position, refused_with};
use crate::model::{DeletionTombstone, DesignerDiagnostic, RevisionId, StudioDesign};
use crate::session::{BatchConflict, CommandReceipt, same_receipt};

verus! {

/// What a submitted batch comes to before anything is persisted.
#[derive(Debug)]
pub enum SubmitPlan {
    /// The operation was already applied; its receipt answers it again.
    Replay(CommandReceipt),
    /// The batch was written against another revision, or a precondition no
    /// longer holds.
    Conflict(BatchConflict),
    /// The batch is malformed or one of its commands was refused.
    Rejected(Vec<DesignerDiagnostic>),
    /// The design after the batch, with the inverse commands that undo it.
    Apply { design: StudioDesign, inverse_commands: Vec<Command> },
}

/// Decide a submitted batch against the current design and revision. The
/// commands applied are `commands`, the batch's own command list.
pub fn plan_submit(
    design: StudioDesign,
    current: RevisionId,
    receipts: &Vec<CommandReceipt>,
    batch: &CommandBatch,
    commands: Vec<Command>,
) -> (r: SubmitPlan)
    ensures
        receipt_position(receipts@, batch.operation_id@) matches Some(k) ==> (r matches SubmitPlan::Replay(x)
            && same_receipt(x, receipts@[k])),
        receipt_position(receipts@, batch.operation_id@) is None ==> if batch.base_revision != current {
            r matches SubmitPlan::Conflict(c) && c.operation_id == batch.operation_id && c.expected_revision
                == batch.base_revision && c.actual_revision == current && c.failed_precondition is None
                && c.code@ == "DESIGN_STALE_REVISION"@ && c.message@ == "the batch base revision is stale"@
        } else if batch_shape_issues(*batch, &design).len() > 0 {
            r matches SubmitPlan::Rejected(ds) && views(ds@) == batch_shape_issues(*batch, &design)
        } else if !preconditions_hold(&design, batch.preconditions@) {
            r matches SubmitPlan::Conflict(c) && c.operation_id == batch.operation_id && c.expected_revision
                == current && c.actual_revision == current && (c.failed_precondition matches Some(i)
                && first_failure(&design, batch.preconditions@, i as int))
                && c.code@ == "DESIGN_PRECONDITION_FAILED"@
                && c.message@ == "a structural or property precondition no longer holds"@
        } else {
            match r {
                SubmitPlan::Apply { design: d1, inverse_commands } => commands_applied(
                    design,
                    commands@,
                    d1,
                    Ok(inverse_commands@),
                ),
                SubmitPlan::Rejected(ds) => ds@.len() == 1 && refused_with(design, commands@, ds@[0]),
                _ => false,
            }
        },
{
    match find_receipt(receipts, &batch.operation_id) {
        Some(k) => {
            return SubmitPlan::Replay(receipts[k].copy());
        },
        None => {},
    }
    if batch.base_revision != current {
        return SubmitPlan::Conflict(BatchConflict {
            operation_id: batch.operation_id.copy(),
            expected_revision: batch.base_revision,
            actual_revision: current,
            failed_precondition: None,
            code: String::from_str("DESIGN_STALE_REVISION"),
            message: String::from_str("the batch base revision is stale"),
        });
    }
    let shape = validate_batch_shape(batch, &design);
    if shape.len() > 0 {
        return SubmitPlan::Rejected(shape);
    }
    match failed_precondition(&design, &batch.preconditions) {
        Some(index) => {
            return SubmitPlan::Conflict(BatchConflict {
                operation_id: batch.operation_id.copy(),
                expected_revision: current,
                actual_revision: current,
                failed_precondition: Some(index),
                code: String::from_str("DESIGN_PRECONDITION_FAILED"),
                message: String::from_str("a structural or property precondition no longer holds"),
            });
        },
        None => {},
    }
    let ghost d0 = design;
    let ghost cs = commands@;
    let mut design = design;
    match apply_commands(&mut design, commands) {
        Ok(inverse_commands) => SubmitPlan::Apply { design, inverse_commands },
        Err(ds) => {
            assert(commands_applied(d0, cs, design, Err(ds@[0])));
            assert(refused_with(d0, cs, ds@[0]));
            SubmitPlan::Rejected(ds)
        },
    }
}

/// The history after recording an applied batch: groups after the cursor
/// are dropped, and the batch joins the last group when it carries that
/// group's identity, else opens a group of its own.
pub open spec fn recorded(history: Seq<HistoryEntry>, cursor: int, applied: AppliedBatch, name: Seq<char>, after: Seq<HistoryEntry>) -> bool {
    let kept = history.take(cursor);
    if kept.len() > 0 && kept.last().undo_group_id@ == applied.batch.undo_group_id@ {
        &&& after.len() == kept.len()
        &&& after.drop_last() == kept.drop_last()
        &&& after.last().undo_group_id == kept.last().undo_group_id
        &&& after.last().name == kept.last().name
        &&& after.last().batches@ == kept.last().batches@.push(applied)
    } else {
        &&& after.len() == kept.len() + 1
        &&& after.drop_last() == kept
        &&& after.last().undo_group_id == applied.batch.undo_group_id
        &&& after.last().name@ == name
        &&& after.last().batches@ == seq![applied]
    }
}

/// Record an applied batch in the history and return the new cursor, which
/// stands after the last group.
pub fn record_applied(history: &mut Vec<HistoryEntry>, cursor: usize, applied: AppliedBatch) -> (r: usize)
    requires
        cursor <= old(history)@.len(),
    ensures
        recorded(old(history)@, cursor as int, applied, applied.batch.undo_group_name@, final(history)@),
        r == final(history)@.len(),
{
    let ghost kept = old(history)@.take(cursor as int);
    let ghost a = applied;
    history.truncate(cursor);
    assert(history@ =~= kept);
    let n = history.len();
    if n > 0 && history[n - 1].undo_group_id.same(&applied.batch.undo_group_id) {
        let mut last = history.pop().unwrap();
        last.batches.push(applied);
        history.push(last);
        assert(history@.drop_last() =~= kept.drop_last());
    } else {
        let undo_group_id = applied.batch.undo_group_id.copy();
        let name = applied.batch.undo_group_name.clone();
        let mut batches: Vec<AppliedBatch> = Vec::new();
        batches.push(applied);
        history.push(HistoryEntry { undo_group_id, name, batches });
        assert(history@.drop_last() =~= kept);
        assert(history@.last().batches@ =~= seq![a]);
    }
    history.len()
}

/// Decide whether a candidate snapshot may be committed as the revision
/// after `current`: its validation diagnostics must be empty (they reject it
/// otherwise), and the revision sequence must not be exhausted.
pub fn commit_revision(
    design: &StudioDesign,
    tombstones: &OrderedMap<NodeId, DeletionTombstone>,
    numbers: &OrderedMap<String, i64>,
    current: RevisionId,
) -> (r: Result<RevisionId, Vec<DesignerDiagnostic>>)
    ensures
        snapshot_issues(design, tombstones@, numbers@).len() > 0 ==> (r matches Err(ds) && dtexts(ds@) == snapshot_issues(design, tombstones@, numbers@)),
        snapshot_issues(design, tombstones@, numbers@).len() == 0 && current.0 < u64::MAX ==> r == Ok::<RevisionId, Vec<DesignerDiagnostic>>(RevisionId((current.0 + 1) as u64)),
        snapshot_issues(design, tombstones@, numbers@).len() == 0 && current.0 == u64::MAX ==> (r matches Err(ds) && ds@.len() == 1
            && diag_view(ds@[0]) == error_view("DESIGN_REVISION_EXHAUSTED"@, "the project revision sequence is exhausted"@, None)),
{
    let diagnostics = validate_snapshot(design, tombstones, numbers);
    if diagnostics.len() > 0 {
        return Err(diagnostics);
    }
    match current.checked_next() {
        Some(next) => Ok(next),
        None => {
            let mut ds: Vec<DesignerDiagnostic> = Vec::new();
            ds.push(diagnostic("DESIGN_REVISION_EXHAUSTED", "the project revision sequence is exhausted", None));
            Err(ds)
        },
    }
}

/// The receipt of a batch committed as a revision.
pub fn receipt_for_batch(batch: &CommandBatch, committed_revision: RevisionId) -> (r: CommandReceipt)
    ensures
        r.operation_id == batch.operation_id,
        r.project_id == batch.project_id,
        r.base_revision == batch.base_revision,
        r.committed_revision == committed_revision,
        r.actor == batch.actor,
        r.undo_group_id == batch.undo_group_id,
        r.undo_group_name@ == batch.undo_group_name@,
        r.command_count == batch.commands@.len(),
{
    CommandReceipt {
        operation_id: batch.operation_id.copy(),
        project_id: batch.project_id.copy(),
        base_revision: batch.base_revision,
        committed_revision,
        actor: batch.actor.copy(),
        undo_group_id: batch.undo_group_id.copy(),
        undo_group_name: batch.undo_group_name.clone(),
        command_count: batch.commands.len(),
    }
}

/// Whether a deletion tombstone records a reference from an interaction.
pub open spec fn dangling_interaction(tombstones: Map<Seq<char>, DeletionTombstone>, id: Seq<char>) -> bool {
    exists|k: Seq<char>, j: int|
        #![trigger tombstones[k].references@[j]]
        tombstones.contains_key(k) && 0 <= j < tombstones[k].references@.len()
            && tombstones[k].references@[j].owner@ == "interaction:"@ + id
}

/// Whether a design diagnostic still stands for a snapshot: interaction
/// diagnostics about interactions that reference deleted nodes are left to
/// the deletion's own reference warnings.
pub open spec fn stands(t: DiagText, tombstones: Map<Seq<char>, DeletionTombstone>) -> bool {
    !((t.0 == "DESIGN_INTERACTION_INVALID"@ || t.0 == "DESIGN_INTERACTION_TARGET_MISSING"@)
        && (t.4 matches Some(i) && dangling_interaction(tombstones, i)))
}

/// The design diagnostics that stand for a snapshot, in order.
pub open spec fn standing(ts: Seq<DiagText>, tombstones: Map<Seq<char>, DeletionTombstone>) -> Seq<DiagText>
    decreases ts.len(),
{
    if ts.len() == 0 {
        Seq::empty()
    } else if stands(ts.last(), tombstones) {
        standing(ts.drop_last(), tombstones).push(ts.last())
    } else {
        standing(ts.drop_last(), tombstones)
    }
}

/// The validation diagnostics of a snapshot.
pub open spec fn snapshot_issues(design: &StudioDesign, tombstones: Map<Seq<char>, DeletionTombstone>, numbers: Map<Seq<char>, i64>) -> Seq<DiagText> {
    standing(design_issues(design, numbers), tombstones)
}

fn references_interaction(tombstones: &OrderedMap<NodeId, DeletionTombstone>, id: &InteractionId) -> (r: bool)
    ensures
        r == dangling_interaction(tombstones@, id@),
{
    let mut owner = String::from_str("interaction:");
    owner.append(id.as_str());
    tombstones.reveal_entries();
    let ghost entries = tombstones.entry_seq();
    assert forall|e: int| 0 <= e < entries.len() implies tombstones@.contains_key(#[trigger] entries[e].0.key_view()) by {
        assert(keys_of(entries)[e] == entries[e].0.key_view());
        assert(keys_of(entries).contains(entries[e].0.key_view()));
    }
    let mut i: usize = 0;
    while i < tombstones.len()
        invariant
            forall|e: int| 0 <= e < entries.len() ==> tombstones@.contains_key(#[trigger] entries[e].0.key_view())
                && tombstones@[entries[e].0.key_view()] == entries[e].1,
            i <= entries.len(),
            entries == tombstones.entry_seq(),
            owner@ == "interaction:"@ + id@,
            forall|e: int, j: int| 0 <= e < i && 0 <= j < entries[e].1.references@.len()
                ==> (#[trigger] entries[e].1.references@[j]).owner@ != owner@,
        decreases entries.len() - i,
    {
        let t = tombstones.value_at(i);
        let mut j: usize = 0;
        while j < t.references.len()
            invariant
                forall|e: int| 0 <= e < entries.len() ==> tombstones@.contains_key(#[trigger] entries[e].0.key_view())
                    && tombstones@[entries[e].0.key_view()] == entries[e].1,
                i < entries.len(),
                *t == entries[i as int].1,
                j <= t.references@.len(),
                owner@ == "interaction:"@ + id@,
                forall|q: int| 0 <= q < j ==> (#[trigger] t.references@[q]).owner@ != owner@,
            decreases t.references@.len() - j,
        {
            if crate::text::str_eq(t.references[j].owner.as_str(), owner.as_str()) {
                proof {
                    let k = entries[i as int].0.key_view();
                    assert(tombstones@.contains_key(k));
                    assert(tombstones@[k] == entries[i as int].1);
                    assert(tombstones@[k].references@[j as int].owner@ == "interaction:"@ + id@);
                }
                return true;
            }
            j = j + 1;
        }
        i = i + 1;
    }
    proof {
        assert forall|k: Seq<char>, j: int|
            tombstones@.contains_key(k) && 0 <= j < tombstones@[k].references@.len() implies #[trigger] tombstones@[k].references@[j].owner@
            != "interaction:"@ + id@ by {
            assert(tombstones.key_seq().contains(k));
            let e = choose|e: int| 0 <= e < keys_of(entries).len() && keys_of(entries)[e] == k;
            assert(entries[e].0.key_view() == k);
            assert(tombstones@[entries[e].0.key_view()] == entries[e].1);
            assert(entries[e].1.references@[j] == tombstones@[k].references@[j]);
        }
    }
    false
}

/// Validate a snapshot: its design's diagnostics, less the interaction
/// diagnostics about interactions whose references were recorded by a
/// deletion.
pub fn validate_snapshot(design: &StudioDesign, tombstones: &OrderedMap<NodeId, DeletionTombstone>, numbers: &OrderedMap<String, i64>) -> (r: Vec<DesignerDiagnostic>)
    ensures
        dtexts(r@) == snapshot_issues(design, tombstones@, numbers@),
{
    let all = validate_design(design, numbers);
    let ghost ts = dtexts(all@);
    let mut out: Vec<DesignerDiagnostic> = Vec::new();
    let mut i: usize = 0;
    while i < all.len()
        invariant
            i <= all@.len(),
            ts == dtexts(all@),
            ts == design_issues(design, numbers@),
            dtexts(out@) == standing(ts.take(i as int), tombstones@),
        decreases all@.len() - i,
    {
        let d = &all[i];
        let is_interaction_code = crate::text::str_eq(d.code.as_str(), "DESIGN_INTERACTION_INVALID")
            || crate::text::str_eq(d.code.as_str(), "DESIGN_INTERACTION_TARGET_MISSING");
        let dangling = is_interaction_code && match &d.interaction_id {
            Some(id) => references_interaction(tombstones, id),
            None => false,
        };
        assert(ts.take(i + 1).drop_last() =~= ts.take(i as int));
        assert(ts[i as int] == dtext(all@[i as int]));
        if !dangling {
            let ghost before = out@;
            out.push(all[i].copy());
            assert(dtexts(out@) =~= dtexts(before).push(dtext(all@[i as int])));
        }
        i = i + 1;
    }
    assert(ts.take(i as int) =~= ts);
    out
}

} // verus!
