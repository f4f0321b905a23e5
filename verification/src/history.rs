//! Undo and redo of named command groups.
//!
//! The session keeps its history as named groups of applied batches and a
//! cursor: the groups before the cursor can be undone, the group at the
//! cursor redone. Undo applies the inverse commands of a group, last batch
//! first; redo re-checks each batch's preconditions and applies its commands
//! again. The decisions here are pure: the session persists what they
//! produce.
use vstd::prelude::*;
use vstd::string::StringExecFns;

use crate::command::{AppliedBatch, Command, CommandPrecondition, HistoryEntry};
use crate::content::diag_view;
use crate::dispatch::{apply_commands, commands_applied};
use crate::engine::{diagnostic, error_view, failed_precondition, precondition_fails};
use crate::ids::{OperationId, UndoGroupId};
use crate::model::{DesignerDiagnostic, RevisionId, StudioDesign};
use crate::session::{BatchConflict, CommandReceipt, HistoryOperation, same_receipt};

verus! {

/// The position of the first receipt for an operation, if any.
pub open spec fn receipt_position(receipts: Seq<CommandReceipt>, operation_id: Seq<char>) -> Option<int>
    decreases receipts.len(),
{
    if receipts.len() == 0 {
        None
    } else {
        match receipt_position(receipts.drop_last(), operation_id) {
            Some(k) => Some(k),
            None => if receipts.last().operation_id@ == operation_id {
                Some(receipts.len() - 1)
            } else {
                None
            },
        }
    }
}

proof fn lemma_receipt_position(receipts: Seq<CommandReceipt>, operation_id: Seq<char>, i: int)
    requires
        0 <= i <= receipts.len(),
        forall|j: int| 0 <= j < i ==> (#[trigger] receipts[j]).operation_id@ != operation_id,
    ensures
        receipt_position(receipts.take(i), operation_id) is None,
    decreases i,
{
    if i > 0 {
        assert(receipts.take(i).drop_last() =~= receipts.take(i - 1));
        lemma_receipt_position(receipts, operation_id, i - 1);
    }
}

proof fn lemma_receipt_found(receipts: Seq<CommandReceipt>, operation_id: Seq<char>, i: int)
    requires
        0 <= i < receipts.len(),
        receipts[i].operation_id@ == operation_id,
        forall|j: int| 0 <= j < i ==> (#[trigger] receipts[j]).operation_id@ != operation_id,
    ensures
        receipt_position(receipts, operation_id) == Some(i),
    decreases receipts.len(),
{
    if i == receipts.len() - 1 {
        lemma_receipt_position(receipts, operation_id, i);
        assert(receipts.take(i) =~= receipts.drop_last());
    } else {
        lemma_receipt_found(receipts.drop_last(), operation_id, i);
    }
}

/// Find the receipt already issued for an operation.
pub fn find_receipt(receipts: &Vec<CommandReceipt>, operation_id: &OperationId) -> (r: Option<usize>)
    ensures
        r matches Some(k) ==> k < receipts@.len() && receipt_position(receipts@, operation_id@) == Some(k as int),
        match receipt_position(receipts@, operation_id@) {
            Some(k) => r == Some(k as usize),
            None => r is None,
        },
{
    let mut i: usize = 0;
    while i < receipts.len()
        invariant
            i <= receipts@.len(),
            forall|j: int| 0 <= j < i ==> (#[trigger] receipts@[j]).operation_id@ != operation_id@,
        decreases receipts@.len() - i,
    {
        if receipts[i].operation_id.same(operation_id) {
            proof {
                lemma_receipt_found(receipts@, operation_id@, i as int);
            }
            return Some(i);
        }
        i = i + 1;
    }
    proof {
        lemma_receipt_position(receipts@, operation_id@, i as int);
        assert(receipts@.take(i as int) =~= receipts@);
    }
    None
}

/// Whether a list of commands applies in full, turning `d0` into `d1`.
pub open spec fn applies_fully(d0: StudioDesign, cmds: Seq<Command>, d1: StudioDesign) -> bool {
    exists|inv: Seq<Command>| commands_applied(d0, cmds, d1, Ok(inv))
}

/// Whether applying a list of commands to `d0` is refused with `e`.
pub open spec fn refused_with(d0: StudioDesign, cmds: Seq<Command>, e: DesignerDiagnostic) -> bool {
    exists|d1: StudioDesign| commands_applied(d0, cmds, d1, Err(e))
}

/// The inverse commands that undo a group: those of its last batch first.
pub open spec fn undo_commands(batches: Seq<AppliedBatch>) -> Seq<Command>
    decreases batches.len(),
{
    if batches.len() == 0 {
        Seq::empty()
    } else {
        batches.last().inverse_commands@ + undo_commands(batches.drop_last())
    }
}

/// Whether a precondition list holds on a design.
pub open spec fn preconditions_hold(design: &StudioDesign, cs: Seq<CommandPrecondition>) -> bool {
    forall|j: int| 0 <= j < cs.len() ==> !precondition_fails(design, #[trigger] cs[j])
}

/// Whether `i` is the first precondition that fails on a design.
pub open spec fn first_failure(design: &StudioDesign, cs: Seq<CommandPrecondition>, i: int) -> bool {
    &&& 0 <= i < cs.len()
    &&& precondition_fails(design, cs[i])
    &&& forall|j: int| 0 <= j < i ==> !precondition_fails(design, #[trigger] cs[j])
}

/// A replay of the first `designs.len() - 1` batches of a group: before
/// each, its preconditions held, and its commands applied in full.
pub open spec fn redo_steps(batches: Seq<AppliedBatch>, designs: Seq<StudioDesign>) -> bool {
    &&& 1 <= designs.len() <= batches.len() + 1
    &&& forall|i: int| #![trigger designs[i]] 0 <= i < designs.len() - 1 ==> {
        &&& preconditions_hold(&designs[i], batches[i].batch.preconditions@)
        &&& applies_fully(designs[i], batches[i].batch.commands@, designs[i + 1])
    }
}

/// The diagnostic for an undo or redo with no group to apply.
pub open spec fn unavailable_view(redo: bool) -> crate::content::DiagView {
    error_view(
        "DESIGN_HISTORY_UNAVAILABLE"@,
        if redo {
            "there is no named command group to redo"@
        } else {
            "there is no named command group to undo"@
        },
        None,
    )
}

/// What an undo or redo request comes to before anything is persisted.
#[derive(Debug)]
pub enum HistoryPlan {
    /// The operation was already applied; its receipt answers it again.
    Replay(CommandReceipt),
    /// The request was made against another revision, or a redone batch's
    /// precondition no longer holds.
    Conflict(BatchConflict),
    /// The group cannot be applied.
    Rejected(Vec<DesignerDiagnostic>),
    /// The design after applying the group at `entry_index`, with the
    /// group's identity and the number of commands applied.
    Apply {
        design: StudioDesign,
        entry_index: usize,
        undo_group_id: UndoGroupId,
        undo_group_name: String,
        command_count: usize,
    },
}

/// The conflict of a request made against another revision.
pub open spec fn stale_conflict(c: BatchConflict, operation: HistoryOperation, current: RevisionId) -> bool {
    &&& c.operation_id == operation.operation_id
    &&& c.expected_revision == operation.base_revision
    &&& c.actual_revision == current
    &&& c.failed_precondition is None
    &&& c.code@ == "DESIGN_STALE_REVISION"@
    &&& c.message@ == "the batch base revision is stale"@
}

/// The conflict of a redone batch whose precondition `index` fails.
pub open spec fn precondition_conflict(c: BatchConflict, operation: HistoryOperation, current: RevisionId, index: int) -> bool {
    &&& c.operation_id == operation.operation_id
    &&& c.expected_revision == current
    &&& c.actual_revision == current
    &&& c.failed_precondition == Some(index as usize)
    &&& c.code@ == "DESIGN_PRECONDITION_FAILED"@
    &&& c.message@ == "a structural or property precondition no longer holds"@
}

/// The group an undo (`redo == false`) or redo applies, given the cursor.
pub open spec fn group_index(cursor: int, len: int, redo: bool) -> Option<int> {
    if redo {
        if cursor < len {
            Some(cursor)
        } else {
            None
        }
    } else if cursor > 0 {
        Some(cursor - 1)
    } else {
        None
    }
}

fn unavailable(redo: bool) -> (r: Vec<DesignerDiagnostic>)
    ensures
        r@.len() == 1,
        diag_view(r@[0]) == unavailable_view(redo),
{
    let mut ds: Vec<DesignerDiagnostic> = Vec::new();
    if redo {
        ds.push(diagnostic("DESIGN_HISTORY_UNAVAILABLE", "there is no named command group to redo", None));
    } else {
        ds.push(diagnostic("DESIGN_HISTORY_UNAVAILABLE", "there is no named command group to undo", None));
    }
    ds
}

fn take_undo_commands(batches: Vec<AppliedBatch>) -> (r: Vec<Command>)
    ensures
        r@ == undo_commands(batches@),
{
    let ghost all = batches@;
    let mut rest = batches;
    let mut out: Vec<Command> = Vec::new();
    while rest.len() > 0
        invariant
            rest@ == all.take(rest@.len() as int),
            rest@.len() <= all.len(),
            out@ + undo_commands(rest@) == undo_commands(all),
        decreases rest@.len(),
    {
        let ghost before = rest@;
        let last = rest.pop().unwrap();
        assert(rest@ == before.drop_last());
        assert(rest@ =~= all.take(rest@.len() as int));
        let mut inverses = last.inverse_commands;
        out.append(&mut inverses);
        assert(out@ + undo_commands(rest@) =~= undo_commands(all));
    }
    assert(out@ + undo_commands(rest@) =~= out@);
    out
}

/// Decide an undo (`redo == false`) or redo. An operation that already has
/// a receipt is answered by it; a request against another revision is a
/// stale conflict; with no group before (undo) or at (redo) the cursor it is
/// rejected. Undo applies the group's inverse commands, last batch first.
/// Redo replays the group's batches in order, each only where its
/// preconditions still hold (else a precondition conflict). A command that
/// is refused rejects the request with its diagnostic.
#[verifier::rlimit(30)]
pub fn plan_history(
    design: StudioDesign,
    current: RevisionId,
    receipts: &Vec<CommandReceipt>,
    history: Vec<HistoryEntry>,
    cursor: usize,
    operation: &HistoryOperation,
    redo: bool,
) -> (r: HistoryPlan)
    requires
        cursor <= history@.len(),
    ensures
        receipt_position(receipts@, operation.operation_id@) matches Some(k) ==> (r matches HistoryPlan::Replay(x)
            && same_receipt(x, receipts@[k])),
        receipt_position(receipts@, operation.operation_id@) is None && operation.base_revision != current ==> (
        r matches HistoryPlan::Conflict(c) && stale_conflict(c, *operation, current)),
        receipt_position(receipts@, operation.operation_id@) is None && operation.base_revision == current ==> match group_index(
            cursor as int,
            history@.len() as int,
            redo,
        ) {
            None => r matches HistoryPlan::Rejected(ds) && ds@.len() == 1 && diag_view(ds@[0]) == unavailable_view(redo),
            Some(g) => {
                let entry = history@[g];
                if redo {
                    redone(design, entry.batches@, g as usize, entry.undo_group_id, entry.name@, *operation, current, r)
                } else {
                    undone(design, entry.batches@, g as usize, entry.undo_group_id, entry.name@, r)
                }
            },
        },
{
    match find_receipt(receipts, &operation.operation_id) {
        Some(k) => {
            let x = receipts[k].copy();
            assert(receipt_position(receipts@, operation.operation_id@) == Some(k as int));
            assert(same_receipt(x, receipts@[k as int]));
            return HistoryPlan::Replay(x);
        },
        None => {},
    }
    if operation.base_revision != current {
        return HistoryPlan::Conflict(BatchConflict {
            operation_id: operation.operation_id.copy(),
            expected_revision: operation.base_revision,
            actual_revision: current,
            failed_precondition: None,
            code: String::from_str("DESIGN_STALE_REVISION"),
            message: String::from_str("the batch base revision is stale"),
        });
    }
    let g: usize = if redo {
        if cursor < history.len() {
            cursor
        } else {
            return HistoryPlan::Rejected(unavailable(redo));
        }
    } else if cursor > 0 {
        cursor - 1
    } else {
        return HistoryPlan::Rejected(unavailable(redo));
    };
    let ghost entries = history@;
    let mut history = history;
    let entry = history.swap_remove(g);
    assert(entry == entries[g as int]);
    let HistoryEntry { undo_group_id, name, batches } = entry;
    if redo {
        redo_group(design, batches, g, undo_group_id, name, current, operation)
    } else {
        undo_group(design, batches, g, undo_group_id, name)
    }
}

/// What an undo of the group at `g` comes to: the design after its inverse
/// commands, or the diagnostic of the first that was refused.
pub open spec fn undone(
    design: StudioDesign,
    batches: Seq<AppliedBatch>,
    g: usize,
    undo_group_id: UndoGroupId,
    name: Seq<char>,
    r: HistoryPlan,
) -> bool {
    match r {
        HistoryPlan::Apply { design: d1, entry_index, undo_group_id: u, undo_group_name, command_count } => {
            &&& entry_index == g
            &&& u == undo_group_id
            &&& undo_group_name@ == name
            &&& command_count == undo_commands(batches).len()
            &&& applies_fully(design, undo_commands(batches), d1)
        },
        HistoryPlan::Rejected(ds) => ds@.len() == 1 && refused_with(design, undo_commands(batches), ds@[0]),
        _ => false,
    }
}

/// What a redo of the group at `g` comes to: its batches replayed in order
/// while their preconditions hold and their commands apply.
pub open spec fn redone(
    design: StudioDesign,
    batches: Seq<AppliedBatch>,
    g: usize,
    undo_group_id: UndoGroupId,
    name: Seq<char>,
    operation: HistoryOperation,
    current: RevisionId,
    r: HistoryPlan,
) -> bool {
    exists|designs: Seq<StudioDesign>| #![trigger redo_steps(batches, designs)] redo_steps(batches, designs) && designs[0] == design && {
        let k = designs.len() - 1;
        let dk = designs.last();
        match r {
            HistoryPlan::Apply { design: d1, entry_index, undo_group_id: u, undo_group_name, command_count } => {
                &&& k == batches.len()
                &&& d1 == dk
                &&& entry_index == g
                &&& u == undo_group_id
                &&& undo_group_name@ == name
                &&& command_count == capped(redo_count(batches))
            },
            HistoryPlan::Conflict(c) => k < batches.len() && exists|i: int|
                first_failure(&dk, batches[k].batch.preconditions@, i) && precondition_conflict(c, operation, current, i),
            HistoryPlan::Rejected(ds) => k < batches.len() && preconditions_hold(&dk, batches[k].batch.preconditions@)
                && ds@.len() == 1 && refused_with(dk, batches[k].batch.commands@, ds@[0]),
            _ => false,
        }
    }
}

fn undo_group(start: StudioDesign, batches: Vec<AppliedBatch>, g: usize, undo_group_id: UndoGroupId, name: String) -> (r: HistoryPlan)
    ensures
        undone(start, batches@, g, undo_group_id, name@, r),
{
    let ghost d0 = start;
    let ghost bs = batches@;
    let mut design = start;
    let commands = take_undo_commands(batches);
    let count = commands.len();
    match apply_commands(&mut design, commands) {
        Ok(inv) => {
            assert(commands_applied(d0, undo_commands(bs), design, Ok(inv@)));
            assert(applies_fully(d0, undo_commands(bs), design));
            let r = HistoryPlan::Apply { design, entry_index: g, undo_group_id, undo_group_name: name, command_count: count };
            assert(undone(d0, bs, g, undo_group_id, name@, r));
            r
        },
        Err(ds) => {
            assert(commands_applied(d0, undo_commands(bs), design, Err(ds@[0])));
            assert(refused_with(d0, undo_commands(bs), ds@[0]));
            HistoryPlan::Rejected(ds)
        },
    }
}

/// The number of commands a redo applies: all commands of the group.
pub open spec fn redo_count(batches: Seq<AppliedBatch>) -> int
    decreases batches.len(),
{
    if batches.len() == 0 {
        0
    } else {
        redo_count(batches.drop_last()) + batches.last().batch.commands@.len()
    }
}

#[verifier::rlimit(30)]
fn redo_group(
    start: StudioDesign,
    batches: Vec<AppliedBatch>,
    g: usize,
    undo_group_id: UndoGroupId,
    name: String,
    current: RevisionId,
    operation: &HistoryOperation,
) -> (r: HistoryPlan)
    ensures
        redone(start, batches@, g, undo_group_id, name@, *operation, current, r),
{
    let ghost all = batches@;
    let ghost d0 = start;
    let mut design = start;
    let ghost mut designs: Seq<StudioDesign> = seq![design];
    let mut count: usize = 0;
    let mut rest = batches;
    while rest.len() > 0
        invariant
            designs.len() + rest@.len() == all.len() + 1,
            rest@ == all.subrange(designs.len() - 1, all.len() as int),
            redo_steps(all, designs),
            designs.last() == design,
            designs[0] == d0,
            d0 == start,
            all == batches@,
            count as int == capped(redo_count(all.take(designs.len() - 1))),
        decreases rest@.len(),
    {
        let ghost k = designs.len() - 1;
        let applied = rest.remove(0);
        assert(applied == all[k]);
        match failed_precondition(&design, &applied.batch.preconditions) {
            Some(index) => {
                let ghost dk = design;
                assert(first_failure(&dk, all[k].batch.preconditions@, index as int));
                let c = BatchConflict {
                    operation_id: operation.operation_id.copy(),
                    expected_revision: current,
                    actual_revision: current,
                    failed_precondition: Some(index),
                    code: String::from_str("DESIGN_PRECONDITION_FAILED"),
                    message: String::from_str("a structural or property precondition no longer holds"),
                };
                assert(precondition_conflict(c, *operation, current, index as int));
                assert(redo_steps(batches@, designs));
                return HistoryPlan::Conflict(c);
            },
            None => {},
        }
        let ghost dk = design;
        let n = applied.batch.commands.len();
        match apply_commands(&mut design, applied.batch.commands) {
            Ok(inv) => {
                proof {
                    let old_designs = designs;
                    designs = designs.push(design);
                    assert(commands_applied(dk, all[k].batch.commands@, design, Ok(inv@)));
                    assert(applies_fully(dk, all[k].batch.commands@, design));
                    assert forall|j: int| #![trigger designs[j]] 0 <= j < designs.len() - 1 implies {
                        &&& preconditions_hold(&designs[j], all[j].batch.preconditions@)
                        &&& applies_fully(designs[j], all[j].batch.commands@, designs[j + 1])
                    } by {
                        if j < k {
                            assert(designs[j] == old_designs[j]);
                            assert(designs[j + 1] == old_designs[j + 1]);
                            assert(old_designs[j] == old_designs[j]);
                        } else {
                            assert(designs[j] == dk);
                            assert(designs[j + 1] == design);
                        }
                    }
                    assert(all.take(k + 1).drop_last() =~= all.take(k));
                    assert(rest@ =~= all.subrange(designs.len() - 1, all.len() as int));
                }
                count = count.saturating_add(n);
            },
            Err(ds) => {
                assert(preconditions_hold(&dk, all[k].batch.preconditions@));
                assert(commands_applied(dk, all[k].batch.commands@, design, Err(ds@[0])));
                assert(refused_with(dk, all[k].batch.commands@, ds@[0]));
                assert(redo_steps(batches@, designs));
                return HistoryPlan::Rejected(ds);
            },
        }
    }
    assert(redo_steps(batches@, designs));
    assert(all.take(all.len() as int) =~= all);
    HistoryPlan::Apply { design, entry_index: g, undo_group_id, undo_group_name: name, command_count: count }
}

/// A count held in a `usize`, saturating at its largest value.
pub open spec fn capped(n: int) -> int {
    if n <= usize::MAX {
        n
    } else {
        usize::MAX as int
    }
}

} // verus!
