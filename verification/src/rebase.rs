//! Stale-base analysis for streamed agent batches.
//!
//! A batch written against an older revision may still be submitted when no
//! batch accepted since its base touched what it touches: its footprint (the
//! nodes, properties, identities and child lists it reads or writes) is
//! compared with the footprint of every intervening batch, inverses included.
//! A batch that overlaps one of them, or whose base has no intervening batch
//! to compare with, is answered with a conflict instead.
use vstd::prelude::*;
use vstd::string::StringExecFns;

use crate::agent::{history_has_operation, history_holds};
use crate::command::{Command, CommandBatch, CommandPrecondition};
use crate::engine::{parents_equal, same_parent};
use crate::ids::NodeId;
use crate::model::{DesignNode, NodeParent, StudioDesignSnapshot};
use crate::ordered_map::OrderedMap;
use crate::session::{BatchConflict, HistorySnapshot};

verus! {

/// What a footprint covers, by identity text.
pub enum FootprintView {
    Node(Seq<char>),
    Property(Seq<char>, Seq<char>),
    Identity(Seq<char>),
    ChildList(NodeParent),
}

/// One thing a batch reads or writes.
#[derive(Debug)]
pub enum Footprint {
    /// A node as a whole.
    Node(NodeId),
    /// One property of a node.
    Property(NodeId, String),
    /// A node identity that a batch creates.
    Identity(NodeId),
    /// The ordered children of a parent.
    ChildList(NodeParent),
}

impl View for Footprint {
    type V = FootprintView;

    open spec fn view(&self) -> FootprintView {
        match *self {
            Footprint::Node(n) => FootprintView::Node(n@),
            Footprint::Property(n, p) => FootprintView::Property(n@, p@),
            Footprint::Identity(n) => FootprintView::Identity(n@),
            Footprint::ChildList(p) => FootprintView::ChildList(p),
        }
    }
}

/// The views of a list of footprints.
pub open spec fn fps(v: Seq<Footprint>) -> Seq<FootprintView> {
    v.map_values(|f: Footprint| f@)
}

/// The child list a node currently sits in, if it has a parent.
pub open spec fn parent_footprint(parents: Map<Seq<char>, NodeParent>, id: Seq<char>) -> Seq<FootprintView> {
    if parents.contains_key(id) {
        seq![FootprintView::ChildList(parents[id])]
    } else {
        Seq::empty()
    }
}

/// The identities a duplicate creates: the values of its identity map.
pub open spec fn value_identities(m: Seq<(NodeId, NodeId)>) -> Seq<FootprintView> {
    m.map_values(|e: (NodeId, NodeId)| FootprintView::Identity(e.1@))
}

/// The identities a restore brings back: the keys of its node map.
pub open spec fn key_identities(m: Seq<(NodeId, DesignNode)>) -> Seq<FootprintView> {
    m.map_values(|e: (NodeId, DesignNode)| FootprintView::Identity(e.0@))
}

/// The footprint of one command, given the current parents. Structural,
/// property and name edits leave a footprint; other commands leave none.
pub open spec fn command_footprint(c: Command, parents: Map<Seq<char>, NodeParent>) -> Seq<FootprintView> {
    match c {
        Command::InsertNode { parent, node } => seq![
            FootprintView::Identity(node.id@),
            FootprintView::ChildList(parent.parent),
        ],
        Command::MoveNode { node_id, destination } => seq![
            FootprintView::Node(node_id@),
            FootprintView::ChildList(destination.parent),
        ] + parent_footprint(parents, node_id@),
        Command::ReorderNode { node_id, .. } => seq![FootprintView::Node(node_id@)] + parent_footprint(parents, node_id@),
        Command::DeleteNode { node_id } => seq![FootprintView::Node(node_id@)] + parent_footprint(parents, node_id@),
        Command::DuplicateNode { source_node_id, destination, id_map } => seq![
            FootprintView::Node(source_node_id@),
            FootprintView::ChildList(destination.parent),
        ] + value_identities(id_map.entry_seq()),
        Command::RestoreNode { tombstone } => seq![
            FootprintView::Node(tombstone.root_node_id@),
            FootprintView::ChildList(tombstone.detached_from),
        ] + key_identities(tombstone.nodes.entry_seq()),
        Command::SetProperty { node_id, property, .. } => seq![FootprintView::Property(node_id@, property@)],
        Command::RenameNode { node_id, .. } => seq![FootprintView::Property(node_id@, "@name"@)],
        _ => Seq::empty(),
    }
}

/// The footprints of a list of commands, in order.
pub open spec fn commands_footprint(cs: Seq<Command>, parents: Map<Seq<char>, NodeParent>) -> Seq<FootprintView>
    decreases cs.len(),
{
    if cs.len() == 0 {
        Seq::empty()
    } else {
        commands_footprint(cs.drop_last(), parents) + command_footprint(cs.last(), parents)
    }
}

/// The footprint of one precondition.
pub open spec fn precondition_footprint(p: CommandPrecondition) -> Seq<FootprintView> {
    match p {
        CommandPrecondition::NodeExists { node_id } => seq![FootprintView::Node(node_id@)],
        CommandPrecondition::NodeMissing { node_id } => seq![FootprintView::Node(node_id@)],
        CommandPrecondition::ChildIndexEquals { node_id, .. } => seq![FootprintView::Node(node_id@)],
        CommandPrecondition::ParentEquals { node_id, parent } => seq![
            FootprintView::Node(node_id@),
            FootprintView::ChildList(parent),
        ],
        CommandPrecondition::PropertyEquals { node_id, property, .. } => seq![FootprintView::Property(node_id@, property@)],
        _ => Seq::empty(),
    }
}

/// The footprints of a list of preconditions, in order.
pub open spec fn preconditions_footprint(ps: Seq<CommandPrecondition>) -> Seq<FootprintView>
    decreases ps.len(),
{
    if ps.len() == 0 {
        Seq::empty()
    } else {
        preconditions_footprint(ps.drop_last()) + precondition_footprint(ps.last())
    }
}

/// The footprint of a batch together with inverse commands.
pub open spec fn batch_footprint(batch: CommandBatch, inverses: Seq<Command>, parents: Map<Seq<char>, NodeParent>) -> Seq<FootprintView> {
    commands_footprint(batch.commands@, parents) + commands_footprint(inverses, parents) + preconditions_footprint(batch.preconditions@)
}

/// Whether a node footprint touches another footprint: the same node, the
/// same created identity, or a property of the node.
pub open spec fn node_touches(id: Seq<char>, f: FootprintView) -> bool {
    match f {
        FootprintView::Node(o) => id == o,
        FootprintView::Identity(o) => id == o,
        FootprintView::Property(o, _) => id == o,
        FootprintView::ChildList(_) => false,
    }
}

/// Whether two footprints overlap.
pub open spec fn footprints_overlap(l: FootprintView, r: FootprintView) -> bool {
    match l {
        FootprintView::Node(a) => node_touches(a, r),
        _ => match r {
            FootprintView::Node(b) => node_touches(b, l),
            FootprintView::Identity(b) => l matches FootprintView::Identity(a) && a == b,
            FootprintView::Property(b, q) => l matches FootprintView::Property(a, p) && a == b && p == q,
            FootprintView::ChildList(b) => l matches FootprintView::ChildList(a) && same_parent(a, b),
        },
    }
}

/// Whether some footprint of one list overlaps some footprint of another.
pub open spec fn overlapping(a: Seq<FootprintView>, b: Seq<FootprintView>) -> bool {
    exists|i: int, j: int| 0 <= i < a.len() && 0 <= j < b.len() && #[trigger] footprints_overlap(a[i], b[j])
}

proof fn lemma_fps_push(v: Seq<Footprint>, f: Footprint)
    ensures
        fps(v.push(f)) == fps(v).push(f@),
{
    assert(fps(v.push(f)) =~= fps(v).push(f@));
}

fn push_footprint(out: &mut Vec<Footprint>, f: Footprint)
    ensures
        fps(final(out)@) == fps(old(out)@).push(f@),
{
    let ghost v = f@;
    proof {
        lemma_fps_push(out@, f);
    }
    out.push(f);
}

fn push_parent_footprint(out: &mut Vec<Footprint>, parents: &OrderedMap<NodeId, NodeParent>, node_id: &NodeId)
    ensures
        fps(final(out)@) == fps(old(out)@) + parent_footprint(parents@, node_id@),
{
    match parents.get(node_id.as_str()) {
        Some(p) => {
            push_footprint(out, Footprint::ChildList(p.copy()));
            assert(fps(out@) =~= fps(old(out)@) + parent_footprint(parents@, node_id@));
        },
        None => {
            assert(fps(out@) =~= fps(old(out)@) + parent_footprint(parents@, node_id@));
        },
    }
}

fn push_command_footprint(out: &mut Vec<Footprint>, c: &Command, parents: &OrderedMap<NodeId, NodeParent>)
    ensures
        fps(final(out)@) == fps(old(out)@) + command_footprint(*c, parents@),
{
    match c {
        Command::InsertNode { parent, node } => {
            push_footprint(out, Footprint::Identity(node.id.copy()));
            push_footprint(out, Footprint::ChildList(parent.parent.copy()));
        },
        Command::MoveNode { node_id, destination } => {
            push_footprint(out, Footprint::Node(node_id.copy()));
            push_footprint(out, Footprint::ChildList(destination.parent.copy()));
            push_parent_footprint(out, parents, node_id);
        },
        Command::ReorderNode { node_id, .. } => {
            push_footprint(out, Footprint::Node(node_id.copy()));
            push_parent_footprint(out, parents, node_id);
        },
        Command::DeleteNode { node_id } => {
            push_footprint(out, Footprint::Node(node_id.copy()));
            push_parent_footprint(out, parents, node_id);
        },
        Command::DuplicateNode { source_node_id, destination, id_map } => {
            push_footprint(out, Footprint::Node(source_node_id.copy()));
            push_footprint(out, Footprint::ChildList(destination.parent.copy()));
            let ghost start = fps(out@);
            let mut i: usize = 0;
            while i < id_map.len()
                invariant
                    i <= id_map.entry_seq().len(),
                    fps(out@) == start + value_identities(id_map.entry_seq().take(i as int)),
                decreases id_map.entry_seq().len() - i,
            {
                push_footprint(out, Footprint::Identity(id_map.value_at(i).copy()));
                assert(value_identities(id_map.entry_seq().take(i + 1)) =~= value_identities(id_map.entry_seq().take(i as int)).push(
                    FootprintView::Identity(id_map.entry_seq()[i as int].1@),
                ));
                i = i + 1;
            }
            assert(id_map.entry_seq().take(i as int) =~= id_map.entry_seq());
        },
        Command::RestoreNode { tombstone } => {
            push_footprint(out, Footprint::Node(tombstone.root_node_id.copy()));
            push_footprint(out, Footprint::ChildList(tombstone.detached_from.copy()));
            let ghost start = fps(out@);
            let mut i: usize = 0;
            while i < tombstone.nodes.len()
                invariant
                    i <= tombstone.nodes.entry_seq().len(),
                    fps(out@) == start + key_identities(tombstone.nodes.entry_seq().take(i as int)),
                decreases tombstone.nodes.entry_seq().len() - i,
            {
                push_footprint(out, Footprint::Identity(tombstone.nodes.key_at(i).copy()));
                assert(key_identities(tombstone.nodes.entry_seq().take(i + 1)) =~= key_identities(
                    tombstone.nodes.entry_seq().take(i as int),
                ).push(FootprintView::Identity(tombstone.nodes.entry_seq()[i as int].0@)));
                i = i + 1;
            }
            assert(tombstone.nodes.entry_seq().take(i as int) =~= tombstone.nodes.entry_seq());
        },
        Command::SetProperty { node_id, property, .. } => {
            push_footprint(out, Footprint::Property(node_id.copy(), property.clone()));
        },
        Command::RenameNode { node_id, .. } => {
            push_footprint(out, Footprint::Property(node_id.copy(), String::from_str("@name")));
        },
        _ => {},
    }
    assert(fps(out@) =~= fps(old(out)@) + command_footprint(*c, parents@));
}

fn push_commands_footprint(out: &mut Vec<Footprint>, cs: &Vec<Command>, parents: &OrderedMap<NodeId, NodeParent>)
    ensures
        fps(final(out)@) == fps(old(out)@) + commands_footprint(cs@, parents@),
{
    let mut i: usize = 0;
    while i < cs.len()
        invariant
            i <= cs@.len(),
            fps(out@) == fps(old(out)@) + commands_footprint(cs@.take(i as int), parents@),
        decreases cs@.len() - i,
    {
        push_command_footprint(out, &cs[i], parents);
        assert(cs@.take(i + 1).drop_last() =~= cs@.take(i as int));
        assert(fps(out@) =~= fps(old(out)@) + commands_footprint(cs@.take(i + 1), parents@));
        i = i + 1;
    }
    assert(cs@.take(i as int) =~= cs@);
}

fn push_precondition_footprint(out: &mut Vec<Footprint>, p: &CommandPrecondition)
    ensures
        fps(final(out)@) == fps(old(out)@) + precondition_footprint(*p),
{
    match p {
        CommandPrecondition::NodeExists { node_id } => push_footprint(out, Footprint::Node(node_id.copy())),
        CommandPrecondition::NodeMissing { node_id } => push_footprint(out, Footprint::Node(node_id.copy())),
        CommandPrecondition::ChildIndexEquals { node_id, .. } => push_footprint(out, Footprint::Node(node_id.copy())),
        CommandPrecondition::ParentEquals { node_id, parent } => {
            push_footprint(out, Footprint::Node(node_id.copy()));
            push_footprint(out, Footprint::ChildList(parent.copy()));
        },
        CommandPrecondition::PropertyEquals { node_id, property, .. } => {
            push_footprint(out, Footprint::Property(node_id.copy(), property.clone()));
        },
        _ => {},
    }
    assert(fps(out@) =~= fps(old(out)@) + precondition_footprint(*p));
}

/// The footprint of a batch together with inverse commands, given the
/// current parents.
pub fn footprint_of(batch: &CommandBatch, inverses: &Vec<Command>, parents: &OrderedMap<NodeId, NodeParent>) -> (r: Vec<Footprint>)
    ensures
        fps(r@) == batch_footprint(*batch, inverses@, parents@),
{
    let mut out: Vec<Footprint> = Vec::new();
    assert(fps(out@) =~= Seq::<FootprintView>::empty());
    push_commands_footprint(&mut out, &batch.commands, parents);
    push_commands_footprint(&mut out, inverses, parents);
    let mut i: usize = 0;
    let ghost before = fps(out@);
    while i < batch.preconditions.len()
        invariant
            i <= batch.preconditions@.len(),
            fps(out@) == before + preconditions_footprint(batch.preconditions@.take(i as int)),
        decreases batch.preconditions@.len() - i,
    {
        push_precondition_footprint(&mut out, &batch.preconditions[i]);
        assert(batch.preconditions@.take(i + 1).drop_last() =~= batch.preconditions@.take(i as int));
        assert(fps(out@) =~= before + preconditions_footprint(batch.preconditions@.take(i + 1)));
        i = i + 1;
    }
    assert(batch.preconditions@.take(i as int) =~= batch.preconditions@);
    assert(fps(out@) =~= batch_footprint(*batch, inverses@, parents@));
    out
}

fn node_touches_exec(id: &NodeId, f: &Footprint) -> (r: bool)
    ensures
        r == node_touches(id@, f@),
{
    match f {
        Footprint::Node(o) => id.same(o),
        Footprint::Identity(o) => id.same(o),
        Footprint::Property(o, _) => id.same(o),
        Footprint::ChildList(_) => false,
    }
}

/// Whether two footprints overlap.
pub fn overlaps(l: &Footprint, r: &Footprint) -> (b: bool)
    ensures
        b == footprints_overlap(l@, r@),
{
    match l {
        Footprint::Node(a) => node_touches_exec(a, r),
        _ => match r {
            Footprint::Node(b) => node_touches_exec(b, l),
            Footprint::Identity(b) => match l {
                Footprint::Identity(a) => a.same(b),
                _ => false,
            },
            Footprint::Property(b, q) => match l {
                Footprint::Property(a, p) => a.same(b) && crate::text::str_eq(p.as_str(), q.as_str()),
                _ => false,
            },
            Footprint::ChildList(b) => match l {
                Footprint::ChildList(a) => parents_equal(a, b),
                _ => false,
            },
        },
    }
}

/// Whether some footprint of one list overlaps some footprint of another.
pub fn any_overlap(a: &Vec<Footprint>, b: &Vec<Footprint>) -> (r: bool)
    ensures
        r == overlapping(fps(a@), fps(b@)),
{
    let mut i: usize = 0;
    while i < a.len()
        invariant
            i <= a@.len(),
            forall|x: int, y: int| 0 <= x < i && 0 <= y < b@.len() ==> !#[trigger] footprints_overlap(fps(a@)[x], fps(b@)[y]),
        decreases a@.len() - i,
    {
        let mut j: usize = 0;
        while j < b.len()
            invariant
                i < a@.len(),
                j <= b@.len(),
                forall|x: int, y: int| 0 <= x < i && 0 <= y < b@.len() ==> !#[trigger] footprints_overlap(fps(a@)[x], fps(b@)[y]),
                forall|y: int| 0 <= y < j ==> !#[trigger] footprints_overlap(fps(a@)[i as int], fps(b@)[y]),
            decreases b@.len() - j,
        {
            if overlaps(&a[i], &b[j]) {
                assert(footprints_overlap(fps(a@)[i as int], fps(b@)[j as int]));
                return true;
            }
            j = j + 1;
        }
        i = i + 1;
    }
    false
}

/// Whether the batch at `(e, b)` of a history was committed after `base`.
pub open spec fn intervenes(history: HistorySnapshot, base: u64, e: int, b: int) -> bool {
    &&& 0 <= e < history.entries@.len()
    &&& 0 <= b < history.entries@[e].batches@.len()
    &&& history.entries@[e].batches@[b].committed_revision.0 > base
}

/// Position order: by entry, then by batch.
pub open spec fn position_before(p: (usize, usize), q: (usize, usize)) -> bool {
    p.0 < q.0 || (p.0 == q.0 && p.1 < q.1)
}

/// The positions of every batch committed after `base`, in history order.
pub open spec fn intervening_list(history: HistorySnapshot, base: u64, r: Seq<(usize, usize)>) -> bool {
    &&& forall|k: int| 0 <= k < r.len() ==> intervenes(history, base, #[trigger] r[k].0 as int, r[k].1 as int)
    &&& forall|k: int, l: int| 0 <= k < l < r.len() ==> position_before(#[trigger] r[k], #[trigger] r[l])
    &&& forall|e: int, b: int| #[trigger] intervenes(history, base, e, b) ==> exists|k: int| 0 <= k < r.len() && r[k] == (e as usize, b as usize)
}

/// The positions in a history of the batches committed after a base revision.
pub fn intervening_positions(history: &HistorySnapshot, base: u64) -> (r: Vec<(usize, usize)>)
    ensures
        intervening_list(*history, base, r@),
{
    let mut out: Vec<(usize, usize)> = Vec::new();
    let mut i: usize = 0;
    while i < history.entries.len()
        invariant
            i <= history.entries@.len(),
            forall|k: int| 0 <= k < out@.len() ==> intervenes(*history, base, #[trigger] out@[k].0 as int, out@[k].1 as int),
            forall|k: int| 0 <= k < out@.len() ==> (#[trigger] out@[k]).0 < i,
            forall|k: int, l: int| 0 <= k < l < out@.len() ==> position_before(#[trigger] out@[k], #[trigger] out@[l]),
            forall|e: int, b: int| #[trigger] intervenes(*history, base, e, b) && e < i ==> exists|k: int| 0 <= k < out@.len() && out@[k] == (e as usize, b as usize),
        decreases history.entries@.len() - i,
    {
        let entry = &history.entries[i];
        let mut j: usize = 0;
        while j < entry.batches.len()
            invariant
                i < history.entries@.len(),
                *entry == history.entries@[i as int],
                j <= entry.batches@.len(),
                forall|k: int| 0 <= k < out@.len() ==> intervenes(*history, base, #[trigger] out@[k].0 as int, out@[k].1 as int),
                forall|k: int| 0 <= k < out@.len() ==> position_before(#[trigger] out@[k], (i, j)),
                forall|k: int, l: int| 0 <= k < l < out@.len() ==> position_before(#[trigger] out@[k], #[trigger] out@[l]),
                forall|e: int, b: int| #[trigger] intervenes(*history, base, e, b) && (e < i || (e == i && b < j)) ==> exists|k: int| 0 <= k < out@.len() && out@[k] == (e as usize, b as usize),
            decreases entry.batches@.len() - j,
        {
            if entry.batches[j].committed_revision.0 > base {
                let ghost before = out@;
                out.push((i, j));
                assert forall|e: int, b: int| #[trigger] intervenes(*history, base, e, b) && (e < i || (e == i && b < j + 1)) implies exists|k: int| 0 <= k < out@.len() && out@[k] == (e as usize, b as usize) by {
                    if e == i && b == j {
                        assert(out@[before.len() as int] == (e as usize, b as usize));
                    } else {
                        let k = choose|k: int| 0 <= k < before.len() && before[k] == (e as usize, b as usize);
                        assert(out@[k] == before[k]);
                    }
                }
            }
            j = j + 1;
        }
        i = i + 1;
    }
    out
}

/// Whether a batch's base revision is older than the current revision.
pub open spec fn stale_base(batch: CommandBatch, current: StudioDesignSnapshot) -> bool {
    batch.base_revision.0 < current.revision.id.0
}

/// The footprint of the applied batch at a position of a history, with its
/// inverse commands.
pub open spec fn applied_footprint(history: HistorySnapshot, p: (usize, usize), parents: Map<Seq<char>, NodeParent>) -> Seq<FootprintView> {
    let applied = history.entries@[p.0 as int].batches@[p.1 as int];
    batch_footprint(applied.batch, applied.inverse_commands@, parents)
}

/// Whether a candidate batch overlaps one of the intervening batches.
pub open spec fn overlaps_intervening(
    batch: CommandBatch,
    history: HistorySnapshot,
    positions: Seq<(usize, usize)>,
    parents: Map<Seq<char>, NodeParent>,
) -> bool {
    exists|k: int| 0 <= k < positions.len() && #[trigger] overlapping(
        batch_footprint(batch, Seq::empty(), parents),
        applied_footprint(history, positions[k], parents),
    )
}

/// What becomes of a streamed batch before it reaches the session.
#[derive(Debug)]
pub enum StaleDecision {
    /// Submit this batch; `intervening` lists the positions of the batches
    /// committed since its original base.
    Submit { batch: CommandBatch, intervening: Vec<(usize, usize)> },
    /// The stale batch overlaps an accepted intent.
    Conflict { conflict: BatchConflict, attempted: CommandBatch, intervening: Vec<(usize, usize)> },
}

/// Decide what becomes of a streamed batch given the current snapshot and
/// history. A batch on the current (or a newer) base, or one whose operation
/// the history already holds, is submitted unchanged. A stale batch is
/// rebased onto the current revision when some batch was committed since its
/// base and none of them overlaps it; otherwise it is a conflict.
pub fn stale_batch_decision(batch: CommandBatch, current: &StudioDesignSnapshot, history: &HistorySnapshot) -> (r: StaleDecision)
    ensures
        !stale_base(batch, *current) || history_holds(*history, batch.operation_id@) ==> (r matches StaleDecision::Submit {
            batch: b,
            intervening: iv,
        } && b == batch && iv@.len() == 0),
        stale_base(batch, *current) && !history_holds(*history, batch.operation_id@) ==> match r {
            StaleDecision::Submit { batch: b, intervening: iv } => {
                &&& intervening_list(*history, batch.base_revision.0, iv@)
                &&& iv@.len() > 0
                &&& !overlaps_intervening(batch, *history, iv@, current.design.parents@)
                &&& b == (CommandBatch { base_revision: current.revision.id, ..batch })
            },
            StaleDecision::Conflict { conflict, attempted, intervening: iv } => {
                &&& intervening_list(*history, batch.base_revision.0, iv@)
                &&& iv@.len() == 0 || overlaps_intervening(batch, *history, iv@, current.design.parents@)
                &&& attempted == batch
                &&& conflict.operation_id == batch.operation_id
                &&& conflict.expected_revision == batch.base_revision
                &&& conflict.actual_revision == current.revision.id
                &&& conflict.failed_precondition is None
                &&& conflict.code@ == "AGENT_OVERLAPPING_CONFLICT"@
                &&& conflict.message@ == "the stale agent batch overlaps an accepted intent"@
            },
        },
{
    if !(batch.base_revision.0 < current.revision.id.0) || history_has_operation(history, &batch.operation_id) {
        return StaleDecision::Submit { batch, intervening: Vec::new() };
    }
    let positions = intervening_positions(history, batch.base_revision.0);
    let parents = &current.design.parents;
    let mut overlap = positions.len() == 0;
    if !overlap {
        let empty: Vec<Command> = Vec::new();
        let mine = footprint_of(&batch, &empty, parents);
        assert(empty@ =~= Seq::<Command>::empty());
        let mut k: usize = 0;
        while k < positions.len() && !overlap
            invariant
                k <= positions@.len(),
                intervening_list(*history, batch.base_revision.0, positions@),
                fps(mine@) == batch_footprint(batch, Seq::empty(), parents@),
                *parents == current.design.parents,
                !overlap ==> forall|x: int| 0 <= x < k ==> !#[trigger] overlapping(
                    batch_footprint(batch, Seq::empty(), parents@),
                    applied_footprint(*history, positions@[x], parents@),
                ),
                overlap ==> overlaps_intervening(batch, *history, positions@, parents@),
            decreases positions@.len() - k,
        {
            let (e, b) = positions[k];
            assert(intervenes(*history, batch.base_revision.0, positions@[k as int].0 as int, positions@[k as int].1 as int));
            let applied = &history.entries[e].batches[b];
            let theirs = footprint_of(&applied.batch, &applied.inverse_commands, parents);
            if any_overlap(&mine, &theirs) {
                overlap = true;
                assert(overlapping(
                    batch_footprint(batch, Seq::empty(), parents@),
                    applied_footprint(*history, positions@[k as int], parents@),
                ));
            }
            k = k + 1;
        }
    }
    if overlap {
        let conflict = BatchConflict {
            operation_id: batch.operation_id.copy(),
            expected_revision: batch.base_revision,
            actual_revision: current.revision.id,
            failed_precondition: None,
            code: String::from_str("AGENT_OVERLAPPING_CONFLICT"),
            message: String::from_str("the stale agent batch overlaps an accepted intent"),
        };
        StaleDecision::Conflict { conflict, attempted: batch, intervening: positions }
    } else {
        let rebased = CommandBatch { base_revision: current.revision.id, ..batch };
        StaleDecision::Submit { batch: rebased, intervening: positions }
    }
}

/// Two footprints on the child list of one parent overlap, whatever else
/// the two batches touch: footprint lists that each hold such a footprint
/// overlap.
pub proof fn lemma_child_lists_overlap(a: Seq<FootprintView>, b: Seq<FootprintView>, i: int, j: int, p: NodeParent, q: NodeParent)
    requires
        0 <= i < a.len(),
        0 <= j < b.len(),
        a[i] == FootprintView::ChildList(p),
        b[j] == FootprintView::ChildList(q),
        same_parent(p, q),
    ensures
        footprints_overlap(a[i], b[j]),
        footprints_overlap(b[j], a[i]),
        overlapping(a, b),
        overlapping(b, a),
{
    match p {
        NodeParent::Screen { .. } => {},
        NodeParent::Node { .. } => {},
        NodeParent::Composition { .. } => {},
    }
    assert(footprints_overlap(a[i], b[j]));
    assert(footprints_overlap(b[j], a[i]));
}

/// The footprints of a command stand in the footprints of any command list
/// that holds it.
proof fn lemma_command_in_list(cs: Seq<Command>, k: int, parents: Map<Seq<char>, NodeParent>, m: int)
    requires
        0 <= k < cs.len(),
        0 <= m < command_footprint(cs[k], parents).len(),
    ensures
        exists|x: int| 0 <= x < commands_footprint(cs, parents).len() && commands_footprint(cs, parents)[x] == command_footprint(cs[k], parents)[m],
    decreases cs.len(),
{
    let init = commands_footprint(cs.drop_last(), parents);
    let last = command_footprint(cs.last(), parents);
    assert(commands_footprint(cs, parents) == init + last);
    if k == cs.len() - 1 {
        assert((init + last)[init.len() + m] == last[m]);
    } else {
        assert(cs.drop_last()[k] == cs[k]);
        lemma_command_in_list(cs.drop_last(), k, parents, m);
        let x = choose|x: int| 0 <= x < init.len() && init[x] == command_footprint(cs[k], parents)[m];
        assert((init + last)[x] == init[x]);
    }
}

/// Whether a command writes the children of parent `p`: it inserts a node
/// under `p`, moves a node to `p` or away from `p`, or reorders a child of
/// `p`.
pub open spec fn writes_children(c: Command, parents: Map<Seq<char>, NodeParent>, p: NodeParent) -> bool {
    match c {
        Command::InsertNode { parent, .. } => same_parent(parent.parent, p),
        Command::MoveNode { node_id, destination } => same_parent(destination.parent, p) || (parents.contains_key(node_id@)
            && same_parent(parents[node_id@], p)),
        Command::ReorderNode { node_id, .. } => parents.contains_key(node_id@) && same_parent(parents[node_id@], p),
        _ => false,
    }
}

proof fn lemma_writes_children_footprint(c: Command, parents: Map<Seq<char>, NodeParent>, p: NodeParent) -> (m: int)
    requires
        writes_children(c, parents, p),
    ensures
        0 <= m < command_footprint(c, parents).len(),
        command_footprint(c, parents)[m] is ChildList,
        same_parent(command_footprint(c, parents)[m]->ChildList_0, p),
{
    match c {
        Command::InsertNode { parent, .. } => 1,
        Command::MoveNode { node_id, destination } => if same_parent(destination.parent, p) {
            1
        } else {
            2
        },
        Command::ReorderNode { node_id, .. } => 1,
        _ => 0,
    }
}

proof fn lemma_same_parent_join(x: NodeParent, y: NodeParent, p: NodeParent)
    requires
        same_parent(x, p),
        same_parent(y, p),
    ensures
        same_parent(x, y),
{
}

/// A stale batch that writes the children of a parent overlaps an
/// intervening batch that wrote the children of the same parent, by
/// inserting, moving or reordering: the stale batch cannot be rebased.
pub proof fn lemma_child_list_writes_overlap(
    batch: CommandBatch,
    history: HistorySnapshot,
    positions: Seq<(usize, usize)>,
    parents: Map<Seq<char>, NodeParent>,
    p: NodeParent,
    k: int,
    idx: int,
    l: int,
)
    requires
        0 <= k < batch.commands@.len(),
        0 <= idx < positions.len(),
        0 <= positions[idx].0 < history.entries@.len(),
        0 <= positions[idx].1 < history.entries@[positions[idx].0 as int].batches@.len(),
        writes_children(batch.commands@[k], parents, p),
        0 <= l < history.entries@[positions[idx].0 as int].batches@[positions[idx].1 as int].batch.commands@.len(),
        writes_children(history.entries@[positions[idx].0 as int].batches@[positions[idx].1 as int].batch.commands@[l], parents, p),
    ensures
        overlaps_intervening(batch, history, positions, parents),
{
    let applied = history.entries@[positions[idx].0 as int].batches@[positions[idx].1 as int];
    let c1 = batch.commands@[k];
    let c2 = applied.batch.commands@[l];
    let m1 = lemma_writes_children_footprint(c1, parents, p);
    let m2 = lemma_writes_children_footprint(c2, parents, p);
    let f1 = command_footprint(c1, parents)[m1];
    let f2 = command_footprint(c2, parents)[m2];
    lemma_same_parent_join(f1->ChildList_0, f2->ChildList_0, p);
    lemma_command_in_list(batch.commands@, k, parents, m1);
    lemma_command_in_list(applied.batch.commands@, l, parents, m2);
    let mine = batch_footprint(batch, Seq::empty(), parents);
    let theirs = applied_footprint(history, positions[idx], parents);
    let ca = commands_footprint(batch.commands@, parents);
    let cb = commands_footprint(applied.batch.commands@, parents);
    let x = choose|x: int| 0 <= x < ca.len() && ca[x] == f1;
    let y = choose|y: int| 0 <= y < cb.len() && cb[y] == f2;
    assert(mine[x] == ca[x]);
    assert(theirs[y] == cb[y]);
    lemma_child_lists_overlap(mine, theirs, x, y, f1->ChildList_0, f2->ChildList_0);
}

/// For the intervening positions that `stale_batch_decision` reports: when
/// a stale batch and a batch committed after its base both write the
/// children of one parent, the stale batch overlaps an intervening batch,
/// so the decision is a conflict and never a rebase.
pub proof fn lemma_stale_child_list_conflict(
    batch: CommandBatch,
    current: StudioDesignSnapshot,
    history: HistorySnapshot,
    positions: Seq<(usize, usize)>,
    p: NodeParent,
    e: int,
    b: int,
    k: int,
    l: int,
)
    requires
        intervening_list(history, batch.base_revision.0, positions),
        intervenes(history, batch.base_revision.0, e, b),
        e <= usize::MAX,
        b <= usize::MAX,
        0 <= k < batch.commands@.len(),
        writes_children(batch.commands@[k], current.design.parents@, p),
        0 <= l < history.entries@[e].batches@[b].batch.commands@.len(),
        writes_children(history.entries@[e].batches@[b].batch.commands@[l], current.design.parents@, p),
    ensures
        overlaps_intervening(batch, history, positions, current.design.parents@),
{
    let idx = choose|idx: int| 0 <= idx < positions.len() && positions[idx] == (e as usize, b as usize);
    lemma_child_list_writes_overlap(batch, history, positions, current.design.parents@, p, k, idx, l);
}

/// How footprints meet: a whole-node footprint meets every footprint on
/// that node (the node, a created identity, any of its properties) and no
/// child list; two property footprints meet exactly on the same property of
/// the same node; two identities meet when they are the same; footprints on
/// different nodes never meet.
pub proof fn lemma_footprint_overlap_rules(n: Seq<char>, m: Seq<char>, p: Seq<char>, q: Seq<char>, x: NodeParent)
    ensures
        footprints_overlap(FootprintView::Node(n), FootprintView::Node(n)),
        footprints_overlap(FootprintView::Node(n), FootprintView::Property(n, p)),
        footprints_overlap(FootprintView::Property(n, p), FootprintView::Node(n)),
        footprints_overlap(FootprintView::Node(n), FootprintView::Identity(n)),
        footprints_overlap(FootprintView::Identity(n), FootprintView::Node(n)),
        footprints_overlap(FootprintView::Identity(n), FootprintView::Identity(n)),
        footprints_overlap(FootprintView::Property(n, p), FootprintView::Property(m, q)) <==> (n == m && p == q),
        n != m ==> !footprints_overlap(FootprintView::Node(n), FootprintView::Node(m)),
        n != m ==> !footprints_overlap(FootprintView::Node(n), FootprintView::Property(m, q)),
        n != m ==> !footprints_overlap(FootprintView::Identity(n), FootprintView::Identity(m)),
        !footprints_overlap(FootprintView::Node(n), FootprintView::ChildList(x)),
        !footprints_overlap(FootprintView::ChildList(x), FootprintView::Node(n)),
        !footprints_overlap(FootprintView::Property(n, p), FootprintView::ChildList(x)),
{
}

/// Whether a command writes property `p` of node `n` (a rename writes the
/// node's name).
pub open spec fn writes_property(c: Command, n: Seq<char>, p: Seq<char>) -> bool {
    match c {
        Command::SetProperty { node_id, property, .. } => node_id@ == n && property@ == p,
        Command::RenameNode { node_id, .. } => node_id@ == n && p == "@name"@,
        _ => false,
    }
}

/// A stale batch that writes a property of a node overlaps an intervening
/// batch that wrote the same property of the same node.
pub proof fn lemma_property_writes_overlap(
    batch: CommandBatch,
    history: HistorySnapshot,
    positions: Seq<(usize, usize)>,
    parents: Map<Seq<char>, NodeParent>,
    n: Seq<char>,
    p: Seq<char>,
    k: int,
    idx: int,
    l: int,
)
    requires
        0 <= k < batch.commands@.len(),
        0 <= idx < positions.len(),
        0 <= positions[idx].0 < history.entries@.len(),
        0 <= positions[idx].1 < history.entries@[positions[idx].0 as int].batches@.len(),
        writes_property(batch.commands@[k], n, p),
        0 <= l < history.entries@[positions[idx].0 as int].batches@[positions[idx].1 as int].batch.commands@.len(),
        writes_property(history.entries@[positions[idx].0 as int].batches@[positions[idx].1 as int].batch.commands@[l], n, p),
    ensures
        overlaps_intervening(batch, history, positions, parents),
{
    let applied = history.entries@[positions[idx].0 as int].batches@[positions[idx].1 as int];
    let c1 = batch.commands@[k];
    let c2 = applied.batch.commands@[l];
    assert(command_footprint(c1, parents)[0] == FootprintView::Property(n, p));
    assert(command_footprint(c2, parents)[0] == FootprintView::Property(n, p));
    lemma_command_in_list(batch.commands@, k, parents, 0);
    lemma_command_in_list(applied.batch.commands@, l, parents, 0);
    let mine = batch_footprint(batch, Seq::empty(), parents);
    let theirs = applied_footprint(history, positions[idx], parents);
    let ca = commands_footprint(batch.commands@, parents);
    let cb = commands_footprint(applied.batch.commands@, parents);
    let x = choose|x: int| 0 <= x < ca.len() && ca[x] == FootprintView::Property(n, p);
    let y = choose|y: int| 0 <= y < cb.len() && cb[y] == FootprintView::Property(n, p);
    assert(mine[x] == ca[x]);
    assert(theirs[y] == cb[y]);
    assert(footprints_overlap(mine[x], theirs[y]));
    assert(overlapping(mine, theirs));
    assert(overlapping(batch_footprint(batch, Seq::empty(), parents), applied_footprint(history, positions[idx], parents)));
}

/// An accepted batch's footprint includes what its inverse commands touch:
/// a stale batch that writes the children of a parent overlaps an
/// intervening batch whose inverse commands write the children of the same
/// parent.
pub proof fn lemma_inverse_child_list_writes_overlap(
    batch: CommandBatch,
    history: HistorySnapshot,
    positions: Seq<(usize, usize)>,
    parents: Map<Seq<char>, NodeParent>,
    p: NodeParent,
    k: int,
    idx: int,
    l: int,
)
    requires
        0 <= k < batch.commands@.len(),
        0 <= idx < positions.len(),
        0 <= positions[idx].0 < history.entries@.len(),
        0 <= positions[idx].1 < history.entries@[positions[idx].0 as int].batches@.len(),
        writes_children(batch.commands@[k], parents, p),
        0 <= l < history.entries@[positions[idx].0 as int].batches@[positions[idx].1 as int].inverse_commands@.len(),
        writes_children(history.entries@[positions[idx].0 as int].batches@[positions[idx].1 as int].inverse_commands@[l], parents, p),
    ensures
        overlaps_intervening(batch, history, positions, parents),
{
    let applied = history.entries@[positions[idx].0 as int].batches@[positions[idx].1 as int];
    let c1 = batch.commands@[k];
    let c2 = applied.inverse_commands@[l];
    let m1 = lemma_writes_children_footprint(c1, parents, p);
    let m2 = lemma_writes_children_footprint(c2, parents, p);
    let f1 = command_footprint(c1, parents)[m1];
    let f2 = command_footprint(c2, parents)[m2];
    lemma_same_parent_join(f1->ChildList_0, f2->ChildList_0, p);
    lemma_command_in_list(batch.commands@, k, parents, m1);
    lemma_command_in_list(applied.inverse_commands@, l, parents, m2);
    let mine = batch_footprint(batch, Seq::empty(), parents);
    let theirs = applied_footprint(history, positions[idx], parents);
    let ca = commands_footprint(batch.commands@, parents);
    let c0 = commands_footprint(applied.batch.commands@, parents);
    let cb = commands_footprint(applied.inverse_commands@, parents);
    let x = choose|x: int| 0 <= x < ca.len() && ca[x] == f1;
    let y = choose|y: int| 0 <= y < cb.len() && cb[y] == f2;
    assert(mine[x] == ca[x]);
    assert(theirs[c0.len() + y] == cb[y]);
    lemma_child_lists_overlap(mine, theirs, x, c0.len() + y, f1->ChildList_0, f2->ChildList_0);
}

/// A stale batch whose precondition names a node overlaps an intervening
/// batch that wrote a property of that node.
pub proof fn lemma_precondition_meets_property_write(
    batch: CommandBatch,
    history: HistorySnapshot,
    positions: Seq<(usize, usize)>,
    parents: Map<Seq<char>, NodeParent>,
    n: Seq<char>,
    q: Seq<char>,
    k: int,
    idx: int,
    l: int,
)
    requires
        0 <= k < batch.preconditions@.len(),
        batch.preconditions@[k] is NodeExists && batch.preconditions@[k]->NodeExists_node_id@ == n,
        0 <= idx < positions.len(),
        0 <= positions[idx].0 < history.entries@.len(),
        0 <= positions[idx].1 < history.entries@[positions[idx].0 as int].batches@.len(),
        0 <= l < history.entries@[positions[idx].0 as int].batches@[positions[idx].1 as int].batch.commands@.len(),
        writes_property(history.entries@[positions[idx].0 as int].batches@[positions[idx].1 as int].batch.commands@[l], n, q),
    ensures
        overlaps_intervening(batch, history, positions, parents),
{
    let applied = history.entries@[positions[idx].0 as int].batches@[positions[idx].1 as int];
    let c2 = applied.batch.commands@[l];
    assert(command_footprint(c2, parents)[0] == FootprintView::Property(n, q));
    lemma_command_in_list(applied.batch.commands@, l, parents, 0);
    lemma_precondition_in_list(batch.preconditions@, k, 0);
    let mine = batch_footprint(batch, Seq::empty(), parents);
    let theirs = applied_footprint(history, positions[idx], parents);
    let ca = commands_footprint(batch.commands@, parents);
    let ci = commands_footprint(Seq::<Command>::empty(), parents);
    let pa = preconditions_footprint(batch.preconditions@);
    let cb = commands_footprint(applied.batch.commands@, parents);
    let x = choose|x: int| 0 <= x < pa.len() && pa[x] == FootprintView::Node(n);
    let y = choose|y: int| 0 <= y < cb.len() && cb[y] == FootprintView::Property(n, q);
    assert(ci.len() == 0);
    assert(mine[ca.len() + x] == pa[x]);
    assert(theirs[y] == cb[y]);
    assert(footprints_overlap(mine[ca.len() + x], theirs[y]));
    assert(overlapping(mine, theirs));
    assert(overlapping(batch_footprint(batch, Seq::empty(), parents), applied_footprint(history, positions[idx], parents)));
}

proof fn lemma_precondition_in_list(ps: Seq<CommandPrecondition>, k: int, m: int)
    requires
        0 <= k < ps.len(),
        0 <= m < precondition_footprint(ps[k]).len(),
    ensures
        exists|x: int| 0 <= x < preconditions_footprint(ps).len() && preconditions_footprint(ps)[x] == precondition_footprint(ps[k])[m],
    decreases ps.len(),
{
    let init = preconditions_footprint(ps.drop_last());
    let last = precondition_footprint(ps.last());
    assert(preconditions_footprint(ps) == init + last);
    if k == ps.len() - 1 {
        assert((init + last)[init.len() + m] == last[m]);
    } else {
        assert(ps.drop_last()[k] == ps[k]);
        lemma_precondition_in_list(ps.drop_last(), k, m);
        let x = choose|x: int| 0 <= x < init.len() && init[x] == precondition_footprint(ps[k])[m];
        assert((init + last)[x] == init[x]);
    }
}

} // verus!
