//! Canvas manipulation vocabulary, the hierarchy projection, and the command
//! batches that structural gestures (reorder, delete, restore) submit.
//!
//! Geometry itself is measured in floating point and stays with the host;
//! this module holds the closed vocabulary, the gesture metadata, the
//! hierarchy tree searched by selection and the batches built without
//! geometry.
use vstd::prelude::*;
use vstd::string::StringExecFns;

use crate::access::ancestor;
use crate::command::{Command, CommandBatch, CommandPrecondition, ParentPlacement};
use crate::engine::{child_index, child_index_of, ids};
use crate::ids::{NodeId, OperationId, ProjectId, ScreenId, UndoGroupId};
use crate::model::{
    Actor, DeletionTombstone, NodeParent, RevisionId, STUDIO_DESIGN_SCHEMA_VERSION, SelectionSnapshot, StudioDesign,
    StudioDesignSnapshot,
};
use crate::text::{KeyOrder, chars_before, compare_strs};

verus! {

/// A pointer location axis.
#[derive(Clone, Copy, Debug, PartialEq, Eq, Structural)]
pub enum GuideAxis {
    Horizontal,
    Vertical,
}

/// Why a guide was selected.
#[derive(Clone, Copy, Debug, PartialEq, Eq, Structural)]
pub enum GuideKind {
    Grid,
    Edge,
    Center,
}

/// Which edge or center should be aligned.
#[derive(Clone, Copy, Debug, PartialEq, Eq, Structural)]
pub enum CanvasAlignment {
    Left,
    HorizontalCenter,
    Right,
    Top,
    VerticalCenter,
    Bottom,
}

/// Which axis should be distributed.
#[derive(Clone, Copy, Debug, PartialEq, Eq, Structural)]
pub enum CanvasDistribution {
    Horizontal,
    Vertical,
}

/// Resize direction. Corner and edge handles are all supported.
#[derive(Clone, Copy, Debug, PartialEq, Eq, Structural)]
pub enum ResizeHandle {
    NorthWest,
    North,
    NorthEast,
    East,
    SouthEast,
    South,
    SouthWest,
    West,
}

/// Metadata shared by one gesture's command batch.
#[derive(Clone, Debug, PartialEq, Eq)]
pub struct GestureContext {
    pub operation_id: OperationId,
    pub actor: Actor,
    pub project_id: ProjectId,
    pub base_revision: RevisionId,
    pub undo_group_id: UndoGroupId,
}

impl GestureContext {
    /// Gesture metadata from its parts.
    pub fn new(
        operation_id: OperationId,
        actor: Actor,
        project_id: ProjectId,
        base_revision: RevisionId,
        undo_group_id: UndoGroupId,
    ) -> (r: Self)
        ensures
            r.operation_id == operation_id,
            r.actor == actor,
            r.project_id == project_id,
            r.base_revision == base_revision,
            r.undo_group_id == undo_group_id,
    {
        GestureContext { operation_id, actor, project_id, base_revision, undo_group_id }
    }
}

/// Errors detected while constructing a manipulation intent.
#[derive(Debug, PartialEq, Eq)]
pub enum ManipulationError {
    EmptySelection,
    MissingNode(NodeId),
    MissingFrame(NodeId),
    InvalidGeometry(NodeId),
    RootNode(NodeId),
    InvalidDestination,
    MissingTombstone(NodeId),
    InvalidIdentityMap,
}

/// A hierarchy tree node that retains its source identity.
#[derive(Debug, PartialEq, Eq)]
pub struct HierarchyNode {
    pub node_id: NodeId,
    pub name: String,
    pub parent: NodeParent,
    pub index: usize,
    pub children: Vec<HierarchyNode>,
}

/// A hierarchy projection over the same source tree used by the canvas.
#[derive(Debug, PartialEq, Eq)]
pub struct HierarchySnapshot {
    pub roots: Vec<HierarchyNode>,
}

/// The first node with identity `id` in a pre-order walk of `n`.
pub open spec fn node_find(n: HierarchyNode, id: Seq<char>) -> Option<HierarchyNode>
    decreases n, 1int,
{
    if n.node_id@ == id {
        Some(n)
    } else {
        proof {
            vstd::std_specs::vec::axiom_vec_decreases_to_view(n.children);
        }
        forest_find(n.children@, id)
    }
}

/// The first node with identity `id` in a pre-order walk of the forest.
pub open spec fn forest_find(nodes: Seq<HierarchyNode>, id: Seq<char>) -> Option<HierarchyNode>
    decreases nodes, 0int,
{
    if nodes.len() == 0 {
        None
    } else {
        match node_find(nodes[0], id) {
            Some(found) => Some(found),
            None => forest_find(nodes.drop_first(), id),
        }
    }
}

fn find_in<'a>(nodes: &'a Vec<HierarchyNode>, node_id: &NodeId) -> (r: Option<&'a HierarchyNode>)
    ensures
        match r {
            Some(n) => forest_find(nodes@, node_id@) == Some(*n),
            None => forest_find(nodes@, node_id@) is None,
        },
    decreases nodes@,
{
    let mut i: usize = 0;
    assert(nodes@.skip(0) =~= nodes@);
    while i < nodes.len()
        invariant
            i <= nodes@.len(),
            forest_find(nodes@, node_id@) == forest_find(nodes@.skip(i as int), node_id@),
        decreases nodes@.len() - i,
    {
        let n = &nodes[i];
        proof {
            vstd::std_specs::vec::axiom_vec_index_decreases(*nodes, i as int);
            vstd::std_specs::vec::axiom_vec_decreases_to_view(n.children);
            assert(decreases_to!(nodes@ => nodes@[i as int]));
        }
        let ghost rest = nodes@.skip(i as int);
        assert(rest[0] == *n);
        assert(rest.drop_first() =~= nodes@.skip(i + 1));
        if n.node_id.same(node_id) {
            assert(node_find(*n, node_id@) == Some(*n));
            assert(forest_find(rest, node_id@) == Some(*n));
            return Some(n);
        }
        assert(node_find(*n, node_id@) == forest_find(n.children@, node_id@));
        match find_in(&n.children, node_id) {
            Some(found) => {
                assert(forest_find(rest, node_id@) == Some(*found));
                return Some(found);
            },
            None => {},
        }
        i = i + 1;
    }
    None
}

impl HierarchySnapshot {
    /// The first node with an identity in a pre-order walk of the roots.
    pub fn find(&self, node_id: &NodeId) -> (r: Option<&HierarchyNode>)
        ensures
            match r {
                Some(n) => forest_find(self.roots@, node_id@) == Some(*n),
                None => forest_find(self.roots@, node_id@) is None,
            },
    {
        find_in(&self.roots, node_id)
    }

    /// The selected identities present in the hierarchy, in selection order,
    /// with the first of them as primary.
    pub fn selection(&self, selected: &[NodeId]) -> (r: SelectionSnapshot)
        ensures
            r.node_ids@ == present_in(self.roots@, selected@),
            r.primary == (if r.node_ids@.len() > 0 {
                Some(r.node_ids@[0])
            } else {
                None
            }),
    {
        let mut ids: Vec<NodeId> = Vec::new();
        let mut i: usize = 0;
        while i < selected.len()
            invariant
                i <= selected@.len(),
                ids@ == present_in(self.roots@, selected@.take(i as int)),
            decreases selected@.len() - i,
        {
            assert(selected@.take(i + 1).drop_last() == selected@.take(i as int));
            assert(selected@.take(i + 1).last() == selected@[i as int]);
            if self.find(&selected[i]).is_some() {
                ids.push(selected[i].copy());
            }
            i = i + 1;
        }
        assert(selected@.take(selected@.len() as int) == selected@);
        let primary = if ids.len() > 0 {
            Some(ids[0].copy())
        } else {
            None
        };
        SelectionSnapshot { node_ids: ids, primary }
    }
}

/// The identities of `ids`, in order, that the forest holds.
pub open spec fn present_in(roots: Seq<HierarchyNode>, ids: Seq<NodeId>) -> Seq<NodeId>
    decreases ids.len(),
{
    if ids.len() == 0 {
        Seq::empty()
    } else {
        let prev = present_in(roots, ids.drop_last());
        if forest_find(roots, ids.last()@) is Some {
            prev.push(ids.last())
        } else {
            prev
        }
    }
}

/// Edits emitted by hierarchy drag/drop and inline rename controls.
#[derive(Debug, PartialEq, Eq)]
pub enum HierarchyEdit {
    Rename { node_id: NodeId, name: String },
    Reorder { node_id: NodeId, index: usize },
    Reparent { node_id: NodeId, destination: ParentPlacement },
}

/// Whether a batch carries a gesture's metadata, name, preconditions and commands.
pub open spec fn batch_of(
    b: CommandBatch,
    context: GestureContext,
    name: Seq<char>,
    commands: Seq<Command>,
    preconditions: Seq<CommandPrecondition>,
) -> bool {
    &&& b.schema_version == STUDIO_DESIGN_SCHEMA_VERSION
    &&& b.operation_id == context.operation_id
    &&& b.actor == context.actor
    &&& b.project_id == context.project_id
    &&& b.base_revision == context.base_revision
    &&& b.undo_group_id == context.undo_group_id
    &&& b.undo_group_name@ == name
    &&& b.preconditions@ == preconditions
    &&& b.commands@ == commands
}

impl GestureContext {
    /// One named undo group carrying this gesture's metadata.
    fn batch(&self, name: &str, commands: Vec<Command>, preconditions: Vec<CommandPrecondition>) -> (r: CommandBatch)
        ensures
            batch_of(r, *self, name@, commands@, preconditions@),
    {
        CommandBatch {
            schema_version: STUDIO_DESIGN_SCHEMA_VERSION,
            operation_id: self.operation_id.copy(),
            actor: self.actor.copy(),
            project_id: self.project_id.copy(),
            base_revision: self.base_revision,
            undo_group_id: self.undo_group_id.copy(),
            undo_group_name: String::from_str(name),
            preconditions,
            commands,
        }
    }
}

/// The first occurrence of each identity, in order.
pub open spec fn distinct_ids(s: Seq<NodeId>) -> Seq<NodeId>
    decreases s.len(),
{
    if s.len() == 0 {
        Seq::empty()
    } else {
        let d = distinct_ids(s.drop_last());
        if ids(d).contains(s.last()@) {
            d
        } else {
            d.push(s.last())
        }
    }
}

fn holds_id(v: &Vec<NodeId>, id: &NodeId) -> (r: bool)
    ensures
        r == ids(v@).contains(id@),
{
    let mut i: usize = 0;
    while i < v.len()
        invariant
            i <= v@.len(),
            forall|j: int| 0 <= j < i ==> v@[j]@ != id@,
        decreases v@.len() - i,
    {
        if v[i].same(id) {
            assert(ids(v@)[i as int] == id@);
            return true;
        }
        i = i + 1;
    }
    proof {
        if ids(v@).contains(id@) {
            let j = ids(v@).index_of(id@);
            assert(v@[j]@ == id@);
        }
    }
    false
}

/// The selection with repeated identities dropped, first occurrence kept.
fn selection_set(selection: &[NodeId]) -> (r: Vec<NodeId>)
    ensures
        r@ == distinct_ids(selection@),
{
    let mut out: Vec<NodeId> = Vec::new();
    let mut i: usize = 0;
    while i < selection.len()
        invariant
            i <= selection@.len(),
            out@ == distinct_ids(selection@.take(i as int)),
        decreases selection@.len() - i,
    {
        assert(selection@.take(i + 1).drop_last() =~= selection@.take(i as int));
        assert(selection@.take(i + 1).last() == selection@[i as int]);
        if !holds_id(&out, &selection[i]) {
            out.push(selection[i].copy());
        }
        i = i + 1;
    }
    assert(selection@.take(selection@.len() as int) =~= selection@);
    out
}

/// A `NodeExists` precondition for each identity.
pub open spec fn existing(s: Seq<NodeId>) -> Seq<CommandPrecondition> {
    s.map_values(|n: NodeId| CommandPrecondition::NodeExists { node_id: n })
}

fn existing_preconditions(nodes: &Vec<NodeId>) -> (r: Vec<CommandPrecondition>)
    ensures
        r@ == existing(nodes@),
{
    let mut out: Vec<CommandPrecondition> = Vec::new();
    let mut i: usize = 0;
    while i < nodes.len()
        invariant
            i <= nodes@.len(),
            out@ == existing(nodes@.take(i as int)),
        decreases nodes@.len() - i,
    {
        out.push(CommandPrecondition::NodeExists { node_id: nodes[i].copy() });
        assert(existing(nodes@.take(i + 1)) =~= existing(nodes@.take(i as int)).push(
            CommandPrecondition::NodeExists { node_id: nodes@[i as int] },
        ));
        i = i + 1;
    }
    assert(nodes@.take(nodes@.len() as int) =~= nodes@);
    out
}

/// Build the reorder operation shared by canvas and hierarchy drag and drop:
/// move a nested layer to a new index among its siblings, guarded by its
/// current parent and index.
pub fn reorder_batch(context: &GestureContext, design: &StudioDesign, node_id: NodeId, index: usize) -> (r: Result<CommandBatch, ManipulationError>)
    ensures
        !design.parents@.contains_key(node_id@) ==> r == Err::<CommandBatch, ManipulationError>(ManipulationError::MissingNode(node_id)),
        design.parents@.contains_key(node_id@) && !(design.parents@[node_id@] is Node) ==> r == Err::<
            CommandBatch,
            ManipulationError,
        >(ManipulationError::RootNode(node_id)),
        design.parents@.contains_key(node_id@) && design.parents@[node_id@] is Node && child_index_of(design, node_id@) is None
            ==> r == Err::<CommandBatch, ManipulationError>(ManipulationError::MissingNode(node_id)),
        r is Ok <==> design.parents@.contains_key(node_id@) && design.parents@[node_id@] is Node && child_index_of(
            design,
            node_id@,
        ) is Some,
        r matches Ok(b) ==> batch_of(
            b,
            *context,
            "Reorder layer"@,
            seq![Command::ReorderNode { node_id, index }],
            seq![
                CommandPrecondition::NodeExists { node_id },
                CommandPrecondition::ParentEquals { node_id, parent: design.parents@[node_id@] },
                CommandPrecondition::ChildIndexEquals { node_id, index: child_index_of(design, node_id@)->0 as usize },
            ],
        ),
{
    let parent = match design.parents.get(node_id.as_str()) {
        Some(p) => p.copy(),
        None => {
            return Err(ManipulationError::MissingNode(node_id));
        },
    };
    match parent {
        NodeParent::Node { .. } => {},
        _ => {
            return Err(ManipulationError::RootNode(node_id));
        },
    }
    let old_index = match child_index(design, &node_id) {
        Some(i) => i,
        None => {
            return Err(ManipulationError::MissingNode(node_id));
        },
    };
    let mut commands: Vec<Command> = Vec::new();
    commands.push(Command::ReorderNode { node_id: node_id.copy(), index });
    let mut preconditions: Vec<CommandPrecondition> = Vec::new();
    preconditions.push(CommandPrecondition::NodeExists { node_id: node_id.copy() });
    preconditions.push(CommandPrecondition::ParentEquals { node_id: node_id.copy(), parent });
    preconditions.push(CommandPrecondition::ChildIndexEquals { node_id: node_id.copy(), index: old_index });
    let r = context.batch("Reorder layer", commands, preconditions);
    assert(r.commands@ =~= seq![Command::ReorderNode { node_id, index }]);
    assert(r.preconditions@ =~= seq![
        CommandPrecondition::NodeExists { node_id },
        CommandPrecondition::ParentEquals { node_id, parent: design.parents@[node_id@] },
        CommandPrecondition::ChildIndexEquals { node_id, index: child_index_of(design, node_id@)->0 as usize },
    ]);
    Ok(r)
}

/// Whether the `k`-th ancestor of `node` is one of `selected`.
pub open spec fn ancestor_in(design: &StudioDesign, node: Seq<char>, k: nat, selected: Seq<Seq<char>>) -> bool {
    match ancestor(design, node, k) {
        Some(a) => selected.contains(a),
        None => false,
    }
}

/// Whether some ancestor of `node`, through node parents and within as many
/// steps as the parent index has entries, is selected.
pub open spec fn selected_above(design: &StudioDesign, node: Seq<char>, selected: Seq<Seq<char>>) -> bool {
    exists|k: nat| 1 <= k <= design.parents.entry_seq().len() && #[trigger] ancestor_in(design, node, k, selected)
}

fn has_selected_ancestor(design: &StudioDesign, node_id: &NodeId, selected: &Vec<NodeId>) -> (r: bool)
    ensures
        r == selected_above(design, node_id@, ids(selected@)),
{
    let bound = design.parents.len();
    let mut cursor: NodeId = node_id.copy();
    let mut k: usize = 0;
    while k < bound
        invariant
            bound == design.parents.entry_seq().len(),
            k <= bound,
            ancestor(design, node_id@, k as nat) == Some(cursor@),
            forall|j: nat| 1 <= j <= k ==> !#[trigger] ancestor_in(design, node_id@, j, ids(selected@)),
        decreases bound - k,
    {
        match design.parents.get(cursor.as_str()) {
            Some(NodeParent::Node { node_id: parent }) => {
                let p = parent.copy();
                assert(ancestor(design, node_id@, (k + 1) as nat) == Some(p@));
                if holds_id(selected, &p) {
                    assert(ancestor_in(design, node_id@, (k + 1) as nat, ids(selected@)));
                    return true;
                }
                cursor = p;
                k = k + 1;
            },
            _ => {
                proof {
                    assert(ancestor(design, node_id@, (k + 1) as nat) is None);
                    assert forall|j: nat| 1 <= j <= bound implies !#[trigger] ancestor_in(
                        design,
                        node_id@,
                        j,
                        ids(selected@),
                    ) by {
                        if j > k {
                            crate::access::lemma_ancestor_stays_none(design, node_id@, (k + 1) as nat, j);
                        }
                    }
                }
                return false;
            },
        }
    }
    false
}

/// Whether keyed identity `a` comes before `b`: ascending by key then
/// identity, or, when `desc`, descending by both.
pub open spec fn ranked(desc: bool, a: (u128, NodeId), b: (u128, NodeId)) -> bool {
    if desc {
        a.0 > b.0 || (a.0 == b.0 && chars_before(b.1@, a.1@))
    } else {
        a.0 < b.0 || (a.0 == b.0 && chars_before(a.1@, b.1@))
    }
}

/// Whether a keyed list is in rank order.
pub open spec fn in_rank_order(desc: bool, s: Seq<(u128, NodeId)>) -> bool {
    forall|i: int, j: int| 0 <= i < j < s.len() ==> ranked(desc, #[trigger] s[i], #[trigger] s[j])
}

/// Whether the identities of a keyed list are distinct.
pub open spec fn distinct_keys(s: Seq<(u128, NodeId)>) -> bool {
    forall|i: int, j: int| 0 <= i < s.len() && 0 <= j < s.len() && i != j ==> (#[trigger] s[i]).1@ != (#[trigger] s[j]).1@
}

/// Whether `a` holds exactly the items of `b`, each once.
pub open spec fn same_items(a: Seq<(u128, NodeId)>, b: Seq<(u128, NodeId)>) -> bool {
    a.len() == b.len() && forall|x: (u128, NodeId)| a.contains(x) <==> b.contains(x)
}

proof fn lemma_ranked_total(desc: bool, a: (u128, NodeId), b: (u128, NodeId))
    requires
        a.1@ != b.1@,
    ensures
        ranked(desc, a, b) || ranked(desc, b, a),
{
    crate::text::lemma_before_total(a.1@, b.1@);
}

proof fn lemma_ranked_transitive(desc: bool, a: (u128, NodeId), b: (u128, NodeId), c: (u128, NodeId))
    requires
        ranked(desc, a, b),
        ranked(desc, b, c),
    ensures
        ranked(desc, a, c),
{
    crate::text::lemma_before_transitive(a.1@, b.1@, c.1@);
    crate::text::lemma_before_transitive(c.1@, b.1@, a.1@);
}

proof fn lemma_ranked_asymmetric(desc: bool, a: (u128, NodeId), b: (u128, NodeId))
    ensures
        ranked(desc, a, b) ==> !ranked(desc, b, a),
{
    crate::text::lemma_before_asymmetric(a.1@, b.1@);
}

fn ranks_before(desc: bool, a: &(u128, NodeId), b: &(u128, NodeId)) -> (r: bool)
    ensures
        r == ranked(desc, *a, *b),
{
    let order = compare_strs(a.1.as_str(), b.1.as_str());
    if desc {
        a.0 > b.0 || (a.0 == b.0 && order == KeyOrder::Greater)
    } else {
        a.0 < b.0 || (a.0 == b.0 && order == KeyOrder::Less)
    }
}

/// Sort keyed identities into rank order by insertion.
fn sort_ranked(items: Vec<(u128, NodeId)>, desc: bool) -> (r: Vec<(u128, NodeId)>)
    requires
        distinct_keys(items@),
    ensures
        in_rank_order(desc, r@),
        same_items(r@, items@),
{
    let mut out: Vec<(u128, NodeId)> = Vec::new();
    let mut i: usize = 0;
    while i < items.len()
        invariant
            i <= items@.len(),
            distinct_keys(items@),
            in_rank_order(desc, out@),
            out@.len() == i,
            forall|x: (u128, NodeId)| out@.contains(x) <==> items@.take(i as int).contains(x),
        decreases items@.len() - i,
    {
        let x = (items[i].0, items[i].1.copy());
        assert(x == items@[i as int]);
        let mut p: usize = 0;
        while p < out.len() && !ranks_before(desc, &x, &out[p])
            invariant
                p <= out@.len(),
                forall|j: int| 0 <= j < p ==> !ranked(desc, x, #[trigger] out@[j]),
            decreases out@.len() - p,
        {
            p = p + 1;
        }
        let ghost before = out@;
        proof {
            assert forall|j: int| 0 <= j < before.len() implies (#[trigger] before[j]).1@ != x.1@ by {
                assert(out@.contains(out@[j]));
                assert(items@.take(i as int).contains(before[j]));
                let m = items@.take(i as int).index_of(before[j]);
                assert(items@[m] == before[j]);
            }
            assert forall|j: int| 0 <= j < p implies ranked(desc, #[trigger] before[j], x) by {
                lemma_ranked_total(desc, before[j], x);
            }
            assert forall|j: int| p <= j < before.len() implies ranked(desc, x, #[trigger] before[j]) by {
                if j > p {
                    lemma_ranked_transitive(desc, x, before[p as int], before[j]);
                }
            }
        }
        out.insert(p, x);
        proof {
            assert forall|a: int, b: int| 0 <= a < b < out@.len() implies ranked(desc, #[trigger] out@[a], #[trigger] out@[b]) by {
                if a < p && b == p {
                } else if a == p {
                    assert(out@[b] == before[b - 1]);
                } else if b < p {
                } else if a < p {
                    assert(out@[b] == before[b - 1]);
                    lemma_ranked_transitive(desc, before[a], x, before[b - 1]);
                } else {
                    assert(out@[a] == before[a - 1]);
                    assert(out@[b] == before[b - 1]);
                }
            }
            assert forall|y: (u128, NodeId)| out@.contains(y) <==> items@.take(i + 1).contains(y) by {
                let t = items@.take(i as int);
                assert(items@.take(i + 1) =~= t.push(x));
                assert(out@[p as int] == x);
                if out@.contains(y) {
                    let k = out@.index_of(y);
                    if k < p {
                        assert(out@[k] == before[k]);
                        assert(before.contains(before[k]));
                        assert(t.contains(y));
                        let m = t.index_of(y);
                        assert(t.push(x)[m] == y);
                    } else if k > p {
                        assert(out@[k] == before[k - 1]);
                        assert(before.contains(before[k - 1]));
                        assert(t.contains(y));
                        let m = t.index_of(y);
                        assert(t.push(x)[m] == y);
                    } else {
                        assert(t.push(x)[i as int] == y);
                    }
                }
                if t.push(x).contains(y) {
                    let m = t.push(x).index_of(y);
                    if m == i {
                        assert(out@.contains(out@[p as int]));
                    } else {
                        assert(t[m] == y);
                        assert(t.contains(y));
                        assert(before.contains(y));
                        let k = before.index_of(y);
                        if k < p {
                            assert(out@[k] == y);
                            assert(out@.contains(out@[k]));
                        } else {
                            assert(out@[k + 1] == y);
                            assert(out@.contains(out@[k + 1]));
                        }
                    }
                }
            }
        }
        i = i + 1;
    }
    assert(items@.take(items@.len() as int) =~= items@);
    out
}

/// The identities of a keyed list, in order.
pub open spec fn order_ids(order: Seq<(u128, NodeId)>) -> Seq<NodeId> {
    order.map_values(|e: (u128, NodeId)| e.1)
}

/// The first selected identity that cannot be deleted: one the parent index
/// lacks (`true`), or one a screen or composition owns (`false`).
pub open spec fn first_undeletable(design: &StudioDesign, s: Seq<NodeId>) -> Option<(NodeId, bool)>
    decreases s.len(),
{
    if s.len() == 0 {
        None
    } else {
        match first_undeletable(design, s.drop_last()) {
            Some(x) => Some(x),
            None => if !design.parents@.contains_key(s.last()@) {
                Some((s.last(), true))
            } else if !(design.parents@[s.last()@] is Node) {
                Some((s.last(), false))
            } else {
                None
            },
        }
    }
}

proof fn lemma_undeletable_prefix(design: &StudioDesign, s: Seq<NodeId>, k: int)
    requires
        0 <= k <= s.len(),
        first_undeletable(design, s.take(k)) is Some,
    ensures
        first_undeletable(design, s) == first_undeletable(design, s.take(k)),
    decreases s.len(),
{
    if k == s.len() {
        assert(s.take(k) =~= s);
    } else {
        assert(s.drop_last().take(k) =~= s.take(k));
        lemma_undeletable_prefix(design, s.drop_last(), k);
    }
}

/// The identities of `s`, in order, with no selected ancestor in `all`.
pub open spec fn topmost(design: &StudioDesign, s: Seq<NodeId>, all: Seq<NodeId>) -> Seq<NodeId>
    decreases s.len(),
{
    if s.len() == 0 {
        Seq::empty()
    } else {
        let t = topmost(design, s.drop_last(), all);
        if selected_above(design, s.last()@, ids(all)) {
            t
        } else {
            t.push(s.last())
        }
    }
}

/// The sort key of a layer to delete: one more than its index among its
/// siblings, or zero without one.
pub open spec fn delete_key(design: &StudioDesign, node: Seq<char>) -> u128 {
    match child_index_of(design, node) {
        Some(i) => (i + 1) as u128,
        None => 0,
    }
}

/// Layers keyed for deletion.
pub open spec fn keyed_for_delete(design: &StudioDesign, s: Seq<NodeId>) -> Seq<(u128, NodeId)> {
    s.map_values(|n: NodeId| (delete_key(design, n@), n))
}

/// A `DeleteNode` command for each keyed identity.
pub open spec fn deletes(order: Seq<(u128, NodeId)>) -> Seq<Command> {
    order.map_values(|e: (u128, NodeId)| Command::DeleteNode { node_id: e.1 })
}

proof fn lemma_distinct_ids_unique(s: Seq<NodeId>)
    ensures
        forall|i: int, j: int| 0 <= i < j < distinct_ids(s).len() ==> (#[trigger] distinct_ids(s)[i])@ != (
        #[trigger] distinct_ids(s)[j])@,
        forall|x: NodeId| #[trigger] distinct_ids(s).contains(x) ==> s.contains(x),
    decreases s.len(),
{
    if s.len() > 0 {
        lemma_distinct_ids_unique(s.drop_last());
        let d = distinct_ids(s.drop_last());
        if !ids(d).contains(s.last()@) {
            assert forall|i: int| 0 <= i < d.len() implies d[i]@ != s.last()@ by {
                assert(ids(d)[i] == d[i]@);
            }
            assert forall|x: NodeId| #[trigger] d.push(s.last()).contains(x) implies s.contains(x) by {
                let k = d.push(s.last()).index_of(x);
                if k < d.len() {
                    assert(d.contains(d[k]));
                    assert(s.drop_last().contains(x));
                    let m = s.drop_last().index_of(x);
                    assert(s[m] == x);
                } else {
                    assert(s[s.len() - 1] == x);
                }
            }
        } else {
            assert forall|x: NodeId| #[trigger] d.contains(x) implies s.contains(x) by {
                assert(s.drop_last().contains(x));
                let m = s.drop_last().index_of(x);
                assert(s[m] == x);
            }
        }
    }
}

fn delete_key_of(design: &StudioDesign, node_id: &NodeId) -> (r: u128)
    ensures
        r == delete_key(design, node_id@),
{
    match child_index(design, node_id) {
        Some(i) => i as u128 + 1,
        None => 0,
    }
}

/// Build one delete batch for the topmost selected layers: the selection
/// without repeats must be non-empty and hold only nested layers; a layer
/// with a selected ancestor is deleted with it; layers are deleted from the
/// last sibling position to the first, ties by descending identity.
pub fn delete_batch(context: &GestureContext, design: &StudioDesign, selection: &[NodeId]) -> (r: Result<CommandBatch, ManipulationError>)
    ensures
        distinct_ids(selection@).len() == 0 ==> r == Err::<CommandBatch, ManipulationError>(ManipulationError::EmptySelection),
        distinct_ids(selection@).len() > 0 ==> match first_undeletable(design, distinct_ids(selection@)) {
            Some((n, true)) => r == Err::<CommandBatch, ManipulationError>(ManipulationError::MissingNode(n)),
            Some((n, false)) => r == Err::<CommandBatch, ManipulationError>(ManipulationError::RootNode(n)),
            None => r matches Ok(b) && exists|order: Seq<(u128, NodeId)>|
                {
                    &&& #[trigger] in_rank_order(true, order)
                    &&& same_items(
                        order,
                        keyed_for_delete(
                            design,
                            topmost(design, distinct_ids(selection@), distinct_ids(selection@)),
                        ),
                    )
                    &&& batch_of(b, *context, "Delete selection"@, deletes(order), existing(order_ids(order)))
                },
        },
{
    let sel = selection_set(selection);
    if sel.len() == 0 {
        return Err(ManipulationError::EmptySelection);
    }
    let mut i: usize = 0;
    assert(sel@.take(0) =~= Seq::<NodeId>::empty());
    while i < sel.len()
        invariant
            i <= sel@.len(),
            sel@ == distinct_ids(selection@),
            sel@.len() > 0,
            first_undeletable(design, sel@.take(i as int)) is None,
        decreases sel@.len() - i,
    {
        assert(sel@.take(i + 1).drop_last() =~= sel@.take(i as int));
        assert(sel@.take(i + 1).last() == sel@[i as int]);
        match design.parents.get(sel[i].as_str()) {
            None => {
                proof {
                    lemma_undeletable_prefix(design, sel@, i + 1);
                }
                return Err(ManipulationError::MissingNode(sel[i].copy()));
            },
            Some(NodeParent::Node { .. }) => {},
            Some(_) => {
                proof {
                    lemma_undeletable_prefix(design, sel@, i + 1);
                }
                return Err(ManipulationError::RootNode(sel[i].copy()));
            },
        }
        i = i + 1;
    }
    assert(sel@.take(sel@.len() as int) =~= sel@);
    proof {
        lemma_distinct_ids_unique(selection@);
    }
    let mut items: Vec<(u128, NodeId)> = Vec::new();
    let ghost tops = topmost(design, sel@, sel@);
    let mut j: usize = 0;
    assert(sel@.take(0) =~= Seq::<NodeId>::empty());
    while j < sel.len()
        invariant
            j <= sel@.len(),
            sel@ == distinct_ids(selection@),
            forall|a: int, b: int| 0 <= a < b < sel@.len() ==> (#[trigger] sel@[a])@ != (#[trigger] sel@[b])@,
            items@ == keyed_for_delete(design, topmost(design, sel@.take(j as int), sel@)),
            forall|a: int| 0 <= a < items@.len() ==> exists|m: int| 0 <= m < j && (#[trigger] items@[a]).1 == sel@[m],
            distinct_keys(items@),
        decreases sel@.len() - j,
    {
        assert(sel@.take(j + 1).drop_last() =~= sel@.take(j as int));
        assert(sel@.take(j + 1).last() == sel@[j as int]);
        if !has_selected_ancestor(design, &sel[j], &sel) {
            let key = delete_key_of(design, &sel[j]);
            let ghost before = items@;
            items.push((key, sel[j].copy()));
            proof {
                assert(keyed_for_delete(design, topmost(design, sel@.take(j + 1), sel@)) =~= keyed_for_delete(
                    design,
                    topmost(design, sel@.take(j as int), sel@),
                ).push((key, sel@[j as int])));
                assert forall|a: int| 0 <= a < items@.len() implies exists|m: int|
                    0 <= m < j + 1 && (#[trigger] items@[a]).1 == sel@[m] by {
                    if a < before.len() {
                        assert(items@[a] == before[a]);
                    } else {
                        assert(items@[a].1 == sel@[j as int]);
                    }
                }
                assert forall|a: int, b: int| 0 <= a < items@.len() && 0 <= b < items@.len() && a != b implies (
                #[trigger] items@[a]).1@ != (#[trigger] items@[b]).1@ by {
                    if a < before.len() && b < before.len() {
                        assert(items@[a] == before[a] && items@[b] == before[b]);
                    } else if a < before.len() {
                        assert(items@[a] == before[a]);
                        let m = choose|m: int| 0 <= m < j && before[a].1 == sel@[m];
                        assert(sel@[m]@ != sel@[j as int]@);
                    } else {
                        assert(items@[b] == before[b]);
                        let m = choose|m: int| 0 <= m < j && before[b].1 == sel@[m];
                        assert(sel@[m]@ != sel@[j as int]@);
                    }
                }
            }
        } else {
            assert(keyed_for_delete(design, topmost(design, sel@.take(j + 1), sel@)) =~= keyed_for_delete(
                design,
                topmost(design, sel@.take(j as int), sel@),
            ));
            assert forall|a: int| 0 <= a < items@.len() implies exists|m: int|
                0 <= m < j + 1 && (#[trigger] items@[a]).1 == sel@[m] by {
                let m = choose|m: int| 0 <= m < j && items@[a].1 == sel@[m];
            }
        }
        j = j + 1;
    }
    assert(sel@.take(sel@.len() as int) =~= sel@);
    let order = sort_ranked(items, true);
    let mut commands: Vec<Command> = Vec::new();
    let mut roots: Vec<NodeId> = Vec::new();
    let mut k: usize = 0;
    while k < order.len()
        invariant
            k <= order@.len(),
            commands@ == deletes(order@.take(k as int)),
            roots@ == order_ids(order@.take(k as int)),
        decreases order@.len() - k,
    {
        commands.push(Command::DeleteNode { node_id: order[k].1.copy() });
        roots.push(order[k].1.copy());
        assert(deletes(order@.take(k + 1)) =~= deletes(order@.take(k as int)).push(
            Command::DeleteNode { node_id: order@[k as int].1 },
        ));
        assert(order_ids(order@.take(k + 1)) =~= order_ids(order@.take(k as int)).push(order@[k as int].1));
        k = k + 1;
    }
    assert(order@.take(order@.len() as int) =~= order@);
    let preconditions = existing_preconditions(&roots);
    let b = context.batch("Delete selection", commands, preconditions);
    assert(in_rank_order(true, order@));
    Ok(b)
}

/// The sort key of a layer to restore: the sibling index its tombstone
/// records, or the largest index without a tombstone.
pub open spec fn restore_key(snapshot: &StudioDesignSnapshot, node: Seq<char>) -> u128 {
    if snapshot.tombstones@.contains_key(node) {
        snapshot.tombstones@[node].detached_index as u128
    } else {
        usize::MAX as u128
    }
}

/// Layers keyed for restoring.
pub open spec fn keyed_for_restore(snapshot: &StudioDesignSnapshot, s: Seq<NodeId>) -> Seq<(u128, NodeId)> {
    s.map_values(|n: NodeId| (restore_key(snapshot, n@), n))
}

/// The position of the first keyed identity without a tombstone.
pub open spec fn first_untombstoned(snapshot: &StudioDesignSnapshot, order: Seq<(u128, NodeId)>) -> Option<int>
    decreases order.len(),
{
    if order.len() == 0 {
        None
    } else {
        match first_untombstoned(snapshot, order.drop_last()) {
            Some(i) => Some(i),
            None => if snapshot.tombstones@.contains_key(order.last().1@) {
                None
            } else {
                Some(order.len() - 1)
            },
        }
    }
}

proof fn lemma_untombstoned_prefix(snapshot: &StudioDesignSnapshot, s: Seq<(u128, NodeId)>, k: int)
    requires
        0 <= k <= s.len(),
        first_untombstoned(snapshot, s.take(k)) is Some,
    ensures
        first_untombstoned(snapshot, s) == first_untombstoned(snapshot, s.take(k)),
    decreases s.len(),
{
    if k == s.len() {
        assert(s.take(k) =~= s);
    } else {
        assert(s.drop_last().take(k) =~= s.take(k));
        lemma_untombstoned_prefix(snapshot, s.drop_last(), k);
    }
}

/// Whether a tombstone copy keeps the identity, placement, revision, parent
/// index and references of the original, and the identities of its nodes.
pub open spec fn tombstone_copy(a: DeletionTombstone, b: DeletionTombstone) -> bool {
    &&& a.schema_version == b.schema_version
    &&& a.root_node_id == b.root_node_id
    &&& a.detached_from == b.detached_from
    &&& a.detached_index == b.detached_index
    &&& a.deleted_in_revision == b.deleted_in_revision
    &&& a.parents.entry_seq() == b.parents.entry_seq()
    &&& a.references@ == b.references@
    &&& a.nodes.key_seq() == b.nodes.key_seq()
}

/// Whether a command restores a copy of a tombstone.
pub open spec fn restores(c: Command, t: DeletionTombstone) -> bool {
    match c {
        Command::RestoreNode { tombstone } => tombstone_copy(*tombstone, t),
        _ => false,
    }
}

fn copy_parent_index(m: &crate::ordered_map::OrderedMap<NodeId, NodeParent>) -> (r: crate::ordered_map::OrderedMap<NodeId, NodeParent>)
    ensures
        r.entry_seq() == m.entry_seq(),
{
    m.reveal_entries();
    let mut r: crate::ordered_map::OrderedMap<NodeId, NodeParent> = crate::ordered_map::OrderedMap::new();
    let n = m.len();
    let mut i: usize = 0;
    while i < n
        invariant
            n == m.entry_seq().len(),
            i <= n,
            crate::ordered_map::strictly_sorted(m.key_seq()),
            r.entry_seq() == m.entry_seq().take(i as int),
        decreases n - i,
    {
        let k = m.key_at(i).copy();
        let v = m.value_at(i).copy();
        proof {
            assert(m.key_seq()[i as int] == k@);
            if i > 0 {
                assert(r.key_seq().last() == r.entry_seq()[i - 1].0@);
                assert(chars_before(m.key_seq()[i - 1], m.key_seq()[i as int]));
            }
        }
        r.push_last(k, v);
        assert(r.entry_seq() =~= m.entry_seq().take(i + 1));
        i = i + 1;
    }
    assert(r.entry_seq() =~= m.entry_seq());
    r
}

fn copy_references(v: &Vec<crate::model::TombstoneReference>) -> (r: Vec<crate::model::TombstoneReference>)
    ensures
        r@ == v@,
{
    let mut out: Vec<crate::model::TombstoneReference> = Vec::new();
    let mut i: usize = 0;
    while i < v.len()
        invariant
            i <= v@.len(),
            out@ == v@.take(i as int),
        decreases v@.len() - i,
    {
        let x = &v[i];
        out.push(
            crate::model::TombstoneReference {
                owner: x.owner.clone(),
                field: x.field.clone(),
                target_node_id: x.target_node_id.copy(),
            },
        );
        assert(out@ =~= v@.take(i + 1));
        i = i + 1;
    }
    assert(v@.take(v@.len() as int) =~= v@);
    out
}

fn copy_tombstone(t: &DeletionTombstone) -> (r: DeletionTombstone)
    ensures
        tombstone_copy(r, *t),
{
    DeletionTombstone {
        schema_version: t.schema_version,
        root_node_id: t.root_node_id.copy(),
        nodes: t.nodes.clone(),
        parents: copy_parent_index(&t.parents),
        detached_from: t.detached_from.copy(),
        detached_index: t.detached_index,
        deleted_in_revision: t.deleted_in_revision,
        references: copy_references(&t.references),
    }
}

fn restore_key_of(snapshot: &StudioDesignSnapshot, node_id: &NodeId) -> (r: u128)
    ensures
        r == restore_key(snapshot, node_id@),
{
    match snapshot.tombstones.get(node_id.as_str()) {
        Some(t) => t.detached_index as u128,
        None => usize::MAX as u128,
    }
}

/// Build a restore batch from the current tombstones of the selected layers:
/// the selection without repeats must be non-empty; layers are restored from
/// the first recorded sibling position to the last, ties by identity, and the
/// first of them without a tombstone refuses the batch.
pub fn restore_batch(context: &GestureContext, snapshot: &StudioDesignSnapshot, selection: &[NodeId]) -> (r: Result<CommandBatch, ManipulationError>)
    ensures
        distinct_ids(selection@).len() == 0 ==> r == Err::<CommandBatch, ManipulationError>(ManipulationError::EmptySelection),
        distinct_ids(selection@).len() > 0 ==> exists|order: Seq<(u128, NodeId)>|
            {
                &&& #[trigger] in_rank_order(false, order)
                &&& same_items(order, keyed_for_restore(snapshot, distinct_ids(selection@)))
                &&& match first_untombstoned(snapshot, order) {
                    Some(i) => r == Err::<CommandBatch, ManipulationError>(ManipulationError::MissingTombstone(order[i].1)),
                    None => r matches Ok(b) && {
                        &&& b.schema_version == STUDIO_DESIGN_SCHEMA_VERSION
                        &&& b.operation_id == context.operation_id
                        &&& b.actor == context.actor
                        &&& b.project_id == context.project_id
                        &&& b.base_revision == context.base_revision
                        &&& b.undo_group_id == context.undo_group_id
                        &&& b.undo_group_name@ == "Restore selection"@
                        &&& b.preconditions@.len() == 0
                        &&& b.commands@.len() == order.len()
                        &&& forall|i: int|
                            #![trigger order[i]]
                            0 <= i < order.len() ==> restores(b.commands@[i], snapshot.tombstones@[order[i].1@])
                    },
                }
            },
{
    let sel = selection_set(selection);
    if sel.len() == 0 {
        return Err(ManipulationError::EmptySelection);
    }
    proof {
        lemma_distinct_ids_unique(selection@);
    }
    let mut items: Vec<(u128, NodeId)> = Vec::new();
    let mut j: usize = 0;
    while j < sel.len()
        invariant
            j <= sel@.len(),
            forall|a: int, b: int| 0 <= a < b < sel@.len() ==> (#[trigger] sel@[a])@ != (#[trigger] sel@[b])@,
            items@ == keyed_for_restore(snapshot, sel@.take(j as int)),
        decreases sel@.len() - j,
    {
        let key = restore_key_of(snapshot, &sel[j]);
        items.push((key, sel[j].copy()));
        assert(items@ =~= keyed_for_restore(snapshot, sel@.take(j + 1)));
        j = j + 1;
    }
    assert(sel@.take(sel@.len() as int) =~= sel@);
    assert forall|a: int, b: int| 0 <= a < items@.len() && 0 <= b < items@.len() && a != b implies (
    #[trigger] items@[a]).1@ != (#[trigger] items@[b]).1@ by {
        if a < b {
            assert(sel@[a]@ != sel@[b]@);
        } else {
            assert(sel@[b]@ != sel@[a]@);
        }
    }
    let order = sort_ranked(items, false);
    let mut commands: Vec<Command> = Vec::new();
    let mut k: usize = 0;
    assert(order@.take(0) =~= Seq::<(u128, NodeId)>::empty());
    while k < order.len()
        invariant
            k <= order@.len(),
            sel@ == distinct_ids(selection@),
            sel@.len() > 0,
            in_rank_order(false, order@),
            same_items(order@, keyed_for_restore(snapshot, sel@)),
            first_untombstoned(snapshot, order@.take(k as int)) is None,
            commands@.len() == k,
            forall|i: int| 0 <= i < k ==> restores(#[trigger] commands@[i], snapshot.tombstones@[order@[i].1@]),
        decreases order@.len() - k,
    {
        assert(order@.take(k + 1).drop_last() =~= order@.take(k as int));
        assert(order@.take(k + 1).last() == order@[k as int]);
        match snapshot.tombstones.get(order[k].1.as_str()) {
            Some(t) => {
                commands.push(Command::RestoreNode { tombstone: Box::new(copy_tombstone(t)) });
            },
            None => {
                proof {
                    lemma_untombstoned_prefix(snapshot, order@, k + 1);
                }
                return Err(ManipulationError::MissingTombstone(order[k].1.copy()));
            },
        }
        k = k + 1;
    }
    assert(order@.take(order@.len() as int) =~= order@);
    let b = context.batch("Restore selection", commands, Vec::new());
    assert(in_rank_order(false, order@));
    Ok(b)
}

/// The identities placed in the hierarchy after visiting `id` with `seen`
/// already placed: a placed or unknown identity adds nothing; otherwise the
/// node is placed and then its children, in order. `fuel` bounds the depth.
pub open spec fn placed(design: &StudioDesign, id: Seq<char>, seen: Set<Seq<char>>, fuel: nat) -> Set<Seq<char>>
    decreases fuel, 0nat, 0nat,
{
    if seen.contains(id) || !design.nodes@.contains_key(id) || fuel == 0 {
        seen
    } else {
        placed_kids(design, design.nodes@[id].children@, seen.insert(id), (fuel - 1) as nat)
    }
}

/// The identities placed after visiting children in order.
pub open spec fn placed_kids(design: &StudioDesign, kids: Seq<NodeId>, seen: Set<Seq<char>>, fuel: nat) -> Set<Seq<char>>
    decreases fuel, 1nat, kids.len(),
{
    if kids.len() == 0 {
        seen
    } else {
        placed(design, kids.last()@, placed_kids(design, kids.drop_last(), seen, fuel), fuel)
    }
}

/// Whether visiting `id` builds a node: it is neither placed nor unknown.
pub open spec fn builds(design: &StudioDesign, id: Seq<char>, seen: Set<Seq<char>>) -> bool {
    !seen.contains(id) && design.nodes@.contains_key(id)
}

/// Whether `n` is the hierarchy node built for `id` under `parent` at
/// `index` with `seen` already placed: the node's identity and name, and the
/// children built from its child list.
pub open spec fn node_built(
    design: &StudioDesign,
    n: HierarchyNode,
    id: NodeId,
    parent: NodeParent,
    index: usize,
    seen: Set<Seq<char>>,
    fuel: nat,
) -> bool
    decreases n, 0nat,
{
    &&& builds(design, id@, seen)
    &&& fuel > 0
    &&& n.node_id == id
    &&& n.name@ == design.nodes@[id@].name@
    &&& n.parent == parent
    &&& n.index == index
    &&& {
        proof {
            vstd::std_specs::vec::axiom_vec_decreases_to_view(n.children);
        }
        kids_built(design, n.children@, id, design.nodes@[id@].children@, seen.insert(id@), (fuel - 1) as nat)
    }
}

/// Whether `built` holds, in order, the nodes built for the children `kids`
/// of `parent_id` that build, each at its position among the children.
pub open spec fn kids_built(
    design: &StudioDesign,
    built: Seq<HierarchyNode>,
    parent_id: NodeId,
    kids: Seq<NodeId>,
    seen: Set<Seq<char>>,
    fuel: nat,
) -> bool
    decreases built, kids.len(),
{
    if kids.len() == 0 {
        built.len() == 0
    } else {
        let before = placed_kids(design, kids.drop_last(), seen, fuel);
        if builds(design, kids.last()@, before) {
            &&& built.len() > 0
            &&& kids_built(design, built.drop_last(), parent_id, kids.drop_last(), seen, fuel)
            &&& node_built(
                design,
                built.last(),
                kids.last(),
                NodeParent::Node { node_id: parent_id },
                (kids.len() - 1) as usize,
                before,
                fuel,
            )
        } else {
            kids_built(design, built, parent_id, kids.drop_last(), seen, fuel)
        }
    }
}

proof fn lemma_ids_push(s: Seq<NodeId>, x: NodeId)
    ensures
        ids(s.push(x)) == ids(s).push(x@),
        ids(s.push(x)).to_set() == ids(s).to_set().insert(x@),
{
    assert(ids(s.push(x)) =~= ids(s).push(x@));
    assert forall|y: Seq<char>| ids(s).push(x@).to_set().contains(y) <==> ids(s).to_set().insert(x@).contains(y) by {
        if ids(s).push(x@).contains(y) && y != x@ {
            let k = ids(s).push(x@).index_of(y);
            assert(ids(s)[k] == y);
        }
        if ids(s).contains(y) {
            let k = ids(s).index_of(y);
            assert(ids(s).push(x@)[k] == y);
        }
        if y == x@ {
            assert(ids(s).push(x@)[ids(s).len() as int] == y);
        }
    }
    assert(ids(s).push(x@).to_set() =~= ids(s).to_set().insert(x@));
}

/// Whether a list of placed identities is distinct and names known nodes.
pub open spec fn seen_ok(design: &StudioDesign, seen: Seq<NodeId>) -> bool {
    &&& ids(seen).no_duplicates()
    &&& forall|i: int| 0 <= i < seen.len() ==> design.nodes@.contains_key(#[trigger] ids(seen)[i])
}

/// Build the hierarchy node for `node_id`, unless it is placed or unknown,
/// placing it and its descendants.
fn build(
    design: &StudioDesign,
    node_id: &NodeId,
    parent: NodeParent,
    index: usize,
    seen: &mut Vec<NodeId>,
    Ghost(fuel): Ghost<nat>,
) -> (r: Option<HierarchyNode>)
    requires
        seen_ok(design, old(seen)@),
        fuel + old(seen)@.len() >= design.nodes.key_seq().len(),
    ensures
        seen_ok(design, final(seen)@),
        final(seen)@.len() >= old(seen)@.len(),
        ids(final(seen)@).to_set() == placed(design, node_id@, ids(old(seen)@).to_set(), fuel),
        match r {
            Some(n) => node_built(design, n, *node_id, parent, index, ids(old(seen)@).to_set(), fuel),
            None => !builds(design, node_id@, ids(old(seen)@).to_set()),
        },
    decreases fuel,
{
    design.nodes.reveal_entries();
    let ghost s0 = ids(seen@);
    if holds_id(seen, node_id) {
        return None;
    }
    let node = match design.nodes.get(node_id.as_str()) {
        Some(n) => n,
        None => {
            return None;
        },
    };
    proof {
        assert forall|i: int| 0 <= i < s0.len() implies design.nodes.key_seq().contains(#[trigger] s0[i]) by {
            assert(design.nodes@.contains_key(s0[i]));
        }
        crate::prototype::lemma_room(design.nodes.key_seq(), s0, node_id@);
        lemma_ids_push(seen@, *node_id);
    }
    let ghost kids = node.children@;
    let ghost f1: nat = (fuel - 1) as nat;
    let ghost s1 = s0.to_set().insert(node_id@);
    seen.push(node_id.copy());
    proof {
        assert forall|i: int, j: int| 0 <= i < ids(seen@).len() && 0 <= j < ids(seen@).len() && i != j implies ids(
            seen@,
        )[i] != ids(seen@)[j] by {
            if i < s0.len() && j < s0.len() {
            } else if i == s0.len() {
                assert(!s0.contains(s0[j]) || s0[j] != node_id@);
            } else {
                assert(!s0.contains(s0[i]) || s0[i] != node_id@);
            }
        }
    }
    let mut children: Vec<HierarchyNode> = Vec::new();
    let mut j: usize = 0;
    assert(kids.take(0) =~= Seq::<NodeId>::empty());
    while j < node.children.len()
        invariant
            j <= kids.len(),
            kids == node.children@,
            *node == design.nodes@[node_id@],
            seen_ok(design, seen@),
            f1 + seen@.len() >= design.nodes.key_seq().len(),
            f1 + 1 == fuel,
            seen@.len() > s0.len(),
            design.nodes@.contains_key(node_id@),
            ids(seen@).to_set() == placed_kids(design, kids.take(j as int), s1, f1),
            kids_built(design, children@, *node_id, kids.take(j as int), s1, f1),
        decreases kids.len() - j,
    {
        let ghost before = ids(seen@).to_set();
        let ghost built0 = children@;
        assert(kids.take(j + 1).drop_last() =~= kids.take(j as int));
        assert(kids.take(j + 1).last() == kids[j as int]);
        let child = &node.children[j];
        match build(design, child, NodeParent::Node { node_id: node_id.copy() }, j, seen, Ghost(f1)) {
            Some(c) => {
                children.push(c);
                assert(children@.drop_last() =~= built0);
            },
            None => {},
        }
        j = j + 1;
    }
    assert(kids.take(kids.len() as int) =~= kids);
    Some(HierarchyNode { node_id: node_id.copy(), name: node.name.clone(), parent, index, children })
}

/// The hierarchy roots to try, in order: the root of each ordered screen the
/// design declares, under its screen.
pub open spec fn screen_candidates(design: &StudioDesign, order: Seq<ScreenId>) -> Seq<(NodeId, NodeParent)>
    decreases order.len(),
{
    if order.len() == 0 {
        Seq::empty()
    } else {
        let c = screen_candidates(design, order.drop_last());
        let sid = order.last();
        if design.screens@.contains_key(sid@) {
            c.push((design.screens@[sid@].root_node_id, NodeParent::Screen { screen_id: sid }))
        } else {
            c
        }
    }
}

/// Then every node the parent index gives a screen or composition owner,
/// in identity order, under that owner.
pub open spec fn owner_candidates(entries: Seq<(NodeId, NodeParent)>) -> Seq<(NodeId, NodeParent)>
    decreases entries.len(),
{
    if entries.len() == 0 {
        Seq::empty()
    } else {
        let c = owner_candidates(entries.drop_last());
        if entries.last().1 is Screen || entries.last().1 is Composition {
            c.push(entries.last())
        } else {
            c
        }
    }
}

/// The identities placed after trying root candidates in order.
pub open spec fn placed_roots(design: &StudioDesign, cands: Seq<(NodeId, NodeParent)>, seen: Set<Seq<char>>, fuel: nat) -> Set<Seq<char>>
    decreases cands.len(),
{
    if cands.len() == 0 {
        seen
    } else {
        placed(design, cands.last().0@, placed_roots(design, cands.drop_last(), seen, fuel), fuel)
    }
}

/// Whether `built` holds, in order, the root nodes built for the candidates
/// that build, each at index zero under its owner.
pub open spec fn roots_built(
    design: &StudioDesign,
    built: Seq<HierarchyNode>,
    cands: Seq<(NodeId, NodeParent)>,
    seen: Set<Seq<char>>,
    fuel: nat,
) -> bool
    decreases cands.len(),
{
    if cands.len() == 0 {
        built.len() == 0
    } else {
        let before = placed_roots(design, cands.drop_last(), seen, fuel);
        let c = cands.last();
        if builds(design, c.0@, before) {
            &&& built.len() > 0
            &&& roots_built(design, built.drop_last(), cands.drop_last(), seen, fuel)
            &&& node_built(design, built.last(), c.0, c.1, 0, before, fuel)
        } else {
            roots_built(design, built, cands.drop_last(), seen, fuel)
        }
    }
}

/// All root candidates of a design.
pub open spec fn hierarchy_candidates(design: &StudioDesign) -> Seq<(NodeId, NodeParent)> {
    screen_candidates(design, design.screen_order@) + owner_candidates(design.parents.entry_seq())
}

impl HierarchySnapshot {
    /// Project the design's node tree: the ordered screens' roots first, then
    /// the other screen- and composition-owned nodes; each node appears once,
    /// at its first reachable place, and unknown nodes are left out.
    pub fn from_design(design: &StudioDesign) -> (r: Self)
        ensures
            roots_built(
                design,
                r.roots@,
                hierarchy_candidates(design),
                Set::empty(),
                design.nodes.key_seq().len(),
            ),
    {
        let ghost fuel: nat = design.nodes.key_seq().len();
        let ghost c1 = screen_candidates(design, design.screen_order@);
        let mut roots: Vec<HierarchyNode> = Vec::new();
        let mut seen: Vec<NodeId> = Vec::new();
        let order = &design.screen_order;
        let mut i: usize = 0;
        assert(order@.take(0) =~= Seq::<ScreenId>::empty());
        assert(ids(seen@).to_set() =~= Set::<Seq<char>>::empty());
        while i < order.len()
            invariant
                i <= order@.len(),
                *order == design.screen_order,
                fuel == design.nodes.key_seq().len(),
                seen_ok(design, seen@),
                ids(seen@).to_set() == placed_roots(design, screen_candidates(design, order@.take(i as int)), Set::empty(), fuel),
                roots_built(design, roots@, screen_candidates(design, order@.take(i as int)), Set::empty(), fuel),
            decreases order@.len() - i,
        {
            let ghost prev = screen_candidates(design, order@.take(i as int));
            assert(order@.take(i + 1).drop_last() =~= order@.take(i as int));
            assert(order@.take(i + 1).last() == order@[i as int]);
            match design.screens.get(order[i].as_str()) {
                Some(screen) => {
                    let ghost cand = (screen.root_node_id, NodeParent::Screen { screen_id: order@[i as int] });
                    assert(screen_candidates(design, order@.take(i + 1)) == prev.push(cand));
                    assert(prev.push(cand).drop_last() =~= prev);
                    let ghost built0 = roots@;
                    match build(
                        design,
                        &screen.root_node_id,
                        NodeParent::Screen { screen_id: order[i].copy() },
                        0,
                        &mut seen,
                        Ghost(fuel),
                    ) {
                        Some(root) => {
                            roots.push(root);
                            assert(roots@.drop_last() =~= built0);
                        },
                        None => {},
                    }
                },
                None => {},
            }
            i = i + 1;
        }
        assert(order@.take(order@.len() as int) =~= order@);
        let ghost entries = design.parents.entry_seq();
        let n = design.parents.len();
        let mut j: usize = 0;
        assert(entries.take(0) =~= Seq::<(NodeId, NodeParent)>::empty());
        assert(c1 + owner_candidates(entries.take(0)) =~= c1);
        while j < n
            invariant
                j <= n,
                n == entries.len(),
                entries == design.parents.entry_seq(),
                fuel == design.nodes.key_seq().len(),
                c1 == screen_candidates(design, design.screen_order@),
                seen_ok(design, seen@),
                ids(seen@).to_set() == placed_roots(design, c1 + owner_candidates(entries.take(j as int)), Set::empty(), fuel),
                roots_built(design, roots@, c1 + owner_candidates(entries.take(j as int)), Set::empty(), fuel),
            decreases n - j,
        {
            let ghost prev = c1 + owner_candidates(entries.take(j as int));
            assert(entries.take(j + 1).drop_last() =~= entries.take(j as int));
            assert(entries.take(j + 1).last() == entries[j as int]);
            let key = design.parents.key_at(j);
            let owner = design.parents.value_at(j);
            let rooted = match owner {
                NodeParent::Screen { .. } => true,
                NodeParent::Composition { .. } => true,
                NodeParent::Node { .. } => false,
            };
            if rooted {
                assert(c1 + owner_candidates(entries.take(j + 1)) =~= prev.push(entries[j as int]));
                assert(prev.push(entries[j as int]).drop_last() =~= prev);
                let ghost built0 = roots@;
                match build(design, key, owner.copy(), 0, &mut seen, Ghost(fuel)) {
                    Some(root) => {
                        roots.push(root);
                        assert(roots@.drop_last() =~= built0);
                    },
                    None => {},
                }
            } else {
                assert(c1 + owner_candidates(entries.take(j + 1)) =~= prev);
            }
            j = j + 1;
        }
        assert(entries.take(n as int) =~= entries);
        HierarchySnapshot { roots }
    }
}

} // verus!
