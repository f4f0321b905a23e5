//! Query, outcome, and session-state records of the Designer seam.
use vstd::prelude::*;

use crate::command::HistoryEntry;
use crate::ids::{
    CollectionId, DeviceProfileId, FormId, NodeId, OperationId, ProjectId, ScreenId, TokenId,
    UndoGroupId,
};
use crate::model::{
    Actor, DesignerDiagnostic, FixtureKind, PropertyValue, RevisionId, SelectionSnapshot,
};
use crate::ordered_map::{MapKey, OrderedMap};

verus! {

/// Closed query vocabulary shared by native UI, agents, MCP, tests, and builds.
#[derive(Clone, Debug, PartialEq)]
pub enum DesignerQuery {
    Snapshot,
    Node { node_id: NodeId },
    NodeForProfile { node_id: NodeId, profile: Option<String> },
    Tokens,
    Token { token_id: TokenId },
    TokenUsages { token_id: TokenId },
    NodeTokenValues { node_id: NodeId },
    Collection { collection_id: CollectionId },
    Collections,
    Bindings,
    Forms,
    Preview { collection_id: CollectionId, fixture: Option<FixtureKind> },
    ValidateForm { form_id: FormId, values: OrderedMap<String, PropertyValue> },
    Diagnostics,
    DiagnosticsForNode { node_id: NodeId },
    History,
    SessionState,
    ResponsiveProfiles,
    ResponsiveInspector { node_id: NodeId, profile_id: DeviceProfileId },
    CompareProfiles {
        node_id: NodeId,
        left_profile_id: DeviceProfileId,
        right_profile_id: DeviceProfileId,
    },
}

/// Two queries that ask the same thing: equal, except that form values are
/// compared by key order and value.
pub open spec fn same_query(a: DesignerQuery, b: DesignerQuery) -> bool {
    match a {
        DesignerQuery::ValidateForm { form_id, values } => match b {
            DesignerQuery::ValidateForm { form_id: f2, values: v2 } => form_id == f2
                && crate::model::same_value_map(values, v2),
            _ => false,
        },
        _ => a == b,
    }
}

impl DesignerQuery {
    /// A copy of this query.
    pub fn copy(&self) -> (r: Self)
        ensures
            same_query(*self, r),
    {
        match self {
            DesignerQuery::Snapshot => DesignerQuery::Snapshot,
            DesignerQuery::Node { node_id } => DesignerQuery::Node { node_id: node_id.copy() },
            DesignerQuery::NodeForProfile { node_id, profile } => DesignerQuery::NodeForProfile {
                node_id: node_id.copy(),
                profile: crate::model::copy_opt_string(profile),
            },
            DesignerQuery::Tokens => DesignerQuery::Tokens,
            DesignerQuery::Token { token_id } => DesignerQuery::Token { token_id: token_id.copy() },
            DesignerQuery::TokenUsages { token_id } => DesignerQuery::TokenUsages {
                token_id: token_id.copy(),
            },
            DesignerQuery::NodeTokenValues { node_id } => DesignerQuery::NodeTokenValues {
                node_id: node_id.copy(),
            },
            DesignerQuery::Collection { collection_id } => DesignerQuery::Collection {
                collection_id: collection_id.copy(),
            },
            DesignerQuery::Collections => DesignerQuery::Collections,
            DesignerQuery::Bindings => DesignerQuery::Bindings,
            DesignerQuery::Forms => DesignerQuery::Forms,
            DesignerQuery::Preview { collection_id, fixture } => DesignerQuery::Preview {
                collection_id: collection_id.copy(),
                fixture: *fixture,
            },
            DesignerQuery::ValidateForm { form_id, values } => DesignerQuery::ValidateForm {
                form_id: form_id.copy(),
                values: crate::model::copy_value_map(values),
            },
            DesignerQuery::Diagnostics => DesignerQuery::Diagnostics,
            DesignerQuery::DiagnosticsForNode { node_id } => DesignerQuery::DiagnosticsForNode {
                node_id: node_id.copy(),
            },
            DesignerQuery::History => DesignerQuery::History,
            DesignerQuery::SessionState => DesignerQuery::SessionState,
            DesignerQuery::ResponsiveProfiles => DesignerQuery::ResponsiveProfiles,
            DesignerQuery::ResponsiveInspector { node_id, profile_id } =>
                DesignerQuery::ResponsiveInspector {
                node_id: node_id.copy(),
                profile_id: profile_id.copy(),
            },
            DesignerQuery::CompareProfiles { node_id, left_profile_id, right_profile_id } =>
                DesignerQuery::CompareProfiles {
                node_id: node_id.copy(),
                left_profile_id: left_profile_id.copy(),
                right_profile_id: right_profile_id.copy(),
            },
        }
    }
}

/// Result of a command, undo, or redo request.
#[derive(Clone, Debug, PartialEq)]
pub enum CommandOutcome {
    Accepted(CommandReceipt),
    Rejected(Vec<DesignerDiagnostic>),
    Conflict(BatchConflict),
    PersistenceFailed(PersistenceError),
}

/// Deterministic receipt for one accepted immutable revision.
#[derive(Clone, Debug, PartialEq, Eq)]
pub struct CommandReceipt {
    pub operation_id: OperationId,
    pub project_id: ProjectId,
    pub base_revision: RevisionId,
    pub committed_revision: RevisionId,
    pub actor: Actor,
    pub undo_group_id: UndoGroupId,
    pub undo_group_name: String,
    pub command_count: usize,
}

/// Whether two receipts report the same revision.
pub open spec fn same_receipt(a: CommandReceipt, b: CommandReceipt) -> bool {
    &&& a.operation_id == b.operation_id
    &&& a.project_id == b.project_id
    &&& a.base_revision == b.base_revision
    &&& a.committed_revision == b.committed_revision
    &&& a.actor == b.actor
    &&& a.undo_group_id == b.undo_group_id
    &&& a.undo_group_name@ == b.undo_group_name@
    &&& a.command_count == b.command_count
}

impl CommandReceipt {
    /// A copy of this receipt.
    pub fn copy(&self) -> (r: Self)
        ensures
            same_receipt(r, *self),
    {
        CommandReceipt {
            operation_id: self.operation_id.copy(),
            project_id: self.project_id.copy(),
            base_revision: self.base_revision,
            committed_revision: self.committed_revision,
            actor: self.actor.copy(),
            undo_group_id: self.undo_group_id.copy(),
            undo_group_name: self.undo_group_name.clone(),
            command_count: self.command_count,
        }
    }
}

/// Structured stale-base or failed-precondition result.
#[derive(Clone, Debug, PartialEq, Eq)]
pub struct BatchConflict {
    pub operation_id: OperationId,
    pub expected_revision: RevisionId,
    pub actual_revision: RevisionId,
    pub failed_precondition: Option<usize>,
    pub code: String,
    pub message: String,
}

/// Actor-attributed metadata for an undo or redo request.
#[derive(Clone, Debug, PartialEq, Eq)]
pub struct HistoryOperation {
    pub operation_id: OperationId,
    pub actor: Actor,
    pub base_revision: RevisionId,
}

/// Immutable history list plus the next redo position.
#[derive(Clone, Debug, PartialEq)]
pub struct HistorySnapshot {
    pub entries: Vec<HistoryEntry>,
    pub cursor: usize,
}

/// Session-owned state deliberately separated from the design document.
#[derive(Clone, Debug, PartialEq, Eq)]
pub struct SessionStateSnapshot {
    pub project_id: ProjectId,
    pub revision_id: RevisionId,
    pub selection: SelectionSnapshot,
    pub active_screen_id: Option<ScreenId>,
    pub device_profile: Option<String>,
    pub tool: ToolKind,
    pub canvas_transform: CanvasTransform,
    pub runs: Vec<AgentRun>,
    pub unsaved_work: UnsavedWork,
    pub panel_state: OrderedMap<String, bool>,
    pub history_cursor: usize,
    pub canvas: CanvasStateSnapshot,
}

/// Ephemeral canvas view state preserved while switching profiles or views.
#[derive(Clone, Debug, PartialEq, Eq)]
pub struct CanvasStateSnapshot {
    pub zoom: String,
    pub pan_x: String,
    pub pan_y: String,
}

impl Default for CanvasStateSnapshot {
    fn default() -> (r: Self)
        ensures
            r.zoom@ == "1.0"@,
            r.pan_x@ == "0.0"@,
            r.pan_y@ == "0.0"@,
    {
        CanvasStateSnapshot {
            zoom: String::from_str("1.0"),
            pan_x: String::from_str("0.0"),
            pan_y: String::from_str("0.0"),
        }
    }
}

/// Presentation-context fields a caller may update without mutating design source.
#[derive(Clone, Debug, PartialEq, Eq)]
pub struct SessionContextUpdate {
    pub selection: Option<SelectionSnapshot>,
    pub active_screen_id: Option<Option<ScreenId>>,
    pub device_profile: Option<Option<String>>,
    pub tool: Option<ToolKind>,
    pub canvas_transform: Option<CanvasTransform>,
    pub runs: Option<Vec<AgentRun>>,
    pub unsaved_work: Option<UnsavedWork>,
    pub panel_state: Option<OrderedMap<String, bool>>,
    pub canvas: Option<CanvasStateSnapshot>,
}

impl Default for SessionContextUpdate {
    fn default() -> (r: Self)
        ensures
            r.selection is None,
            r.active_screen_id is None,
            r.device_profile is None,
            r.tool is None,
            r.canvas_transform is None,
            r.runs is None,
            r.unsaved_work is None,
            r.panel_state is None,
            r.canvas is None,
    {
        SessionContextUpdate {
            selection: None,
            active_screen_id: None,
            device_profile: None,
            tool: None,
            canvas_transform: None,
            runs: None,
            unsaved_work: None,
            panel_state: None,
            canvas: None,
        }
    }
}

/// Deterministic canvas pan and zoom state shared by every editor view.
#[derive(Clone, Copy, Debug, PartialEq, Eq, Structural)]
pub struct CanvasTransform {
    /// Zoom in thousandths (1000 is 100%).
    pub zoom_milli: u32,
    /// Horizontal canvas translation in workspace pixels.
    pub offset_x: i32,
    /// Vertical canvas translation in workspace pixels.
    pub offset_y: i32,
}

impl CanvasTransform {
    /// The standard 100% transform.
    pub fn identity() -> (r: Self)
        ensures
            r == (CanvasTransform { zoom_milli: 1000, offset_x: 0, offset_y: 0 }),
    {
        CanvasTransform { zoom_milli: 1000, offset_x: 0, offset_y: 0 }
    }
}

impl Default for CanvasTransform {
    fn default() -> (r: Self)
        ensures
            r == (CanvasTransform { zoom_milli: 1000, offset_x: 0, offset_y: 0 }),
    {
        Self::identity()
    }
}

/// Lifecycle state of an agent operation visible in the activity surface.
#[derive(Clone, Copy, Debug, PartialEq, Eq, Structural)]
pub enum AgentRunStatus {
    /// The operation is still producing progress or commands.
    Running,
    /// The operation completed successfully.
    Completed,
    /// The operation stopped with a failure diagnostic.
    Failed,
    /// The operation was cancelled by the user.
    Cancelled,
}

/// Safe, session-owned activity metadata for one agent operation.
#[derive(Clone, Debug, PartialEq, Eq)]
pub struct AgentRun {
    /// Operation identity shared with receipts and history.
    pub operation_id: OperationId,
    /// Current lifecycle state.
    pub status: AgentRunStatus,
    /// Coarse progress percentage, bounded to 0..=100 by callers.
    pub progress_percent: u8,
}

/// Unsaved authoring work that must survive presentation changes.
#[derive(Clone, Debug, PartialEq, Eq)]
pub struct UnsavedWork {
    /// Whether there is work not yet committed as a Designer command.
    pub dirty: bool,
    /// Optional stable source/buffer identity for the dirty work.
    pub buffer_id: Option<String>,
}

impl Default for UnsavedWork {
    fn default() -> (r: Self)
        ensures
            !r.dirty,
            r.buffer_id is None,
    {
        UnsavedWork { dirty: false, buffer_id: None }
    }
}

/// Closed set of primary authoring tools.
#[derive(Clone, Copy, Debug, PartialEq, Eq, Structural)]
pub enum ToolKind {
    Select,
    Insert,
    Pan,
    Text,
    Prototype,
}

impl Default for ToolKind {
    fn default() -> (r: Self)
        ensures
            r == ToolKind::Select,
    {
        ToolKind::Select
    }
}

/// Failure while constructing or opening a session.
#[derive(Clone, Debug, PartialEq, Eq)]
pub enum SessionError {
    NotFound(ProjectId),
    InvalidState(String),
    Persistence(PersistenceError),
}

/// Stable persistence failure categories safe to return across the seam.
#[derive(Clone, Copy, Debug, PartialEq, Eq, Structural)]
pub enum PersistenceErrorCode {
    Unavailable,
    Corrupt,
    Incompatible,
    Rejected,
}

/// Sanitized persistence failure that exposes no backend details.
#[derive(Clone, Debug, PartialEq, Eq)]
pub struct PersistenceError {
    pub code: PersistenceErrorCode,
    pub message: String,
}

/// Apply a session context update: each field the update carries replaces
/// the state's, the others are kept.
pub fn apply_context_update(state: SessionStateSnapshot, update: SessionContextUpdate) -> (r: SessionStateSnapshot)
    ensures
        r.project_id == state.project_id,
        r.revision_id == state.revision_id,
        r.history_cursor == state.history_cursor,
        r.selection == (match update.selection { Some(v) => v, None => state.selection }),
        r.active_screen_id == (match update.active_screen_id { Some(v) => v, None => state.active_screen_id }),
        r.device_profile == (match update.device_profile { Some(v) => v, None => state.device_profile }),
        r.tool == (match update.tool { Some(v) => v, None => state.tool }),
        r.canvas_transform == (match update.canvas_transform { Some(v) => v, None => state.canvas_transform }),
        r.runs == (match update.runs { Some(v) => v, None => state.runs }),
        r.unsaved_work == (match update.unsaved_work { Some(v) => v, None => state.unsaved_work }),
        r.panel_state == (match update.panel_state { Some(v) => v, None => state.panel_state }),
        r.canvas == (match update.canvas { Some(v) => v, None => state.canvas }),
{
    let SessionStateSnapshot {
        project_id,
        revision_id,
        selection,
        active_screen_id,
        device_profile,
        tool,
        canvas_transform,
        runs,
        unsaved_work,
        panel_state,
        history_cursor,
        canvas,
    } = state;
    SessionStateSnapshot {
        project_id,
        revision_id,
        selection: match update.selection { Some(v) => v, None => selection },
        active_screen_id: match update.active_screen_id { Some(v) => v, None => active_screen_id },
        device_profile: match update.device_profile { Some(v) => v, None => device_profile },
        tool: match update.tool { Some(v) => v, None => tool },
        canvas_transform: match update.canvas_transform { Some(v) => v, None => canvas_transform },
        runs: match update.runs { Some(v) => v, None => runs },
        unsaved_work: match update.unsaved_work { Some(v) => v, None => unsaved_work },
        panel_state: match update.panel_state { Some(v) => v, None => panel_state },
        history_cursor,
        canvas: match update.canvas { Some(v) => v, None => canvas },
    }
}

/// The selected nodes that still exist in a design, in order.
pub open spec fn existing_ids(ids: Seq<NodeId>, nodes: Map<Seq<char>, crate::model::DesignNode>) -> Seq<NodeId>
    decreases ids.len(),
{
    if ids.len() == 0 {
        Seq::empty()
    } else if nodes.contains_key(ids.last()@) {
        existing_ids(ids.drop_last(), nodes).push(ids.last())
    } else {
        existing_ids(ids.drop_last(), nodes)
    }
}

/// Keep a selection consistent with a committed design: selected nodes that
/// no longer exist are dropped, and so is a primary node that no longer
/// exists.
pub fn prune_selection(selection: SelectionSnapshot, design: &crate::model::StudioDesign) -> (r: SelectionSnapshot)
    ensures
        r.node_ids@ == existing_ids(selection.node_ids@, design.nodes@),
        r.primary == (match selection.primary {
            Some(p) => if design.nodes@.contains_key(p@) { Some(p) } else { None },
            None => None,
        }),
{
    let SelectionSnapshot { node_ids, primary } = selection;
    let ghost all = node_ids@;
    let mut kept: Vec<NodeId> = Vec::new();
    let mut i: usize = 0;
    while i < node_ids.len()
        invariant
            i <= all.len(),
            all == node_ids@,
            kept@ == existing_ids(all.take(i as int), design.nodes@),
        decreases all.len() - i,
    {
        assert(all.take(i + 1).drop_last() =~= all.take(i as int));
        if design.nodes.contains_key(node_ids[i].as_str()) {
            kept.push(node_ids[i].copy());
        }
        i = i + 1;
    }
    assert(all.take(i as int) =~= all);
    let primary = match primary {
        Some(p) => if design.nodes.contains_key(p.as_str()) { Some(p) } else { None },
        None => None,
    };
    SelectionSnapshot { node_ids: kept, primary }
}

} // verus!
