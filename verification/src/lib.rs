//! The host-independent Studio Design authoring domain.
pub mod text;
pub mod ordered_map;
pub mod ids;
pub mod model;
pub mod command;
pub mod session;
pub mod access;
pub mod workspace;
pub mod navigation;
pub mod responsive;
pub mod content;
pub mod agent;
pub mod manipulation;
pub mod mcp;
pub mod projection;
pub mod script_editor;
pub mod ux;
pub mod recovery;
pub mod content_adapter;
pub mod library_adapter;
pub mod engine;
pub mod layout_rules;
pub mod design_rules;
pub mod compositions;
pub mod prototype;
pub mod dispatch;
pub mod rebase;
pub mod history;
pub mod submission;
pub mod query;
pub mod content_commands;

pub use access::{DesignerCapability, DesignerScope, ScopeDenied, ScopedDesignerSession, ScopedOperation};
pub use agent::{
    AgentBatchOutcome, AgentBatchResult, AgentConflict, ConflictContext, project_summary, refused_result, AgentCancellation, AgentCheckFeedback, AgentChecker, AgentCommandSchema, AgentEvent, AgentEventSink,
    AgentProgress, AgentProjectSummary, AgentReadError, AgentReadScope, AgentRunError, AgentRunId,
    AgentRunRequest, AgentRunSummary, AgentSchemaSnapshot, BatchAdmission, InvalidAgentRunId, LiveAgentChannel,
    NoopAgentChecker, NoopAgentEventSink,
};
pub use dispatch::{apply_command, apply_commands};
pub use rebase::{StaleDecision, stale_batch_decision};
pub use history::{HistoryPlan, plan_history};
pub use query::{DesignerQueryResult, query_result};
pub use command::{AppliedBatch, Command, CommandBatch, CommandPrecondition, HistoryEntry, ParentPlacement};
pub use content_adapter::ContentAdapter;
pub use ids::{
    ActorId, BindingId, CollectionId, CompositionId, DeviceProfileId, FormId, Id, InteractionId, InvalidIdentity,
    LibraryAssetId, NodeId, OperationId, ProjectId, RecordId, ResponsiveVariantId, ScreenId, TokenId, UndoGroupId,
};
pub use library_adapter::LibraryAdapter;
pub use manipulation::{
    CanvasAlignment, CanvasDistribution, GestureContext, GuideAxis, GuideKind, HierarchyEdit, HierarchyNode,
    HierarchySnapshot, ManipulationError, ResizeHandle,
};
pub use mcp::{McpClient, McpClientError};
pub use model::{
    AccessibilityProperties, AccessibilityRole, Actor, ActorKind, Alignment, BindingPath, BindingSource,
    CollectionPreview, ColorValue, CompositionInput, ContentBinding, ContentCollection, ContentCollectionSchema,
    ContentFieldKind, ContentFieldSchema, ContentFixture, ContentRecord, DeletionTombstone, DesignNode,
    DesignNodeSource, DesignToken, DesignerDiagnostic, DiagnosticSeverity, FixtureKind, FormDefinition,
    FormFieldSchema, FormValidationResult, InputEnvironment, Interaction, InteractionAction, InteractionEvent,
    InteractionSource, LayoutPosition, LayoutProperties, Length, LengthUnit, NavigationMode, NodeKind, NodeParent,
    Paint, Placement, PropertyValue, ResponsiveNodeOverride, ResponsiveVariant, ReusableComposition, RevisionId,
    RevisionMetadata, RevisionReason, STUDIO_DESIGN_SCHEMA_VERSION, Screen, SelectionSnapshot, SlotDefinition,
    StudioDesign, StudioDesignSnapshot, StyleProperties, TokenKind, TokenValue, TombstoneReference, TypographyToken,
    ValueKind,
};
pub use navigation::{
    CODE_INTERACTION_CYCLE, CODE_INTERACTION_SOURCE_MISSING, CODE_INTERACTION_TARGET_MISSING, CODE_ROUTE_DUPLICATE,
    CODE_ROUTE_INVALID, InteractionGraph, InteractionInspectorEntry, NavigationEdge, NavigationGraph,
    NavigationScreen,
};
pub use ordered_map::OrderedMap;
pub use projection::{LibraryAsset, LibrarySnapshot, ProjectionDiagnostic, ProjectionError};
pub use recovery::{ConflictStatus, RecoveryState, ResilienceError, ResolutionChoice};
pub use responsive::{
    BreakpointProvenance, CompareReport, DeviceInput, DeviceProfile, DeviceProfileMatrix, Insets, Orientation,
    ProfileDifference, PropertyPath, PropertyProvenance, ResolvedNode, ResolvedValue, ResponsiveValue, Viewport,
};
pub use script_editor::{OutlineNode, ScriptCommitMetadata, ScriptEdit, SyntaxToken, SyntaxTokenKind};
pub use session::{
    AgentRun, AgentRunStatus, BatchConflict, CanvasStateSnapshot, CanvasTransform, CommandOutcome, CommandReceipt,
    DesignerQuery, HistoryOperation, HistorySnapshot, PersistenceError, PersistenceErrorCode, SessionContextUpdate,
    SessionError, SessionStateSnapshot, ToolKind, UnsavedWork,
};
pub use ux::{
    BrandSlot, ImportDestination, ImportReviewError, ImportReviewStatus, ImportWarning, PluginBrowseCard,
    PluginCatalog, SettingsError, TemplateError,
};
pub use workspace::{
    CommandDescriptor, EditorView, PanelArrangement, PanelGeometry, PanelId, PanelState, ViewSwitchSnapshot,
    WORKSPACE_STATE_SCHEMA_VERSION, WorkspaceCommand, WorkspaceController, WorkspaceError, WorkspaceRecord,
    WorkspaceState,
};
