//! Host-mediated live editing for agents and MCP clients.
//!
//! A host gives an agent a [`LiveAgentChannel`], which keeps the registry of
//! admitted runs and their cancellation boundaries. The decisions taken at a
//! batch boundary are pure functions of the run state and the incoming
//! batch; the host performs the session calls they ask for.
use vstd::prelude::*;
use vstd::string::StringExecFns;

use crate::command::{AppliedBatch, CommandBatch};
use crate::ids::{OperationId, ProjectId, ScreenId, UndoGroupId, NodeId, valid_identity};
use crate::model::{Actor, DesignerDiagnostic, DiagnosticSeverity, RevisionId, STUDIO_DESIGN_SCHEMA_VERSION, StudioDesignSnapshot};
use crate::ordered_map::{MapKey, OrderedMap};
use crate::session::{BatchConflict, CommandOutcome, CommandReceipt, HistorySnapshot, PersistenceError, same_receipt};

verus! {

/// Stable identity for one host-owned agent run.
#[derive(Debug, PartialEq, Eq)]
pub struct AgentRunId {
    value: String,
}

impl View for AgentRunId {
    type V = Seq<char>;

    closed spec fn view(&self) -> Seq<char> {
        self.value@
    }
}

/// A run identity failed its bounded opaque-identity contract.
#[derive(Clone, Copy, Debug, PartialEq, Eq, Structural)]
pub struct InvalidAgentRunId;

impl InvalidAgentRunId {
    /// The error text.
    pub fn message(&self) -> (r: String)
        ensures
            r@ == "agent run identity must be 1..=128 bytes and contain no control characters"@,
    {
        String::from_str("agent run identity must be 1..=128 bytes and contain no control characters")
    }
}

impl AgentRunId {
    /// Create a bounded run identity: `1..=128` bytes without control
    /// characters.
    pub fn new(value: &str) -> (r: Result<Self, InvalidAgentRunId>)
        ensures
            match r {
                Ok(id) => valid_identity(value@) && id@ == value@,
                Err(_) => !valid_identity(value@),
            },
    {
        if crate::ids::is_valid_identity(value) {
            Ok(AgentRunId { value: String::from_str(value) })
        } else {
            Err(InvalidAgentRunId)
        }
    }

    /// Borrow the opaque wire identity.
    pub fn as_str(&self) -> (r: &str)
        ensures
            r@ == self@,
    {
        self.value.as_str()
    }

    /// A copy of this identity.
    pub fn copy(&self) -> (r: Self)
        ensures
            r == *self,
    {
        let value = self.value.clone();
        AgentRunId { value }
    }

    /// The opaque wire identity as owned text.
    pub fn to_string(&self) -> (r: String)
        ensures
            r@ == self@,
    {
        self.value.clone()
    }
}

impl MapKey for AgentRunId {
    open spec fn key_view(&self) -> Seq<char> {
        self@
    }

    fn key_str(&self) -> (r: &str) {
        self.as_str()
    }

    fn key_clone(&self) -> (r: Self) {
        self.copy()
    }
}

/// Progress attached to every streamed agent batch.
#[derive(Clone, Debug, PartialEq, Eq)]
pub struct AgentProgress {
    pub completed: u32,
    pub total: Option<u32>,
    pub message: String,
}

impl AgentProgress {
    /// A copy of this progress.
    pub fn copy(&self) -> (r: Self)
        ensures
            r == *self,
    {
        AgentProgress { completed: self.completed, total: self.total, message: self.message.clone() }
    }
}

impl Default for AgentProgress {
    fn default() -> (r: Self)
        ensures
            r.completed == 0,
            r.total is None,
            r.message@ == Seq::<char>::empty(),
    {
        AgentProgress { completed: 0, total: None, message: String::new() }
    }
}

/// Metadata used to admit a run to the host-owned channel.
#[derive(Debug, PartialEq, Eq)]
pub struct AgentRunRequest {
    pub run_id: AgentRunId,
    pub actor: Actor,
    pub total_batches: Option<u32>,
}

impl AgentRunRequest {
    /// Build a run admission request.
    pub fn new(run_id: AgentRunId, actor: Actor, total_batches: Option<u32>) -> (r: Self)
        ensures
            r.run_id == run_id,
            r.actor == actor,
            r.total_batches == total_batches,
    {
        AgentRunRequest { run_id, actor, total_batches }
    }

    /// A copy of this request.
    pub fn copy(&self) -> (r: Self)
        ensures
            r == *self,
    {
        AgentRunRequest { run_id: self.run_id.copy(), actor: self.actor.copy(), total_batches: self.total_batches }
    }
}

/// Cancellation result for a batch arriving after the cancellation boundary.
#[derive(Debug, PartialEq, Eq)]
pub struct AgentCancellation {
    pub run_id: AgentRunId,
    pub operation_id: OperationId,
    pub message: String,
}

/// Machine-readable validation feedback from the host's check adapter.
#[derive(Clone, Debug, PartialEq, Eq)]
pub struct AgentCheckFeedback {
    pub diagnostics: Vec<DesignerDiagnostic>,
}

/// Whether some diagnostic has the given severity.
pub open spec fn has_severity(ds: Seq<DesignerDiagnostic>, severity: DiagnosticSeverity) -> bool {
    exists|i: int| 0 <= i < ds.len() && (#[trigger] ds[i]).severity == severity
}

impl AgentCheckFeedback {
    /// Whether the check found an error diagnostic.
    pub fn has_errors(&self) -> (r: bool)
        ensures
            r == has_severity(self.diagnostics@, DiagnosticSeverity::Error),
    {
        let mut i: usize = 0;
        while i < self.diagnostics.len()
            invariant
                i <= self.diagnostics@.len(),
                forall|j: int| 0 <= j < i ==> (#[trigger] self.diagnostics@[j]).severity != DiagnosticSeverity::Error,
            decreases self.diagnostics@.len() - i,
        {
            if self.diagnostics[i].severity == DiagnosticSeverity::Error {
                return true;
            }
            i = i + 1;
        }
        false
    }

    /// Whether the check found a warning diagnostic.
    pub fn has_warnings(&self) -> (r: bool)
        ensures
            r == has_severity(self.diagnostics@, DiagnosticSeverity::Warning),
    {
        let mut i: usize = 0;
        while i < self.diagnostics.len()
            invariant
                i <= self.diagnostics@.len(),
                forall|j: int| 0 <= j < i ==> (#[trigger] self.diagnostics@[j]).severity != DiagnosticSeverity::Warning,
            decreases self.diagnostics@.len() - i,
        {
            if self.diagnostics[i].severity == DiagnosticSeverity::Warning {
                return true;
            }
            i = i + 1;
        }
        false
    }
}

impl Default for AgentCheckFeedback {
    fn default() -> (r: Self)
        ensures
            r.diagnostics@.len() == 0,
    {
        AgentCheckFeedback { diagnostics: Vec::new() }
    }
}

/// Host adapter for machine-readable validation of a committed snapshot.
pub trait AgentChecker {
    /// Check the immutable post-commit snapshot.
    fn check(&mut self, snapshot: &StudioDesignSnapshot) -> AgentCheckFeedback;
}

/// Default checker used when a host has not connected its own check; the
/// command engine's design validation still runs before commit.
#[derive(Clone, Copy, Debug)]
pub struct NoopAgentChecker;

impl AgentChecker for NoopAgentChecker {
    fn check(&mut self, _snapshot: &StudioDesignSnapshot) -> AgentCheckFeedback {
        AgentCheckFeedback { diagnostics: Vec::new() }
    }
}

/// Run lifecycle event emitted by a live agent channel.
#[derive(Debug)]
pub enum AgentEvent {
    RunStarted { run_id: AgentRunId, actor: Actor },
    Progress { run_id: AgentRunId, operation_id: OperationId, progress: AgentProgress },
    Failure { run_id: AgentRunId, operation_id: OperationId, diagnostics: Vec<DesignerDiagnostic> },
    BatchAccepted { run_id: AgentRunId, receipt: CommandReceipt, progress: AgentProgress },
    CheckCompleted { run_id: AgentRunId, operation_id: OperationId, feedback: AgentCheckFeedback },
    Warning { run_id: AgentRunId, operation_id: OperationId, diagnostics: Vec<DesignerDiagnostic> },
    Conflict { run_id: AgentRunId, conflict: Box<AgentConflict> },
    RunCancelled { run_id: AgentRunId },
    BatchCancelled { run_id: AgentRunId, operation_id: OperationId },
}

/// A streamed batch that conflicts with the current revision, with what the
/// agent needs to rebase it.
#[derive(Debug)]
pub struct AgentConflict {
    pub conflict: BatchConflict,
    pub attempted: CommandBatch,
    pub current: StudioDesignSnapshot,
    pub intervening: Vec<AppliedBatch>,
}

/// What became of one streamed batch.
#[derive(Debug)]
pub enum AgentBatchOutcome {
    Accepted(CommandReceipt),
    Rejected(Vec<DesignerDiagnostic>),
    Conflict(Box<AgentConflict>),
    PersistenceFailed(PersistenceError),
    Cancelled(AgentCancellation),
    RunNotFound,
}

/// Result metadata shared by every streamed batch result.
#[derive(Debug)]
pub struct AgentBatchResult {
    pub run_id: AgentRunId,
    pub operation_id: OperationId,
    pub progress: AgentProgress,
    pub outcome: AgentBatchOutcome,
    pub check: AgentCheckFeedback,
}

/// Injectable event sink for an editor dock or another host presentation.
pub trait AgentEventSink {
    /// Receive one immutable event in stream order.
    fn emit(&mut self, event: AgentEvent);
}

/// Event sink that intentionally discards events.
#[derive(Clone, Copy, Debug)]
pub struct NoopAgentEventSink;

impl AgentEventSink for NoopAgentEventSink {
    fn emit(&mut self, _event: AgentEvent) {
    }
}

/// Explicit read scopes available to an agent or MCP client.
#[derive(Debug, PartialEq, Eq)]
pub enum AgentReadScope {
    Project,
    Selection,
    Subtree { root_node_id: NodeId },
    Schemas,
    Diagnostics,
    History,
}

/// Safe project metadata returned by the project read scope.
#[derive(Debug, PartialEq, Eq)]
pub struct AgentProjectSummary {
    pub project_id: ProjectId,
    pub name: String,
    pub revision_id: RevisionId,
    pub screen_ids: Vec<ScreenId>,
    pub node_count: usize,
    pub composition_count: usize,
    pub token_count: usize,
}

/// A closed command schema description exposed to an agent before mutation.
#[derive(Clone, Debug, PartialEq, Eq)]
pub struct AgentCommandSchema {
    pub name: String,
    pub required_fields: Vec<String>,
    pub supported_preconditions: Vec<String>,
}

/// The typed command vocabulary available through this channel.
#[derive(Clone, Debug, PartialEq, Eq)]
pub struct AgentSchemaSnapshot {
    pub schema_version: u16,
    pub commands: Vec<AgentCommandSchema>,
}

/// A scoped read could not be fulfilled.
#[derive(Debug, PartialEq, Eq)]
pub enum AgentReadError {
    NodeNotFound(NodeId),
    UnexpectedResult,
}

/// Error while admitting a run.
#[derive(Debug, PartialEq, Eq)]
pub enum AgentRunError {
    Duplicate(AgentRunId),
}

/// Summary returned when a host closes a run.
#[derive(Debug, PartialEq, Eq)]
pub struct AgentRunSummary {
    pub run_id: AgentRunId,
    pub actor: Actor,
    pub cancelled: bool,
    pub accepted_operations: Vec<OperationId>,
    pub last_progress: Option<AgentProgress>,
}

/// The state of one admitted run.
#[derive(Debug, PartialEq, Eq)]
pub struct RunState {
    pub request: AgentRunRequest,
    pub cancelled: bool,
    pub accepted_operations: Vec<OperationId>,
    pub last_progress: Option<AgentProgress>,
    pub undo_group_id: Option<UndoGroupId>,
    pub undo_group_name: Option<String>,
}

/// The observable state of one run: its request, whether it is cancelled,
/// its accepted operations, its last progress, and the undo group identity
/// and name that its first admitted batch fixed.
pub type RunView = (AgentRunRequest, bool, Seq<OperationId>, Option<AgentProgress>, Option<UndoGroupId>, Option<Seq<char>>);

/// The text of an optional string.
pub open spec fn opt_text(s: Option<String>) -> Option<Seq<char>> {
    match s {
        Some(t) => Some(t@),
        None => None,
    }
}

/// The observable state of a run.
pub open spec fn run_view(r: RunState) -> RunView {
    (r.request, r.cancelled, r.accepted_operations@, r.last_progress, r.undo_group_id, opt_text(r.undo_group_name))
}

/// Host-mediated live agent editing channel.
pub struct LiveAgentChannel<S, C, E> {
    session: S,
    checker: C,
    event_sink: E,
    runs: OrderedMap<AgentRunId, RunState>,
    emitted: Ghost<Seq<AgentEvent>>,
}

/// The run registry after admitting a fresh run.
pub open spec fn started(runs: Map<Seq<char>, RunView>, request: AgentRunRequest) -> Map<Seq<char>, RunView> {
    runs.insert(request.run_id@, (request, false, Seq::empty(), None, None, None))
}

/// The run registry after cancelling a run.
pub open spec fn cancelled(runs: Map<Seq<char>, RunView>, id: Seq<char>) -> Map<Seq<char>, RunView> {
    let r = runs[id];
    runs.insert(id, (r.0, true, r.2, r.3, r.4, r.5))
}

/// Whether cancelling a run takes effect: the run is admitted and not yet
/// cancelled.
pub open spec fn cancel_takes_effect(runs: Map<Seq<char>, RunView>, id: Seq<char>) -> bool {
    runs.contains_key(id) && !runs[id].1
}

/// Whether a summary reports a run's state.
pub open spec fn summary_of(s: AgentRunSummary, r: RunView) -> bool {
    &&& s.run_id == r.0.run_id
    &&& s.actor == r.0.actor
    &&& s.cancelled == r.1
    &&& s.accepted_operations@ == r.2
    &&& s.last_progress == r.3
}

impl<S, C: AgentChecker, E: AgentEventSink> LiveAgentChannel<S, C, E> {
    /// The admitted runs by identity.
    pub closed spec fn runs(&self) -> Map<Seq<char>, RunView> {
        self.runs@.map_values(|r: RunState| run_view(r))
    }

    /// The session the channel drives.
    pub closed spec fn session_view(&self) -> S {
        self.session
    }

    /// The injected check adapter.
    pub closed spec fn checker_view(&self) -> C {
        self.checker
    }

    /// The injected event sink.
    pub closed spec fn sink_view(&self) -> E {
        self.event_sink
    }

    /// Every event handed to the event sink, in stream order.
    pub closed spec fn events(&self) -> Seq<AgentEvent> {
        self.emitted@
    }

    /// Create a channel with host-owned check and presentation adapters.
    pub fn with_checker_and_event_sink(session: S, checker: C, event_sink: E) -> (r: Self)
        ensures
            r.runs() == Map::<Seq<char>, RunView>::empty(),
            r.session_view() == session,
            r.checker_view() == checker,
            r.sink_view() == event_sink,
            r.events() == Seq::<AgentEvent>::empty(),
    {
        let r = LiveAgentChannel { session, checker, event_sink, runs: OrderedMap::new(), emitted: Ghost(Seq::empty()) };
        assert(r.runs() =~= Map::<Seq<char>, RunView>::empty());
        r
    }

    /// Hand one event to the sink.
    fn emit_event(&mut self, event: AgentEvent)
        ensures
            final(self).events() == old(self).events().push(event),
            final(self).runs() == old(self).runs(),
            final(self).session_view() == old(self).session_view(),
            final(self).checker_view() == old(self).checker_view(),
    {
        let ghost e = event;
        self.emitted = Ghost(self.emitted@.push(e));
        self.event_sink.emit(event);
    }

    /// Borrow the underlying session for native human edits and undo/redo.
    pub fn session(&self) -> (r: &S)
        ensures
            *r == self.session_view(),
    {
        &self.session
    }

    /// Mutably borrow the underlying session for a host-authored human edit.
    pub fn session_mut(&mut self) -> (r: &mut S)
        ensures
            *r == old(self).session_view(),
            final(self).session_view() == *final(r),
            final(self).runs() == old(self).runs(),
            final(self).events() == old(self).events(),
    {
        &mut self.session
    }

    /// Consume the channel and return its injected adapters.
    pub fn into_parts(self) -> (r: (S, C, E))
        ensures
            r.0 == self.session_view(),
            r.1 == self.checker_view(),
            r.2 == self.sink_view(),
    {
        (self.session, self.checker, self.event_sink)
    }

    /// Admit one run and establish its cancellation boundary; a run identity
    /// that is already active is refused.
    pub fn start_run(&mut self, request: AgentRunRequest) -> (r: Result<(), AgentRunError>)
        ensures
            final(self).session_view() == old(self).session_view(),
            match r {
                Ok(()) => !old(self).runs().contains_key(request.run_id@) && final(self).runs() == started(old(self).runs(), request)
                    && final(self).events() == old(self).events().push(AgentEvent::RunStarted { run_id: request.run_id, actor: request.actor }),
                Err(AgentRunError::Duplicate(id)) => old(self).runs().contains_key(request.run_id@) && id == request.run_id
                    && final(self).runs() == old(self).runs() && final(self).events() == old(self).events(),
            },
    {
        if self.runs.contains_key(request.run_id.as_str()) {
            return Err(AgentRunError::Duplicate(request.run_id));
        }
        let event = AgentEvent::RunStarted { run_id: request.run_id.copy(), actor: request.actor.copy() };
        let run_id = request.run_id.copy();
        let ghost before = self.runs@;
        let state = RunState {
            request,
            cancelled: false,
            accepted_operations: Vec::new(),
            last_progress: None,
            undo_group_id: None,
            undo_group_name: None,
        };
        let ghost sv = run_view(state);
        self.runs.insert(run_id, state);
        proof {
            assert(self.runs() =~= started(old(self).runs(), request)) by {
                assert(self.runs@ == before.insert(request.run_id@, state));
            }
        }
        self.emit_event(event);
        Ok(())
    }

    /// Alias for [`Self::start_run`] used by stream adapters.
    pub fn begin_run(&mut self, request: AgentRunRequest) -> (r: Result<(), AgentRunError>)
        ensures
            final(self).session_view() == old(self).session_view(),
            match r {
                Ok(()) => !old(self).runs().contains_key(request.run_id@) && final(self).runs() == started(old(self).runs(), request)
                    && final(self).events() == old(self).events().push(AgentEvent::RunStarted { run_id: request.run_id, actor: request.actor }),
                Err(AgentRunError::Duplicate(id)) => old(self).runs().contains_key(request.run_id@) && id == request.run_id
                    && final(self).runs() == old(self).runs() && final(self).events() == old(self).events(),
            },
    {
        self.start_run(request)
    }

    /// Cancel a run at the next batch boundary. Batches already accepted
    /// remain durable; a later batch is never submitted. Returns whether the
    /// cancellation took effect.
    pub fn cancel_run(&mut self, run_id: &AgentRunId) -> (r: bool)
        ensures
            final(self).session_view() == old(self).session_view(),
            r == cancel_takes_effect(old(self).runs(), run_id@),
            r ==> final(self).runs() == cancelled(old(self).runs(), run_id@)
                && final(self).events() == old(self).events().push(AgentEvent::RunCancelled { run_id: *run_id }),
            !r ==> final(self).runs() == old(self).runs() && final(self).events() == old(self).events(),
    {
        let found = self.runs.remove(run_id.as_str());
        match found {
            None => false,
            Some(run) => {
                if run.cancelled {
                    let ghost v = run;
                    self.runs.insert(run_id.copy(), run);
                    assert(self.runs() =~= old(self).runs());
                    false
                } else {
                    let updated = RunState { cancelled: true, ..run };
                    self.runs.insert(run_id.copy(), updated);
                    assert(self.runs() =~= cancelled(old(self).runs(), run_id@));
                    self.emit_event(AgentEvent::RunCancelled { run_id: run_id.copy() });
                    true
                }
            },
        }
    }

    /// Alias for [`Self::cancel_run`].
    pub fn cancel(&mut self, run_id: &AgentRunId) -> (r: bool)
        ensures
            final(self).session_view() == old(self).session_view(),
            r == cancel_takes_effect(old(self).runs(), run_id@),
            r ==> final(self).runs() == cancelled(old(self).runs(), run_id@)
                && final(self).events() == old(self).events().push(AgentEvent::RunCancelled { run_id: *run_id }),
            !r ==> final(self).runs() == old(self).runs() && final(self).events() == old(self).events(),
    {
        self.cancel_run(run_id)
    }

    /// Close a run and return its safe progress summary.
    pub fn finish_run(&mut self, run_id: &AgentRunId) -> (r: Option<AgentRunSummary>)
        ensures
            final(self).session_view() == old(self).session_view(),
            final(self).runs() == old(self).runs().remove(run_id@),
            final(self).events() == old(self).events(),
            match r {
                Some(s) => old(self).runs().contains_key(run_id@) && summary_of(s, old(self).runs()[run_id@]),
                None => !old(self).runs().contains_key(run_id@),
            },
    {
        let found = self.runs.remove(run_id.as_str());
        assert(self.runs() =~= old(self).runs().remove(run_id@));
        match found {
            None => None,
            Some(run) => Some(AgentRunSummary {
                run_id: run.request.run_id,
                actor: run.request.actor,
                cancelled: run.cancelled,
                accepted_operations: run.accepted_operations,
                last_progress: run.last_progress,
            }),
        }
    }
}

impl<S> LiveAgentChannel<S, NoopAgentChecker, NoopAgentEventSink> {
    /// Create a channel with no-op checking and event delivery.
    pub fn new(session: S) -> (r: Self)
        ensures
            r.runs() == Map::<Seq<char>, RunView>::empty(),
            r.session_view() == session,
            r.events() == Seq::<AgentEvent>::empty(),
    {
        Self::with_checker_and_event_sink(session, NoopAgentChecker, NoopAgentEventSink)
    }
}

impl<S, E: AgentEventSink> LiveAgentChannel<S, NoopAgentChecker, E> {
    /// Create a channel with an injected editor-dock event sink.
    pub fn with_event_sink(session: S, event_sink: E) -> (r: Self)
        ensures
            r.runs() == Map::<Seq<char>, RunView>::empty(),
            r.session_view() == session,
            r.sink_view() == event_sink,
            r.events() == Seq::<AgentEvent>::empty(),
    {
        Self::with_checker_and_event_sink(session, NoopAgentChecker, event_sink)
    }
}

/// A run admitted and then finished leaves the registry as it was.
pub proof fn lemma_start_then_finish(runs: Map<Seq<char>, RunView>, request: AgentRunRequest)
    requires
        !runs.contains_key(request.run_id@),
    ensures
        started(runs, request).remove(request.run_id@) == runs,
        !started(runs, request)[request.run_id@].1,
        started(runs, request)[request.run_id@].2.len() == 0,
{
    assert(started(runs, request).remove(request.run_id@) =~= runs);
}

/// A second cancellation of the same run has no effect.
pub proof fn lemma_cancel_once(runs: Map<Seq<char>, RunView>, id: Seq<char>)
    requires
        cancel_take_effect_holds(runs, id),
    ensures
        !cancel_takes_effect(cancelled(runs, id), id),
        cancelled(runs, id)[id].2 == runs[id].2,
{
}

/// Whether a cancellation can take effect.
pub open spec fn cancel_take_effect_holds(runs: Map<Seq<char>, RunView>, id: Seq<char>) -> bool {
    cancel_takes_effect(runs, id)
}

/// An error diagnostic of the agent channel.
pub open spec fn agent_issue(d: DesignerDiagnostic, code: Seq<char>, message: Seq<char>) -> bool {
    &&& d.code@ == code
    &&& d.severity == DiagnosticSeverity::Error
    &&& d.message@ == message
    &&& d.node_id is None
    &&& d.interaction_id is None
    &&& d.collection_id is None
    &&& d.binding_id is None
    &&& d.form_id is None
    &&& d.record_id is None
}

fn agent_diagnostic(code: &str, message: &str) -> (r: DesignerDiagnostic)
    ensures
        agent_issue(r, code@, message@),
{
    DesignerDiagnostic {
        code: String::from_str(code),
        severity: DiagnosticSeverity::Error,
        message: String::from_str(message),
        node_id: None,
        interaction_id: None,
        collection_id: None,
        binding_id: None,
        form_id: None,
        record_id: None,
    }
}

/// The progress problem of a batch, as a code and message: an unsafe or
/// over-long message, a total differing from the run's declaration, a
/// completed count above the total, or a completed count below the last one.
pub open spec fn progress_problem(request: AgentRunRequest, previous: Option<AgentProgress>, progress: AgentProgress) -> Option<(Seq<char>, Seq<char>)> {
    if vstd::utf8::encode_utf8(progress.message@).len() > 512 || crate::text::has_control(progress.message@) {
        Some(("AGENT_PROGRESS_INVALID"@, "progress messages must contain at most 512 safe bytes"@))
    } else if progress.total != request.total_batches {
        Some(("AGENT_PROGRESS_TOTAL_MISMATCH"@, "batch progress total must match the run declaration"@))
    } else if progress.total matches Some(t) && progress.completed > t {
        Some(("AGENT_PROGRESS_INVALID"@, "completed progress cannot exceed the declared total"@))
    } else if previous matches Some(p) && progress.completed < p.completed {
        Some(("AGENT_PROGRESS_REGRESSION"@, "progress cannot move backwards within one agent run"@))
    } else {
        None
    }
}

fn message_unsafe(s: &str) -> (r: bool)
    ensures
        r == (vstd::utf8::encode_utf8(s@).len() > 512 || crate::text::has_control(s@)),
{
    let long = crate::text::utf8_byte_len(s) > 512;
    let control = crate::text::contains_control(s);
    long || control
}

/// Validate streamed progress against the run declaration and the last
/// accepted progress.
pub fn validate_progress(request: &AgentRunRequest, previous: Option<&AgentProgress>, progress: &AgentProgress) -> (r: Option<Vec<DesignerDiagnostic>>)
    ensures
        match progress_problem(*request, match previous {
            Some(p) => Some(*p),
            None => None,
        }, *progress) {
            Some(problem) => r matches Some(ds) && ds@.len() == 1 && agent_issue(ds@[0], problem.0, problem.1),
            None => r is None,
        },
{
    let (code, message) = if message_unsafe(progress.message.as_str()) {
        ("AGENT_PROGRESS_INVALID", "progress messages must contain at most 512 safe bytes")
    } else if progress.total != request.total_batches {
        ("AGENT_PROGRESS_TOTAL_MISMATCH", "batch progress total must match the run declaration")
    } else if match progress.total {
        Some(t) => progress.completed > t,
        None => false,
    } {
        ("AGENT_PROGRESS_INVALID", "completed progress cannot exceed the declared total")
    } else if match previous {
        Some(p) => progress.completed < p.completed,
        None => false,
    } {
        ("AGENT_PROGRESS_REGRESSION", "progress cannot move backwards within one agent run")
    } else {
        return None;
    };
    let mut ds: Vec<DesignerDiagnostic> = Vec::new();
    ds.push(agent_diagnostic(code, message));
    Some(ds)
}

/// The decision at a batch boundary, before any session call.
#[derive(Debug, PartialEq, Eq)]
pub enum BatchAdmission {
    /// The run is not admitted in this channel.
    RunNotFound,
    /// The run was cancelled before this batch boundary.
    Cancelled(AgentCancellation),
    /// The batch is refused with these diagnostics.
    Rejected(Vec<DesignerDiagnostic>),
    /// The batch may be submitted to the session.
    Admitted,
}

/// Whether a batch's undo group conflicts with the group a run has fixed.
pub open spec fn undo_group_conflicts(v: RunView, batch: CommandBatch) -> bool {
    v.4 matches Some(g) && (g@ != batch.undo_group_id@ || !(v.5 matches Some(n) && n == batch.undo_group_name@))
}

/// The run state after a batch is admitted: the batch's progress becomes the
/// last progress, and the batch fixes the run's undo group if it had none.
pub open spec fn admitted(v: RunView, batch: CommandBatch, progress: AgentProgress) -> RunView {
    if v.4 is Some {
        (v.0, v.1, v.2, Some(progress), v.4, v.5)
    } else {
        (v.0, v.1, v.2, Some(progress), Some(batch.undo_group_id), Some(batch.undo_group_name@))
    }
}

/// Whether the event log grew by one failure event for a batch.
pub open spec fn failure_emitted(before: Seq<AgentEvent>, after: Seq<AgentEvent>, run_id: AgentRunId, operation_id: OperationId, ds: Seq<DesignerDiagnostic>) -> bool {
    &&& after.len() == before.len() + 1
    &&& after.drop_last() == before
    &&& after.last() matches AgentEvent::Failure { run_id: rid, operation_id: oid, diagnostics } && rid == run_id && oid == operation_id && diagnostics@ == ds
}


/// The project summary an agent reads: identity, name, revision, screen
/// order and the number of nodes, compositions and tokens.
pub fn project_summary(snapshot: &StudioDesignSnapshot) -> (r: AgentProjectSummary)
    ensures
        r.project_id == snapshot.design.project_id,
        r.name@ == snapshot.design.name@,
        r.revision_id == snapshot.revision.id,
        r.screen_ids@ == snapshot.design.screen_order@,
        r.node_count == snapshot.design.nodes.entry_seq().len(),
        r.composition_count == snapshot.design.compositions.entry_seq().len(),
        r.token_count == snapshot.design.tokens.entry_seq().len(),
{
    let design = &snapshot.design;
    AgentProjectSummary {
        project_id: design.project_id.copy(),
        name: design.name.clone(),
        revision_id: snapshot.revision.id,
        screen_ids: crate::model::copy_ids(&design.screen_order),
        node_count: design.nodes.len(),
        composition_count: design.compositions.len(),
        token_count: design.tokens.len(),
    }
}

/// The outcome of a batch that a boundary decision refused.
pub open spec fn refusal_outcome(admission: BatchAdmission) -> AgentBatchOutcome {
    match admission {
        BatchAdmission::RunNotFound => AgentBatchOutcome::RunNotFound,
        BatchAdmission::Cancelled(c) => AgentBatchOutcome::Cancelled(c),
        BatchAdmission::Rejected(ds) => AgentBatchOutcome::Rejected(ds),
        BatchAdmission::Admitted => AgentBatchOutcome::RunNotFound,
    }
}

/// The result of a batch refused at its boundary: the refusal as outcome and
/// no check feedback. An admitted batch has no such result.
pub fn refused_result(run_id: &AgentRunId, operation_id: &OperationId, progress: &AgentProgress, admission: BatchAdmission) -> (r: Option<AgentBatchResult>)
    ensures
        admission is Admitted ==> r is None,
        !(admission is Admitted) ==> (r matches Some(res) && res.run_id == *run_id && res.operation_id == *operation_id
            && res.progress == *progress && res.outcome == refusal_outcome(admission) && res.check.diagnostics@.len() == 0),
{
    let outcome = match admission {
        BatchAdmission::RunNotFound => AgentBatchOutcome::RunNotFound,
        BatchAdmission::Cancelled(c) => AgentBatchOutcome::Cancelled(c),
        BatchAdmission::Rejected(ds) => AgentBatchOutcome::Rejected(ds),
        BatchAdmission::Admitted => {
            return None;
        },
    };
    Some(AgentBatchResult {
        run_id: run_id.copy(),
        operation_id: operation_id.copy(),
        progress: progress.copy(),
        outcome,
        check: AgentCheckFeedback { diagnostics: Vec::new() },
    })
}

/// The diagnostics of one severity, in order.
pub open spec fn with_severity(ds: Seq<DesignerDiagnostic>, severity: DiagnosticSeverity) -> Seq<DesignerDiagnostic>
    decreases ds.len(),
{
    if ds.len() == 0 {
        Seq::empty()
    } else if ds.last().severity == severity {
        with_severity(ds.drop_last(), severity).push(ds.last())
    } else {
        with_severity(ds.drop_last(), severity)
    }
}

fn select_severity(ds: &Vec<DesignerDiagnostic>, severity: DiagnosticSeverity) -> (r: Vec<DesignerDiagnostic>)
    ensures
        r@ == with_severity(ds@, severity),
{
    let mut out: Vec<DesignerDiagnostic> = Vec::new();
    let mut i: usize = 0;
    while i < ds.len()
        invariant
            i <= ds@.len(),
            out@ == with_severity(ds@.take(i as int), severity),
        decreases ds@.len() - i,
    {
        assert(ds@.take(i + 1).drop_last() =~= ds@.take(i as int));
        if ds[i].severity == severity {
            out.push(ds[i].copy());
        }
        i = i + 1;
    }
    assert(ds@.take(i as int) =~= ds@);
    out
}

/// The events that report a check: its warnings, then its errors, each only
/// where there is one.
pub open spec fn check_events(run_id: AgentRunId, operation_id: OperationId, ds: Seq<DesignerDiagnostic>, events: Seq<AgentEvent>) -> bool {
    let warnings = with_severity(ds, DiagnosticSeverity::Warning);
    let errors = with_severity(ds, DiagnosticSeverity::Error);
    &&& events.len() == (if warnings.len() > 0 { 1int } else { 0int }) + (if errors.len() > 0 { 1int } else { 0int })
    &&& warnings.len() > 0 ==> (events[0] matches AgentEvent::Warning { run_id: a, operation_id: b, diagnostics: c }
        && a == run_id && b == operation_id && c@ == warnings)
    &&& errors.len() > 0 ==> (events.last() matches AgentEvent::Failure { run_id: a, operation_id: b, diagnostics: c }
        && a == run_id && b == operation_id && c@ == errors)
}

/// The context of a session conflict, kept for the agent.
#[derive(Debug)]
pub struct ConflictContext {
    pub attempted: CommandBatch,
    pub current: StudioDesignSnapshot,
    pub intervening: Vec<AppliedBatch>,
}

impl<S, C: AgentChecker, E: AgentEventSink> LiveAgentChannel<S, C, E> {
    /// Decide whether a streamed batch may reach the session: a known run
    /// that is not cancelled, with valid progress, the run's actor and the
    /// run's undo group. An admitted batch fixes the run's undo group if it
    /// had none and becomes the run's last progress.
    pub fn admit_batch(&mut self, run_id: &AgentRunId, batch: &CommandBatch, progress: &AgentProgress) -> (r: BatchAdmission)
        ensures
            final(self).session_view() == old(self).session_view(),
            final(self).checker_view() == old(self).checker_view(),
            !old(self).runs().contains_key(run_id@) ==> r == BatchAdmission::RunNotFound && final(self).runs() == old(self).runs()
                && final(self).events() == old(self).events(),
            old(self).runs().contains_key(run_id@) ==> {
                let v = old(self).runs()[run_id@];
                let problem = progress_problem(v.0, v.3, *progress);
                if v.1 {
                    &&& r matches BatchAdmission::Cancelled(c) && c.run_id@ == run_id@ && c.operation_id == batch.operation_id
                        && c.message@ == "the agent run was cancelled before this batch boundary"@
                    &&& final(self).runs() == old(self).runs()
                    &&& final(self).events() == old(self).events().push(AgentEvent::BatchCancelled { run_id: *run_id, operation_id: batch.operation_id })
                } else if problem is Some {
                    let pr = problem->0;
                    &&& r matches BatchAdmission::Rejected(ds) && ds@.len() == 1 && agent_issue(ds@[0], pr.0, pr.1)
                        && failure_emitted(old(self).events(), final(self).events(), *run_id, batch.operation_id, ds@)
                    &&& final(self).runs() == old(self).runs()
                } else if !same_actor(batch.actor, v.0.actor) {
                    &&& r matches BatchAdmission::Rejected(ds) && ds@.len() == 1 && agent_issue(ds@[0], "AGENT_ACTOR_MISMATCH"@,
                        "a streamed batch actor must match the actor that started the run"@)
                        && failure_emitted(old(self).events(), final(self).events(), *run_id, batch.operation_id, ds@)
                    &&& final(self).runs() == old(self).runs()
                } else if undo_group_conflicts(v, *batch) {
                    &&& r matches BatchAdmission::Rejected(ds) && ds@.len() == 1 && agent_issue(ds@[0], "AGENT_UNDO_GROUP_MISMATCH"@,
                        "all batches in one agent run must share one undo-group identity and name"@)
                        && failure_emitted(old(self).events(), final(self).events(), *run_id, batch.operation_id, ds@)
                    &&& final(self).runs() == old(self).runs()
                } else {
                    &&& r == BatchAdmission::Admitted
                    &&& final(self).runs() == old(self).runs().insert(run_id@, admitted(v, *batch, *progress))
                    &&& final(self).events() == old(self).events().push(
                        AgentEvent::Progress { run_id: *run_id, operation_id: batch.operation_id, progress: *progress })
                }
            },
    {
        let found = self.runs.remove(run_id.as_str());
        let ghost before = old(self).runs@;
        match found {
            None => {
                assert(self.runs() =~= old(self).runs());
                BatchAdmission::RunNotFound
            },
            Some(run) => {
                if run.cancelled {
                    self.runs.insert(run_id.copy(), run);
                    assert(self.runs() =~= old(self).runs());
                    self.emit_event(AgentEvent::BatchCancelled { run_id: run_id.copy(), operation_id: batch.operation_id.copy() });
                    return BatchAdmission::Cancelled(AgentCancellation {
                        run_id: run_id.copy(),
                        operation_id: batch.operation_id.copy(),
                        message: String::from_str("the agent run was cancelled before this batch boundary"),
                    });
                }
                let problem = validate_progress(&run.request, match &run.last_progress {
                    Some(p) => Some(p),
                    None => None,
                }, progress);
                let mut refusal: Option<Vec<DesignerDiagnostic>> = problem;
                if refusal.is_none() && !actors_equal(&batch.actor, &run.request.actor) {
                    let mut ds: Vec<DesignerDiagnostic> = Vec::new();
                    ds.push(agent_diagnostic("AGENT_ACTOR_MISMATCH", "a streamed batch actor must match the actor that started the run"));
                    refusal = Some(ds);
                }
                if refusal.is_none() {
                    let conflicts = match &run.undo_group_id {
                        Some(g) => !g.same(&batch.undo_group_id) || !match &run.undo_group_name {
                            Some(n) => crate::text::str_eq(n.as_str(), batch.undo_group_name.as_str()),
                            None => false,
                        },
                        None => false,
                    };
                    if conflicts {
                        let mut ds: Vec<DesignerDiagnostic> = Vec::new();
                        ds.push(agent_diagnostic("AGENT_UNDO_GROUP_MISMATCH", "all batches in one agent run must share one undo-group identity and name"));
                        refusal = Some(ds);
                    }
                }
                match refusal {
                    Some(ds) => {
                        self.runs.insert(run_id.copy(), run);
                        assert(self.runs() =~= old(self).runs());
                        let copies = copy_diagnostics(&ds);
                        self.emit_event(AgentEvent::Failure { run_id: run_id.copy(), operation_id: batch.operation_id.copy(), diagnostics: copies });
                        assert(self.events().drop_last() =~= old(self).events());
                        BatchAdmission::Rejected(ds)
                    },
                    None => {
                        let (undo_group_id, undo_group_name) = match run.undo_group_id {
                            Some(g) => (Some(g), run.undo_group_name),
                            None => (Some(batch.undo_group_id.copy()), Some(batch.undo_group_name.clone())),
                        };
                        let updated = RunState {
                            request: run.request,
                            cancelled: run.cancelled,
                            accepted_operations: run.accepted_operations,
                            last_progress: Some(progress.copy()),
                            undo_group_id,
                            undo_group_name,
                        };
                        self.runs.insert(run_id.copy(), updated);
                        assert(self.runs() =~= old(self).runs().insert(run_id@, admitted(old(self).runs()[run_id@], *batch, *progress)));
                        self.emit_event(AgentEvent::Progress { run_id: run_id.copy(), operation_id: batch.operation_id.copy(), progress: progress.copy() });
                        BatchAdmission::Admitted
                    },
                }
            },
        }
    }

    /// Conclude a batch the session answered: an accepted batch is recorded
    /// against its run and checked on the committed snapshot (feedback saying
    /// the check was unavailable where no snapshot could be read), then
    /// reported by an acceptance event, a check event, and a warning and a
    /// failure event for the check's warnings and errors where it has them.
    /// A rejection or a persistence failure is reported by a failure event, a
    /// conflict by a conflict event; none of them changes the runs or carries
    /// check feedback.
    pub fn conclude_batch(
        &mut self,
        run_id: &AgentRunId,
        operation_id: &OperationId,
        progress: &AgentProgress,
        outcome: CommandOutcome,
        committed: Option<&StudioDesignSnapshot>,
        context: ConflictContext,
    ) -> (r: AgentBatchResult)
        ensures
            final(self).session_view() == old(self).session_view(),
            r.run_id == *run_id,
            r.operation_id == *operation_id,
            r.progress == *progress,
            match outcome {
                CommandOutcome::Accepted(receipt) => {
                    let n = old(self).events().len() as int;
                    let ev = final(self).events();
                    &&& r.outcome == AgentBatchOutcome::Accepted(receipt)
                    &&& committed is None ==> r.check.diagnostics@.len() == 1 && agent_issue(
                        r.check.diagnostics@[0],
                        "AGENT_CHECK_UNAVAILABLE"@,
                        "the committed snapshot could not be read for studio check"@,
                    )
                    &&& old(self).runs().contains_key(run_id@) ==> {
                        let v = old(self).runs()[run_id@];
                        final(self).runs() == old(self).runs().insert(run_id@, (v.0, v.1, v.2.push(receipt.operation_id), v.3, v.4, v.5))
                    }
                    &&& !old(self).runs().contains_key(run_id@) ==> final(self).runs() == old(self).runs()
                    &&& ev.len() >= n + 2
                    &&& ev.take(n) == old(self).events()
                    &&& ev[n] matches AgentEvent::BatchAccepted { run_id: a, receipt: x, progress: p } && a == *run_id
                        && same_receipt(x, receipt) && p == *progress
                    &&& ev[n + 1] matches AgentEvent::CheckCompleted { run_id: a, operation_id: b, feedback: f } && a == *run_id
                        && b == *operation_id && f.diagnostics@ == r.check.diagnostics@
                    &&& check_events(*run_id, *operation_id, r.check.diagnostics@, ev.skip(n + 2))
                },
                CommandOutcome::Rejected(ds) => {
                    &&& r.outcome == AgentBatchOutcome::Rejected(ds)
                    &&& r.check.diagnostics@.len() == 0
                    &&& final(self).runs() == old(self).runs()
                    &&& failure_emitted(old(self).events(), final(self).events(), *run_id, *operation_id, ds@)
                },
                CommandOutcome::Conflict(c) => {
                    &&& r.outcome matches AgentBatchOutcome::Conflict(ac) && ac.conflict == c && ac.attempted == context.attempted
                        && ac.current == context.current && ac.intervening == context.intervening
                    &&& r.check.diagnostics@.len() == 0
                    &&& final(self).runs() == old(self).runs()
                    &&& final(self).events().len() == old(self).events().len() + 1
                    &&& final(self).events().drop_last() == old(self).events()
                    &&& final(self).events().last() matches AgentEvent::Conflict { run_id: a, .. } && a == *run_id
                },
                CommandOutcome::PersistenceFailed(e) => {
                    &&& r.outcome == AgentBatchOutcome::PersistenceFailed(e)
                    &&& r.check.diagnostics@.len() == 0
                    &&& final(self).runs() == old(self).runs()
                    &&& exists|ds: Seq<DesignerDiagnostic>| #![trigger failure_emitted(old(self).events(), final(self).events(), *run_id, *operation_id, ds)]
                        failure_emitted(old(self).events(), final(self).events(), *run_id, *operation_id, ds)
                        && ds.len() == 1 && agent_issue(ds[0], "AGENT_PERSISTENCE_FAILED"@, e.message@)
                },
            },
    {
        match outcome {
            CommandOutcome::Accepted(receipt) => {
                let check = match committed {
                    Some(snapshot) => self.checker.check(snapshot),
                    None => {
                        let mut ds: Vec<DesignerDiagnostic> = Vec::new();
                        ds.push(agent_diagnostic("AGENT_CHECK_UNAVAILABLE", "the committed snapshot could not be read for studio check"));
                        AgentCheckFeedback { diagnostics: ds }
                    },
                };
                self.record_accepted(run_id, &receipt.operation_id);
                let ghost n: int = old(self).events().len() as int;
                let ghost runs1 = self.runs();
                self.emit_event(AgentEvent::BatchAccepted { run_id: run_id.copy(), receipt: receipt.copy(), progress: progress.copy() });
                self.emit_event(AgentEvent::CheckCompleted {
                    run_id: run_id.copy(),
                    operation_id: operation_id.copy(),
                    feedback: AgentCheckFeedback { diagnostics: copy_diagnostics(&check.diagnostics) },
                });
                let ghost mid = self.events();
                let warnings = select_severity(&check.diagnostics, DiagnosticSeverity::Warning);
                if warnings.len() > 0 {
                    self.emit_event(AgentEvent::Warning { run_id: run_id.copy(), operation_id: operation_id.copy(), diagnostics: warnings });
                }
                let errors = select_severity(&check.diagnostics, DiagnosticSeverity::Error);
                if errors.len() > 0 {
                    self.emit_event(AgentEvent::Failure { run_id: run_id.copy(), operation_id: operation_id.copy(), diagnostics: errors });
                }
                proof {
                    let ev = self.events();
                    assert(ev.take(n) =~= old(self).events());
                    assert(ev.skip(n + 2) =~= ev.subrange(n + 2, ev.len() as int));
                    assert(ev[n] == mid[n]);
                    assert(ev[n + 1] == mid[n + 1]);
                }
                AgentBatchResult {
                    run_id: run_id.copy(),
                    operation_id: operation_id.copy(),
                    progress: progress.copy(),
                    outcome: AgentBatchOutcome::Accepted(receipt),
                    check,
                }
            },
            CommandOutcome::Rejected(ds) => {
                let copies = copy_diagnostics(&ds);
                self.emit_event(AgentEvent::Failure { run_id: run_id.copy(), operation_id: operation_id.copy(), diagnostics: copies });
                assert(self.events().drop_last() =~= old(self).events());
                AgentBatchResult {
                    run_id: run_id.copy(),
                    operation_id: operation_id.copy(),
                    progress: progress.copy(),
                    outcome: AgentBatchOutcome::Rejected(ds),
                    check: AgentCheckFeedback { diagnostics: Vec::new() },
                }
            },
            CommandOutcome::Conflict(c) => {
                let ConflictContext { attempted, current, intervening } = context;
                let conflict = AgentConflict { conflict: c, attempted, current, intervening };
                let reported = AgentConflict {
                    conflict: conflict.conflict.clone(),
                    attempted: conflict.attempted.clone(),
                    current: conflict.current.clone(),
                    intervening: conflict.intervening.clone(),
                };
                self.emit_event(AgentEvent::Conflict { run_id: run_id.copy(), conflict: Box::new(reported) });
                assert(self.events().drop_last() =~= old(self).events());
                AgentBatchResult {
                    run_id: run_id.copy(),
                    operation_id: operation_id.copy(),
                    progress: progress.copy(),
                    outcome: AgentBatchOutcome::Conflict(Box::new(conflict)),
                    check: AgentCheckFeedback { diagnostics: Vec::new() },
                }
            },
            CommandOutcome::PersistenceFailed(e) => {
                let mut ds: Vec<DesignerDiagnostic> = Vec::new();
                ds.push(agent_diagnostic("AGENT_PERSISTENCE_FAILED", e.message.as_str()));
                let ghost dv = ds@;
                self.emit_event(AgentEvent::Failure { run_id: run_id.copy(), operation_id: operation_id.copy(), diagnostics: ds });
                assert(self.events().drop_last() =~= old(self).events());
                assert(failure_emitted(old(self).events(), self.events(), *run_id, *operation_id, dv));
                AgentBatchResult {
                    run_id: run_id.copy(),
                    operation_id: operation_id.copy(),
                    progress: progress.copy(),
                    outcome: AgentBatchOutcome::PersistenceFailed(e),
                    check: AgentCheckFeedback { diagnostics: Vec::new() },
                }
            },
        }
    }

    /// Report that the session could not be read at a batch boundary: the
    /// batch is rejected with a failure event and no check feedback.
    pub fn internal_failure(&mut self, run_id: &AgentRunId, operation_id: &OperationId, progress: &AgentProgress) -> (r: AgentBatchResult)
        ensures
            final(self).session_view() == old(self).session_view(),
            final(self).runs() == old(self).runs(),
            r.run_id == *run_id,
            r.operation_id == *operation_id,
            r.progress == *progress,
            r.check.diagnostics@.len() == 0,
            r.outcome matches AgentBatchOutcome::Rejected(ds) && ds@.len() == 1 && agent_issue(
                ds@[0],
                "AGENT_SESSION_QUERY_FAILED"@,
                "the host could not read the active Designer session"@,
            ) && failure_emitted(old(self).events(), final(self).events(), *run_id, *operation_id, ds@),
    {
        let mut ds: Vec<DesignerDiagnostic> = Vec::new();
        ds.push(agent_diagnostic("AGENT_SESSION_QUERY_FAILED", "the host could not read the active Designer session"));
        let copies = copy_diagnostics(&ds);
        self.emit_event(AgentEvent::Failure { run_id: run_id.copy(), operation_id: operation_id.copy(), diagnostics: copies });
        assert(self.events().drop_last() =~= old(self).events());
        AgentBatchResult {
            run_id: run_id.copy(),
            operation_id: operation_id.copy(),
            progress: progress.copy(),
            outcome: AgentBatchOutcome::Rejected(ds),
            check: AgentCheckFeedback { diagnostics: Vec::new() },
        }
    }

    /// Record an operation the session accepted for a run.
    pub fn record_accepted(&mut self, run_id: &AgentRunId, operation_id: &OperationId)
        ensures
            final(self).session_view() == old(self).session_view(),
            old(self).runs().contains_key(run_id@) ==> {
                let v = old(self).runs()[run_id@];
                final(self).runs() == old(self).runs().insert(run_id@, (v.0, v.1, v.2.push(*operation_id), v.3, v.4, v.5))
            },
            !old(self).runs().contains_key(run_id@) ==> final(self).runs() == old(self).runs(),
            final(self).events() == old(self).events(),
    {
        match self.runs.remove(run_id.as_str()) {
            Some(run) => {
                let mut accepted = run.accepted_operations;
                accepted.push(operation_id.copy());
                let updated = RunState { accepted_operations: accepted, ..run };
                self.runs.insert(run_id.copy(), updated);
                let ghost v = old(self).runs()[run_id@];
                assert(self.runs() =~= old(self).runs().insert(run_id@, (v.0, v.1, v.2.push(*operation_id), v.3, v.4, v.5)));
            },
            None => {
                assert(self.runs() =~= old(self).runs());
            },
        }
    }
}

/// Equality of actors by identity, kind and display name.
pub open spec fn same_actor(a: Actor, b: Actor) -> bool {
    a.id@ == b.id@ && a.kind == b.kind && a.display_name@ == b.display_name@
}

fn actors_equal(a: &Actor, b: &Actor) -> (r: bool)
    ensures
        r == same_actor(*a, *b),
{
    a.id.same(&b.id) && a.kind == b.kind && crate::text::str_eq(a.display_name.as_str(), b.display_name.as_str())
}

fn copy_diagnostics(ds: &Vec<DesignerDiagnostic>) -> (r: Vec<DesignerDiagnostic>)
    ensures
        r@ == ds@,
{
    let mut out: Vec<DesignerDiagnostic> = Vec::new();
    let mut i: usize = 0;
    while i < ds.len()
        invariant
            i <= ds@.len(),
            out@ == ds@.take(i as int),
        decreases ds@.len() - i,
    {
        out.push(ds[i].copy());
        assert(out@ =~= ds@.take(i + 1));
        i = i + 1;
    }
    assert(ds@.take(ds@.len() as int) == ds@);
    out
}

/// The preconditions every command schema supports.
pub open spec fn supported_preconditions() -> Seq<Seq<char>> {
    seq!["node_exists"@, "node_missing"@, "parent_equals"@, "child_index_equals"@, "property_equals"@]
}

/// The commands of the channel vocabulary with their required fields.
pub open spec fn command_vocabulary() -> Seq<(Seq<char>, Seq<Seq<char>>)> {
    seq![
        ("insert_node"@, seq!["parent"@, "node"@]),
        ("move_node"@, seq!["node_id"@, "destination"@]),
        ("reorder_node"@, seq!["node_id"@, "index"@]),
        ("duplicate_node"@, seq!["source_node_id"@, "destination"@, "id_map"@]),
        ("delete_node"@, seq!["node_id"@]),
        ("restore_node"@, seq!["tombstone"@]),
        ("set_property"@, seq!["node_id"@, "property"@, "value"@]),
        ("rename_node"@, seq!["node_id"@, "name"@])
    ]
}

/// The text of each string.
pub open spec fn texts(v: Seq<String>) -> Seq<Seq<char>> {
    v.map_values(|s: String| s@)
}

fn owned_all(parts: &[&str]) -> (r: Vec<String>)
    ensures
        texts(r@) == parts@.map_values(|p: &str| p@),
{
    let mut out: Vec<String> = Vec::new();
    let mut i: usize = 0;
    while i < parts.len()
        invariant
            i <= parts@.len(),
            texts(out@) == parts@.take(i as int).map_values(|p: &str| p@),
        decreases parts@.len() - i,
    {
        let ghost before = out@;
        let item = String::from_str(parts[i]);
        out.push(item);
        assert(out@ == before.push(item));
        assert(texts(out@) =~= texts(before).push(item@));
        assert(parts@.take(i + 1).map_values(|p: &str| p@) =~= parts@.take(i as int).map_values(|p: &str| p@).push(parts@[i as int]@));
        i = i + 1;
    }
    assert(parts@.take(parts@.len() as int) == parts@);
    out
}

fn command_schema(name: &str, required: &[&str]) -> (r: AgentCommandSchema)
    ensures
        r.name@ == name@,
        texts(r.required_fields@) == required@.map_values(|p: &str| p@),
        texts(r.supported_preconditions@) == supported_preconditions(),
{
    let conditions: [&str; 5] = ["node_exists", "node_missing", "parent_equals", "child_index_equals", "property_equals"];
    let supported = owned_all(&conditions);
    assert(conditions@.map_values(|p: &str| p@) =~= supported_preconditions());
    AgentCommandSchema { name: String::from_str(name), required_fields: owned_all(required), supported_preconditions: supported }
}

/// The typed command vocabulary available through the channel.
pub fn command_schemas() -> (r: AgentSchemaSnapshot)
    ensures
        r.schema_version == STUDIO_DESIGN_SCHEMA_VERSION,
        r.commands@.len() == command_vocabulary().len(),
        forall|i: int| 0 <= i < r.commands@.len() ==> {
            &&& (#[trigger] r.commands@[i]).name@ == command_vocabulary()[i].0
            &&& texts(r.commands@[i].required_fields@) == command_vocabulary()[i].1
            &&& texts(r.commands@[i].supported_preconditions@) == supported_preconditions()
        },
{
    let mut commands: Vec<AgentCommandSchema> = Vec::new();
    commands.push(command_schema("insert_node", &["parent", "node"]));
    commands.push(command_schema("move_node", &["node_id", "destination"]));
    commands.push(command_schema("reorder_node", &["node_id", "index"]));
    commands.push(command_schema("duplicate_node", &["source_node_id", "destination", "id_map"]));
    commands.push(command_schema("delete_node", &["node_id"]));
    commands.push(command_schema("restore_node", &["tombstone"]));
    commands.push(command_schema("set_property", &["node_id", "property", "value"]));
    commands.push(command_schema("rename_node", &["node_id", "name"]));
    proof {
        assert forall|i: int| 0 <= i < commands@.len() implies {
            &&& (#[trigger] commands@[i]).name@ == command_vocabulary()[i].0
            &&& texts(commands@[i].required_fields@) == command_vocabulary()[i].1
            &&& texts(commands@[i].supported_preconditions@) == supported_preconditions()
        } by {
            if i == 0 {} else if i == 1 {} else if i == 2 {} else if i == 3 {} else if i == 4 {} else if i == 5 {} else if i == 6 {} else {}
        }
    }
    AgentSchemaSnapshot { schema_version: STUDIO_DESIGN_SCHEMA_VERSION, commands }
}

/// Whether a history holds an applied batch with the operation identity.
pub open spec fn history_holds(history: HistorySnapshot, operation_id: Seq<char>) -> bool {
    exists|i: int, j: int|
        0 <= i < history.entries@.len() && 0 <= j < history.entries@[i].batches@.len()
            && (#[trigger] history.entries@[i].batches@[j]).batch.operation_id@ == operation_id
}

/// Whether the history already holds an operation, so that a retried batch
/// needs no stale-base analysis.
pub fn history_has_operation(history: &HistorySnapshot, operation_id: &OperationId) -> (r: bool)
    ensures
        r == history_holds(*history, operation_id@),
{
    let mut i: usize = 0;
    while i < history.entries.len()
        invariant
            i <= history.entries@.len(),
            forall|a: int, b: int| 0 <= a < i && 0 <= b < history.entries@[a].batches@.len() ==> (#[trigger] history.entries@[a].batches@[b]).batch.operation_id@ != operation_id@,
        decreases history.entries@.len() - i,
    {
        let entry = &history.entries[i];
        let mut j: usize = 0;
        while j < entry.batches.len()
            invariant
                i < history.entries@.len(),
                *entry == history.entries@[i as int],
                j <= entry.batches@.len(),
                forall|a: int, b: int| 0 <= a < i && 0 <= b < history.entries@[a].batches@.len() ==> (#[trigger] history.entries@[a].batches@[b]).batch.operation_id@ != operation_id@,
                forall|b: int| 0 <= b < j ==> (#[trigger] entry.batches@[b]).batch.operation_id@ != operation_id@,
            decreases entry.batches@.len() - j,
        {
            if entry.batches[j].batch.operation_id.same(operation_id) {
                return true;
            }
            j = j + 1;
        }
        i = i + 1;
    }
    false
}

} // verus!
