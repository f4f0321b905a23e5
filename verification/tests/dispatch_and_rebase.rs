use studio_design::{
    AgentBatchOutcome, AgentProgress, AgentRunId, AgentRunRequest, AppliedBatch, BatchAdmission, Command, CommandBatch,
    CommandOutcome, CommandReceipt, ConflictContext, DesignNode, DesignerScope, HistoryEntry, HistoryOperation,
    HistorySnapshot, LiveAgentChannel, McpClient, NodeId, NodeKind, NodeParent, OperationId, ParentPlacement,
    PersistenceError, PersistenceErrorCode, ProjectId, PropertyValue, RevisionId, RevisionMetadata, RevisionReason,
    STUDIO_DESIGN_SCHEMA_VERSION, Screen, ScreenId, StaleDecision, StudioDesign, StudioDesignSnapshot, UndoGroupId,
    apply_command, apply_commands, refused_result, stale_batch_decision,
};
use studio_design::{Actor, ActorId, ActorKind, OrderedMap};

fn nid(s: &str) -> NodeId {
    NodeId::new(s).unwrap()
}

fn actor(kind: ActorKind) -> Actor {
    Actor { id: ActorId::new("someone").unwrap(), kind, display_name: "Someone".to_owned() }
}

/// A screen `home` whose root `root` holds children a, b and c.
fn tree() -> StudioDesign {
    let mut design = StudioDesign::empty(ProjectId::new("project").unwrap(), "Demo");
    design.screens.insert(
        ScreenId::new("home").unwrap(),
        Screen {
            schema_version: STUDIO_DESIGN_SCHEMA_VERSION,
            id: ScreenId::new("home").unwrap(),
            name: "Home".to_owned(),
            route: "/".to_owned(),
            root_node_id: nid("root"),
        },
    );
    design.screen_order.push(ScreenId::new("home").unwrap());
    let mut root = DesignNode::primitive(nid("root"), "Root", NodeKind::Column);
    root.children = vec![nid("a"), nid("b"), nid("c")];
    design.nodes.insert(nid("root"), root);
    design.parents.insert(nid("root"), NodeParent::Screen { screen_id: ScreenId::new("home").unwrap() });
    for id in ["a", "b", "c"] {
        design.nodes.insert(nid(id), DesignNode::primitive(nid(id), id, NodeKind::Box));
        design.parents.insert(nid(id), NodeParent::Node { node_id: nid("root") });
    }
    design
}

fn snapshot(revision: u64) -> StudioDesignSnapshot {
    StudioDesignSnapshot {
        revision: RevisionMetadata {
            id: RevisionId::new(revision),
            parent_id: None,
            operation_id: OperationId::new("op").unwrap(),
            actor: actor(ActorKind::Human),
            undo_group_id: UndoGroupId::new("g").unwrap(),
            undo_group_name: "Edit".to_owned(),
            reason: RevisionReason::Command,
        },
        design: tree(),
        tombstones: OrderedMap::new(),
    }
}

fn batch(op: &str, base: u64, commands: Vec<Command>) -> CommandBatch {
    CommandBatch {
        schema_version: STUDIO_DESIGN_SCHEMA_VERSION,
        operation_id: OperationId::new(op).unwrap(),
        actor: actor(ActorKind::Agent),
        project_id: ProjectId::new("project").unwrap(),
        base_revision: RevisionId::new(base),
        undo_group_id: UndoGroupId::new("group").unwrap(),
        undo_group_name: "Agent edit".to_owned(),
        preconditions: Vec::new(),
        commands,
    }
}

fn set_label(node: &str, text: &str) -> Command {
    Command::SetProperty {
        node_id: nid(node),
        property: "label".to_owned(),
        value: Some(PropertyValue::String(text.to_owned())),
    }
}

fn history_with(batch: CommandBatch, committed: u64) -> HistorySnapshot {
    HistorySnapshot {
        entries: vec![HistoryEntry {
            undo_group_id: UndoGroupId::new("earlier").unwrap(),
            name: "Earlier".to_owned(),
            batches: vec![AppliedBatch { batch, inverse_commands: Vec::new(), committed_revision: RevisionId::new(committed) }],
        }],
        cursor: 1,
    }
}

#[test]
fn apply_command_edits_and_its_inverse_restores() {
    let mut design = tree();
    let inverse = apply_command(&mut design, set_label("a", "Hello")).unwrap();
    assert_eq!(design.nodes.get("a").unwrap().properties.get("label"), Some(&PropertyValue::String("Hello".to_owned())));
    match &inverse {
        Command::SetProperty { node_id, property, value } => {
            assert_eq!(node_id.as_str(), "a");
            assert_eq!(property, "label");
            assert!(value.is_none());
        }
        other => panic!("unexpected inverse {other:?}"),
    }
    apply_command(&mut design, inverse).unwrap();
    assert!(design.nodes.get("a").unwrap().properties.get("label").is_none());
}

#[test]
fn apply_command_refuses_unknown_nodes_and_unhandled_commands() {
    let mut design = tree();
    let err = apply_command(&mut design, set_label("ghost", "x")).unwrap_err();
    assert_eq!(err.code, "DESIGN_NODE_MISSING");
    let err = apply_command(&mut design, Command::DeleteNode { node_id: nid("a") }).unwrap_err();
    assert_eq!(err.code, "DESIGN_COMMAND_UNSUPPORTED");
    assert!(design.nodes.contains_key("a"));
}

#[test]
fn apply_commands_returns_inverses_last_first() {
    let mut design = tree();
    let commands = vec![
        Command::RenameNode { node_id: nid("a"), name: "First".to_owned() },
        Command::ReorderNode { node_id: nid("c"), index: 0 },
    ];
    let inverses = apply_commands(&mut design, commands).unwrap();
    assert_eq!(inverses.len(), 2);
    assert!(matches!(&inverses[0], Command::ReorderNode { node_id, index: 2 } if node_id.as_str() == "c"));
    assert!(matches!(&inverses[1], Command::RenameNode { node_id, name } if node_id.as_str() == "a" && name == "a"));
    let order: Vec<String> =
        design.nodes.get("root").unwrap().children.iter().map(|c| c.as_str().to_owned()).collect();
    assert_eq!(order, vec!["c", "a", "b"]);
    apply_commands(&mut design, inverses).unwrap();
    let order: Vec<String> =
        design.nodes.get("root").unwrap().children.iter().map(|c| c.as_str().to_owned()).collect();
    assert_eq!(order, vec!["a", "b", "c"]);
    assert_eq!(design.nodes.get("a").unwrap().name, "a");
}

#[test]
fn apply_commands_stops_at_the_first_refusal() {
    let mut design = tree();
    let commands = vec![
        Command::RenameNode { node_id: nid("a"), name: "Kept".to_owned() },
        set_label("ghost", "x"),
        Command::RenameNode { node_id: nid("b"), name: "Never".to_owned() },
    ];
    let errors = apply_commands(&mut design, commands).unwrap_err();
    assert_eq!(errors.len(), 1);
    assert_eq!(errors[0].code, "DESIGN_NODE_MISSING");
    assert_eq!(design.nodes.get("a").unwrap().name, "Kept");
    assert_eq!(design.nodes.get("b").unwrap().name, "b");
}

#[test]
fn fresh_batches_are_submitted_unchanged() {
    let current = snapshot(3);
    let history = HistorySnapshot { entries: Vec::new(), cursor: 0 };
    match stale_batch_decision(batch("op-new", 3, vec![set_label("a", "x")]), &current, &history) {
        StaleDecision::Submit { batch, intervening } => {
            assert_eq!(batch.base_revision, RevisionId::new(3));
            assert!(intervening.is_empty());
        }
        other => panic!("unexpected decision {other:?}"),
    }
}

#[test]
fn stale_batches_without_intervening_history_conflict() {
    let current = snapshot(3);
    let history = HistorySnapshot { entries: Vec::new(), cursor: 0 };
    match stale_batch_decision(batch("op-new", 1, vec![set_label("a", "x")]), &current, &history) {
        StaleDecision::Conflict { conflict, attempted, intervening } => {
            assert_eq!(conflict.code, "AGENT_OVERLAPPING_CONFLICT");
            assert_eq!(conflict.message, "the stale agent batch overlaps an accepted intent");
            assert_eq!(conflict.expected_revision, RevisionId::new(1));
            assert_eq!(conflict.actual_revision, RevisionId::new(3));
            assert_eq!(attempted.base_revision, RevisionId::new(1));
            assert!(intervening.is_empty());
        }
        other => panic!("unexpected decision {other:?}"),
    }
}

#[test]
fn stale_batches_rebase_past_disjoint_edits() {
    let current = snapshot(3);
    let history = history_with(batch("op-old", 1, vec![set_label("b", "other")]), 2);
    match stale_batch_decision(batch("op-new", 1, vec![set_label("a", "x")]), &current, &history) {
        StaleDecision::Submit { batch, intervening } => {
            assert_eq!(batch.base_revision, RevisionId::new(3));
            assert_eq!(intervening, vec![(0, 0)]);
        }
        other => panic!("unexpected decision {other:?}"),
    }
}

#[test]
fn stale_batches_touching_the_same_property_conflict() {
    let current = snapshot(3);
    let history = history_with(batch("op-old", 1, vec![set_label("a", "other")]), 2);
    let decision = stale_batch_decision(batch("op-new", 1, vec![set_label("a", "x")]), &current, &history);
    assert!(matches!(decision, StaleDecision::Conflict { .. }));
    let moved = history_with(
        batch(
            "op-old",
            1,
            vec![Command::MoveNode {
                node_id: nid("a"),
                destination: ParentPlacement { parent: NodeParent::Node { node_id: nid("b") }, index: 0 },
            }],
        ),
        2,
    );
    let decision = stale_batch_decision(batch("op-new", 1, vec![set_label("a", "x")]), &current, &moved);
    assert!(matches!(decision, StaleDecision::Conflict { .. }));
}

#[test]
fn retried_operations_skip_stale_analysis() {
    let current = snapshot(3);
    let history = history_with(batch("op-new", 1, vec![set_label("a", "other")]), 2);
    match stale_batch_decision(batch("op-new", 1, vec![set_label("a", "x")]), &current, &history) {
        StaleDecision::Submit { batch, intervening } => {
            assert_eq!(batch.base_revision, RevisionId::new(1));
            assert!(intervening.is_empty());
        }
        other => panic!("unexpected decision {other:?}"),
    }
}

fn run_id() -> AgentRunId {
    AgentRunId::new("run-1").unwrap()
}

#[test]
fn run_ids_give_back_their_text() {
    let id = AgentRunId::new("run-7").unwrap();
    assert_eq!(id.as_str(), "run-7");
    assert_eq!(id.to_string(), "run-7");
}

#[test]
fn refused_batches_carry_no_check_feedback() {
    let progress = AgentProgress { completed: 1, total: None, message: "step".to_owned() };
    let op = OperationId::new("op-1").unwrap();
    let result = refused_result(&run_id(), &op, &progress, BatchAdmission::RunNotFound).unwrap();
    assert!(matches!(result.outcome, AgentBatchOutcome::RunNotFound));
    assert!(result.check.diagnostics.is_empty());
    assert_eq!(result.operation_id, op);
    assert!(refused_result(&run_id(), &op, &progress, BatchAdmission::Admitted).is_none());
}

fn receipt(op: &str) -> CommandReceipt {
    CommandReceipt {
        operation_id: OperationId::new(op).unwrap(),
        project_id: ProjectId::new("project").unwrap(),
        base_revision: RevisionId::new(1),
        committed_revision: RevisionId::new(2),
        actor: actor(ActorKind::Agent),
        undo_group_id: UndoGroupId::new("group").unwrap(),
        undo_group_name: "Agent edit".to_owned(),
        command_count: 1,
    }
}

fn context() -> ConflictContext {
    ConflictContext { attempted: batch("op-1", 1, Vec::new()), current: snapshot(2), intervening: Vec::new() }
}

#[test]
fn accepted_batches_are_recorded_and_checked() {
    let mut channel = LiveAgentChannel::new(());
    channel.start_run(AgentRunRequest::new(run_id(), actor(ActorKind::Agent), None)).unwrap();
    let progress = AgentProgress { completed: 1, total: None, message: "step".to_owned() };
    let op = OperationId::new("op-1").unwrap();
    let committed = snapshot(2);
    let result = channel.conclude_batch(
        &run_id(),
        &op,
        &progress,
        CommandOutcome::Accepted(receipt("op-1")),
        Some(&committed),
        context(),
    );
    assert!(matches!(result.outcome, AgentBatchOutcome::Accepted(_)));
    let result = channel.conclude_batch(
        &run_id(),
        &OperationId::new("op-2").unwrap(),
        &progress,
        CommandOutcome::Accepted(receipt("op-2")),
        None,
        context(),
    );
    assert_eq!(result.check.diagnostics.len(), 1);
    assert_eq!(result.check.diagnostics[0].code, "AGENT_CHECK_UNAVAILABLE");
    let summary = channel.finish_run(&run_id()).unwrap();
    let accepted: Vec<&str> = summary.accepted_operations.iter().map(|o| o.as_str()).collect();
    assert_eq!(accepted, vec!["op-1", "op-2"]);
}

#[test]
fn failed_batches_are_not_recorded() {
    let mut channel = LiveAgentChannel::new(());
    channel.start_run(AgentRunRequest::new(run_id(), actor(ActorKind::Agent), None)).unwrap();
    let progress = AgentProgress { completed: 1, total: None, message: "step".to_owned() };
    let op = OperationId::new("op-1").unwrap();
    let failure = PersistenceError { code: PersistenceErrorCode::Unavailable, message: "disk full".to_owned() };
    let result =
        channel.conclude_batch(&run_id(), &op, &progress, CommandOutcome::PersistenceFailed(failure), None, context());
    assert!(matches!(result.outcome, AgentBatchOutcome::PersistenceFailed(_)));
    assert!(result.check.diagnostics.is_empty());
    let result = channel.internal_failure(&run_id(), &op, &progress);
    match result.outcome {
        AgentBatchOutcome::Rejected(ds) => assert_eq!(ds[0].code, "AGENT_SESSION_QUERY_FAILED"),
        other => panic!("unexpected outcome {other:?}"),
    }
    let summary = channel.finish_run(&run_id()).unwrap();
    assert!(summary.accepted_operations.is_empty());
}

#[test]
fn mcp_undo_is_attributed_to_the_mcp_actor() {
    let scope = DesignerScope::for_project(ProjectId::new("project").unwrap())
        .allow_command_write()
        .allow_history_write();
    let mcp = Actor { id: ActorId::new("mcp").unwrap(), kind: ActorKind::Mcp, display_name: "MCP".to_owned() };
    let client = McpClient::connect((), ProjectId::new("project").unwrap(), scope, mcp).unwrap();
    let history = HistorySnapshot { entries: Vec::new(), cursor: 0 };
    let operation = HistoryOperation {
        operation_id: OperationId::new("undo-1").unwrap(),
        actor: actor(ActorKind::Human),
        base_revision: RevisionId::new(3),
    };
    let request = client.undo(&snapshot(3), &history, operation).unwrap();
    assert_eq!(request.actor.kind, ActorKind::Mcp);
    assert_eq!(request.actor.id.as_str(), "mcp");
    assert_eq!(request.operation_id.as_str(), "undo-1");

    let reader = DesignerScope::for_project(ProjectId::new("project").unwrap()).allow_project_read();
    let mcp = Actor { id: ActorId::new("mcp").unwrap(), kind: ActorKind::Mcp, display_name: "MCP".to_owned() };
    let client = McpClient::connect((), ProjectId::new("project").unwrap(), reader, mcp).unwrap();
    let operation = HistoryOperation {
        operation_id: OperationId::new("undo-2").unwrap(),
        actor: actor(ActorKind::Human),
        base_revision: RevisionId::new(3),
    };
    let denied = client.redo(&snapshot(3), &history, operation).unwrap_err();
    assert_eq!(denied.code, "DESIGN_SCOPE_DENIED");
    assert_eq!(denied.message, "history mutations are outside the caller scope");
}

#[test]
fn repeated_and_reordered_grants_give_the_same_scope() {
    let base = DesignerScope::for_project(ProjectId::new("project").unwrap());
    let once = base.clone().allow_project_read();
    let twice = once.clone().allow_project_read();
    assert_eq!(once.capabilities(), twice.capabilities());
    let one_way = base.clone().allow_command_write().allow_subtree_write(nid("a"));
    let other_way = base.allow_subtree_write(nid("a")).allow_command_write();
    assert_eq!(one_way.capabilities(), other_way.capabilities());
    assert_eq!(one_way.project_id(), other_way.project_id());
}

use studio_design::{HistoryPlan, plan_history};

fn applied(op: &str, commands: Vec<Command>, inverses: Vec<Command>, committed: u64) -> AppliedBatch {
    AppliedBatch { batch: batch(op, committed - 1, commands), inverse_commands: inverses, committed_revision: RevisionId::new(committed) }
}

fn rename_group() -> Vec<HistoryEntry> {
    vec![HistoryEntry {
        undo_group_id: UndoGroupId::new("rename").unwrap(),
        name: "Rename".to_owned(),
        batches: vec![
            applied(
                "op-1",
                vec![Command::RenameNode { node_id: nid("a"), name: "One".to_owned() }],
                vec![Command::RenameNode { node_id: nid("a"), name: "a".to_owned() }],
                2,
            ),
            applied(
                "op-2",
                vec![Command::RenameNode { node_id: nid("a"), name: "Two".to_owned() }],
                vec![Command::RenameNode { node_id: nid("a"), name: "One".to_owned() }],
                3,
            ),
        ],
    }]
}

fn undo_op(op: &str, base: u64) -> HistoryOperation {
    HistoryOperation { operation_id: OperationId::new(op).unwrap(), actor: actor(ActorKind::Human), base_revision: RevisionId::new(base) }
}

#[test]
fn undo_applies_the_group_inverses_last_batch_first() {
    let mut design = tree();
    let mut a = design.nodes.remove("a").unwrap();
    a.name = "Two".to_owned();
    design.nodes.insert(nid("a"), a);
    match plan_history(design, RevisionId::new(3), &Vec::new(), rename_group(), 1, &undo_op("undo-1", 3), false) {
        HistoryPlan::Apply { design, entry_index, undo_group_name, command_count, .. } => {
            assert_eq!(design.nodes.get("a").unwrap().name, "a");
            assert_eq!(entry_index, 0);
            assert_eq!(undo_group_name, "Rename");
            assert_eq!(command_count, 2);
        }
        other => panic!("unexpected plan {other:?}"),
    }
}

#[test]
fn redo_replays_the_group_in_order() {
    match plan_history(tree(), RevisionId::new(4), &Vec::new(), rename_group(), 0, &undo_op("redo-1", 4), true) {
        HistoryPlan::Apply { design, command_count, .. } => {
            assert_eq!(design.nodes.get("a").unwrap().name, "Two");
            assert_eq!(command_count, 2);
        }
        other => panic!("unexpected plan {other:?}"),
    }
}

#[test]
fn history_requests_replay_conflict_or_reject() {
    let receipts = vec![receipt("undo-1")];
    let plan = plan_history(tree(), RevisionId::new(3), &receipts, rename_group(), 1, &undo_op("undo-1", 3), false);
    assert!(matches!(plan, HistoryPlan::Replay(r) if r.operation_id.as_str() == "undo-1"));
    let plan = plan_history(tree(), RevisionId::new(3), &Vec::new(), rename_group(), 1, &undo_op("undo-2", 2), false);
    match plan {
        HistoryPlan::Conflict(c) => {
            assert_eq!(c.code, "DESIGN_STALE_REVISION");
            assert_eq!(c.expected_revision, RevisionId::new(2));
            assert_eq!(c.actual_revision, RevisionId::new(3));
        }
        other => panic!("unexpected plan {other:?}"),
    }
    match plan_history(tree(), RevisionId::new(3), &Vec::new(), rename_group(), 0, &undo_op("undo-3", 3), false) {
        HistoryPlan::Rejected(ds) => {
            assert_eq!(ds[0].code, "DESIGN_HISTORY_UNAVAILABLE");
            assert_eq!(ds[0].message, "there is no named command group to undo");
        }
        other => panic!("unexpected plan {other:?}"),
    }
    match plan_history(tree(), RevisionId::new(3), &Vec::new(), rename_group(), 1, &undo_op("redo-3", 3), true) {
        HistoryPlan::Rejected(ds) => assert_eq!(ds[0].message, "there is no named command group to redo"),
        other => panic!("unexpected plan {other:?}"),
    }
}

#[test]
fn redo_stops_at_a_failed_precondition() {
    let mut entries = rename_group();
    entries[0].batches[1].batch.preconditions.push(studio_design::CommandPrecondition::NodeExists { node_id: nid("ghost") });
    match plan_history(tree(), RevisionId::new(4), &Vec::new(), entries, 0, &undo_op("redo-2", 4), true) {
        HistoryPlan::Conflict(c) => {
            assert_eq!(c.code, "DESIGN_PRECONDITION_FAILED");
            assert_eq!(c.failed_precondition, Some(0));
        }
        other => panic!("unexpected plan {other:?}"),
    }
}

use studio_design::submission::{SubmitPlan, commit_revision, plan_submit, receipt_for_batch, record_applied};

#[test]
fn submitted_batches_apply_or_are_answered() {
    let edit = batch("op-9", 3, vec![set_label("a", "Hi")]);
    match plan_submit(tree(), RevisionId::new(3), &Vec::new(), &edit, edit.commands.clone()) {
        SubmitPlan::Apply { design, inverse_commands } => {
            assert_eq!(design.nodes.get("a").unwrap().properties.get("label"), Some(&PropertyValue::String("Hi".to_owned())));
            assert_eq!(inverse_commands.len(), 1);
        }
        other => panic!("unexpected plan {other:?}"),
    }
    let receipts = vec![receipt("op-9")];
    assert!(matches!(
        plan_submit(tree(), RevisionId::new(3), &receipts, &edit, edit.commands.clone()),
        SubmitPlan::Replay(_)
    ));
    match plan_submit(tree(), RevisionId::new(4), &Vec::new(), &edit, edit.commands.clone()) {
        SubmitPlan::Conflict(c) => assert_eq!(c.code, "DESIGN_STALE_REVISION"),
        other => panic!("unexpected plan {other:?}"),
    }
    let mut guarded = batch("op-10", 3, vec![set_label("a", "Hi")]);
    guarded.preconditions.push(studio_design::CommandPrecondition::NodeMissing { node_id: nid("a") });
    match plan_submit(tree(), RevisionId::new(3), &Vec::new(), &guarded, guarded.commands.clone()) {
        SubmitPlan::Conflict(c) => {
            assert_eq!(c.code, "DESIGN_PRECONDITION_FAILED");
            assert_eq!(c.failed_precondition, Some(0));
        }
        other => panic!("unexpected plan {other:?}"),
    }
    let refused = batch("op-11", 3, vec![set_label("ghost", "Hi")]);
    match plan_submit(tree(), RevisionId::new(3), &Vec::new(), &refused, refused.commands.clone()) {
        SubmitPlan::Rejected(ds) => assert_eq!(ds[0].code, "DESIGN_NODE_MISSING"),
        other => panic!("unexpected plan {other:?}"),
    }
}

#[test]
fn applied_batches_join_their_undo_group() {
    let mut history = rename_group();
    let cursor = record_applied(&mut history, 1, applied("op-3", Vec::new(), Vec::new(), 4));
    assert_eq!(cursor, 2);
    assert_eq!(history.len(), 2);
    assert_eq!(history[1].name, "Agent edit");
    let mut same_group = vec![HistoryEntry {
        undo_group_id: UndoGroupId::new("group").unwrap(),
        name: "Agent edit".to_owned(),
        batches: Vec::new(),
    }];
    let cursor = record_applied(&mut same_group, 1, applied("op-4", Vec::new(), Vec::new(), 5));
    assert_eq!(cursor, 1);
    assert_eq!(same_group[0].batches.len(), 1);
    let mut after_undo = rename_group();
    let cursor = record_applied(&mut after_undo, 0, applied("op-5", Vec::new(), Vec::new(), 6));
    assert_eq!(cursor, 1);
    assert_eq!(after_undo[0].name, "Agent edit");
}

#[test]
fn commits_take_the_next_revision() {
    let design = tree();
    let numbers = OrderedMap::new();
    let issues = studio_design::design_rules::validate_design(&design, &numbers);
    match commit_revision(&design, &OrderedMap::new(), &numbers, RevisionId::new(3)) {
        Ok(next) => {
            assert!(issues.is_empty());
            assert_eq!(next, RevisionId::new(4));
        }
        Err(ds) => assert_eq!(ds.len(), issues.len()),
    }
    if issues.is_empty() {
        let ds = commit_revision(&design, &OrderedMap::new(), &numbers, RevisionId::new(u64::MAX)).unwrap_err();
        assert_eq!(ds[0].code, "DESIGN_REVISION_EXHAUSTED");
    }
    let edit = batch("op-12", 3, vec![set_label("a", "x")]);
    let receipt = receipt_for_batch(&edit, RevisionId::new(4));
    assert_eq!(receipt.command_count, 1);
    assert_eq!(receipt.committed_revision, RevisionId::new(4));
    assert_eq!(receipt.base_revision, RevisionId::new(3));
}

#[test]
fn layout_and_name_edits_round_trip() {
    let mut design = tree();
    let before = design.nodes.get("b").unwrap().clone();
    let inverse = apply_command(&mut design, Command::RenameNode { node_id: nid("b"), name: "Bee".to_owned() }).unwrap();
    assert_eq!(design.nodes.get("b").unwrap().name, "Bee");
    apply_command(&mut design, inverse).unwrap();
    assert_eq!(design.nodes.get("b").unwrap(), &before);
    let mut layout = before.layout.clone();
    layout.grid_columns = Some(3);
    let inverse = apply_command(&mut design, Command::SetLayout { node_id: nid("b"), layout }).unwrap();
    assert_eq!(design.nodes.get("b").unwrap().layout.grid_columns, Some(3));
    apply_command(&mut design, inverse).unwrap();
    assert_eq!(design.nodes.get("b").unwrap(), &before);
}

use studio_design::responsive::DeviceProfileMatrix;
use studio_design::{
    CanvasStateSnapshot, CanvasTransform, DesignerQuery, DesignerQueryResult, SelectionSnapshot, SessionStateSnapshot,
    ToolKind, UnsavedWork, query_result,
};

fn session_state() -> SessionStateSnapshot {
    SessionStateSnapshot {
        project_id: ProjectId::new("project").unwrap(),
        revision_id: RevisionId::new(3),
        selection: SelectionSnapshot::default(),
        active_screen_id: None,
        device_profile: None,
        tool: ToolKind::default(),
        canvas_transform: CanvasTransform::default(),
        runs: Vec::new(),
        unsaved_work: UnsavedWork::default(),
        panel_state: OrderedMap::new(),
        history_cursor: 0,
        canvas: CanvasStateSnapshot::default(),
    }
}

#[test]
fn queries_read_the_current_snapshot() {
    let snap = snapshot(3);
    let history = HistorySnapshot { entries: Vec::new(), cursor: 0 };
    let profiles = DeviceProfileMatrix::standard();
    let mut diagnostic = studio_design::engine::diagnostic("DESIGN_X", "x", Some(nid("a")));
    let other = studio_design::engine::diagnostic("DESIGN_Y", "y", None);
    diagnostic.message = "about a".to_owned();
    let diagnostics = vec![diagnostic, other];
    let state = session_state();
    let ask = |q: DesignerQuery| query_result(&snap, &history, &state, &profiles, &diagnostics, &q);
    assert!(matches!(ask(DesignerQuery::Node { node_id: nid("a") }), DesignerQueryResult::Node(Some(n)) if n.name == "a"));
    assert!(matches!(ask(DesignerQuery::Node { node_id: nid("ghost") }), DesignerQueryResult::Node(None)));
    match ask(DesignerQuery::DiagnosticsForNode { node_id: nid("a") }) {
        DesignerQueryResult::Diagnostics(ds) => {
            assert_eq!(ds.len(), 1);
            assert_eq!(ds[0].code, "DESIGN_X");
        }
        other => panic!("unexpected answer {other:?}"),
    }
    match ask(DesignerQuery::ValidateForm { form_id: studio_design::FormId::new("missing").unwrap(), values: OrderedMap::new() }) {
        DesignerQueryResult::FormValidation(result) => {
            assert!(!result.valid);
            assert_eq!(result.field_errors.get("form").map(String::as_str), Some("the form does not exist"));
        }
        other => panic!("unexpected answer {other:?}"),
    }
    assert!(matches!(ask(DesignerQuery::Diagnostics), DesignerQueryResult::Diagnostics(ds) if ds.len() == 2));
    assert!(matches!(ask(DesignerQuery::History), DesignerQueryResult::History(_)));
}

#[test]
fn project_summaries_count_the_design() {
    let summary = studio_design::project_summary(&snapshot(5));
    assert_eq!(summary.project_id.as_str(), "project");
    assert_eq!(summary.name, "Demo");
    assert_eq!(summary.revision_id, RevisionId::new(5));
    assert_eq!(summary.screen_ids.len(), 1);
    assert_eq!(summary.node_count, 4);
    assert_eq!(summary.composition_count, 0);
    assert_eq!(summary.token_count, 0);
}

use studio_design::{ColorValue, DesignToken, TokenId, TokenKind, TokenValue};

#[test]
fn defined_tokens_are_removed_by_their_inverse() {
    let mut design = tree();
    let token = DesignToken {
        schema_version: STUDIO_DESIGN_SCHEMA_VERSION,
        id: TokenId::new("brand").unwrap(),
        name: "Brand".to_owned(),
        kind: TokenKind::Color,
        value: TokenValue::Color(ColorValue::SrgbHex("#112233".to_owned())),
    };
    let inverse = apply_command(&mut design, Command::DefineToken { token }).unwrap();
    assert!(design.tokens.contains_key("brand"));
    assert!(matches!(&inverse, Command::RemoveToken { token_id } if token_id.as_str() == "brand"));
    apply_command(&mut design, inverse).unwrap();
    assert!(!design.tokens.contains_key("brand"));
}

use studio_design::session::{apply_context_update, prune_selection};
use studio_design::SessionContextUpdate;

#[test]
fn context_updates_replace_only_what_they_carry() {
    let mut update = SessionContextUpdate::default();
    update.tool = Some(ToolKind::default());
    update.device_profile = Some(Some("phone".to_owned()));
    let state = apply_context_update(session_state(), update);
    assert_eq!(state.device_profile.as_deref(), Some("phone"));
    assert_eq!(state.revision_id, RevisionId::new(3));
    assert!(state.selection.node_ids.is_empty());
}

#[test]
fn selections_drop_nodes_that_no_longer_exist() {
    let selection = SelectionSnapshot { node_ids: vec![nid("a"), nid("ghost"), nid("b")], primary: Some(nid("ghost")) };
    let pruned = prune_selection(selection, &tree());
    let ids: Vec<&str> = pruned.node_ids.iter().map(|id| id.as_str()).collect();
    assert_eq!(ids, vec!["a", "b"]);
    assert!(pruned.primary.is_none());
}
