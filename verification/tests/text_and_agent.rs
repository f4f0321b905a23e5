use studio_design::agent::{command_schemas, validate_progress};
use studio_design::text::{decimal_string, parse_i64, signed_decimal_string, utf8_byte_len};
use studio_design::{
    Actor, ActorId, ActorKind, AgentProgress, AgentRunError, AgentRunId, AgentRunRequest, BatchAdmission, Command,
    CommandBatch, LiveAgentChannel, NodeId, OperationId, ProjectId, RevisionId, STUDIO_DESIGN_SCHEMA_VERSION,
    UndoGroupId,
};

fn actor(id: &str) -> Actor {
    Actor { id: ActorId::new(id).unwrap(), kind: ActorKind::Agent, display_name: id.to_owned() }
}

fn request(run: &str, total: Option<u32>) -> AgentRunRequest {
    AgentRunRequest::new(AgentRunId::new(run).unwrap(), actor("agent"), total)
}

fn progress(completed: u32, total: Option<u32>, message: &str) -> AgentProgress {
    AgentProgress { completed, total, message: message.to_owned() }
}

fn agent_batch(op: &str, group: &str) -> CommandBatch {
    CommandBatch {
        schema_version: STUDIO_DESIGN_SCHEMA_VERSION,
        operation_id: OperationId::new(op).unwrap(),
        actor: actor("agent"),
        project_id: ProjectId::new("p").unwrap(),
        base_revision: RevisionId::initial(),
        undo_group_id: UndoGroupId::new(group).unwrap(),
        undo_group_name: "Agent edit".to_owned(),
        preconditions: Vec::new(),
        commands: vec![Command::RenameNode { node_id: NodeId::new("n").unwrap(), name: "N".to_owned() }],
    }
}

#[test]
fn decimal_formatting_and_parsing() {
    assert_eq!(decimal_string(0), "0");
    assert_eq!(decimal_string(1234567890), "1234567890");
    assert_eq!(decimal_string(u64::MAX), u64::MAX.to_string());
    assert_eq!(signed_decimal_string(-5), "-5");
    assert_eq!(signed_decimal_string(i64::MIN), i64::MIN.to_string());
    assert_eq!(parse_i64("+7"), Some(7));
    assert_eq!(parse_i64("-9223372036854775808"), Some(i64::MIN));
    assert_eq!(parse_i64("9223372036854775807"), Some(i64::MAX));
    assert_eq!(parse_i64("9223372036854775808"), None);
    assert_eq!(parse_i64(""), None);
    assert_eq!(parse_i64("-"), None);
    assert_eq!(parse_i64("1.5"), None);
    assert_eq!(parse_i64(" 1"), None);
    assert_eq!(utf8_byte_len("aé€😀"), 10);
}

#[test]
fn run_ids_are_bounded() {
    assert!(AgentRunId::new("run-1").is_ok());
    assert!(AgentRunId::new("").is_err());
    assert!(AgentRunId::new(&"r".repeat(129)).is_err());
    assert_eq!(AgentRunId::new("run-1").unwrap().as_str(), "run-1");
}

#[test]
fn progress_rules_are_checked_in_order() {
    let req = request("run", Some(3));
    assert!(validate_progress(&req, None, &progress(1, Some(3), "working")).is_none());
    let long = validate_progress(&req, None, &progress(1, Some(3), &"x".repeat(513))).unwrap();
    assert_eq!(long[0].code, "AGENT_PROGRESS_INVALID");
    assert_eq!(long[0].message, "progress messages must contain at most 512 safe bytes");
    assert_eq!(validate_progress(&req, None, &progress(1, None, "")).unwrap()[0].code, "AGENT_PROGRESS_TOTAL_MISMATCH");
    assert_eq!(
        validate_progress(&req, None, &progress(4, Some(3), "")).unwrap()[0].message,
        "completed progress cannot exceed the declared total"
    );
    let previous = progress(2, Some(3), "");
    assert_eq!(
        validate_progress(&req, Some(&previous), &progress(1, Some(3), "")).unwrap()[0].code,
        "AGENT_PROGRESS_REGRESSION"
    );
    assert!(validate_progress(&req, Some(&previous), &progress(2, Some(3), "")).is_none());
}

#[test]
fn runs_start_once_cancel_once_and_finish_with_a_summary() {
    let mut channel = LiveAgentChannel::new(());
    assert!(channel.start_run(request("run", None)).is_ok());
    assert_eq!(
        channel.start_run(request("run", None)),
        Err(AgentRunError::Duplicate(AgentRunId::new("run").unwrap()))
    );
    let id = AgentRunId::new("run").unwrap();
    assert_eq!(channel.admit_batch(&id, &agent_batch("op-1", "g"), &progress(1, None, "")), BatchAdmission::Admitted);
    channel.record_accepted(&id, &OperationId::new("op-1").unwrap());
    let other_group = channel.admit_batch(&id, &agent_batch("op-2", "other"), &progress(2, None, ""));
    assert!(matches!(other_group, BatchAdmission::Rejected(_)));
    assert!(channel.cancel_run(&id));
    assert!(!channel.cancel_run(&id));
    match channel.admit_batch(&id, &agent_batch("op-3", "g"), &progress(3, None, "")) {
        BatchAdmission::Cancelled(c) => {
            assert_eq!(c.operation_id.as_str(), "op-3");
            assert_eq!(c.message, "the agent run was cancelled before this batch boundary");
        }
        other => panic!("unexpected admission {other:?}"),
    }
    let summary = channel.finish_run(&id).unwrap();
    assert!(summary.cancelled);
    assert_eq!(summary.accepted_operations.len(), 1);
    assert_eq!(summary.last_progress, Some(progress(1, None, "")));
    assert!(channel.finish_run(&id).is_none());
    let unknown = AgentRunId::new("nope").unwrap();
    assert_eq!(channel.admit_batch(&unknown, &agent_batch("op", "g"), &progress(0, None, "")), BatchAdmission::RunNotFound);
}

#[test]
fn the_agent_sees_the_typed_command_vocabulary() {
    let schemas = command_schemas();
    assert_eq!(schemas.schema_version, STUDIO_DESIGN_SCHEMA_VERSION);
    let names: Vec<&str> = schemas.commands.iter().map(|c| c.name.as_str()).collect();
    assert_eq!(
        names,
        vec!["insert_node", "move_node", "reorder_node", "duplicate_node", "delete_node", "restore_node", "set_property", "rename_node"]
    );
    assert_eq!(schemas.commands[3].required_fields, vec!["source_node_id", "destination", "id_map"]);
    assert_eq!(schemas.commands[0].supported_preconditions.len(), 5);
}
