use studio_design::workspace::{command_registry, find_commands};
use studio_design::{
    Actor, ActorId, ActorKind, Command, CommandBatch, DesignNode, DesignerCapability, DesignerQuery, DesignerScope,
    EditorView, NodeId, NodeKind, NodeParent, OperationId, PanelArrangement, PanelGeometry, PanelId, ProjectId,
    RevisionId, RevisionMetadata, RevisionReason, STUDIO_DESIGN_SCHEMA_VERSION, StudioDesign, StudioDesignSnapshot,
    UndoGroupId, WorkspaceCommand, WorkspaceController, WorkspaceState, OrderedMap,
};

#[test]
fn default_arrangements_differ_by_view() {
    let focus = PanelArrangement::default_for(EditorView::Focus);
    assert!(focus.panel(PanelId::Inspector).visible);
    assert!(focus.panel(PanelId::History).visible);
    assert!(!focus.panel(PanelId::Library).visible);
    let bench = PanelArrangement::default_for(EditorView::Workbench);
    for panel in PanelId::all() {
        assert!(bench.panel(panel).visible);
        assert!(!bench.panel(panel).collapsed);
    }
    assert_eq!(focus.panels().len(), 8);
}

#[test]
fn panel_edits_touch_one_field() {
    let mut arrangement = PanelArrangement::default_for(EditorView::Focus);
    let geometry = arrangement.panel(PanelId::Library).geometry;
    arrangement.set_visible(PanelId::Library, true);
    assert!(arrangement.panel(PanelId::Library).visible);
    assert_eq!(arrangement.panel(PanelId::Library).geometry, geometry);
    arrangement.set_collapsed(PanelId::Library, true);
    assert!(arrangement.panel(PanelId::Library).collapsed);
    arrangement.set_geometry(PanelId::Library, PanelGeometry::new(1, 2, 3, 4));
    assert_eq!(arrangement.panel(PanelId::Library).geometry, PanelGeometry::new(1, 2, 3, 4));
    assert!(arrangement.panel(PanelId::Library).visible);
}

#[test]
fn toggling_twice_returns_to_the_first_view() {
    let mut state = WorkspaceState::new();
    assert_eq!(state.active_view, EditorView::Focus);
    assert_eq!(state.toggle_view(), EditorView::Workbench);
    assert_eq!(state.toggle_view(), EditorView::Focus);
    assert_eq!(state.switch_to(EditorView::Workbench), EditorView::Workbench);
    assert!(state.validate().is_ok());
    let mut controller = WorkspaceController::default();
    assert_eq!(controller.state().active_view, EditorView::Focus);
    assert_eq!(controller.execute_presentation(WorkspaceCommand::ToggleView), EditorView::Workbench);
    assert_eq!(controller.execute_presentation(WorkspaceCommand::ToggleView), EditorView::Focus);
    controller.execute_presentation(WorkspaceCommand::OpenLibrary);
    assert!(controller.state().active_arrangement().panel(PanelId::Library).visible);
}

#[test]
fn command_search_matches_labels_and_shortcuts() {
    assert_eq!(command_registry().len(), 9);
    assert_eq!(find_commands("").len(), 9);
    assert_eq!(find_commands("  ").len(), 9);
    let library = find_commands("LIBRARY");
    assert_eq!(library.len(), 1);
    assert_eq!(library[0].command, WorkspaceCommand::OpenLibrary);
    let by_shortcut = find_commands("ctrl+shift+w");
    assert_eq!(by_shortcut.len(), 1);
    assert_eq!(by_shortcut[0].label, "Switch Focus / Workbench");
    assert!(find_commands("nothing like this").is_empty());
}

fn actor() -> Actor {
    Actor { id: ActorId::new("agent").unwrap(), kind: ActorKind::Agent, display_name: "Agent".to_owned() }
}

fn snapshot() -> StudioDesignSnapshot {
    let mut design = StudioDesign::empty(ProjectId::new("p").unwrap(), "Demo");
    let root = NodeId::new("root").unwrap();
    let mut node = DesignNode::primitive(root.clone(), "Root", NodeKind::Column);
    node.children.push(NodeId::new("leaf").unwrap());
    design.nodes.insert(root.clone(), node);
    design.nodes.insert(NodeId::new("leaf").unwrap(), DesignNode::primitive(NodeId::new("leaf").unwrap(), "Leaf", NodeKind::Text));
    design.parents.insert(NodeId::new("leaf").unwrap(), NodeParent::Node { node_id: root });
    design.nodes.insert(NodeId::new("other").unwrap(), DesignNode::primitive(NodeId::new("other").unwrap(), "Other", NodeKind::Text));
    StudioDesignSnapshot {
        revision: RevisionMetadata {
            id: RevisionId::initial(),
            parent_id: None,
            operation_id: OperationId::new("init").unwrap(),
            actor: actor(),
            undo_group_id: UndoGroupId::new("init").unwrap(),
            undo_group_name: "Initial".to_owned(),
            reason: RevisionReason::Initial,
        },
        design,
        tombstones: OrderedMap::new(),
    }
}

fn rename_batch(node: &str) -> CommandBatch {
    CommandBatch {
        schema_version: STUDIO_DESIGN_SCHEMA_VERSION,
        operation_id: OperationId::new("op").unwrap(),
        actor: actor(),
        project_id: ProjectId::new("p").unwrap(),
        base_revision: RevisionId::initial(),
        undo_group_id: UndoGroupId::new("g").unwrap(),
        undo_group_name: "Rename".to_owned(),
        preconditions: Vec::new(),
        commands: vec![Command::RenameNode { node_id: NodeId::new(node).unwrap(), name: "X".to_owned() }],
    }
}

#[test]
fn scopes_admit_only_granted_operations() {
    let snap = snapshot();
    let empty = DesignerScope::for_project(ProjectId::new("p").unwrap());
    let denied = empty.query_check(&snap, &DesignerQuery::Snapshot).unwrap_err();
    assert_eq!(denied.code, "DESIGN_SCOPE_DENIED");
    assert_eq!(denied.required, DesignerCapability::ProjectRead);
    assert!(empty.batch_check(&snap, &rename_batch("leaf")).is_err());

    let reader = DesignerScope::for_project(ProjectId::new("p").unwrap()).allow_project_read();
    assert!(reader.query_check(&snap, &DesignerQuery::Snapshot).is_ok());
    assert!(reader.contains(&DesignerCapability::ProjectRead));

    let subtree = DesignerScope::for_project(ProjectId::new("p").unwrap())
        .allow_subtree_write(NodeId::new("root").unwrap());
    assert!(subtree.batch_check(&snap, &rename_batch("leaf")).is_ok());
    assert!(subtree.batch_check(&snap, &rename_batch("other")).is_err());
    assert!(subtree.write_node_allowed(&snap.design, &NodeId::new("root").unwrap()));
    assert!(!subtree.write_node_allowed(&snap.design, &NodeId::new("other").unwrap()));

    let elsewhere = DesignerScope::for_project(ProjectId::new("q").unwrap()).allow_project_read();
    let mismatch = elsewhere.query_check(&snap, &DesignerQuery::Snapshot).unwrap_err();
    assert_eq!(mismatch.message, "the requested project is outside the caller scope");
}

