use studio_design::engine::{
    child_index, failed_precondition, is_typed_layout_property, move_node, remove_responsive_layout, rename_node,
    reorder_node, set_layout, set_property, set_responsive_layout, validate_batch_shape,
};
use studio_design::{
    Actor, ActorId, ActorKind, Command, CommandBatch, CommandPrecondition, DesignNode, Length, LengthUnit,
    LayoutProperties, NodeId, NodeKind, NodeParent, OperationId, ParentPlacement, ProjectId, PropertyValue,
    ResponsiveVariant, ResponsiveVariantId, RevisionId, STUDIO_DESIGN_SCHEMA_VERSION, Screen, ScreenId, StudioDesign,
    UndoGroupId, InputEnvironment,
};

fn nid(s: &str) -> NodeId {
    NodeId::new(s).unwrap()
}

fn child_ids(design: &StudioDesign, parent: &str) -> Vec<String> {
    design.nodes.get(parent).unwrap().children.iter().map(|c| c.as_str().to_owned()).collect()
}

/// A screen `home` whose root `root` holds children a, b, c, and a box `side`
/// under `a`.
fn tree() -> StudioDesign {
    let mut design = StudioDesign::empty(ProjectId::new("project").unwrap(), "Demo");
    let screen = Screen {
        schema_version: STUDIO_DESIGN_SCHEMA_VERSION,
        id: ScreenId::new("home").unwrap(),
        name: "Home".to_owned(),
        route: "/".to_owned(),
        root_node_id: nid("root"),
    };
    design.screens.insert(ScreenId::new("home").unwrap(), screen);
    design.screen_order.push(ScreenId::new("home").unwrap());
    let mut root = DesignNode::primitive(nid("root"), "Root", NodeKind::Column);
    root.children = vec![nid("a"), nid("b"), nid("c")];
    design.nodes.insert(nid("root"), root);
    design.parents.insert(nid("root"), NodeParent::Screen { screen_id: ScreenId::new("home").unwrap() });
    for id in ["a", "b", "c"] {
        design.nodes.insert(nid(id), DesignNode::primitive(nid(id), id, NodeKind::Box));
        design.parents.insert(nid(id), NodeParent::Node { node_id: nid("root") });
    }
    let mut a = design.nodes.remove("a").unwrap();
    a.children.push(nid("side"));
    design.nodes.insert(nid("a"), a);
    design.nodes.insert(nid("side"), DesignNode::primitive(nid("side"), "Side", NodeKind::Text));
    design.parents.insert(nid("side"), NodeParent::Node { node_id: nid("a") });
    design
}

fn batch(design: &StudioDesign, name: &str, commands: Vec<Command>) -> CommandBatch {
    CommandBatch {
        schema_version: STUDIO_DESIGN_SCHEMA_VERSION,
        operation_id: OperationId::new("op-1").unwrap(),
        actor: Actor { id: ActorId::new("user").unwrap(), kind: ActorKind::Human, display_name: "User".to_owned() },
        project_id: ProjectId::new(design.project_id.as_str()).unwrap(),
        base_revision: RevisionId::initial(),
        undo_group_id: UndoGroupId::new("group").unwrap(),
        undo_group_name: name.to_owned(),
        preconditions: Vec::new(),
        commands,
    }
}

#[test]
fn typed_layout_names_are_reserved() {
    for name in ["width", "min_height", "grid_columns", "position", "left"] {
        assert!(is_typed_layout_property(name));
    }
    for name in ["label", "Width", "widths", ""] {
        assert!(!is_typed_layout_property(name));
    }
}

#[test]
fn child_index_reports_position_under_owner() {
    let design = tree();
    assert_eq!(child_index(&design, &nid("b")), Some(1));
    assert_eq!(child_index(&design, &nid("root")), Some(0));
    assert_eq!(child_index(&design, &nid("side")), Some(0));
    assert_eq!(child_index(&design, &nid("ghost")), None);
}

#[test]
fn set_property_returns_its_inverse() {
    let mut design = tree();
    let inverse = set_property(&mut design, &nid("a"), "label", Some(PropertyValue::String("Hi".to_owned()))).unwrap();
    assert_eq!(
        design.nodes.get("a").unwrap().properties.get("label"),
        Some(&PropertyValue::String("Hi".to_owned()))
    );
    match &inverse {
        Command::SetProperty { node_id, property, value } => {
            assert_eq!(node_id.as_str(), "a");
            assert_eq!(property, "label");
            assert!(value.is_none());
        }
        _ => panic!("unexpected inverse"),
    }
    let Command::SetProperty { node_id, property, value } = inverse else { unreachable!() };
    set_property(&mut design, &node_id, &property, value).unwrap();
    assert!(design.nodes.get("a").unwrap().properties.is_empty());
    assert_eq!(design, tree());
}

#[test]
fn set_property_rejects_bad_names_and_unknown_nodes() {
    let mut design = tree();
    let err = set_property(&mut design, &nid("a"), "", None).unwrap_err();
    assert_eq!(err.code, "DESIGN_PROPERTY_INVALID");
    let err = set_property(&mut design, &nid("a"), "width", None).unwrap_err();
    assert_eq!(err.code, "DESIGN_LAYOUT_TYPED_REQUIRED");
    assert_eq!(err.message, "layout fields must be edited through a typed layout command");
    let err = set_property(&mut design, &nid("nope"), "label", None).unwrap_err();
    assert_eq!(err.code, "DESIGN_NODE_MISSING");
    assert_eq!(err.node_id.as_ref().map(|n| n.as_str()), Some("nope"));
    assert_eq!(design, tree());
}

#[test]
fn rename_round_trip_and_invalid_names() {
    let mut design = tree();
    let inverse = rename_node(&mut design, &nid("b"), "Button").unwrap();
    assert_eq!(design.nodes.get("b").unwrap().name, "Button");
    let Command::RenameNode { node_id, name } = inverse else { panic!("unexpected inverse") };
    assert_eq!(name, "b");
    rename_node(&mut design, &node_id, &name).unwrap();
    assert_eq!(design, tree());
    assert_eq!(rename_node(&mut design, &nid("b"), "   ").unwrap_err().code, "DESIGN_NODE_NAME_INVALID");
    assert_eq!(rename_node(&mut design, &nid("b"), &"x".repeat(257)).unwrap_err().code, "DESIGN_NODE_NAME_INVALID");
    assert!(rename_node(&mut design, &nid("b"), &"x".repeat(256)).is_ok());
}

#[test]
fn set_layout_returns_prior_layout() {
    let mut design = tree();
    let mut layout = LayoutProperties::default();
    layout.width = Some(Length { value: "120".to_owned(), unit: LengthUnit::Pixels });
    let inverse = set_layout(&mut design, &nid("c"), layout.clone()).unwrap();
    assert_eq!(design.nodes.get("c").unwrap().layout, layout);
    let Command::SetLayout { node_id, layout: prior } = inverse else { panic!("unexpected inverse") };
    assert_eq!(prior, LayoutProperties::default());
    set_layout(&mut design, &node_id, prior).unwrap();
    assert_eq!(design, tree());
}

#[test]
fn responsive_layout_set_and_remove() {
    let mut design = tree();
    let variant = ResponsiveVariantId::new("wide").unwrap();
    let mut layout = LayoutProperties::default();
    layout.padding = Some(Length { value: "8".to_owned(), unit: LengthUnit::Pixels });
    let err = set_responsive_layout(&mut design, &nid("a"), &variant, layout.clone()).unwrap_err();
    assert_eq!(err.code, "DESIGN_RESPONSIVE_VARIANT_MISSING");
    design.responsive_variants.insert(
        ResponsiveVariantId::new("wide").unwrap(),
        ResponsiveVariant {
            schema_version: STUDIO_DESIGN_SCHEMA_VERSION,
            id: ResponsiveVariantId::new("wide").unwrap(),
            name: "Wide".to_owned(),
            minimum_width: Some(1024),
            maximum_width: None,
            input: InputEnvironment::Any,
        },
    );
    let before = design.clone();
    let inverse = set_responsive_layout(&mut design, &nid("a"), &variant, layout.clone()).unwrap();
    assert!(matches!(inverse, Command::RemoveResponsiveLayout { .. }));
    assert_eq!(design.nodes.get("a").unwrap().responsive_overrides.get("wide").unwrap().layout, layout);
    let restored = remove_responsive_layout(&mut design, &nid("a"), &variant).unwrap();
    assert!(matches!(restored, Command::SetResponsiveLayout { .. }));
    assert_eq!(design, before);
    let err = remove_responsive_layout(&mut design, &nid("a"), &variant).unwrap_err();
    assert_eq!(err.code, "DESIGN_RESPONSIVE_LAYOUT_MISSING");
}

#[test]
fn reorder_moves_a_sibling_and_back() {
    let mut design = tree();
    let inverse = reorder_node(&mut design, &nid("a"), 2).unwrap();
    assert_eq!(child_ids(&design, "root"), vec!["b", "c", "a"]);
    let Command::ReorderNode { node_id, index } = inverse else { panic!("unexpected inverse") };
    assert_eq!(index, 0);
    reorder_node(&mut design, &node_id, index).unwrap();
    assert_eq!(design, tree());
    let err = reorder_node(&mut design, &nid("a"), 3).unwrap_err();
    assert_eq!(err.code, "DESIGN_CHILD_INDEX_INVALID");
    let err = reorder_node(&mut design, &nid("root"), 0).unwrap_err();
    assert_eq!(err.code, "DESIGN_PARENT_INVALID");
    assert_eq!(err.message, "screen and composition roots are not movable or deletable");
    assert_eq!(reorder_node(&mut design, &nid("ghost"), 0).unwrap_err().code, "DESIGN_NODE_MISSING");
    assert_eq!(design, tree());
}

#[test]
fn move_changes_parent_and_inverse_restores() {
    let mut design = tree();
    let destination = ParentPlacement { parent: NodeParent::Node { node_id: nid("a") }, index: 0 };
    let inverse = move_node(&mut design, &nid("c"), &destination).unwrap();
    assert_eq!(child_ids(&design, "root"), vec!["a", "b"]);
    assert_eq!(child_ids(&design, "a"), vec!["c", "side"]);
    assert_eq!(design.parents.get("c"), Some(&NodeParent::Node { node_id: nid("a") }));
    let Command::MoveNode { node_id, destination: back } = inverse else { panic!("unexpected inverse") };
    assert_eq!(back, ParentPlacement { parent: NodeParent::Node { node_id: nid("root") }, index: 2 });
    move_node(&mut design, &node_id, &back).unwrap();
    assert_eq!(design, tree());
}

#[test]
fn move_rejects_cycles_and_bad_targets() {
    let mut design = tree();
    let under_self = ParentPlacement { parent: NodeParent::Node { node_id: nid("side") }, index: 0 };
    let err = move_node(&mut design, &nid("a"), &under_self).unwrap_err();
    assert_eq!(err.code, "DESIGN_MOVE_CYCLE");
    let onto_self = ParentPlacement { parent: NodeParent::Node { node_id: nid("a") }, index: 0 };
    assert_eq!(move_node(&mut design, &nid("a"), &onto_self).unwrap_err().code, "DESIGN_MOVE_CYCLE");
    let missing = ParentPlacement { parent: NodeParent::Node { node_id: nid("ghost") }, index: 0 };
    let err = move_node(&mut design, &nid("b"), &missing).unwrap_err();
    assert_eq!(err.code, "DESIGN_NODE_MISSING");
    assert_eq!(err.node_id.as_ref().map(|n| n.as_str()), Some("ghost"));
    let far = ParentPlacement { parent: NodeParent::Node { node_id: nid("a") }, index: 2 };
    assert_eq!(move_node(&mut design, &nid("b"), &far).unwrap_err().code, "DESIGN_CHILD_INDEX_INVALID");
    let same_parent_end = ParentPlacement { parent: NodeParent::Node { node_id: nid("root") }, index: 2 };
    assert!(move_node(&mut design, &nid("a"), &same_parent_end).is_ok());
    assert_eq!(child_ids(&design, "root"), vec!["b", "c", "a"]);
    let screen = ParentPlacement { parent: NodeParent::Screen { screen_id: ScreenId::new("home").unwrap() }, index: 0 };
    assert_eq!(move_node(&mut design, &nid("b"), &screen).unwrap_err().code, "DESIGN_PARENT_INVALID");
}

#[test]
fn first_failing_precondition_is_reported() {
    let design = tree();
    let conditions = vec![
        CommandPrecondition::NodeExists { node_id: nid("a") },
        CommandPrecondition::ChildIndexEquals { node_id: nid("b"), index: 1 },
        CommandPrecondition::ParentEquals { node_id: nid("side"), parent: NodeParent::Node { node_id: nid("a") } },
        CommandPrecondition::PropertyEquals { node_id: nid("a"), property: "label".to_owned(), value: None },
        CommandPrecondition::NodeMissing { node_id: nid("b") },
        CommandPrecondition::NodeExists { node_id: nid("ghost") },
    ];
    assert_eq!(failed_precondition(&design, &conditions), Some(4));
    assert_eq!(failed_precondition(&design, &conditions[..4].to_vec()), None);
    let token = vec![CommandPrecondition::TokenMissing { token_id: studio_design::TokenId::new("t").unwrap() }];
    assert_eq!(failed_precondition(&design, &token), None);
}

#[test]
fn batch_shape_problems_are_listed_in_order() {
    let design = tree();
    assert!(validate_batch_shape(&batch(&design, "Rename", vec![Command::RenameNode { node_id: nid("a"), name: "A".to_owned() }]), &design).is_empty());
    let mut bad = batch(&design, "  ", Vec::new());
    bad.schema_version = 2;
    bad.project_id = ProjectId::new("other").unwrap();
    let codes: Vec<String> = validate_batch_shape(&bad, &design).into_iter().map(|d| d.code).collect();
    assert_eq!(
        codes,
        vec!["DESIGN_SCHEMA_UNSUPPORTED", "DESIGN_PROJECT_MISMATCH", "DESIGN_BATCH_EMPTY", "DESIGN_UNDO_NAME_INVALID"]
    );
    let long = batch(&design, &"n".repeat(257), vec![Command::RenameNode { node_id: nid("a"), name: "A".to_owned() }]);
    assert_eq!(validate_batch_shape(&long, &design)[0].message, "an undo group name must contain 1..=256 bytes");
}
