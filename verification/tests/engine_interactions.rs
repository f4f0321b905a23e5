use studio_design::engine::{
    define_interaction, remove_interaction, update_interaction, validate_binding, validate_interaction,
    validate_property_value,
};
use studio_design::{
    BindingPath, Command, DesignNode, Interaction, InteractionAction, InteractionEvent, InteractionId,
    InteractionSource, NavigationMode, NodeId, NodeKind, ProjectId, PropertyValue, STUDIO_DESIGN_SCHEMA_VERSION,
    ScreenId, StudioDesign, TokenId,
};

fn nid(s: &str) -> NodeId {
    NodeId::new(s).unwrap()
}

fn iid(s: &str) -> InteractionId {
    InteractionId::new(s).unwrap()
}

fn design() -> StudioDesign {
    let mut design = StudioDesign::empty(ProjectId::new("p").unwrap(), "Demo");
    for id in ["button", "panel"] {
        design.nodes.insert(nid(id), DesignNode::primitive(nid(id), id, NodeKind::Box));
    }
    design
}

fn interaction(id: &str, source: &str, action: InteractionAction) -> Interaction {
    Interaction {
        schema_version: STUDIO_DESIGN_SCHEMA_VERSION,
        id: iid(id),
        source: InteractionSource { node_id: nid(source), event: InteractionEvent::Pressed },
        action,
    }
}

fn attached(design: &StudioDesign, node: &str) -> Vec<String> {
    design.nodes.get(node).unwrap().interaction_ids.iter().map(|i| i.as_str().to_owned()).collect()
}

#[test]
fn property_values_are_checked_against_the_design() {
    let d = design();
    assert!(validate_property_value(&d, &PropertyValue::Node(nid("panel")), Some(&nid("button"))).is_ok());
    let missing = validate_property_value(&d, &PropertyValue::Node(nid("ghost")), Some(&nid("button"))).unwrap_err();
    assert_eq!(missing.code, "DESIGN_NODE_MISSING");
    assert_eq!(missing.node_id.as_ref().map(|n| n.as_str()), Some("button"));
    let token = validate_property_value(
        &d,
        &PropertyValue::List(vec![PropertyValue::Integer(1), PropertyValue::Token(TokenId::new("t").unwrap())]),
        None,
    )
    .unwrap_err();
    assert_eq!(token.message, "a property references an unknown token");
    assert!(token.node_id.is_none());
    let bad_binding = PropertyValue::Binding(BindingPath { collection: "posts".to_owned(), segments: Vec::new() });
    let err = validate_property_value(&d, &bad_binding, None).unwrap_err();
    assert_eq!(err.code, "DESIGN_BINDING_INVALID");
    assert_eq!(err.node_id.as_ref().map(|n| n.as_str()), Some("binding"));
    assert!(validate_binding(&BindingPath { collection: "posts".to_owned(), segments: vec!["title".to_owned()] }, &nid("n")).is_ok());
    assert!(validate_binding(&BindingPath { collection: "posts".to_owned(), segments: vec![String::new()] }, &nid("n")).is_err());
}

#[test]
fn interaction_actions_are_validated() {
    let d = design();
    let emit = interaction("go", "button", InteractionAction::Emit { event: "tap".to_owned() });
    assert!(validate_interaction(&d, &emit).is_ok());
    let ghost_source = interaction("go", "ghost", InteractionAction::Emit { event: "tap".to_owned() });
    assert_eq!(validate_interaction(&d, &ghost_source).unwrap_err().code, "DESIGN_INTERACTION_INVALID");
    let nav = interaction(
        "go",
        "button",
        InteractionAction::Navigate { screen_id: ScreenId::new("nowhere").unwrap(), mode: NavigationMode::Push },
    );
    let err = validate_interaction(&d, &nav).unwrap_err();
    assert_eq!(err.message, "a navigation interaction references an unknown screen");
    assert_eq!(err.interaction_id.as_ref().map(|i| i.as_str()), Some("go"));
    let self_seq = interaction("go", "button", InteractionAction::Sequence { interaction_ids: vec![iid("go")] });
    assert_eq!(validate_interaction(&d, &self_seq).unwrap_err().code, "DESIGN_INTERACTION_TARGET_MISSING");
    let bad_value = interaction(
        "go",
        "button",
        InteractionAction::SetProperty { node_id: nid("panel"), property: "ref".to_owned(), value: PropertyValue::Node(nid("ghost")) },
    );
    assert_eq!(validate_interaction(&d, &bad_value).unwrap_err().code, "DESIGN_INTERACTION_VALUE_INVALID");
    let bad_event = interaction("go", "button", InteractionAction::Emit { event: String::new() });
    assert_eq!(validate_interaction(&d, &bad_event).unwrap_err().code, "DESIGN_INTERACTION_EVENT_INVALID");
}

#[test]
fn interactions_attach_and_detach_with_undo() {
    let mut d = design();
    let original = d.clone();
    let emit = interaction("go", "button", InteractionAction::Emit { event: "tap".to_owned() });
    let inverse = define_interaction(&mut d, emit.clone()).unwrap();
    assert_eq!(inverse, Command::RemoveInteraction { interaction_id: iid("go") });
    assert_eq!(attached(&d, "button"), vec!["go"]);
    assert_eq!(define_interaction(&mut d, emit.clone()).unwrap_err().code, "DESIGN_INTERACTION_EXISTS");

    let moved = interaction("go", "panel", InteractionAction::Emit { event: "tap".to_owned() });
    let back = update_interaction(&mut d, moved).unwrap();
    assert_eq!(back, Command::UpdateInteraction { interaction: emit.clone() });
    assert!(attached(&d, "button").is_empty());
    assert_eq!(attached(&d, "panel"), vec!["go"]);

    let defined = remove_interaction(&mut d, &iid("go")).unwrap();
    assert!(matches!(defined, Command::DefineInteraction { .. }));
    assert!(attached(&d, "panel").is_empty());
    assert_eq!(d, original);
    assert_eq!(remove_interaction(&mut d, &iid("go")).unwrap_err().code, "DESIGN_INTERACTION_MISSING");
    assert_eq!(
        update_interaction(&mut d, emit).unwrap_err().message,
        "the interaction does not exist"
    );
}
