use studio_design::compositions::{define_composition, remove_composition, set_composition_input, update_composition, validate_composition};
use studio_design::{
    Command, CompositionId, CompositionInput, DesignNode, DesignNodeSource, NodeId, NodeKind, NodeParent, OrderedMap,
    ProjectId, PropertyValue, ReusableComposition, STUDIO_DESIGN_SCHEMA_VERSION, StudioDesign, ValueKind,
};

fn nid(s: &str) -> NodeId {
    NodeId::new(s).unwrap()
}

fn cid(s: &str) -> CompositionId {
    CompositionId::new(s).unwrap()
}

fn card(version: u32) -> ReusableComposition {
    let mut inputs = OrderedMap::new();
    inputs.insert(
        "label".to_owned(),
        CompositionInput { value_kind: ValueKind::String, required: true, default: None, overridable: false },
    );
    inputs.insert(
        "tone".to_owned(),
        CompositionInput {
            value_kind: ValueKind::String,
            required: false,
            default: Some(PropertyValue::String("calm".to_owned())),
            overridable: true,
        },
    );
    ReusableComposition {
        schema_version: STUDIO_DESIGN_SCHEMA_VERSION,
        id: cid("card"),
        name: "Card".to_owned(),
        definition_version: version,
        root_node_id: nid("card-root"),
        inputs,
        slots: OrderedMap::new(),
    }
}

fn label(text: &str) -> OrderedMap<String, PropertyValue> {
    let mut m = OrderedMap::new();
    m.insert("label".to_owned(), PropertyValue::String(text.to_owned()));
    m
}

/// A design holding the composition root and one instance node `inst`.
fn design() -> StudioDesign {
    let mut design = StudioDesign::empty(ProjectId::new("p").unwrap(), "Demo");
    design.nodes.insert(nid("card-root"), DesignNode::primitive(nid("card-root"), "Card", NodeKind::Box));
    design.parents.insert(nid("card-root"), NodeParent::Composition { composition_id: cid("card") });
    let mut inst = DesignNode::primitive(nid("inst"), "Instance", NodeKind::Box);
    inst.source = DesignNodeSource::CompositionInstance {
        composition_id: cid("card"),
        definition_version: 1,
        inputs: label("Hello"),
        admitted_overrides: OrderedMap::new(),
    };
    design.nodes.insert(nid("inst"), inst);
    design.nodes.insert(nid("plain"), DesignNode::primitive(nid("plain"), "Plain", NodeKind::Box));
    design
}

fn version_of(design: &StudioDesign, node: &str) -> u32 {
    match &design.nodes.get(node).unwrap().source {
        DesignNodeSource::CompositionInstance { definition_version, .. } => *definition_version,
        _ => panic!("not an instance"),
    }
}

fn input_of(design: &StudioDesign, node: &str, input: &str, over: bool) -> Option<PropertyValue> {
    match &design.nodes.get(node).unwrap().source {
        DesignNodeSource::CompositionInstance { inputs, admitted_overrides, .. } => {
            if over { admitted_overrides.get(input).cloned() } else { inputs.get(input).cloned() }
        }
        _ => panic!("not an instance"),
    }
}

#[test]
fn definitions_are_checked() {
    let d = design();
    assert!(validate_composition(&d, &card(1)).is_ok());
    let mut nameless = card(1);
    nameless.name = "  ".to_owned();
    let err = validate_composition(&d, &nameless).unwrap_err();
    assert_eq!(err.code, "DESIGN_COMPOSITION_INVALID");
    assert_eq!(err.message, "a composition name must be safe and its definition version non-zero");
    assert_eq!(validate_composition(&d, &card(0)).unwrap_err().code, "DESIGN_COMPOSITION_INVALID");
    let mut unowned = card(1);
    unowned.root_node_id = nid("plain");
    assert_eq!(
        validate_composition(&d, &unowned).unwrap_err().message,
        "a composition requires a valid composition-owned root node"
    );
    let mut bad_default = card(1);
    bad_default.inputs.insert(
        "size".to_owned(),
        CompositionInput { value_kind: ValueKind::Integer, required: false, default: Some(PropertyValue::Boolean(true)), overridable: false },
    );
    assert_eq!(validate_composition(&d, &bad_default).unwrap_err().code, "DESIGN_COMPOSITION_INPUT_TYPE");
    let mut bad_name = card(1);
    bad_name.slots.insert(String::new(), studio_design::SlotDefinition { required: false, accepts_multiple: false });
    assert_eq!(validate_composition(&d, &bad_name).unwrap_err().code, "DESIGN_COMPOSITION_CONTRACT_INVALID");
}

#[test]
fn define_update_and_remove_round_trip() {
    let mut d = design();
    let undo = define_composition(&mut d, card(1)).unwrap();
    assert_eq!(undo, Command::RemoveComposition { composition_id: cid("card") });
    assert_eq!(define_composition(&mut d, card(1)).unwrap_err().code, "DESIGN_COMPOSITION_EXISTS");

    assert_eq!(update_composition(&mut d, card(1)).unwrap_err().code, "DESIGN_COMPOSITION_VERSION_INVALID");
    let mut moved = card(2);
    moved.root_node_id = nid("plain");
    assert!(update_composition(&mut d, moved).is_err());
    let restore = update_composition(&mut d, card(2)).unwrap();
    assert_eq!(restore, Command::UpdateComposition { composition: card(1) });
    assert_eq!(version_of(&d, "inst"), 2);
    assert_eq!(d.compositions.get("card").unwrap().definition_version, 2);

    let in_use = remove_composition(&mut d, &cid("card")).unwrap_err();
    assert_eq!(in_use.code, "DESIGN_COMPOSITION_IN_USE");
    assert_eq!(in_use.node_id, Some(nid("card-root")));
    d.nodes.remove("inst");
    let back = remove_composition(&mut d, &cid("card")).unwrap();
    assert_eq!(back, Command::DefineComposition { composition: card(2) });
    assert!(d.compositions.is_empty());
    assert_eq!(remove_composition(&mut d, &cid("card")).unwrap_err().code, "DESIGN_COMPOSITION_MISSING");
}

#[test]
fn instance_inputs_are_edited_under_the_contract() {
    let mut d = design();
    define_composition(&mut d, card(1)).unwrap();
    let undo = set_composition_input(&mut d, &nid("inst"), "label", Some(PropertyValue::String("Bye".to_owned())), false).unwrap();
    assert_eq!(
        undo,
        Command::SetCompositionInput {
            node_id: nid("inst"),
            input: "label".to_owned(),
            value: Some(PropertyValue::String("Hello".to_owned())),
        }
    );
    assert_eq!(input_of(&d, "inst", "label", false), Some(PropertyValue::String("Bye".to_owned())));

    let over = set_composition_input(&mut d, &nid("inst"), "tone", Some(PropertyValue::String("loud".to_owned())), true).unwrap();
    assert_eq!(over, Command::SetCompositionOverride { node_id: nid("inst"), input: "tone".to_owned(), value: None });
    assert_eq!(input_of(&d, "inst", "tone", true), Some(PropertyValue::String("loud".to_owned())));
    set_composition_input(&mut d, &nid("inst"), "tone", None, true).unwrap();
    assert_eq!(input_of(&d, "inst", "tone", true), None);

    let before = d.clone();
    let cases = [
        (set_composition_input(&mut d, &nid("inst"), "label", Some(PropertyValue::String("x".to_owned())), true), "DESIGN_COMPOSITION_OVERRIDE_FORBIDDEN"),
        (set_composition_input(&mut d, &nid("inst"), "label", Some(PropertyValue::Integer(3)), false), "DESIGN_COMPOSITION_INPUT_TYPE"),
        (set_composition_input(&mut d, &nid("inst"), "size", None, false), "DESIGN_COMPOSITION_INPUT_UNKNOWN"),
        (set_composition_input(&mut d, &nid("inst"), "", None, false), "DESIGN_COMPOSITION_INPUT_INVALID"),
        (set_composition_input(&mut d, &nid("plain"), "label", None, false), "DESIGN_COMPOSITION_INSTANCE_REQUIRED"),
        (set_composition_input(&mut d, &nid("ghost"), "label", None, false), "DESIGN_NODE_MISSING"),
        (set_composition_input(&mut d, &nid("inst"), "label", Some(PropertyValue::Node(nid("ghost"))), false), "DESIGN_NODE_MISSING"),
    ];
    for (result, code) in cases {
        assert_eq!(result.unwrap_err().code, code);
    }
    assert_eq!(d, before);
}
