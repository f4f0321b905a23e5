use studio_design::design_rules::{parent_chain_cycles, validate_composition_values, validate_design, validate_responsive_override};
use studio_design::layout_rules::design_length_texts;
use studio_design::{
    CompositionId, CompositionInput, DesignNode, DesignNodeSource, DesignToken, InteractionId, LayoutProperties,
    NodeId, NodeKind, NodeParent, OrderedMap, ProjectId, PropertyValue, ResponsiveNodeOverride, ResponsiveVariantId,
    ReusableComposition, STUDIO_DESIGN_SCHEMA_VERSION, Screen, ScreenId, StudioDesign, StyleProperties, TokenId,
    TokenKind, TokenValue, ValueKind,
};

fn key(text: &str) -> Option<i64> {
    let value = text.trim().parse::<f64>().ok().filter(|v| v.is_finite())?;
    let bits = (value + 0.0).to_bits() as i64;
    Some(if bits < 0 { bits ^ i64::MAX } else { bits })
}

fn numbers(design: &StudioDesign) -> OrderedMap<String, i64> {
    let mut map = OrderedMap::new();
    for text in design_length_texts(design) {
        if let Some(k) = key(&text) {
            map.insert(text, k);
        }
    }
    map
}

fn nid(s: &str) -> NodeId {
    NodeId::new(s).unwrap()
}

fn sid(s: &str) -> ScreenId {
    ScreenId::new(s).unwrap()
}

fn cid(s: &str) -> CompositionId {
    CompositionId::new(s).unwrap()
}

/// A screen `home` whose root `root` holds one child `child`.
fn valid() -> StudioDesign {
    let mut design = StudioDesign::empty(ProjectId::new("p").unwrap(), "Demo");
    let mut root = DesignNode::primitive(nid("root"), "Root", NodeKind::Box);
    root.children.push(nid("child"));
    design.nodes.insert(nid("root"), root);
    design.nodes.insert(nid("child"), DesignNode::primitive(nid("child"), "Child", NodeKind::Text));
    design.parents.insert(nid("root"), NodeParent::Screen { screen_id: sid("home") });
    design.parents.insert(nid("child"), NodeParent::Node { node_id: nid("root") });
    design.screens.insert(
        sid("home"),
        Screen {
            schema_version: STUDIO_DESIGN_SCHEMA_VERSION,
            id: sid("home"),
            name: "Home".to_owned(),
            route: "/".to_owned(),
            root_node_id: nid("root"),
        },
    );
    design.screen_order.push(sid("home"));
    design
}

fn edit(design: &mut StudioDesign, id: &str, change: impl FnOnce(&mut DesignNode)) {
    let mut node = design.nodes.get(id).unwrap().clone();
    change(&mut node);
    design.nodes.insert(nid(id), node);
}

fn codes(design: &StudioDesign) -> Vec<(String, Option<String>)> {
    validate_design(design, &numbers(design))
        .into_iter()
        .map(|d| (d.code, d.node_id.map(|n| n.as_str().to_owned())))
        .collect()
}

fn code(c: &str, node: Option<&str>) -> (String, Option<String>) {
    (c.to_owned(), node.map(|n| n.to_owned()))
}

fn composition(version: u32) -> ReusableComposition {
    let mut inputs = OrderedMap::new();
    inputs.insert(
        "label".to_owned(),
        CompositionInput { value_kind: ValueKind::String, required: true, default: None, overridable: false },
    );
    ReusableComposition {
        schema_version: STUDIO_DESIGN_SCHEMA_VERSION,
        id: cid("card"),
        name: "Card".to_owned(),
        definition_version: version,
        root_node_id: nid("card-root"),
        inputs,
        slots: OrderedMap::new(),
    }
}

fn with_composition(mut design: StudioDesign) -> StudioDesign {
    design.nodes.insert(nid("card-root"), DesignNode::primitive(nid("card-root"), "Card", NodeKind::Box));
    design.parents.insert(nid("card-root"), NodeParent::Composition { composition_id: cid("card") });
    design.compositions.insert(cid("card"), composition(3));
    design
}

fn instance(version: u32, inputs: OrderedMap<String, PropertyValue>) -> DesignNodeSource {
    DesignNodeSource::CompositionInstance {
        composition_id: cid("card"),
        definition_version: version,
        inputs,
        admitted_overrides: OrderedMap::new(),
    }
}

fn label(text: &str) -> OrderedMap<String, PropertyValue> {
    let mut m = OrderedMap::new();
    m.insert("label".to_owned(), PropertyValue::String(text.to_owned()));
    m
}

#[test]
fn a_consistent_design_has_no_diagnostics() {
    assert!(codes(&valid()).is_empty());
    assert!(codes(&with_composition(valid())).is_empty());
    assert!(codes(&StudioDesign::empty(ProjectId::new("p").unwrap(), "Empty")).is_empty());
}

#[test]
fn header_problems_come_first_and_carry_no_node() {
    let mut design = valid();
    design.schema_version = 9;
    design.name = "   ".to_owned();
    design.screen_order.push(sid("home"));
    design.parents.remove("child");
    let found = codes(&design);
    assert_eq!(found[0], code("DESIGN_SCHEMA_UNSUPPORTED", None));
    assert_eq!(found[1], code("DESIGN_NAME_INVALID", None));
    assert_eq!(found[2], code("DESIGN_SCREEN_ORDER_INVALID", None));
    assert_eq!(found[3], code("DESIGN_PARENT_INDEX_INVALID", None));
    assert!(found.contains(&code("DESIGN_CHILD_INDEX_INVALID", Some("child"))));
}

#[test]
fn screen_order_must_name_each_screen_once() {
    let mut design = valid();
    design.screen_order.clear();
    assert_eq!(codes(&design), vec![code("DESIGN_SCREEN_ORDER_INVALID", None)]);
}

#[test]
fn screen_records_are_checked() {
    let mut design = valid();
    let mut screen = design.screens.get("home").unwrap().clone();
    screen.route = "home".to_owned();
    design.screens.insert(sid("home"), screen);
    assert_eq!(codes(&design), vec![code("DESIGN_SCREEN_INVALID", Some("root"))]);
}

#[test]
fn child_lists_are_checked() {
    let mut design = valid();
    edit(&mut design, "root", |n| n.children.push(nid("child")));
    assert_eq!(codes(&design), vec![code("DESIGN_CHILD_DUPLICATE", Some("root"))]);

    let mut design = valid();
    edit(&mut design, "root", |n| n.children.push(nid("ghost")));
    assert_eq!(codes(&design), vec![code("DESIGN_CHILD_INDEX_INVALID", Some("ghost"))]);
}

#[test]
fn node_identity_must_match_its_key() {
    let mut design = valid();
    edit(&mut design, "child", |n| n.id = nid("other"));
    assert_eq!(codes(&design), vec![code("DESIGN_NODE_SCHEMA_INVALID", Some("child"))]);
}

#[test]
fn composition_instances_are_checked() {
    let mut design = with_composition(valid());
    edit(&mut design, "child", |n| n.source = instance(3, label("Hi")));
    assert!(codes(&design).is_empty());

    edit(&mut design, "child", |n| n.source = instance(2, label("Hi")));
    assert_eq!(codes(&design), vec![code("DESIGN_COMPOSITION_VERSION_STALE", Some("child"))]);

    edit(&mut design, "child", |n| n.source = instance(3, OrderedMap::new()));
    assert_eq!(codes(&design), vec![code("DESIGN_COMPOSITION_INPUT_REQUIRED", Some("child"))]);

    let mut design = valid();
    edit(&mut design, "child", |n| n.source = instance(3, label("Hi")));
    assert_eq!(codes(&design), vec![code("DESIGN_COMPOSITION_MISSING", Some("child"))]);
}

#[test]
fn composition_values_follow_the_definition() {
    let design = with_composition(valid());
    let c = composition(3);
    let node = nid("child");
    assert!(validate_composition_values(&design, &c, &label("Hi"), &OrderedMap::new(), &node).is_ok());
    let mut wrong = OrderedMap::new();
    wrong.insert("label".to_owned(), PropertyValue::Integer(4));
    let err = validate_composition_values(&design, &c, &wrong, &OrderedMap::new(), &node).unwrap_err();
    assert_eq!(err.code, "DESIGN_COMPOSITION_INPUT_TYPE");
    let mut unknown = label("Hi");
    unknown.insert("size".to_owned(), PropertyValue::Integer(4));
    let err = validate_composition_values(&design, &c, &unknown, &OrderedMap::new(), &node).unwrap_err();
    assert_eq!(err.code, "DESIGN_COMPOSITION_INPUT_UNKNOWN");
    let err = validate_composition_values(&design, &c, &label("Hi"), &label("Bye"), &node).unwrap_err();
    assert_eq!(err.code, "DESIGN_COMPOSITION_OVERRIDE_FORBIDDEN");
}

#[test]
fn unknown_interactions_are_reported() {
    let mut design = valid();
    edit(&mut design, "child", |n| n.interaction_ids.push(InteractionId::new("tap").unwrap()));
    assert_eq!(codes(&design), vec![code("DESIGN_INTERACTION_MISSING", Some("child"))]);
}

#[test]
fn parent_cycles_are_found() {
    let mut design = valid();
    assert!(!parent_chain_cycles(&design, &nid("child")));
    design.parents.insert(nid("root"), NodeParent::Node { node_id: nid("child") });
    assert!(parent_chain_cycles(&design, &nid("child")));
    assert!(parent_chain_cycles(&design, &nid("root")));
    let found = codes(&design);
    assert!(found.contains(&code("DESIGN_PARENT_CYCLE", Some("child"))));
    assert!(found.contains(&code("DESIGN_PARENT_CYCLE", Some("root"))));
}

#[test]
fn properties_report_their_name() {
    let mut design = valid();
    edit(&mut design, "child", |n| {
        n.properties.insert("target".to_owned(), PropertyValue::Node(nid("ghost")));
    });
    let found = validate_design(&design, &numbers(&design));
    assert_eq!(found.len(), 1);
    assert_eq!(found[0].code, "DESIGN_NODE_MISSING");
    assert_eq!(found[0].message, "invalid node property target: a property references an unknown node");
}

#[test]
fn tokens_and_responsive_overrides_are_checked() {
    let mut design = valid();
    design.tokens.insert(
        TokenId::new("brand").unwrap(),
        DesignToken {
            schema_version: STUDIO_DESIGN_SCHEMA_VERSION,
            id: TokenId::new("other").unwrap(),
            name: "Brand".to_owned(),
            kind: TokenKind::String,
            value: TokenValue::String("x".to_owned()),
        },
    );
    assert_eq!(codes(&design), vec![code("DESIGN_TOKEN_INVALID", None)]);

    let mut design = valid();
    let value = ResponsiveNodeOverride {
        schema_version: STUDIO_DESIGN_SCHEMA_VERSION,
        properties: OrderedMap::new(),
        layout: LayoutProperties::default(),
        style: StyleProperties::default(),
    };
    assert!(validate_responsive_override(&design, &nid("child"), &value).is_ok());
    let stale = ResponsiveNodeOverride { schema_version: 7, ..value.clone() };
    assert_eq!(validate_responsive_override(&design, &nid("child"), &stale).unwrap_err().code, "DESIGN_RESPONSIVE_INVALID");
    edit(&mut design, "child", |n| {
        n.responsive_overrides.insert(ResponsiveVariantId::new("phone").unwrap(), value);
    });
    assert_eq!(codes(&design), vec![code("DESIGN_RESPONSIVE_INVALID", Some("child"))]);
}
