use studio_design::layout_rules::{design_length_texts, valid_length, validate_layout};
use studio_design::{
    Alignment, DesignNode, LayoutPosition, Length, LengthUnit, NodeId, NodeKind, NodeParent, OrderedMap, Placement,
    ProjectId, STUDIO_DESIGN_SCHEMA_VERSION, StudioDesign,
};

fn key(text: &str) -> Option<i64> {
    let value = text.trim().parse::<f64>().ok().filter(|v| v.is_finite())?;
    let bits = (value + 0.0).to_bits() as i64;
    Some(if bits < 0 { bits ^ i64::MAX } else { bits })
}

fn numbers(design: &StudioDesign) -> OrderedMap<String, i64> {
    let mut map = OrderedMap::new();
    for text in design_length_texts(design) {
        if let Some(k) = key(&text) {
            map.insert(text, k);
        }
    }
    map
}

fn px(value: &str) -> Length {
    Length { value: value.to_owned(), unit: LengthUnit::Pixels }
}

fn nid(s: &str) -> NodeId {
    NodeId::new(s).unwrap()
}

fn design_with(node: DesignNode, parent_kind: NodeKind) -> StudioDesign {
    let mut design = StudioDesign::empty(ProjectId::new("p").unwrap(), "Demo");
    let mut parent = DesignNode::primitive(nid("parent"), "Parent", parent_kind);
    parent.children.push(node.id.clone());
    design.parents.insert(node.id.clone(), NodeParent::Node { node_id: nid("parent") });
    design.nodes.insert(node.id.clone(), node);
    design.nodes.insert(nid("parent"), parent);
    design
}

fn codes(design: &StudioDesign) -> Vec<(String, String)> {
    validate_layout(design, &numbers(design)).into_iter().map(|d| (d.code, d.message)).collect()
}

#[test]
fn lengths_must_be_finite_non_negative_text() {
    let n = {
        let mut m = OrderedMap::new();
        for t in ["12", "-3", " 4.5 "] {
            m.insert(t.to_owned(), key(t).unwrap());
        }
        m
    };
    assert!(valid_length(&px("12"), false, true, &n));
    assert!(!valid_length(&px("-3"), false, true, &n));
    assert!(valid_length(&px("-3"), false, false, &n));
    assert!(valid_length(&px(" 4.5 "), false, true, &n));
    assert!(!valid_length(&px("abc"), false, true, &n));
    assert!(!valid_length(&px("  "), false, true, &n));
    let auto = Length { value: " auto ".to_owned(), unit: LengthUnit::Auto };
    assert!(valid_length(&auto, true, true, &n));
    assert!(!valid_length(&auto, false, true, &n));
    let wrong_auto = Length { value: "12".to_owned(), unit: LengthUnit::Auto };
    assert!(!valid_length(&wrong_auto, true, true, &n));
}

#[test]
fn clean_layouts_have_no_diagnostics() {
    let mut node = DesignNode::primitive(nid("card"), "Card", NodeKind::Row);
    node.layout.width = Some(px("100"));
    node.layout.min_width = Some(px("50"));
    node.layout.max_width = Some(px("200"));
    node.layout.gap = Some(px("8"));
    node.layout.alignment = Some(Alignment::SpaceBetween);
    assert!(codes(&design_with(node, NodeKind::Column)).is_empty());
}

#[test]
fn sizes_and_constraints_are_checked() {
    let mut node = DesignNode::primitive(nid("card"), "Card", NodeKind::Box);
    node.layout.width = Some(px("10"));
    node.layout.min_width = Some(px("50"));
    node.layout.max_width = Some(px("40"));
    node.layout.padding = Some(px("-1"));
    let found = codes(&design_with(node, NodeKind::Column));
    assert_eq!(
        found,
        vec![
            ("DESIGN_LAYOUT_LENGTH_INVALID".to_owned(), "padding must be a finite, non-negative length with a supported unit".to_owned()),
            ("DESIGN_LAYOUT_CONSTRAINT_INVALID".to_owned(), "minimum width must not exceed maximum width".to_owned()),
            ("DESIGN_LAYOUT_CONSTRAINT_INVALID".to_owned(), "width is below its minimum constraint".to_owned()),
        ]
    );
}

#[test]
fn container_grid_and_overlay_rules() {
    let mut text = DesignNode::primitive(nid("text"), "Text", NodeKind::Text);
    text.layout.gap = Some(px("4"));
    text.layout.grid_columns = Some(0);
    text.layout.placement = Some(Placement::Overlay);
    let found: Vec<String> = codes(&design_with(text, NodeKind::Column)).into_iter().map(|c| c.1).collect();
    assert_eq!(
        found,
        vec![
            "gaps may only be authored on a layout container",
            "grid_columns must be between 1 and 64",
            "grid_columns requires a Grid container",
            "overlay and absolute placement require a Stack parent",
        ]
    );
    let mut badge = DesignNode::primitive(nid("badge"), "Badge", NodeKind::Text);
    badge.layout.placement = Some(Placement::Absolute);
    badge.layout.position = Some(LayoutPosition {
        schema_version: STUDIO_DESIGN_SCHEMA_VERSION,
        top: Some(px("-4")),
        right: Some(px("x")),
        bottom: None,
        left: None,
    });
    let found = codes(&design_with(badge, NodeKind::Stack));
    assert_eq!(found.len(), 1);
    assert_eq!(found[0].1, "overlay edges must be finite lengths with a supported unit");
}
