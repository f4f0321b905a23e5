use studio_design::engine::{
    create_token, define_responsive_variant, define_token, design_references_token, edit_token,
    remove_responsive_variant, remove_token, rename_token, set_breakpoint_override, update_responsive_variant,
    update_token, validate_responsive_variant, validate_token,
};
use studio_design::{
    ColorValue, Command, DesignNode, DesignToken, InputEnvironment, LayoutProperties, Length, LengthUnit, NodeId,
    NodeKind, OrderedMap, Paint, ProjectId, PropertyValue, ResponsiveNodeOverride, ResponsiveVariant,
    ResponsiveVariantId, STUDIO_DESIGN_SCHEMA_VERSION, StudioDesign, StyleProperties, TokenId, TokenKind, TokenValue,
};

fn tid(s: &str) -> TokenId {
    TokenId::new(s).unwrap()
}

fn color_token(id: &str, hex: &str) -> DesignToken {
    DesignToken {
        schema_version: STUDIO_DESIGN_SCHEMA_VERSION,
        id: tid(id),
        name: format!("Token {id}"),
        kind: TokenKind::Color,
        value: TokenValue::Color(ColorValue::SrgbHex(hex.to_owned())),
    }
}

fn empty() -> StudioDesign {
    StudioDesign::empty(ProjectId::new("p").unwrap(), "Demo")
}

fn variant(id: &str, min: Option<u32>, max: Option<u32>) -> ResponsiveVariant {
    ResponsiveVariant {
        schema_version: STUDIO_DESIGN_SCHEMA_VERSION,
        id: ResponsiveVariantId::new(id).unwrap(),
        name: id.to_owned(),
        minimum_width: min,
        maximum_width: max,
        input: InputEnvironment::Any,
    }
}

#[test]
fn token_records_are_validated() {
    assert!(validate_token(&color_token("brand", "#000000")).is_ok());
    let mut wrong_kind = color_token("brand", "#000000");
    wrong_kind.kind = TokenKind::Length;
    assert_eq!(validate_token(&wrong_kind).unwrap_err().code, "DESIGN_TOKEN_VALUE_KIND_MISMATCH");
    let mut unnamed = color_token("brand", "#000000");
    unnamed.name = " ".to_owned();
    assert_eq!(validate_token(&unnamed).unwrap_err().code, "DESIGN_TOKEN_NAME_INVALID");
    let mut old = color_token("brand", "#000000");
    old.schema_version = 9;
    assert_eq!(validate_token(&old).unwrap_err().message, "a token schema version is unsupported");
}

#[test]
fn define_update_remove_token_round_trip() {
    let mut design = empty();
    let inverse = define_token(&mut design, color_token("brand", "#111111")).unwrap();
    assert_eq!(inverse, Command::RemoveToken { token_id: tid("brand") });
    assert_eq!(define_token(&mut design, color_token("brand", "#222222")).unwrap_err().code, "DESIGN_TOKEN_EXISTS");
    let back = update_token(&mut design, color_token("brand", "#333333")).unwrap();
    assert_eq!(back, Command::UpdateToken { token: color_token("brand", "#111111") });
    assert_eq!(design.tokens.get("brand").unwrap().value, TokenValue::Color(ColorValue::SrgbHex("#333333".to_owned())));
    assert_eq!(update_token(&mut design, color_token("other", "#000000")).unwrap_err().code, "DESIGN_TOKEN_MISSING");
    let defined = remove_token(&mut design, &tid("brand")).unwrap();
    assert_eq!(defined, Command::DefineToken { token: color_token("brand", "#333333") });
    assert!(design.tokens.is_empty());
    assert_eq!(design, empty());
}

#[test]
fn tokens_in_use_cannot_be_removed() {
    let mut design = empty();
    define_token(&mut design, color_token("brand", "#111111")).unwrap();
    let mut node = DesignNode::primitive(NodeId::new("n").unwrap(), "N", NodeKind::Box);
    node.properties.insert(
        "colors".to_owned(),
        PropertyValue::List(vec![PropertyValue::Integer(1), PropertyValue::List(vec![PropertyValue::Token(tid("brand"))])]),
    );
    design.nodes.insert(NodeId::new("n").unwrap(), node);
    assert!(design_references_token(&design, &tid("brand")));
    assert!(!design_references_token(&design, &tid("other")));
    let err = remove_token(&mut design, &tid("brand")).unwrap_err();
    assert_eq!(err.code, "DESIGN_TOKEN_IN_USE");
    let mut styled = empty();
    let mut n = DesignNode::primitive(NodeId::new("s").unwrap(), "S", NodeKind::Box);
    n.style.border_color = Some(Paint::Token(tid("line")));
    styled.nodes.insert(NodeId::new("s").unwrap(), n);
    assert!(design_references_token(&styled, &tid("line")));
}

#[test]
fn create_edit_rename_token() {
    let mut design = empty();
    assert_eq!(
        create_token(&mut design, color_token("brand", "#111111")).unwrap(),
        Command::DeleteToken { token_id: tid("brand"), confirm: true }
    );
    let err = create_token(&mut design, color_token("brand", "#111111")).unwrap_err();
    assert_eq!(err.message, "token identity brand already exists");
    let back = edit_token(&mut design, &tid("brand"), TokenValue::Color(ColorValue::Semantic("accent".to_owned()))).unwrap();
    assert_eq!(back, Command::EditToken { token_id: tid("brand"), value: TokenValue::Color(ColorValue::SrgbHex("#111111".to_owned())) });
    let mismatch = edit_token(&mut design, &tid("brand"), TokenValue::Number("1".to_owned())).unwrap_err();
    assert_eq!(mismatch.code, "DESIGN_TOKEN_VALUE_KIND_MISMATCH");
    let missing = edit_token(&mut design, &tid("nope"), TokenValue::Number("1".to_owned())).unwrap_err();
    assert_eq!(missing.message, "the command references unknown token nope");
    let renamed = rename_token(&mut design, &tid("brand"), "Brand").unwrap();
    assert_eq!(renamed, Command::RenameToken { token_id: tid("brand"), name: "Token brand".to_owned() });
    assert_eq!(design.tokens.get("brand").unwrap().name, "Brand");
    assert_eq!(rename_token(&mut design, &tid("brand"), "").unwrap_err().code, "DESIGN_TOKEN_NAME_INVALID");
}

#[test]
fn responsive_variants_define_update_remove() {
    assert!(validate_responsive_variant(&variant("wide", Some(10), Some(20))).is_ok());
    assert_eq!(
        validate_responsive_variant(&variant("bad", Some(30), Some(20))).unwrap_err().message,
        "a responsive variant minimum width cannot exceed its maximum width"
    );
    let mut long = variant("long", None, None);
    long.name = "v".repeat(129);
    assert_eq!(
        validate_responsive_variant(&long).unwrap_err().message,
        "a responsive variant name must contain 1..=128 safe bytes"
    );
    long.name = "v".repeat(128);
    assert!(validate_responsive_variant(&long).is_ok());
    let mut design = empty();
    let inverse = define_responsive_variant(&mut design, variant("wide", Some(1024), None)).unwrap();
    assert_eq!(inverse, Command::RemoveResponsiveVariant { variant_id: ResponsiveVariantId::new("wide").unwrap() });
    assert_eq!(
        define_responsive_variant(&mut design, variant("wide", None, None)).unwrap_err().code,
        "DESIGN_RESPONSIVE_EXISTS"
    );
    let prior = update_responsive_variant(&mut design, variant("wide", Some(1200), None)).unwrap();
    assert_eq!(prior, Command::UpdateResponsiveVariant { variant: variant("wide", Some(1024), None) });
    let mut node = DesignNode::primitive(NodeId::new("n").unwrap(), "N", NodeKind::Box);
    let o = ResponsiveNodeOverride {
        schema_version: STUDIO_DESIGN_SCHEMA_VERSION,
        properties: OrderedMap::new(),
        layout: LayoutProperties::default(),
        style: StyleProperties::default(),
    };
    node.responsive_overrides.insert(ResponsiveVariantId::new("wide").unwrap(), o);
    design.nodes.insert(NodeId::new("n").unwrap(), node);
    let vid = ResponsiveVariantId::new("wide").unwrap();
    assert_eq!(remove_responsive_variant(&mut design, &vid).unwrap_err().code, "DESIGN_RESPONSIVE_IN_USE");
    set_breakpoint_override(&mut design, &NodeId::new("n").unwrap(), &vid, None).unwrap();
    let defined = remove_responsive_variant(&mut design, &vid).unwrap();
    assert_eq!(defined, Command::DefineResponsiveVariant { variant: variant("wide", Some(1200), None) });
    assert_eq!(remove_responsive_variant(&mut design, &vid).unwrap_err().code, "DESIGN_RESPONSIVE_MISSING");
}

#[test]
fn breakpoint_override_replaces_and_restores() {
    let mut design = empty();
    let vid = ResponsiveVariantId::new("wide").unwrap();
    let node_id = NodeId::new("n").unwrap();
    design.nodes.insert(node_id.clone(), DesignNode::primitive(node_id.clone(), "N", NodeKind::Box));
    let mut layout = LayoutProperties::default();
    layout.width = Some(Length { value: "10".to_owned(), unit: LengthUnit::Pixels });
    let o = ResponsiveNodeOverride {
        schema_version: STUDIO_DESIGN_SCHEMA_VERSION,
        properties: OrderedMap::new(),
        layout,
        style: StyleProperties::default(),
    };
    let err = set_breakpoint_override(&mut design, &node_id, &vid, Some(o.clone())).unwrap_err();
    assert_eq!(err.code, "DESIGN_RESPONSIVE_VARIANT_MISSING");
    define_responsive_variant(&mut design, variant("wide", None, None)).unwrap();
    let before = design.clone();
    let mut old_schema = o.clone();
    old_schema.schema_version = 0;
    assert_eq!(
        set_breakpoint_override(&mut design, &node_id, &vid, Some(old_schema)).unwrap_err().code,
        "DESIGN_RESPONSIVE_INVALID"
    );
    let inverse = set_breakpoint_override(&mut design, &node_id, &vid, Some(o.clone())).unwrap();
    assert_eq!(design.nodes.get("n").unwrap().responsive_overrides.get("wide"), Some(&o));
    let Command::SetBreakpointOverride { node_id: n, variant_id: v, value } = inverse else { panic!("unexpected inverse") };
    assert!(value.is_none());
    set_breakpoint_override(&mut design, &n, &v, value.map(|b| *b)).unwrap();
    assert_eq!(design, before);
}
