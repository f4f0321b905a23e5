use studio_design::{
    BindingId, BindingPath, BindingSource, CollectionId, Command, ContentBinding, ContentCollection,
    ContentCollectionSchema, ContentFieldKind, ContentFieldSchema, ContentFixture, ContentRecord, DesignNode,
    FixtureKind, FormDefinition, FormFieldSchema, FormId, NodeId, NodeKind, OrderedMap, ProjectId, PropertyValue, RecordId,
    ResponsiveNodeOverride, ResponsiveVariant, ResponsiveVariantId, STUDIO_DESIGN_SCHEMA_VERSION, StudioDesign,
    apply_command,
};
use studio_design::{InputEnvironment, LayoutProperties, StyleProperties};

fn cid() -> CollectionId {
    CollectionId::new("posts").unwrap()
}

fn schema(required_views: bool) -> ContentCollectionSchema {
    let mut fields = OrderedMap::new();
    fields.insert("title".to_owned(), ContentFieldSchema { kind: ContentFieldKind::String, required: true });
    fields.insert("views".to_owned(), ContentFieldSchema { kind: ContentFieldKind::Integer, required: required_views });
    ContentCollectionSchema { schema_version: STUDIO_DESIGN_SCHEMA_VERSION, fields }
}

fn record(id: &str, title: &str) -> ContentRecord {
    let mut values = OrderedMap::new();
    values.insert("title".to_owned(), PropertyValue::String(title.to_owned()));
    ContentRecord { schema_version: STUDIO_DESIGN_SCHEMA_VERSION, id: RecordId::new(id).unwrap(), values }
}

fn collection() -> ContentCollection {
    let mut records = OrderedMap::new();
    records.insert(RecordId::new("a").unwrap(), record("a", "First"));
    ContentCollection {
        schema_version: STUDIO_DESIGN_SCHEMA_VERSION,
        id: cid(),
        name: "Posts".to_owned(),
        schema: schema(false),
        records,
        fixture: ContentFixture {
            schema_version: STUDIO_DESIGN_SCHEMA_VERSION,
            kind: FixtureKind::Populated,
            edge_records: Vec::new(),
            error_message: None,
        },
    }
}

fn design() -> StudioDesign {
    let mut design = StudioDesign::empty(ProjectId::new("project").unwrap(), "Demo");
    design.nodes.insert(NodeId::new("label").unwrap(), DesignNode::primitive(NodeId::new("label").unwrap(), "Label", NodeKind::Text));
    design
}

fn binding() -> ContentBinding {
    ContentBinding {
        schema_version: STUDIO_DESIGN_SCHEMA_VERSION,
        id: BindingId::new("bind").unwrap(),
        node_id: NodeId::new("label").unwrap(),
        property: "text".to_owned(),
        source: BindingSource { collection_id: cid(), field: "title".to_owned() },
        expected_kind: ContentFieldKind::String,
        fallback: None,
        repeated: false,
    }
}

#[test]
fn collections_are_created_and_deleted_with_their_bindings() {
    let mut design = design();
    let inverse = apply_command(&mut design, Command::CreateCollection { collection: collection() }).unwrap();
    assert!(matches!(&inverse, Command::DeleteCollection { collection_id } if collection_id.as_str() == "posts"));
    let err = apply_command(&mut design, Command::CreateCollection { collection: collection() }).unwrap_err();
    assert_eq!(err.code, "CONTENT_COLLECTION_EXISTS");
    apply_command(&mut design, Command::UpsertBinding { binding: binding() }).unwrap();
    assert!(design.bindings.contains_key("bind"));
    let restore = apply_command(&mut design, inverse).unwrap();
    assert!(!design.collections.contains_key("posts"));
    assert!(!design.bindings.contains_key("bind"));
    assert!(matches!(restore, Command::CreateCollection { .. }));
    let err = apply_command(&mut design, Command::DeleteCollection { collection_id: cid() }).unwrap_err();
    assert_eq!(err.code, "CONTENT_COLLECTION_MISSING");
}

#[test]
fn invalid_collections_are_refused() {
    let mut design = design();
    let mut unnamed = collection();
    unnamed.name = "  ".to_owned();
    let err = apply_command(&mut design, Command::CreateCollection { collection: unnamed }).unwrap_err();
    assert_eq!(err.code, "CONTENT_COLLECTION_NAME_INVALID");
    let mut old = collection();
    old.schema_version = 9;
    let err = apply_command(&mut design, Command::CreateCollection { collection: old }).unwrap_err();
    assert_eq!(err.code, "CONTENT_COLLECTION_SCHEMA_INVALID");
    assert!(design.collections.is_empty());
}

#[test]
fn records_are_created_updated_and_deleted() {
    let mut design = design();
    apply_command(&mut design, Command::CreateCollection { collection: collection() }).unwrap();
    let undo = apply_command(&mut design, Command::CreateRecord { collection_id: cid(), record: record("b", "Second") }).unwrap();
    assert!(design.collections.get("posts").unwrap().records.contains_key("b"));
    let err = apply_command(&mut design, Command::CreateRecord { collection_id: cid(), record: record("b", "Again") }).unwrap_err();
    assert_eq!(err.code, "CONTENT_RECORD_EXISTS");
    let mut values = OrderedMap::new();
    values.insert("title".to_owned(), PropertyValue::String("Changed".to_owned()));
    let back = apply_command(&mut design, Command::UpdateRecord { collection_id: cid(), record_id: RecordId::new("b").unwrap(), values }).unwrap();
    assert_eq!(
        design.collections.get("posts").unwrap().records.get("b").unwrap().values.get("title"),
        Some(&PropertyValue::String("Changed".to_owned()))
    );
    apply_command(&mut design, back).unwrap();
    assert_eq!(
        design.collections.get("posts").unwrap().records.get("b").unwrap().values.get("title"),
        Some(&PropertyValue::String("Second".to_owned()))
    );
    apply_command(&mut design, undo).unwrap();
    assert!(!design.collections.get("posts").unwrap().records.contains_key("b"));
    let err = apply_command(&mut design, Command::DeleteRecord { collection_id: cid(), record_id: RecordId::new("b").unwrap() }).unwrap_err();
    assert_eq!(err.code, "CONTENT_RECORD_MISSING");
}

#[test]
fn schemas_that_break_records_are_refused() {
    let mut design = design();
    apply_command(&mut design, Command::CreateCollection { collection: collection() }).unwrap();
    let err = apply_command(&mut design, Command::UpdateCollectionSchema { collection_id: cid(), schema: schema(true) }).unwrap_err();
    assert_eq!(err.code, "CONTENT_SCHEMA_BREAKS_RECORDS");
    assert!(err.message.starts_with("new schema would invalidate record 'a': "));
    let mut optional = schema(false);
    optional.fields.insert("summary".to_owned(), ContentFieldSchema { kind: ContentFieldKind::String, required: false });
    let back = apply_command(&mut design, Command::UpdateCollectionSchema { collection_id: cid(), schema: optional }).unwrap();
    assert!(design.collections.get("posts").unwrap().schema.fields.contains_key("summary"));
    apply_command(&mut design, back).unwrap();
    assert!(!design.collections.get("posts").unwrap().schema.fields.contains_key("summary"));
}

#[test]
fn fixtures_forms_and_bindings_round_trip() {
    let mut design = design();
    apply_command(&mut design, Command::CreateCollection { collection: collection() }).unwrap();
    let empty_fixture = ContentFixture {
        schema_version: STUDIO_DESIGN_SCHEMA_VERSION,
        kind: FixtureKind::Empty,
        edge_records: Vec::new(),
        error_message: None,
    };
    let back = apply_command(&mut design, Command::SetFixture { collection_id: cid(), fixture: empty_fixture }).unwrap();
    assert_eq!(design.collections.get("posts").unwrap().fixture.kind, FixtureKind::Empty);
    apply_command(&mut design, back).unwrap();
    assert_eq!(design.collections.get("posts").unwrap().fixture.kind, FixtureKind::Populated);

    let mut fields = OrderedMap::new();
    fields.insert(
        "email".to_owned(),
        FormFieldSchema {
            kind: ContentFieldKind::String,
            required: true,
            minimum_length: None,
            maximum_length: None,
            pattern: None,
            minimum_value: None,
            maximum_value: None,
        },
    );
    let form = FormDefinition {
        schema_version: STUDIO_DESIGN_SCHEMA_VERSION,
        id: FormId::new("signup").unwrap(),
        name: "Signup".to_owned(),
        target_collection_id: Some(CollectionId::new("missing").unwrap()),
        fields,
    };
    let err = apply_command(&mut design, Command::UpsertForm { form: form.clone() }).unwrap_err();
    assert_eq!(err.code, "FORM_TARGET_COLLECTION_MISSING");
    let mut targeted = form;
    targeted.target_collection_id = Some(cid());
    let undo = apply_command(&mut design, Command::UpsertForm { form: targeted }).unwrap();
    assert!(matches!(&undo, Command::RemoveForm { form_id } if form_id.as_str() == "signup"));
    apply_command(&mut design, undo).unwrap();
    assert!(design.forms.is_empty());
    let err = apply_command(&mut design, Command::RemoveForm { form_id: FormId::new("signup").unwrap() }).unwrap_err();
    assert_eq!(err.code, "FORM_MISSING");

    let mut orphan = binding();
    orphan.node_id = NodeId::new("ghost").unwrap();
    let err = apply_command(&mut design, Command::UpsertBinding { binding: orphan }).unwrap_err();
    assert_eq!(err.code, "CONTENT_BINDING_NODE_MISSING");
    let err = apply_command(&mut design, Command::RemoveBinding { binding_id: BindingId::new("bind").unwrap() }).unwrap_err();
    assert_eq!(err.code, "CONTENT_BINDING_MISSING");
}

fn variant_design() -> StudioDesign {
    let mut design = design();
    let variant = ResponsiveVariant {
        schema_version: STUDIO_DESIGN_SCHEMA_VERSION,
        id: ResponsiveVariantId::new("phone").unwrap(),
        name: "Phone".to_owned(),
        minimum_width: Some(0),
        maximum_width: Some(599),
        input: InputEnvironment::Touch,
    };
    apply_command(&mut design, Command::DefineResponsiveVariant { variant }).unwrap();
    design
}

#[test]
fn breakpoint_properties_and_overrides_round_trip() {
    let mut design = variant_design();
    let back = apply_command(
        &mut design,
        Command::SetBreakpointProperty {
            node_id: NodeId::new("label").unwrap(),
            variant_id: ResponsiveVariantId::new("phone").unwrap(),
            property: "text".to_owned(),
            value: Some(PropertyValue::String("Hi".to_owned())),
        },
    )
    .unwrap();
    assert!(design.nodes.get("label").unwrap().responsive_overrides.contains_key("phone"));
    apply_command(&mut design, back).unwrap();
    assert!(!design.nodes.get("label").unwrap().responsive_overrides.contains_key("phone"));

    let whole = ResponsiveNodeOverride {
        schema_version: STUDIO_DESIGN_SCHEMA_VERSION,
        properties: OrderedMap::new(),
        layout: LayoutProperties::default(),
        style: StyleProperties::default(),
    };
    let back = apply_command(
        &mut design,
        Command::SetResponsiveOverride {
            node_id: NodeId::new("label").unwrap(),
            variant_id: ResponsiveVariantId::new("phone").unwrap(),
            value: Some(whole),
        },
    )
    .unwrap();
    assert!(design.nodes.get("label").unwrap().responsive_overrides.contains_key("phone"));
    assert!(matches!(&back, Command::SetResponsiveOverride { value: None, .. }));
    let err = apply_command(
        &mut design,
        Command::SetResponsiveOverride {
            node_id: NodeId::new("label").unwrap(),
            variant_id: ResponsiveVariantId::new("tablet").unwrap(),
            value: None,
        },
    )
    .unwrap_err();
    assert_eq!(err.code, "DESIGN_RESPONSIVE_MISSING");
}

#[test]
fn bindings_are_written_as_property_values() {
    let mut design = design();
    let path = BindingPath { collection: "posts".to_owned(), segments: vec!["title".to_owned()] };
    let back = apply_command(
        &mut design,
        Command::SetBinding { node_id: NodeId::new("label").unwrap(), property: "text".to_owned(), binding: Some(path) },
    )
    .unwrap();
    assert!(matches!(design.nodes.get("label").unwrap().properties.get("text"), Some(PropertyValue::Binding(_))));
    apply_command(&mut design, back).unwrap();
    assert!(design.nodes.get("label").unwrap().properties.get("text").is_none());
    let bad = BindingPath { collection: "posts".to_owned(), segments: Vec::new() };
    assert!(apply_command(
        &mut design,
        Command::SetBinding { node_id: NodeId::new("label").unwrap(), property: "text".to_owned(), binding: Some(bad) },
    )
    .is_err());
}
